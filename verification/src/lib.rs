//! Session persistence and slash-command logic of a terminal coding assistant.

pub mod config;
pub mod event;
pub mod home;
pub mod ident;
pub mod message;
pub mod model;
pub mod order;
pub mod session;
pub mod slash;
pub mod text;
pub mod tui;
pub mod width;
