//! Slash commands: how they are typed, found, completed and carried out.

pub mod command;
pub mod config;
pub mod confirm;
pub mod context;
pub mod delete;
pub mod diff;
pub mod dispatch;
pub mod effort;
pub mod effort_slider;
pub mod format;
pub mod help;
pub mod init;
pub mod matcher;
pub mod model;
pub mod parser;
pub mod picker;
pub mod registry;
pub mod rename;
pub mod resume;
pub mod status;
pub mod status_modal;
pub mod theme;
