//! Conversation sessions: what is recorded, how it is read back and repaired.

pub mod actor;
pub mod chain;
pub mod clock;
pub mod display;
pub mod entry;
pub mod handle;
pub mod history;
pub mod list_view;
pub mod manager;
pub mod path;
pub mod reading;
pub mod resolver;
pub mod round_trip;
pub mod sanitize;
pub mod state;
pub mod store;
pub mod title_generator;
