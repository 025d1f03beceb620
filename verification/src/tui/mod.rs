//! What stands above the conversation: keys, overlays, lists and where they are drawn.

pub mod kv_overview;
pub mod list_picker;
pub mod modal;
pub mod searchable_list;
