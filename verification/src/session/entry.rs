//! The entries of a session file, and what a listing knows of a session.
//!
//! Instants are nanoseconds since the Unix epoch. Message identifiers are UUIDs by their
//! 128-bit value.

use vstd::prelude::*;

use crate::message::{Message, MessageView};

verus! {

/// The version of the file format that is written, and the newest that is read.
pub const CURRENT_VERSION: u32 = 1;

/// The version of a header that names none.
pub fn default_version() -> (r: u32)
    ensures
        r == CURRENT_VERSION,
{
    CURRENT_VERSION
}

/// The characters of an optional string.
pub open spec fn opt_view(s: Option<String>) -> Option<Seq<char>> {
    match s {
        Some(s) => Some(s@),
        None => None,
    }
}

/// Copies an optional string.
pub fn clone_opt(s: &Option<String>) -> (r: Option<String>)
    ensures
        opt_view(r) == opt_view(*s),
{
    match s {
        Some(s) => Some(s.clone()),
        None => None,
    }
}

/// Where a title comes from.
#[derive(Clone, Copy, Debug, PartialEq, Eq, Structural)]
pub enum TitleSource {
    FirstPrompt,
    AiGenerated,
    UserProvided,
}

impl Default for TitleSource {
    fn default() -> (r: Self)
        ensures
            r == TitleSource::FirstPrompt,
    {
        TitleSource::FirstPrompt
    }
}

/// What a tool says about its result, for display only.
#[derive(Debug, PartialEq, Eq)]
pub struct ToolMetadata {
    pub title: Option<String>,
    pub replacements: Option<u64>,
}

/// Tool metadata by its characters.
#[verifier::ext_equal]
pub ghost struct MetadataView {
    pub title: Option<Seq<char>>,
    pub replacements: Option<u64>,
}

impl View for ToolMetadata {
    type V = MetadataView;

    open spec fn view(&self) -> MetadataView {
        MetadataView { title: opt_view(self.title), replacements: self.replacements }
    }
}

impl MetadataView {
    /// Metadata that says nothing.
    pub open spec fn is_default(self) -> bool {
        self.title is None && self.replacements is None
    }
}

impl Default for ToolMetadata {
    fn default() -> (r: Self)
        ensures
            r@.is_default(),
    {
        ToolMetadata { title: None, replacements: None }
    }
}

impl ToolMetadata {
    /// Whether it says nothing.
    pub fn is_default(&self) -> (r: bool)
        ensures
            r == self@.is_default(),
    {
        self.title.is_none() && self.replacements.is_none()
    }
}

/// How much of a file was seen.
#[derive(Clone, Copy, Debug, PartialEq, Eq, Structural)]
pub enum LastView {
    Full,
    Partial { offset: u64, limit: u64 },
}

/// What was known of a file when the session ended.
#[derive(Debug, PartialEq, Eq)]
pub struct FileSnapshot {
    pub path: String,
    pub content_hash: u64,
    pub mtime: i128,
    pub size: u64,
    pub last_view: LastView,
    pub recorded_at: i128,
}

/// One line of a session file.
#[derive(Debug, PartialEq)]
pub enum Entry {
    Header {
        session_id: String,
        cwd: String,
        model: String,
        created_at: i128,
        version: u32,
        git_branch: Option<String>,
    },
    Message { uuid: u128, parent_uuid: Option<u128>, message: Message, timestamp: i128 },
    Title { title: String, source: TitleSource, updated_at: i128 },
    Summary { message_count: u32, updated_at: i128 },
    /// Display sidecar of a tool result, found again by its `tool_use_id`.
    ToolResultMetadata { tool_use_id: String, metadata: ToolMetadata, timestamp: i128 },
    FileSnapshot { snapshot: FileSnapshot },
    /// The point where the conversation so far was replaced by a summary.
    Compact { summary: String, instructions: Option<String>, timestamp: i128 },
    /// An entry of a kind that this version does not know.
    Unknown,
}

/// An entry by its characters.
#[verifier::ext_equal]
pub ghost enum EntryView {
    Header {
        session_id: Seq<char>,
        cwd: Seq<char>,
        model: Seq<char>,
        created_at: i128,
        version: u32,
        git_branch: Option<Seq<char>>,
    },
    Message { uuid: u128, parent_uuid: Option<u128>, message: MessageView, timestamp: i128 },
    Title { title: Seq<char>, source: TitleSource, updated_at: i128 },
    Summary { message_count: u32, updated_at: i128 },
    ToolResultMetadata { tool_use_id: Seq<char>, metadata: MetadataView, timestamp: i128 },
    FileSnapshot { snapshot: FileSnapshot },
    Compact { summary: Seq<char>, instructions: Option<Seq<char>>, timestamp: i128 },
    Unknown,
}

impl View for Entry {
    type V = EntryView;

    open spec fn view(&self) -> EntryView {
        match *self {
            Entry::Header { session_id, cwd, model, created_at, version, git_branch } => {
                EntryView::Header {
                    session_id: session_id@,
                    cwd: cwd@,
                    model: model@,
                    created_at,
                    version,
                    git_branch: opt_view(git_branch),
                }
            },
            Entry::Message { uuid, parent_uuid, message, timestamp } => EntryView::Message {
                uuid,
                parent_uuid,
                message: message@,
                timestamp,
            },
            Entry::Title { title, source, updated_at } => EntryView::Title {
                title: title@,
                source,
                updated_at,
            },
            Entry::Summary { message_count, updated_at } => EntryView::Summary {
                message_count,
                updated_at,
            },
            Entry::ToolResultMetadata { tool_use_id, metadata, timestamp } => {
                EntryView::ToolResultMetadata {
                    tool_use_id: tool_use_id@,
                    metadata: metadata@,
                    timestamp,
                }
            },
            Entry::FileSnapshot { snapshot } => EntryView::FileSnapshot { snapshot },
            Entry::Compact { summary, instructions, timestamp } => EntryView::Compact {
                summary: summary@,
                instructions: opt_view(instructions),
                timestamp,
            },
            Entry::Unknown => EntryView::Unknown,
        }
    }
}

/// The entries of `v`, by their characters.
pub open spec fn entry_views(v: Seq<Entry>) -> Seq<EntryView> {
    v.map_values(|e: Entry| e@)
}

/// A title and when it was given.
#[derive(Debug, PartialEq, Eq)]
pub struct TitleInfo {
    pub title: String,
    pub updated_at: i128,
}

/// How many messages a session ended with, and when.
#[derive(Clone, Copy, Debug, PartialEq, Eq)]
pub struct ExitInfo {
    pub message_count: u32,
    pub updated_at: i128,
}

/// What a listing shows of a session.
#[derive(Debug, PartialEq, Eq)]
pub struct SessionInfo {
    pub session_id: String,
    pub cwd: String,
    pub model: String,
    pub created_at: i128,
    pub last_active_at: i128,
    pub title: Option<TitleInfo>,
    pub exit: Option<ExitInfo>,
    pub git_branch: Option<String>,
}

} // verus!
