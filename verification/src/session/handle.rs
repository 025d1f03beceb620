//! What the handles of a session share with its writer, and what they tell their callers.

use vstd::prelude::*;
use vstd::string::*;

use crate::message::{message_views, Message, MessageView};
use crate::session::entry::{clone_opt, opt_view, FileSnapshot};
use crate::session::sanitize::{sanitize_resumed_messages, sanitized};
use crate::session::state::{extract_user_text, user_text, SessionState, StateView};
use crate::session::store::{MetadataTable, SessionData};

verus! {

/// Failure flags and the manual-title latch of one session. Each flag is set once and stays.
#[derive(Debug)]
pub struct SharedState {
    flush_failure_surfaced: bool,
    actor_gone_surfaced: bool,
    manual_title_set: bool,
    last_flush_failure: Option<String>,
}

/// What is shared, by its characters.
#[verifier::ext_equal]
pub ghost struct SharedView {
    /// A flush failure was told to a caller.
    pub flush_surfaced: bool,
    /// A caller was told that the writer is gone.
    pub gone_surfaced: bool,
    /// The user gave the session a title.
    pub manual_title: bool,
    /// The last flush failure.
    pub last_failure: Option<Seq<char>>,
}

impl View for SharedState {
    type V = SharedView;

    closed spec fn view(&self) -> SharedView {
        SharedView {
            flush_surfaced: self.flush_failure_surfaced,
            gone_surfaced: self.actor_gone_surfaced,
            manual_title: self.manual_title_set,
            last_failure: opt_view(self.last_flush_failure),
        }
    }
}

impl SharedView {
    /// Nothing has happened yet.
    pub open spec fn initial() -> SharedView {
        SharedView {
            flush_surfaced: false,
            gone_surfaced: false,
            manual_title: false,
            last_failure: None,
        }
    }
}

impl Default for SharedState {
    fn default() -> (r: Self)
        ensures
            r@ == SharedView::initial(),
    {
        SharedState {
            flush_failure_surfaced: false,
            actor_gone_surfaced: false,
            manual_title_set: false,
            last_flush_failure: None,
        }
    }
}

impl SharedState {
    /// Remembers `msg` as the last flush failure.
    pub fn record_flush_failure(&mut self, msg: &str)
        ensures
            final(self)@ == (SharedView { last_failure: Some(msg@), ..old(self)@ }),
    {
        self.last_flush_failure = Some(msg.to_owned());
    }

    /// `true` on the first call, `false` on every later one, so that a failure is told once.
    pub fn surface_first_flush_failure(&mut self) -> (r: bool)
        ensures
            r == !old(self)@.flush_surfaced,
            final(self)@ == (SharedView { flush_surfaced: true, ..old(self)@ }),
    {
        let first: bool = !self.flush_failure_surfaced;
        self.flush_failure_surfaced = true;
        first
    }

    /// `true` on the first call, `false` on every later one.
    pub fn surface_first_actor_gone(&mut self) -> (r: bool)
        ensures
            r == !old(self)@.gone_surfaced,
            final(self)@ == (SharedView { gone_surfaced: true, ..old(self)@ }),
    {
        let first: bool = !self.actor_gone_surfaced;
        self.actor_gone_surfaced = true;
        first
    }

    /// The last flush failure.
    pub fn last_flush_failure(&self) -> (r: Option<String>)
        ensures
            opt_view(r) == self@.last_failure,
    {
        clone_opt(&self.last_flush_failure)
    }

    /// Whether the user gave the session a title.
    pub fn manual_title_set(&self) -> (r: bool)
        ensures
            r == self@.manual_title,
    {
        self.manual_title_set
    }

    /// Latches that the user gave the session a title.
    pub fn mark_manual_title_set(&mut self)
        ensures
            final(self)@ == (SharedView { manual_title: true, ..old(self)@ }),
    {
        self.manual_title_set = true;
    }

    /// What a caller is told when the writer is gone: once, and with the last flush failure
    /// where one is known.
    pub fn actor_gone_failure(&mut self) -> (r: Option<String>)
        ensures
            opt_view(r) == gone_message(old(self)@),
            final(self)@ == (SharedView { gone_surfaced: true, ..old(self)@ }),
    {
        if !self.surface_first_actor_gone() {
            return None;
        }
        match self.last_flush_failure() {
            Some(cause) => {
                let mut msg: String = GONE_AFTER_ERROR.to_owned();
                msg.append(cause.as_str());
                msg.append(GONE_TAIL);
                Some(msg)
            },
            None => Some(GONE.to_owned()),
        }
    }
}

/// Begins the message where the writer stopped after a failure.
pub const GONE_AFTER_ERROR: &'static str = "Session writer task has stopped after I/O error: ";

/// Ends the message where the writer stopped after a failure.
pub const GONE_TAIL: &'static str =
    ". Conversation history may be incomplete; further write errors will be silent.";

/// The message where the writer stopped for a reason that is not known.
pub const GONE: &'static str =
    "Session writer task has stopped. Conversation history may be incomplete; further write errors will be silent.";

/// What a caller is told when the writer is gone.
pub open spec fn gone_message(shared: SharedView) -> Option<Seq<char>> {
    if shared.gone_surfaced {
        None
    } else {
        match shared.last_failure {
            Some(cause) => Some(GONE_AFTER_ERROR@ + cause + GONE_TAIL@),
            None => Some(GONE@),
        }
    }
}

/// The answer to a recorded message.
#[derive(Debug, PartialEq, Eq)]
pub struct RecordOutcome {
    /// The first user text of a fresh session, for a title to be made from.
    pub ai_title_seed: Option<String>,
    /// The first write failure of the session.
    pub failure: Option<String>,
}

/// The answer to any other write.
#[derive(Debug, PartialEq, Eq)]
pub struct Outcome {
    pub failure: Option<String>,
}

/// The answer to a compaction.
#[derive(Debug, PartialEq, Eq)]
pub struct CompactOutcome {
    /// The number of messages before the compaction.
    pub pre_count: u32,
    pub failure: Option<String>,
}

// ── Resuming ──

/// A session that goes on, and what is shown of it.
#[derive(Debug)]
pub struct ResumedSession {
    pub state: SessionState,
    pub messages: Vec<Message>,
    pub title: Option<String>,
    pub tool_result_metadata: MetadataTable,
    pub file_snapshots: Vec<FileSnapshot>,
}

/// What is said of a session with nothing to go on from.
pub open spec fn no_messages_text(session_id: Seq<char>) -> Seq<char> {
    "session "@ + session_id + " has no messages to resume"@
}

/// What is said of a session with nothing to go on from.
pub(crate) fn no_messages(session_id: &str) -> (r: String)
    ensures
        r@ == no_messages_text(session_id@),
{
    let mut out: String = "session ".to_owned();
    out.append(session_id);
    out.append(" has no messages to resume");
    out
}

/// Whether some message holds a user text.
pub open spec fn has_user_text(ms: Seq<MessageView>) -> bool {
    exists|i: int| 0 <= i < ms.len() && user_text(#[trigger] ms[i]) is Some
}

/// Whether some message holds a user text.
fn any_user_text(messages: &Vec<Message>) -> (r: bool)
    ensures
        r == has_user_text(message_views(messages@)),
{
    let ghost ms = message_views(messages@);
    let mut i: usize = 0;
    while i < messages.len()
        invariant
            i <= messages.len(),
            ms == message_views(messages@),
            forall|k: int| 0 <= k < i ==> user_text(#[trigger] ms[k]) is None,
        decreases messages.len() - i,
    {
        assert(ms[i as int] == messages@[i as int]@);
        if extract_user_text(&messages[i]).is_some() {
            return true;
        }
        i = i + 1;
    }
    false
}

/// A number of messages, as far as it can be counted.
pub open spec fn message_count(n: nat) -> u32 {
    if n <= u32::MAX {
        n as u32
    } else {
        u32::MAX
    }
}

/// Goes on with a session from what its file holds, after repairing it. Where the file has a
/// title, or a user text that gave one, the next text gives none. Fails where nothing is
/// left to go on from, rather than chain the next message onto one that was dropped.
pub fn from_resumed_data(session_id: String, data: SessionData) -> (r: Result<
    ResumedSession,
    String,
>)
    ensures
        ({
            let ms = sanitized(message_views(data.messages@));
            &&& r is Ok <==> ms.len() > 0
            &&& r matches Err(e) ==> e@ == no_messages_text(session_id@)
            &&& r matches Ok(s) ==> {
                &&& message_views(s.messages@) == ms
                &&& s.state@ == StateView::resumed(
                    session_id@,
                    data.last_uuid,
                    message_count(ms.len()),
                    has_user_text(ms) || data.title is Some,
                )
                &&& opt_view(s.title) == match data.title {
                    Some(t) => Some(t.title@),
                    None => None,
                }
                &&& s.tool_result_metadata@ == data.tool_result_metadata@
                &&& s.file_snapshots@ == data.file_snapshots@
            }
        }),
{
    let mut messages: Vec<Message> = data.messages;
    sanitize_resumed_messages(&mut messages);
    if messages.len() == 0 {
        return Err(no_messages(session_id.as_str()));
    }
    let first_user_prompt_seen: bool = any_user_text(&messages) || data.title.is_some();
    let count: u32 = if messages.len() <= u32::MAX as usize {
        messages.len() as u32
    } else {
        u32::MAX
    };
    let title: Option<String> = match data.title {
        Some(t) => Some(t.title),
        None => None,
    };
    let state: SessionState = SessionState::resumed(
        session_id,
        data.last_uuid,
        count,
        first_user_prompt_seen,
    );
    Ok(
        ResumedSession {
            state,
            messages,
            title,
            tool_result_metadata: data.tool_result_metadata,
            file_snapshots: data.file_snapshots,
        },
    )
}

// ── Laws ──

/// Each flag surfaces once, and neither silences the other.
pub proof fn law_flags_are_independent(shared: SharedView)
    ensures
        gone_message(SharedView { flush_surfaced: true, ..shared }) == gone_message(shared),
        gone_message(SharedView { gone_surfaced: true, ..shared }) is None,
{
}

/// That the writer is gone is told once, with the last failure to write where there was one.
pub proof fn law_a_gone_writer_is_told_once(shared: SharedView, cause: Seq<char>)
    ensures
        shared.gone_surfaced ==> gone_message(shared) is None,
        !shared.gone_surfaced && shared.last_failure == Some(cause) ==> (gone_message(
            shared,
        ) matches Some(t) && t == GONE_AFTER_ERROR@ + cause + GONE_TAIL@),
        !shared.gone_surfaced && shared.last_failure is None ==> gone_message(shared) == Some(GONE@),
        gone_message(SharedView::initial()) == Some(GONE@),
{
}

/// The count of messages is their number, up to the most that a count can tell.
pub proof fn law_messages_are_counted(n: nat)
    ensures
        n <= u32::MAX ==> message_count(n) == n,
        n > u32::MAX ==> message_count(n) == u32::MAX,
{
}

/// A conversation has a text of the user where one of its messages has.
pub proof fn law_any_text_of_the_user_counts(ms: Seq<MessageView>, m: MessageView)
    ensures
        !has_user_text(Seq::empty()),
        has_user_text(ms.push(m)) <==> has_user_text(ms) || user_text(m) is Some,
        has_user_text(seq![m] + ms) <==> has_user_text(ms) || user_text(m) is Some,
{
    let a = ms.push(m);
    let b = seq![m] + ms;
    if has_user_text(ms) {
        let i = choose|i: int| 0 <= i < ms.len() && user_text(#[trigger] ms[i]) is Some;
        assert(a[i] == ms[i]);
        assert(b[i + 1] == ms[i]);
    }
    assert(a[ms.len() as int] == m);
    assert(b[0] == m);
    if has_user_text(a) {
        let i = choose|i: int| 0 <= i < a.len() && user_text(#[trigger] a[i]) is Some;
        if i < ms.len() {
            assert(ms[i] == a[i]);
        }
    }
    if has_user_text(b) {
        let i = choose|i: int| 0 <= i < b.len() && user_text(#[trigger] b[i]) is Some;
        if i > 0 {
            assert(ms[i - 1] == b[i]);
        }
    }
}

/// A session with nothing to go on from is told by its identifier.
pub proof fn law_empty_sessions_are_told(session_id: Seq<char>)
    ensures
        no_messages_text(session_id) == "session "@ + session_id + " has no messages to resume"@,
{
}

} // verus!
