//! A session driven write by write: each request says which write comes next, and hears how
//! it ended. The file is made by the first message; a session without one leaves no trace.

use vstd::prelude::*;
use vstd::string::*;

use crate::ident::uuid_text;
use crate::message::{message_views, Message, MessageView};
use crate::session::entry::{
    opt_view, Entry, EntryView, ToolMetadata, MetadataView, TitleSource,
};
use crate::session::handle::no_messages_text;
use crate::session::sanitize::{sanitize_resumed_messages, sanitized};
use crate::session::state::{
    extract_user_text, header_for, header_with_id, opt_str_view, truncate_title, truncated_title,
    user_text, MAX_TITLE_LEN,
};
use crate::session::store::{MetadataTable, SessionData};

verus! {

// ── Types ──

/// A session and its file.
#[derive(Debug)]
pub struct SessionManager {
    pending_header: Option<Entry>,
    materialized: bool,
    session_id: String,
    titled: bool,
    initial_message_count: u32,
    message_count: u32,
    first_user_prompt: Option<String>,
    ai_title_seed: Option<String>,
    last_message_uuid: Option<u128>,
    finished: bool,
    write_failed: bool,
}

/// A session and its file, by their characters.
#[verifier::ext_equal]
pub ghost struct ManagerView {
    /// The header of a file that is not made yet.
    pub pending: Option<EntryView>,
    /// The file is open.
    pub materialized: bool,
    pub session_id: Seq<char>,
    /// The file had a title when the session was resumed.
    pub titled: bool,
    pub initial: u32,
    pub count: u32,
    pub prompt: Option<Seq<char>>,
    pub seed: Option<Seq<char>>,
    pub last: Option<u128>,
    pub finished: bool,
    pub failed: bool,
}

/// An optional entry by its characters.
pub open spec fn opt_entry_view(e: Option<Entry>) -> Option<EntryView> {
    match e {
        Some(e) => Some(e@),
        None => None,
    }
}

impl View for SessionManager {
    type V = ManagerView;

    closed spec fn view(&self) -> ManagerView {
        ManagerView {
            pending: opt_entry_view(self.pending_header),
            materialized: self.materialized,
            session_id: self.session_id@,
            titled: self.titled,
            initial: self.initial_message_count,
            count: self.message_count,
            prompt: opt_view(self.first_user_prompt),
            seed: opt_view(self.ai_title_seed),
            last: self.last_message_uuid,
            finished: self.finished,
            failed: self.write_failed,
        }
    }
}

/// A session that was resumed, and what is shown of it.
#[derive(Debug)]
pub struct ResumedSession {
    pub manager: SessionManager,
    pub messages: Vec<Message>,
    pub title: Option<String>,
    pub tool_result_metadata: MetadataTable,
}

/// How far the recording of a message has come.
#[derive(Clone, Copy, Debug, PartialEq, Eq, Structural)]
pub enum RecordPhase {
    Starting,
    Creating,
    Titling,
    Messaging,
    Ended,
}

/// A message that is being recorded.
#[derive(Debug)]
pub struct RecordJob {
    pub message: Message,
    pub now: i128,
    pub uuid: u128,
    pub phase: RecordPhase,
}

/// How the last step of a recording ended.
#[derive(Clone, Copy, Debug, PartialEq, Eq, Structural)]
pub enum RecordEvent {
    Done,
    Failed,
}

/// The next step of a recording.
#[derive(Debug)]
pub enum RecordAction {
    /// The file is made, with the pending header.
    Create,
    /// The entry is appended to the file.
    Append(Entry),
    /// The message is recorded.
    Recorded,
    /// The message is not recorded.
    GiveUp,
}

#[verifier::ext_equal]
pub ghost struct JobView {
    pub message: MessageView,
    pub now: i128,
    pub uuid: u128,
    pub phase: RecordPhase,
}

#[verifier::ext_equal]
pub ghost enum ActionView {
    Create,
    Append(EntryView),
    Recorded,
    GiveUp,
}

impl View for RecordJob {
    type V = JobView;

    open spec fn view(&self) -> JobView {
        JobView {
            message: self.message@,
            now: self.now,
            uuid: self.uuid,
            phase: self.phase,
        }
    }
}

impl View for RecordAction {
    type V = ActionView;

    open spec fn view(&self) -> ActionView {
        match *self {
            RecordAction::Create => ActionView::Create,
            RecordAction::Append(e) => ActionView::Append(e@),
            RecordAction::Recorded => ActionView::Recorded,
            RecordAction::GiveUp => ActionView::GiveUp,
        }
    }
}

// ── Recording ──

/// A session, a recording, and the recording's next step.
#[verifier::ext_equal]
pub ghost struct Stepped {
    pub manager: ManagerView,
    pub job: JobView,
    pub action: ActionView,
}

/// The message itself is appended next.
pub open spec fn message_step(m: ManagerView, job: JobView) -> Stepped {
    Stepped {
        manager: m,
        job: JobView { phase: RecordPhase::Messaging, ..job },
        action: ActionView::Append(
            EntryView::Message {
                uuid: job.uuid,
                parent_uuid: m.last,
                message: job.message,
                timestamp: job.now,
            },
        ),
    }
}

/// The file is there. The first user text gives a title, which is appended before its message,
/// and is remembered whether or not that write succeeds. A title that the file had when the
/// session was resumed stays, and only a new session seeds another.
pub open spec fn title_step(m: ManagerView, job: JobView) -> Stepped {
    match user_text(job.message) {
        Some(text) if m.prompt is None => if m.titled {
            message_step(ManagerView { prompt: Some(text), ..m }, job)
        } else {
            Stepped {
                manager: ManagerView {
                    prompt: Some(text),
                    seed: if m.initial > 0 {
                        m.seed
                    } else {
                        Some(text)
                    },
                    ..m
                },
                job: JobView { phase: RecordPhase::Titling, ..job },
                action: ActionView::Append(
                    EntryView::Title {
                        title: truncated_title(text, MAX_TITLE_LEN as nat),
                        source: TitleSource::FirstPrompt,
                        updated_at: job.now,
                    },
                ),
            }
        },
        _ => message_step(m, job),
    }
}

/// The recording ends.
pub open spec fn end_step(m: ManagerView, job: JobView, action: ActionView) -> Stepped {
    Stepped { manager: m, job: JobView { phase: RecordPhase::Ended, ..job }, action }
}

/// One step of a recording.
pub open spec fn stepped(m: ManagerView, job: JobView, event: RecordEvent) -> Stepped {
    if event == RecordEvent::Failed {
        end_step(m, job, ActionView::GiveUp)
    } else {
        match job.phase {
            RecordPhase::Starting => if m.pending is Some {
                Stepped {
                    manager: m,
                    job: JobView { phase: RecordPhase::Creating, ..job },
                    action: ActionView::Create,
                }
            } else {
                title_step(m, job)
            },
            RecordPhase::Creating => title_step(
                ManagerView { pending: None, materialized: true, ..m },
                job,
            ),
            RecordPhase::Titling => message_step(m, job),
            RecordPhase::Messaging => end_step(
                ManagerView {
                    last: Some(job.uuid),
                    count: if m.count < u32::MAX {
                        (m.count + 1) as u32
                    } else {
                        m.count
                    },
                    ..m
                },
                job,
                ActionView::Recorded,
            ),
            RecordPhase::Ended => end_step(m, job, ActionView::GiveUp),
        }
    }
}

/// The summary that closes the session, if one is owed: the file is there, it was not closed
/// before, and something was recorded since it was resumed.
pub open spec fn owed_summary(m: ManagerView, now: i128) -> Option<EntryView> {
    if !m.materialized || m.finished || (m.initial > 0 && m.count == m.initial) {
        None
    } else {
        Some(EntryView::Summary { message_count: m.count, updated_at: now })
    }
}

/// Why metadata cannot be recorded yet.
pub const METADATA_TOO_EARLY: &'static str =
    "cannot record tool metadata before the session file is materialized";

/// Why a title cannot be appended yet.
pub const TITLE_TOO_EARLY: &'static str =
    "cannot append AI title before the session file is materialized";

impl SessionManager {
    /// A new session with the UUID `id`, whose file is not made yet.
    pub fn start(
        id: u128,
        model: &str,
        cwd: String,
        branch: Option<String>,
        now: i128,
    ) -> (r: SessionManager)
        ensures
            r@ == (ManagerView {
                pending: Some(header_for(id, model@, cwd@, opt_view(branch), now)),
                materialized: false,
                session_id: uuid_text(id),
                titled: false,
                initial: 0,
                count: 0,
                prompt: None,
                seed: None,
                last: None,
                finished: false,
                failed: false,
            }),
    {
        let (session_id, header) = header_with_id(id, model, cwd, branch, now);
        SessionManager {
            pending_header: Some(header),
            materialized: false,
            session_id,
            titled: false,
            initial_message_count: 0,
            message_count: 0,
            first_user_prompt: None,
            ai_title_seed: None,
            last_message_uuid: None,
            finished: false,
            write_failed: false,
        }
    }

    /// Goes on with a session from what its file holds. Fails where nothing is left to go on
    /// from after the repair.
    pub fn from_resumed_data(session_id: String, data: SessionData) -> (r: Result<
        ResumedSession,
        String,
    >)
        ensures
            ({
                let ms = sanitized(message_views(data.messages@));
                &&& r is Ok <==> ms.len() > 0
                &&& r matches Err(e) ==> e@ == no_messages_text(session_id@)
                &&& r matches Ok(s) ==> {
                    &&& message_views(s.messages@) == ms
                    &&& opt_view(s.title) == match data.title {
                        Some(t) => Some(t.title@),
                        None => None,
                    }
                    &&& s.tool_result_metadata@ == data.tool_result_metadata@
                    &&& s.manager@ == (ManagerView {
                        pending: None,
                        materialized: true,
                        session_id: session_id@,
                        titled: data.title is Some,
                        initial: if ms.len() <= u32::MAX {
                            ms.len() as u32
                        } else {
                            u32::MAX
                        },
                        count: if ms.len() <= u32::MAX {
                            ms.len() as u32
                        } else {
                            u32::MAX
                        },
                        prompt: first_prompt(ms),
                        seed: None,
                        last: data.last_uuid,
                        finished: false,
                        failed: false,
                    })
                }
            }),
    {
        let mut messages: Vec<Message> = data.messages;
        sanitize_resumed_messages(&mut messages);
        let ghost ms = message_views(messages@);
        if messages.len() == 0 {
            return Err(crate::session::handle::no_messages(session_id.as_str()));
        }
        let first_user_prompt: Option<String> = find_first_prompt(&messages);
        let message_count: u32 = if messages.len() <= u32::MAX as usize {
            messages.len() as u32
        } else {
            u32::MAX
        };
        let title: Option<String> = match data.title {
            Some(t) => Some(t.title),
            None => None,
        };
        let manager: SessionManager = SessionManager {
            pending_header: None,
            materialized: true,
            session_id,
            titled: title.is_some(),
            initial_message_count: message_count,
            message_count,
            first_user_prompt,
            ai_title_seed: None,
            last_message_uuid: data.last_uuid,
            finished: false,
            write_failed: false,
        };
        Ok(
            ResumedSession {
                manager,
                messages,
                title,
                tool_result_metadata: data.tool_result_metadata,
            },
        )
    }

    /// The header of a file that is not made yet.
    pub fn pending_header(&self) -> (r: Option<&Entry>)
        ensures
            r is Some <==> self@.pending is Some,
            r matches Some(e) ==> self@.pending == Some(e@),
    {
        self.pending_header.as_ref()
    }

    /// Takes the recording of a message one step further. `event` says how the step before
    /// ended; the first step follows no other, and is told [`RecordEvent::Done`].
    pub fn record_message(&mut self, job: &mut RecordJob, event: RecordEvent) -> (action:
        RecordAction)
        ensures
            (Stepped { manager: final(self)@, job: final(job)@, action: action@ }) == stepped(
                old(self)@,
                old(job)@,
                event,
            ),
    {
        if event == RecordEvent::Failed {
            job.phase = RecordPhase::Ended;
            return RecordAction::GiveUp;
        }
        match job.phase {
            RecordPhase::Starting => {
                if self.pending_header.is_some() {
                    job.phase = RecordPhase::Creating;
                    RecordAction::Create
                } else {
                    self.append_title(job)
                }
            },
            RecordPhase::Creating => {
                self.pending_header = None;
                self.materialized = true;
                self.append_title(job)
            },
            RecordPhase::Titling => self.append_message(job),
            RecordPhase::Messaging => {
                job.phase = RecordPhase::Ended;
                self.last_message_uuid = Some(job.uuid);
                if self.message_count < u32::MAX {
                    self.message_count = self.message_count + 1;
                }
                RecordAction::Recorded
            },
            RecordPhase::Ended => {
                job.phase = RecordPhase::Ended;
                RecordAction::GiveUp
            },
        }
    }

    /// The title of the first user text comes next, or the message where there is none to give.
    fn append_title(&mut self, job: &mut RecordJob) -> (action: RecordAction)
        ensures
            (Stepped { manager: final(self)@, job: final(job)@, action: action@ }) == title_step(
                old(self)@,
                old(job)@,
            ),
    {
        if self.first_user_prompt.is_none() {
            let entry: Option<Entry> = match extract_user_text(&job.message) {
                Some(text) => {
                    self.first_user_prompt = Some(text.to_owned());
                    if self.titled {
                        None
                    } else {
                        if self.initial_message_count == 0 {
                            self.ai_title_seed = Some(text.to_owned());
                        }
                        Some(
                            Entry::Title {
                                title: truncate_title(text, MAX_TITLE_LEN),
                                source: TitleSource::FirstPrompt,
                                updated_at: job.now,
                            },
                        )
                    }
                },
                None => None,
            };
            match entry {
                Some(entry) => {
                    job.phase = RecordPhase::Titling;
                    return RecordAction::Append(entry);
                },
                None => {},
            }
        }
        self.append_message(job)
    }

    /// The message comes next.
    fn append_message(&self, job: &mut RecordJob) -> (action: RecordAction)
        ensures
            (Stepped { manager: self@, job: final(job)@, action: action@ }) == message_step(
                self@,
                old(job)@,
            ),
    {
        job.phase = RecordPhase::Messaging;
        RecordAction::Append(
            Entry::Message {
                uuid: job.uuid,
                parent_uuid: self.last_message_uuid,
                message: job.message.clone(),
                timestamp: job.now,
            },
        )
    }

    /// Closes the session: the summary to append, if one is owed.
    pub fn finish(&mut self, now: i128) -> (r: Option<Entry>)
        ensures
            opt_entry_view(r) == owed_summary(old(self)@, now),
            final(self)@ == (ManagerView {
                finished: old(self)@.finished || !old(self)@.materialized || owed_summary(
                    old(self)@,
                    now,
                ) is Some,
                ..old(self)@
            }),
    {
        if !self.materialized {
            self.finished = true;
            return None;
        }
        if self.finished || (self.initial_message_count > 0 && self.message_count
            == self.initial_message_count) {
            return None;
        }
        self.finished = true;
        Some(Entry::Summary { message_count: self.message_count, updated_at: now })
    }

    /// The session's identifier.
    pub fn session_id(&self) -> (r: &str)
        ensures
            r@ == self@.session_id,
    {
        self.session_id.as_str()
    }

    /// Hands out the text that a title is to be made from, once.
    pub fn take_ai_title_seed(&mut self) -> (r: Option<String>)
        ensures
            opt_view(r) == old(self)@.seed,
            final(self)@ == (ManagerView { seed: None, ..old(self)@ }),
    {
        self.ai_title_seed.take()
    }

    /// The sidecar of a tool result: nothing where it says nothing, an error where the file is
    /// not made yet.
    pub fn record_tool_result_metadata(
        &self,
        tool_use_id: &str,
        metadata: ToolMetadata,
        now: i128,
    ) -> (r: Result<Option<Entry>, String>)
        ensures
            r is Ok <==> metadata@.is_default() || self@.materialized,
            r matches Err(e) ==> e@ == METADATA_TOO_EARLY@,
            r matches Ok(e) ==> opt_entry_view(e) == if metadata@.is_default() {
                None::<EntryView>
            } else {
                Some(
                    EntryView::ToolResultMetadata {
                        tool_use_id: tool_use_id@,
                        metadata: metadata@,
                        timestamp: now,
                    },
                )
            },
    {
        if metadata.is_default() {
            return Ok(None);
        }
        if !self.materialized {
            return Err(METADATA_TOO_EARLY.to_owned());
        }
        Ok(
            Some(
                Entry::ToolResultMetadata {
                    tool_use_id: tool_use_id.to_owned(),
                    metadata,
                    timestamp: now,
                },
            ),
        )
    }

    /// A title made by the model, or an error where the file is not made yet.
    pub fn append_ai_title(&self, title: &str, now: i128) -> (r: Result<Entry, String>)
        ensures
            r is Ok <==> self@.materialized,
            r matches Err(e) ==> e@ == TITLE_TOO_EARLY@,
            r matches Ok(e) ==> e@ == (EntryView::Title {
                title: title@,
                source: TitleSource::AiGenerated,
                updated_at: now,
            }),
    {
        if !self.materialized {
            return Err(TITLE_TOO_EARLY.to_owned());
        }
        Ok(
            Entry::Title {
                title: title.to_owned(),
                source: TitleSource::AiGenerated,
                updated_at: now,
            },
        )
    }

    /// Notes a write failure: `true` the first time, `false` after.
    pub fn record_write_failure(&mut self) -> (r: bool)
        ensures
            r == !old(self)@.failed,
            final(self)@ == (ManagerView { failed: true, ..old(self)@ }),
    {
        let first: bool = !self.write_failed;
        self.write_failed = true;
        first
    }
}

/// The first user text of a transcript.
pub open spec fn first_prompt(ms: Seq<MessageView>) -> Option<Seq<char>>
    decreases ms.len(),
{
    if ms.len() == 0 {
        None
    } else if user_text(ms[0]) is Some {
        user_text(ms[0])
    } else {
        first_prompt(ms.drop_first())
    }
}

/// The first user text of a transcript.
fn find_first_prompt(messages: &Vec<Message>) -> (r: Option<String>)
    ensures
        opt_view(r) == first_prompt(message_views(messages@)),
{
    let ghost ms = message_views(messages@);
    let mut i: usize = 0;
    assert(ms.skip(0) =~= ms);
    while i < messages.len()
        invariant
            i <= messages.len(),
            ms == message_views(messages@),
            first_prompt(ms) == first_prompt(ms.skip(i as int)),
        decreases messages.len() - i,
    {
        assert(ms.skip(i as int)[0] == messages@[i as int]@);
        assert(ms.skip(i as int).drop_first() =~= ms.skip(i as int + 1));
        match extract_user_text(&messages[i]) {
            Some(text) => {
                return Some(text.to_owned());
            },
            None => {},
        }
        i = i + 1;
    }
    None
}

/// Begins what the user is told of a failed write.
pub const WRITE_FAILED: &'static str = "Session write failed: ";

/// Ends what the user is told of a failed write.
pub const WRITE_FAILED_TAIL: &'static str =
    ". Conversation history may be incomplete; further write errors will be silent.";

/// What the user is told of the end of a write: nothing where it succeeded, and nothing after
/// the first failure. A failure counts even where there is nobody to tell.
pub fn log_session_err(
    result: Result<(), String>,
    session: &mut SessionManager,
    has_sink: bool,
) -> (r: Option<String>)
    ensures
        opt_view(r) == match result {
            Err(e) if has_sink && !old(session)@.failed => Some(
                WRITE_FAILED@ + e@ + WRITE_FAILED_TAIL@,
            ),
            _ => None,
        },
        final(session)@ == (ManagerView {
            failed: old(session)@.failed || result is Err,
            ..old(session)@
        }),
{
    match result {
        Ok(()) => None,
        Err(e) => {
            if session.record_write_failure() && has_sink {
                let mut msg: String = WRITE_FAILED.to_owned();
                msg.append(e.as_str());
                msg.append(WRITE_FAILED_TAIL);
                Some(msg)
            } else {
                None
            }
        },
    }
}

// ── Laws ──

/// The session and the recording after `events`, from the first step on.
pub open spec fn run(m: ManagerView, job: JobView, events: Seq<RecordEvent>) -> Stepped
    decreases events.len(),
{
    if events.len() == 0 {
        Stepped { manager: m, job, action: ActionView::GiveUp }
    } else {
        let before = run(m, job, events.drop_last());
        stepped(before.manager, before.job, events.last())
    }
}

/// A file that cannot be made leaves the session as it was, its header still waiting.
pub proof fn law_failed_create_changes_nothing(m: ManagerView, job: JobView)
    requires
        m.pending is Some,
        job.phase == RecordPhase::Starting,
    ensures
        run(m, job, seq![RecordEvent::Done]).action == ActionView::Create,
        run(m, job, seq![RecordEvent::Done, RecordEvent::Failed]).manager == m,
{
    reveal_with_fuel(run, 3);
    assert(seq![RecordEvent::Done, RecordEvent::Failed].drop_last() =~= seq![RecordEvent::Done]);
    assert(seq![RecordEvent::Done].drop_last() =~= Seq::empty());
}

/// A title whose write failed is not tried again: the first prompt is remembered, the chain is
/// not advanced, and the next message begins with itself.
pub proof fn law_failed_title_is_not_retried(m: ManagerView, job: JobView, next: JobView)
    requires
        m.pending is None,
        m.prompt is None,
        user_text(job.message) is Some,
        job.phase == RecordPhase::Starting,
        next.phase == RecordPhase::Starting,
    ensures
        ({
            let failed = run(m, job, seq![RecordEvent::Done, RecordEvent::Failed]).manager;
            &&& failed.prompt == user_text(job.message)
            &&& failed.last == m.last
            &&& failed.count == m.count
            &&& stepped(failed, next, RecordEvent::Done) == message_step(failed, next)
        }),
{
    reveal_with_fuel(run, 3);
    assert(seq![RecordEvent::Done, RecordEvent::Failed].drop_last() =~= seq![RecordEvent::Done]);
    assert(seq![RecordEvent::Done].drop_last() =~= Seq::empty());
}

/// A session that was resumed seeds no title, and where its file has one it gets no other from
/// what is recorded: every step leaves it resumed and its seed as it was, and appends no title
/// to a file that has one.
pub proof fn law_resumed_session_keeps_its_title(m: ManagerView, job: JobView, event: RecordEvent)
    requires
        m.initial > 0,
    ensures
        ({
            let next = stepped(m, job, event);
            &&& next.manager.initial == m.initial
            &&& next.manager.titled == m.titled
            &&& next.manager.seed == m.seed
            &&& m.titled ==> !(next.action matches ActionView::Append(EntryView::Title { .. }))
        }),
{
}

/// A recorded message is the one that the next message names as its parent.
pub proof fn law_messages_chain(m: ManagerView, job: JobView, next: JobView)
    requires
        job.phase == RecordPhase::Messaging,
    ensures
        ({
            let after = stepped(m, job, RecordEvent::Done).manager;
            message_step(after, next).action == ActionView::Append(
                EntryView::Message {
                    uuid: next.uuid,
                    parent_uuid: Some(job.uuid),
                    message: next.message,
                    timestamp: next.now,
                },
            )
        }),
{
}

/// A session is summed up once: after its summary no further one is owed.
pub proof fn law_summary_is_owed_once(m: ManagerView, now: i128, later: i128)
    ensures
        owed_summary(ManagerView { finished: true, ..m }, later) is None,
        !m.materialized ==> owed_summary(m, now) is None,
{
}

/// A message is recorded in up to three writes, each after the one before succeeded: the file
/// where it is not there yet, the title where the message gives one, and the message itself,
/// chained to the one before. Then it counts.
pub proof fn law_recording_runs_through(m: ManagerView, job: JobView)
    requires
        job.phase == RecordPhase::Starting,
        m.count < u32::MAX,
    ensures
        ({
            let done = RecordEvent::Done;
            let made = if m.pending is Some {
                stepped(m, job, done)
            } else {
                Stepped { manager: m, job, action: ActionView::Create }
            };
            let gives_title = m.prompt is None && user_text(job.message) is Some && !m.titled;
            let first = stepped(made.manager, made.job, done);
            let second = if gives_title {
                stepped(first.manager, first.job, done)
            } else {
                first
            };
            let last = stepped(second.manager, second.job, done);
            &&& made.action == ActionView::Create
            &&& made.manager == m
            &&& gives_title ==> first.action == ActionView::Append(
                EntryView::Title {
                    title: truncated_title(user_text(job.message)->0, 80),
                    source: TitleSource::FirstPrompt,
                    updated_at: job.now,
                },
            )
            &&& gives_title && m.initial == 0 ==> last.manager.seed == user_text(job.message)
            &&& !gives_title || m.initial > 0 ==> last.manager.seed == m.seed
            &&& second.action == ActionView::Append(
                EntryView::Message {
                    uuid: job.uuid,
                    parent_uuid: m.last,
                    message: job.message,
                    timestamp: job.now,
                },
            )
            &&& last.action == ActionView::Recorded
            &&& last.manager.last == Some(job.uuid)
            &&& last.manager.count == m.count + 1
            &&& last.manager.pending is None
            &&& m.pending is Some ==> last.manager.materialized
            &&& user_text(job.message) is Some ==> last.manager.prompt is Some
            &&& last.manager.finished == m.finished
            &&& last.manager.session_id == m.session_id
        }),
{
}

/// A session whose file is there and that recorded something since it was begun or resumed is
/// owed a summary of its count, and no other is.
pub proof fn law_summary_tells_the_count(m: ManagerView, now: i128)
    ensures
        m.materialized && !m.finished && (m.count != m.initial || m.initial == 0) ==> owed_summary(
            m,
            now,
        ) == Some(EntryView::Summary { message_count: m.count, updated_at: now }),
        !m.materialized || m.finished || (m.initial > 0 && m.count == m.initial) ==> owed_summary(
            m,
            now,
        ) is None,
{
}

/// The first prompt of a transcript is the text of the first message that has one.
pub proof fn law_first_prompt_is_the_first_text(ms: Seq<MessageView>, k: int)
    ensures
        (forall|j: int| 0 <= j < ms.len() ==> user_text(#[trigger] ms[j]) is None) ==> first_prompt(
            ms,
        ) is None,
        0 <= k < ms.len() && user_text(ms[k]) is Some && (forall|j: int|
            0 <= j < k ==> user_text(#[trigger] ms[j]) is None) ==> first_prompt(ms) == user_text(
            ms[k],
        ),
    decreases ms.len(),
{
    if ms.len() > 0 {
        let t = ms.drop_first();
        law_first_prompt_is_the_first_text(t, k - 1);
        if forall|j: int| 0 <= j < ms.len() ==> user_text(#[trigger] ms[j]) is None {
            assert forall|j: int| 0 <= j < t.len() implies user_text(#[trigger] t[j]) is None by {
                assert(t[j] == ms[j + 1]);
            }
            assert(user_text(ms[0]) is None);
        }
        if 0 < k < ms.len() && (forall|j: int|
            0 <= j < k ==> user_text(#[trigger] ms[j]) is None) {
            assert forall|j: int| 0 <= j < k - 1 implies user_text(#[trigger] t[j]) is None by {
                assert(t[j] == ms[j + 1]);
            }
            assert(user_text(ms[0]) is None);
            assert(t[k - 1] == ms[k]);
        }
    }
}

/// Where a step of a recording fails, the recording is given up and nothing more is changed; once it
/// has ended it does nothing.
pub proof fn law_failed_steps_give_up(m: ManagerView, job: JobView)
    ensures
        stepped(m, job, RecordEvent::Failed).action == ActionView::GiveUp,
        stepped(m, job, RecordEvent::Failed).manager == m,
        stepped(m, job, RecordEvent::Failed).job.phase == RecordPhase::Ended,
        job.phase == RecordPhase::Ended ==> stepped(m, job, RecordEvent::Done).action
            == ActionView::GiveUp && stepped(m, job, RecordEvent::Done).manager == m,
        forall|event: RecordEvent|
            {
                let next = #[trigger] stepped(m, job, event).job;
                next.message == job.message && next.now == job.now && next.uuid == job.uuid
            },
{
}

/// What a recording that runs through leaves behind: the file is there, the message is the last and
/// is counted, and the first text of the user is known; all else is as before.
pub proof fn law_recording_leaves_the_rest(m: ManagerView, job: JobView)
    requires
        job.phase == RecordPhase::Messaging,
    ensures
        stepped(m, job, RecordEvent::Done).manager == (ManagerView {
            last: Some(job.uuid),
            count: if m.count == u32::MAX {
                u32::MAX
            } else {
                (m.count + 1) as u32
            },
            ..m
        }),
{
}

/// What the first step of a recording changes: only the text of the user that was first, and that it
/// is there for a title to be made from in a session that is new and has none.
pub proof fn law_first_text_is_remembered(m: ManagerView, job: JobView)
    requires
        m.pending is None,
        job.phase == RecordPhase::Starting,
    ensures
        ({
            let next = stepped(m, job, RecordEvent::Done).manager;
            let text = user_text(job.message);
            &&& m.prompt is Some || text is None ==> next == m
            &&& m.prompt is None && text is Some ==> next == (ManagerView {
                prompt: text,
                seed: if m.titled || m.initial > 0 {
                    m.seed
                } else {
                    text
                },
                ..m
            })
        }),
{
}

} // verus!
