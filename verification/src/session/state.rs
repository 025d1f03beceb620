//! The state of a session while it is recorded: what each request adds to the file, and what
//! becomes of the writer. Opening and writing the file is left to the caller.

use vstd::prelude::*;
use vstd::string::*;
use vstd::utf8::{decode_utf8, valid_utf8};

use crate::ident::{format_uuid, fresh_uuid, uuid_text};
use crate::message::{message_views, BlockView, ContentBlock, Message, MessageView, Role};
use crate::session::entry::{
    clone_opt, entry_views, opt_view, Entry, EntryView, FileSnapshot, TitleSource, CURRENT_VERSION,
};
use crate::text::{
    ellipsize, ellipsized, first_line, first_line_of, index_of, is_blank, law_ellipsized_fits,
    str_eq, trim, trim_of, utf8_text,
};

verus! {

/// The longest title that is made from a first prompt, in characters.
pub const MAX_TITLE_LEN: usize = 80;

// ── Types ──

/// Where the writer stands.
#[derive(Debug)]
pub enum WriterStatus {
    /// No file yet. It is made, with this header, by the first write. A title that the user
    /// gave before goes out right after the header.
    Pending { header: Entry, deferred_title: Option<String> },
    /// The file is open.
    Active,
    /// A write failed part way. The file has to be opened anew.
    Broken,
}

/// A session that is being recorded.
#[derive(Debug)]
pub struct SessionState {
    session_id: String,
    writer_status: WriterStatus,
    last_message_uuid: Option<u128>,
    initial_message_count: u32,
    message_count: u32,
    first_user_prompt_seen: bool,
    finished: bool,
}

/// What a write needs from its surroundings first.
#[derive(Debug)]
pub enum WriterRequest {
    /// Nothing: the file is open.
    Ready,
    /// The file is made, with this header.
    Create { header: Entry, deferred_title: Option<String> },
    /// The file is opened for appending.
    Reopen,
}

/// A writer's status by its characters.
#[verifier::ext_equal]
pub ghost enum StatusView {
    Pending { header: EntryView, deferred: Option<Seq<char>> },
    Active,
    Broken,
}

/// A session by its characters.
#[verifier::ext_equal]
pub ghost struct StateView {
    pub session_id: Seq<char>,
    pub status: StatusView,
    /// The last message of the chain.
    pub last: Option<u128>,
    /// The number of messages that the session was resumed with.
    pub initial: u32,
    /// The number of messages now.
    pub count: u32,
    /// A user text has been recorded.
    pub prompt_seen: bool,
    pub finished: bool,
}

/// A request by its characters.
#[verifier::ext_equal]
pub ghost enum RequestView {
    Ready,
    Create { header: EntryView, deferred: Option<Seq<char>> },
    Reopen,
}

impl View for WriterStatus {
    type V = StatusView;

    open spec fn view(&self) -> StatusView {
        match *self {
            WriterStatus::Pending { header, deferred_title } => StatusView::Pending {
                header: header@,
                deferred: opt_view(deferred_title),
            },
            WriterStatus::Active => StatusView::Active,
            WriterStatus::Broken => StatusView::Broken,
        }
    }
}

impl View for WriterRequest {
    type V = RequestView;

    open spec fn view(&self) -> RequestView {
        match *self {
            WriterRequest::Ready => RequestView::Ready,
            WriterRequest::Create { header, deferred_title } => RequestView::Create {
                header: header@,
                deferred: opt_view(deferred_title),
            },
            WriterRequest::Reopen => RequestView::Reopen,
        }
    }
}

impl View for SessionState {
    type V = StateView;

    closed spec fn view(&self) -> StateView {
        StateView {
            session_id: self.session_id@,
            status: self.writer_status@,
            last: self.last_message_uuid,
            initial: self.initial_message_count,
            count: self.message_count,
            prompt_seen: self.first_user_prompt_seen,
            finished: self.finished,
        }
    }
}

// ── First prompts and titles ──

/// The first text among `blocks` that is not blank.
pub open spec fn first_text(blocks: Seq<BlockView>) -> Option<Seq<char>>
    decreases blocks.len(),
{
    if blocks.len() == 0 {
        None
    } else {
        match blocks[0] {
            BlockView::Text { text } if !is_blank(text) => Some(text),
            _ => first_text(blocks.drop_first()),
        }
    }
}

/// The first text of a user message that is not blank.
pub open spec fn user_text(m: MessageView) -> Option<Seq<char>> {
    if m.role == Role::User {
        first_text(m.content)
    } else {
        None
    }
}

/// The characters of an optional string slice.
pub open spec fn opt_str_view(s: Option<&str>) -> Option<Seq<char>> {
    match s {
        Some(s) => Some(s@),
        None => None,
    }
}

/// The first text of a user message that is not blank.
pub fn extract_user_text(message: &Message) -> (r: Option<&str>)
    ensures
        opt_str_view(r) == user_text(message@),
{
    if message.role != Role::User {
        return None;
    }
    let ghost blocks = message@.content;
    let mut i: usize = 0;
    assert(blocks.skip(0) =~= blocks);
    while i < message.content.len()
        invariant
            i <= message.content.len(),
            message.role == Role::User,
            blocks == message@.content,
            user_text(message@) == first_text(blocks.skip(i as int)),
        decreases message.content.len() - i,
    {
        assert(blocks.skip(i as int).drop_first() =~= blocks.skip(i as int + 1));
        assert(blocks.skip(i as int)[0] == message.content@[i as int]@);
        match &message.content[i] {
            ContentBlock::Text { text } => {
                if !trim(text.as_str()).is_empty() {
                    return Some(text.as_str());
                }
            },
            _ => {},
        }
        i = i + 1;
    }
    None
}

/// The first line of `s`, trimmed, and cut to `max` characters with an ellipsis.
pub open spec fn truncated_title(s: Seq<char>, max: nat) -> Seq<char> {
    ellipsized(trim_of(first_line_of(s)), max)
}

/// Makes a title of at most `max_len` characters from `s`.
pub fn truncate_title(s: &str, max_len: usize) -> (r: String)
    requires
        max_len > crate::text::ELLIPSIS_WIDTH,
    ensures
        r@ == truncated_title(s@, max_len as nat),
{
    ellipsize(trim(first_line(s)), max_len)
}

// ── Header ──

/// The branch that `git rev-parse --abbrev-ref HEAD` names: none where it failed, where its
/// output is no text or blank, and where no branch is checked out.
pub open spec fn git_branch(success: bool, stdout: Seq<u8>) -> Option<Seq<char>> {
    if success && valid_utf8(stdout) {
        let branch = trim_of(decode_utf8(stdout));
        if branch.len() == 0 || branch == "HEAD"@ {
            None
        } else {
            Some(branch)
        }
    } else {
        None
    }
}

/// Reads the branch name from the output of `git rev-parse --abbrev-ref HEAD`.
pub fn parse_git_branch(success: bool, stdout: &[u8]) -> (r: Option<String>)
    ensures
        opt_view(r) == git_branch(success, stdout@),
{
    if !success {
        return None;
    }
    match utf8_text(stdout) {
        None => None,
        Some(text) => {
            let branch: &str = trim(text);
            if branch.is_empty() || str_eq(branch, "HEAD") {
                None
            } else {
                Some(branch.to_owned())
            }
        },
    }
}

/// The working directory as it is shown, given the text of its path or the reason that there
/// is none.
pub fn format_current_dir(result: Result<String, String>) -> (r: String)
    ensures
        r@ == (match result {
            Ok(path) => path@,
            Err(_) => "<unknown>"@,
        }),
{
    match result {
        Ok(path) => path,
        Err(_) => "<unknown>".to_owned(),
    }
}

/// The header of the session with the UUID `id`.
pub open spec fn header_for(
    id: u128,
    model: Seq<char>,
    cwd: Seq<char>,
    branch: Option<Seq<char>>,
    now: i128,
) -> EntryView {
    EntryView::Header {
        session_id: uuid_text(id),
        cwd,
        model,
        created_at: now,
        version: CURRENT_VERSION,
        git_branch: branch,
    }
}

/// The identifier and the header of the session with the UUID `id`.
pub fn header_with_id(
    id: u128,
    model: &str,
    cwd: String,
    branch: Option<String>,
    now: i128,
) -> (r: (String, Entry))
    ensures
        r.0@ == uuid_text(id),
        r.1@ == header_for(id, model@, cwd@, opt_view(branch), now),
{
    let session_id: String = format_uuid(id);
    let header: Entry = Entry::Header {
        session_id: session_id.clone(),
        cwd,
        model: model.to_owned(),
        created_at: now,
        version: CURRENT_VERSION,
        git_branch: branch,
    };
    (session_id, header)
}

/// A new session's identifier, which is random, and its header.
pub fn new_header(model: &str, cwd: String, branch: Option<String>, now: i128) -> (r: (
    String,
    Entry,
))
    ensures
        exists|id: u128|
            r.0@ == uuid_text(id) && r.1@ == #[trigger] header_for(
                id,
                model@,
                cwd@,
                opt_view(branch),
                now,
            ),
{
    header_with_id(fresh_uuid(), model, cwd, branch, now)
}

// ── Recording ──

/// What recording one message gives.
pub ghost struct Queued {
    pub state: StateView,
    pub entries: Seq<EntryView>,
    pub seed: Option<Seq<char>>,
}

/// The text that the first prompt gives a title from: that of the first user message with a
/// text, unless the user gave a title.
pub open spec fn title_seed(s: StateView, m: MessageView, manual: bool) -> Option<Seq<char>> {
    if s.prompt_seen || manual {
        None
    } else {
        user_text(m)
    }
}

/// Recording `m` under the UUID `uuid`.
pub open spec fn queued(
    s: StateView,
    m: MessageView,
    now: i128,
    manual: bool,
    uuid: u128,
) -> Queued {
    let seed = title_seed(s, m, manual);
    let title = match seed {
        Some(text) => seq![
            EntryView::Title {
                title: truncated_title(text, MAX_TITLE_LEN as nat),
                source: TitleSource::FirstPrompt,
                updated_at: now,
            },
        ],
        None => Seq::empty(),
    };
    Queued {
        state: StateView {
            prompt_seen: s.prompt_seen || user_text(m) is Some,
            last: Some(uuid),
            count: if s.count < u32::MAX {
                (s.count + 1) as u32
            } else {
                s.count
            },
            ..s
        },
        entries: title.push(
            EntryView::Message { uuid, parent_uuid: s.last, message: m, timestamp: now },
        ),
        seed,
    }
}

/// The entries that close a session: its file snapshots and a summary, once, and only where
/// something was recorded.
pub open spec fn closing_entries(
    s: StateView,
    snapshots: Seq<FileSnapshot>,
    now: i128,
) -> Seq<EntryView> {
    if s.finished || s.count == 0 || (s.initial > 0 && s.count == s.initial) {
        Seq::empty()
    } else {
        snapshots.map_values(|f: FileSnapshot| EntryView::FileSnapshot { snapshot: f }).push(
            EntryView::Summary { message_count: s.count, updated_at: now },
        )
    }
}

/// The entries of a compaction: the boundary, and the message that stands for what was before,
/// which begins a chain of its own.
pub open spec fn compaction_entries(
    summary: Seq<char>,
    instructions: Option<Seq<char>>,
    m: MessageView,
    now: i128,
    uuid: u128,
) -> Seq<EntryView> {
    seq![
        EntryView::Compact { summary, instructions, timestamp: now },
        EntryView::Message { uuid, parent_uuid: None, message: m, timestamp: now },
    ]
}

impl StateView {
    /// A session that nothing was recorded in.
    pub open spec fn fresh(session_id: Seq<char>, header: EntryView) -> StateView {
        StateView {
            session_id,
            status: StatusView::Pending { header, deferred: None },
            last: None,
            initial: 0,
            count: 0,
            prompt_seen: false,
            finished: false,
        }
    }

    /// A session that goes on.
    pub open spec fn resumed(
        session_id: Seq<char>,
        last: Option<u128>,
        count: u32,
        prompt_seen: bool,
    ) -> StateView {
        StateView {
            session_id,
            status: StatusView::Active,
            last,
            initial: count,
            count,
            prompt_seen,
            finished: false,
        }
    }

    /// The session after its compaction reached the file: one message, which the next one
    /// follows.
    pub open spec fn compacted(self, uuid: u128) -> StateView {
        StateView { last: Some(uuid), initial: 0, count: 1, ..self }
    }

    /// The session while a write is under way.
    pub open spec fn taken(self) -> StateView {
        StateView { status: StatusView::Broken, ..self }
    }

    /// The session after `request` could not be met.
    pub open spec fn restored(self, request: RequestView) -> StateView {
        StateView {
            status: match request {
                RequestView::Create { header, deferred } => StatusView::Pending { header, deferred },
                _ => StatusView::Broken,
            },
            ..self
        }
    }

    /// The session after a write.
    pub open spec fn settled(self, ok: bool) -> StateView {
        StateView {
            status: if ok {
                StatusView::Active
            } else {
                StatusView::Broken
            },
            ..self
        }
    }

    /// The session with `title` kept for the first write.
    pub open spec fn deferring(self, title: Seq<char>) -> StateView {
        match self.status {
            StatusView::Pending { header, .. } => StateView {
                status: StatusView::Pending { header, deferred: Some(title) },
                ..self
            },
            _ => self,
        }
    }

    /// The session after it was closed.
    pub open spec fn closed(self) -> StateView {
        StateView { finished: true, ..self }
    }

    /// What a write needs first.
    pub open spec fn request(self) -> RequestView {
        match self.status {
            StatusView::Active => RequestView::Ready,
            StatusView::Pending { header, deferred } => RequestView::Create { header, deferred },
            StatusView::Broken => RequestView::Reopen,
        }
    }
}

/// What a write puts into the file: a deferred title first, then `entries`.
pub open spec fn written(request: RequestView, entries: Seq<EntryView>, now: i128) -> Seq<
    EntryView,
> {
    match request {
        RequestView::Create { deferred: Some(title), .. } => seq![
            EntryView::Title { title, source: TitleSource::UserProvided, updated_at: now },
        ] + entries,
        _ => entries,
    }
}

impl SessionState {
    /// A new session: a random identifier, and a header that waits for the first write.
    pub fn fresh(model: &str, cwd: String, branch: Option<String>, now: i128) -> (r: SessionState)
        ensures
            exists|id: u128|
                r@ == StateView::fresh(
                    uuid_text(id),
                    #[trigger] header_for(id, model@, cwd@, opt_view(branch), now),
                ),
    {
        SessionState::fresh_with_id(fresh_uuid(), model, cwd, branch, now)
    }

    /// A new session with the UUID `id`.
    pub fn fresh_with_id(
        id: u128,
        model: &str,
        cwd: String,
        branch: Option<String>,
        now: i128,
    ) -> (r: SessionState)
        ensures
            r@ == StateView::fresh(
                uuid_text(id),
                header_for(id, model@, cwd@, opt_view(branch), now),
            ),
    {
        let (session_id, header) = header_with_id(id, model, cwd, branch, now);
        SessionState {
            session_id,
            writer_status: WriterStatus::Pending { header, deferred_title: None },
            last_message_uuid: None,
            initial_message_count: 0,
            message_count: 0,
            first_user_prompt_seen: false,
            finished: false,
        }
    }

    /// A session that goes on, its file open.
    pub fn resumed(
        session_id: String,
        last_message_uuid: Option<u128>,
        initial_message_count: u32,
        first_user_prompt_seen: bool,
    ) -> (r: SessionState)
        ensures
            r@ == StateView::resumed(
                session_id@,
                last_message_uuid,
                initial_message_count,
                first_user_prompt_seen,
            ),
    {
        SessionState {
            session_id,
            writer_status: WriterStatus::Active,
            last_message_uuid,
            initial_message_count,
            message_count: initial_message_count,
            first_user_prompt_seen,
            finished: false,
        }
    }

    /// Whether the session was not resumed, or has begun anew with a compaction since.
    pub fn is_fresh(&self) -> (r: bool)
        ensures
            r == (self@.initial == 0),
    {
        self.initial_message_count == 0
    }

    /// The session's identifier.
    pub fn session_id(&self) -> (r: &str)
        ensures
            r@ == self@.session_id,
    {
        self.session_id.as_str()
    }

    /// The last message of the chain.
    pub fn last_message_uuid(&self) -> (r: Option<u128>)
        ensures
            r == self@.last,
    {
        self.last_message_uuid
    }

    /// Whether a user text has been recorded.
    pub fn first_user_prompt_seen(&self) -> (r: bool)
        ensures
            r == self@.prompt_seen,
    {
        self.first_user_prompt_seen
    }

    /// Whether the session was finished.
    pub fn is_finished(&self) -> (r: bool)
        ensures
            r == self@.finished,
    {
        self.finished
    }

    /// How the file of the session stands.
    pub fn writer_status(&self) -> (r: &WriterStatus)
        ensures
            r@ == self@.status,
    {
        &self.writer_status
    }

    /// The number of messages.
    pub fn message_count(&self) -> (r: u32)
        ensures
            r == self@.count,
    {
        self.message_count
    }

    /// Keeps `title` for the first write, in place of one kept before. Hands it back where the
    /// file exists already.
    pub fn try_defer_title(&mut self, title: String) -> (r: Result<(), String>)
        ensures
            r == (if old(self)@.status is Pending {
                Ok::<(), String>(())
            } else {
                Err(title)
            }),
            final(self)@ == old(self)@.deferring(title@),
    {
        let mut status: WriterStatus = WriterStatus::Broken;
        std::mem::swap(&mut status, &mut self.writer_status);
        match status {
            WriterStatus::Pending { header, .. } => {
                self.writer_status = WriterStatus::Pending { header, deferred_title: Some(title) };
                Ok(())
            },
            other => {
                self.writer_status = other;
                Err(title)
            },
        }
    }

    /// The entries of one message under a random UUID, and the text a title is to be made from.
    pub fn queue_message_entries(
        &mut self,
        message: &Message,
        now: i128,
        manual_title_set: bool,
    ) -> (r: (Vec<Entry>, Option<String>))
        ensures
            exists|uuid: u128|
                {
                    let q = #[trigger] queued(old(self)@, message@, now, manual_title_set, uuid);
                    final(self)@ == q.state && entry_views(r.0@) == q.entries && opt_view(r.1)
                        == q.seed
                },
    {
        self.queue_message_entries_as(fresh_uuid(), message, now, manual_title_set)
    }

    /// The entries of one message under `uuid`, and the text a title is to be made from.
    pub fn queue_message_entries_as(
        &mut self,
        uuid: u128,
        message: &Message,
        now: i128,
        manual_title_set: bool,
    ) -> (r: (Vec<Entry>, Option<String>))
        ensures
            ({
                let q = queued(old(self)@, message@, now, manual_title_set, uuid);
                final(self)@ == q.state && entry_views(r.0@) == q.entries && opt_view(r.1) == q.seed
            }),
    {
        let ghost q = queued(self@, message@, now, manual_title_set, uuid);
        let mut entries: Vec<Entry> = Vec::new();
        let mut ai_title_seed: Option<String> = None;
        if !self.first_user_prompt_seen {
            match extract_user_text(message) {
                Some(text) => {
                    self.first_user_prompt_seen = true;
                    if !manual_title_set {
                        ai_title_seed = Some(text.to_owned());
                        entries.push(
                            Entry::Title {
                                title: truncate_title(text, MAX_TITLE_LEN),
                                source: TitleSource::FirstPrompt,
                                updated_at: now,
                            },
                        );
                    }
                },
                None => {},
            }
        }
        entries.push(
            Entry::Message {
                uuid,
                parent_uuid: self.last_message_uuid,
                message: message.clone(),
                timestamp: now,
            },
        );
        self.last_message_uuid = Some(uuid);
        if self.message_count < u32::MAX {
            self.message_count = self.message_count + 1;
        }
        assert(entry_views(entries@) =~= q.entries);
        (entries, ai_title_seed)
    }

    /// The entries that close the session.
    pub fn finish_entries(&mut self, snapshots: Vec<FileSnapshot>, now: i128) -> (r: Vec<Entry>)
        ensures
            entry_views(r@) == closing_entries(old(self)@, snapshots@, now),
            final(self)@ == old(self)@.closed(),
    {
        let mut entries: Vec<Entry> = Vec::new();
        let again: bool = self.finished;
        self.finished = true;
        if again || self.message_count == 0 || (self.initial_message_count > 0
            && self.message_count == self.initial_message_count) {
            assert(entry_views(entries@) =~= Seq::empty());
            return entries;
        }
        let ghost want = snapshots@.map_values(
            |f: FileSnapshot| EntryView::FileSnapshot { snapshot: f },
        );
        for snapshot in it: snapshots
            invariant
                it.seq() == snapshots@,
                want == snapshots@.map_values(
                    |f: FileSnapshot| EntryView::FileSnapshot { snapshot: f },
                ),
                entry_views(entries@) =~= want.take(it.index()),
        {
            let ghost prev = entries@;
            entries.push(Entry::FileSnapshot { snapshot });
            assert(entry_views(entries@) =~= entry_views(prev).push(want[it.index()]));
        }
        assert(entry_views(entries@) =~= want);
        entries.push(Entry::Summary { message_count: self.message_count, updated_at: now });
        assert(entry_views(entries@) =~= want.push(
            EntryView::Summary { message_count: self.message_count, updated_at: now },
        ));
        entries
    }

    /// The entries of a compaction under a random UUID, and that UUID.
    pub fn compact_entries(
        &self,
        summary: &str,
        instructions: Option<String>,
        synthetic_message: Message,
        now: i128,
    ) -> (r: (Vec<Entry>, u128))
        ensures
            entry_views(r.0@) == compaction_entries(
                summary@,
                opt_view(instructions),
                synthetic_message@,
                now,
                r.1,
            ),
    {
        let uuid: u128 = fresh_uuid();
        (self.compact_entries_as(uuid, summary, instructions, synthetic_message, now), uuid)
    }

    /// The entries of a compaction under `uuid`.
    pub fn compact_entries_as(
        &self,
        uuid: u128,
        summary: &str,
        instructions: Option<String>,
        synthetic_message: Message,
        now: i128,
    ) -> (r: Vec<Entry>)
        ensures
            entry_views(r@) == compaction_entries(
                summary@,
                opt_view(instructions),
                synthetic_message@,
                now,
                uuid,
            ),
    {
        let mut entries: Vec<Entry> = Vec::new();
        entries.push(Entry::Compact { summary: summary.to_owned(), instructions, timestamp: now });
        entries.push(
            Entry::Message { uuid, parent_uuid: None, message: synthetic_message, timestamp: now },
        );
        assert(entry_views(entries@) =~= compaction_entries(
            summary@,
            opt_view(instructions),
            synthetic_message@,
            now,
            uuid,
        ));
        entries
    }

    /// Goes on from the message that a compaction put into the file.
    pub fn commit_compact(&mut self, uuid: u128)
        ensures
            final(self)@ == old(self)@.compacted(uuid),
    {
        self.last_message_uuid = Some(uuid);
        self.initial_message_count = 0;
        self.message_count = 1;
    }

    // ── Writing ──

    /// What a write needs first. Until the write is settled the writer counts as broken.
    pub fn take_or_open_writer(&mut self) -> (r: WriterRequest)
        ensures
            r@ == old(self)@.request(),
            final(self)@ == old(self)@.taken(),
    {
        let mut status: WriterStatus = WriterStatus::Broken;
        std::mem::swap(&mut status, &mut self.writer_status);
        match status {
            WriterStatus::Active => WriterRequest::Ready,
            WriterStatus::Pending { header, deferred_title } => WriterRequest::Create {
                header,
                deferred_title,
            },
            WriterStatus::Broken => WriterRequest::Reopen,
        }
    }

    /// The file could not be made or opened. A header and title that were to go out wait on.
    pub fn restore_writer(&mut self, request: WriterRequest)
        ensures
            final(self)@ == old(self)@.restored(request@),
    {
        self.writer_status = match request {
            WriterRequest::Create { header, deferred_title } => WriterStatus::Pending {
                header,
                deferred_title,
            },
            _ => WriterStatus::Broken,
        };
    }

    /// The entries that one write puts into the file, given what it needed first.
    pub fn flush_entries(
        &self,
        request: &WriterRequest,
        entries: Vec<Entry>,
        now: i128,
    ) -> (r: Vec<Entry>)
        ensures
            entry_views(r@) == written(request@, entry_views(entries@), now),
    {
        match request {
            WriterRequest::Create { deferred_title: Some(title), .. } => {
                let mut entries: Vec<Entry> = entries;
                let mut out: Vec<Entry> = Vec::new();
                let ghost all = entry_views(entries@);
                out.push(
                    Entry::Title {
                        title: title.clone(),
                        source: TitleSource::UserProvided,
                        updated_at: now,
                    },
                );
                out.append(&mut entries);
                assert(entry_views(out@) =~= written(request@, all, now));
                out
            },
            _ => entries,
        }
    }

    /// Begins to write `entries`: what the write needs first, and what it puts into the file.
    /// Where there are no entries nothing is written, and the file is not even made.
    pub fn start_flush(&mut self, entries: Vec<Entry>, now: i128) -> (r: Option<
        (WriterRequest, Vec<Entry>),
    >)
        ensures
            match r {
                None => entries@.len() == 0 && final(self)@ == old(self)@,
                Some((request, out)) => {
                    &&& entries@.len() > 0
                    &&& request@ == old(self)@.request()
                    &&& entry_views(out@) == written(request@, entry_views(entries@), now)
                    &&& final(self)@ == old(self)@.taken()
                },
            },
    {
        if entries.len() == 0 {
            return None;
        }
        let request: WriterRequest = self.take_or_open_writer();
        let out: Vec<Entry> = self.flush_entries(&request, entries, now);
        Some((request, out))
    }

    /// The write ended: the file is open, or has to be opened anew.
    pub fn settle_flush(&mut self, ok: bool)
        ensures
            final(self)@ == old(self)@.settled(ok),
    {
        self.writer_status = if ok {
            WriterStatus::Active
        } else {
            WriterStatus::Broken
        };
    }
}

// ── Laws ──

/// A file that could not be made is asked for again, with the same header and title.
pub proof fn law_failed_open_is_retried(s: StateView)
    ensures
        s.status is Pending ==> s.taken().restored(s.request()) == s,
        s.taken().restored(s.request()).request() == if s.status is Active {
            RequestView::Reopen
        } else {
            s.request()
        },
{
}

/// A write that failed part way makes the next one open the file anew; one that succeeded
/// does not.
pub proof fn law_failed_write_reopens(s: StateView)
    ensures
        s.taken().settled(false).request() is Reopen,
        s.taken().settled(true).request() is Ready,
{
}

/// Closing a session twice writes nothing the second time.
pub proof fn law_closing_is_idempotent(
    s: StateView,
    snapshots: Seq<FileSnapshot>,
    now: i128,
)
    ensures
        closing_entries(s.closed(), snapshots, now) == Seq::<EntryView>::empty(),
        s.closed().closed() == s.closed(),
{
}

/// A title that the user gave suppresses the title of the first prompt: then, and for every
/// later message of the session.
pub proof fn law_manual_title_wins(s: StateView, m: MessageView, now: i128, uuid: u128)
    ensures
        queued(s, m, now, true, uuid).seed is None,
        queued(s, m, now, true, uuid).entries == seq![
            EntryView::Message { uuid, parent_uuid: s.last, message: m, timestamp: now },
        ],
        user_text(m) is Some ==> queued(s, m, now, true, uuid).state.prompt_seen,
{
    assert(queued(s, m, now, true, uuid).entries =~= seq![
        EntryView::Message { uuid, parent_uuid: s.last, message: m, timestamp: now },
    ]);
}

/// Only one message of a session seeds a title.
pub proof fn law_title_is_seeded_once(
    s: StateView,
    m1: MessageView,
    m2: MessageView,
    now: i128,
    manual1: bool,
    manual2: bool,
    uuid: u128,
)
    ensures
        queued(s, m1, now, manual1, uuid).seed is Some ==> title_seed(
            queued(s, m1, now, manual1, uuid).state,
            m2,
            manual2,
        ) is None,
{
}

/// A title that is deferred twice goes out once, as it was given last, right after the header.
pub proof fn law_last_deferred_title_wins(
    s: StateView,
    first: Seq<char>,
    second: Seq<char>,
    entries: Seq<EntryView>,
    now: i128,
)
    requires
        s.status is Pending,
    ensures
        s.deferring(first).deferring(second) == s.deferring(second),
        written(s.deferring(second).request(), entries, now) == seq![
            EntryView::Title { title: second, source: TitleSource::UserProvided, updated_at: now },
        ] + entries,
{
}

/// A session that recorded something since it was begun or resumed closes with all its file
/// snapshots, in order, and then a summary of its count. One that did not, and one that was
/// closed before, leaves nothing.
pub proof fn law_closing_tells_what_was_recorded(
    s: StateView,
    snapshots: Seq<FileSnapshot>,
    now: i128,
)
    ensures
        !s.finished && s.count > 0 && s.count != s.initial ==> {
            let entries = closing_entries(s, snapshots, now);
            &&& entries.len() == snapshots.len() + 1
            &&& forall|i: int|
                0 <= i < snapshots.len() ==> #[trigger] entries[i] == (EntryView::FileSnapshot {
                    snapshot: snapshots[i],
                })
            &&& entries.last() == (EntryView::Summary { message_count: s.count, updated_at: now })
        },
        s.finished || s.count == s.initial || s.count == 0 ==> closing_entries(
            s,
            snapshots,
            now,
        ).len() == 0,
        s.closed().finished,
        s.closed().count == s.count,
        s.closed().last == s.last,
        s.closed().status == s.status,
{
}

/// Closing after a message was recorded, in a new session or in one that was resumed, tells the
/// count with that message.
pub proof fn law_closing_after_a_recording(
    s: StateView,
    m: MessageView,
    now: i128,
    manual: bool,
    uuid: u128,
    snapshots: Seq<FileSnapshot>,
    later: i128,
)
    requires
        !s.finished,
        s.initial <= s.count < u32::MAX,
    ensures
        ({
            let next = queued(s, m, now, manual, uuid).state;
            let entries = closing_entries(next, snapshots, later);
            &&& entries.len() == snapshots.len() + 1
            &&& entries.last() == (EntryView::Summary {
                message_count: (s.count + 1) as u32,
                updated_at: later,
            })
        }),
{
    law_closing_tells_what_was_recorded(
        queued(s, m, now, manual, uuid).state,
        snapshots,
        later,
    );
}

/// The text of a message is its first text block that is not blank, where the message is the
/// user's; other messages, and those without such a block, have none.
pub proof fn law_user_text_is_the_first_that_is_not_blank(m: MessageView, k: int)
    ensures
        m.role != Role::User ==> user_text(m) is None,
        (forall|j: int|
            0 <= j < m.content.len() ==> !((#[trigger] m.content[j]) matches BlockView::Text {
                text,
            } && !is_blank(text))) ==> user_text(m) is None,
        m.role == Role::User && 0 <= k < m.content.len() && (m.content[k] matches BlockView::Text {
            text,
        } && !is_blank(text)) && (forall|j: int|
            0 <= j < k ==> !((#[trigger] m.content[j]) matches BlockView::Text { text }
                && !is_blank(text))) ==> user_text(m) == Some(m.content[k]->Text_text),
{
    lemma_first_text(m.content, k);
}

proof fn lemma_first_text(blocks: Seq<BlockView>, k: int)
    ensures
        (forall|j: int|
            0 <= j < blocks.len() ==> !((#[trigger] blocks[j]) matches BlockView::Text { text }
                && !is_blank(text))) ==> first_text(blocks) is None,
        0 <= k < blocks.len() && (blocks[k] matches BlockView::Text { text } && !is_blank(text)) && (
        forall|j: int|
            0 <= j < k ==> !((#[trigger] blocks[j]) matches BlockView::Text { text } && !is_blank(
                text,
            ))) ==> first_text(blocks) == Some(blocks[k]->Text_text),
    decreases blocks.len(),
{
    if blocks.len() > 0 {
        let t = blocks.drop_first();
        lemma_first_text(t, k - 1);
        assert(forall|j: int| 0 <= j < t.len() ==> #[trigger] t[j] == blocks[j + 1]);
        if forall|j: int|
            0 <= j < blocks.len() ==> !((#[trigger] blocks[j]) matches BlockView::Text { text }
                && !is_blank(text)) {
            assert forall|j: int| 0 <= j < t.len() implies !((#[trigger] t[j]) matches
                BlockView::Text { text } && !is_blank(text)) by {
                assert(t[j] == blocks[j + 1]);
            }
            assert(!(blocks[0] matches BlockView::Text { text } && !is_blank(text)));
        }
        if 0 < k < blocks.len() && (forall|j: int|
            0 <= j < k ==> !((#[trigger] blocks[j]) matches BlockView::Text { text } && !is_blank(
                text,
            ))) {
            assert forall|j: int| 0 <= j < k - 1 implies !((#[trigger] t[j]) matches
                BlockView::Text { text } && !is_blank(text)) by {
                assert(t[j] == blocks[j + 1]);
            }
            assert(!(blocks[0] matches BlockView::Text { text } && !is_blank(text)));
            assert(t[k - 1] == blocks[k]);
        }
    }
}

/// A title is the first line of its text, trimmed: whole where it has at most `max` characters,
/// else its beginning and an ellipsis, `max` characters together.
pub proof fn law_title_is_the_first_line(s: Seq<char>, max: nat)
    requires
        max >= 3,
    ensures
        ({
            let line = trim_of(s.take(index_of(s, '\n')));
            &&& line.len() <= max ==> truncated_title(s, max) == line
            &&& line.len() > max ==> truncated_title(s, max) == line.take(max - 3) + "..."@
            &&& truncated_title(s, max).len() <= max
        }),
{
    law_ellipsized_fits(trim_of(s.take(index_of(s, '\n'))), max);
}

/// Recording a message writes it, chained to the one before, as the last entry. The first text of
/// the user gives a title in front of it, and the whole text as a seed, unless the user gave a
/// title; nothing else does.
pub proof fn law_recording_writes_the_message(
    s: StateView,
    m: MessageView,
    now: i128,
    manual: bool,
    uuid: u128,
)
    ensures
        ({
            let q = queued(s, m, now, manual, uuid);
            let titled = !s.prompt_seen && !manual && user_text(m) is Some;
            &&& q.entries.len() == if titled {
                2int
            } else {
                1int
            }
            &&& q.entries.last() == (EntryView::Message {
                uuid,
                parent_uuid: s.last,
                message: m,
                timestamp: now,
            })
            &&& titled ==> (q.entries[0] matches EntryView::Title { title, source, updated_at }
                && title.len() <= 80 && title == truncated_title(user_text(m)->0, 80) && source
                == TitleSource::FirstPrompt && updated_at == now)
            &&& q.seed == if titled {
                user_text(m)
            } else {
                None
            }
            &&& q.state.last == Some(uuid)
            &&& s.count < u32::MAX ==> q.state.count == s.count + 1
            &&& q.state.prompt_seen == (s.prompt_seen || user_text(m) is Some)
            &&& q.state.session_id == s.session_id
            &&& q.state.status == s.status
            &&& q.state.initial == s.initial
            &&& q.state.finished == s.finished
        }),
{
    if user_text(m) is Some {
        law_title_is_the_first_line(user_text(m)->0, 80);
    }
}

/// The first write of a new session makes the file with its header; later ones use it as it is,
/// or open it anew where a write failed. What is written are the entries, in order, behind the
/// title that was put off where there is one.
pub proof fn law_writes_follow_the_state_of_the_file(
    id: Seq<char>,
    header: EntryView,
    s: StateView,
    entries: Seq<EntryView>,
    now: i128,
)
    ensures
        StateView::fresh(id, header).request() == (RequestView::Create { header, deferred: None }),
        s.status is Active ==> s.request() is Ready,
        s.status is Broken ==> s.request() is Reopen,
        s.status matches StatusView::Pending { header: h, deferred } ==> s.request() == (
        RequestView::Create { header: h, deferred }),
        !(s.status matches StatusView::Pending { deferred: Some(_), .. }) ==> written(
            s.request(),
            entries,
            now,
        ) == entries,
        s.status matches StatusView::Pending { deferred: Some(title), .. } ==> {
            let out = written(s.request(), entries, now);
            &&& out.len() == entries.len() + 1
            &&& out[0] == (EntryView::Title {
                title,
                source: TitleSource::UserProvided,
                updated_at: now,
            })
            &&& out.skip(1) == entries
        },
        s.settled(true).status is Active,
        s.settled(false).status is Broken,
        s.settled(true).count == s.count,
        s.settled(false).count == s.count,
        s.settled(true).last == s.last,
        s.settled(false).last == s.last,
{
    if let StatusView::Pending { deferred: Some(title), .. } = s.status {
        assert(written(s.request(), entries, now).skip(1) =~= entries);
    }
}

/// A resumed session goes on from the last message of its file, with the count that was loaded
/// and its file open.
pub proof fn law_resumed_sessions_go_on(
    id: Seq<char>,
    last: Option<u128>,
    count: u32,
    prompt_seen: bool,
    m: MessageView,
    now: i128,
    uuid: u128,
)
    ensures
        ({
            let s = StateView::resumed(id, last, count, prompt_seen);
            let q = queued(s, m, now, false, uuid);
            &&& s.session_id == id
            &&& s.count == count
            &&& s.request() is Ready
            &&& !s.finished
            &&& q.entries.last() == (EntryView::Message {
                uuid,
                parent_uuid: last,
                message: m,
                timestamp: now,
            })
            &&& prompt_seen ==> q.entries.len() == 1
            &&& closing_entries(s, Seq::empty(), now).len() == 0
        }),
{
}

/// A compaction writes its boundary, with the summary and the instructions, and a message that
/// follows none; the session then counts that message alone and goes on from it.
pub proof fn law_compaction_begins_a_chain(
    s: StateView,
    summary: Seq<char>,
    instructions: Option<Seq<char>>,
    m: MessageView,
    now: i128,
    uuid: u128,
)
    ensures
        compaction_entries(summary, instructions, m, now, uuid).len() == 2,
        compaction_entries(summary, instructions, m, now, uuid)[0] == (EntryView::Compact {
            summary,
            instructions,
            timestamp: now,
        }),
        compaction_entries(summary, instructions, m, now, uuid)[1] == (EntryView::Message {
            uuid,
            parent_uuid: None,
            message: m,
            timestamp: now,
        }),
        s.compacted(uuid).last == Some(uuid),
        s.compacted(uuid).count == 1,
        s.compacted(uuid).session_id == s.session_id,
        s.compacted(uuid).prompt_seen == s.prompt_seen,
        !s.finished ==> closing_entries(s.compacted(uuid), Seq::empty(), now) == seq![
            EntryView::Summary { message_count: 1, updated_at: now },
        ],
{
    if !s.finished {
        assert(closing_entries(s.compacted(uuid), Seq::empty(), now) =~= seq![
            EntryView::Summary { message_count: 1, updated_at: now },
        ]);
    }
}

/// A branch is told as git names it, without the white space around it; a failed run, one that
/// gave no text, and a checkout without a branch tell none.
pub proof fn law_branch_is_what_git_names(success: bool, stdout: Seq<u8>)
    ensures
        !success || !valid_utf8(stdout) ==> git_branch(success, stdout) is None,
        success && valid_utf8(stdout) ==> ({
            let name = trim_of(decode_utf8(stdout));
            git_branch(success, stdout) == if name.len() > 0 && name != "HEAD"@ {
                Some(name)
            } else {
                None
            }
        }),
{
}

/// Each step of a session changes what it is about and nothing else.
pub proof fn law_steps_change_nothing_else(
    s: StateView,
    title: Seq<char>,
    request: RequestView,
    id: Seq<char>,
    header: EntryView,
    last: Option<u128>,
    count: u32,
    prompt_seen: bool,
)
    ensures
        s.taken() == (StateView { status: StatusView::Broken, ..s }),
        s.settled(true) == (StateView { status: StatusView::Active, ..s }),
        s.settled(false) == (StateView { status: StatusView::Broken, ..s }),
        s.closed() == (StateView { finished: true, ..s }),
        !(s.status is Pending) ==> s.deferring(title) == s,
        s.status is Pending ==> s.deferring(title) == (StateView {
            status: StatusView::Pending {
                header: s.status->Pending_header,
                deferred: Some(title),
            },
            ..s
        }),
        !(request is Create) ==> s.restored(request) == (StateView {
            status: StatusView::Broken,
            ..s
        }),
        request is Create ==> s.restored(request) == (StateView {
            status: StatusView::Pending {
                header: request->Create_header,
                deferred: request->Create_deferred,
            },
            ..s
        }),
        StateView::fresh(id, header) == (StateView {
            session_id: id,
            status: StatusView::Pending { header, deferred: None },
            last: None,
            initial: 0,
            count: 0,
            prompt_seen: false,
            finished: false,
        }),
        StateView::resumed(id, last, count, prompt_seen) == (StateView {
            session_id: id,
            status: StatusView::Active,
            last,
            initial: count,
            count,
            prompt_seen,
            finished: false,
        }),
{
}

/// The header of a new session tells its identifier, when and where it began and with what model,
/// and the version of the format.
pub proof fn law_header_tells_the_session(
    id: u128,
    model: Seq<char>,
    cwd: Seq<char>,
    branch: Option<Seq<char>>,
    now: i128,
)
    ensures
        header_for(id, model, cwd, branch, now) == (EntryView::Header {
            session_id: uuid_text(id),
            cwd,
            model,
            created_at: now,
            version: 1,
            git_branch: branch,
        }),
{
}

/// The count of messages stops at the most that it can tell.
pub proof fn law_count_stops_at_its_end(
    s: StateView,
    m: MessageView,
    now: i128,
    manual: bool,
    uuid: u128,
)
    requires
        s.count == u32::MAX,
    ensures
        queued(s, m, now, manual, uuid).state.count == u32::MAX,
{
}

} // verus!
