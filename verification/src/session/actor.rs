//! The session actor: how queued requests become one batch of entries, and how the end of its
//! flush is answered. Receiving requests, writing files and sending replies is left to the
//! caller, who knows each waiting party by a ticket.

use vstd::prelude::*;

use crate::ident::fresh_uuid;
use crate::message::{Message, MessageView};
use crate::session::clock::{is_instant, now_utc};
use crate::session::entry::{
    entry_views, opt_view, Entry, EntryView, FileSnapshot, MetadataView, TitleSource, ToolMetadata,
};
use crate::session::handle::{CompactOutcome, Outcome, RecordOutcome, SharedState, SharedView};
use crate::session::state::{
    closing_entries, compaction_entries, opt_str_view, queued, user_text, SessionState, StateView,
    StatusView,
};

verus! {

// ── Requests, acks and replies ──

/// A request to the actor. `ack` is the ticket of the party that waits for the answer.
#[derive(Debug)]
pub enum SessionCmd {
    /// A conversation message.
    Record { msg: Message, ack: u64 },
    /// Sidecars of the tool results of one turn.
    ToolMetadata { items: Vec<(String, ToolMetadata)>, ack: u64 },
    /// A title made by the model.
    AppendAiTitle { title: String, ack: u64 },
    /// A title given by the user. No title of the model is written after it.
    SetManualTitle { title: String, ack: u64 },
    /// The end of the session.
    Finish { snapshots: Vec<FileSnapshot>, ack: u64 },
    /// A summary in place of the conversation so far.
    Compact {
        summary: String,
        instructions: Option<String>,
        synthetic_message: Message,
        ack: u64,
    },
    /// The end of the actor.
    Shutdown { ack: u64 },
}

/// What a party is owed when the batch has been flushed.
#[derive(Debug)]
pub enum PendingAck {
    Record { ack: u64, ai_title_seed: Option<String> },
    Outcome(u64),
    Compact { ack: u64, pre_count: u32, synthetic_uuid: u128 },
    Shutdown(u64),
}

/// An answer to the party with a ticket.
#[allow(inconsistent_fields)]
#[derive(Debug, PartialEq, Eq)]
pub enum Reply {
    Record { ack: u64, outcome: RecordOutcome },
    Outcome { ack: u64, outcome: Outcome },
    Compact { ack: u64, outcome: CompactOutcome },
    Shutdown { ack: u64 },
}

/// Whether more requests may join the batch.
#[derive(Clone, Copy, Debug, PartialEq, Eq, Structural)]
pub enum BatchFlow {
    Continue,
    FlushNow,
}

/// The requests taken in since the last flush.
#[derive(Debug)]
pub struct Batch {
    /// What goes into the file.
    pub entries: Vec<Entry>,
    /// What is owed after the flush.
    pub acks: Vec<PendingAck>,
    /// What can be answered right away.
    pub replies: Vec<Reply>,
    /// Whether the actor ends after the flush.
    pub should_exit: bool,
}

#[verifier::ext_equal]
pub ghost enum CmdView {
    Record { msg: MessageView, ack: u64 },
    ToolMetadata { items: Seq<(Seq<char>, MetadataView)>, ack: u64 },
    AppendAiTitle { title: Seq<char>, ack: u64 },
    SetManualTitle { title: Seq<char>, ack: u64 },
    Finish { snapshots: Seq<FileSnapshot>, ack: u64 },
    Compact {
        summary: Seq<char>,
        instructions: Option<Seq<char>>,
        synthetic: MessageView,
        ack: u64,
    },
    Shutdown { ack: u64 },
}

#[verifier::ext_equal]
pub ghost enum AckView {
    Record { ack: u64, seed: Option<Seq<char>> },
    Outcome { ack: u64 },
    Compact { ack: u64, pre_count: u32, synthetic_uuid: u128 },
    Shutdown { ack: u64 },
}

#[verifier::ext_equal]
pub ghost enum ReplyView {
    Record { ack: u64, seed: Option<Seq<char>>, failure: Option<Seq<char>> },
    Outcome { ack: u64, failure: Option<Seq<char>> },
    Compact { ack: u64, pre_count: u32, failure: Option<Seq<char>> },
    Shutdown { ack: u64 },
}

#[verifier::ext_equal]
pub ghost struct BatchView {
    pub entries: Seq<EntryView>,
    pub acks: Seq<AckView>,
    pub replies: Seq<ReplyView>,
    pub should_exit: bool,
}

/// The items of a metadata request, by their characters.
pub open spec fn item_views(v: Seq<(String, ToolMetadata)>) -> Seq<(Seq<char>, MetadataView)> {
    v.map_values(|p: (String, ToolMetadata)| (p.0@, p.1@))
}

impl View for SessionCmd {
    type V = CmdView;

    open spec fn view(&self) -> CmdView {
        match *self {
            SessionCmd::Record { msg, ack } => CmdView::Record { msg: msg@, ack },
            SessionCmd::ToolMetadata { items, ack } => CmdView::ToolMetadata {
                items: item_views(items@),
                ack,
            },
            SessionCmd::AppendAiTitle { title, ack } => CmdView::AppendAiTitle {
                title: title@,
                ack,
            },
            SessionCmd::SetManualTitle { title, ack } => CmdView::SetManualTitle {
                title: title@,
                ack,
            },
            SessionCmd::Finish { snapshots, ack } => CmdView::Finish {
                snapshots: snapshots@,
                ack,
            },
            SessionCmd::Compact { summary, instructions, synthetic_message, ack } => {
                CmdView::Compact {
                    summary: summary@,
                    instructions: opt_view(instructions),
                    synthetic: synthetic_message@,
                    ack,
                }
            },
            SessionCmd::Shutdown { ack } => CmdView::Shutdown { ack },
        }
    }
}

impl View for PendingAck {
    type V = AckView;

    open spec fn view(&self) -> AckView {
        match *self {
            PendingAck::Record { ack, ai_title_seed } => AckView::Record {
                ack,
                seed: opt_view(ai_title_seed),
            },
            PendingAck::Outcome(ack) => AckView::Outcome { ack },
            PendingAck::Compact { ack, pre_count, synthetic_uuid } => AckView::Compact {
                ack,
                pre_count,
                synthetic_uuid,
            },
            PendingAck::Shutdown(ack) => AckView::Shutdown { ack },
        }
    }
}

impl View for Reply {
    type V = ReplyView;

    open spec fn view(&self) -> ReplyView {
        match *self {
            Reply::Record { ack, outcome } => ReplyView::Record {
                ack,
                seed: opt_view(outcome.ai_title_seed),
                failure: opt_view(outcome.failure),
            },
            Reply::Outcome { ack, outcome } => ReplyView::Outcome {
                ack,
                failure: opt_view(outcome.failure),
            },
            Reply::Compact { ack, outcome } => ReplyView::Compact {
                ack,
                pre_count: outcome.pre_count,
                failure: opt_view(outcome.failure),
            },
            Reply::Shutdown { ack } => ReplyView::Shutdown { ack },
        }
    }
}

pub open spec fn ack_views(v: Seq<PendingAck>) -> Seq<AckView> {
    v.map_values(|a: PendingAck| a@)
}

pub open spec fn reply_views(v: Seq<Reply>) -> Seq<ReplyView> {
    v.map_values(|r: Reply| r@)
}

impl View for Batch {
    type V = BatchView;

    open spec fn view(&self) -> BatchView {
        BatchView {
            entries: entry_views(self.entries@),
            acks: ack_views(self.acks@),
            replies: reply_views(self.replies@),
            should_exit: self.should_exit,
        }
    }
}

impl BatchView {
    /// Nothing taken in.
    pub open spec fn empty() -> BatchView {
        BatchView {
            entries: Seq::empty(),
            acks: Seq::empty(),
            replies: Seq::empty(),
            should_exit: false,
        }
    }

    /// `entries` more to write, and `ack` owed afterwards.
    pub open spec fn owing(self, entries: Seq<EntryView>, ack: AckView) -> BatchView {
        BatchView { entries: self.entries + entries, acks: self.acks.push(ack), ..self }
    }

    /// The party with the ticket `ack` told that all is well.
    pub open spec fn answered(self, ack: u64) -> BatchView {
        BatchView {
            replies: self.replies.push(ReplyView::Outcome { ack, failure: None }),
            ..self
        }
    }
}

impl Batch {
    /// A batch with nothing taken in.
    pub fn new() -> (r: Batch)
        ensures
            r@ == BatchView::empty(),
    {
        let b = Batch {
            entries: Vec::new(),
            acks: Vec::new(),
            replies: Vec::new(),
            should_exit: false,
        };
        assert(b@ =~= BatchView::empty());
        b
    }

    /// More entries to write, and an ack owed afterwards.
    fn owe(&mut self, entries: Vec<Entry>, ack: PendingAck)
        ensures
            final(self)@ == old(self)@.owing(entry_views(entries@), ack@),
    {
        let mut entries: Vec<Entry> = entries;
        let ghost more = entry_views(entries@);
        self.entries.append(&mut entries);
        self.acks.push(ack);
        assert(self@ =~= old(self)@.owing(more, ack@));
    }

    /// Tells the party with the ticket `ack` that all is well.
    fn answer(&mut self, ack: u64)
        ensures
            final(self)@ == old(self)@.answered(ack),
    {
        self.replies.push(Reply::Outcome { ack, outcome: Outcome { failure: None } });
        assert(self@ =~= old(self)@.answered(ack));
    }
}

// ── Absorbing ──

/// The entries of those items that say something.
pub open spec fn metadata_entries(items: Seq<(Seq<char>, MetadataView)>, now: i128) -> Seq<
    EntryView,
>
    decreases items.len(),
{
    if items.len() == 0 {
        Seq::empty()
    } else {
        let before = metadata_entries(items.drop_last(), now);
        let (tool_use_id, metadata) = items.last();
        if metadata.is_default() {
            before
        } else {
            before.push(EntryView::ToolResultMetadata { tool_use_id, metadata, timestamp: now })
        }
    }
}

/// What taking in a request gives.
#[verifier::ext_equal]
pub ghost struct Absorbed {
    pub batch: BatchView,
    pub state: StateView,
    pub shared: SharedView,
    pub flow: BatchFlow,
}

/// Taking in `cmd` at `now`. A message that it adds gets the UUID `uuid`. A title is seeded only
/// in a session that was not resumed.
pub open spec fn absorbed(
    cmd: CmdView,
    batch: BatchView,
    state: StateView,
    shared: SharedView,
    now: i128,
    uuid: u128,
) -> Absorbed {
    let flow = BatchFlow::Continue;
    match cmd {
        CmdView::Record { msg, ack } => {
            let q = queued(state, msg, now, shared.manual_title, uuid);
            Absorbed {
                batch: batch.owing(
                    q.entries,
                    AckView::Record {
                        ack,
                        seed: if state.initial == 0 {
                            q.seed
                        } else {
                            None
                        },
                    },
                ),
                state: q.state,
                shared,
                flow,
            }
        },
        CmdView::ToolMetadata { items, ack } => {
            let more = metadata_entries(items, now);
            Absorbed {
                batch: if more.len() > 0 {
                    batch.owing(more, AckView::Outcome { ack })
                } else {
                    batch.answered(ack)
                },
                state,
                shared,
                flow,
            }
        },
        CmdView::AppendAiTitle { title, ack } => Absorbed {
            batch: if shared.manual_title {
                batch.answered(ack)
            } else {
                batch.owing(
                    seq![EntryView::Title {
                        title,
                        source: TitleSource::AiGenerated,
                        updated_at: now,
                    }],
                    AckView::Outcome { ack },
                )
            },
            state,
            shared,
            flow,
        },
        CmdView::SetManualTitle { title, ack } => Absorbed {
            batch: if state.status is Pending {
                batch.answered(ack)
            } else {
                batch.owing(
                    seq![EntryView::Title {
                        title,
                        source: TitleSource::UserProvided,
                        updated_at: now,
                    }],
                    AckView::Outcome { ack },
                )
            },
            state: state.deferring(title),
            shared: SharedView { manual_title: true, ..shared },
            flow,
        },
        CmdView::Finish { snapshots, ack } => Absorbed {
            batch: batch.owing(
                closing_entries(state, snapshots, now),
                AckView::Outcome { ack },
            ),
            state: state.closed(),
            shared,
            flow,
        },
        CmdView::Compact { summary, instructions, synthetic, ack } => Absorbed {
            batch: batch.owing(
                compaction_entries(summary, instructions, synthetic, now, uuid),
                AckView::Compact { ack, pre_count: state.count, synthetic_uuid: uuid },
            ),
            state,
            shared,
            flow: BatchFlow::FlushNow,
        },
        CmdView::Shutdown { ack } => Absorbed {
            batch: BatchView {
                should_exit: true,
                ..batch.owing(Seq::empty(), AckView::Shutdown { ack })
            },
            state,
            shared,
            flow,
        },
    }
}

/// The entries of those items that say something.
fn metadata_to_entries(items: Vec<(String, ToolMetadata)>, now: i128) -> (r: Vec<Entry>)
    ensures
        entry_views(r@) == metadata_entries(item_views(items@), now),
{
    let ghost all = item_views(items@);
    let mut entries: Vec<Entry> = Vec::new();
    assert(entry_views(entries@) =~= Seq::empty());
    for item in it: items
        invariant
            item_views(it.seq()) == all,
            entry_views(entries@) == metadata_entries(all.take(it.index()), now),
    {
        let ghost prev = entries@;
        proof {
            assert(all.take(it.index() + 1).drop_last() =~= all.take(it.index()));
            assert(all[it.index()] == (item.0@, item.1@));
        }
        if !item.1.is_default() {
            entries.push(
                Entry::ToolResultMetadata {
                    tool_use_id: item.0,
                    metadata: item.1,
                    timestamp: now,
                },
            );
            assert(entry_views(entries@) =~= entry_views(prev).push(entries@.last()@));
        }
    }
    assert(all.take(all.len() as int) =~= all);
    entries
}

/// One entry by itself.
fn single(entry: Entry) -> (r: Vec<Entry>)
    ensures
        entry_views(r@) == seq![entry@],
{
    let v: Vec<Entry> = vec![entry];
    assert(entry_views(v@) =~= seq![entry@]);
    v
}

/// Takes in a request, at the present instant and under a random UUID.
pub fn absorb(
    cmd: SessionCmd,
    batch: &mut Batch,
    state: &mut SessionState,
    shared: &mut SharedState,
) -> (flow: BatchFlow)
    ensures
        exists|now: i128, uuid: u128|
            is_instant(now as int) && (Absorbed {
                batch: final(batch)@,
                state: final(state)@,
                shared: final(shared)@,
                flow,
            }) == #[trigger] absorbed(cmd@, old(batch)@, old(state)@, old(shared)@, now, uuid),
{
    let now: i128 = now_utc();
    let uuid: u128 = fresh_uuid();
    absorb_at(cmd, batch, state, shared, now, uuid)
}

/// Takes in a request at `now`. A message that it adds gets the UUID `uuid`.
pub fn absorb_at(
    cmd: SessionCmd,
    batch: &mut Batch,
    state: &mut SessionState,
    shared: &mut SharedState,
    now: i128,
    uuid: u128,
) -> (flow: BatchFlow)
    ensures
        (Absorbed {
            batch: final(batch)@,
            state: final(state)@,
            shared: final(shared)@,
            flow,
        }) == absorbed(cmd@, old(batch)@, old(state)@, old(shared)@, now, uuid),
{
    match cmd {
        SessionCmd::Record { msg, ack } => {
            let fresh: bool = state.is_fresh();
            let (entries, seed) = state.queue_message_entries_as(
                uuid,
                &msg,
                now,
                shared.manual_title_set(),
            );
            let ai_title_seed: Option<String> = if fresh {
                seed
            } else {
                None
            };
            batch.owe(entries, PendingAck::Record { ack, ai_title_seed });
            BatchFlow::Continue
        },
        SessionCmd::ToolMetadata { items, ack } => {
            let entries: Vec<Entry> = metadata_to_entries(items, now);
            if entries.len() > 0 {
                batch.owe(entries, PendingAck::Outcome(ack));
            } else {
                batch.answer(ack);
            }
            BatchFlow::Continue
        },
        SessionCmd::AppendAiTitle { title, ack } => {
            if shared.manual_title_set() {
                batch.answer(ack);
            } else {
                let entry: Entry = Entry::Title {
                    title,
                    source: TitleSource::AiGenerated,
                    updated_at: now,
                };
                batch.owe(single(entry), PendingAck::Outcome(ack));
            }
            BatchFlow::Continue
        },
        SessionCmd::SetManualTitle { title, ack } => {
            shared.mark_manual_title_set();
            match state.try_defer_title(title) {
                Ok(()) => {
                    batch.answer(ack);
                },
                Err(title) => {
                    let entry: Entry = Entry::Title {
                        title,
                        source: TitleSource::UserProvided,
                        updated_at: now,
                    };
                    batch.owe(single(entry), PendingAck::Outcome(ack));
                },
            }
            BatchFlow::Continue
        },
        SessionCmd::Finish { snapshots, ack } => {
            let entries: Vec<Entry> = state.finish_entries(snapshots, now);
            batch.owe(entries, PendingAck::Outcome(ack));
            BatchFlow::Continue
        },
        SessionCmd::Compact { summary, instructions, synthetic_message, ack } => {
            let pre_count: u32 = state.message_count();
            let entries: Vec<Entry> = state.compact_entries_as(
                uuid,
                summary.as_str(),
                instructions,
                synthetic_message,
                now,
            );
            batch.owe(entries, PendingAck::Compact { ack, pre_count, synthetic_uuid: uuid });
            BatchFlow::FlushNow
        },
        SessionCmd::Shutdown { ack } => {
            let none: Vec<Entry> = Vec::new();
            assert(entry_views(none@) =~= Seq::empty());
            batch.owe(none, PendingAck::Shutdown(ack));
            batch.should_exit = true;
            BatchFlow::Continue
        },
    }
}

// ── After the flush ──

/// The session after the compactions among `acks` reached the file.
pub open spec fn committed(state: StateView, acks: Seq<AckView>) -> StateView
    decreases acks.len(),
{
    if acks.len() == 0 {
        state
    } else {
        let before = committed(state, acks.drop_last());
        match acks.last() {
            AckView::Compact { synthetic_uuid, .. } => before.compacted(synthetic_uuid),
            _ => before,
        }
    }
}

/// Goes on from the last compaction among `acks`, which reached the file.
pub fn commit_acks(acks: &Vec<PendingAck>, state: &mut SessionState)
    ensures
        final(state)@ == committed(old(state)@, ack_views(acks@)),
{
    let ghost all = ack_views(acks@);
    let mut i: usize = 0;
    while i < acks.len()
        invariant
            i <= acks.len(),
            all == ack_views(acks@),
            state@ == committed(old(state)@, all.take(i as int)),
        decreases acks.len() - i,
    {
        proof {
            assert(all.take(i as int + 1).drop_last() =~= all.take(i as int));
            assert(all[i as int] == acks@[i as int]@);
        }
        match &acks[i] {
            PendingAck::Compact { synthetic_uuid, .. } => {
                state.commit_compact(*synthetic_uuid);
            },
            _ => {},
        }
        i = i + 1;
    }
    assert(all.take(all.len() as int) =~= all);
}

/// The failure that a caller is told: the first one of the session, and no other.
pub open spec fn surfaced(failure: Option<Seq<char>>, shared: SharedView) -> Option<Seq<char>> {
    if shared.flush_surfaced {
        None
    } else {
        failure
    }
}

/// What is shared after a caller was told of `failure`.
pub open spec fn after_surfacing(failure: Option<Seq<char>>, shared: SharedView) -> SharedView {
    if failure is Some {
        SharedView { flush_surfaced: true, ..shared }
    } else {
        shared
    }
}

/// The failure that a caller is told: the first one of the session, and no other.
pub fn surface_failure(failure: Option<&str>, shared: &mut SharedState) -> (r: Option<String>)
    ensures
        opt_view(r) == surfaced(opt_str_view(failure), old(shared)@),
        final(shared)@ == after_surfacing(opt_str_view(failure), old(shared)@),
{
    match failure {
        None => None,
        Some(msg) => {
            if shared.surface_first_flush_failure() {
                Some(msg.to_owned())
            } else {
                None
            }
        },
    }
}

/// The answer to one ack, and what is shared afterwards.
pub open spec fn reply_to(ack: AckView, failure: Option<Seq<char>>, shared: SharedView) -> (
    ReplyView,
    SharedView,
) {
    let told = surfaced(failure, shared);
    let after = after_surfacing(failure, shared);
    match ack {
        AckView::Record { ack, seed } => (ReplyView::Record { ack, seed, failure: told }, after),
        AckView::Outcome { ack } => (ReplyView::Outcome { ack, failure: told }, after),
        AckView::Compact { ack, pre_count, .. } => (
            ReplyView::Compact { ack, pre_count, failure: told },
            after,
        ),
        AckView::Shutdown { ack } => (ReplyView::Shutdown { ack }, shared),
    }
}

/// The answers to `acks`, one after the other, and what is shared afterwards.
pub open spec fn delivered(
    acks: Seq<AckView>,
    failure: Option<Seq<char>>,
    shared: SharedView,
) -> (Seq<ReplyView>, SharedView)
    decreases acks.len(),
{
    if acks.len() == 0 {
        (Seq::empty(), shared)
    } else {
        let (replies, now) = delivered(acks.drop_last(), failure, shared);
        let (reply, after) = reply_to(acks.last(), failure, now);
        (replies.push(reply), after)
    }
}

/// Answers `acks` in order. Of a failure only the first party is told, and only if none was
/// told before; the end of the actor is answered without it.
pub fn deliver_acks(acks: Vec<PendingAck>, failure: Option<&str>, shared: &mut SharedState) -> (r:
    Vec<Reply>)
    ensures
        (reply_views(r@), final(shared)@) == delivered(
            ack_views(acks@),
            opt_str_view(failure),
            old(shared)@,
        ),
{
    let ghost all = ack_views(acks@);
    let ghost why = opt_str_view(failure);
    let mut replies: Vec<Reply> = Vec::new();
    assert(reply_views(replies@) =~= Seq::empty());
    for pending in it: acks
        invariant
            ack_views(it.seq()) == all,
            why == opt_str_view(failure),
            (reply_views(replies@), shared@) == delivered(
                all.take(it.index()),
                why,
                old(shared)@,
            ),
    {
        proof {
            assert(all.take(it.index() + 1).drop_last() =~= all.take(it.index()));
            assert(all[it.index()] == pending@);
        }
        let ghost before = shared@;
        let ghost done = replies@;
        let reply: Reply = match pending {
            PendingAck::Record { ack, ai_title_seed } => {
                let failure: Option<String> = surface_failure(failure, shared);
                Reply::Record { ack, outcome: RecordOutcome { ai_title_seed, failure } }
            },
            PendingAck::Outcome(ack) => {
                let failure: Option<String> = surface_failure(failure, shared);
                Reply::Outcome { ack, outcome: Outcome { failure } }
            },
            PendingAck::Compact { ack, pre_count, .. } => {
                let failure: Option<String> = surface_failure(failure, shared);
                Reply::Compact { ack, outcome: CompactOutcome { pre_count, failure } }
            },
            PendingAck::Shutdown(ack) => Reply::Shutdown { ack },
        };
        assert((reply@, shared@) == reply_to(pending@, why, before));
        replies.push(reply);
        assert(reply_views(replies@) =~= reply_views(done).push(reply@));
    }
    assert(all.take(all.len() as int) =~= all);
    replies
}

/// The session after the flush of a batch: compactions count only if they reached the file.
pub open spec fn state_after_flush(
    state: StateView,
    acks: Seq<AckView>,
    failure: Option<Seq<char>>,
) -> StateView {
    if failure is Some {
        state
    } else {
        committed(state, acks)
    }
}

/// What is shared after a flush, before its acks are answered.
pub open spec fn shared_after_flush(shared: SharedView, failure: Option<Seq<char>>) -> SharedView {
    match failure {
        Some(msg) => SharedView { last_failure: Some(msg), ..shared },
        None => shared,
    }
}

/// Ends a batch whose flush succeeded, or failed for the reason `failure`.
pub fn complete_batch(
    acks: Vec<PendingAck>,
    failure: Option<&str>,
    state: &mut SessionState,
    shared: &mut SharedState,
) -> (r: Vec<Reply>)
    ensures
        final(state)@ == state_after_flush(
            old(state)@,
            ack_views(acks@),
            opt_str_view(failure),
        ),
        (reply_views(r@), final(shared)@) == delivered(
            ack_views(acks@),
            opt_str_view(failure),
            shared_after_flush(old(shared)@, opt_str_view(failure)),
        ),
{
    match failure {
        Some(msg) => {
            shared.record_flush_failure(msg);
        },
        None => {
            commit_acks(&acks, state);
        },
    }
    deliver_acks(acks, failure, shared)
}

// ── Laws ──

/// The ticket of a request.
pub open spec fn ticket(cmd: CmdView) -> u64 {
    match cmd {
        CmdView::Record { ack, .. } => ack,
        CmdView::ToolMetadata { ack, .. } => ack,
        CmdView::AppendAiTitle { ack, .. } => ack,
        CmdView::SetManualTitle { ack, .. } => ack,
        CmdView::Finish { ack, .. } => ack,
        CmdView::Compact { ack, .. } => ack,
        CmdView::Shutdown { ack } => ack,
    }
}

/// The ticket of an ack.
pub open spec fn ack_ticket(a: AckView) -> u64 {
    match a {
        AckView::Record { ack, .. } => ack,
        AckView::Outcome { ack } => ack,
        AckView::Compact { ack, .. } => ack,
        AckView::Shutdown { ack } => ack,
    }
}

/// The ticket of a reply.
pub open spec fn reply_ticket(r: ReplyView) -> u64 {
    match r {
        ReplyView::Record { ack, .. } => ack,
        ReplyView::Outcome { ack, .. } => ack,
        ReplyView::Compact { ack, .. } => ack,
        ReplyView::Shutdown { ack } => ack,
    }
}

/// The failure that a reply tells of.
pub open spec fn told_failure(r: ReplyView) -> Option<Seq<char>> {
    match r {
        ReplyView::Record { failure, .. } => failure,
        ReplyView::Outcome { failure, .. } => failure,
        ReplyView::Compact { failure, .. } => failure,
        ReplyView::Shutdown { .. } => None,
    }
}

/// Each request is either answered right away or owed an answer, and never both. What was
/// written, owed and answered before stays, in its place.
pub proof fn law_absorb_keeps_and_tickets(
    cmd: CmdView,
    batch: BatchView,
    state: StateView,
    shared: SharedView,
    now: i128,
    uuid: u128,
)
    ensures
        ({
            let after = absorbed(cmd, batch, state, shared, now, uuid).batch;
            &&& batch.entries.is_prefix_of(after.entries)
            &&& batch.acks.is_prefix_of(after.acks)
            &&& batch.replies.is_prefix_of(after.replies)
            &&& {
                ||| after.acks.len() == batch.acks.len() + 1 && after.replies == batch.replies
                    && ack_ticket(after.acks.last()) == ticket(cmd)
                ||| after.replies.len() == batch.replies.len() + 1 && after.acks == batch.acks
                    && after.entries == batch.entries && reply_ticket(after.replies.last())
                    == ticket(cmd)
            }
        }),
{
}

/// Only a compaction ends a batch.
pub proof fn law_only_compaction_ends_a_batch(
    cmd: CmdView,
    batch: BatchView,
    state: StateView,
    shared: SharedView,
    now: i128,
    uuid: u128,
)
    ensures
        absorbed(cmd, batch, state, shared, now, uuid).flow == BatchFlow::FlushNow
            <==> cmd is Compact,
{
}

/// After the user gave a title, no title of the model is written, and none is asked for.
pub proof fn law_manual_title_silences_the_model(
    title: Seq<char>,
    cmd: CmdView,
    batch: BatchView,
    state: StateView,
    shared: SharedView,
    ack: u64,
    now: i128,
    uuid: u128,
)
    ensures
        ({
            let set = absorbed(
                CmdView::SetManualTitle { title, ack },
                batch,
                state,
                shared,
                now,
                uuid,
            );
            let next = absorbed(cmd, set.batch, set.state, set.shared, now, uuid);
            &&& set.shared.manual_title
            &&& next.shared.manual_title
            &&& cmd is AppendAiTitle ==> next.batch.entries == set.batch.entries
            &&& cmd is Record ==> next.batch.acks.last()->Record_seed is None
        }),
{
}

/// The latch of a title that the user gave, and the failure flags, are never reset.
pub proof fn law_latches_stay(
    cmd: CmdView,
    batch: BatchView,
    state: StateView,
    shared: SharedView,
    now: i128,
    uuid: u128,
)
    ensures
        ({
            let after = absorbed(cmd, batch, state, shared, now, uuid).shared;
            &&& shared.manual_title ==> after.manual_title
            &&& after.flush_surfaced == shared.flush_surfaced
            &&& after.gone_surfaced == shared.gone_surfaced
            &&& after.last_failure == shared.last_failure
        }),
{
}

/// Each ack is answered once, in order, to its own party.
pub proof fn law_every_ack_is_answered(
    acks: Seq<AckView>,
    failure: Option<Seq<char>>,
    shared: SharedView,
)
    ensures
        delivered(acks, failure, shared).0.len() == acks.len(),
        forall|i: int|
            0 <= i < acks.len() ==> reply_ticket(
                #[trigger] delivered(acks, failure, shared).0[i],
            ) == ack_ticket(acks[i]),
    decreases acks.len(),
{
    if acks.len() > 0 {
        let t = acks.drop_last();
        law_every_ack_is_answered(t, failure, shared);
        let d = delivered(acks, failure, shared).0;
        assert forall|i: int| 0 <= i < acks.len() implies reply_ticket(#[trigger] d[i])
            == ack_ticket(acks[i]) by {
            if i < t.len() {
                assert(d[i] == delivered(t, failure, shared).0[i]);
                assert(t[i] == acks[i]);
            }
        }
    }
}

/// A failure is told at most once in the life of a session: to the first party of the batch
/// that can be told, and to none where one was told before. A flush that succeeded tells of
/// no failure and leaves the flag as it was.
pub proof fn law_failure_is_told_once(
    acks: Seq<AckView>,
    failure: Option<Seq<char>>,
    shared: SharedView,
)
    ensures
        ({
            let (replies, after) = delivered(acks, failure, shared);
            &&& (shared.flush_surfaced || failure is None) ==> forall|i: int|
                0 <= i < replies.len() ==> told_failure(#[trigger] replies[i]) is None
            &&& forall|i: int|
                0 <= i < replies.len() && told_failure(#[trigger] replies[i]) is Some
                    ==> told_failure(replies[i]) == failure
            &&& forall|i: int, j: int|
                0 <= i < j < replies.len() && told_failure(#[trigger] replies[i]) is Some
                    ==> told_failure(#[trigger] replies[j]) is None
            &&& shared.flush_surfaced ==> after.flush_surfaced
            &&& after.flush_surfaced && !shared.flush_surfaced ==> exists|i: int|
                0 <= i < replies.len() && told_failure(#[trigger] replies[i]) is Some
            &&& (exists|i: int| 0 <= i < replies.len() && told_failure(#[trigger] replies[i]) is Some)
                ==> after.flush_surfaced
            &&& failure is None ==> after == shared
            &&& after.gone_surfaced == shared.gone_surfaced
            &&& after.manual_title == shared.manual_title
            &&& after.last_failure == shared.last_failure
        }),
    decreases acks.len(),
{
    if acks.len() > 0 {
        let t = acks.drop_last();
        law_failure_is_told_once(t, failure, shared);
        law_every_ack_is_answered(t, failure, shared);
        let (before, mid) = delivered(t, failure, shared);
        let (replies, after) = delivered(acks, failure, shared);
        assert forall|i: int| 0 <= i < before.len() implies replies[i] == before[i] by {}
        if after.flush_surfaced && !shared.flush_surfaced {
            if mid.flush_surfaced {
                let i = choose|i: int|
                    0 <= i < before.len() && told_failure(#[trigger] before[i]) is Some;
                assert(told_failure(replies[i]) is Some);
            } else {
                assert(told_failure(replies[replies.len() - 1]) is Some);
            }
        }
        if exists|i: int| 0 <= i < replies.len() && told_failure(#[trigger] replies[i]) is Some {
            let i = choose|i: int|
                0 <= i < replies.len() && told_failure(#[trigger] replies[i]) is Some;
            if i < before.len() {
                assert(told_failure(before[i]) is Some);
            }
        }
    }
}

/// A compaction that did not reach the file leaves the chain as it was; one that did begins a
/// new one.
pub proof fn law_compaction_counts_only_when_written(
    state: StateView,
    acks: Seq<AckView>,
    ack: u64,
    pre_count: u32,
    uuid: u128,
    msg: Seq<char>,
)
    ensures
        state_after_flush(state, acks, Some(msg)) == state,
        state_after_flush(
            state,
            acks.push(AckView::Compact { ack, pre_count, synthetic_uuid: uuid }),
            None,
        ).last == Some(uuid),
        state_after_flush(
            state,
            acks.push(AckView::Compact { ack, pre_count, synthetic_uuid: uuid }),
            None,
        ).count == 1,
{
    let c = AckView::Compact { ack, pre_count, synthetic_uuid: uuid };
    assert(acks.push(c).drop_last() =~= acks);
}

/// The items that say something, each as an entry.
pub open spec fn told_items(items: Seq<(Seq<char>, MetadataView)>, now: i128) -> Seq<EntryView> {
    items.filter(
        |i: (Seq<char>, MetadataView)| i.1.title is Some || i.1.replacements is Some,
    ).map_values(
        |i: (Seq<char>, MetadataView)|
            EntryView::ToolResultMetadata { tool_use_id: i.0, metadata: i.1, timestamp: now },
    )
}

/// Of the metadata of a turn, what says something is written, all of it and in order.
pub proof fn law_metadata_that_says_something_is_written(
    items: Seq<(Seq<char>, MetadataView)>,
    now: i128,
)
    ensures
        metadata_entries(items, now) == told_items(items, now),
    decreases items.len(),
{
    reveal(Seq::filter);
    if items.len() > 0 {
        law_metadata_that_says_something_is_written(items.drop_last(), now);
        assert(metadata_entries(items, now) =~= told_items(items, now));
    } else {
        assert(metadata_entries(items, now) =~= told_items(items, now));
    }
}

/// What each request adds to what is to be written, who is owed an answer, and what becomes of
/// the session: a message, metadata, a title of the model or of the user, the end, a compaction.
pub proof fn law_requests_write_what_they_ask_for(
    cmd: CmdView,
    batch: BatchView,
    state: StateView,
    shared: SharedView,
    now: i128,
    uuid: u128,
)
    ensures
        ({
            let done = absorbed(cmd, batch, state, shared, now, uuid);
            let after = done.batch;
            &&& after.should_exit == (batch.should_exit || cmd is Shutdown)
            &&& match cmd {
                CmdView::Record { msg, ack } => {
                    &&& after.entries == batch.entries + queued(
                        state,
                        msg,
                        now,
                        shared.manual_title,
                        uuid,
                    ).entries
                    &&& after.entries.last() == (EntryView::Message {
                        uuid,
                        parent_uuid: state.last,
                        message: msg,
                        timestamp: now,
                    })
                    &&& after.acks == batch.acks.push(
                        AckView::Record {
                            ack,
                            seed: if state.initial == 0 && !state.prompt_seen
                                && !shared.manual_title {
                                user_text(msg)
                            } else {
                                None
                            },
                        },
                    )
                    &&& done.state.last == Some(uuid)
                    &&& done.shared == shared
                },
                CmdView::ToolMetadata { items, ack } => {
                    &&& after.entries == batch.entries + told_items(items, now)
                    &&& told_items(items, now).len() > 0 ==> after.acks == batch.acks.push(
                        AckView::Outcome { ack },
                    )
                    &&& told_items(items, now).len() == 0 ==> after.replies == batch.replies.push(
                        ReplyView::Outcome { ack, failure: None },
                    )
                    &&& done.state == state
                    &&& done.shared == shared
                },
                CmdView::AppendAiTitle { title, ack } => {
                    &&& !shared.manual_title ==> after.entries == batch.entries.push(
                        EntryView::Title {
                            title,
                            source: TitleSource::AiGenerated,
                            updated_at: now,
                        },
                    )
                    &&& shared.manual_title ==> after.entries == batch.entries
                    &&& !shared.manual_title ==> after.acks == batch.acks.push(
                        AckView::Outcome { ack },
                    ) && after.replies == batch.replies
                    &&& shared.manual_title ==> after.acks == batch.acks && after.replies
                        == batch.replies.push(ReplyView::Outcome { ack, failure: None })
                    &&& done.state == state
                    &&& done.shared == shared
                },
                CmdView::SetManualTitle { title, ack } => {
                    &&& state.status matches StatusView::Pending { header, .. } ==> after.entries
                        == batch.entries && done.state.status == (StatusView::Pending {
                        header,
                        deferred: Some(title),
                    })
                    &&& !(state.status is Pending) ==> after.entries == batch.entries.push(
                        EntryView::Title {
                            title,
                            source: TitleSource::UserProvided,
                            updated_at: now,
                        },
                    ) && done.state == state
                    &&& state.status is Pending ==> after.acks == batch.acks && after.replies
                        == batch.replies.push(ReplyView::Outcome { ack, failure: None })
                    &&& !(state.status is Pending) ==> after.acks == batch.acks.push(
                        AckView::Outcome { ack },
                    ) && after.replies == batch.replies
                    &&& done.shared.manual_title
                    &&& done.state.last == state.last
                    &&& done.state.count == state.count
                },
                CmdView::Finish { snapshots, ack } => {
                    &&& after.entries == batch.entries + closing_entries(state, snapshots, now)
                    &&& !state.finished && state.count > state.initial ==> after.entries.len()
                        == batch.entries.len() + snapshots.len() + 1 && after.entries.last() == (
                    EntryView::Summary { message_count: state.count, updated_at: now })
                    &&& done.state.finished
                    &&& after.acks == batch.acks.push(AckView::Outcome { ack })
                    &&& done.shared == shared
                },
                CmdView::Compact { summary, instructions, synthetic, ack } => {
                    &&& after.entries == batch.entries.push(
                        EntryView::Compact { summary, instructions, timestamp: now },
                    ).push(
                        EntryView::Message {
                            uuid,
                            parent_uuid: None,
                            message: synthetic,
                            timestamp: now,
                        },
                    )
                    &&& after.acks == batch.acks.push(
                        AckView::Compact { ack, pre_count: state.count, synthetic_uuid: uuid },
                    )
                    &&& done.state == state
                    &&& done.shared == shared
                },
                CmdView::Shutdown { ack } => {
                    &&& after.entries == batch.entries
                    &&& after.acks == batch.acks.push(AckView::Shutdown { ack })
                    &&& done.state == state
                    &&& done.shared == shared
                },
            }
        }),
{
    let after = absorbed(cmd, batch, state, shared, now, uuid).batch;
    match cmd {
        CmdView::ToolMetadata { items, ack } => {
            law_metadata_that_says_something_is_written(items, now);
            assert(after.entries =~= batch.entries + told_items(items, now));
        },
        CmdView::AppendAiTitle { title, ack } => {
            assert(!shared.manual_title ==> after.entries =~= batch.entries.push(
                EntryView::Title { title, source: TitleSource::AiGenerated, updated_at: now },
            ));
        },
        CmdView::SetManualTitle { title, ack } => {
            assert(!(state.status is Pending) ==> after.entries =~= batch.entries.push(
                EntryView::Title { title, source: TitleSource::UserProvided, updated_at: now },
            ));
        },
        CmdView::Compact { summary, instructions, synthetic, ack } => {
            assert(after.entries =~= batch.entries.push(
                EntryView::Compact { summary, instructions, timestamp: now },
            ).push(
                EntryView::Message {
                    uuid,
                    parent_uuid: None,
                    message: synthetic,
                    timestamp: now,
                },
            ));
        },
        CmdView::Shutdown { ack } => {
            assert(after.entries =~= batch.entries);
        },
        _ => {},
    }
}

/// What an answer carries besides a failure is what was owed: the seed of a title, and the count
/// before a compaction.
pub proof fn law_answers_carry_what_was_owed(
    acks: Seq<AckView>,
    failure: Option<Seq<char>>,
    shared: SharedView,
    i: int,
)
    requires
        0 <= i < acks.len(),
    ensures
        match acks[i] {
            AckView::Record { ack, seed } => delivered(acks, failure, shared).0[i] matches
                ReplyView::Record { ack: a, seed: s, .. } && a == ack && s == seed,
            AckView::Outcome { ack } => delivered(acks, failure, shared).0[i] matches
                ReplyView::Outcome { ack: a, .. } && a == ack,
            AckView::Compact { ack, pre_count, .. } => delivered(acks, failure, shared).0[i] matches
                ReplyView::Compact { ack: a, pre_count: n, .. } && a == ack && n == pre_count,
            AckView::Shutdown { ack } => delivered(acks, failure, shared).0[i] == (
            ReplyView::Shutdown { ack }),
        },
    decreases acks.len(),
{
    let t = acks.drop_last();
    law_every_ack_is_answered(t, failure, shared);
    law_every_ack_is_answered(acks, failure, shared);
    if i < t.len() {
        law_answers_carry_what_was_owed(t, failure, shared, i);
        assert(t[i] == acks[i]);
        assert(delivered(acks, failure, shared).0[i] == delivered(t, failure, shared).0[i]);
    }
}

/// Where a flush fails and no failure was told yet, the first party that can be told is told.
pub proof fn law_first_party_is_told(
    acks: Seq<AckView>,
    failure: Option<Seq<char>>,
    shared: SharedView,
    i: int,
)
    requires
        failure is Some,
        !shared.flush_surfaced,
        0 <= i < acks.len(),
        !(acks[i] is Shutdown),
        forall|k: int| 0 <= k < i ==> (#[trigger] acks[k]) is Shutdown,
    ensures
        told_failure(delivered(acks, failure, shared).0[i]) == failure,
    decreases acks.len(),
{
    let t = acks.drop_last();
    law_every_ack_is_answered(t, failure, shared);
    law_every_ack_is_answered(acks, failure, shared);
    if i < t.len() {
        assert(t[i] == acks[i]);
        assert forall|k: int| 0 <= k < i implies (#[trigger] t[k]) is Shutdown by {
            assert(t[k] == acks[k]);
        }
        law_first_party_is_told(t, failure, shared, i);
        assert(delivered(acks, failure, shared).0[i] == delivered(t, failure, shared).0[i]);
    } else {
        lemma_shutdowns_tell_nothing(t, failure, shared);
    }
}

proof fn lemma_shutdowns_tell_nothing(
    acks: Seq<AckView>,
    failure: Option<Seq<char>>,
    shared: SharedView,
)
    requires
        forall|k: int| 0 <= k < acks.len() ==> (#[trigger] acks[k]) is Shutdown,
    ensures
        delivered(acks, failure, shared).1 == shared,
    decreases acks.len(),
{
    if acks.len() > 0 {
        let t = acks.drop_last();
        assert forall|k: int| 0 <= k < t.len() implies (#[trigger] t[k]) is Shutdown by {
            assert(t[k] == acks[k]);
        }
        lemma_shutdowns_tell_nothing(t, failure, shared);
        assert(acks.last() == acks[acks.len() - 1]);
    }
}

/// A flush without a compaction leaves the session as it is; with some, the session goes on from
/// the last one.
pub proof fn law_flush_goes_on_from_the_last_compaction(
    state: StateView,
    acks: Seq<AckView>,
    i: int,
)
    ensures
        (forall|k: int| 0 <= k < acks.len() ==> !((#[trigger] acks[k]) is Compact))
            ==> state_after_flush(state, acks, None) == state,
        0 <= i < acks.len() && acks[i] is Compact && (forall|k: int|
            i < k < acks.len() ==> !((#[trigger] acks[k]) is Compact)) ==> state_after_flush(
            state,
            acks,
            None,
        ) == (StateView {
            last: Some(acks[i]->Compact_synthetic_uuid),
            initial: 0,
            count: 1,
            ..state
        }),
    decreases acks.len(),
{
    if acks.len() > 0 {
        let t = acks.drop_last();
        let n = acks.len() - 1;
        law_flush_goes_on_from_the_last_compaction(state, t, i);
        lemma_committed_frame(state, t);
        assert(acks.last() == acks[n]);
        assert(forall|k: int| 0 <= k < t.len() ==> #[trigger] t[k] == acks[k]);
        if forall|k: int| 0 <= k < acks.len() ==> !((#[trigger] acks[k]) is Compact) {
            assert forall|k: int| 0 <= k < t.len() implies !((#[trigger] t[k]) is Compact) by {
                assert(t[k] == acks[k]);
            }
        }
        if 0 <= i < n && acks[i] is Compact && (forall|k: int|
            i < k < acks.len() ==> !((#[trigger] acks[k]) is Compact)) {
            assert(t[i] == acks[i]);
            assert forall|k: int| i < k < t.len() implies !((#[trigger] t[k]) is Compact) by {
                assert(t[k] == acks[k]);
            }
            assert(!(acks[n] is Compact));
        }
    }
}

proof fn lemma_committed_frame(state: StateView, acks: Seq<AckView>)
    ensures
        ({
            let c = committed(state, acks);
            c == (StateView { last: c.last, initial: c.initial, count: c.count, ..state })
        }),
    decreases acks.len(),
{
    if acks.len() > 0 {
        lemma_committed_frame(state, acks.drop_last());
    }
}

/// A failure to write is kept, so that it can be told when the writer is found gone; without one,
/// nothing changes.
pub proof fn law_flush_failure_is_kept(shared: SharedView, msg: Seq<char>, acks: Seq<AckView>)
    ensures
        shared_after_flush(shared, None) == shared,
        shared_after_flush(shared, Some(msg)) == (SharedView { last_failure: Some(msg), ..shared }),
        delivered(acks, Some(msg), shared_after_flush(shared, Some(msg))).1.last_failure == Some(
            msg,
        ),
        delivered(acks, None, shared_after_flush(shared, None)).1 == shared,
{
    law_failure_is_told_once(acks, Some(msg), shared_after_flush(shared, Some(msg)));
    law_failure_is_told_once(acks, None, shared);
}

} // verus!
