//! What is recorded in a session is what is read back from its file.

use vstd::prelude::*;

use crate::message::MessageView;
use crate::session::chain::{
    chain_to, distinct_uuids, entry_messages, fed, is_linear, last_uuid, law_linear_chain_reads_back,
    law_newer_chain_wins, leaves_come_before, names_none_of, ChainEntry, NodeView,
};
use crate::session::entry::EntryView;
use crate::session::state::{compaction_entries, queued, StateView};
use crate::session::store::chain_entries;

verus! {

/// One message as it is recorded.
pub ghost struct Recording {
    pub message: MessageView,
    pub now: i128,
    pub manual: bool,
    pub uuid: u128,
}

/// The session after `recordings`.
pub open spec fn state_after(s: StateView, recordings: Seq<Recording>) -> StateView
    decreases recordings.len(),
{
    if recordings.len() == 0 {
        s
    } else {
        let r = recordings.last();
        queued(
            state_after(s, recordings.drop_last()),
            r.message,
            r.now,
            r.manual,
            r.uuid,
        ).state
    }
}

/// The entries that `recordings` add to the file.
pub open spec fn entries_of(s: StateView, recordings: Seq<Recording>) -> Seq<EntryView>
    decreases recordings.len(),
{
    if recordings.len() == 0 {
        Seq::empty()
    } else {
        let before = recordings.drop_last();
        let r = recordings.last();
        entries_of(s, before) + queued(
            state_after(s, before),
            r.message,
            r.now,
            r.manual,
            r.uuid,
        ).entries
    }
}

/// The messages of `recordings`.
pub open spec fn messages_of(recordings: Seq<Recording>) -> Seq<MessageView> {
    recordings.map_values(|r: Recording| r.message)
}

/// Whether a file with these entries is read as `messages`, of which `tip` is the last.
pub open spec fn reads_as(
    entries: Seq<EntryView>,
    tip: Option<u128>,
    messages: Seq<MessageView>,
) -> bool {
    forall|t: Option<u128>| #[trigger]
        fed(chain_entries(entries)).is_tip(t) ==> t == tip && chain_to(
            fed(chain_entries(entries)),
            t,
        ) == messages
}

/// The chain that `recordings` make behind the message `parent`.
pub open spec fn chain_of(parent: Option<u128>, recordings: Seq<Recording>) -> Seq<ChainEntry> {
    Seq::new(
        recordings.len(),
        |i: int|
            ChainEntry {
                uuid: recordings[i].uuid,
                node: NodeView {
                    parent: if i == 0 {
                        parent
                    } else {
                        Some(recordings[i - 1].uuid)
                    },
                    message: recordings[i].message,
                    timestamp: recordings[i].now as int,
                },
            },
    )
}

/// The messages of two stretches of a file are those of the first, then those of the second.
pub proof fn lemma_chain_entries_add(a: Seq<EntryView>, b: Seq<EntryView>)
    ensures
        chain_entries(a + b) == chain_entries(a) + chain_entries(b),
    decreases b.len(),
{
    if b.len() == 0 {
        assert(a + b =~= a);
        assert(chain_entries(a) + chain_entries(b) =~= chain_entries(a));
    } else {
        let t = b.drop_last();
        lemma_chain_entries_add(a, t);
        assert((a + b).drop_last() =~= a + t);
        assert((a + b).last() == b.last());
        assert(chain_entries(a + b) =~= chain_entries(a) + chain_entries(b));
    }
}

proof fn lemma_recorded_chain(s: StateView, recordings: Seq<Recording>)
    ensures
        chain_entries(entries_of(s, recordings)) == chain_of(s.last, recordings),
        state_after(s, recordings).last == if recordings.len() == 0 {
            s.last
        } else {
            Some(recordings.last().uuid)
        },
    decreases recordings.len(),
{
    if recordings.len() == 0 {
        assert(chain_of(s.last, recordings) =~= Seq::empty());
    } else {
        let before = recordings.drop_last();
        let r = recordings.last();
        lemma_recorded_chain(s, before);
        let mid = state_after(s, before);
        let q = queued(mid, r.message, r.now, r.manual, r.uuid).entries;
        lemma_chain_entries_add(entries_of(s, before), q);
        let head = q.drop_last();
        assert(chain_entries(head) =~= Seq::empty()) by {
            reveal_with_fuel(chain_entries, 2);
            if head.len() > 0 {
                assert(head.drop_last() =~= Seq::empty());
            }
        }
        assert(chain_entries(q) =~= seq![
            ChainEntry {
                uuid: r.uuid,
                node: NodeView {
                    parent: mid.last,
                    message: r.message,
                    timestamp: r.now as int,
                },
            },
        ]);
        assert(chain_of(s.last, recordings) =~= chain_of(s.last, before) + chain_entries(q));
    }
}

/// A chain behind the end of a chain is one chain.
proof fn lemma_linear_add(first: Seq<ChainEntry>, recordings: Seq<Recording>)
    requires
        is_linear(first),
        distinct_uuids(first + chain_of(last_uuid(first), recordings)),
    ensures
        is_linear(first + chain_of(last_uuid(first), recordings)),
        entry_messages(first + chain_of(last_uuid(first), recordings)) == entry_messages(first)
            + messages_of(recordings),
        last_uuid(first + chain_of(last_uuid(first), recordings)) == if recordings.len() == 0 {
            last_uuid(first)
        } else {
            Some(recordings.last().uuid)
        },
{
    let second = chain_of(last_uuid(first), recordings);
    let all = first + second;
    let a = first.len() as int;
    if all.len() > 0 {
        if a == 0 {
            assert(all[0] == second[0]);
        } else {
            assert(all[0] == first[0]);
        }
    }
    assert forall|i: int, j: int| 0 <= i && j == i + 1 && j < all.len() implies (
    #[trigger] all[j]).node.parent == Some((#[trigger] all[i]).uuid) by {
        if j < a {
            assert(first[j].node.parent == Some(first[i].uuid));
        } else if j == a {
            assert(all[j] == second[0]);
            assert(all[i] == first.last());
        } else {
            assert(all[j] == second[j - a]);
            assert(all[i] == second[i - a]);
        }
    }
    assert(entry_messages(all) =~= entry_messages(first) + messages_of(recordings));
    if recordings.len() > 0 {
        assert(all.last() == second.last());
    } else {
        assert(all =~= first);
    }
}

/// Reading gives back what was recorded. A file that holds one chain, to which a session that
/// goes on from its last message adds messages under identifiers that are new, is read as the
/// messages that were there and then the messages that were recorded, and its last message is
/// the last one recorded. A new session is the case of a file that holds no message.
pub proof fn law_recording_reads_back(
    file: Seq<EntryView>,
    s: StateView,
    recordings: Seq<Recording>,
)
    requires
        is_linear(chain_entries(file)),
        s.last == last_uuid(chain_entries(file)),
        distinct_uuids(chain_entries(file) + chain_of(s.last, recordings)),
    ensures
        reads_as(
            file + entries_of(s, recordings),
            state_after(s, recordings).last,
            entry_messages(chain_entries(file)) + messages_of(recordings),
        ),
{
    lemma_recorded_chain(s, recordings);
    lemma_chain_entries_add(file, entries_of(s, recordings));
    lemma_linear_add(chain_entries(file), recordings);
    let all = chain_entries(file + entries_of(s, recordings));
    law_linear_chain_reads_back(all);
    assert forall|t: Option<u128>| #[trigger] fed(all).is_tip(t) implies t == state_after(
        s,
        recordings,
    ).last && chain_to(fed(all), t) == entry_messages(chain_entries(file)) + messages_of(
        recordings,
    ) by {
        let _ = chain_to(fed(all), t);
    }
}

/// The chain that a compaction at `now` and `recordings` after it make.
pub open spec fn chain_after_compaction(
    synthetic: MessageView,
    now: i128,
    uuid: u128,
    recordings: Seq<Recording>,
) -> Seq<ChainEntry> {
    seq![
        ChainEntry {
            uuid,
            node: NodeView { parent: None, message: synthetic, timestamp: now as int },
        },
    ] + chain_of(Some(uuid), recordings)
}

/// After a compaction, reading gives back the message that stands for what was before, and what
/// was recorded since, and nothing older, whatever the file held. The identifiers are new, and
/// the last message written comes behind every message that was an end of a chain before: it is
/// later, or as late with the greater identifier.
pub proof fn law_compaction_reads_back(
    file: Seq<EntryView>,
    s: StateView,
    summary: Seq<char>,
    instructions: Option<Seq<char>>,
    synthetic: MessageView,
    now: i128,
    uuid: u128,
    recordings: Seq<Recording>,
)
    requires
        ({
            let added = chain_after_compaction(synthetic, now, uuid, recordings);
            &&& distinct_uuids(chain_entries(file) + added)
            &&& names_none_of(chain_entries(file), added)
            &&& leaves_come_before(chain_entries(file), added.last())
        }),
    ensures
        reads_as(
            file + compaction_entries(summary, instructions, synthetic, now, uuid) + entries_of(
                s.compacted(uuid),
                recordings,
            ),
            state_after(s.compacted(uuid), recordings).last,
            seq![synthetic] + messages_of(recordings),
        ),
{
    let boundary = compaction_entries(summary, instructions, synthetic, now, uuid);
    let more = entries_of(s.compacted(uuid), recordings);
    let old = chain_entries(file);
    let first = seq![
        ChainEntry {
            uuid,
            node: NodeView { parent: None, message: synthetic, timestamp: now as int },
        },
    ];
    let second = first + chain_of(Some(uuid), recordings);
    lemma_recorded_chain(s.compacted(uuid), recordings);
    lemma_chain_entries_add(file, boundary);
    lemma_chain_entries_add(file + boundary, more);
    assert(chain_entries(boundary) =~= first) by {
        reveal_with_fuel(chain_entries, 3);
        let t = boundary.drop_last();
        assert(t.drop_last() =~= Seq::empty());
        assert(chain_entries(t) =~= Seq::empty());
    }
    assert(old + first + chain_of(Some(uuid), recordings) =~= old + second);
    assert(distinct_uuids(second)) by {
        assert forall|i: int, j: int| 0 <= i < j < second.len() implies (#[trigger] second[i]).uuid
            != (#[trigger] second[j]).uuid by {
            assert((old + second)[old.len() + i] == second[i]);
            assert((old + second)[old.len() + j] == second[j]);
        }
    }
    assert(is_linear(first));
    lemma_linear_add(first, recordings);
    if recordings.len() == 0 {
        assert(second =~= first);
    }
    law_newer_chain_wins(old, second);
    assert(entry_messages(first) =~= seq![synthetic]);
    let all = old + second;
    assert forall|t: Option<u128>| #[trigger] fed(all).is_tip(t) implies t == state_after(
        s.compacted(uuid),
        recordings,
    ).last && chain_to(fed(all), t) == seq![synthetic] + messages_of(recordings) by {
        let _ = chain_to(fed(all), t);
    }
}

} // verus!
