//! The message chain of a session file.
//!
//! Each message names its parent. Two processes that append to one file make the messages a
//! tree with forks; [`ChainBuilder`] takes them in the order of the file and gives back the
//! newest linear chain, from its root to its tip.

use vstd::prelude::*;

use std::collections::{HashMap, HashSet};

use crate::message::{message_views, Message, MessageView};

verus! {

broadcast use vstd::std_specs::hash::group_hash_axioms;

/// One message, its parent, and when it was written.
pub struct ChainNode {
    pub parent_uuid: Option<u128>,
    pub message: Message,
    pub timestamp: i128,
}

/// The messages seen so far, and the identifiers that some message names as its parent.
pub struct ChainBuilder {
    nodes: HashMap<u128, ChainNode>,
    referenced: HashSet<u128>,
}

/// A node by its characters.
#[verifier::ext_equal]
pub ghost struct NodeView {
    pub parent: Option<u128>,
    pub message: MessageView,
    pub timestamp: int,
}

/// What a builder knows.
#[verifier::ext_equal]
pub ghost struct ChainView {
    pub nodes: Map<u128, NodeView>,
    pub referenced: Set<u128>,
}

impl View for ChainNode {
    type V = NodeView;

    open spec fn view(&self) -> NodeView {
        NodeView {
            parent: self.parent_uuid,
            message: self.message@,
            timestamp: self.timestamp as int,
        }
    }
}

impl View for ChainBuilder {
    type V = ChainView;

    closed spec fn view(&self) -> ChainView {
        ChainView {
            nodes: self.nodes@.map_values(|n: ChainNode| n@),
            referenced: self.referenced@,
        }
    }
}

impl ChainView {
    /// Nothing seen.
    pub open spec fn empty() -> ChainView {
        ChainView { nodes: Map::empty(), referenced: Set::empty() }
    }

    /// A message more. One with an identifier that was there takes its place.
    pub open spec fn inserted(self, uuid: u128, node: NodeView) -> ChainView {
        ChainView {
            nodes: self.nodes.insert(uuid, node),
            referenced: match node.parent {
                Some(p) => self.referenced.insert(p),
                None => self.referenced,
            },
        }
    }

    /// A message that no message names as its parent.
    pub open spec fn is_leaf(self, uuid: u128) -> bool {
        self.nodes.contains_key(uuid) && !self.referenced.contains(uuid)
    }

    /// Whether `a` is older than `b`, or as old with the smaller identifier.
    pub open spec fn precedes(self, a: u128, b: u128) -> bool {
        self.nodes[a].timestamp < self.nodes[b].timestamp || (self.nodes[a].timestamp
            == self.nodes[b].timestamp && a < b)
    }

    /// Whether `tip` is the newest leaf, or nothing where there is no leaf.
    pub open spec fn is_tip(self, tip: Option<u128>) -> bool {
        match tip {
            Some(u) => {
                &&& self.is_leaf(u)
                &&& forall|v: u128| #[trigger] self.is_leaf(v) && v != u ==> self.precedes(v, u)
            },
            None => forall|v: u128| !self.is_leaf(v),
        }
    }
}

/// The messages on the way from the root to `cursor`, each node visited once. A parent that
/// is missing, or was visited, ends the way.
pub open spec fn walk(nodes: Map<u128, NodeView>, cursor: Option<u128>) -> Seq<MessageView>
    decreases nodes.dom().len(),
    when nodes.dom().finite()
{
    match cursor {
        None => Seq::empty(),
        Some(u) => if nodes.contains_key(u) {
            walk(nodes.remove(u), nodes[u].parent).push(nodes[u].message)
        } else {
            Seq::empty()
        },
    }
}

/// What a builder resolves to, given its tip.
pub open spec fn chain_to(c: ChainView, tip: Option<u128>) -> Seq<MessageView> {
    walk(c.nodes, tip)
}

impl ChainBuilder {
    /// A builder that has seen nothing.
    pub fn new() -> (r: ChainBuilder)
        ensures
            r@ == ChainView::empty(),
    {
        let r = ChainBuilder { nodes: HashMap::new(), referenced: HashSet::new() };
        assert(r@ =~= ChainView::empty());
        r
    }

    /// Takes in one message. The last one with an identifier counts.
    pub fn insert(
        &mut self,
        uuid: u128,
        parent_uuid: Option<u128>,
        message: Message,
        timestamp: i128,
    )
        ensures
            final(self)@ == old(self)@.inserted(
                uuid,
                NodeView { parent: parent_uuid, message: message@, timestamp: timestamp as int },
            ),
    {
        if let Some(p) = parent_uuid {
            self.referenced.insert(p);
        }
        self.nodes.insert(uuid, ChainNode { parent_uuid, message, timestamp });
        assert(self@ =~= old(self)@.inserted(
            uuid,
            NodeView { parent: parent_uuid, message: message@, timestamp: timestamp as int },
        ));
    }

    /// The newest leaf, if there is one.
    fn newest_leaf(&self) -> (tip: Option<u128>)
        ensures
            self@.is_tip(tip),
    {
        let mut tip: Option<u128> = None;
        for k in it: self.nodes.keys()
            invariant
                it.seq().unref().to_set() == self.nodes@.dom(),
                match tip {
                    Some(u) => {
                        &&& self@.is_leaf(u)
                        &&& forall|i: int|
                            0 <= i < it.index() && self@.is_leaf(*#[trigger] it.seq()[i])
                                && *it.seq()[i] != u ==> self@.precedes(*it.seq()[i], u)
                    },
                    None => forall|i: int|
                        0 <= i < it.index() ==> !self@.is_leaf(*#[trigger] it.seq()[i]),
                },
        {
            proof {
                assert(it.seq().unref()[it.index()] == *k);
                assert(it.seq().unref().to_set().contains(*k));
                assert(self.nodes@.contains_key(*k));
            }
            if !self.referenced.contains(k) {
                assert(self@.is_leaf(*k));
                let newer: bool = match tip {
                    None => true,
                    Some(u) => match (self.nodes.get(&u), self.nodes.get(k)) {
                        (Some(a), Some(b)) => a.timestamp < b.timestamp || (a.timestamp
                            == b.timestamp && u < *k),
                        _ => false,
                    },
                };
                if newer {
                    tip = Some(*k);
                }
            }
        }
        proof {
            assert forall|v: u128| #[trigger] self@.is_leaf(v) implies match tip {
                Some(u) => v == u || self@.precedes(v, u),
                None => false,
            } by {
                assert(self.nodes@.dom().contains(v));
            }
        }
        tip
    }

    /// The chain to the newest leaf, and that leaf. Cycles and missing parents end the chain
    /// at its root.
    pub fn resolve(self) -> (r: (Vec<Message>, Option<u128>))
        ensures
            self@.is_tip(r.1),
            message_views(r.0@) == chain_to(self@, r.1),
    {
        let tip: Option<u128> = self.newest_leaf();
        let ghost whole = self@.nodes;
        let mut nodes: HashMap<u128, ChainNode> = self.nodes;
        let mut reversed: Vec<Message> = Vec::new();
        let mut cursor: Option<u128> = tip;
        assert(nodes@.dom().finite());
        assert(node_views(nodes@) =~= whole);
        assert(walk(whole, tip) + backwards(reversed@) =~= walk(whole, tip));
        loop
            invariant_except_break
                nodes@.dom().finite(),
                walk(whole, tip) == walk(node_views(nodes@), cursor) + backwards(reversed@),
            ensures
                walk(whole, tip) == backwards(reversed@),
            decreases nodes@.dom().len(),
        {
            assert(node_views(nodes@).dom() =~= nodes@.dom());
            let uuid: u128 = match cursor {
                Some(u) => u,
                None => {
                    assert(walk(node_views(nodes@), cursor) + backwards(reversed@) =~= backwards(
                        reversed@,
                    ));
                    break;
                },
            };
            let ghost prev = nodes@;
            match nodes.remove(&uuid) {
                None => {
                    assert(walk(node_views(prev), cursor) + backwards(reversed@) =~= backwards(
                        reversed@,
                    ));
                    break;
                },
                Some(node) => {
                    proof {
                        assert(node_views(nodes@) =~= node_views(prev).remove(uuid));
                        let w = walk(node_views(nodes@), node.parent_uuid);
                        let r = reversed@;
                        assert(backwards(r.push(node.message)) =~= seq![node.message@] + backwards(r));
                        assert(w.push(node.message@) + backwards(r) =~= w + backwards(
                            r.push(node.message),
                        ));
                    }
                    reversed.push(node.message);
                    cursor = node.parent_uuid;
                },
            }
        }
        let ghost all = reversed@;
        let mut chain: Vec<Message> = Vec::new();
        assert(message_views(chain@) + backwards(reversed@) =~= backwards(all));
        loop
            invariant_except_break
                message_views(chain@) + backwards(reversed@) =~= backwards(all),
            ensures
                message_views(chain@) == backwards(all),
            decreases reversed.len(),
        {
            let m: Message = match reversed.pop() {
                Some(m) => m,
                None => {
                    break;
                },
            };
            let ghost rest = reversed@;
            let ghost done = message_views(chain@);
            assert(backwards(rest.push(m)) =~= seq![m@] + backwards(rest));
            chain.push(m);
            assert(message_views(chain@) =~= done.push(m@));
        }
        (chain, tip)
    }
}

/// The nodes by their characters.
spec fn node_views(nodes: Map<u128, ChainNode>) -> Map<u128, NodeView> {
    nodes.map_values(|n: ChainNode| n@)
}

/// Messages by their characters, last first.
spec fn backwards(v: Seq<Message>) -> Seq<MessageView> {
    Seq::new(v.len(), |i: int| v[v.len() - 1 - i]@)
}

// ── Laws ──

/// There is one tip: two answers that are both right are equal.
pub proof fn law_tip_is_unique(c: ChainView, a: Option<u128>, b: Option<u128>)
    requires
        c.is_tip(a),
        c.is_tip(b),
    ensures
        a == b,
{
    match (a, b) {
        (Some(x), Some(y)) => {
            assert(c.is_leaf(x));
            assert(c.is_leaf(y));
        },
        (Some(x), None) => {
            assert(c.is_leaf(x));
        },
        (None, Some(y)) => {
            assert(c.is_leaf(y));
        },
        (None, None) => {},
    }
}

/// One message of a file: its identifier and its node.
pub ghost struct ChainEntry {
    pub uuid: u128,
    pub node: NodeView,
}

/// What a builder knows after `entries`, in this order.
pub open spec fn fed(entries: Seq<ChainEntry>) -> ChainView
    decreases entries.len(),
{
    if entries.len() == 0 {
        ChainView::empty()
    } else {
        fed(entries.drop_last()).inserted(entries.last().uuid, entries.last().node)
    }
}

/// Whether each entry but the first names the one before it as its parent, the first names
/// none, and no identifier occurs twice.
pub open spec fn is_linear(entries: Seq<ChainEntry>) -> bool {
    &&& distinct_uuids(entries)
    &&& entries.len() > 0 ==> entries[0].node.parent is None
    &&& forall|i: int, j: int|
        0 <= i && j == i + 1 && j < entries.len() ==> (#[trigger] entries[j]).node.parent == Some(
            (#[trigger] entries[i]).uuid,
        )
}

/// The messages of `entries`.
pub open spec fn entry_messages(entries: Seq<ChainEntry>) -> Seq<MessageView> {
    entries.map_values(|e: ChainEntry| e.node.message)
}

/// Whether no identifier occurs twice.
pub open spec fn distinct_uuids(entries: Seq<ChainEntry>) -> bool {
    forall|i: int, j: int|
        0 <= i < j < entries.len() ==> (#[trigger] entries[i]).uuid != (#[trigger] entries[j]).uuid
}

/// What a builder knows after entries of which no identifier occurs twice.
proof fn lemma_fed(entries: Seq<ChainEntry>)
    requires
        distinct_uuids(entries),
    ensures
        fed(entries).nodes.dom().finite(),
        forall|u: u128| #[trigger]
            fed(entries).nodes.contains_key(u) <==> exists|i: int|
                0 <= i < entries.len() && (#[trigger] entries[i]).uuid == u,
        forall|i: int|
            0 <= i < entries.len() ==> fed(entries).nodes[(#[trigger] entries[i]).uuid]
                == entries[i].node,
        forall|u: u128| #[trigger]
            fed(entries).referenced.contains(u) <==> exists|i: int|
                0 <= i < entries.len() && (#[trigger] entries[i]).node.parent == Some(u),
    decreases entries.len(),
{
    if entries.len() > 0 {
        let t = entries.drop_last();
        let last = entries.last();
        assert(distinct_uuids(t)) by {
            assert forall|i: int, j: int| 0 <= i < j < t.len() implies (#[trigger] t[i]).uuid != (
            #[trigger] t[j]).uuid by {
                assert(entries[i].uuid != entries[j].uuid);
            }
        }
        lemma_fed(t);
        let f = fed(entries);
        assert(last == entries[entries.len() - 1]);
        assert forall|u: u128| #[trigger] f.nodes.contains_key(u) <==> exists|i: int|
            0 <= i < entries.len() && (#[trigger] entries[i]).uuid == u by {
            if f.nodes.contains_key(u) {
                if u == last.uuid {
                    assert(entries[entries.len() - 1].uuid == u);
                } else {
                    assert(fed(t).nodes.contains_key(u));
                    let i = choose|i: int| 0 <= i < t.len() && (#[trigger] t[i]).uuid == u;
                    assert(entries[i].uuid == u);
                }
            }
            if exists|i: int| 0 <= i < entries.len() && (#[trigger] entries[i]).uuid == u {
                let i = choose|i: int| 0 <= i < entries.len() && (#[trigger] entries[i]).uuid == u;
                if i < t.len() {
                    assert(t[i].uuid == u);
                    assert(fed(t).nodes.contains_key(u));
                }
            }
        }
        assert forall|i: int| 0 <= i < entries.len() implies f.nodes[(#[trigger] entries[i]).uuid]
            == entries[i].node by {
            if i < t.len() {
                assert(entries[i].uuid != entries[entries.len() - 1].uuid);
                assert(t[i] == entries[i]);
                assert(fed(t).nodes[t[i].uuid] == t[i].node);
            }
        }
        assert forall|u: u128| #[trigger] f.referenced.contains(u) <==> exists|i: int|
            0 <= i < entries.len() && (#[trigger] entries[i]).node.parent == Some(u) by {
            if f.referenced.contains(u) {
                if fed(t).referenced.contains(u) {
                    let i = choose|i: int|
                        0 <= i < t.len() && (#[trigger] t[i]).node.parent == Some(u);
                    assert(entries[i].node.parent == Some(u));
                } else {
                    assert(entries[entries.len() - 1].node.parent == Some(u));
                }
            }
            if exists|i: int|
                0 <= i < entries.len() && (#[trigger] entries[i]).node.parent == Some(u) {
                let i = choose|i: int|
                    0 <= i < entries.len() && (#[trigger] entries[i]).node.parent == Some(u);
                if i < t.len() {
                    assert(t[i].node.parent == Some(u));
                    assert(fed(t).referenced.contains(u));
                }
            }
        }
    }
}

/// Walking from entry `n - 1` of a linear file, with at least the entries before it at hand.
proof fn lemma_walk_linear(entries: Seq<ChainEntry>, nodes: Map<u128, NodeView>, n: int)
    requires
        is_linear(entries),
        0 <= n <= entries.len(),
        nodes.dom().finite(),
        forall|i: int|
            0 <= i < n ==> nodes.contains_key((#[trigger] entries[i]).uuid)
                && nodes[entries[i].uuid] == entries[i].node,
    ensures
        walk(
            nodes,
            if n == 0 {
                None
            } else {
                Some(entries[n - 1].uuid)
            },
        ) == entry_messages(entries).take(n),
    decreases n,
{
    if n > 0 {
        let u = entries[n - 1].uuid;
        assert(nodes.contains_key(u));
        let rest = nodes.remove(u);
        assert forall|i: int| 0 <= i < n - 1 implies rest.contains_key((#[trigger] entries[i]).uuid)
            && rest[entries[i].uuid] == entries[i].node by {
            assert(entries[i].uuid != entries[n - 1].uuid);
        }
        lemma_walk_linear(entries, rest, n - 1);
        if n > 1 {
            assert(entries[n - 1].node.parent == Some(entries[n - 2].uuid));
        }
        assert(entry_messages(entries).take(n) =~= entry_messages(entries).take(n - 1).push(
            entries[n - 1].node.message,
        ));
    } else {
        assert(entry_messages(entries).take(0) =~= Seq::empty());
    }
}

/// Whether `a` is older than `b`, or as old with the smaller identifier.
pub open spec fn comes_before(a: ChainEntry, b: ChainEntry) -> bool {
    a.node.timestamp < b.node.timestamp || (a.node.timestamp == b.node.timestamp && a.uuid
        < b.uuid)
}

/// Whether no entry of `first` names one of `second` as its parent.
pub open spec fn names_none_of(first: Seq<ChainEntry>, second: Seq<ChainEntry>) -> bool {
    forall|i: int, j: int|
        0 <= i < first.len() && 0 <= j < second.len() ==> (#[trigger] first[i]).node.parent != Some(
            (#[trigger] second[j]).uuid,
        )
}

/// Whether every leaf of `entries` comes before `e`.
pub open spec fn leaves_come_before(entries: Seq<ChainEntry>, e: ChainEntry) -> bool {
    forall|i: int|
        0 <= i < entries.len() && fed(entries).is_leaf((#[trigger] entries[i]).uuid)
            ==> comes_before(entries[i], e)
}

/// Where a chain stands behind any messages that know nothing of it, and every leaf of those
/// comes before the end of the chain, by time and then by identifier, the chain is the one that
/// is read.
pub proof fn law_newer_chain_wins(first: Seq<ChainEntry>, second: Seq<ChainEntry>)
    requires
        is_linear(second),
        distinct_uuids(first + second),
        second.len() > 0,
        names_none_of(first, second),
        leaves_come_before(first, second.last()),
    ensures
        fed(first + second).is_tip(Some(second.last().uuid)),
        forall|tip: Option<u128>|
            fed(first + second).is_tip(tip) ==> tip == Some(second.last().uuid)
                && #[trigger] chain_to(fed(first + second), tip) == entry_messages(second),
{
    let all = first + second;
    let a = first.len() as int;
    let f = fed(all);
    lemma_fed(all);
    assert(distinct_uuids(first)) by {
        assert forall|i: int, j: int| 0 <= i < j < first.len() implies (#[trigger] first[i]).uuid
            != (#[trigger] first[j]).uuid by {
            assert(all[i].uuid != all[j].uuid);
        }
    }
    lemma_fed(first);
    let u = second.last().uuid;
    assert(all[all.len() - 1].uuid == u);
    assert(f.nodes.contains_key(u));
    assert forall|k: int| 0 <= k < all.len() implies (#[trigger] all[k]).node.parent != Some(u) by {
        if k < a {
            assert(all[k] == first[k]);
            assert(second[second.len() - 1].uuid == u);
        } else {
            assert(all[k] == second[k - a]);
            if k > a {
                assert(second[k - a].node.parent == Some(second[k - a - 1].uuid));
                assert(all[k - 1] == second[k - a - 1]);
                assert(all[k - 1].uuid != all[all.len() - 1].uuid);
            }
        }
    }
    assert(f.is_leaf(u));
    assert forall|v: u128| #[trigger] f.is_leaf(v) && v != u implies f.precedes(v, u) by {
        assert(f.nodes.contains_key(v));
        let i = choose|i: int| 0 <= i < all.len() && (#[trigger] all[i]).uuid == v;
        if i < a {
            assert(all[i] == first[i]);
            assert(fed(first).nodes.contains_key(v));
            if fed(first).referenced.contains(v) {
                let k = choose|k: int|
                    0 <= k < first.len() && (#[trigger] first[k]).node.parent == Some(v);
                assert(all[k].node.parent == Some(v));
                assert(f.referenced.contains(v));
            }
            assert(fed(first).is_leaf(first[i].uuid));
            assert(f.nodes[all[i].uuid] == first[i].node);
            assert(f.nodes[all[all.len() - 1].uuid] == second.last().node);
        } else {
            assert(all[i] == second[i - a]);
            if i < all.len() - 1 {
                assert(second[i - a + 1].node.parent == Some(second[i - a].uuid));
                assert(all[i + 1] == second[i - a + 1]);
                assert(f.referenced.contains(v));
            }
        }
    }
    assert(f.is_tip(Some(u)));
    assert forall|i: int| 0 <= i < second.len() implies f.nodes.contains_key(
        (#[trigger] second[i]).uuid,
    ) && f.nodes[second[i].uuid] == second[i].node by {
        assert(all[a + i] == second[i]);
    }
    lemma_walk_linear(second, f.nodes, second.len() as int);
    assert(entry_messages(second).take(second.len() as int) =~= entry_messages(second));
    assert forall|tip: Option<u128>| f.is_tip(tip) implies tip == Some(u) && #[trigger] chain_to(
        f,
        tip,
    ) == entry_messages(second) by {
        law_tip_is_unique(f, tip, Some(u));
    }
}

/// What one writer appended is what is read back: a file whose messages each name the one
/// before resolves to all of them, in order, with the last one as its tip.
pub proof fn law_linear_chain_reads_back(entries: Seq<ChainEntry>)
    requires
        is_linear(entries),
    ensures
        forall|tip: Option<u128>|
            fed(entries).is_tip(tip) ==> tip == last_uuid(entries) && #[trigger] chain_to(
                fed(entries),
                tip,
            ) == entry_messages(entries),
{
    let f = fed(entries);
    lemma_fed(entries);
    if entries.len() > 0 {
        let none = Seq::<ChainEntry>::empty();
        assert(none + entries =~= entries);
        law_newer_chain_wins(none, entries);
    } else {
        assert forall|tip: Option<u128>| f.is_tip(tip) implies tip == last_uuid(entries)
            && #[trigger] chain_to(f, tip) == entry_messages(entries) by {
            law_tip_is_unique(f, tip, None);
            assert(entry_messages(entries) =~= Seq::empty());
        }
    }
}

/// The identifier of the last entry.
pub open spec fn last_uuid(entries: Seq<ChainEntry>) -> Option<u128> {
    if entries.len() == 0 {
        None
    } else {
        Some(entries.last().uuid)
    }
}

/// Whether `path` is a line of messages that are there, each the parent of the next, none of them
/// twice, and with nothing to go on to before the first: no parent, one that is not there, or one
/// that was met already.
pub open spec fn is_line_of(nodes: Map<u128, NodeView>, path: Seq<u128>) -> bool {
    &&& path.len() > 0
    &&& path.no_duplicates()
    &&& forall|i: int| 0 <= i < path.len() ==> nodes.contains_key(#[trigger] path[i])
    &&& forall|i: int, j: int|
        0 <= i && j == i + 1 && j < path.len() ==> nodes[#[trigger] path[j]].parent == Some(
            #[trigger] path[i],
        )
    &&& match nodes[path[0]].parent {
        None => true,
        Some(p) => !nodes.contains_key(p) || path.contains(p),
    }
}

proof fn lemma_walk_line(nodes: Map<u128, NodeView>, path: Seq<u128>)
    requires
        nodes.dom().finite(),
        path.len() > 0,
        path.no_duplicates(),
        forall|i: int| 0 <= i < path.len() ==> nodes.contains_key(#[trigger] path[i]),
        forall|i: int, j: int|
            0 <= i && j == i + 1 && j < path.len() ==> nodes[#[trigger] path[j]].parent == Some(
                #[trigger] path[i],
            ),
        match nodes[path[0]].parent {
            None => true,
            Some(p) => !nodes.contains_key(p) || path.contains(p),
        },
    ensures
        walk(nodes, Some(path.last())) == path.map_values(|u: u128| nodes[u].message),
    decreases path.len(),
{
    let u = path.last();
    let rest = nodes.remove(u);
    let told = path.map_values(|u: u128| nodes[u].message);
    if path.len() == 1 {
        match nodes[u].parent {
            None => {},
            Some(p) => {
                if path.contains(p) {
                    assert(p == u);
                }
                assert(!rest.contains_key(p));
            },
        }
        assert(walk(rest, nodes[u].parent) =~= Seq::empty());
        assert(walk(nodes, Some(u)) =~= told);
    } else {
        let t = path.drop_last();
        let n = path.len() - 1;
        assert(path[n - 1] == t.last());
        assert(nodes[path[n]].parent == Some(path[n - 1]));
        assert forall|i: int| 0 <= i < t.len() implies rest.contains_key(#[trigger] t[i]) by {
            assert(t[i] == path[i]);
            assert(path[i] != path[n]);
        }
        assert forall|i: int, j: int| 0 <= i && j == i + 1 && j < t.len() implies rest[
            #[trigger] t[j]
        ].parent == Some(#[trigger] t[i]) by {
            assert(t[j] == path[j] && t[i] == path[i]);
            assert(path[j] != path[n]);
        }
        assert(t[0] == path[0] && path[0] != path[n]);
        match nodes[path[0]].parent {
            None => {},
            Some(p) => {
                if rest.contains_key(p) {
                    let k = choose|k: int| 0 <= k < path.len() && path[k] == p;
                    assert(k < n);
                    assert(t[k] == p);
                }
            },
        }
        lemma_walk_line(rest, t);
        assert(walk(rest, nodes[u].parent) == t.map_values(|u: u128| rest[u].message));
        assert(walk(nodes, Some(u)) =~= told) by {
            assert forall|i: int| 0 <= i < t.len() implies rest[#[trigger] t[i]].message
                == told[i] by {
                assert(t[i] == path[i]);
                assert(path[i] != path[n]);
            }
        }
    }
}

/// The chain of a message is the line of messages that leads to it, from the first to itself.
pub proof fn law_chain_is_the_line_to_the_tip(c: ChainView, path: Seq<u128>)
    requires
        c.nodes.dom().finite(),
        is_line_of(c.nodes, path),
    ensures
        chain_to(c, Some(path.last())) == path.map_values(|u: u128| c.nodes[u].message),
        chain_to(c, None).len() == 0,
{
    lemma_walk_line(c.nodes, path);
}

/// What is known after entries were fed is what they hold: a message for each identifier, the last
/// that came under it, and as referenced what any of them names as its parent.
pub proof fn law_fed_holds_the_entries(entries: Seq<ChainEntry>, u: u128, k: int)
    ensures
        fed(entries).nodes.dom().finite(),
        fed(entries).nodes.contains_key(u) <==> exists|i: int|
            0 <= i < entries.len() && (#[trigger] entries[i]).uuid == u,
        0 <= k < entries.len() && (forall|i: int|
            k < i < entries.len() ==> (#[trigger] entries[i]).uuid != entries[k].uuid) ==> fed(
            entries,
        ).nodes.contains_key(entries[k].uuid) && fed(entries).nodes[entries[k].uuid]
            == entries[k].node,
        fed(entries).referenced.contains(u) <==> exists|i: int|
            0 <= i < entries.len() && (#[trigger] entries[i]).node.parent == Some(u),
    decreases entries.len(),
{
    if entries.len() > 0 {
        let t = entries.drop_last();
        let n = t.len() as int;
        law_fed_holds_the_entries(t, u, k);
        assert(entries[n] == entries.last());
        assert(forall|i: int| 0 <= i < n ==> #[trigger] entries[i] == t[i]);
        if exists|i: int| 0 <= i < entries.len() && (#[trigger] entries[i]).uuid == u {
            let i = choose|i: int| 0 <= i < entries.len() && (#[trigger] entries[i]).uuid == u;
            if i < n {
                assert(t[i].uuid == u);
            }
        }
        if exists|i: int| 0 <= i < t.len() && (#[trigger] t[i]).uuid == u {
            let i = choose|i: int| 0 <= i < t.len() && (#[trigger] t[i]).uuid == u;
            assert(entries[i].uuid == u);
        }
        if exists|i: int| 0 <= i < entries.len() && (#[trigger] entries[i]).node.parent == Some(u) {
            let i = choose|i: int|
                0 <= i < entries.len() && (#[trigger] entries[i]).node.parent == Some(u);
            if i < n {
                assert(t[i].node.parent == Some(u));
            }
        }
        if exists|i: int| 0 <= i < t.len() && (#[trigger] t[i]).node.parent == Some(u) {
            let i = choose|i: int| 0 <= i < t.len() && (#[trigger] t[i]).node.parent == Some(u);
            assert(entries[i].node.parent == Some(u));
        }
        if 0 <= k < n && (forall|i: int|
            k < i < entries.len() ==> (#[trigger] entries[i]).uuid != entries[k].uuid) {
            assert(forall|i: int| k < i < t.len() ==> (#[trigger] t[i]).uuid != t[k].uuid);
            assert(entries[n].uuid != entries[k].uuid);
        }
    }
}

/// The tip of a session is a message that no message names as its parent, and every other such
/// message is older, or as old with a lesser identifier; there is none only where there is no such
/// message.
pub proof fn law_tip_is_the_newest_leaf(c: ChainView, tip: Option<u128>, v: u128)
    requires
        c.is_tip(tip),
        c.nodes.contains_key(v),
        !c.referenced.contains(v),
    ensures
        tip is Some,
        c.nodes.contains_key(tip->0),
        !c.referenced.contains(tip->0),
        v != tip->0 ==> c.nodes[v].timestamp < c.nodes[tip->0].timestamp || (c.nodes[v].timestamp
            == c.nodes[tip->0].timestamp && v < tip->0),
{
    assert(c.is_leaf(v));
}

} // verus!
