use oxide_code::message::{ContentBlock, Message};
use oxide_code::session::chain::ChainBuilder;

fn at(text: &str) -> i128 {
    time::OffsetDateTime::parse(text, &time::format_description::well_known::Rfc3339)
        .expect("a time")
        .unix_timestamp_nanos()
}

fn user_message(text: &str) -> Message {
    Message::user(text)
}

/// Asserts the chain holds single-Text messages with these texts,
/// in order.
fn assert_chain_texts(chain: &[Message], want: &[&str]) {
    assert_eq!(chain.len(), want.len());
    for (msg, want_text) in chain.iter().zip(want) {
        assert!(matches!(&msg.content[0], ContentBlock::Text { text } if text == want_text));
    }
}

// ── ChainBuilder::resolve ──

#[test]
fn resolve_empty_builder_yields_no_chain() {
    let (chain, tip) = ChainBuilder::new().resolve();
    assert!(chain.is_empty());
    assert!(tip.is_none());
}

#[test]
fn resolve_single_message_is_self_as_tip() {
    let mut b = ChainBuilder::new();
    let u = 0xa1;
    b.insert(
        u,
        None,
        user_message("solo"),
        at("2026-04-16T12:00:00Z"),
    );

    let (chain, tip) = b.resolve();
    assert_eq!(tip, Some(u));
    assert_eq!(chain.len(), 1);
    assert_chain_texts(&chain, &["solo"]);
}

#[test]
fn resolve_linear_chain_preserves_root_to_tip_order() {
    let mut b = ChainBuilder::new();
    let u1 = 0xa2;
    let u2 = 0xa3;
    let u3 = 0xa4;
    b.insert(
        u1,
        None,
        user_message("a"),
        at("2026-04-16T12:00:00Z"),
    );
    b.insert(
        u2,
        Some(u1),
        user_message("b"),
        at("2026-04-16T12:00:01Z"),
    );
    b.insert(
        u3,
        Some(u2),
        user_message("c"),
        at("2026-04-16T12:00:02Z"),
    );

    let (chain, tip) = b.resolve();
    assert_eq!(tip, Some(u3));
    assert_chain_texts(&chain, &["a", "b", "c"]);
}

#[test]
fn resolve_fork_picks_newest_leaf() {
    let mut b = ChainBuilder::new();
    let root = 0xa5;
    let older = 0xa6;
    let newer = 0xa7;
    b.insert(
        root,
        None,
        user_message("root"),
        at("2026-04-16T12:00:00Z"),
    );
    b.insert(
        older,
        Some(root),
        user_message("older"),
        at("2026-04-16T12:00:01Z"),
    );
    b.insert(
        newer,
        Some(root),
        user_message("newer"),
        at("2026-04-16T12:00:02Z"),
    );

    let (chain, tip) = b.resolve();
    assert_eq!(tip, Some(newer), "tip should be the newer leaf");
    assert_chain_texts(&chain, &["root", "newer"]);
}

#[test]
fn resolve_fork_breaks_timestamp_tie_by_uuid_order() {
    let mut b = ChainBuilder::new();
    let root = 0xa8;
    let lo: u128 = 0x11111111_1111_1111_1111_111111111111;
    let hi: u128 = 0x99999999_9999_9999_9999_999999999999;
    let same = at("2026-04-16T12:00:01Z");
    b.insert(
        root,
        None,
        user_message("root"),
        at("2026-04-16T12:00:00Z"),
    );
    b.insert(lo, Some(root), user_message("lo"), same);
    b.insert(hi, Some(root), user_message("hi"), same);

    let (_, tip) = b.resolve();
    assert_eq!(
        tip,
        Some(hi),
        "uuid::Ord breaks the timestamp tie deterministically"
    );
}

#[test]
fn resolve_orphan_parent_terminates_chain_at_dangling_node() {
    let mut b = ChainBuilder::new();
    let only = 0xa9;
    b.insert(
        only,
        Some(0xaa),
        user_message("dangling"),
        at("2026-04-16T12:00:01Z"),
    );

    let (chain, tip) = b.resolve();
    assert_eq!(tip, Some(only));
    assert_eq!(chain.len(), 1);
    assert_chain_texts(&chain, &["dangling"]);
}

#[test]
fn resolve_walk_breaks_when_leaf_chain_re_enters_cycle() {
    // leaf → mid → tail → mid: leaf survives as tip, walker
    // re-enters mid and the seen-set trips. Covers the
    // cycle-break branch the no-leaf case doesn't reach.
    let mut b = ChainBuilder::new();
    let leaf = 0xab;
    let mid = 0xac;
    let tail = 0xad;
    b.insert(
        leaf,
        Some(mid),
        user_message("leaf"),
        at("2026-04-16T12:00:03Z"),
    );
    b.insert(
        mid,
        Some(tail),
        user_message("mid"),
        at("2026-04-16T12:00:02Z"),
    );
    b.insert(
        tail,
        Some(mid),
        user_message("tail"),
        at("2026-04-16T12:00:01Z"),
    );

    let (chain, tip) = b.resolve();
    assert_eq!(tip, Some(leaf), "leaf is the only non-referenced node");
    assert_chain_texts(&chain, &["tail", "mid", "leaf"]);
}

#[test]
fn resolve_cycle_truncates_chain_without_looping() {
    // Mutual cycle: every node is referenced, so no leaf and no
    // tip — chain comes back empty without spinning forever.
    let mut b = ChainBuilder::new();
    let a = 0xae;
    let bb = 0xaf;
    b.insert(
        a,
        Some(bb),
        user_message("A"),
        at("2026-04-16T12:00:01Z"),
    );
    b.insert(
        bb,
        Some(a),
        user_message("B"),
        at("2026-04-16T12:00:02Z"),
    );

    let (chain, tip) = b.resolve();
    assert!(tip.is_none(), "no leaf means no tip");
    assert!(chain.is_empty());
}

#[test]
fn resolve_self_loop_breaks_at_repeat_visit() {
    let mut b = ChainBuilder::new();
    let only = 0xb0;
    b.insert(
        only,
        Some(only),
        user_message("ouroboros"),
        at("2026-04-16T12:00:01Z"),
    );

    let (chain, tip) = b.resolve();
    assert!(tip.is_none());
    assert!(chain.is_empty());
}

#[test]
fn resolve_duplicate_uuid_keeps_latest_insertion() {
    let mut b = ChainBuilder::new();
    let u = 0xb1;
    b.insert(
        u,
        None,
        user_message("first"),
        at("2026-04-16T12:00:01Z"),
    );
    b.insert(
        u,
        None,
        user_message("second"),
        at("2026-04-16T12:00:05Z"),
    );

    let (chain, tip) = b.resolve();
    assert_eq!(tip, Some(u));
    assert_chain_texts(&chain, &["second"]);
}

#[test]
fn resolve_does_not_depend_on_the_order_of_insertion() {
    let mut forward = ChainBuilder::new();
    let mut backward = ChainBuilder::new();
    let links: [(u128, Option<u128>, &str); 3] =
        [(1, None, "a"), (2, Some(1), "b"), (3, Some(2), "c")];
    for (uuid, parent, text) in links {
        forward.insert(uuid, parent, user_message(text), uuid as i128);
    }
    for (uuid, parent, text) in links.iter().rev() {
        backward.insert(*uuid, *parent, user_message(text), *uuid as i128);
    }
    let (a, tip_a) = forward.resolve();
    let (b, tip_b) = backward.resolve();
    assert_eq!(tip_a, Some(3));
    assert_eq!(tip_b, Some(3));
    assert_eq!(a, b);
    assert_chain_texts(&a, &["a", "b", "c"]);
}
