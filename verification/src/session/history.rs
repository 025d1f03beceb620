//! A transcript in the order in which it is shown: each tool call followed by its result, text
//! blocks of one message merged, and what is not shown left out.

use vstd::prelude::*;
use vstd::string::*;

use crate::message::{
    block_views, message_views, BlockView, ContentBlock, Message, MessageView, Role,
};
use crate::session::sanitize::{
    all_blocks, answered, call_ids, called, is_call_of, is_result_of, lists,
};
use crate::text::{is_blank, is_space, join, lemma_blank, str_eq, trim, views};

verus! {

/// One thing that is shown of a transcript.
#[allow(inconsistent_fields)]
#[derive(Debug)]
pub enum Interaction<'a> {
    UserText(String),
    AssistantText(String),
    AssistantThinking(&'a str),
    ToolCall { id: &'a str, name: &'a str, input: &'a serde_json::Value },
    ToolResult { tool_use_id: &'a str, content: &'a str, is_error: bool },
    /// A result whose call is not in the transcript.
    OrphanToolResult { content: &'a str, is_error: bool },
}

/// One thing that is shown, by its characters.
#[verifier::ext_equal]
pub ghost enum Shown {
    UserText(Seq<char>),
    AssistantText(Seq<char>),
    AssistantThinking(Seq<char>),
    ToolCall { id: Seq<char>, name: Seq<char>, input: serde_json::Value },
    ToolResult { tool_use_id: Seq<char>, content: Seq<char>, is_error: bool },
    OrphanToolResult { content: Seq<char>, is_error: bool },
}

impl<'a> View for Interaction<'a> {
    type V = Shown;

    open spec fn view(&self) -> Shown {
        match *self {
            Interaction::UserText(s) => Shown::UserText(s@),
            Interaction::AssistantText(s) => Shown::AssistantText(s@),
            Interaction::AssistantThinking(s) => Shown::AssistantThinking(s@),
            Interaction::ToolCall { id, name, input } => Shown::ToolCall {
                id: id@,
                name: name@,
                input: *input,
            },
            Interaction::ToolResult { tool_use_id, content, is_error } => Shown::ToolResult {
                tool_use_id: tool_use_id@,
                content: content@,
                is_error,
            },
            Interaction::OrphanToolResult { content, is_error } => Shown::OrphanToolResult {
                content: content@,
                is_error,
            },
        }
    }
}

/// The things of `v`, by their characters.
pub open spec fn shown_views(v: Seq<Interaction<'_>>) -> Seq<Shown> {
    v.map_values(|i: Interaction<'_>| i@)
}

// ── What is shown ──

/// The results that are still to be shown, by the identifier of their call.
pub type Results = Map<Seq<char>, (Seq<char>, bool)>;

/// The results among `blocks`, the last for each call.
pub open spec fn results_of(blocks: Seq<BlockView>) -> Results
    decreases blocks.len(),
{
    if blocks.len() == 0 {
        Map::empty()
    } else {
        let before = results_of(blocks.drop_last());
        match blocks.last() {
            BlockView::ToolResult { tool_use_id, content, is_error } => before.insert(
                tool_use_id,
                (content, is_error),
            ),
            _ => before,
        }
    }
}

/// How far a walk through a transcript has come.
#[verifier::ext_equal]
pub ghost struct Walk {
    /// The results that were not shown yet.
    pub pending: Results,
    /// The text of the message at hand that was not shown yet.
    pub text: Seq<char>,
    /// What is shown, in order.
    pub out: Seq<Shown>,
}

/// The text at hand shown, if there is any.
pub open spec fn flushed(w: Walk, role: Role) -> Walk {
    if w.text.len() == 0 {
        w
    } else {
        Walk {
            text: Seq::empty(),
            out: w.out.push(
                match role {
                    Role::User => Shown::UserText(w.text),
                    Role::Assistant => Shown::AssistantText(w.text),
                },
            ),
            ..w
        }
    }
}

/// A tool call shown, and its result with it where there is one.
pub open spec fn with_call(
    w: Walk,
    id: Seq<char>,
    name: Seq<char>,
    input: serde_json::Value,
) -> Walk {
    let called = w.out.push(Shown::ToolCall { id, name, input });
    if w.pending.contains_key(id) {
        let (content, is_error) = w.pending[id];
        Walk {
            pending: w.pending.remove(id),
            out: called.push(Shown::ToolResult { tool_use_id: id, content, is_error }),
            ..w
        }
    } else {
        Walk { out: called, ..w }
    }
}

/// The walk through the blocks `all` one block further, in a message of `role`. A result whose
/// call stands anywhere in `all` is shown behind that call, and not in its own place.
pub open spec fn block_step(all: Seq<BlockView>, w: Walk, role: Role, b: BlockView) -> Walk {
    match b {
        BlockView::Text { text } if !is_blank(text) => Walk {
            text: if w.text.len() == 0 {
                text
            } else {
                w.text.push('\n') + text
            },
            ..w
        },
        BlockView::ToolUse { id, name, input } => with_call(flushed(w, role), id, name, input),
        BlockView::ServerToolUse { id, name, input } => with_call(
            flushed(w, role),
            id,
            name,
            input,
        ),
        BlockView::ToolResult { tool_use_id, content, is_error } if !called(all, tool_use_id) => {
            let f = flushed(w, role);
            Walk { out: f.out.push(Shown::OrphanToolResult { content, is_error }), ..f }
        },
        BlockView::Thinking { thinking, .. } if !is_blank(thinking) => {
            let f = flushed(w, role);
            Walk { out: f.out.push(Shown::AssistantThinking(thinking)), ..f }
        },
        _ => w,
    }
}

/// The walk after `blocks` of a message of `role`.
pub open spec fn blocks_walked(
    all: Seq<BlockView>,
    w: Walk,
    role: Role,
    blocks: Seq<BlockView>,
) -> Walk
    decreases blocks.len(),
{
    if blocks.len() == 0 {
        w
    } else {
        block_step(all, blocks_walked(all, w, role, blocks.drop_last()), role, blocks.last())
    }
}

/// The walk after `ms`. Text does not run over from one message into the next.
pub open spec fn messages_walked(all: Seq<BlockView>, w: Walk, ms: Seq<MessageView>) -> Walk
    decreases ms.len(),
{
    if ms.len() == 0 {
        w
    } else {
        let m = ms.last();
        flushed(
            blocks_walked(all, messages_walked(all, w, ms.drop_last()), m.role, m.content),
            m.role,
        )
    }
}

/// A walk at its start: nothing is shown yet, and every result of `all` is pending.
pub open spec fn walk_start(all: Seq<BlockView>) -> Walk {
    Walk { pending: results_of(all), text: Seq::empty(), out: Seq::empty() }
}

/// What is shown of a transcript.
pub open spec fn shown(ms: Seq<MessageView>) -> Seq<Shown> {
    messages_walked(all_blocks(ms), walk_start(all_blocks(ms)), ms).out
}

// ── Pending results ──

/// What a list of results maps to: the last for each call.
spec fn pairs_map(items: Seq<(&str, &str, bool)>) -> Results
    decreases items.len(),
{
    if items.len() == 0 {
        Map::empty()
    } else {
        pairs_map(items.drop_last()).insert(items.last().0@, (items.last().1@, items.last().2))
    }
}

/// All results of a transcript, in order.
fn collect_results<'a>(messages: &'a Vec<Message>) -> (r: Vec<(&'a str, &'a str, bool)>)
    ensures
        pairs_map(r@) == results_of(all_blocks(message_views(messages@))),
{
    let mut out: Vec<(&'a str, &'a str, bool)> = Vec::new();
    let ghost ms = message_views(messages@);
    let mut i: usize = 0;
    while i < messages.len()
        invariant
            i <= messages.len(),
            ms == message_views(messages@),
            pairs_map(out@) == results_of(all_blocks(ms.take(i as int))),
        decreases messages.len() - i,
    {
        let content: &'a Vec<ContentBlock> = &messages[i].content;
        let ghost base = all_blocks(ms.take(i as int));
        let ghost here = block_views(content@);
        let mut j: usize = 0;
        assert(base + here.take(0) =~= base);
        while j < content.len()
            invariant
                j <= content.len(),
                here == block_views(content@),
                pairs_map(out@) == results_of(base + here.take(j as int)),
            decreases content.len() - j,
        {
            proof {
                assert((base + here.take(j as int + 1)).drop_last() =~= base + here.take(j as int));
                assert((base + here.take(j as int + 1)).last() == content@[j as int]@);
            }
            match &content[j] {
                ContentBlock::ToolResult { tool_use_id, content: text, is_error } => {
                    let ghost before = out@;
                    out.push((tool_use_id.as_str(), text.as_str(), *is_error));
                    assert(out@.drop_last() =~= before);
                },
                _ => {},
            }
            j = j + 1;
        }
        proof {
            assert(here.take(here.len() as int) =~= here);
            assert(ms.take(i as int + 1).drop_last() =~= ms.take(i as int));
            assert(ms.take(i as int + 1).last() == messages@[i as int]@);
        }
        i = i + 1;
    }
    assert(ms.take(ms.len() as int) =~= ms);
    out
}

/// A result by its characters.
spec fn pair_view(p: Option<(&str, bool)>) -> Option<(Seq<char>, bool)> {
    match p {
        Some((content, is_error)) => Some((content@, is_error)),
        None => None,
    }
}

/// What `results` holds for the call `id`.
spec fn lookup(results: Results, id: Seq<char>) -> Option<(Seq<char>, bool)> {
    if results.contains_key(id) {
        Some(results[id])
    } else {
        None
    }
}

/// Takes the result for the call `id` out of `items`.
fn take_result<'a>(items: &mut Vec<(&'a str, &'a str, bool)>, id: &str) -> (r: Option<
    (&'a str, bool),
>)
    ensures
        pair_view(r) == lookup(pairs_map(old(items)@), id@),
        pairs_map(final(items)@) == pairs_map(old(items)@).remove(id@),
{
    let ghost all = items@;
    let mut found: Option<(&'a str, bool)> = None;
    let mut kept: Vec<(&'a str, &'a str, bool)> = Vec::new();
    let mut i: usize = 0;
    assert(pairs_map(kept@) =~= pairs_map(all.take(0)).remove(id@));
    while i < items.len()
        invariant
            i <= items.len(),
            items@ == all,
            pairs_map(kept@) == pairs_map(all.take(i as int)).remove(id@),
            pair_view(found) == lookup(pairs_map(all.take(i as int)), id@),
        decreases items.len() - i,
    {
        let item: (&'a str, &'a str, bool) = items[i];
        let ghost before = kept@;
        proof {
            assert(all.take(i as int + 1).drop_last() =~= all.take(i as int));
            assert(all.take(i as int + 1).last() == item);
        }
        if str_eq(item.0, id) {
            found = Some((item.1, item.2));
            assert(pairs_map(all.take(i as int + 1)).remove(id@) =~= pairs_map(
                all.take(i as int),
            ).remove(id@));
        } else {
            kept.push(item);
            proof {
                assert(kept@.drop_last() =~= before);
                assert(pairs_map(all.take(i as int + 1)).remove(id@) =~= pairs_map(
                    all.take(i as int),
                ).remove(id@).insert(item.0@, (item.1@, item.2)));
            }
        }
        i = i + 1;
    }
    assert(all.take(all.len() as int) =~= all);
    *items = kept;
    found
}

// ── Walking ──

/// Shows the text at hand, if there is any.
pub fn flush_text<'a>(out: &mut Vec<Interaction<'a>>, text_buf: &mut String, role: Role)
    ensures
        forall|pending: Results|
            (Walk { pending, text: final(text_buf)@, out: shown_views(final(out)@) })
                == #[trigger] flushed(
                Walk { pending, text: old(text_buf)@, out: shown_views(old(out)@) },
                role,
            ),
{
    if text_buf.as_str().is_empty() {
        return ;
    }
    let mut text: String = String::new();
    std::mem::swap(&mut text, text_buf);
    let ghost before = out@;
    let item: Interaction<'a> = match role {
        Role::User => Interaction::UserText(text),
        Role::Assistant => Interaction::AssistantText(text),
    };
    out.push(item);
    assert(shown_views(out@) =~= shown_views(before).push(item@));
}

/// Adds one thing to what is shown.
fn show<'a>(out: &mut Vec<Interaction<'a>>, item: Interaction<'a>)
    ensures
        shown_views(final(out)@) == shown_views(old(out)@).push(item@),
{
    out.push(item);
    assert(shown_views(out@) =~= shown_views(old(out)@).push(item@));
}

/// Shows a tool call, and its result with it where there is one.
fn show_call<'a>(
    out: &mut Vec<Interaction<'a>>,
    pairs: &mut Vec<(&'a str, &'a str, bool)>,
    id: &'a str,
    name: &'a str,
    input: &'a serde_json::Value,
)
    ensures
        forall|text: Seq<char>|
            (Walk { pending: pairs_map(final(pairs)@), text, out: shown_views(final(out)@) })
                == #[trigger] with_call(
                Walk { pending: pairs_map(old(pairs)@), text, out: shown_views(old(out)@) },
                id@,
                name@,
                *input,
            ),
{
    show(out, Interaction::ToolCall { id, name, input });
    match take_result(pairs, id) {
        Some((content, is_error)) => {
            show(out, Interaction::ToolResult { tool_use_id: id, content, is_error });
        },
        None => {
            assert(pairs_map(pairs@) =~= pairs_map(old(pairs)@));
        },
    }
}

/// What is shown of a transcript, in order: text and thinking as they occur, each tool call with
/// its result right behind it wherever that stands, results without a call in their place.
pub fn walk_transcript<'a>(messages: &'a Vec<Message>) -> (r: Vec<Interaction<'a>>)
    ensures
        shown_views(r@) == shown(message_views(messages@)),
{
    let mut pairs: Vec<(&'a str, &'a str, bool)> = collect_results(messages);
    let calls: Vec<String> = call_ids(messages);
    let mut out: Vec<Interaction<'a>> = Vec::new();
    let mut text_buf: String = String::new();
    let ghost ms = message_views(messages@);
    let ghost all = all_blocks(ms);
    let ghost start = walk_start(all);
    let mut i: usize = 0;
    assert(shown_views(out@) =~= Seq::empty());
    while i < messages.len()
        invariant
            i <= messages.len(),
            ms == message_views(messages@),
            forall|id: Seq<char>| #[trigger] views(calls@).contains(id) <==> called(all, id),
            (Walk { pending: pairs_map(pairs@), text: text_buf@, out: shown_views(out@) })
                == messages_walked(all, start, ms.take(i as int)),
        decreases messages.len() - i,
    {
        let msg: &'a Message = &messages[i];
        let ghost first = messages_walked(all, start, ms.take(i as int));
        let ghost blocks = msg@.content;
        let mut j: usize = 0;
        assert(blocks.take(0) =~= Seq::empty());
        while j < msg.content.len()
            invariant
                j <= msg.content.len(),
                blocks == msg@.content,
                forall|id: Seq<char>| #[trigger] views(calls@).contains(id) <==> called(all, id),
                (Walk { pending: pairs_map(pairs@), text: text_buf@, out: shown_views(out@) })
                    == blocks_walked(all, first, msg.role, blocks.take(j as int)),
            decreases msg.content.len() - j,
        {
            let block: &'a ContentBlock = &msg.content[j];
            let ghost w = blocks_walked(all, first, msg.role, blocks.take(j as int));
            proof {
                assert(blocks.take(j as int + 1).drop_last() =~= blocks.take(j as int));
                assert(blocks.take(j as int + 1).last() == block@);
            }
            match block {
                ContentBlock::Text { text } => {
                    if !trim(text.as_str()).is_empty() {
                        if !text_buf.as_str().is_empty() {
                            text_buf.push('\n');
                        }
                        text_buf.append(text.as_str());
                        assert(text_buf@ =~= block_step(all, w, msg.role, block@).text);
                    }
                },
                ContentBlock::ToolUse { id, name, input } => {
                    flush_text(&mut out, &mut text_buf, msg.role);
                    let ghost f = flushed(w, msg.role);
                    show_call(&mut out, &mut pairs, id.as_str(), name.as_str(), input);
                    assert(with_call(f, id@, name@, *input) == block_step(all, w, msg.role, block@));
                },
                ContentBlock::ServerToolUse { id, name, input } => {
                    flush_text(&mut out, &mut text_buf, msg.role);
                    let ghost f = flushed(w, msg.role);
                    show_call(&mut out, &mut pairs, id.as_str(), name.as_str(), input);
                    assert(with_call(f, id@, name@, *input) == block_step(all, w, msg.role, block@));
                },
                ContentBlock::ToolResult { tool_use_id, content, is_error } => {
                    if !lists(&calls, tool_use_id) {
                        flush_text(&mut out, &mut text_buf, msg.role);
                        show(
                            &mut out,
                            Interaction::OrphanToolResult {
                                content: content.as_str(),
                                is_error: *is_error,
                            },
                        );
                    }
                },
                ContentBlock::Thinking { thinking, .. } => {
                    if !trim(thinking.as_str()).is_empty() {
                        flush_text(&mut out, &mut text_buf, msg.role);
                        show(&mut out, Interaction::AssistantThinking(thinking.as_str()));
                    }
                },
                _ => {},
            }
            j = j + 1;
        }
        assert(blocks.take(blocks.len() as int) =~= blocks);
        flush_text(&mut out, &mut text_buf, msg.role);
        proof {
            assert(ms.take(i as int + 1).drop_last() =~= ms.take(i as int));
            assert(ms.take(i as int + 1).last() == msg@);
        }
        i = i + 1;
    }
    assert(ms.take(ms.len() as int) =~= ms);
    out
}

// ── Laws ──

/// Whether every result stands right behind its call, and no text and no thinking is blank.
pub open spec fn is_well_shown(out: Seq<Shown>) -> bool {
    &&& forall|k: int|
        0 <= k < out.len() && (#[trigger] out[k]) is ToolResult ==> k > 0 && is_call(
            out[k - 1],
            out[k]->ToolResult_tool_use_id,
        )
    &&& forall|k: int|
        0 <= k < out.len() ==> match #[trigger] out[k] {
            Shown::UserText(t) => !is_blank(t),
            Shown::AssistantText(t) => !is_blank(t),
            Shown::AssistantThinking(t) => !is_blank(t),
            _ => true,
        }
}

/// Whether what `w` shows is well shown, and its text at hand is worth showing.
spec fn walks_well(w: Walk) -> bool {
    is_well_shown(w.out) && (w.text.len() > 0 ==> !is_blank(w.text))
}

/// Whether `s` is the tool call `id`.
pub open spec fn is_call(s: Shown, id: Seq<char>) -> bool {
    s matches Shown::ToolCall { id: i, .. } && i == id
}

proof fn lemma_block_well_shown(all: Seq<BlockView>, w: Walk, role: Role, b: BlockView)
    requires
        walks_well(w),
    ensures
        walks_well(block_step(all, w, role, b)),
        walks_well(flushed(w, role)),
{
    let f = flushed(w, role);
    let n = block_step(all, w, role, b).out;
    assert forall|k: int| 0 <= k < f.out.len() && (#[trigger] f.out[k]) is ToolResult implies k > 0
        && is_call(f.out[k - 1], f.out[k]->ToolResult_tool_use_id) by {
        assert(f.out[k] == w.out[k]);
        assert(f.out[k - 1] == w.out[k - 1]);
    }
    assert forall|k: int| 0 <= k < n.len() && (#[trigger] n[k]) is ToolResult implies k > 0
        && is_call(n[k - 1], n[k]->ToolResult_tool_use_id) by {
        if k < f.out.len() {
            if n[k] == f.out[k] {
                assert(n[k - 1] == f.out[k - 1]);
            } else {
                assert(n[k] == w.out[k]);
                assert(n[k - 1] == w.out[k - 1]);
            }
        }
    }
    if let BlockView::Text { text } = b {
        if !is_blank(text) {
            let t = block_step(all, w, role, b).text;
            lemma_blank(text);
            lemma_blank(t);
            let k = choose|k: int| 0 <= k < text.len() && !is_space(#[trigger] text[k]);
            assert(t[t.len() - text.len() + k] == text[k]);
        }
    }
}

proof fn lemma_blocks_well_shown(all: Seq<BlockView>, w: Walk, role: Role, blocks: Seq<BlockView>)
    requires
        walks_well(w),
    ensures
        walks_well(blocks_walked(all, w, role, blocks)),
    decreases blocks.len(),
{
    if blocks.len() > 0 {
        lemma_blocks_well_shown(all, w, role, blocks.drop_last());
        lemma_block_well_shown(
            all,
            blocks_walked(all, w, role, blocks.drop_last()),
            role,
            blocks.last(),
        );
    }
}

proof fn lemma_messages_well_shown(all: Seq<BlockView>, w: Walk, ms: Seq<MessageView>)
    requires
        walks_well(w),
    ensures
        walks_well(messages_walked(all, w, ms)),
    decreases ms.len(),
{
    if ms.len() > 0 {
        let before = messages_walked(all, w, ms.drop_last());
        let m = ms.last();
        lemma_messages_well_shown(all, w, ms.drop_last());
        lemma_blocks_well_shown(all, before, m.role, m.content);
        lemma_block_well_shown(
            all,
            blocks_walked(all, before, m.role, m.content),
            m.role,
            BlockView::RedactedThinking { data: Seq::empty() },
        );
    }
}

/// What is shown of any transcript has every paired result right behind its call, no blank
/// text, and no blank thinking.
pub proof fn law_shown_is_well_formed(ms: Seq<MessageView>)
    ensures
        is_well_shown(shown(ms)),
{
    lemma_messages_well_shown(all_blocks(ms), walk_start(all_blocks(ms)), ms);
}

/// The result that is shown behind the call `id`, where `results` holds it.
pub open spec fn result_shown(results: Results, id: Seq<char>) -> Shown {
    Shown::ToolResult { tool_use_id: id, content: results[id].0, is_error: results[id].1 }
}

/// Whether `out` shows the block `b` of the transcript `all`, where `b` is a result without a
/// call.
spec fn orphan_shown(all: Seq<BlockView>, b: BlockView, out: Seq<Shown>) -> bool {
    b matches BlockView::ToolResult { tool_use_id, content, is_error } ==> (!called(
        all,
        tool_use_id,
    ) ==> out.contains(Shown::OrphanToolResult { content, is_error }))
}

/// Whether the walk from `w` to `n` only adds to what is shown, shows each result that it takes
/// out of the pending ones, and leaves the others as they are.
spec fn walks_on(w: Walk, n: Walk) -> bool {
    &&& forall|s: Shown| w.out.contains(s) ==> #[trigger] n.out.contains(s)
    &&& forall|id: Seq<char>| #[trigger]
        w.pending.contains_key(id) ==> n.out.contains(result_shown(w.pending, id)) || (
        n.pending.contains_key(id) && n.pending[id] == w.pending[id])
    &&& forall|id: Seq<char>| #[trigger]
        n.pending.contains_key(id) ==> w.pending.contains_key(id)
}

proof fn lemma_push_contains(s: Seq<Shown>, x: Shown)
    ensures
        forall|y: Shown| #[trigger] s.push(x).contains(y) <==> s.contains(y) || y == x,
{
    let n = s.push(x);
    assert forall|y: Shown| #[trigger] n.contains(y) <==> s.contains(y) || y == x by {
        if s.contains(y) {
            let k = choose|k: int| 0 <= k < s.len() && s[k] == y;
            assert(n[k] == y);
        }
        if y == x {
            assert(n[s.len() as int] == y);
        }
        if n.contains(y) {
            let k = choose|k: int| 0 <= k < n.len() && n[k] == y;
            if k < s.len() {
                assert(s[k] == y);
            }
        }
    }
}

proof fn lemma_flush_walks_on(w: Walk, role: Role)
    ensures
        walks_on(w, flushed(w, role)),
        flushed(w, role).pending == w.pending,
{
    lemma_push_contains(w.out, flushed(w, role).out.last());
}

proof fn lemma_call_walks_on(
    w: Walk,
    id: Seq<char>,
    name: Seq<char>,
    input: serde_json::Value,
)
    ensures
        walks_on(w, with_call(w, id, name, input)),
        !with_call(w, id, name, input).pending.contains_key(id),
{
    let c = Shown::ToolCall { id, name, input };
    lemma_push_contains(w.out, c);
    lemma_push_contains(w.out.push(c), result_shown(w.pending, id));
}

proof fn lemma_block_walks_on(all: Seq<BlockView>, w: Walk, role: Role, b: BlockView)
    ensures
        walks_on(w, block_step(all, w, role, b)),
        orphan_shown(all, b, block_step(all, w, role, b).out),
        forall|id: Seq<char>|
            is_call_of(b, id) ==> !(#[trigger] block_step(
                all,
                w,
                role,
                b,
            ).pending.contains_key(id)),
{
    let f = flushed(w, role);
    lemma_flush_walks_on(w, role);
    match b {
        BlockView::ToolUse { id, name, input } => {
            lemma_call_walks_on(f, id, name, input);
        },
        BlockView::ServerToolUse { id, name, input } => {
            lemma_call_walks_on(f, id, name, input);
        },
        BlockView::ToolResult { tool_use_id, content, is_error } => {
            lemma_push_contains(f.out, Shown::OrphanToolResult { content, is_error });
        },
        BlockView::Thinking { thinking, .. } => {
            lemma_push_contains(f.out, Shown::AssistantThinking(thinking));
        },
        _ => {},
    }
}

proof fn lemma_blocks_walk_on(all: Seq<BlockView>, w: Walk, role: Role, blocks: Seq<BlockView>)
    ensures
        walks_on(w, blocks_walked(all, w, role, blocks)),
        forall|k: int|
            0 <= k < blocks.len() ==> orphan_shown(
                all,
                #[trigger] blocks[k],
                blocks_walked(all, w, role, blocks).out,
            ),
        forall|id: Seq<char>| #[trigger]
            blocks_walked(all, w, role, blocks).pending.contains_key(id) ==> !called(blocks, id),
    decreases blocks.len(),
{
    if blocks.len() > 0 {
        let t = blocks.drop_last();
        let before = blocks_walked(all, w, role, t);
        let after = blocks_walked(all, w, role, blocks);
        lemma_blocks_walk_on(all, w, role, t);
        lemma_block_walks_on(all, before, role, blocks.last());
        assert forall|k: int| 0 <= k < blocks.len() implies orphan_shown(
            all,
            #[trigger] blocks[k],
            after.out,
        ) by {
            if k < t.len() {
                assert(t[k] == blocks[k]);
            }
        }
        assert forall|id: Seq<char>| #[trigger] after.pending.contains_key(id) implies !called(
            blocks,
            id,
        ) by {
            assert(before.pending.contains_key(id));
            if called(blocks, id) {
                let k = choose|k: int| 0 <= k < blocks.len() && is_call_of(#[trigger] blocks[k], id);
                if k < t.len() {
                    assert(is_call_of(t[k], id));
                }
            }
        }
    }
}

proof fn lemma_messages_walk_on(all: Seq<BlockView>, w: Walk, ms: Seq<MessageView>)
    ensures
        walks_on(w, messages_walked(all, w, ms)),
        forall|k: int|
            0 <= k < all_blocks(ms).len() ==> orphan_shown(
                all,
                #[trigger] all_blocks(ms)[k],
                messages_walked(all, w, ms).out,
            ),
        forall|id: Seq<char>| #[trigger]
            messages_walked(all, w, ms).pending.contains_key(id) ==> !called(all_blocks(ms), id),
    decreases ms.len(),
{
    if ms.len() > 0 {
        let t = ms.drop_last();
        let m = ms.last();
        let before = messages_walked(all, w, t);
        let walked = blocks_walked(all, before, m.role, m.content);
        let after = messages_walked(all, w, ms);
        let head = all_blocks(t);
        let blocks = all_blocks(ms);
        lemma_messages_walk_on(all, w, t);
        lemma_blocks_walk_on(all, before, m.role, m.content);
        lemma_flush_walks_on(walked, m.role);
        assert forall|k: int| 0 <= k < blocks.len() implies orphan_shown(
            all,
            #[trigger] blocks[k],
            after.out,
        ) by {
            if k < head.len() {
                assert(head[k] == blocks[k]);
            } else {
                assert(m.content[k - head.len()] == blocks[k]);
            }
        }
        assert forall|id: Seq<char>| #[trigger] after.pending.contains_key(id) implies !called(
            blocks,
            id,
        ) by {
            assert(walked.pending.contains_key(id));
            assert(before.pending.contains_key(id));
            if called(blocks, id) {
                let k = choose|k: int| 0 <= k < blocks.len() && is_call_of(#[trigger] blocks[k], id);
                if k < head.len() {
                    assert(is_call_of(head[k], id));
                } else {
                    assert(is_call_of(m.content[k - head.len()], id));
                }
            }
        }
    }
}

proof fn lemma_answered_has_result(blocks: Seq<BlockView>, id: Seq<char>)
    requires
        answered(blocks, id),
    ensures
        results_of(blocks).contains_key(id),
    decreases blocks.len(),
{
    let k = choose|k: int| 0 <= k < blocks.len() && is_result_of(#[trigger] blocks[k], id);
    let t = blocks.drop_last();
    if k < t.len() {
        assert(is_result_of(t[k], id));
        lemma_answered_has_result(t, id);
    }
}

/// No result is lost: of every call that is answered anywhere in the transcript the last result
/// is shown as its result, and every result without a call is shown as an orphan.
pub proof fn law_no_result_is_lost(ms: Seq<MessageView>)
    ensures
        forall|id: Seq<char>|
            called(all_blocks(ms), id) && answered(all_blocks(ms), id) ==> shown(ms).contains(
                #[trigger] result_shown(results_of(all_blocks(ms)), id),
            ),
        forall|k: int|
            0 <= k < all_blocks(ms).len() ==> (#[trigger] all_blocks(ms)[k] matches
                BlockView::ToolResult { tool_use_id, content, is_error } ==> (!called(
                all_blocks(ms),
                tool_use_id,
            ) ==> shown(ms).contains(Shown::OrphanToolResult { content, is_error }))),
{
    let all = all_blocks(ms);
    let start = walk_start(all);
    lemma_messages_walk_on(all, start, ms);
    assert forall|id: Seq<char>| called(all, id) && answered(all, id) implies shown(ms).contains(
        #[trigger] result_shown(results_of(all), id),
    ) by {
        lemma_answered_has_result(all, id);
        assert(start.pending.contains_key(id));
    }
    assert forall|k: int| 0 <= k < all.len() implies (#[trigger] all[k] matches
        BlockView::ToolResult { tool_use_id, content, is_error } ==> (!called(all, tool_use_id)
        ==> shown(ms).contains(Shown::OrphanToolResult { content, is_error }))) by {
        assert(orphan_shown(all, all[k], shown(ms)));
    }
}

/// Whether `s` is an orphan only where `all` holds that result and not its call.
spec fn orphan_is_owed(all: Seq<BlockView>, s: Shown) -> bool {
    s matches Shown::OrphanToolResult { content, is_error } ==> exists|id: Seq<char>|
        #![trigger called(all, id)]
        !called(all, id) && all.contains(
            BlockView::ToolResult { tool_use_id: id, content, is_error },
        )
}

proof fn lemma_blocks_orphans(all: Seq<BlockView>, w: Walk, role: Role, blocks: Seq<BlockView>)
    requires
        forall|k: int| 0 <= k < w.out.len() ==> orphan_is_owed(all, #[trigger] w.out[k]),
        forall|k: int| 0 <= k < blocks.len() ==> all.contains(#[trigger] blocks[k]),
    ensures
        forall|k: int|
            0 <= k < blocks_walked(all, w, role, blocks).out.len() ==> orphan_is_owed(
                all,
                #[trigger] blocks_walked(all, w, role, blocks).out[k],
            ),
    decreases blocks.len(),
{
    if blocks.len() > 0 {
        let t = blocks.drop_last();
        assert forall|k: int| 0 <= k < t.len() implies all.contains(#[trigger] t[k]) by {
            assert(t[k] == blocks[k]);
        }
        lemma_blocks_orphans(all, w, role, t);
        let before = blocks_walked(all, w, role, t);
        let after = block_step(all, before, role, blocks.last());
        assert(all.contains(blocks[blocks.len() - 1]));
        assert forall|k: int| 0 <= k < after.out.len() implies orphan_is_owed(
            all,
            #[trigger] after.out[k],
        ) by {
            if k < before.out.len() {
                assert(after.out[k] == before.out[k]);
            }
        }
    }
}

proof fn lemma_messages_orphans(all: Seq<BlockView>, w: Walk, ms: Seq<MessageView>)
    requires
        forall|k: int| 0 <= k < w.out.len() ==> orphan_is_owed(all, #[trigger] w.out[k]),
        forall|k: int| 0 <= k < all_blocks(ms).len() ==> all.contains(#[trigger] all_blocks(ms)[k]),
    ensures
        forall|k: int|
            0 <= k < messages_walked(all, w, ms).out.len() ==> orphan_is_owed(
                all,
                #[trigger] messages_walked(all, w, ms).out[k],
            ),
    decreases ms.len(),
{
    if ms.len() > 0 {
        let head = all_blocks(ms.drop_last());
        let blocks = all_blocks(ms);
        let m = ms.last();
        assert forall|k: int| 0 <= k < head.len() implies all.contains(#[trigger] head[k]) by {
            assert(head[k] == blocks[k]);
        }
        assert forall|k: int| 0 <= k < m.content.len() implies all.contains(
            #[trigger] m.content[k],
        ) by {
            assert(m.content[k] == blocks[head.len() + k]);
        }
        lemma_messages_orphans(all, w, ms.drop_last());
        let before = messages_walked(all, w, ms.drop_last());
        lemma_blocks_orphans(all, before, m.role, m.content);
        let walked = blocks_walked(all, before, m.role, m.content);
        let after = flushed(walked, m.role);
        assert forall|k: int| 0 <= k < after.out.len() implies orphan_is_owed(
            all,
            #[trigger] after.out[k],
        ) by {
            if k < walked.out.len() {
                assert(after.out[k] == walked.out[k]);
            }
        }
    }
}

/// What is shown as an orphan is a result of the transcript whose call stands nowhere in it,
/// neither before the result nor behind it.
pub proof fn law_orphan_has_no_call(ms: Seq<MessageView>, content: Seq<char>, is_error: bool)
    requires
        shown(ms).contains(Shown::OrphanToolResult { content, is_error }),
    ensures
        exists|id: Seq<char>|
            #![trigger called(all_blocks(ms), id)]
            !called(all_blocks(ms), id) && all_blocks(ms).contains(
                BlockView::ToolResult { tool_use_id: id, content, is_error },
            ),
{
    let all = all_blocks(ms);
    assert forall|k: int| 0 <= k < all.len() implies all.contains(#[trigger] all[k]) by {}
    lemma_messages_orphans(all, walk_start(all), ms);
    let s = Shown::OrphanToolResult { content, is_error };
    let k = choose|k: int| 0 <= k < shown(ms).len() && shown(ms)[k] == s;
    assert(orphan_is_owed(all, shown(ms)[k]));
}

// ── Which result is shown ──

/// Whether `j` is where the last result for the call `id` stands, with that content.
pub open spec fn is_last_result(
    blocks: Seq<BlockView>,
    j: int,
    id: Seq<char>,
    content: Seq<char>,
    is_error: bool,
) -> bool {
    &&& 0 <= j < blocks.len()
    &&& blocks[j] == BlockView::ToolResult { tool_use_id: id, content, is_error }
    &&& forall|i: int| j < i < blocks.len() ==> !is_result_of(#[trigger] blocks[i], id)
}

proof fn lemma_results_are_last(blocks: Seq<BlockView>, id: Seq<char>) -> (j: int)
    requires
        results_of(blocks).contains_key(id),
    ensures
        is_last_result(blocks, j, id, results_of(blocks)[id].0, results_of(blocks)[id].1),
    decreases blocks.len(),
{
    let t = blocks.drop_last();
    let n = t.len() as int;
    if is_result_of(blocks.last(), id) {
        n
    } else {
        let j = lemma_results_are_last(t, id);
        assert(blocks[j] == t[j]);
        assert forall|i: int| j < i < blocks.len() implies !is_result_of(#[trigger] blocks[i], id) by {
            if i < n {
                assert(blocks[i] == t[i]);
            }
        }
        j
    }
}

/// Whether what `w` shows and keeps as results are those of `all`.
spec fn tells_results_of(all: Seq<BlockView>, w: Walk) -> bool {
    &&& forall|id: Seq<char>| #[trigger]
        w.pending.contains_key(id) ==> results_of(all).contains_key(id) && w.pending[id]
            == results_of(all)[id]
    &&& forall|k: int|
        0 <= k < w.out.len() ==> (#[trigger] w.out[k] matches Shown::ToolResult {
            tool_use_id,
            content,
            is_error,
        } ==> results_of(all).contains_key(tool_use_id) && results_of(all)[tool_use_id] == (
            content,
            is_error,
        ))
}

proof fn lemma_block_tells_results(all: Seq<BlockView>, w: Walk, role: Role, b: BlockView)
    requires
        tells_results_of(all, w),
    ensures
        tells_results_of(all, block_step(all, w, role, b)),
        tells_results_of(all, flushed(w, role)),
{
    let f = flushed(w, role);
    assert forall|k: int| 0 <= k < f.out.len() implies (#[trigger] f.out[k] matches Shown::ToolResult {
        tool_use_id,
        content,
        is_error,
    } ==> results_of(all).contains_key(tool_use_id) && results_of(all)[tool_use_id] == (
        content,
        is_error,
    )) by {
        if k < w.out.len() {
            assert(f.out[k] == w.out[k]);
        }
    }
    let n = block_step(all, w, role, b);
    assert forall|k: int| 0 <= k < n.out.len() implies (#[trigger] n.out[k] matches Shown::ToolResult {
        tool_use_id,
        content,
        is_error,
    } ==> results_of(all).contains_key(tool_use_id) && results_of(all)[tool_use_id] == (
        content,
        is_error,
    )) by {
        if k < w.out.len() {
            assert(n.out[k] == w.out[k]);
        } else if k < f.out.len() {
            assert(n.out[k] == f.out[k]);
        }
    }
}

proof fn lemma_blocks_tell_results(
    all: Seq<BlockView>,
    w: Walk,
    role: Role,
    blocks: Seq<BlockView>,
)
    requires
        tells_results_of(all, w),
    ensures
        tells_results_of(all, blocks_walked(all, w, role, blocks)),
    decreases blocks.len(),
{
    if blocks.len() > 0 {
        lemma_blocks_tell_results(all, w, role, blocks.drop_last());
        lemma_block_tells_results(
            all,
            blocks_walked(all, w, role, blocks.drop_last()),
            role,
            blocks.last(),
        );
    }
}

proof fn lemma_messages_tell_results(all: Seq<BlockView>, w: Walk, ms: Seq<MessageView>)
    requires
        tells_results_of(all, w),
    ensures
        tells_results_of(all, messages_walked(all, w, ms)),
    decreases ms.len(),
{
    if ms.len() > 0 {
        let m = ms.last();
        let before = messages_walked(all, w, ms.drop_last());
        lemma_messages_tell_results(all, w, ms.drop_last());
        lemma_blocks_tell_results(all, before, m.role, m.content);
        lemma_block_tells_results(
            all,
            blocks_walked(all, before, m.role, m.content),
            m.role,
            BlockView::RedactedThinking { data: Seq::empty() },
        );
    }
}

/// A result that is shown is one of the transcript as it stands there, failed or not: the last
/// one for its call.
pub proof fn law_shown_result_is_the_last_of_its_call(
    ms: Seq<MessageView>,
    tool_use_id: Seq<char>,
    content: Seq<char>,
    is_error: bool,
) -> (j: int)
    requires
        shown(ms).contains(Shown::ToolResult { tool_use_id, content, is_error }),
    ensures
        0 <= j < all_blocks(ms).len(),
        all_blocks(ms)[j] == (BlockView::ToolResult { tool_use_id, content, is_error }),
        forall|i: int|
            j < i < all_blocks(ms).len() ==> !((#[trigger] all_blocks(ms)[i]) matches
                BlockView::ToolResult { tool_use_id: other, .. } && other == tool_use_id),
{
    let all = all_blocks(ms);
    lemma_messages_tell_results(all, walk_start(all), ms);
    let s = Shown::ToolResult { tool_use_id, content, is_error };
    let k = choose|k: int| 0 <= k < shown(ms).len() && shown(ms)[k] == s;
    assert(shown(ms)[k] == s);
    let j = lemma_results_are_last(all, tool_use_id);
    assert forall|i: int| j < i < all.len() implies !((#[trigger] all[i]) matches
        BlockView::ToolResult { tool_use_id: other, .. } && other == tool_use_id) by {
        assert(!is_result_of(all[i], tool_use_id));
    }
    j
}

// ── What is shown of each kind ──

/// The tool calls among `blocks`, in order.
pub open spec fn calls_among(blocks: Seq<BlockView>) -> Seq<
    (Seq<char>, Seq<char>, serde_json::Value),
>
    decreases blocks.len(),
{
    if blocks.len() == 0 {
        Seq::empty()
    } else {
        let before = calls_among(blocks.drop_last());
        match blocks.last() {
            BlockView::ToolUse { id, name, input } => before.push((id, name, input)),
            BlockView::ServerToolUse { id, name, input } => before.push((id, name, input)),
            _ => before,
        }
    }
}

/// The tool calls that are shown, in order.
pub open spec fn calls_shown(out: Seq<Shown>) -> Seq<(Seq<char>, Seq<char>, serde_json::Value)>
    decreases out.len(),
{
    if out.len() == 0 {
        Seq::empty()
    } else {
        let before = calls_shown(out.drop_last());
        match out.last() {
            Shown::ToolCall { id, name, input } => before.push((id, name, input)),
            _ => before,
        }
    }
}

/// The thinking among `blocks` that is not blank, in order.
pub open spec fn thoughts_among(blocks: Seq<BlockView>) -> Seq<Seq<char>>
    decreases blocks.len(),
{
    if blocks.len() == 0 {
        Seq::empty()
    } else {
        let before = thoughts_among(blocks.drop_last());
        match blocks.last() {
            BlockView::Thinking { thinking, .. } if !is_blank(thinking) => before.push(thinking),
            _ => before,
        }
    }
}

/// The thinking that is shown, in order.
pub open spec fn thoughts_shown(out: Seq<Shown>) -> Seq<Seq<char>>
    decreases out.len(),
{
    if out.len() == 0 {
        Seq::empty()
    } else {
        let before = thoughts_shown(out.drop_last());
        match out.last() {
            Shown::AssistantThinking(t) => before.push(t),
            _ => before,
        }
    }
}

/// The results among `blocks` that no call of `all` asked for, in order.
pub open spec fn orphans_among(all: Seq<BlockView>, blocks: Seq<BlockView>) -> Seq<
    (Seq<char>, bool),
>
    decreases blocks.len(),
{
    if blocks.len() == 0 {
        Seq::empty()
    } else {
        let before = orphans_among(all, blocks.drop_last());
        match blocks.last() {
            BlockView::ToolResult { tool_use_id, content, is_error } => if exists|k: int|
                0 <= k < all.len() && is_call_of(#[trigger] all[k], tool_use_id) {
                before
            } else {
                before.push((content, is_error))
            },
            _ => before,
        }
    }
}

/// The orphans that are shown, in order.
pub open spec fn orphans_shown(out: Seq<Shown>) -> Seq<(Seq<char>, bool)>
    decreases out.len(),
{
    if out.len() == 0 {
        Seq::empty()
    } else {
        let before = orphans_shown(out.drop_last());
        match out.last() {
            Shown::OrphanToolResult { content, is_error } => before.push((content, is_error)),
            _ => before,
        }
    }
}

/// What one more thing shown adds to each kind.
proof fn lemma_push_shown(out: Seq<Shown>, s: Shown)
    ensures
        calls_shown(out.push(s)) == match s {
            Shown::ToolCall { id, name, input } => calls_shown(out).push((id, name, input)),
            _ => calls_shown(out),
        },
        thoughts_shown(out.push(s)) == match s {
            Shown::AssistantThinking(t) => thoughts_shown(out).push(t),
            _ => thoughts_shown(out),
        },
        orphans_shown(out.push(s)) == match s {
            Shown::OrphanToolResult { content, is_error } => orphans_shown(out).push(
                (content, is_error),
            ),
            _ => orphans_shown(out),
        },
{
    assert(out.push(s).drop_last() =~= out);
}

/// Whether the walk through `blocks` showed of each kind what stands there.
spec fn kinds_agree(all: Seq<BlockView>, w: Walk, blocks: Seq<BlockView>) -> bool {
    &&& calls_shown(w.out) == calls_among(blocks)
    &&& thoughts_shown(w.out) == thoughts_among(blocks)
    &&& orphans_shown(w.out) == orphans_among(all, blocks)
}

proof fn lemma_flush_keeps_kinds(all: Seq<BlockView>, w: Walk, role: Role, blocks: Seq<BlockView>)
    requires
        kinds_agree(all, w, blocks),
    ensures
        kinds_agree(all, flushed(w, role), blocks),
{
    if w.text.len() > 0 {
        lemma_push_shown(w.out, flushed(w, role).out.last());
        assert(flushed(w, role).out == w.out.push(flushed(w, role).out.last()));
    }
}

proof fn lemma_block_kinds(
    all: Seq<BlockView>,
    w: Walk,
    role: Role,
    blocks: Seq<BlockView>,
    b: BlockView,
)
    requires
        kinds_agree(all, w, blocks),
    ensures
        kinds_agree(all, block_step(all, w, role, b), blocks.push(b)),
{
    let f = flushed(w, role);
    lemma_flush_keeps_kinds(all, w, role, blocks);
    assert(blocks.push(b).drop_last() =~= blocks);
    match b {
        BlockView::ToolUse { id, name, input } => {
            let c = Shown::ToolCall { id, name, input };
            lemma_push_shown(f.out, c);
            lemma_push_shown(f.out.push(c), result_shown(f.pending, id));
        },
        BlockView::ServerToolUse { id, name, input } => {
            let c = Shown::ToolCall { id, name, input };
            lemma_push_shown(f.out, c);
            lemma_push_shown(f.out.push(c), result_shown(f.pending, id));
        },
        BlockView::ToolResult { tool_use_id, content, is_error } => {
            lemma_push_shown(f.out, Shown::OrphanToolResult { content, is_error });
        },
        BlockView::Thinking { thinking, .. } => {
            lemma_push_shown(f.out, Shown::AssistantThinking(thinking));
        },
        _ => {},
    }
}

proof fn lemma_blocks_kinds(
    all: Seq<BlockView>,
    w: Walk,
    role: Role,
    head: Seq<BlockView>,
    blocks: Seq<BlockView>,
)
    requires
        kinds_agree(all, w, head),
    ensures
        kinds_agree(all, blocks_walked(all, w, role, blocks), head + blocks),
    decreases blocks.len(),
{
    if blocks.len() > 0 {
        let t = blocks.drop_last();
        lemma_blocks_kinds(all, w, role, head, t);
        lemma_block_kinds(all, blocks_walked(all, w, role, t), role, head + t, blocks.last());
        assert((head + t).push(blocks.last()) =~= head + blocks);
    } else {
        assert(head + blocks =~= head);
    }
}

proof fn lemma_messages_kinds(all: Seq<BlockView>, w: Walk, ms: Seq<MessageView>)
    requires
        w.out.len() == 0,
    ensures
        kinds_agree(all, messages_walked(all, w, ms), all_blocks(ms)),
    decreases ms.len(),
{
    if ms.len() > 0 {
        let t = ms.drop_last();
        let m = ms.last();
        let before = messages_walked(all, w, t);
        lemma_messages_kinds(all, w, t);
        lemma_blocks_kinds(all, before, m.role, all_blocks(t), m.content);
        lemma_flush_keeps_kinds(
            all,
            blocks_walked(all, before, m.role, m.content),
            m.role,
            all_blocks(ms),
        );
    }
}

/// Every tool call is shown once, as it is and in its order, and so is all thinking that is not
/// blank, and every result that no call asked for.
pub proof fn law_each_kind_is_shown_in_order(ms: Seq<MessageView>)
    ensures
        calls_shown(shown(ms)) == calls_among(all_blocks(ms)),
        thoughts_shown(shown(ms)) == thoughts_among(all_blocks(ms)),
        orphans_shown(shown(ms)) == orphans_among(all_blocks(ms), all_blocks(ms)),
{
    lemma_messages_kinds(all_blocks(ms), walk_start(all_blocks(ms)), ms);
}

// ── What is shown last ──

/// Whether the same of the results among `blocks` have a call in `a` and in `b`.
spec fn same_calls(a: Seq<BlockView>, b: Seq<BlockView>, blocks: Seq<BlockView>) -> bool {
    forall|k: int|
        0 <= k < blocks.len() ==> (#[trigger] blocks[k] matches BlockView::ToolResult {
            tool_use_id,
            ..
        } ==> called(a, tool_use_id) == called(b, tool_use_id))
}

proof fn lemma_blocks_walk_same(
    a: Seq<BlockView>,
    b: Seq<BlockView>,
    w: Walk,
    role: Role,
    blocks: Seq<BlockView>,
)
    requires
        same_calls(a, b, blocks),
    ensures
        blocks_walked(a, w, role, blocks) == blocks_walked(b, w, role, blocks),
    decreases blocks.len(),
{
    if blocks.len() > 0 {
        let t = blocks.drop_last();
        assert forall|k: int| 0 <= k < t.len() implies (#[trigger] t[k] matches BlockView::ToolResult {
            tool_use_id,
            ..
        } ==> called(a, tool_use_id) == called(b, tool_use_id)) by {
            assert(t[k] == blocks[k]);
        }
        lemma_blocks_walk_same(a, b, w, role, t);
        assert(blocks.last() == blocks[blocks.len() - 1]);
    }
}

proof fn lemma_messages_walk_same(
    a: Seq<BlockView>,
    b: Seq<BlockView>,
    w: Walk,
    ms: Seq<MessageView>,
)
    requires
        same_calls(a, b, all_blocks(ms)),
    ensures
        messages_walked(a, w, ms) == messages_walked(b, w, ms),
    decreases ms.len(),
{
    if ms.len() > 0 {
        let t = ms.drop_last();
        let m = ms.last();
        let head = all_blocks(t);
        let all = all_blocks(ms);
        assert forall|k: int| 0 <= k < head.len() implies (#[trigger] head[k] matches
            BlockView::ToolResult { tool_use_id, .. } ==> called(a, tool_use_id) == called(
            b,
            tool_use_id,
        )) by {
            assert(head[k] == all[k]);
        }
        assert forall|k: int| 0 <= k < m.content.len() implies (#[trigger] m.content[k] matches
            BlockView::ToolResult { tool_use_id, .. } ==> called(a, tool_use_id) == called(
            b,
            tool_use_id,
        )) by {
            assert(m.content[k] == all[head.len() + k]);
        }
        lemma_messages_walk_same(a, b, w, t);
        lemma_blocks_walk_same(a, b, messages_walked(a, w, t), m.role, m.content);
    }
}

proof fn lemma_no_text_between(all: Seq<BlockView>, w: Walk, ms: Seq<MessageView>)
    requires
        w.text.len() == 0,
    ensures
        messages_walked(all, w, ms).text.len() == 0,
    decreases ms.len(),
{
    if ms.len() > 0 {
        lemma_no_text_between(all, w, ms.drop_last());
    }
}

/// `ms` with one more block at the end of its last message.
pub open spec fn with_block(ms: Seq<MessageView>, b: BlockView) -> Seq<MessageView> {
    ms.drop_last().push(
        MessageView { role: ms.last().role, content: ms.last().content.push(b) },
    )
}

/// A text as it is shown of a message of `role`.
pub open spec fn text_shown(role: Role, text: Seq<char>) -> Shown {
    match role {
        Role::User => Shown::UserText(text),
        Role::Assistant => Shown::AssistantText(text),
    }
}

/// The walk before and after one more block that changes nothing for the others.
proof fn lemma_walk_one_more(ms: Seq<MessageView>, b: BlockView) -> (x: Walk)
    requires
        ms.len() > 0,
        !(b is ToolResult),
        forall|id: Seq<char>|
            is_call_of(b, id) ==> !(#[trigger] answered(all_blocks(ms), id)),
    ensures
        shown(ms) == flushed(x, ms.last().role).out,
        shown(with_block(ms, b)) == flushed(
            block_step(all_blocks(with_block(ms, b)), x, ms.last().role, b),
            ms.last().role,
        ).out,
        ms.last().content.len() == 0 ==> x.text.len() == 0,
        ms.last().content.len() > 0 ==> match ms.last().content.last() {
            BlockView::Text { text } => !is_blank(text) ==> x.text.len() > 0,
            BlockView::ToolUse { .. } => x.text.len() == 0,
            BlockView::ServerToolUse { .. } => x.text.len() == 0,
            BlockView::Thinking { thinking, .. } => !is_blank(thinking) ==> x.text.len() == 0,
            _ => true,
        },
        forall|id: Seq<char>| is_call_of(b, id) ==> !(#[trigger] x.pending.contains_key(id)),
        exists|w: Walk|
            w.text.len() == 0 && x == #[trigger] blocks_walked(
                all_blocks(ms),
                w,
                ms.last().role,
                ms.last().content,
            ),
{
    let t = ms.drop_last();
    let m = ms.last();
    let next = with_block(ms, b);
    let all = all_blocks(ms);
    let more = all_blocks(next);
    let n = MessageView { role: m.role, content: m.content.push(b) };
    assert(next.drop_last() =~= t);
    assert(more =~= all.push(b));
    assert(all.push(b).drop_last() =~= all);
    assert(results_of(more) == results_of(all));
    assert(same_calls(all, more, all)) by {
        assert forall|k: int| 0 <= k < all.len() implies (#[trigger] all[k] matches
            BlockView::ToolResult { tool_use_id, .. } ==> called(all, tool_use_id) == called(
            more,
            tool_use_id,
        )) by {
            if let BlockView::ToolResult { tool_use_id, .. } = all[k] {
                assert(is_result_of(all[k], tool_use_id));
                assert(answered(all, tool_use_id));
                if called(all, tool_use_id) {
                    let i = choose|i: int|
                        0 <= i < all.len() && is_call_of(#[trigger] all[i], tool_use_id);
                    assert(is_call_of(more[i], tool_use_id));
                }
                if called(more, tool_use_id) {
                    let i = choose|i: int|
                        0 <= i < more.len() && is_call_of(#[trigger] more[i], tool_use_id);
                    assert(i < all.len());
                    assert(is_call_of(all[i], tool_use_id));
                }
            }
        }
    }
    let start = walk_start(all);
    let head = all_blocks(t);
    assert forall|k: int| 0 <= k < head.len() implies (#[trigger] head[k] matches
        BlockView::ToolResult { tool_use_id, .. } ==> called(all, tool_use_id) == called(
        more,
        tool_use_id,
    )) by {
        assert(head[k] == all[k]);
    }
    assert forall|k: int| 0 <= k < m.content.len() implies (#[trigger] m.content[k] matches
        BlockView::ToolResult { tool_use_id, .. } ==> called(all, tool_use_id) == called(
        more,
        tool_use_id,
    )) by {
        assert(m.content[k] == all[head.len() + k]);
    }
    lemma_messages_walk_same(all, more, start, t);
    let before = messages_walked(all, start, t);
    lemma_blocks_walk_same(all, more, before, m.role, m.content);
    lemma_no_text_between(all, start, t);
    let x = blocks_walked(all, before, m.role, m.content);
    assert(n.content.drop_last() =~= m.content);
    lemma_messages_walk_on(all, start, t);
    lemma_blocks_walk_on(all, before, m.role, m.content);
    assert forall|id: Seq<char>| is_call_of(b, id) implies !(#[trigger] x.pending.contains_key(id)) by {
        if x.pending.contains_key(id) {
            assert(before.pending.contains_key(id));
            assert(start.pending.contains_key(id));
            let j = lemma_results_are_last(all, id);
            assert(is_result_of(all[j], id));
            assert(answered(all, id));
        }
    }
    x
}

/// What stands last in a transcript is shown last, behind all that was shown without it: thinking
/// and a call that nothing answers as they are, text as an entry of its own, or on a new line of
/// the text right before it in the same message.
pub proof fn law_what_comes_last_is_shown_last(ms: Seq<MessageView>, b: BlockView)
    requires
        ms.len() > 0,
    ensures
        match b {
            BlockView::Thinking { thinking, .. } => shown(with_block(ms, b)) == if is_blank(
                thinking,
            ) {
                shown(ms)
            } else {
                shown(ms).push(Shown::AssistantThinking(thinking))
            },
            BlockView::RedactedThinking { .. } => shown(with_block(ms, b)) == shown(ms),
            BlockView::ToolUse { id, name, input } => !answered(all_blocks(ms), id) ==> shown(
                with_block(ms, b),
            ) == shown(ms).push(Shown::ToolCall { id, name, input }),
            BlockView::ServerToolUse { id, name, input } => !answered(all_blocks(ms), id)
                ==> shown(with_block(ms, b)) == shown(ms).push(Shown::ToolCall { id, name, input }),
            BlockView::Text { text } => {
                let m = ms.last();
                if is_blank(text) {
                    shown(with_block(ms, b)) == shown(ms)
                } else if m.content.len() == 0 {
                    shown(with_block(ms, b)) == shown(ms).push(text_shown(m.role, text))
                } else {
                    match m.content.last() {
                        BlockView::Text { text: before } => !is_blank(before) ==> ({
                            let was = shown(ms);
                            &&& was.len() > 0
                            &&& exists|earlier: Seq<char>|
                                was.last() == #[trigger] text_shown(m.role, earlier) && shown(
                                    with_block(ms, b),
                                ) == was.drop_last().push(
                                    text_shown(m.role, earlier + "\n"@ + text),
                                )
                        }),
                        BlockView::ToolUse { .. } => shown(with_block(ms, b)) == shown(ms).push(
                            text_shown(m.role, text),
                        ),
                        BlockView::ServerToolUse { .. } => shown(with_block(ms, b)) == shown(
                            ms,
                        ).push(text_shown(m.role, text)),
                        BlockView::Thinking { thinking, .. } => !is_blank(thinking) ==> shown(
                            with_block(ms, b),
                        ) == shown(ms).push(text_shown(m.role, text)),
                        _ => true,
                    }
                }
            },
            BlockView::ToolResult { .. } => true,
        },
{
    reveal_strlit("\n");
    let role = ms.last().role;
    if !(b is ToolResult) && (forall|id: Seq<char>|
        is_call_of(b, id) ==> !(#[trigger] answered(all_blocks(ms), id))) {
        let x = lemma_walk_one_more(ms, b);
        let f = flushed(x, role);
        match b {
            BlockView::Text { text } => {
                lemma_blank(text);
                if !is_blank(text) && x.text.len() > 0 {
                    let was = shown(ms);
                    assert(was.last() == text_shown(role, x.text));
                    assert(was.drop_last() =~= x.out);
                    assert(x.text.push('\n') + text =~= x.text + "\n"@ + text);
                    assert(shown(with_block(ms, b)) == was.drop_last().push(
                        text_shown(role, x.text + "\n"@ + text),
                    ));
                }
            },
            BlockView::ToolUse { id, name, input } => {
                assert(is_call_of(b, id));
            },
            BlockView::ServerToolUse { id, name, input } => {
                assert(is_call_of(b, id));
            },
            _ => {},
        }
    } else {
        match b {
            BlockView::ToolUse { id, .. } => {
                assert(forall|i: Seq<char>| is_call_of(b, i) ==> i == id);
            },
            BlockView::ServerToolUse { id, .. } => {
                assert(forall|i: Seq<char>| is_call_of(b, i) ==> i == id);
            },
            _ => {},
        }
    }
}

/// A message with nothing in it shows nothing.
pub proof fn law_empty_messages_show_nothing(ms: Seq<MessageView>, role: Role)
    ensures
        shown(ms.push(MessageView { role, content: Seq::empty() })) == shown(ms),
        shown(Seq::<MessageView>::empty()) == Seq::<Shown>::empty(),
{
    let m = MessageView { role, content: Seq::empty() };
    assert(ms.push(m).drop_last() =~= ms);
    assert(all_blocks(ms.push(m)) =~= all_blocks(ms));
    lemma_no_text_between(all_blocks(ms), walk_start(all_blocks(ms)), ms);
}

/// Whether a block shows nothing of its own: blank text or thinking, thinking that is kept secret,
/// and a result that is shown with its call.
pub open spec fn is_silent(all: Seq<BlockView>, b: BlockView) -> bool {
    match b {
        BlockView::Text { text } => is_blank(text),
        BlockView::Thinking { thinking, .. } => is_blank(thinking),
        BlockView::RedactedThinking { .. } => true,
        BlockView::ToolResult { tool_use_id, .. } => called(all, tool_use_id),
        _ => false,
    }
}

proof fn lemma_text_left(all: Seq<BlockView>, w: Walk, role: Role, blocks: Seq<BlockView>, k: int)
    requires
        w.text.len() == 0,
        -1 <= k < blocks.len(),
        k >= 0 ==> !is_silent(all, blocks[k]),
        forall|i: int| k < i < blocks.len() ==> is_silent(all, #[trigger] blocks[i]),
    ensures
        blocks_walked(all, w, role, blocks).text.len() > 0 <==> k >= 0 && blocks[k] is Text,
    decreases blocks.len(),
{
    if blocks.len() > 0 {
        let t = blocks.drop_last();
        let n = blocks.len() - 1;
        assert(blocks[n] == blocks.last());
        if k < n {
            assert(is_silent(all, blocks[n]));
            assert(forall|i: int| 0 <= i < t.len() ==> #[trigger] t[i] == blocks[i]);
            lemma_text_left(all, w, role, t, k);
        } else {
            match blocks[k] {
                BlockView::Text { text } => {
                    lemma_blank(text);
                },
                _ => {},
            }
        }
    }
}

/// Text at the end of a message goes on, on a new line, from the text before it in the same message
/// where nothing that is shown stands between them; otherwise it is an entry of its own.
pub proof fn law_text_goes_on_over_what_shows_nothing(
    ms: Seq<MessageView>,
    text: Seq<char>,
    k: int,
)
    requires
        ms.len() > 0,
        !is_blank(text),
        -1 <= k < ms.last().content.len(),
        k >= 0 ==> !is_silent(all_blocks(ms), ms.last().content[k]),
        forall|i: int|
            k < i < ms.last().content.len() ==> is_silent(
                all_blocks(ms),
                #[trigger] ms.last().content[i],
            ),
    ensures
        ({
            let was = shown(ms);
            let now = shown(with_block(ms, BlockView::Text { text }));
            let role = ms.last().role;
            &&& k < 0 || !(ms.last().content[k] is Text) ==> now == was.push(text_shown(role, text))
            &&& k >= 0 && ms.last().content[k] is Text ==> was.len() > 0 && exists|
                earlier: Seq<char>,
            |
                was.last() == #[trigger] text_shown(role, earlier) && now == was.drop_last().push(
                    text_shown(role, earlier + "\n"@ + text),
                )
        }),
{
    reveal_strlit("\n");
    let b = BlockView::Text { text };
    let role = ms.last().role;
    lemma_blank(text);
    let x = lemma_walk_one_more(ms, b);
    let w = choose|w: Walk|
        w.text.len() == 0 && x == #[trigger] blocks_walked(
            all_blocks(ms),
            w,
            ms.last().role,
            ms.last().content,
        );
    lemma_text_left(all_blocks(ms), w, role, ms.last().content, k);
    if x.text.len() > 0 {
        let was = shown(ms);
        assert(was.last() == text_shown(role, x.text));
        assert(was.drop_last() =~= x.out);
        assert(x.text.push('\n') + text =~= x.text + "\n"@ + text);
        assert(shown(with_block(ms, b)) == was.drop_last().push(
            text_shown(role, x.text + "\n"@ + text),
        ));
    }
}

// ── All text is shown ──

/// The texts among `blocks` that are not blank, in order.
pub open spec fn texts_among(blocks: Seq<BlockView>) -> Seq<Seq<char>>
    decreases blocks.len(),
{
    if blocks.len() == 0 {
        Seq::empty()
    } else {
        let before = texts_among(blocks.drop_last());
        match blocks.last() {
            BlockView::Text { text } if !is_blank(text) => before.push(text),
            _ => before,
        }
    }
}

/// The texts that are not blank of the messages of `role`, in order.
pub open spec fn texts_said(ms: Seq<MessageView>, role: Role) -> Seq<Seq<char>>
    decreases ms.len(),
{
    if ms.len() == 0 {
        Seq::empty()
    } else {
        let before = texts_said(ms.drop_last(), role);
        if ms.last().role == role {
            before + texts_among(ms.last().content)
        } else {
            before
        }
    }
}

/// The texts that are shown of `role`, in order.
pub open spec fn texts_shown(out: Seq<Shown>, role: Role) -> Seq<Seq<char>>
    decreases out.len(),
{
    if out.len() == 0 {
        Seq::empty()
    } else {
        let before = texts_shown(out.drop_last(), role);
        match out.last() {
            Shown::UserText(t) => if role == Role::User {
                before.push(t)
            } else {
                before
            },
            Shown::AssistantText(t) => if role == Role::Assistant {
                before.push(t)
            } else {
                before
            },
            _ => before,
        }
    }
}

proof fn lemma_push_text(out: Seq<Shown>, s: Shown, role: Role)
    ensures
        texts_shown(out.push(s), role) == match s {
            Shown::UserText(t) => if role == Role::User {
                texts_shown(out, role).push(t)
            } else {
                texts_shown(out, role)
            },
            Shown::AssistantText(t) => if role == Role::Assistant {
                texts_shown(out, role).push(t)
            } else {
                texts_shown(out, role)
            },
            _ => texts_shown(out, role),
        },
{
    assert(out.push(s).drop_last() =~= out);
}

/// The texts of `role` that the walk through a message of `at` has come to.
spec fn texts_met(w: Walk, at: Role, role: Role) -> Seq<Seq<char>> {
    if at == role && w.text.len() > 0 {
        texts_shown(w.out, role).push(w.text)
    } else {
        texts_shown(w.out, role)
    }
}

/// Whether the walk has come to these texts.
spec fn has_met(w: Walk, at: Role, role: Role, texts: Seq<Seq<char>>) -> bool {
    &&& join(texts_met(w, at, role), "\n"@) == join(texts, "\n"@)
    &&& texts_met(w, at, role).len() == 0 <==> texts.len() == 0
}

proof fn lemma_flush_meets_the_same(w: Walk, at: Role, other: Role, role: Role)
    ensures
        texts_met(flushed(w, at), other, role) == texts_met(w, at, role),
        texts_shown(flushed(w, at).out, role) == texts_met(w, at, role),
{
    if w.text.len() > 0 {
        lemma_push_text(w.out, text_shown(at, w.text), role);
    }
}

proof fn lemma_join_push(a: Seq<Seq<char>>, t: Seq<char>)
    ensures
        join(a.push(t), "\n"@) == if a.len() == 0 {
            t
        } else {
            join(a, "\n"@) + "\n"@ + t
        },
{
    assert(a.push(t).drop_last() =~= a);
}

proof fn lemma_block_meets(
    all: Seq<BlockView>,
    w: Walk,
    at: Role,
    role: Role,
    texts: Seq<Seq<char>>,
    b: BlockView,
)
    requires
        has_met(w, at, role, texts),
    ensures
        has_met(
            block_step(all, w, at, b),
            at,
            role,
            if at == role {
                texts + texts_among(seq![b])
            } else {
                texts
            },
        ),
{
    reveal_strlit("\n");
    let f = flushed(w, at);
    let n = block_step(all, w, at, b);
    lemma_flush_meets_the_same(w, at, at, role);
    assert(seq![b].drop_last() =~= Seq::empty());
    assert(texts_among(seq![b].drop_last()) =~= Seq::empty());
    assert(seq![b].last() == b);
    if b matches BlockView::Text { text } && !is_blank(text) {
        let text = b->Text_text;
        lemma_blank(text);
        if at == role {
            let shown_before = texts_shown(w.out, role);
            assert(texts + texts_among(seq![b]) =~= texts.push(text));
            lemma_join_push(texts, text);
            if w.text.len() == 0 {
                lemma_join_push(shown_before, text);
            } else {
                let longer = w.text.push('\n') + text;
                lemma_join_push(shown_before, w.text);
                lemma_join_push(shown_before, longer);
                assert(longer =~= w.text + "\n"@ + text);
                if shown_before.len() > 0 {
                    let so_far = join(shown_before, "\n"@) + "\n"@;
                    assert(so_far + longer =~= so_far + w.text + "\n"@ + text);
                }
            }
        }
    } else {
        assert(texts + texts_among(seq![b]) =~= texts);
        match b {
            BlockView::ToolUse { id, name, input } => {
                let c = Shown::ToolCall { id, name, input };
                lemma_push_text(f.out, c, role);
                lemma_push_text(f.out.push(c), result_shown(f.pending, id), role);
            },
            BlockView::ServerToolUse { id, name, input } => {
                let c = Shown::ToolCall { id, name, input };
                lemma_push_text(f.out, c, role);
                lemma_push_text(f.out.push(c), result_shown(f.pending, id), role);
            },
            BlockView::ToolResult { content, is_error, .. } => {
                lemma_push_text(f.out, Shown::OrphanToolResult { content, is_error }, role);
            },
            BlockView::Thinking { thinking, .. } => {
                lemma_push_text(f.out, Shown::AssistantThinking(thinking), role);
            },
            _ => {},
        }
    }
}

proof fn lemma_blocks_meet(
    all: Seq<BlockView>,
    w: Walk,
    at: Role,
    role: Role,
    texts: Seq<Seq<char>>,
    blocks: Seq<BlockView>,
)
    requires
        has_met(w, at, role, texts),
    ensures
        has_met(
            blocks_walked(all, w, at, blocks),
            at,
            role,
            if at == role {
                texts + texts_among(blocks)
            } else {
                texts
            },
        ),
    decreases blocks.len(),
{
    if blocks.len() == 0 {
        assert(texts + texts_among(blocks) =~= texts);
    } else {
        let t = blocks.drop_last();
        let b = blocks.last();
        let before = if at == role {
            texts + texts_among(t)
        } else {
            texts
        };
        lemma_blocks_meet(all, w, at, role, texts, t);
        lemma_block_meets(all, blocks_walked(all, w, at, t), at, role, before, b);
        assert(seq![b].drop_last() =~= Seq::empty());
        assert(texts_among(seq![b].drop_last()) =~= Seq::empty());
        assert(seq![b].last() == b);
        assert(before + texts_among(seq![b]) =~= if at == role {
            texts + texts_among(blocks)
        } else {
            before + texts_among(seq![b])
        });
    }
}

proof fn lemma_messages_meet(all: Seq<BlockView>, w: Walk, role: Role, ms: Seq<MessageView>)
    requires
        w.out.len() == 0,
        w.text.len() == 0,
    ensures
        messages_walked(all, w, ms).text.len() == 0,
        forall|at: Role| #[trigger] has_met(
            messages_walked(all, w, ms),
            at,
            role,
            texts_said(ms, role),
        ),
    decreases ms.len(),
{
    lemma_no_text_between(all, w, ms);
    if ms.len() > 0 {
        let t = ms.drop_last();
        let m = ms.last();
        lemma_messages_meet(all, w, role, t);
        let before = messages_walked(all, w, t);
        assert(has_met(before, m.role, role, texts_said(t, role)));
        lemma_blocks_meet(all, before, m.role, role, texts_said(t, role), m.content);
        let after = blocks_walked(all, before, m.role, m.content);
        assert forall|at: Role| #[trigger] has_met(
            messages_walked(all, w, ms),
            at,
            role,
            texts_said(ms, role),
        ) by {
            lemma_flush_meets_the_same(after, m.role, at, role);
        }
    }
}

/// All that either side said is shown, in its order and as it is: the texts that are shown of it,
/// one per line, are the texts of its messages that are not blank, one per line.
pub proof fn law_all_text_is_shown(ms: Seq<MessageView>, role: Role)
    ensures
        join(texts_shown(shown(ms), role), "\n"@) == join(texts_said(ms, role), "\n"@),
{
    let all = all_blocks(ms);
    lemma_messages_meet(all, walk_start(all), role, ms);
    assert(has_met(messages_walked(all, walk_start(all), ms), role, role, texts_said(ms, role)));
}

// ── A result is shown once ──

/// Whether each result is shown once, with the first call of its identifier.
pub open spec fn results_come_first(out: Seq<Shown>) -> bool {
    &&& forall|i: int, j: int|
        0 <= i < j < out.len() && (#[trigger] out[i]) is ToolResult && (
        #[trigger] out[j]) is ToolResult ==> out[i]->ToolResult_tool_use_id
            != out[j]->ToolResult_tool_use_id
    &&& forall|i: int, j: int|
        0 <= i && i + 1 < j < out.len() && (#[trigger] out[j]) is ToolResult ==> !is_call(
            #[trigger] out[i],
            out[j]->ToolResult_tool_use_id,
        )
}

/// Whether what is still pending was neither called nor shown.
spec fn waits(w: Walk) -> bool {
    &&& results_come_first(w.out)
    &&& forall|k: int, id: Seq<char>|
        0 <= k < w.out.len() && #[trigger] w.pending.contains_key(id) ==> !is_call(
            #[trigger] w.out[k],
            id,
        ) && !(w.out[k] matches Shown::ToolResult { tool_use_id, .. } && tool_use_id == id)
}

proof fn lemma_plain_push_waits(w: Walk, n: Walk, s: Shown)
    requires
        waits(w),
        n.out == w.out.push(s),
        n.pending == w.pending,
        !(s is ToolCall),
        !(s is ToolResult),
    ensures
        waits(n),
{
    assert(forall|k: int| 0 <= k < w.out.len() ==> #[trigger] n.out[k] == w.out[k]);
    assert(n.out[w.out.len() as int] == s);
}

proof fn lemma_call_waits(
    w: Walk,
    id: Seq<char>,
    name: Seq<char>,
    input: serde_json::Value,
)
    requires
        waits(w),
    ensures
        waits(with_call(w, id, name, input)),
{
    let n = with_call(w, id, name, input);
    let len = w.out.len() as int;
    assert(forall|k: int| 0 <= k < len ==> #[trigger] n.out[k] == w.out[k]);
    assert(is_call(n.out[len], id));
    assert(forall|k: int, other: Seq<char>|
        0 <= k < w.out.len() && #[trigger] n.pending.contains_key(other)
            ==> w.pending.contains_key(other) && !is_call(#[trigger] n.out[k], other));
}

proof fn lemma_blocks_wait(all: Seq<BlockView>, w: Walk, role: Role, blocks: Seq<BlockView>)
    requires
        waits(w),
    ensures
        waits(blocks_walked(all, w, role, blocks)),
    decreases blocks.len(),
{
    if blocks.len() > 0 {
        let t = blocks.drop_last();
        let b = blocks.last();
        lemma_blocks_wait(all, w, role, t);
        let x = blocks_walked(all, w, role, t);
        let f = flushed(x, role);
        lemma_flush_waits(x, role);
        match b {
            BlockView::ToolUse { id, name, input } => {
                lemma_call_waits(f, id, name, input);
            },
            BlockView::ServerToolUse { id, name, input } => {
                lemma_call_waits(f, id, name, input);
            },
            BlockView::ToolResult { tool_use_id, content, is_error } => {
                if !called(all, tool_use_id) {
                    lemma_plain_push_waits(
                        f,
                        block_step(all, x, role, b),
                        Shown::OrphanToolResult { content, is_error },
                    );
                }
            },
            BlockView::Thinking { thinking, .. } => {
                if !is_blank(thinking) {
                    lemma_plain_push_waits(
                        f,
                        block_step(all, x, role, b),
                        Shown::AssistantThinking(thinking),
                    );
                }
            },
            _ => {},
        }
    }
}

proof fn lemma_flush_waits(w: Walk, role: Role)
    requires
        waits(w),
    ensures
        waits(flushed(w, role)),
{
    if w.text.len() > 0 {
        lemma_plain_push_waits(w, flushed(w, role), text_shown(role, w.text));
    }
}

proof fn lemma_messages_wait(all: Seq<BlockView>, w: Walk, ms: Seq<MessageView>)
    requires
        waits(w),
    ensures
        waits(messages_walked(all, w, ms)),
    decreases ms.len(),
{
    if ms.len() > 0 {
        let t = ms.drop_last();
        let m = ms.last();
        lemma_messages_wait(all, w, t);
        let before = messages_walked(all, w, t);
        lemma_blocks_wait(all, before, m.role, m.content);
        lemma_flush_waits(blocks_walked(all, before, m.role, m.content), m.role);
    }
}

/// A result is shown once: right behind the first call of its identifier, and behind no later one.
pub proof fn law_results_are_shown_once(ms: Seq<MessageView>)
    ensures
        results_come_first(shown(ms)),
{
    lemma_messages_wait(all_blocks(ms), walk_start(all_blocks(ms)), ms);
}

} // verus!
