//! Repair of a transcript that is about to be resumed.
//!
//! Tool calls without a result and results without a call are dropped, neighbours of one
//! role become one message, and the head and the tail are patched so that a conversation
//! can go on from there.

use vstd::prelude::*;

use crate::message::{
    block_views, is_thinking, message_views, strip_trailing_thinking, text_message,
    trailing_thinking_stripped, without_trailing_thinking, BlockView, ContentBlock, Message,
    MessageView, Role,
};
use crate::text::{str_eq, views};

verus! {

/// Stands in for the assistant where a transcript ends in tool results alone.
pub const RESUME_CONTINUATION_SENTINEL: &'static str =
    "[Previous turn was interrupted; continuing.]";

/// Stands in for the user where a transcript would begin with the assistant.
pub const RESUME_HEAD_SENTINEL: &'static str = "[Previous session prefix lost in recovery.]";

// ── What the passes speak of ──

/// All blocks of a transcript, message after message.
pub open spec fn all_blocks(ms: Seq<MessageView>) -> Seq<BlockView>
    decreases ms.len(),
{
    if ms.len() == 0 {
        Seq::empty()
    } else {
        all_blocks(ms.drop_last()) + ms.last().content
    }
}

/// The blocks of the messages of `role`, in order.
pub open spec fn blocks_of(ms: Seq<MessageView>, role: Role) -> Seq<BlockView>
    decreases ms.len(),
{
    if ms.len() == 0 {
        Seq::empty()
    } else if ms.last().role == role {
        blocks_of(ms.drop_last(), role) + ms.last().content
    } else {
        blocks_of(ms.drop_last(), role)
    }
}

/// Whether `b` is a tool result for the call `id`.
pub open spec fn is_result_of(b: BlockView, id: Seq<char>) -> bool {
    b matches BlockView::ToolResult { tool_use_id, .. } && tool_use_id == id
}

/// Whether `b` is the tool call `id`.
pub open spec fn is_call_of(b: BlockView, id: Seq<char>) -> bool {
    ||| b matches BlockView::ToolUse { id: i, .. } && i == id
    ||| b matches BlockView::ServerToolUse { id: i, .. } && i == id
}

/// Whether some block of `blocks` is a result for the call `id`.
pub open spec fn answered(blocks: Seq<BlockView>, id: Seq<char>) -> bool {
    exists|k: int| 0 <= k < blocks.len() && is_result_of(#[trigger] blocks[k], id)
}

/// Whether some block of `blocks` is the call `id`.
pub open spec fn called(blocks: Seq<BlockView>, id: Seq<char>) -> bool {
    exists|k: int| 0 <= k < blocks.len() && is_call_of(#[trigger] blocks[k], id)
}

/// The blocks that are no tool call, or one that `blocks` answers.
pub open spec fn resolved_in(blocks: Seq<BlockView>) -> spec_fn(BlockView) -> bool {
    |b: BlockView|
        match b {
            BlockView::ToolUse { id, .. } => answered(blocks, id),
            BlockView::ServerToolUse { id, .. } => answered(blocks, id),
            _ => true,
        }
}

/// The blocks that are no tool result, or one whose call stands in `blocks`.
pub open spec fn owed_in(blocks: Seq<BlockView>) -> spec_fn(BlockView) -> bool {
    |b: BlockView|
        match b {
            BlockView::ToolResult { tool_use_id, .. } => called(blocks, tool_use_id),
            _ => true,
        }
}

/// `m`, where a message of `role` keeps only the blocks that `keep` holds of.
pub open spec fn retain_in(m: MessageView, role: Role, keep: spec_fn(BlockView) -> bool) -> MessageView {
    if m.role == role {
        MessageView { role: m.role, content: m.content.filter(keep) }
    } else {
        m
    }
}

/// `ms`, where each message of `role` keeps only the blocks that `keep` holds of.
pub open spec fn retain_all(ms: Seq<MessageView>, role: Role, keep: spec_fn(BlockView) -> bool) -> Seq<
    MessageView,
> {
    ms.map_values(|m: MessageView| retain_in(m, role, keep))
}

/// Messages that hold a block.
pub open spec fn nonempty() -> spec_fn(MessageView) -> bool {
    |m: MessageView| m.content.len() > 0
}

/// `ms` without the assistant's tool calls that no result answers.
pub open spec fn unresolved_dropped(ms: Seq<MessageView>) -> Seq<MessageView> {
    retain_all(ms, Role::Assistant, resolved_in(all_blocks(ms)))
}

/// `ms` without the user's results that no call of the assistant asked for, and without messages
/// that hold nothing then.
pub open spec fn orphans_dropped(ms: Seq<MessageView>) -> Seq<MessageView> {
    retain_all(ms, Role::User, owed_in(blocks_of(ms, Role::Assistant))).filter(nonempty())
}

/// `ms`, where each run of messages of one role is one message.
pub open spec fn collapsed(ms: Seq<MessageView>) -> Seq<MessageView>
    decreases ms.len(),
{
    if ms.len() == 0 {
        ms
    } else {
        absorb_message(collapsed(ms.drop_last()), ms.last())
    }
}

/// `ms` with `m` after it: as part of the last message where that has the same role, else
/// as a message of its own.
pub open spec fn absorb_message(ms: Seq<MessageView>, m: MessageView) -> Seq<MessageView> {
    if ms.len() > 0 && ms.last().role == m.role {
        ms.drop_last().push(
            MessageView { role: m.role, content: ms.last().content + m.content },
        )
    } else {
        ms.push(m)
    }
}

/// Whether all blocks of `m` are tool results.
pub open spec fn only_results(m: MessageView) -> bool {
    forall|k: int| 0 <= k < m.content.len() ==> (#[trigger] m.content[k]) is ToolResult
}

/// `ms` with a user stub before a leading assistant.
pub open spec fn head_patched(ms: Seq<MessageView>) -> Seq<MessageView> {
    if ms.len() > 0 && ms[0].role == Role::Assistant {
        seq![text_message(Role::User, RESUME_HEAD_SENTINEL@)] + ms
    } else {
        ms
    }
}

/// `ms` with an assistant stub after a trailing user message of tool results alone.
pub open spec fn tail_patched(ms: Seq<MessageView>) -> Seq<MessageView> {
    if ms.len() > 0 && ms.last().role == Role::User && only_results(ms.last()) {
        ms.push(text_message(Role::Assistant, RESUME_CONTINUATION_SENTINEL@))
    } else {
        ms
    }
}

/// `ms` with both edges patched.
pub open spec fn sentinels_inserted(ms: Seq<MessageView>) -> Seq<MessageView> {
    tail_patched(head_patched(ms))
}

/// The transcript that a conversation goes on from.
pub open spec fn sanitized(ms: Seq<MessageView>) -> Seq<MessageView> {
    trailing_thinking_stripped(
        sentinels_inserted(
            collapsed(orphans_dropped(unresolved_dropped(trailing_thinking_stripped(ms)))),
        ),
    )
}

// ── Entry point ──

/// Repairs a transcript. Calls go before results, so that a result whose only call was
/// dropped is an orphan in its turn; roles are collapsed when nothing is dropped any more;
/// the edges are patched last.
pub fn sanitize_resumed_messages(messages: &mut Vec<Message>)
    ensures
        message_views(final(messages)@) == sanitized(message_views(old(messages)@)),
{
    strip_trailing_thinking(messages);
    drop_unresolved_tool_uses(messages);
    drop_orphan_tool_results(messages);
    collapse_consecutive_roles(messages);
    insert_resume_sentinels(messages);
    strip_trailing_thinking(messages);
}

// ── Passes ──

/// Whether `ids` holds `id`.
pub(crate) fn lists(ids: &Vec<String>, id: &String) -> (r: bool)
    ensures
        r == views(ids@).contains(id@),
{
    let mut i: usize = 0;
    while i < ids.len()
        invariant
            i <= ids.len(),
            forall|k: int| 0 <= k < i ==> views(ids@)[k] != id@,
        decreases ids.len() - i,
    {
        if str_eq(ids[i].as_str(), id.as_str()) {
            assert(views(ids@)[i as int] == id@);
            return true;
        }
        i = i + 1;
    }
    false
}

/// Growing `blocks` by `b` answers what was answered, and what `b` answers.
proof fn lemma_push_answers(blocks: Seq<BlockView>, b: BlockView)
    ensures
        forall|id: Seq<char>|
            #[trigger] answered(blocks.push(b), id) <==> answered(blocks, id) || is_result_of(b, id),
        forall|id: Seq<char>|
            #[trigger] called(blocks.push(b), id) <==> called(blocks, id) || is_call_of(b, id),
{
    let n = blocks.push(b);
    assert forall|id: Seq<char>| #[trigger] answered(n, id) <==> answered(blocks, id) || is_result_of(
        b,
        id,
    ) by {
        if answered(blocks, id) {
            let k = choose|k: int| 0 <= k < blocks.len() && is_result_of(#[trigger] blocks[k], id);
            assert(is_result_of(n[k], id));
        }
        if is_result_of(b, id) {
            assert(is_result_of(n[blocks.len() as int], id));
        }
        if answered(n, id) {
            let k = choose|k: int| 0 <= k < n.len() && is_result_of(#[trigger] n[k], id);
            if k < blocks.len() {
                assert(is_result_of(blocks[k], id));
            }
        }
    }
    assert forall|id: Seq<char>| #[trigger] called(n, id) <==> called(blocks, id) || is_call_of(
        b,
        id,
    ) by {
        if called(blocks, id) {
            let k = choose|k: int| 0 <= k < blocks.len() && is_call_of(#[trigger] blocks[k], id);
            assert(is_call_of(n[k], id));
        }
        if is_call_of(b, id) {
            assert(is_call_of(n[blocks.len() as int], id));
        }
        if called(n, id) {
            let k = choose|k: int| 0 <= k < n.len() && is_call_of(#[trigger] n[k], id);
            if k < blocks.len() {
                assert(is_call_of(blocks[k], id));
            }
        }
    }
}

/// Pushing onto a list of identifiers adds that one.
proof fn lemma_push_lists(ids: Seq<String>, id: String)
    ensures
        forall|x: Seq<char>|
            #[trigger] views(ids.push(id)).contains(x) <==> views(ids).contains(x) || x == id@,
{
    assert forall|x: Seq<char>| #[trigger]
        views(ids.push(id)).contains(x) <==> views(ids).contains(x) || x == id@ by {
        let a = views(ids);
        let b = views(ids.push(id));
        if a.contains(x) {
            let k = choose|k: int| 0 <= k < a.len() && a[k] == x;
            assert(b[k] == x);
        }
        if x == id@ {
            assert(b[ids.len() as int] == x);
        }
        if b.contains(x) {
            let k = choose|k: int| 0 <= k < b.len() && b[k] == x;
            if k < ids.len() {
                assert(a[k] == x);
            }
        }
    }
}

/// The identifiers that results of the transcript answer.
fn result_ids(messages: &Vec<Message>) -> (ids: Vec<String>)
    ensures
        forall|id: Seq<char>| #[trigger]
            views(ids@).contains(id) <==> answered(all_blocks(message_views(messages@)), id),
{
    let mut ids: Vec<String> = Vec::new();
    let ghost ms = message_views(messages@);
    let mut i: usize = 0;
    while i < messages.len()
        invariant
            i <= messages.len(),
            ms == message_views(messages@),
            forall|id: Seq<char>| #[trigger]
                views(ids@).contains(id) <==> answered(all_blocks(ms.take(i as int)), id),
        decreases messages.len() - i,
    {
        let content: &Vec<ContentBlock> = &messages[i].content;
        let ghost base = all_blocks(ms.take(i as int));
        let ghost here = block_views(content@);
        let mut j: usize = 0;
        assert(base + here.take(0) =~= base);
        while j < content.len()
            invariant
                j <= content.len(),
                here == block_views(content@),
                forall|id: Seq<char>| #[trigger]
                    views(ids@).contains(id) <==> answered(base + here.take(j as int), id),
            decreases content.len() - j,
        {
            proof {
                lemma_push_answers(base + here.take(j as int), content@[j as int]@);
                assert((base + here.take(j as int)).push(content@[j as int]@) =~= base + here.take(
                    j as int + 1,
                ));
            }
            match &content[j] {
                ContentBlock::ToolResult { tool_use_id, .. } => {
                    let id: String = tool_use_id.clone();
                    proof {
                        lemma_push_lists(ids@, id);
                    }
                    ids.push(id);
                },
                _ => {},
            }
            j = j + 1;
        }
        proof {
            assert(here.take(here.len() as int) =~= here);
            assert(ms.take(i as int + 1).drop_last() =~= ms.take(i as int));
            assert(ms.take(i as int + 1).last() == messages@[i as int]@);
        }
        i = i + 1;
    }
    assert(ms.take(ms.len() as int) =~= ms);
    ids
}

/// `ids` and the identifiers of the tool calls among `content`.
fn add_calls(content: &Vec<ContentBlock>, ids: Vec<String>, Ghost(base): Ghost<Seq<BlockView>>) -> (r:
    Vec<String>)
    requires
        forall|id: Seq<char>| #[trigger] views(ids@).contains(id) <==> called(base, id),
    ensures
        forall|id: Seq<char>| #[trigger]
            views(r@).contains(id) <==> called(base + block_views(content@), id),
{
    let mut ids: Vec<String> = ids;
    let ghost here = block_views(content@);
    let mut j: usize = 0;
    assert(base + here.take(0) =~= base);
    while j < content.len()
        invariant
            j <= content.len(),
            here == block_views(content@),
            forall|id: Seq<char>| #[trigger]
                views(ids@).contains(id) <==> called(base + here.take(j as int), id),
        decreases content.len() - j,
    {
        proof {
            lemma_push_answers(base + here.take(j as int), content@[j as int]@);
            assert((base + here.take(j as int)).push(content@[j as int]@) =~= base + here.take(
                j as int + 1,
            ));
        }
        match &content[j] {
            ContentBlock::ToolUse { id, .. } => {
                let id: String = id.clone();
                proof {
                    lemma_push_lists(ids@, id);
                }
                ids.push(id);
            },
            ContentBlock::ServerToolUse { id, .. } => {
                let id: String = id.clone();
                proof {
                    lemma_push_lists(ids@, id);
                }
                ids.push(id);
            },
            _ => {},
        }
        j = j + 1;
    }
    assert(here.take(here.len() as int) =~= here);
    ids
}

/// The identifiers of the tool calls of the transcript.
pub(crate) fn call_ids(messages: &Vec<Message>) -> (ids: Vec<String>)
    ensures
        forall|id: Seq<char>| #[trigger]
            views(ids@).contains(id) <==> called(all_blocks(message_views(messages@)), id),
{
    let mut ids: Vec<String> = Vec::new();
    let ghost ms = message_views(messages@);
    let mut i: usize = 0;
    while i < messages.len()
        invariant
            i <= messages.len(),
            ms == message_views(messages@),
            forall|id: Seq<char>| #[trigger]
                views(ids@).contains(id) <==> called(all_blocks(ms.take(i as int)), id),
        decreases messages.len() - i,
    {
        proof {
            assert(ms.take(i as int + 1).drop_last() =~= ms.take(i as int));
            assert(ms.take(i as int + 1).last() == messages@[i as int]@);
        }
        ids = add_calls(&messages[i].content, ids, Ghost(all_blocks(ms.take(i as int))));
        i = i + 1;
    }
    assert(ms.take(ms.len() as int) =~= ms);
    ids
}

/// The identifiers of the tool calls of the assistant.
fn assistant_call_ids(messages: &Vec<Message>) -> (ids: Vec<String>)
    ensures
        forall|id: Seq<char>| #[trigger]
            views(ids@).contains(id) <==> called(
                blocks_of(message_views(messages@), Role::Assistant),
                id,
            ),
{
    let mut ids: Vec<String> = Vec::new();
    let ghost ms = message_views(messages@);
    let mut i: usize = 0;
    while i < messages.len()
        invariant
            i <= messages.len(),
            ms == message_views(messages@),
            forall|id: Seq<char>| #[trigger]
                views(ids@).contains(id) <==> called(
                    blocks_of(ms.take(i as int), Role::Assistant),
                    id,
                ),
        decreases messages.len() - i,
    {
        proof {
            assert(ms.take(i as int + 1).drop_last() =~= ms.take(i as int));
            assert(ms.take(i as int + 1).last() == messages@[i as int]@);
        }
        if messages[i].role == Role::Assistant {
            ids = add_calls(
                &messages[i].content,
                ids,
                Ghost(blocks_of(ms.take(i as int), Role::Assistant)),
            );
        }
        i = i + 1;
    }
    assert(ms.take(ms.len() as int) =~= ms);
    ids
}

/// Filtering one block more.
proof fn lemma_filter_step<A>(s: Seq<A>, i: int, keep: spec_fn(A) -> bool)
    requires
        0 <= i < s.len(),
    ensures
        s.take(i + 1).filter(keep) == if keep(s[i]) {
            s.take(i).filter(keep).push(s[i])
        } else {
            s.take(i).filter(keep)
        },
{
    reveal(Seq::filter);
    assert(s.take(i + 1).drop_last() =~= s.take(i));
}

/// Drops the assistant's tool calls that no result answers. Other roles stay as they are.
pub fn drop_unresolved_tool_uses(messages: &mut Vec<Message>)
    ensures
        message_views(final(messages)@) == unresolved_dropped(message_views(old(messages)@)),
{
    let ids: Vec<String> = result_ids(messages);
    let ghost before = message_views(messages@);
    let ghost keep = resolved_in(all_blocks(before));
    let mut taken: Vec<Message> = Vec::new();
    std::mem::swap(&mut taken, messages);
    for m in it: taken
        invariant
            message_views(it.seq()) == before,
            keep == resolved_in(all_blocks(before)),
            forall|id: Seq<char>| #[trigger]
                views(ids@).contains(id) <==> answered(all_blocks(before), id),
            message_views(messages@) =~= retain_all(before, Role::Assistant, keep).take(
                it.index(),
            ),
    {
        let ghost whole = m;
        assert(whole@ == before[it.index()]);
        let mut m: Message = m;
        if m.role == Role::Assistant {
            let mut blocks: Vec<ContentBlock> = Vec::new();
            std::mem::swap(&mut blocks, &mut m.content);
            for b in bit: blocks
                invariant
                    m.role == whole.role,
                    block_views(bit.seq()) == whole@.content,
                    keep == resolved_in(all_blocks(before)),
                    forall|id: Seq<char>| #[trigger]
                        views(ids@).contains(id) <==> answered(all_blocks(before), id),
                    m@.content == whole@.content.take(bit.index()).filter(keep),
            {
                proof {
                    lemma_filter_step(whole@.content, bit.index(), keep);
                    assert(b@ == whole@.content[bit.index()]);
                }
                let kept: bool = match &b {
                    ContentBlock::ToolUse { id, .. } => lists(&ids, id),
                    ContentBlock::ServerToolUse { id, .. } => lists(&ids, id),
                    _ => true,
                };
                let ghost held = m.content@;
                if kept {
                    m.content.push(b);
                    assert(block_views(m.content@) =~= block_views(held).push(b@));
                }
            }
            assert(whole@.content.take(whole@.content.len() as int) =~= whole@.content);
        }
        let ghost done = messages@;
        messages.push(m);
        assert(message_views(messages@) =~= message_views(done).push(m@));
    }
}

/// Drops the user's tool results that no call of the assistant asked for, then messages with nothing in them.
pub fn drop_orphan_tool_results(messages: &mut Vec<Message>)
    ensures
        message_views(final(messages)@) == orphans_dropped(message_views(old(messages)@)),
{
    let ids: Vec<String> = assistant_call_ids(messages);
    let ghost before = message_views(messages@);
    let ghost keep = owed_in(blocks_of(before, Role::Assistant));
    let ghost kept_all = retain_all(before, Role::User, keep);
    let mut taken: Vec<Message> = Vec::new();
    std::mem::swap(&mut taken, messages);
    proof {
        reveal(Seq::filter);
        assert(kept_all.take(0).filter(nonempty()) =~= Seq::empty());
    }
    for m in it: taken
        invariant
            message_views(it.seq()) == before,
            keep == owed_in(blocks_of(before, Role::Assistant)),
            kept_all == retain_all(before, Role::User, keep),
            forall|id: Seq<char>| #[trigger]
                views(ids@).contains(id) <==> called(
                    blocks_of(before, Role::Assistant),
                    id,
                ),
            message_views(messages@) == kept_all.take(it.index()).filter(nonempty()),
    {
        let ghost whole = m;
        assert(whole@ == before[it.index()]);
        let mut m: Message = m;
        if m.role == Role::User {
            let mut blocks: Vec<ContentBlock> = Vec::new();
            std::mem::swap(&mut blocks, &mut m.content);
            proof {
                reveal(Seq::filter);
            }
            for b in bit: blocks
                invariant
                    m.role == whole.role,
                    block_views(bit.seq()) == whole@.content,
                    keep == owed_in(blocks_of(before, Role::Assistant)),
                    forall|id: Seq<char>| #[trigger]
                        views(ids@).contains(id) <==> called(
                    blocks_of(before, Role::Assistant),
                    id,
                ),
                    m@.content == whole@.content.take(bit.index()).filter(keep),
            {
                proof {
                    lemma_filter_step(whole@.content, bit.index(), keep);
                    assert(b@ == whole@.content[bit.index()]);
                }
                let kept: bool = match &b {
                    ContentBlock::ToolResult { tool_use_id, .. } => lists(&ids, tool_use_id),
                    _ => true,
                };
                let ghost held = m.content@;
                if kept {
                    m.content.push(b);
                    assert(block_views(m.content@) =~= block_views(held).push(b@));
                }
            }
            assert(whole@.content.take(whole@.content.len() as int) =~= whole@.content);
        }
        proof {
            lemma_filter_step(kept_all, it.index(), nonempty());
            assert(m@ == kept_all[it.index()]);
        }
        let ghost done = messages@;
        if m.content.len() > 0 {
            messages.push(m);
            assert(message_views(messages@) =~= message_views(done).push(m@));
        }
    }
    assert(kept_all.take(kept_all.len() as int) =~= kept_all);
}

/// Merges neighbours of one role, so that the roles alternate.
pub fn collapse_consecutive_roles(messages: &mut Vec<Message>)
    ensures
        message_views(final(messages)@) == collapsed(message_views(old(messages)@)),
{
    let ghost before = message_views(messages@);
    let mut taken: Vec<Message> = Vec::new();
    std::mem::swap(&mut taken, messages);
    for m in it: taken
        invariant
            message_views(it.seq()) == before,
            message_views(messages@) == collapsed(before.take(it.index())),
    {
        let mut m: Message = m;
        let ghost next = m@;
        let ghost done = messages@;
        proof {
            assert(next == before[it.index()]);
            assert(before.take(it.index() + 1).drop_last() =~= before.take(it.index()));
        }
        match messages.pop() {
            Some(prev) => {
                let mut prev: Message = prev;
                assert(message_views(messages@) =~= message_views(done).drop_last());
                assert(prev@ == message_views(done).last());
                let ghost first = prev;
                if prev.role == m.role {
                    prev.content.append(&mut m.content);
                    assert(block_views(prev.content@) =~= first@.content + next.content);
                    let ghost rest = messages@;
                    messages.push(prev);
                    assert(message_views(messages@) =~= message_views(rest).push(prev@));
                } else {
                    messages.push(prev);
                    assert(messages@ =~= done);
                    messages.push(m);
                    assert(message_views(messages@) =~= message_views(done).push(m@));
                }
            },
            None => {
                messages.push(m);
                assert(message_views(messages@) =~= message_views(done).push(m@));
            },
        }
    }
    assert(before.take(before.len() as int) =~= before);
}

/// Whether all blocks of `m` are tool results.
fn holds_only_results(m: &Message) -> (r: bool)
    ensures
        r == only_results(m@),
{
    let mut k: usize = 0;
    while k < m.content.len()
        invariant
            k <= m.content.len(),
            forall|j: int| 0 <= j < k ==> (#[trigger] m@.content[j]) is ToolResult,
        decreases m.content.len() - k,
    {
        match &m.content[k] {
            ContentBlock::ToolResult { .. } => {},
            _ => {
                assert(!(m@.content[k as int] is ToolResult));
                return false;
            },
        }
        k = k + 1;
    }
    true
}

/// Puts a user stub before a leading assistant, and an assistant stub after a trailing user
/// message of tool results alone.
pub fn insert_resume_sentinels(messages: &mut Vec<Message>)
    ensures
        message_views(final(messages)@) == sentinels_inserted(message_views(old(messages)@)),
{
    let ghost before = message_views(messages@);
    if messages.len() > 0 && messages[0].role == Role::Assistant {
        messages.insert(0, Message::user(RESUME_HEAD_SENTINEL));
    }
    assert(message_views(messages@) =~= head_patched(before));
    let n: usize = messages.len();
    if n > 0 && messages[n - 1].role == Role::User && holds_only_results(&messages[n - 1]) {
        messages.push(Message::assistant(RESUME_CONTINUATION_SENTINEL));
    }
    assert(message_views(messages@) =~= sentinels_inserted(before));
}

// ── Laws ──

/// Whether no two neighbours have one role.
pub open spec fn alternates(ms: Seq<MessageView>) -> bool {
    forall|i: int, j: int|
        0 <= i && j == i + 1 && j < ms.len() ==> (#[trigger] ms[i]).role != (#[trigger] ms[j]).role
}

/// Whether every call of the assistant is answered, and every result of the user asked for by the
/// assistant.
pub open spec fn tools_paired(ms: Seq<MessageView>) -> bool {
    &&& forall|b: BlockView, id: Seq<char>|
        blocks_of(ms, Role::Assistant).contains(b) && #[trigger] is_call_of(b, id) ==> answered(
            all_blocks(ms),
            id,
        )
    &&& forall|b: BlockView, id: Seq<char>|
        blocks_of(ms, Role::User).contains(b) && #[trigger] is_result_of(b, id) ==> called(
            blocks_of(ms, Role::Assistant),
            id,
        )
}

proof fn lemma_contains_add<A>(a: Seq<A>, b: Seq<A>, x: A)
    ensures
        (a + b).contains(x) <==> a.contains(x) || b.contains(x),
{
    let c = a + b;
    if a.contains(x) {
        let k = choose|k: int| 0 <= k < a.len() && a[k] == x;
        assert(c[k] == x);
    }
    if b.contains(x) {
        let k = choose|k: int| 0 <= k < b.len() && b[k] == x;
        assert(c[a.len() + k] == x);
    }
    if c.contains(x) {
        let k = choose|k: int| 0 <= k < c.len() && c[k] == x;
        if k < a.len() {
            assert(a[k] == x);
        } else {
            assert(b[k - a.len()] == x);
        }
    }
}

proof fn lemma_contains_filter<A>(s: Seq<A>, keep: spec_fn(A) -> bool, x: A)
    ensures
        s.filter(keep).contains(x) <==> s.contains(x) && keep(x),
    decreases s.len(),
{
    reveal(Seq::filter);
    if s.len() > 0 {
        let t = s.drop_last();
        lemma_contains_filter(t, keep, x);
        assert(s =~= t + seq![s.last()]);
        lemma_contains_add(t, seq![s.last()], x);
        assert(seq![s.last()].contains(x) <==> x == s.last()) by {
            assert(seq![s.last()][0] == s.last());
        }
        if keep(s.last()) {
            assert(s.filter(keep) =~= t.filter(keep) + seq![s.last()]);
            lemma_contains_add(t.filter(keep), seq![s.last()], x);
        }
    }
}

/// The blocks of a transcript are those of its two roles.
proof fn lemma_all_blocks_by_role(ms: Seq<MessageView>, x: BlockView)
    ensures
        all_blocks(ms).contains(x) <==> blocks_of(ms, Role::User).contains(x) || blocks_of(
            ms,
            Role::Assistant,
        ).contains(x),
    decreases ms.len(),
{
    if ms.len() > 0 {
        let t = ms.drop_last();
        let c = ms.last().content;
        lemma_all_blocks_by_role(t, x);
        lemma_contains_add(all_blocks(t), c, x);
        lemma_contains_add(blocks_of(t, Role::User), c, x);
        lemma_contains_add(blocks_of(t, Role::Assistant), c, x);
    }
}

/// Keeping some blocks of one role filters that role's blocks and leaves the other's.
proof fn lemma_retained_blocks(
    ms: Seq<MessageView>,
    role: Role,
    keep: spec_fn(BlockView) -> bool,
    other: Role,
)
    ensures
        blocks_of(retain_all(ms, role, keep), other) == if other == role {
            blocks_of(ms, other).filter(keep)
        } else {
            blocks_of(ms, other)
        },
    decreases ms.len(),
{
    reveal(Seq::filter);
    let kept = retain_all(ms, role, keep);
    if ms.len() > 0 {
        let t = ms.drop_last();
        lemma_retained_blocks(t, role, keep, other);
        assert(kept.drop_last() =~= retain_all(t, role, keep));
        Seq::filter_distributes_over_add(blocks_of(t, other), ms.last().content, keep);
    }
}

/// Dropping messages that hold nothing drops no block.
proof fn lemma_nonempty_blocks(ms: Seq<MessageView>, role: Role)
    ensures
        blocks_of(ms.filter(nonempty()), role) == blocks_of(ms, role),
    decreases ms.len(),
{
    reveal(Seq::filter);
    if ms.len() > 0 {
        let t = ms.drop_last();
        lemma_nonempty_blocks(t, role);
        let f = t.filter(nonempty());
        if nonempty()(ms.last()) {
            assert(f.push(ms.last()).drop_last() =~= f);
        } else {
            assert(blocks_of(t, role) + ms.last().content =~= blocks_of(t, role));
        }
    }
}

/// Collapsing moves no block out of its role or its order.
proof fn lemma_collapsed_blocks(ms: Seq<MessageView>, role: Role)
    ensures
        blocks_of(collapsed(ms), role) == blocks_of(ms, role),
    decreases ms.len(),
{
    if ms.len() > 0 {
        lemma_collapsed_blocks(ms.drop_last(), role);
        let c = collapsed(ms.drop_last());
        let m = ms.last();
        let n = absorb_message(c, m);
        if c.len() > 0 && c.last().role == m.role {
            assert(n.drop_last() =~= c.drop_last());
            assert(blocks_of(c.drop_last(), role) + (c.last().content + m.content) =~= (blocks_of(
                c.drop_last(),
                role,
            ) + c.last().content) + m.content);
        } else {
            assert(n.drop_last() =~= c);
        }
    }
}

/// Collapsed transcripts alternate, and hold no empty message where none was.
proof fn lemma_collapsed_shape(ms: Seq<MessageView>)
    ensures
        alternates(collapsed(ms)),
        (forall|i: int| 0 <= i < ms.len() ==> (#[trigger] ms[i]).content.len() > 0) ==> (forall|
            i: int,
        |
            0 <= i < collapsed(ms).len() ==> (#[trigger] collapsed(ms)[i]).content.len() > 0),
    decreases ms.len(),
{
    if ms.len() > 0 {
        let t = ms.drop_last();
        lemma_collapsed_shape(t);
        let c = collapsed(t);
        let n = collapsed(ms);
        assert forall|i: int, j: int| 0 <= i && j == i + 1 && j < n.len() implies (
        #[trigger] n[i]).role != (#[trigger] n[j]).role by {
            if j < c.len() {
                assert(c[i].role != c[j].role);
            }
        }
        if forall|i: int| 0 <= i < ms.len() ==> (#[trigger] ms[i]).content.len() > 0 {
            assert forall|i: int| 0 <= i < t.len() implies (#[trigger] t[i]).content.len() > 0 by {
                assert(t[i] == ms[i]);
            }
            assert(ms.last() == ms[ms.len() - 1]);
            assert forall|i: int| 0 <= i < n.len() implies (#[trigger] n[i]).content.len() > 0 by {
                if i < c.len() {
                    assert(c[i].content.len() > 0);
                }
            }
        }
    }
}

/// A message put in front adds its blocks in front.
proof fn lemma_prepend_blocks(m: MessageView, ms: Seq<MessageView>, role: Role)
    ensures
        blocks_of(seq![m] + ms, role) == if m.role == role {
            m.content + blocks_of(ms, role)
        } else {
            blocks_of(ms, role)
        },
    decreases ms.len(),
{
    if ms.len() == 0 {
        assert(seq![m] + ms =~= seq![m]);
        assert(seq![m].drop_last() =~= Seq::empty());
        assert(blocks_of(Seq::empty(), role) + m.content =~= m.content);
        assert(m.content + blocks_of(ms, role) =~= m.content);
    } else {
        let t = ms.drop_last();
        lemma_prepend_blocks(m, t, role);
        assert((seq![m] + ms).drop_last() =~= seq![m] + t);
        assert((seq![m] + ms).last() == ms.last());
        assert((m.content + blocks_of(t, role)) + ms.last().content =~= m.content + (blocks_of(
            t,
            role,
        ) + ms.last().content));
    }
}

/// What is stripped off the end is thinking.
proof fn lemma_stripped_contains(blocks: Seq<BlockView>, x: BlockView)
    ensures
        without_trailing_thinking(blocks).contains(x) ==> blocks.contains(x),
        blocks.contains(x) && !is_thinking(x) ==> without_trailing_thinking(blocks).contains(x),
        without_trailing_thinking(blocks).len() <= blocks.len(),
    decreases blocks.len(),
{
    if blocks.len() > 0 && is_thinking(blocks.last()) {
        let t = blocks.drop_last();
        lemma_stripped_contains(t, x);
        assert(blocks =~= t + seq![blocks.last()]);
        lemma_contains_add(t, seq![blocks.last()], x);
        assert(seq![blocks.last()].contains(x) ==> x == blocks.last());
    }
}

/// Stripping and patching leave the tool blocks of each role as they are.
proof fn lemma_edges_keep_tools(ms: Seq<MessageView>, role: Role, x: BlockView)
    requires
        x is ToolUse || x is ServerToolUse || x is ToolResult,
    ensures
        blocks_of(trailing_thinking_stripped(ms), role).contains(x) <==> blocks_of(
            ms,
            role,
        ).contains(x),
        blocks_of(sentinels_inserted(ms), role).contains(x) <==> blocks_of(ms, role).contains(x),
{
    if ms.len() > 0 && ms.last().role == Role::Assistant {
        let t = ms.drop_last();
        let n = trailing_thinking_stripped(ms);
        assert(n.drop_last() =~= t);
        lemma_contains_add(blocks_of(t, role), ms.last().content, x);
        lemma_contains_add(
            blocks_of(t, role),
            without_trailing_thinking(ms.last().content),
            x,
        );
        lemma_stripped_contains(ms.last().content, x);
    }
    let h = head_patched(ms);
    let stub = text_message(Role::User, RESUME_HEAD_SENTINEL@);
    if ms.len() > 0 && ms[0].role == Role::Assistant {
        lemma_prepend_blocks(stub, ms, role);
        lemma_contains_add(stub.content, blocks_of(ms, role), x);
        assert(!stub.content.contains(x));
    }
    let tail = text_message(Role::Assistant, RESUME_CONTINUATION_SENTINEL@);
    assert(h.push(tail).drop_last() =~= h);
    lemma_contains_add(blocks_of(h, role), tail.content, x);
    assert(!tail.content.contains(x));
}

/// Tool pairing depends only on which tool blocks each role holds.
proof fn lemma_pairing_by_role(a: Seq<MessageView>, b: Seq<MessageView>)
    requires
        tools_paired(a),
        forall|role: Role, x: BlockView|
            (x is ToolUse || x is ServerToolUse || x is ToolResult) ==> (#[trigger] blocks_of(
                a,
                role,
            ).contains(x) <==> blocks_of(b, role).contains(x)),
    ensures
        tools_paired(b),
{
    assert forall|id: Seq<char>| answered(all_blocks(a), id) implies answered(all_blocks(b), id) by {
        let s = all_blocks(a);
        let k = choose|k: int| 0 <= k < s.len() && is_result_of(#[trigger] s[k], id);
        assert(s.contains(s[k]));
        lemma_all_blocks_by_role(a, s[k]);
        lemma_all_blocks_by_role(b, s[k]);
        assert(blocks_of(a, Role::User).contains(s[k]) <==> blocks_of(b, Role::User).contains(s[k]));
        assert(blocks_of(a, Role::Assistant).contains(s[k]) <==> blocks_of(
            b,
            Role::Assistant,
        ).contains(s[k]));
        let t = all_blocks(b);
        let j = choose|j: int| 0 <= j < t.len() && t[j] == s[k];
        assert(is_result_of(t[j], id));
    }
    assert forall|id: Seq<char>| called(blocks_of(a, Role::Assistant), id) implies called(
        blocks_of(b, Role::Assistant),
        id,
    ) by {
        let s = blocks_of(a, Role::Assistant);
        let k = choose|k: int| 0 <= k < s.len() && is_call_of(#[trigger] s[k], id);
        assert(s.contains(s[k]));
        let t = blocks_of(b, Role::Assistant);
        assert(blocks_of(a, Role::Assistant).contains(s[k]) <==> t.contains(s[k]));
        let j = choose|j: int| 0 <= j < t.len() && t[j] == s[k];
        assert(is_call_of(t[j], id));
    }
    assert forall|x: BlockView, id: Seq<char>|
        blocks_of(b, Role::Assistant).contains(x) && #[trigger] is_call_of(x, id) implies answered(
        all_blocks(b),
        id,
    ) by {
        assert(blocks_of(a, Role::Assistant).contains(x));
    }
    assert forall|x: BlockView, id: Seq<char>|
        blocks_of(b, Role::User).contains(x) && #[trigger] is_result_of(x, id) implies called(
        blocks_of(b, Role::Assistant),
        id,
    ) by {
        assert(blocks_of(a, Role::User).contains(x));
    }
}

/// The two dropping passes leave every call answered and every result asked for.
pub proof fn law_drops_pair_tools(ms: Seq<MessageView>)
    ensures
        tools_paired(orphans_dropped(unresolved_dropped(ms))),
{
    let u = unresolved_dropped(ms);
    let o = orphans_dropped(u);
    let keep_call = resolved_in(all_blocks(ms));
    let keep_result = owed_in(blocks_of(u, Role::Assistant));
    let kept = retain_all(u, Role::User, keep_result);
    assert forall|role: Role, x: BlockView| #[trigger]
        blocks_of(o, role).contains(x) <==> blocks_of(u, role).contains(x) && (role == Role::User
            ==> keep_result(x)) by {
        lemma_nonempty_blocks(kept, role);
        lemma_retained_blocks(u, Role::User, keep_result, role);
        lemma_contains_filter(blocks_of(u, role), keep_result, x);
    }
    assert forall|role: Role, x: BlockView| #[trigger]
        blocks_of(u, role).contains(x) <==> blocks_of(ms, role).contains(x) && (role
            == Role::Assistant ==> keep_call(x)) by {
        lemma_retained_blocks(ms, Role::Assistant, keep_call, role);
        lemma_contains_filter(blocks_of(ms, role), keep_call, x);
    }
    assert forall|x: BlockView, id: Seq<char>|
        blocks_of(o, Role::Assistant).contains(x) && #[trigger] is_call_of(x, id) implies answered(
        all_blocks(o),
        id,
    ) by {
        assert(blocks_of(u, Role::Assistant).contains(x));
        assert(keep_call(x));
        let s = all_blocks(ms);
        let k = choose|k: int| 0 <= k < s.len() && is_result_of(#[trigger] s[k], id);
        let r = s[k];
        assert(s.contains(r));
        lemma_all_blocks_by_role(ms, r);
        let cu = blocks_of(u, Role::Assistant);
        let q = choose|q: int| 0 <= q < cu.len() && cu[q] == x;
        assert(is_call_of(cu[q], id));
        assert(called(cu, id));
        assert(blocks_of(o, Role::User).contains(r) <==> blocks_of(u, Role::User).contains(r));
        assert(blocks_of(u, Role::User).contains(r) <==> blocks_of(ms, Role::User).contains(r));
        assert(blocks_of(o, Role::Assistant).contains(r) <==> blocks_of(
            u,
            Role::Assistant,
        ).contains(r));
        assert(blocks_of(u, Role::Assistant).contains(r) <==> blocks_of(
            ms,
            Role::Assistant,
        ).contains(r));
        lemma_all_blocks_by_role(o, r);
        let so = all_blocks(o);
        let j = choose|j: int| 0 <= j < so.len() && so[j] == r;
        assert(is_result_of(so[j], id));
    }
    assert forall|x: BlockView, id: Seq<char>|
        blocks_of(o, Role::User).contains(x) && #[trigger] is_result_of(x, id) implies called(
        blocks_of(o, Role::Assistant),
        id,
    ) by {
        assert(keep_result(x));
        let cu = blocks_of(u, Role::Assistant);
        let k = choose|k: int| 0 <= k < cu.len() && is_call_of(#[trigger] cu[k], id);
        let c = cu[k];
        assert(cu.contains(c));
        let so = blocks_of(o, Role::Assistant);
        assert(so.contains(c) <==> cu.contains(c));
        let j = choose|j: int| 0 <= j < so.len() && so[j] == c;
        assert(is_call_of(so[j], id));
    }
}

/// A sanitized transcript begins with the user, alternates between the roles, holds no
/// empty message but perhaps an assistant's at its end, and pairs every tool call with a
/// result and every result with a call.
pub proof fn law_sanitized_is_valid(ms: Seq<MessageView>)
    ensures
        sanitized(ms).len() > 0 ==> sanitized(ms)[0].role == Role::User,
        alternates(sanitized(ms)),
        forall|i: int|
            0 <= i < sanitized(ms).len() ==> (#[trigger] sanitized(ms)[i]).content.len() > 0 || (i
                == sanitized(ms).len() - 1 && sanitized(ms)[i].role == Role::Assistant),
        tools_paired(sanitized(ms)),
{
    let s = trailing_thinking_stripped(ms);
    let o = orphans_dropped(unresolved_dropped(s));
    let c = collapsed(o);
    let p = sentinels_inserted(c);
    let h = head_patched(c);
    let out = sanitized(ms);
    law_drops_pair_tools(s);
    assert forall|role: Role, x: BlockView|
        (x is ToolUse || x is ServerToolUse || x is ToolResult) implies (#[trigger] blocks_of(
        o,
        role,
    ).contains(x) <==> blocks_of(out, role).contains(x)) by {
        lemma_collapsed_blocks(o, role);
        lemma_edges_keep_tools(c, role, x);
        lemma_edges_keep_tools(p, role, x);
    }
    lemma_pairing_by_role(o, out);
    let kept = retain_all(
        unresolved_dropped(s),
        Role::User,
        owed_in(blocks_of(unresolved_dropped(s), Role::Assistant)),
    );
    assert forall|i: int| 0 <= i < o.len() implies (#[trigger] o[i]).content.len() > 0 by {
        kept.lemma_filter_pred(nonempty(), i);
    }
    lemma_collapsed_shape(o);
    assert forall|i: int, j: int| 0 <= i && j == i + 1 && j < h.len() implies (#[trigger] h[i]).role
        != (#[trigger] h[j]).role by {
        if c.len() > 0 && c[0].role == Role::Assistant {
            if i > 0 {
                assert(c[i - 1].role != c[j - 1].role);
            }
        } else {
            assert(c[i].role != c[j].role);
        }
    }
    assert forall|i: int| 0 <= i < h.len() implies (#[trigger] h[i]).content.len() > 0 by {
        if c.len() > 0 && c[0].role == Role::Assistant {
            if i > 0 {
                assert(c[i - 1].content.len() > 0);
            }
        } else {
            assert(c[i].content.len() > 0);
        }
    }
    assert forall|i: int, j: int| 0 <= i && j == i + 1 && j < p.len() implies (#[trigger] p[i]).role
        != (#[trigger] p[j]).role by {
        if j < h.len() {
            assert(h[i].role != h[j].role);
        }
    }
    assert forall|i: int| 0 <= i < p.len() implies (#[trigger] p[i]).content.len() > 0 by {
        if i < h.len() {
            assert(h[i].content.len() > 0);
        }
    }
    assert forall|i: int, j: int| 0 <= i && j == i + 1 && j < out.len() implies (
    #[trigger] out[i]).role != (#[trigger] out[j]).role by {
        assert(p[i].role != p[j].role);
    }
    assert forall|i: int| 0 <= i < out.len() implies (#[trigger] out[i]).content.len() > 0 || (i
        == out.len() - 1 && out[i].role == Role::Assistant) by {
        assert(p[i].content.len() > 0);
    }
}

/// Whether `ms` needs no repair.
pub open spec fn is_clean(ms: Seq<MessageView>) -> bool {
    &&& ms.len() > 0 ==> ms[0].role == Role::User
    &&& alternates(ms)
    &&& forall|i: int| 0 <= i < ms.len() ==> (#[trigger] ms[i]).content.len() > 0
    &&& tools_paired(ms)
    &&& ms.len() > 0 && ms.last().role == Role::User ==> !only_results(ms.last())
    &&& ms.len() > 0 && ms.last().role == Role::Assistant ==> !is_thinking(ms.last().content.last())
}

proof fn lemma_filter_all<A>(s: Seq<A>, keep: spec_fn(A) -> bool)
    requires
        forall|i: int| 0 <= i < s.len() ==> keep(#[trigger] s[i]),
    ensures
        s.filter(keep) == s,
    decreases s.len(),
{
    reveal(Seq::filter);
    if s.len() > 0 {
        let t = s.drop_last();
        assert forall|i: int| 0 <= i < t.len() implies keep(#[trigger] t[i]) by {
            assert(t[i] == s[i]);
        }
        lemma_filter_all(t, keep);
        assert(keep(s[s.len() - 1]));
        assert(t.push(s.last()) =~= s);
    }
}

/// A block of a message is one of its role's blocks.
proof fn lemma_block_of_message(ms: Seq<MessageView>, i: int, k: int)
    requires
        0 <= i < ms.len(),
        0 <= k < ms[i].content.len(),
    ensures
        blocks_of(ms, ms[i].role).contains(ms[i].content[k]),
    decreases ms.len(),
{
    let t = ms.drop_last();
    let role = ms[i].role;
    let x = ms[i].content[k];
    if i < t.len() {
        lemma_block_of_message(t, i, k);
        lemma_contains_add(blocks_of(t, role), ms.last().content, x);
    } else {
        lemma_contains_add(blocks_of(t, role), ms.last().content, x);
        assert(ms.last().content.contains(x));
    }
}

/// An alternating transcript collapses to itself.
proof fn lemma_collapsed_alternating(ms: Seq<MessageView>)
    requires
        alternates(ms),
    ensures
        collapsed(ms) == ms,
    decreases ms.len(),
{
    if ms.len() > 0 {
        let t = ms.drop_last();
        assert forall|i: int, j: int| 0 <= i && j == i + 1 && j < t.len() implies (
        #[trigger] t[i]).role != (#[trigger] t[j]).role by {
            assert(ms[i].role != ms[j].role);
        }
        lemma_collapsed_alternating(t);
        if t.len() > 0 {
            assert(ms[ms.len() - 2].role != ms[ms.len() - 1].role);
        }
        assert(t.push(ms.last()) =~= ms);
    }
}

/// A transcript that needs no repair is left as it is.
pub proof fn law_clean_is_unchanged(ms: Seq<MessageView>)
    requires
        is_clean(ms),
    ensures
        sanitized(ms) == ms,
{
    assert(trailing_thinking_stripped(ms) =~= ms) by {
        if ms.len() > 0 && ms.last().role == Role::Assistant {
            assert(ms.last() == ms[ms.len() - 1]);
            assert(without_trailing_thinking(ms.last().content) == ms.last().content);
            assert(trailing_thinking_stripped(ms).last() == ms.last());
        }
    }
    let keep_call = resolved_in(all_blocks(ms));
    let keep_result = owed_in(blocks_of(ms, Role::Assistant));
    assert forall|i: int| 0 <= i < ms.len() implies retain_in(
        #[trigger] ms[i],
        Role::Assistant,
        keep_call,
    ) == ms[i] by {
        if ms[i].role == Role::Assistant {
            let c = ms[i].content;
            assert forall|k: int| 0 <= k < c.len() implies keep_call(#[trigger] c[k]) by {
                lemma_block_of_message(ms, i, k);
                match c[k] {
                    BlockView::ToolUse { id, .. } => {
                        assert(is_call_of(c[k], id));
                    },
                    BlockView::ServerToolUse { id, .. } => {
                        assert(is_call_of(c[k], id));
                    },
                    _ => {},
                }
            }
            lemma_filter_all(c, keep_call);
        }
    }
    assert(unresolved_dropped(ms) =~= ms);
    assert forall|i: int| 0 <= i < ms.len() implies retain_in(
        #[trigger] ms[i],
        Role::User,
        keep_result,
    ) == ms[i] by {
        if ms[i].role == Role::User {
            let c = ms[i].content;
            assert forall|k: int| 0 <= k < c.len() implies keep_result(#[trigger] c[k]) by {
                lemma_block_of_message(ms, i, k);
                match c[k] {
                    BlockView::ToolResult { tool_use_id, .. } => {
                        assert(is_result_of(c[k], tool_use_id));
                    },
                    _ => {},
                }
            }
            lemma_filter_all(c, keep_result);
        }
    }
    assert(retain_all(ms, Role::User, keep_result) =~= ms);
    lemma_filter_all(ms, nonempty());
    lemma_collapsed_alternating(ms);
}

/// Where a sanitized transcript ends with the user, its last message holds something else than
/// tool results, so that the next prompt follows an answer; where it ends with the assistant,
/// no thinking stands at its end.
pub proof fn law_sanitized_can_go_on(ms: Seq<MessageView>)
    ensures
        sanitized(ms).len() > 0 && sanitized(ms).last().role == Role::User ==> exists|k: int|
            0 <= k < sanitized(ms).last().content.len() && !((
            #[trigger] sanitized(ms).last().content[k]) is ToolResult),
        sanitized(ms).len() > 0 && sanitized(ms).last().role == Role::Assistant
            && sanitized(ms).last().content.len() > 0 ==> !(
        sanitized(ms).last().content.last() is Thinking)
            && !(sanitized(ms).last().content.last() is RedactedThinking),
{
    let c = collapsed(orphans_dropped(unresolved_dropped(trailing_thinking_stripped(ms))));
    let p = sentinels_inserted(c);
    if p.len() > 0 && p.last().role == Role::Assistant {
        lemma_stripped_end(p.last().content);
    }
}

proof fn lemma_stripped_end(blocks: Seq<BlockView>)
    ensures
        without_trailing_thinking(blocks).len() > 0 ==> !(
        without_trailing_thinking(blocks).last() is Thinking)
            && !(without_trailing_thinking(blocks).last() is RedactedThinking),
    decreases blocks.len(),
{
    if blocks.len() > 0 && is_thinking(blocks.last()) {
        lemma_stripped_end(blocks.drop_last());
    }
}

/// The blocks of a transcript in their order, each with the role of its message.
pub open spec fn tagged(ms: Seq<MessageView>) -> Seq<(Role, BlockView)>
    decreases ms.len(),
{
    if ms.len() == 0 {
        Seq::empty()
    } else {
        tagged(ms.drop_last()) + tags(ms.last())
    }
}

/// The blocks of a message, each with its role.
pub open spec fn tags(m: MessageView) -> Seq<(Role, BlockView)> {
    m.content.map_values(|b: BlockView| (m.role, b))
}

/// Whether a block outlives the repair of `ms`: a call of the assistant where something answers
/// it, a result of the user where the assistant asked for it, and everything else.
pub open spec fn outlives(ms: Seq<MessageView>) -> spec_fn((Role, BlockView)) -> bool {
    |t: (Role, BlockView)|
        match t {
            (Role::Assistant, BlockView::ToolUse { id, .. }) => exists|k: int|
                0 <= k < tagged(ms).len() && is_result_of((#[trigger] tagged(ms)[k]).1, id),
            (Role::Assistant, BlockView::ServerToolUse { id, .. }) => exists|k: int|
                0 <= k < tagged(ms).len() && is_result_of((#[trigger] tagged(ms)[k]).1, id),
            (Role::User, BlockView::ToolResult { tool_use_id, .. }) => exists|k: int|
                0 <= k < tagged(ms).len() && (#[trigger] tagged(ms)[k]).0 == Role::Assistant
                    && is_call_of(tagged(ms)[k].1, tool_use_id),
            _ => true,
        }
}

proof fn lemma_filter_same<A>(s: Seq<A>, f: spec_fn(A) -> bool, g: spec_fn(A) -> bool)
    requires
        forall|i: int| 0 <= i < s.len() ==> f(#[trigger] s[i]) == g(s[i]),
    ensures
        s.filter(f) == s.filter(g),
    decreases s.len(),
{
    reveal(Seq::filter);
    if s.len() > 0 {
        let t = s.drop_last();
        assert forall|i: int| 0 <= i < t.len() implies f(#[trigger] t[i]) == g(t[i]) by {
            assert(t[i] == s[i]);
        }
        lemma_filter_same(t, f, g);
        assert(f(s[s.len() - 1]) == g(s[s.len() - 1]));
    }
}

proof fn lemma_filter_twice<A>(s: Seq<A>, f: spec_fn(A) -> bool, g: spec_fn(A) -> bool)
    ensures
        s.filter(f).filter(g) == s.filter(|x: A| f(x) && g(x)),
    decreases s.len(),
{
    reveal(Seq::filter);
    if s.len() > 0 {
        let t = s.drop_last();
        lemma_filter_twice(t, f, g);
        let x = s.last();
        if f(x) {
            assert(t.filter(f).push(x).drop_last() =~= t.filter(f));
        }
    }
}

/// Keeping some blocks of a message of `role` filters its tags.
proof fn lemma_tags_retained(m: MessageView, role: Role, keep: spec_fn(BlockView) -> bool)
    ensures
        tags(retain_in(m, role, keep)) == tags(m).filter(
            |t: (Role, BlockView)| t.0 == role ==> keep(t.1),
        ),
    decreases m.content.len(),
{
    reveal(Seq::filter);
    let f = |t: (Role, BlockView)| t.0 == role ==> keep(t.1);
    if m.role != role {
        assert forall|i: int| 0 <= i < tags(m).len() implies f(#[trigger] tags(m)[i]) by {}
        lemma_filter_all(tags(m), f);
    } else if m.content.len() == 0 {
        assert(m.content.filter(keep) =~= Seq::empty());
        assert(tags(m) =~= Seq::empty());
        assert(tags(m).filter(f) =~= Seq::empty());
        assert(tags(retain_in(m, role, keep)) =~= Seq::empty());
    } else {
        let n = MessageView { role: m.role, content: m.content.drop_last() };
        let b = m.content.last();
        lemma_tags_retained(n, role, keep);
        assert(tags(m).drop_last() =~= tags(n));
        assert(tags(m).last() == (m.role, b));
        if keep(b) {
            assert(tags(retain_in(m, role, keep)) =~= tags(retain_in(n, role, keep)).push(
                (m.role, b),
            ));
        } else {
            assert(tags(retain_in(m, role, keep)) =~= tags(retain_in(n, role, keep)));
        }
    }
}

proof fn lemma_tagged_retained(
    ms: Seq<MessageView>,
    role: Role,
    keep: spec_fn(BlockView) -> bool,
)
    ensures
        tagged(retain_all(ms, role, keep)) == tagged(ms).filter(
            |t: (Role, BlockView)| t.0 == role ==> keep(t.1),
        ),
    decreases ms.len(),
{
    reveal(Seq::filter);
    let f = |t: (Role, BlockView)| t.0 == role ==> keep(t.1);
    let kept = retain_all(ms, role, keep);
    if ms.len() > 0 {
        let t = ms.drop_last();
        lemma_tagged_retained(t, role, keep);
        lemma_tags_retained(ms.last(), role, keep);
        assert(kept.drop_last() =~= retain_all(t, role, keep));
        Seq::filter_distributes_over_add(tagged(t), tags(ms.last()), f);
    }
}

proof fn lemma_tagged_nonempty(ms: Seq<MessageView>)
    ensures
        tagged(ms.filter(nonempty())) == tagged(ms),
    decreases ms.len(),
{
    reveal(Seq::filter);
    if ms.len() > 0 {
        let t = ms.drop_last();
        lemma_tagged_nonempty(t);
        let f = t.filter(nonempty());
        if nonempty()(ms.last()) {
            assert(f.push(ms.last()).drop_last() =~= f);
        } else {
            assert(tagged(t) + tags(ms.last()) =~= tagged(t));
        }
    }
}

proof fn lemma_tagged_collapsed(ms: Seq<MessageView>)
    ensures
        tagged(collapsed(ms)) == tagged(ms),
    decreases ms.len(),
{
    if ms.len() > 0 {
        lemma_tagged_collapsed(ms.drop_last());
        let c = collapsed(ms.drop_last());
        let m = ms.last();
        let n = absorb_message(c, m);
        if c.len() > 0 && c.last().role == m.role {
            assert(n.drop_last() =~= c.drop_last());
            assert(tags(n.last()) =~= tags(c.last()) + tags(m));
            assert(tagged(c.drop_last()) + (tags(c.last()) + tags(m)) =~= (tagged(c.drop_last())
                + tags(c.last())) + tags(m));
        } else {
            assert(n.drop_last() =~= c);
        }
    }
}

proof fn lemma_tagged_first(m: MessageView, ms: Seq<MessageView>)
    ensures
        tagged(seq![m] + ms) == tags(m) + tagged(ms),
    decreases ms.len(),
{
    if ms.len() == 0 {
        assert(seq![m] + ms =~= seq![m]);
        assert(seq![m].drop_last() =~= Seq::empty());
        reveal_with_fuel(tagged, 2);
        assert(tagged(seq![m]) =~= tags(m));
        assert(tags(m) + tagged(ms) =~= tags(m));
    } else {
        let t = ms.drop_last();
        lemma_tagged_first(m, t);
        assert((seq![m] + ms).drop_last() =~= seq![m] + t);
        assert((seq![m] + ms).last() == ms.last());
        assert((tags(m) + tagged(t)) + tags(ms.last()) =~= tags(m) + (tagged(t) + tags(
            ms.last(),
        )));
    }
}

/// What is stripped off the end of a transcript: thinking of the assistant, and nothing where it
/// ends with the user.
proof fn lemma_tagged_stripped(ms: Seq<MessageView>) -> (n: int)
    ensures
        0 <= n <= tagged(ms).len(),
        tagged(trailing_thinking_stripped(ms)) == tagged(ms).take(n),
        forall|k: int|
            n <= k < tagged(ms).len() ==> (#[trigger] tagged(ms)[k]).0 == Role::Assistant
                && is_thinking(tagged(ms)[k].1),
        ms.len() > 0 && ms.last().role == Role::User ==> n == tagged(ms).len(),
{
    let all = tagged(ms);
    if ms.len() > 0 && ms.last().role == Role::Assistant {
        let t = ms.drop_last();
        let m = ms.last();
        let cut = without_trailing_thinking(m.content);
        lemma_stripped_is_beginning(m.content);
        let out = trailing_thinking_stripped(ms);
        let n = (tagged(t).len() + cut.len()) as int;
        assert(out.drop_last() =~= t);
        assert(tagged(out) =~= all.take(n));
        assert forall|k: int| n <= k < all.len() implies (#[trigger] all[k]).0 == Role::Assistant
            && is_thinking(all[k].1) by {
            assert(all[k].1 == m.content[k - tagged(t).len()]);
        }
        n
    } else {
        assert(all.take(all.len() as int) =~= all);
        all.len() as int
    }
}

proof fn lemma_stripped_is_beginning(blocks: Seq<BlockView>)
    ensures
        without_trailing_thinking(blocks).len() <= blocks.len(),
        without_trailing_thinking(blocks) == blocks.take(
            without_trailing_thinking(blocks).len() as int,
        ),
        forall|k: int|
            without_trailing_thinking(blocks).len() <= k < blocks.len() ==> is_thinking(
                #[trigger] blocks[k],
            ),
    decreases blocks.len(),
{
    let cut = without_trailing_thinking(blocks);
    if blocks.len() > 0 && is_thinking(blocks.last()) {
        let t = blocks.drop_last();
        lemma_stripped_is_beginning(t);
        assert(t.take(cut.len() as int) =~= blocks.take(cut.len() as int));
        assert forall|k: int| cut.len() <= k < blocks.len() implies is_thinking(
            #[trigger] blocks[k],
        ) by {
            if k < t.len() {
                assert(is_thinking(t[k]));
            }
        }
    } else {
        assert(blocks.take(blocks.len() as int) =~= blocks);
    }
}

/// Blocks and tags tell the same of calls and answers.
proof fn lemma_tagged_tells(ms: Seq<MessageView>)
    ensures
        tagged(ms).len() == all_blocks(ms).len(),
        forall|k: int| 0 <= k < tagged(ms).len() ==> (#[trigger] tagged(ms)[k]).1 == all_blocks(ms)[k],
        forall|x: BlockView| #[trigger]
            blocks_of(ms, Role::Assistant).contains(x) <==> tagged(ms).contains(
                (Role::Assistant, x),
            ),
    decreases ms.len(),
{
    if ms.len() > 0 {
        let t = ms.drop_last();
        let m = ms.last();
        lemma_tagged_tells(t);
        assert forall|k: int| 0 <= k < tagged(ms).len() implies (#[trigger] tagged(ms)[k]).1
            == all_blocks(ms)[k] by {
            if k < tagged(t).len() {
                assert(tagged(ms)[k] == tagged(t)[k]);
            }
        }
        assert forall|x: BlockView| #[trigger]
            blocks_of(ms, Role::Assistant).contains(x) <==> tagged(ms).contains(
            (Role::Assistant, x),
        ) by {
            lemma_contains_add(blocks_of(t, Role::Assistant), m.content, x);
            lemma_contains_add(tagged(t), tags(m), (Role::Assistant, x));
            if m.role == Role::Assistant && m.content.contains(x) {
                let k = choose|k: int| 0 <= k < m.content.len() && m.content[k] == x;
                assert(tags(m)[k] == (Role::Assistant, x));
            }
            if tags(m).contains((Role::Assistant, x)) {
                let k = choose|k: int| 0 <= k < tags(m).len() && tags(m)[k] == (Role::Assistant, x);
                assert(m.content[k] == x);
            }
        }
    }
}

/// What the dropping passes keep of a transcript that no thinking ends.
proof fn lemma_drops_by_tags(ms: Seq<MessageView>)
    ensures
        tagged(orphans_dropped(unresolved_dropped(ms))) == tagged(ms).filter(outlives(ms)),
{
    let u = unresolved_dropped(ms);
    let keep_call = resolved_in(all_blocks(ms));
    let keep_result = owed_in(blocks_of(u, Role::Assistant));
    let f = |t: (Role, BlockView)| t.0 == Role::Assistant ==> keep_call(t.1);
    let g = |t: (Role, BlockView)| t.0 == Role::User ==> keep_result(t.1);
    lemma_tagged_retained(ms, Role::Assistant, keep_call);
    lemma_tagged_retained(u, Role::User, keep_result);
    lemma_tagged_nonempty(retain_all(u, Role::User, keep_result));
    lemma_filter_twice(tagged(ms), f, g);
    lemma_tagged_tells(ms);
    lemma_tagged_tells(u);
    let all = tagged(ms);
    let both = |t: (Role, BlockView)| f(t) && g(t);
    assert forall|i: int| 0 <= i < all.len() implies both(#[trigger] all[i]) == outlives(ms)(all[i]) by {
        let t = all[i];
        match t {
            (Role::Assistant, BlockView::ToolUse { id, .. }) => {
                lemma_answered_by_tags(ms, id);
            },
            (Role::Assistant, BlockView::ServerToolUse { id, .. }) => {
                lemma_answered_by_tags(ms, id);
            },
            (Role::User, BlockView::ToolResult { tool_use_id, .. }) => {
                assert(is_result_of(all_blocks(ms)[i], tool_use_id));
                assert(answered(all_blocks(ms), tool_use_id));
                let cu = blocks_of(u, Role::Assistant);
                if called(cu, tool_use_id) {
                    let k = choose|k: int|
                        0 <= k < cu.len() && is_call_of(#[trigger] cu[k], tool_use_id);
                    assert(cu.contains(cu[k]));
                    assert(tagged(u).contains((Role::Assistant, cu[k])));
                    lemma_contains_filter(all, f, (Role::Assistant, cu[k]));
                    let j = choose|j: int|
                        0 <= j < all.len() && all[j] == (Role::Assistant, cu[k]);
                    assert(all[j].0 == Role::Assistant && is_call_of(all[j].1, tool_use_id));
                }
                if outlives(ms)(t) {
                    let k = choose|k: int|
                        0 <= k < all.len() && (#[trigger] all[k]).0 == Role::Assistant
                            && is_call_of(all[k].1, tool_use_id);
                    assert(all.contains(all[k]));
                    lemma_contains_filter(all, f, all[k]);
                    assert(keep_call(all[k].1));
                    assert(tagged(u).contains((Role::Assistant, all[k].1)));
                    assert(cu.contains(all[k].1));
                    let j = choose|j: int| 0 <= j < cu.len() && cu[j] == all[k].1;
                    assert(is_call_of(cu[j], tool_use_id));
                }
            },
            _ => {},
        }
    }
    lemma_filter_same(all, both, outlives(ms));
}

proof fn lemma_answered_by_tags(ms: Seq<MessageView>, id: Seq<char>)
    ensures
        answered(all_blocks(ms), id) <==> exists|k: int|
            0 <= k < tagged(ms).len() && is_result_of((#[trigger] tagged(ms)[k]).1, id),
{
    lemma_tagged_tells(ms);
    if answered(all_blocks(ms), id) {
        let k = choose|k: int|
            0 <= k < all_blocks(ms).len() && is_result_of(#[trigger] all_blocks(ms)[k], id);
        assert(is_result_of(tagged(ms)[k].1, id));
    }
    if exists|k: int| 0 <= k < tagged(ms).len() && is_result_of((#[trigger] tagged(ms)[k]).1, id) {
        let k = choose|k: int|
            0 <= k < tagged(ms).len() && is_result_of((#[trigger] tagged(ms)[k]).1, id);
        assert(is_result_of(all_blocks(ms)[k], id));
    }
}

/// Thinking at the end says nothing of calls and answers.
proof fn lemma_outlives_without_thinking(ms: Seq<MessageView>, s: Seq<MessageView>, n: int)
    requires
        0 <= n <= tagged(ms).len(),
        tagged(s) == tagged(ms).take(n),
        forall|k: int|
            n <= k < tagged(ms).len() ==> (#[trigger] tagged(ms)[k]).0 == Role::Assistant
                && is_thinking(tagged(ms)[k].1),
    ensures
        forall|t: (Role, BlockView)| #[trigger] outlives(s)(t) == outlives(ms)(t),
        tagged(ms).filter(outlives(ms)) == tagged(s).filter(outlives(s)) + tagged(ms).skip(n),
{
    let a = tagged(ms);
    let b = tagged(s);
    assert forall|t: (Role, BlockView)| #[trigger] outlives(s)(t) == outlives(ms)(t) by {
        match t {
            (Role::Assistant, BlockView::ToolUse { id, .. }) => {
                lemma_same_answers(a, b, n, id);
            },
            (Role::Assistant, BlockView::ServerToolUse { id, .. }) => {
                lemma_same_answers(a, b, n, id);
            },
            (Role::User, BlockView::ToolResult { tool_use_id, .. }) => {
                lemma_same_calls(a, b, n, tool_use_id);
            },
            _ => {},
        }
    }
    let rest = a.skip(n);
    assert(a =~= b + rest);
    Seq::filter_distributes_over_add(b, rest, outlives(ms));
    assert forall|k: int| 0 <= k < rest.len() implies outlives(ms)(#[trigger] rest[k]) by {
        assert(rest[k] == a[n + k]);
    }
    lemma_filter_all(rest, outlives(ms));
    lemma_filter_same(b, outlives(ms), outlives(s));
}

proof fn lemma_same_answers(
    a: Seq<(Role, BlockView)>,
    b: Seq<(Role, BlockView)>,
    n: int,
    id: Seq<char>,
)
    requires
        0 <= n <= a.len(),
        b == a.take(n),
        forall|k: int| n <= k < a.len() ==> is_thinking((#[trigger] a[k]).1),
    ensures
        (exists|k: int| 0 <= k < a.len() && is_result_of((#[trigger] a[k]).1, id)) == (exists|
            k: int,
        |
            0 <= k < b.len() && is_result_of((#[trigger] b[k]).1, id)),
{
    if exists|k: int| 0 <= k < a.len() && is_result_of((#[trigger] a[k]).1, id) {
        let k = choose|k: int| 0 <= k < a.len() && is_result_of((#[trigger] a[k]).1, id);
        assert(k < n);
        assert(is_result_of(b[k].1, id));
    }
    if exists|k: int| 0 <= k < b.len() && is_result_of((#[trigger] b[k]).1, id) {
        let k = choose|k: int| 0 <= k < b.len() && is_result_of((#[trigger] b[k]).1, id);
        assert(is_result_of(a[k].1, id));
    }
}

proof fn lemma_same_calls(
    a: Seq<(Role, BlockView)>,
    b: Seq<(Role, BlockView)>,
    n: int,
    id: Seq<char>,
)
    requires
        0 <= n <= a.len(),
        b == a.take(n),
        forall|k: int| n <= k < a.len() ==> is_thinking((#[trigger] a[k]).1),
    ensures
        (exists|k: int|
            0 <= k < a.len() && (#[trigger] a[k]).0 == Role::Assistant && is_call_of(a[k].1, id))
            == (exists|k: int|
            0 <= k < b.len() && (#[trigger] b[k]).0 == Role::Assistant && is_call_of(b[k].1, id)),
{
    if exists|k: int|
        0 <= k < a.len() && (#[trigger] a[k]).0 == Role::Assistant && is_call_of(a[k].1, id) {
        let k = choose|k: int|
            0 <= k < a.len() && (#[trigger] a[k]).0 == Role::Assistant && is_call_of(a[k].1, id);
        assert(k < n);
        assert(b[k] == a[k]);
    }
    if exists|k: int|
        0 <= k < b.len() && (#[trigger] b[k]).0 == Role::Assistant && is_call_of(b[k].1, id) {
        let k = choose|k: int|
            0 <= k < b.len() && (#[trigger] b[k]).0 == Role::Assistant && is_call_of(b[k].1, id);
        assert(a[k] == b[k]);
    }
}

/// The repair drops loose ends and nothing else, and moves nothing: what outlives it is there in
/// its order and under its role, but for thinking of the assistant at the very end. Before it
/// stands a stub where it would begin with the assistant, and behind it one where it would end in
/// a tool result.
pub proof fn law_sanitizing_drops_only_loose_ends(ms: Seq<MessageView>) -> (r: (bool, bool, int))
    ensures
        ({
            let kept = tagged(ms).filter(outlives(ms));
            let (head, tail, n) = r;
            &&& 0 <= n <= kept.len()
            &&& forall|k: int|
                n <= k < kept.len() ==> (#[trigger] kept[k]).0 == Role::Assistant && (
                kept[k].1 is Thinking || kept[k].1 is RedactedThinking)
            &&& tagged(sanitized(ms)) == (if head {
                seq![(Role::User, BlockView::Text { text: RESUME_HEAD_SENTINEL@ })]
            } else {
                Seq::empty()
            }) + kept.take(n) + (if tail {
                seq![(Role::Assistant, BlockView::Text { text: RESUME_CONTINUATION_SENTINEL@ })]
            } else {
                Seq::empty()
            })
            &&& head ==> kept.len() > 0 && kept[0].0 == Role::Assistant
            &&& n > 0 && kept[0].0 == Role::Assistant ==> head
            &&& tail ==> n > 0 && kept[n - 1].0 == Role::User && kept[n - 1].1 is ToolResult
        }),
{
    let s = trailing_thinking_stripped(ms);
    let a = lemma_tagged_stripped(ms);
    let o = orphans_dropped(unresolved_dropped(s));
    let c = collapsed(o);
    let p = sentinels_inserted(c);
    let kept = tagged(ms).filter(outlives(ms));
    let first = tagged(s).filter(outlives(s));
    lemma_outlives_without_thinking(ms, s, a);
    lemma_drops_by_tags(s);
    lemma_tagged_collapsed(o);
    assert(tagged(c) == first);
    assert(kept.take(first.len() as int) =~= first);
    lemma_dropped_holds_something(s);
    lemma_collapsed_shape(o);
    let (head, tail) = lemma_patched_tags(c);
    let b = lemma_tagged_stripped(p);
    let (lead, close) = (lead_tags(head), close_tags(tail));
    let n = lemma_stripped_between(tagged(p), lead, first, close, b, tail);
    assert(first.take(n) =~= kept.take(n));
    assert forall|k: int| n <= k < kept.len() implies (#[trigger] kept[k]).0 == Role::Assistant && (
    kept[k].1 is Thinking || kept[k].1 is RedactedThinking) by {
        if k < first.len() {
            assert(kept[k] == first[k]);
        } else {
            assert(kept[k] == tagged(ms).skip(a)[k - first.len()]);
            assert(kept[k] == tagged(ms)[a + k - first.len()]);
        }
    }
    if first.len() > 0 {
        assert(kept[0] == first[0]);
    }
    if tail {
        assert(kept[n - 1] == first.last());
    }
    (head, tail, n)
}

spec fn lead_tags(head: bool) -> Seq<(Role, BlockView)> {
    if head {
        seq![(Role::User, BlockView::Text { text: RESUME_HEAD_SENTINEL@ })]
    } else {
        Seq::empty()
    }
}

spec fn close_tags(tail: bool) -> Seq<(Role, BlockView)> {
    if tail {
        seq![(Role::Assistant, BlockView::Text { text: RESUME_CONTINUATION_SENTINEL@ })]
    } else {
        Seq::empty()
    }
}

proof fn lemma_dropped_holds_something(s: Seq<MessageView>)
    ensures
        forall|i: int|
            0 <= i < orphans_dropped(unresolved_dropped(s)).len() ==> (
            #[trigger] orphans_dropped(unresolved_dropped(s))[i]).content.len() > 0,
{
    let u = unresolved_dropped(s);
    let o = orphans_dropped(u);
    let all = retain_all(u, Role::User, owed_in(blocks_of(u, Role::Assistant)));
    assert forall|i: int| 0 <= i < o.len() implies (#[trigger] o[i]).content.len() > 0 by {
        all.lemma_filter_pred(nonempty(), i);
    }
}

/// What the stubs add to a transcript without empty messages.
proof fn lemma_patched_tags(c: Seq<MessageView>) -> (r: (bool, bool))
    requires
        forall|i: int| 0 <= i < c.len() ==> (#[trigger] c[i]).content.len() > 0,
    ensures
        tagged(sentinels_inserted(c)) == lead_tags(r.0) + tagged(c) + close_tags(r.1),
        r.0 <==> tagged(c).len() > 0 && tagged(c)[0].0 == Role::Assistant,
        r.1 ==> tagged(c).len() > 0 && tagged(c).last().0 == Role::User && tagged(
            c,
        ).last().1 is ToolResult,
{
    let h = head_patched(c);
    let head = c.len() > 0 && c[0].role == Role::Assistant;
    let tail = h.len() > 0 && h.last().role == Role::User && only_results(h.last());
    let stub = text_message(Role::User, RESUME_HEAD_SENTINEL@);
    let end = text_message(Role::Assistant, RESUME_CONTINUATION_SENTINEL@);
    assert(tags(stub) =~= lead_tags(true));
    assert(tags(end) =~= close_tags(true));
    if c.len() > 0 {
        lemma_tagged_begins(c);
        assert(c.last() == c[c.len() - 1]);
        lemma_tagged_ends(c);
        assert(h.last() == c.last());
    }
    if head {
        lemma_tagged_first(stub, c);
    }
    assert(tagged(h) =~= lead_tags(head) + tagged(c));
    if tail {
        assert(h.push(end).drop_last() =~= h);
        assert(c.last().content[c.last().content.len() - 1] is ToolResult);
    }
    assert(tagged(sentinels_inserted(c)) =~= lead_tags(head) + tagged(c) + close_tags(tail));
    (head, tail)
}

/// What is left where thinking is cut off behind the stubs.
proof fn lemma_stripped_between(
    q: Seq<(Role, BlockView)>,
    lead: Seq<(Role, BlockView)>,
    first: Seq<(Role, BlockView)>,
    close: Seq<(Role, BlockView)>,
    b: int,
    tail: bool,
) -> (n: int)
    requires
        q == lead + first + close,
        0 <= b <= q.len(),
        forall|k: int| b <= k < q.len() ==> is_thinking((#[trigger] q[k]).1) && q[k].0
            == Role::Assistant,
        lead.len() > 0 ==> !is_thinking(lead.last().1),
        tail ==> close.len() > 0 && !is_thinking(close.last().1),
        !tail ==> close.len() == 0,
    ensures
        0 <= n <= first.len(),
        q.take(b) == lead + first.take(n) + close,
        tail ==> n == first.len(),
        forall|k: int| n <= k < first.len() ==> is_thinking((#[trigger] first[k]).1) && first[k].0
            == Role::Assistant,
{
    if tail {
        assert(q[q.len() - 1] == close.last());
        assert(b == q.len());
        assert(first.take(first.len() as int) =~= first);
        assert(q.take(b) =~= q);
        first.len() as int
    } else {
        if b < lead.len() {
            assert(q[lead.len() - 1] == lead.last());
        }
        let n = b - lead.len();
        assert(q.take(b) =~= lead + first.take(n) + close);
        assert forall|k: int| n <= k < first.len() implies is_thinking((#[trigger] first[k]).1)
            && first[k].0 == Role::Assistant by {
            assert(first[k] == q[lead.len() + k]);
        }
        n
    }
}

proof fn lemma_tagged_begins(ms: Seq<MessageView>)
    requires
        ms.len() > 0,
        ms[0].content.len() > 0,
    ensures
        tagged(ms).len() > 0,
        tagged(ms)[0] == (ms[0].role, ms[0].content[0]),
{
    let rest = ms.drop_first();
    assert(seq![ms[0]] + rest =~= ms);
    lemma_tagged_first(ms[0], rest);
}

proof fn lemma_tagged_ends(ms: Seq<MessageView>)
    requires
        ms.len() > 0,
        ms.last().content.len() > 0,
    ensures
        tagged(ms).len() > 0,
        tagged(ms).last() == (ms.last().role, ms.last().content.last()),
{
}

/// Thinking at the end of the assistant's last message counts for nothing, and so does a last message
/// of the assistant that holds nothing else: the conversation is made valid as it is without them.
pub proof fn law_last_thoughts_count_for_nothing(
    ms: Seq<MessageView>,
    content: Seq<BlockView>,
    thought: BlockView,
    thoughts: Seq<BlockView>,
)
    requires
        thought is Thinking || thought is RedactedThinking,
        forall|i: int|
            0 <= i < thoughts.len() ==> (#[trigger] thoughts[i]) is Thinking
                || thoughts[i] is RedactedThinking,
    ensures
        sanitized(ms.push(MessageView { role: Role::Assistant, content: content.push(thought) }))
            == sanitized(ms.push(MessageView { role: Role::Assistant, content })),
        ms.len() == 0 || ms.last().role == Role::User ==> sanitized(
            ms.push(MessageView { role: Role::Assistant, content: thoughts }),
        ) == sanitized(ms),
{
    let more = MessageView { role: Role::Assistant, content: content.push(thought) };
    let less = MessageView { role: Role::Assistant, content };
    assert(ms.push(more).drop_last() =~= ms);
    assert(ms.push(less).drop_last() =~= ms);
    assert(content.push(thought).drop_last() =~= content);
    assert(trailing_thinking_stripped(ms.push(more)) =~= trailing_thinking_stripped(ms.push(less)));
    if ms.len() == 0 || ms.last().role == Role::User {
        let last = MessageView { role: Role::Assistant, content: thoughts };
        let none = MessageView { role: Role::Assistant, content: Seq::empty() };
        lemma_all_thoughts_off(thoughts);
        assert(ms.push(last).drop_last() =~= ms);
        assert(trailing_thinking_stripped(ms.push(last)) =~= ms.push(none));
        assert(trailing_thinking_stripped(ms) == ms);
        let more = ms.push(none);
        assert(more.drop_last() =~= ms);
        assert(all_blocks(more) =~= all_blocks(ms));
        let keep = resolved_in(all_blocks(ms));
        let x = unresolved_dropped(ms);
        let y = unresolved_dropped(more);
        lemma_nothing_retained(none, Role::Assistant, keep);
        assert(y =~= x.push(none));
        assert(y.drop_last() =~= x);
        assert(blocks_of(y, Role::Assistant) =~= blocks_of(x, Role::Assistant));
        let owed = owed_in(blocks_of(x, Role::Assistant));
        let a = retain_all(x, Role::User, owed);
        let b = retain_all(y, Role::User, owed);
        lemma_nothing_retained(none, Role::User, owed);
        assert(b =~= a.push(none));
        assert(b.drop_last() =~= a);
        reveal(Seq::filter);
        assert(!nonempty()(none));
        assert(b.filter(nonempty()) == a.filter(nonempty()));
    }
}

proof fn lemma_all_thoughts_off(thoughts: Seq<BlockView>)
    requires
        forall|i: int|
            0 <= i < thoughts.len() ==> (#[trigger] thoughts[i]) is Thinking
                || thoughts[i] is RedactedThinking,
    ensures
        without_trailing_thinking(thoughts) == Seq::<BlockView>::empty(),
    decreases thoughts.len(),
{
    if thoughts.len() == 0 {
        assert(thoughts =~= Seq::empty());
    } else {
        let t = thoughts.drop_last();
        assert(thoughts.last() == thoughts[thoughts.len() - 1]);
        assert forall|i: int| 0 <= i < t.len() implies (#[trigger] t[i]) is Thinking
            || t[i] is RedactedThinking by {
            assert(t[i] == thoughts[i]);
        }
        lemma_all_thoughts_off(t);
    }
}

proof fn lemma_nothing_retained(m: MessageView, role: Role, keep: spec_fn(BlockView) -> bool)
    requires
        m.content.len() == 0,
    ensures
        retain_in(m, role, keep) == m,
{
    reveal(Seq::filter);
    assert(m.content.filter(keep) =~= m.content);
}

// ── The steps ──

/// A call is a tool use of either kind with its identifier, and an answer to it a result with that
/// identifier; no other block is either.
pub proof fn law_calls_and_answers(
    id: Seq<char>,
    other: Seq<char>,
    name: Seq<char>,
    input: serde_json::Value,
    content: Seq<char>,
    is_error: bool,
    b: BlockView,
)
    ensures
        is_call_of(BlockView::ToolUse { id, name, input }, other) <==> id == other,
        is_call_of(BlockView::ServerToolUse { id, name, input }, other) <==> id == other,
        is_result_of(BlockView::ToolResult { tool_use_id: id, content, is_error }, other) <==> id
            == other,
        !(b is ToolUse || b is ServerToolUse) ==> !is_call_of(b, id),
        !(b is ToolResult) ==> !is_result_of(b, id),
{
}

/// Something is called or answered where a block among them calls or answers it, wherever it stands.
pub proof fn law_called_and_answered_anywhere(
    blocks: Seq<BlockView>,
    more: Seq<BlockView>,
    b: BlockView,
    id: Seq<char>,
)
    ensures
        called(blocks + seq![b] + more, id) <==> called(blocks, id) || is_call_of(b, id) || called(
            more,
            id,
        ),
        answered(blocks + seq![b] + more, id) <==> answered(blocks, id) || is_result_of(b, id)
            || answered(more, id),
        !called(Seq::empty(), id),
        !answered(Seq::empty(), id),
{
    let all = blocks + seq![b] + more;
    let n = blocks.len() as int;
    assert(all[n] == b);
    assert(forall|k: int| 0 <= k < n ==> #[trigger] all[k] == blocks[k]);
    assert(forall|k: int| n < k < all.len() ==> #[trigger] all[k] == more[k - n - 1]);
    if called(blocks, id) {
        let k = choose|k: int| 0 <= k < blocks.len() && is_call_of(#[trigger] blocks[k], id);
        assert(is_call_of(all[k], id));
    }
    if called(more, id) {
        let k = choose|k: int| 0 <= k < more.len() && is_call_of(#[trigger] more[k], id);
        assert(is_call_of(all[n + 1 + k], id));
    }
    if called(all, id) {
        let k = choose|k: int| 0 <= k < all.len() && is_call_of(#[trigger] all[k], id);
        if k < n {
            assert(is_call_of(blocks[k], id));
        } else if k > n {
            assert(is_call_of(more[k - n - 1], id));
        }
    }
    if answered(blocks, id) {
        let k = choose|k: int| 0 <= k < blocks.len() && is_result_of(#[trigger] blocks[k], id);
        assert(is_result_of(all[k], id));
    }
    if answered(more, id) {
        let k = choose|k: int| 0 <= k < more.len() && is_result_of(#[trigger] more[k], id);
        assert(is_result_of(all[n + 1 + k], id));
    }
    if answered(all, id) {
        let k = choose|k: int| 0 <= k < all.len() && is_result_of(#[trigger] all[k], id);
        if k < n {
            assert(is_result_of(blocks[k], id));
        } else if k > n {
            assert(is_result_of(more[k - n - 1], id));
        }
    }
}

/// Whether a block of the assistant is no call, or is answered somewhere in `ms`.
pub open spec fn is_no_loose_call(ms: Seq<MessageView>) -> spec_fn((Role, BlockView)) -> bool {
    |t: (Role, BlockView)|
        match t {
            (Role::Assistant, BlockView::ToolUse { id, .. }) => answered(all_blocks(ms), id),
            (Role::Assistant, BlockView::ServerToolUse { id, .. }) => answered(all_blocks(ms), id),
            _ => true,
        }
}

/// Whether a block of the user is no result, or the assistant asked for it in `ms`.
pub open spec fn is_no_loose_result(ms: Seq<MessageView>) -> spec_fn((Role, BlockView)) -> bool {
    |t: (Role, BlockView)|
        match t {
            (Role::User, BlockView::ToolResult { tool_use_id, .. }) => exists|k: int|
                0 <= k < tagged(ms).len() && (#[trigger] tagged(ms)[k]).0 == Role::Assistant
                    && is_call_of(tagged(ms)[k].1, tool_use_id),
            _ => true,
        }
}

/// The first step drops the calls of the assistant that nothing answers, and nothing else: every
/// message stays, and those of the user stay as they are.
pub proof fn law_unanswered_calls_are_dropped(ms: Seq<MessageView>)
    ensures
        tagged(unresolved_dropped(ms)) == tagged(ms).filter(is_no_loose_call(ms)),
        unresolved_dropped(ms).len() == ms.len(),
        forall|i: int|
            0 <= i < ms.len() ==> (#[trigger] unresolved_dropped(ms)[i]).role == ms[i].role && (
            ms[i].role == Role::User ==> unresolved_dropped(ms)[i] == ms[i]),
{
    let keep = resolved_in(all_blocks(ms));
    let f = |t: (Role, BlockView)| t.0 == Role::Assistant ==> keep(t.1);
    lemma_tagged_retained(ms, Role::Assistant, keep);
    let all = tagged(ms);
    assert forall|i: int| 0 <= i < all.len() implies f(#[trigger] all[i]) == is_no_loose_call(ms)(
        all[i],
    ) by {
        match all[i] {
            (Role::Assistant, b) => {},
            (Role::User, b) => {},
        }
    }
    lemma_filter_same(all, f, is_no_loose_call(ms));
}

/// The second step drops the results of the user that the assistant did not ask for, and the messages
/// that hold nothing, and nothing else.
pub proof fn law_orphan_results_are_dropped(ms: Seq<MessageView>)
    ensures
        tagged(orphans_dropped(ms)) == tagged(ms).filter(is_no_loose_result(ms)),
        forall|i: int|
            0 <= i < orphans_dropped(ms).len() ==> (#[trigger] orphans_dropped(
                ms,
            )[i]).content.len() > 0,
{
    let calls = blocks_of(ms, Role::Assistant);
    let keep = owed_in(calls);
    let f = |t: (Role, BlockView)| t.0 == Role::User ==> keep(t.1);
    let all = tagged(ms);
    lemma_tagged_retained(ms, Role::User, keep);
    lemma_tagged_nonempty(retain_all(ms, Role::User, keep));
    lemma_dropped_holds_something(ms);
    lemma_tagged_tells(ms);
    assert forall|i: int| 0 <= i < all.len() implies f(#[trigger] all[i]) == is_no_loose_result(
        ms,
    )(all[i]) by {
        match all[i] {
            (Role::User, BlockView::ToolResult { tool_use_id, .. }) => {
                if called(calls, tool_use_id) {
                    let k = choose|k: int|
                        0 <= k < calls.len() && is_call_of(#[trigger] calls[k], tool_use_id);
                    assert(calls.contains(calls[k]));
                    assert(all.contains((Role::Assistant, calls[k])));
                    let j = choose|j: int|
                        0 <= j < all.len() && all[j] == (Role::Assistant, calls[k]);
                    assert(all[j].0 == Role::Assistant && is_call_of(all[j].1, tool_use_id));
                }
                if is_no_loose_result(ms)(all[i]) {
                    let k = choose|k: int|
                        0 <= k < all.len() && (#[trigger] all[k]).0 == Role::Assistant
                            && is_call_of(all[k].1, tool_use_id);
                    assert(all.contains((Role::Assistant, all[k].1)));
                    assert(calls.contains(all[k].1));
                    let j = choose|j: int| 0 <= j < calls.len() && calls[j] == all[k].1;
                    assert(is_call_of(calls[j], tool_use_id));
                }
            },
            _ => {},
        }
    }
    lemma_filter_same(all, f, is_no_loose_result(ms));
}

/// The third step joins messages of one side that follow one another: the sides then alternate, and
/// every block is there, in its order and of its side.
pub proof fn law_sides_alternate_and_nothing_is_lost(ms: Seq<MessageView>)
    ensures
        alternates(collapsed(ms)),
        tagged(collapsed(ms)) == tagged(ms),
        alternates(ms) ==> collapsed(ms) == ms,
        (forall|i: int| 0 <= i < ms.len() ==> (#[trigger] ms[i]).content.len() > 0) ==> (forall|
            i: int,
        |
            0 <= i < collapsed(ms).len() ==> (#[trigger] collapsed(ms)[i]).content.len() > 0),
{
    lemma_collapsed_shape(ms);
    lemma_tagged_collapsed(ms);
    if alternates(ms) {
        lemma_collapsed_alternating(ms);
    }
}

/// The fourth step puts a note of the user before a conversation that the assistant begins, and one
/// of the assistant behind one that ends in results alone; all else stays.
pub proof fn law_notes_are_put_at_the_ends(ms: Seq<MessageView>)
    ensures
        ms.len() == 0 ==> sentinels_inserted(ms) == ms,
        ms.len() > 0 ==> ({
            let none = Seq::<MessageView>::empty();
            let head = if ms[0].role == Role::Assistant {
                seq![
                    MessageView {
                        role: Role::User,
                        content: seq![BlockView::Text { text: RESUME_HEAD_SENTINEL@ }],
                    },
                ]
            } else {
                none
            };
            let tail = if ms.last().role == Role::User && (forall|k: int|
                0 <= k < ms.last().content.len() ==> (
                #[trigger] ms.last().content[k]) is ToolResult) {
                seq![
                    MessageView {
                        role: Role::Assistant,
                        content: seq![BlockView::Text { text: RESUME_CONTINUATION_SENTINEL@ }],
                    },
                ]
            } else {
                none
            };
            sentinels_inserted(ms) == head + ms + tail
        }),
{
    if ms.len() > 0 {
        let h = head_patched(ms);
        assert(h.last() == ms.last());
        let none = Seq::<MessageView>::empty();
        assert(none + ms + none =~= ms);
        assert(h + none =~= h);
        if ms[0].role == Role::User {
            assert(h =~= none + ms);
        }
        if ms.last().role == Role::User && only_results(ms.last()) {
            let t = text_message(Role::Assistant, RESUME_CONTINUATION_SENTINEL@);
            assert(h.push(t) =~= h + seq![t]);
        }
    }
}

} // verus!
