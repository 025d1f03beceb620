//! Conversation messages and their content blocks.

use vstd::prelude::*;

verus! {

/// A JSON value, carried through unread.
#[verifier::external_type_specification]
#[verifier::external_body]
pub struct ExValue(serde_json::Value);

/// `serde_json::Value::clone`: the copy is the same JSON value.
pub assume_specification[ <serde_json::Value as Clone>::clone ](v: &serde_json::Value) -> (r:
    serde_json::Value)
    ensures
        r == *v,
;

/// Who speaks.
#[derive(Clone, Copy, Debug, PartialEq, Eq, Structural)]
pub enum Role {
    User,
    Assistant,
}

/// One block of a message.
#[derive(Debug, PartialEq)]
pub enum ContentBlock {
    Text { text: String },
    Thinking { thinking: String, signature: String },
    RedactedThinking { data: String },
    ToolUse { id: String, name: String, input: serde_json::Value },
    ServerToolUse { id: String, name: String, input: serde_json::Value },
    ToolResult { tool_use_id: String, content: String, is_error: bool },
}

/// A turn of the conversation.
#[derive(Debug, PartialEq)]
pub struct Message {
    pub role: Role,
    pub content: Vec<ContentBlock>,
}

/// A block by the characters of its strings.
#[verifier::ext_equal]
pub ghost enum BlockView {
    Text { text: Seq<char> },
    Thinking { thinking: Seq<char>, signature: Seq<char> },
    RedactedThinking { data: Seq<char> },
    ToolUse { id: Seq<char>, name: Seq<char>, input: serde_json::Value },
    ServerToolUse { id: Seq<char>, name: Seq<char>, input: serde_json::Value },
    ToolResult { tool_use_id: Seq<char>, content: Seq<char>, is_error: bool },
}

/// A message by its blocks.
#[verifier::ext_equal]
pub ghost struct MessageView {
    pub role: Role,
    pub content: Seq<BlockView>,
}

impl View for ContentBlock {
    type V = BlockView;

    open spec fn view(&self) -> BlockView {
        match *self {
            ContentBlock::Text { text } => BlockView::Text { text: text@ },
            ContentBlock::Thinking { thinking, signature } => BlockView::Thinking {
                thinking: thinking@,
                signature: signature@,
            },
            ContentBlock::RedactedThinking { data } => BlockView::RedactedThinking { data: data@ },
            ContentBlock::ToolUse { id, name, input } => BlockView::ToolUse {
                id: id@,
                name: name@,
                input,
            },
            ContentBlock::ServerToolUse { id, name, input } => BlockView::ServerToolUse {
                id: id@,
                name: name@,
                input,
            },
            ContentBlock::ToolResult { tool_use_id, content, is_error } => BlockView::ToolResult {
                tool_use_id: tool_use_id@,
                content: content@,
                is_error,
            },
        }
    }
}

/// The blocks of `v`, by their characters.
pub open spec fn block_views(v: Seq<ContentBlock>) -> Seq<BlockView> {
    v.map_values(|b: ContentBlock| b@)
}

impl View for Message {
    type V = MessageView;

    open spec fn view(&self) -> MessageView {
        MessageView { role: self.role, content: block_views(self.content@) }
    }
}

impl Clone for ContentBlock {
    fn clone(&self) -> (r: Self)
        ensures
            r@ == self@,
    {
        match self {
            ContentBlock::Text { text } => ContentBlock::Text { text: text.clone() },
            ContentBlock::Thinking { thinking, signature } => ContentBlock::Thinking {
                thinking: thinking.clone(),
                signature: signature.clone(),
            },
            ContentBlock::RedactedThinking { data } => ContentBlock::RedactedThinking {
                data: data.clone(),
            },
            ContentBlock::ToolUse { id, name, input } => ContentBlock::ToolUse {
                id: id.clone(),
                name: name.clone(),
                input: input.clone(),
            },
            ContentBlock::ServerToolUse { id, name, input } => ContentBlock::ServerToolUse {
                id: id.clone(),
                name: name.clone(),
                input: input.clone(),
            },
            ContentBlock::ToolResult { tool_use_id, content, is_error } => ContentBlock::ToolResult {
                tool_use_id: tool_use_id.clone(),
                content: content.clone(),
                is_error: *is_error,
            },
        }
    }
}

impl Clone for Message {
    fn clone(&self) -> (r: Self)
        ensures
            r@ == self@,
    {
        let mut content: Vec<ContentBlock> = Vec::new();
        let mut i: usize = 0;
        while i < self.content.len()
            invariant
                i <= self.content.len(),
                block_views(content@) =~= block_views(self.content@).take(i as int),
            decreases self.content.len() - i,
        {
            let b: ContentBlock = self.content[i].clone();
            assert(b@ == self.content@[i as int]@);
            let ghost prev = content@;
            content.push(b);
            assert(block_views(content@) =~= block_views(prev).push(b@));
            i = i + 1;
        }
        assert(block_views(content@) =~= block_views(self.content@));
        Message { role: self.role, content }
    }
}

/// The messages of `v`, by their characters.
pub open spec fn message_views(v: Seq<Message>) -> Seq<MessageView> {
    v.map_values(|m: Message| m@)
}

/// A message of one text block.
pub open spec fn text_message(role: Role, text: Seq<char>) -> MessageView {
    MessageView { role, content: seq![BlockView::Text { text }] }
}

impl Message {
    /// A user message of one text block.
    pub fn user(text: &str) -> (r: Message)
        ensures
            r@ == text_message(Role::User, text@),
    {
        let m: Message = Message {
            role: Role::User,
            content: vec![ContentBlock::Text { text: text.to_owned() }],
        };
        assert(m@.content =~= text_message(Role::User, text@).content);
        m
    }

    /// An assistant message of one text block.
    pub fn assistant(text: &str) -> (r: Message)
        ensures
            r@ == text_message(Role::Assistant, text@),
    {
        let m: Message = Message {
            role: Role::Assistant,
            content: vec![ContentBlock::Text { text: text.to_owned() }],
        };
        assert(m@.content =~= text_message(Role::Assistant, text@).content);
        m
    }
}

/// Whether `b` is a thinking block, redacted or not.
pub open spec fn is_thinking(b: BlockView) -> bool {
    b is Thinking || b is RedactedThinking
}

/// `blocks` without the thinking blocks at its end.
pub open spec fn without_trailing_thinking(blocks: Seq<BlockView>) -> Seq<BlockView>
    decreases blocks.len(),
{
    if blocks.len() > 0 && is_thinking(blocks.last()) {
        without_trailing_thinking(blocks.drop_last())
    } else {
        blocks
    }
}

/// `ms`, where the last message, if it is the assistant's, ends in no thinking block.
pub open spec fn trailing_thinking_stripped(ms: Seq<MessageView>) -> Seq<MessageView> {
    if ms.len() > 0 && ms.last().role == Role::Assistant {
        ms.drop_last().push(
            MessageView {
                role: Role::Assistant,
                content: without_trailing_thinking(ms.last().content),
            },
        )
    } else {
        ms
    }
}

/// Takes the thinking blocks off the end of a trailing assistant message. The message
/// itself stays, even with nothing left in it.
pub fn strip_trailing_thinking(messages: &mut Vec<Message>)
    ensures
        message_views(final(messages)@) == trailing_thinking_stripped(message_views(old(messages)@)),
{
    let ghost before = messages@;
    match messages.pop() {
        None => {},
        Some(last) => {
            let mut last: Message = last;
            if last.role == Role::Assistant {
                let ghost start = last;
                while last.content.len() > 0 && is_thinking_block(
                    &last.content[last.content.len() - 1],
                )
                    invariant
                        last.role == Role::Assistant,
                        without_trailing_thinking(last@.content) == without_trailing_thinking(
                            start@.content,
                        ),
                    decreases last.content.len(),
                {
                    let ghost prev = last@.content;
                    let _ = last.content.pop();
                    assert(last@.content =~= prev.drop_last());
                }
            }
            messages.push(last);
            proof {
                let b = message_views(before);
                assert(before.last()@ == b.last());
                assert(message_views(messages@) =~= b.drop_last().push(last@));
            }
        },
    }
}

/// Whether `b` is a thinking block, redacted or not.
fn is_thinking_block(b: &ContentBlock) -> (r: bool)
    ensures
        r == is_thinking(b@),
{
    match b {
        ContentBlock::Thinking { .. } => true,
        ContentBlock::RedactedThinking { .. } => true,
        _ => false,
    }
}

/// What is taken off the end of a conversation that the assistant ended are the thoughts that its
/// last message ends with, all of them and nothing else; any other conversation stays as it is.
pub proof fn law_trailing_thoughts_are_taken_off(ms: Seq<MessageView>) -> (n: int)
    ensures
        ms.len() == 0 || ms.last().role == Role::User ==> trailing_thinking_stripped(ms) == ms,
        ms.len() > 0 && ms.last().role == Role::Assistant ==> ({
            let r = trailing_thinking_stripped(ms);
            let was = ms.last().content;
            &&& r.len() == ms.len()
            &&& r.drop_last() == ms.drop_last()
            &&& r.last().role == Role::Assistant
            &&& 0 <= n <= was.len()
            &&& r.last().content == was.take(n)
            &&& forall|i: int|
                n <= i < was.len() ==> #[trigger] was[i] is Thinking || was[i] is RedactedThinking
            &&& n > 0 ==> !(was[n - 1] is Thinking) && !(was[n - 1] is RedactedThinking)
        }),
{
    if ms.len() > 0 {
        let r = trailing_thinking_stripped(ms);
        assert(ms.last().role == Role::Assistant ==> r.drop_last() =~= ms.drop_last());
        lemma_thoughts_off(ms.last().content)
    } else {
        0
    }
}

proof fn lemma_thoughts_off(blocks: Seq<BlockView>) -> (n: int)
    ensures
        0 <= n <= blocks.len(),
        without_trailing_thinking(blocks) == blocks.take(n),
        forall|i: int|
            n <= i < blocks.len() ==> #[trigger] blocks[i] is Thinking
                || blocks[i] is RedactedThinking,
        n > 0 ==> !(blocks[n - 1] is Thinking) && !(blocks[n - 1] is RedactedThinking),
    decreases blocks.len(),
{
    if blocks.len() > 0 && is_thinking(blocks.last()) {
        let t = blocks.drop_last();
        let n = lemma_thoughts_off(t);
        assert(t.take(n) =~= blocks.take(n));
        assert forall|i: int| n <= i < blocks.len() implies #[trigger] blocks[i] is Thinking
            || blocks[i] is RedactedThinking by {
            if i < t.len() {
                assert(t[i] == blocks[i]);
            }
        }
        if n > 0 {
            assert(t[n - 1] == blocks[n - 1]);
        }
        n
    } else {
        assert(blocks.take(blocks.len() as int) =~= blocks);
        blocks.len() as int
    }
}

} // verus!
