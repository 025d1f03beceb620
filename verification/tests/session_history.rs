use oxide_code::message::{ContentBlock, Message, Role};
use oxide_code::session::history::{walk_transcript, Interaction};

fn input(key: &str, value: &str) -> serde_json::Value {
    let mut map = serde_json::Map::new();
    map.insert(key.to_owned(), serde_json::Value::from(value));
    serde_json::Value::Object(map)
}

// ── walk_transcript ──

#[test]
fn walk_transcript_empty_yields_no_interactions() {
    assert!(walk_transcript(&vec![]).is_empty());
}

#[test]
fn walk_transcript_emits_user_and_assistant_text() {
    let messages = vec![Message::user("hi"), Message::assistant("hello")];
    let out = walk_transcript(&messages);
    assert!(matches!(&out[..], [
        Interaction::UserText(u),
        Interaction::AssistantText(a),
    ] if u == "hi" && a == "hello"));
}

#[test]
fn walk_transcript_joins_adjacent_text_blocks_with_newline() {
    let messages = vec![Message {
        role: Role::Assistant,
        content: vec![
            ContentBlock::Text {
                text: "first".to_owned(),
            },
            ContentBlock::Text {
                text: "second".to_owned(),
            },
        ],
    }];
    let out = walk_transcript(&messages);
    assert!(matches!(&out[..], [Interaction::AssistantText(t)] if t == "first\nsecond"));
}

#[test]
fn walk_transcript_drops_whitespace_only_text() {
    let messages = vec![Message {
        role: Role::User,
        content: vec![ContentBlock::Text {
            text: "  \n  ".to_owned(),
        }],
    }];
    assert!(walk_transcript(&messages).is_empty());
}

#[test]
fn walk_transcript_pairs_tool_call_and_result_inline() {
    let messages = vec![
        Message::user("ask"),
        Message {
            role: Role::Assistant,
            content: vec![ContentBlock::ToolUse {
                id: "t1".to_owned(),
                name: "bash".to_owned(),
                input: input("command", "ls"),
            }],
        },
        Message {
            role: Role::User,
            content: vec![ContentBlock::ToolResult {
                tool_use_id: "t1".to_owned(),
                content: "output".to_owned(),
                is_error: false,
            }],
        },
        Message::assistant("reply"),
    ];
    let out = walk_transcript(&messages);
    assert!(matches!(
        &out[..],
        [
            Interaction::UserText(_),
            Interaction::ToolCall {
                id: "t1",
                name: "bash",
                ..
            },
            Interaction::ToolResult {
                tool_use_id: "t1",
                content: "output",
                is_error: false
            },
            Interaction::AssistantText(_),
        ]
    ));
}

#[test]
fn walk_transcript_pairs_multiple_calls_in_order_even_across_batched_results() {
    // JSONL stores calls and results batched: Assistant[Call1, Call2]
    // then User[Result1, Result2]. Live rendering emits them paired:
    // Call1 → Result1 → Call2 → Result2. The transform must produce
    // the paired order regardless of JSONL batching.
    let messages = vec![
        Message {
            role: Role::Assistant,
            content: vec![
                ContentBlock::ToolUse {
                    id: "t1".to_owned(),
                    name: "read".to_owned(),
                    input: input("file_path", "a.rs"),
                },
                ContentBlock::ToolUse {
                    id: "t2".to_owned(),
                    name: "grep".to_owned(),
                    input: input("pattern", "TODO"),
                },
            ],
        },
        Message {
            role: Role::User,
            content: vec![
                ContentBlock::ToolResult {
                    tool_use_id: "t1".to_owned(),
                    content: "file a".to_owned(),
                    is_error: false,
                },
                ContentBlock::ToolResult {
                    tool_use_id: "t2".to_owned(),
                    content: "3 matches".to_owned(),
                    is_error: false,
                },
            ],
        },
    ];
    let out = walk_transcript(&messages);
    assert!(matches!(
        &out[..],
        [
            Interaction::ToolCall { id: "t1", .. },
            Interaction::ToolResult {
                tool_use_id: "t1",
                content: "file a",
                ..
            },
            Interaction::ToolCall { id: "t2", .. },
            Interaction::ToolResult {
                tool_use_id: "t2",
                content: "3 matches",
                ..
            },
        ]
    ));
}

#[test]
fn walk_transcript_preserves_orphan_tool_result_at_original_position() {
    // "ghost" has no matching call — emit with OrphanToolResult at its
    // original position so it doesn't inherit a sibling's label.
    let messages = vec![
        Message {
            role: Role::Assistant,
            content: vec![ContentBlock::ToolUse {
                id: "t1".to_owned(),
                name: "read".to_owned(),
                input: input("file_path", "a.rs"),
            }],
        },
        Message {
            role: Role::User,
            content: vec![
                ContentBlock::ToolResult {
                    tool_use_id: "t1".to_owned(),
                    content: "file a".to_owned(),
                    is_error: false,
                },
                ContentBlock::ToolResult {
                    tool_use_id: "ghost".to_owned(),
                    content: "stale".to_owned(),
                    is_error: true,
                },
            ],
        },
    ];
    let out = walk_transcript(&messages);
    assert!(matches!(
        &out[..],
        [
            Interaction::ToolCall { id: "t1", .. },
            Interaction::ToolResult {
                tool_use_id: "t1",
                ..
            },
            Interaction::OrphanToolResult {
                content: "stale",
                is_error: true,
            },
        ]
    ));
}

#[test]
fn walk_transcript_emits_server_tool_use_as_tool_call() {
    let messages = vec![Message {
        role: Role::Assistant,
        content: vec![ContentBlock::ServerToolUse {
            id: "srv1".to_owned(),
            name: "web_search".to_owned(),
            input: input("query", "rust"),
        }],
    }];
    let out = walk_transcript(&messages);
    assert!(matches!(
        &out[..],
        [Interaction::ToolCall {
            id: "srv1",
            name: "web_search",
            ..
        }]
    ));
}

#[test]
fn walk_transcript_flushes_text_before_tool_call() {
    let messages = vec![Message {
        role: Role::Assistant,
        content: vec![
            ContentBlock::Text {
                text: "Let me check".to_owned(),
            },
            ContentBlock::ToolUse {
                id: "t1".to_owned(),
                name: "bash".to_owned(),
                input: input("command", "ls"),
            },
            ContentBlock::Text {
                text: "Done".to_owned(),
            },
        ],
    }];
    let out = walk_transcript(&messages);
    assert!(matches!(&out[..], [
        Interaction::AssistantText(t1),
        Interaction::ToolCall { id: "t1", .. },
        Interaction::AssistantText(t2),
    ] if t1 == "Let me check" && t2 == "Done"));
}

#[test]
fn walk_transcript_emits_thinking_and_drops_redacted() {
    let messages = vec![Message {
        role: Role::Assistant,
        content: vec![
            ContentBlock::Thinking {
                thinking: "reasoning".to_owned(),
                signature: "sig".to_owned(),
            },
            ContentBlock::RedactedThinking {
                data: "opaque".to_owned(),
            },
            ContentBlock::Text {
                text: "answer".to_owned(),
            },
        ],
    }];
    let out = walk_transcript(&messages);
    assert!(matches!(&out[..], [
        Interaction::AssistantThinking(t),
        Interaction::AssistantText(a),
    ] if *t == "reasoning" && a == "answer"));
}

#[test]
fn walk_transcript_drops_whitespace_only_thinking() {
    let messages = vec![Message {
        role: Role::Assistant,
        content: vec![
            ContentBlock::Thinking {
                thinking: "  \n  ".to_owned(),
                signature: "sig".to_owned(),
            },
            ContentBlock::Text {
                text: "reply".to_owned(),
            },
        ],
    }];
    let out = walk_transcript(&messages);
    assert!(matches!(&out[..], [Interaction::AssistantText(t)] if t == "reply"));
}

#[test]
fn walk_transcript_orphan_result_in_user_only_message() {
    // Entire user message is an orphan — sanitization would normally
    // drop it, but the transform should emit a fallback regardless so
    // the UI path stays robust to corrupted transcripts.
    let messages = vec![Message {
        role: Role::User,
        content: vec![ContentBlock::ToolResult {
            tool_use_id: "missing".to_owned(),
            content: "stderr".to_owned(),
            is_error: true,
        }],
    }];
    let out = walk_transcript(&messages);
    assert!(matches!(
        &out[..],
        [Interaction::OrphanToolResult {
            content: "stderr",
            is_error: true,
        }]
    ));
}

#[test]
fn walk_transcript_hands_the_input_of_a_call_on() {
    let messages = vec![Message {
        role: Role::Assistant,
        content: vec![ContentBlock::ToolUse {
            id: "t1".to_owned(),
            name: "bash".to_owned(),
            input: input("command", "ls"),
        }],
    }];
    let out = walk_transcript(&messages);
    match &out[..] {
        [Interaction::ToolCall { input: got, .. }] => assert_eq!(**got, input("command", "ls")),
        other => panic!("expected one call, got {other:?}"),
    }
}

fn result(id: &str, content: &str) -> ContentBlock {
    ContentBlock::ToolResult {
        tool_use_id: id.to_owned(),
        content: content.to_owned(),
        is_error: false,
    }
}

#[test]
fn walk_transcript_pairs_a_result_that_stands_before_its_call() {
    let messages = vec![
        Message { role: Role::User, content: vec![result("t1", "out")] },
        Message {
            role: Role::Assistant,
            content: vec![ContentBlock::ToolUse {
                id: "t1".to_owned(),
                name: "bash".to_owned(),
                input: serde_json::Value::Null,
            }],
        },
    ];
    let out = walk_transcript(&messages);
    assert!(matches!(
        &out[..],
        [
            Interaction::ToolCall { id: "t1", name: "bash", .. },
            Interaction::ToolResult { tool_use_id: "t1", content: "out", is_error: false },
        ]
    ));
}

#[test]
fn walk_transcript_shows_every_result_without_a_call() {
    let messages = vec![Message {
        role: Role::User,
        content: vec![result("ghost", "one"), result("ghost", "two")],
    }];
    let out = walk_transcript(&messages);
    assert!(matches!(
        &out[..],
        [
            Interaction::OrphanToolResult { content: "one", .. },
            Interaction::OrphanToolResult { content: "two", .. },
        ]
    ));
}
