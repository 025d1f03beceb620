use oxide_code::message::{ContentBlock, Message, Role};
use oxide_code::session::entry::{Entry, FileSnapshot, LastView, TitleSource};
use oxide_code::session::state::{
    extract_user_text, format_current_dir, header_with_id, parse_git_branch, truncate_title,
    SessionState, WriterRequest, WriterStatus,
};

const NOW: i128 = 1_000_000_000;

fn fresh() -> SessionState {
    SessionState::fresh("m", "/work".to_owned(), None, NOW)
}

/// Writes the entries to a file that always takes them.
fn flush(state: &mut SessionState, entries: Vec<Entry>) -> Vec<Entry> {
    let request = state.take_or_open_writer();
    let written = state.flush_entries(&request, entries, NOW);
    state.settle_flush(true);
    written
}

fn tool_result() -> ContentBlock {
    ContentBlock::ToolResult {
        tool_use_id: "t1".to_owned(),
        content: "output".to_owned(),
        is_error: false,
    }
}

fn snapshot(path: &str) -> FileSnapshot {
    FileSnapshot {
        path: path.to_owned(),
        content_hash: 7,
        mtime: 0,
        size: 3,
        last_view: LastView::Full,
        recorded_at: NOW,
    }
}

// ── queue_message_entries ──

#[test]
fn queue_message_entries_first_user_text_emits_title_then_message_and_seeds_ai_title() {
    let mut state = fresh();

    let (entries, seed) =
        state.queue_message_entries(&Message::user("Fix the auth bug"), NOW, false);

    assert_eq!(entries.len(), 2, "title + message");
    assert!(matches!(
        &entries[0],
        Entry::Title { title, .. } if title == "Fix the auth bug",
    ));
    assert!(matches!(&entries[1], Entry::Message { .. }));
    assert_eq!(seed.as_deref(), Some("Fix the auth bug"));
    assert!(state.first_user_prompt_seen());
    assert_eq!(state.message_count(), 1);
    assert!(state.last_message_uuid().is_some());
}

#[test]
fn queue_message_entries_subsequent_user_message_skips_title_and_chains_uuid() {
    let mut state = fresh();
    _ = state.queue_message_entries(&Message::user("first"), NOW, false);
    let first_tip = state.last_message_uuid().unwrap();

    let (entries, seed) = state.queue_message_entries(&Message::user("second"), NOW, false);

    assert_eq!(entries.len(), 1, "no second title");
    let Entry::Message {
        parent_uuid, uuid, ..
    } = &entries[0]
    else {
        panic!("expected Message, got {:?}", entries[0]);
    };
    assert_eq!(*parent_uuid, Some(first_tip), "chains to previous tip");
    assert_eq!(state.last_message_uuid(), Some(*uuid));
    assert!(seed.is_none(), "seed only fires once per session");
    assert_eq!(state.message_count(), 2);
}

#[test]
fn queue_message_entries_tool_result_only_user_does_not_seed_title() {
    let mut state = fresh();
    let msg = Message {
        role: Role::User,
        content: vec![ContentBlock::ToolResult {
            tool_use_id: "t".to_owned(),
            content: "out".to_owned(),
            is_error: false,
        }],
    };

    let (entries, seed) = state.queue_message_entries(&msg, NOW, false);

    assert_eq!(entries.len(), 1, "message only");
    assert!(matches!(&entries[0], Entry::Message { .. }));
    assert!(seed.is_none());
    assert!(
        !state.first_user_prompt_seen(),
        "tool-result-only does not consume the first-prompt slot",
    );
}

#[test]
fn queue_message_entries_assistant_message_skips_title() {
    let mut state = fresh();

    let (entries, seed) = state.queue_message_entries(&Message::assistant("hi"), NOW, false);

    assert_eq!(entries.len(), 1);
    assert!(seed.is_none());
    assert!(!state.first_user_prompt_seen());
}

#[test]
fn queue_message_entries_uses_a_new_uuid_each_time() {
    let mut state = fresh();
    _ = state.queue_message_entries(&Message::user("a"), NOW, false);
    let first = state.last_message_uuid();
    _ = state.queue_message_entries(&Message::user("a"), NOW, false);
    assert_ne!(first, state.last_message_uuid());
}

#[test]
fn queue_message_entries_as_writes_exactly_these_entries() {
    let mut state = fresh();
    let (entries, seed) =
        state.queue_message_entries_as(5, &Message::user("  hello\nworld"), NOW, false);
    assert_eq!(
        entries,
        vec![
            Entry::Title {
                title: "hello".to_owned(),
                source: TitleSource::FirstPrompt,
                updated_at: NOW,
            },
            Entry::Message {
                uuid: 5,
                parent_uuid: None,
                message: Message::user("  hello\nworld"),
                timestamp: NOW,
            },
        ],
    );
    assert_eq!(seed.as_deref(), Some("  hello\nworld"));

    let mut named = fresh();
    let (entries, seed) = named.queue_message_entries_as(6, &Message::user("hi"), NOW, true);
    assert_eq!(entries.len(), 1, "a title of the user's own wins");
    assert!(seed.is_none());
}

// ── finish_entries ──

#[test]
fn finish_entries_after_record_produces_summary_with_count() {
    let mut state = fresh();
    let (entries, _) = state.queue_message_entries(&Message::user("hello"), NOW, false);
    flush(&mut state, entries);

    let entries = state.finish_entries(Vec::new(), NOW);
    let Some(Entry::Summary { message_count, .. }) = entries.last() else {
        panic!("expected trailing Summary, got {entries:?}");
    };
    assert_eq!(*message_count, 1);
}

#[test]
fn finish_entries_pending_writer_is_empty_and_marks_finished() {
    // Nothing recorded → nothing to summarize, but `finished` still latches so a later
    // record cmd no-ops cleanly.
    let mut state = fresh();

    let entries = state.finish_entries(Vec::new(), NOW);

    assert!(entries.is_empty());
    assert!(state.is_finished());
}

#[test]
fn finish_entries_emits_one_file_snapshot_per_tracked_file() {
    let mut state = fresh();
    let (msgs, _) = state.queue_message_entries(&Message::user("hi"), NOW, false);
    flush(&mut state, msgs);

    let files = ["/tmp/a", "/tmp/b", "/tmp/c"].map(snapshot).into_iter().collect();
    let entries = state.finish_entries(files, NOW);
    let snapshot_count = entries
        .iter()
        .filter(|e| matches!(e, Entry::FileSnapshot { .. }))
        .count();
    assert_eq!(snapshot_count, 3);
    assert!(
        matches!(entries.last(), Some(Entry::Summary { .. })),
        "summary must come after every snapshot",
    );
}

#[test]
fn finish_entries_is_idempotent() {
    let mut state = fresh();
    let (entries, _) = state.queue_message_entries(&Message::user("hi"), NOW, false);
    flush(&mut state, entries);
    let _first = state.finish_entries(Vec::new(), NOW);

    let second = state.finish_entries(Vec::new(), NOW);

    assert!(second.is_empty(), "second call short-circuits");
    assert!(state.is_finished());
}

#[test]
fn finish_entries_skips_summary_on_empty_resume() {
    // Without this short-circuit, every noisy resume would append another summary line.
    let mut resumed = SessionState::resumed("id".to_owned(), Some(3), 1, true);

    let entries = resumed.finish_entries(Vec::new(), NOW);

    assert!(entries.is_empty(), "no new messages → no summary");
}

// ── flush_entries ──

#[test]
fn flush_entries_active_writer_flush_failure_transitions_to_broken() {
    let mut state = SessionState::resumed("id".to_owned(), None, 0, false);
    assert!(matches!(state.take_or_open_writer(), WriterRequest::Ready));
    state.settle_flush(false);
    assert!(
        matches!(state.writer_status(), WriterStatus::Broken),
        "flush failure on Active writer must transition to Broken",
    );
}

#[test]
fn flush_entries_broken_writer_reopens_file_and_appends() {
    // Reopen must hit the existing file, not create a fresh one.
    let mut state = fresh();
    let (entries, _) = state.queue_message_entries(&Message::user("first"), NOW, false);
    flush(&mut state, entries);
    assert!(matches!(state.writer_status(), WriterStatus::Active));
    _ = state.take_or_open_writer();
    state.settle_flush(false);

    let (entries, _) = state.queue_message_entries(&Message::user("second"), NOW, false);
    let request = state.take_or_open_writer();
    assert!(matches!(request, WriterRequest::Reopen));
    let written = state.flush_entries(&request, entries, NOW);
    state.settle_flush(true);

    assert_eq!(written.len(), 1, "the second message alone");
    assert!(
        matches!(state.writer_status(), WriterStatus::Active),
        "Broken must transition back to Active after a successful reopen",
    );
}

#[test]
fn flush_entries_pending_create_failure_keeps_pending_and_preserves_deferred_title() {
    // The next batch must ask for the file again rather than append to one that was never
    // made — and the deferred title must survive into the retry.
    let mut state = fresh();
    state
        .try_defer_title("Survives rollback".to_owned())
        .expect("fresh state must accept defer");
    let (entries, _) = state.queue_message_entries(&Message::user("first"), NOW, false);

    let request = state.take_or_open_writer();
    state.restore_writer(request);
    let WriterStatus::Pending {
        deferred_title: Some(restored),
        ..
    } = state.writer_status()
    else {
        panic!("create failure must leave Pending with deferred title intact");
    };
    assert_eq!(
        restored, "Survives rollback",
        "deferred title must survive rollback verbatim",
    );

    let written = flush(&mut state, entries);
    assert!(
        matches!(
            &written[0],
            Entry::Title { title, source: TitleSource::UserProvided, .. }
                if title == "Survives rollback",
        ),
        "deferred title reaches disk on retry: {written:?}",
    );
    assert!(
        state.try_defer_title("late".to_owned()).is_err(),
        "nothing is deferred once the file is there",
    );
}

#[test]
fn nothing_is_written_where_there_is_nothing_to_write() {
    let mut state = fresh();
    assert!(state.start_flush(Vec::new(), NOW).is_none());
    assert!(matches!(state.writer_status(), WriterStatus::Pending { .. }));
}

#[test]
fn compaction_is_counted_from_once_it_is_written() {
    let mut state = SessionState::resumed("id".to_owned(), Some(3), 12, true);
    let entries = state.compact_entries_as(9, "sum", Some("short".to_owned()), Message::user("sum"), NOW);
    assert_eq!(
        entries,
        vec![
            Entry::Compact {
                summary: "sum".to_owned(),
                instructions: Some("short".to_owned()),
                timestamp: NOW,
            },
            Entry::Message {
                uuid: 9,
                parent_uuid: None,
                message: Message::user("sum"),
                timestamp: NOW,
            },
        ],
    );
    assert_eq!(state.message_count(), 12);
    state.commit_compact(9);
    assert_eq!(state.message_count(), 1);
    assert_eq!(state.last_message_uuid(), Some(9));
}

// ── Headers ──

#[test]
fn headers_carry_the_identifier_in_its_usual_form() {
    let (id, header) = header_with_id(
        0x0011_2233_4455_6677_8899_aabb_ccdd_eeff,
        "m",
        "/work".to_owned(),
        Some("main".to_owned()),
        NOW,
    );
    assert_eq!(id, "00112233-4455-6677-8899-aabbccddeeff");
    assert_eq!(
        header,
        Entry::Header {
            session_id: id,
            cwd: "/work".to_owned(),
            model: "m".to_owned(),
            created_at: NOW,
            version: 1,
            git_branch: Some("main".to_owned()),
        },
    );
    assert_ne!(fresh().session_id(), fresh().session_id());
    assert!(uuid::Uuid::parse_str(fresh().session_id()).is_ok());
}

// ── parse_git_branch ──

#[test]
fn parse_git_branch_keeps_branch_names_and_drops_everything_else() {
    // Trailing newline trimmed so the metadata column doesn't render `\n`.
    assert_eq!(
        parse_git_branch(true, b"feat/login\n"),
        Some("feat/login".to_owned())
    );
    // Non-zero exit (not-a-repo, missing git, ...) collapses to None.
    assert_eq!(parse_git_branch(false, b"main\n"), None);
    assert_eq!(parse_git_branch(true, &[0xff, 0xfe, b'\n']), None);
    assert_eq!(parse_git_branch(true, b""), None);
    assert_eq!(parse_git_branch(true, b"   \n"), None);
    // `HEAD` is rev-parse's detached-HEAD output — useless in the picker.
    assert_eq!(parse_git_branch(true, b"HEAD\n"), None);
}

// ── format_current_dir ──

#[test]
fn format_current_dir_ok_renders_path() {
    assert_eq!(format_current_dir(Ok("/tmp/x".to_owned())), "/tmp/x");
}

#[test]
fn format_current_dir_err_falls_back_to_unknown() {
    assert_eq!(format_current_dir(Err("gone".to_owned())), "<unknown>");
}

// ── extract_user_text ──

#[test]
fn extract_user_text_returns_first_non_empty_text_from_user_role_only() {
    let user_with_only_blank = Message {
        role: Role::User,
        content: vec![ContentBlock::Text {
            text: "  ".to_owned(),
        }],
    };
    let user_with_only_tool_result = Message {
        role: Role::User,
        content: vec![tool_result()],
    };
    let user_with_text_after_tool_result = Message {
        role: Role::User,
        content: vec![
            tool_result(),
            ContentBlock::Text {
                text: "follow-up".to_owned(),
            },
        ],
    };

    assert_eq!(extract_user_text(&Message::user("hello")), Some("hello"));
    assert_eq!(extract_user_text(&Message::assistant("hello")), None);
    assert_eq!(extract_user_text(&user_with_only_blank), None);
    assert_eq!(extract_user_text(&user_with_only_tool_result), None);
    assert_eq!(
        extract_user_text(&user_with_text_after_tool_result),
        Some("follow-up"),
    );
}

#[test]
fn extract_user_text_from_user_message() {
    let msg = Message::user("hello");
    assert_eq!(extract_user_text(&msg), Some("hello"));
}

#[test]
fn extract_user_text_skips_assistant() {
    let msg = Message::assistant("hello");
    assert_eq!(extract_user_text(&msg), None);
}

#[test]
fn extract_user_text_skips_empty() {
    let msg = Message {
        role: Role::User,
        content: vec![ContentBlock::Text {
            text: "  ".to_owned(),
        }],
    };
    assert_eq!(extract_user_text(&msg), None);
}

#[test]
fn extract_user_text_returns_none_for_tool_result_only() {
    let msg = Message {
        role: Role::User,
        content: vec![tool_result()],
    };
    assert_eq!(extract_user_text(&msg), None);
}

#[test]
fn extract_user_text_finds_text_after_tool_result() {
    let msg = Message {
        role: Role::User,
        content: vec![
            tool_result(),
            ContentBlock::Text {
                text: "follow-up".to_owned(),
            },
        ],
    };
    assert_eq!(extract_user_text(&msg), Some("follow-up"));
}

// ── truncate_title ──

#[test]
fn truncate_title_returns_at_most_max_len_chars_after_first_line_trim() {
    assert_eq!(truncate_title("hello world", 60), "hello world");
    assert_eq!(truncate_title("", 60), "");
    assert_eq!(truncate_title("first line\nsecond line", 60), "first line");
    assert_eq!(truncate_title("  padded  ", 60), "padded");

    let exact = "a".repeat(60);
    assert_eq!(truncate_title(&exact, 60), exact);

    let long = "a".repeat(100);
    assert_eq!(truncate_title(&long, 20), format!("{}...", "a".repeat(17)));
}

#[test]
fn state_truncate_title_multibyte_respects_character_count() {
    // Exact char count: 57 é + "..." = 60, not "<= 60".
    let s = "\u{00e9}".repeat(61);
    let result = truncate_title(&s, 60);
    assert_eq!(result.chars().count(), 60);
    assert_eq!(result, format!("{}...", "\u{00e9}".repeat(57)));
}

#[test]
fn truncate_title_short_string_unchanged() {
    assert_eq!(truncate_title("hello world", 60), "hello world");
}

#[test]
fn truncate_title_exact_max_len_unchanged() {
    let s = "a".repeat(60);
    assert_eq!(truncate_title(&s, 60), s);
}

#[test]
fn truncate_title_long_string_adds_ellipsis() {
    let long = "a".repeat(100);
    let result = truncate_title(&long, 20);
    assert_eq!(result, format!("{}...", "a".repeat(17)));
}

#[test]
fn manager_truncate_title_multibyte_respects_character_count() {
    let s = "\u{00e9}".repeat(61);
    let result = truncate_title(&s, 60);
    // Exact char count: 57 é + "..." = 60, not "<= 60".
    assert_eq!(result.chars().count(), 60);
    assert_eq!(
        result,
        format!("{}...", "\u{00e9}".repeat(57)),
        "truncated body should be 57 é followed by ellipsis",
    );
}

#[test]
fn truncate_title_empty_string() {
    assert_eq!(truncate_title("", 60), "");
}

#[test]
fn truncate_title_takes_first_line_only() {
    assert_eq!(truncate_title("first line\nsecond line", 60), "first line");
}

#[test]
fn truncate_title_trims_whitespace() {
    assert_eq!(truncate_title("  padded  ", 60), "padded");
}
