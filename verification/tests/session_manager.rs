use oxide_code::message::{ContentBlock, Message, Role};
use oxide_code::session::entry::{Entry, TitleSource, ToolMetadata};
use oxide_code::session::handle;
use oxide_code::session::manager::{
    log_session_err, RecordAction, RecordEvent, RecordJob, RecordPhase, SessionManager,
};
use oxide_code::session::sanitize::RESUME_CONTINUATION_SENTINEL;
use oxide_code::session::store::{load_session_data, SessionData};

const NOW: i128 = 1_000_000_000;

fn start() -> SessionManager {
    SessionManager::start(0xabc, "m", "/work".to_owned(), None, NOW)
}

fn job(message: Message, uuid: u128) -> RecordJob {
    RecordJob { message, now: NOW + uuid as i128, uuid, phase: RecordPhase::Starting }
}

/// Records a message in a file that takes every entry.
fn record(manager: &mut SessionManager, message: Message, uuid: u128, disk: &mut Vec<Entry>) {
    let mut job = job(message, uuid);
    loop {
        match manager.record_message(&mut job, RecordEvent::Done) {
            RecordAction::Create => disk.push(header()),
            RecordAction::Append(entry) => disk.push(entry),
            RecordAction::Recorded => return,
            RecordAction::GiveUp => panic!("the file takes every entry"),
        }
    }
}

fn header() -> Entry {
    Entry::Header {
        session_id: "0".to_owned(),
        cwd: "/work".to_owned(),
        model: "m".to_owned(),
        created_at: NOW,
        version: 1,
        git_branch: None,
    }
}

fn call(id: &str) -> ContentBlock {
    ContentBlock::ToolUse {
        id: id.to_owned(),
        name: "bash".to_owned(),
        input: serde_json::Value::Null,
    }
}

fn result(id: &str) -> Message {
    Message {
        role: Role::User,
        content: vec![ContentBlock::ToolResult {
            tool_use_id: id.to_owned(),
            content: "ok".to_owned(),
            is_error: false,
        }],
    }
}

fn recorded(messages: Vec<Message>) -> SessionData {
    let mut manager = start();
    let mut disk = Vec::new();
    for (i, message) in messages.into_iter().enumerate() {
        record(&mut manager, message, i as u128 + 1, &mut disk);
    }
    load_session_data(disk).expect("the session reads back")
}

fn links(disk: &[Entry]) -> Vec<(u128, Option<u128>)> {
    disk.iter()
        .filter_map(|e| match e {
            Entry::Message { uuid, parent_uuid, .. } => Some((*uuid, *parent_uuid)),
            _ => None,
        })
        .collect()
}

// ── Start ──

#[test]
fn manager_start_does_not_materialize_file_until_first_record() {
    let mut manager = start();
    assert!(matches!(manager.pending_header(), Some(Entry::Header { .. })));
    let mut job = job(Message::user("first"), 1);
    assert!(matches!(
        manager.record_message(&mut job, RecordEvent::Done),
        RecordAction::Create
    ));
    assert!(manager.pending_header().is_some(), "still pending until the file is made");
    manager.record_message(&mut job, RecordEvent::Done);
    assert!(manager.pending_header().is_none());
}

// ── Resume ──

#[test]
fn manager_resume_loads_messages_and_keeps_session_id() {
    let data = recorded(vec![Message::user("hello"), Message::assistant("hi")]);
    let resumed = SessionManager::from_resumed_data("sid".to_owned(), data).unwrap();
    assert_eq!(resumed.manager.session_id(), "sid");
    assert_eq!(resumed.messages, vec![Message::user("hello"), Message::assistant("hi")]);
    assert_eq!(resumed.title.as_deref(), Some("hello"));
}

#[test]
fn manager_resume_empty_session_returns_error() {
    let data = load_session_data(vec![header()]).unwrap();
    let err = SessionManager::from_resumed_data("sid".to_owned(), data).unwrap_err();
    assert_eq!(err, "session sid has no messages to resume");
}

#[test]
fn resume_drops_unresolved_trailing_tool_use() {
    let data = recorded(vec![
        Message::user("do X"),
        Message {
            role: Role::Assistant,
            content: vec![
                ContentBlock::Text { text: "Let me check".to_owned() },
                call("unresolved_tool"),
            ],
        },
    ]);
    let messages = SessionManager::from_resumed_data("sid".to_owned(), data).unwrap().messages;
    assert_eq!(messages, vec![Message::user("do X"), Message::assistant("Let me check")]);
}

#[test]
fn manager_resume_drops_assistant_message_with_only_unresolved_tool_use() {
    let data = recorded(vec![
        Message::user("do X"),
        Message { role: Role::Assistant, content: vec![call("unresolved")] },
    ]);
    let messages = SessionManager::from_resumed_data("sid".to_owned(), data).unwrap().messages;
    assert_eq!(messages.len(), 1, "assistant-only-tool-use should be dropped");
    assert_eq!(messages[0].role, Role::User);
}

#[test]
fn resume_errors_when_sanitize_empties_transcript() {
    let data = recorded(vec![Message { role: Role::Assistant, content: vec![call("unresolved")] }]);
    let err = SessionManager::from_resumed_data("sid".to_owned(), data).unwrap_err();
    assert!(err.contains("no messages to resume"), "got: {err}");
}

#[test]
fn resume_appends_sentinel_when_last_is_user_tool_results_only() {
    let data = recorded(vec![
        Message::user("do X"),
        Message { role: Role::Assistant, content: vec![call("t1")] },
        result("t1"),
    ]);
    let messages = SessionManager::from_resumed_data("sid".to_owned(), data).unwrap().messages;
    assert_eq!(messages.len(), 4, "sentinel should be appended");
    assert_eq!(messages[3], Message::assistant(RESUME_CONTINUATION_SENTINEL));
}

#[test]
fn manager_resume_preserves_parent_chain_on_next_record() {
    let data = recorded(vec![Message::user("hello"), Message::assistant("hi")]);
    let mut resumed = SessionManager::from_resumed_data("sid".to_owned(), data).unwrap().manager;
    let mut disk = Vec::new();
    record(&mut resumed, Message::user("follow up"), 9, &mut disk);
    assert_eq!(links(&disk), vec![(9, Some(2))]);
}

#[test]
fn resumed_sessions_go_on_with_their_state() {
    let data = recorded(vec![Message::user("hello"), Message::assistant("hi")]);
    let resumed = handle::from_resumed_data("sid".to_owned(), data).unwrap();
    assert_eq!(resumed.state.session_id(), "sid");
    assert_eq!(resumed.state.message_count(), 2);
    assert_eq!(resumed.state.last_message_uuid(), Some(2));
    assert!(resumed.state.first_user_prompt_seen());
    assert_eq!(resumed.title.as_deref(), Some("hello"));
    assert_eq!(resumed.tool_result_metadata.len(), 0);
    assert!(resumed.file_snapshots.is_empty());

    let empty = load_session_data(vec![header()]).unwrap();
    assert!(handle::from_resumed_data("sid".to_owned(), empty).is_err());
}

#[test]
fn resumed_session_keeps_the_title_that_it_has() {
    // One blank message, and a title that the user chose.
    let disk = || {
        vec![
            header(),
            Entry::Title {
                title: "chosen".to_owned(),
                source: TitleSource::UserProvided,
                updated_at: NOW,
            },
            Entry::Message {
                uuid: 1,
                parent_uuid: None,
                message: Message::user("   "),
                timestamp: NOW,
            },
        ]
    };
    let data = load_session_data(disk()).unwrap();
    let mut resumed = handle::from_resumed_data("sid".to_owned(), data).unwrap();
    assert!(resumed.state.first_user_prompt_seen());
    assert!(!resumed.state.is_fresh());
    let (entries, seed) =
        resumed.state.queue_message_entries_as(7, &Message::user("next"), NOW + 1, false);
    assert_eq!(entries.len(), 1, "the message alone");
    assert_eq!(seed, None);

    let data = load_session_data(disk()).unwrap();
    let mut manager = SessionManager::from_resumed_data("sid".to_owned(), data).unwrap().manager;
    let mut added = Vec::new();
    record(&mut manager, Message::user("next"), 8, &mut added);
    assert_eq!(added.len(), 1, "the message alone");
    assert!(matches!(added[0], Entry::Message { uuid: 8, .. }));
    assert_eq!(manager.take_ai_title_seed(), None);
}

#[test]
fn resumed_session_without_a_title_gets_one_from_its_first_text() {
    let data = load_session_data(vec![
        header(),
        Entry::Message {
            uuid: 1,
            parent_uuid: None,
            message: Message::user("   "),
            timestamp: NOW,
        },
    ])
    .unwrap();
    let mut manager = SessionManager::from_resumed_data("sid".to_owned(), data).unwrap().manager;
    let mut added = Vec::new();
    record(&mut manager, Message::user("next"), 8, &mut added);
    assert!(matches!(
        &added[..],
        [
            Entry::Title { title, source: TitleSource::FirstPrompt, .. },
            Entry::Message { uuid: 8, parent_uuid: Some(1), .. },
        ] if title == "next"
    ));
    assert_eq!(manager.take_ai_title_seed(), None);
    record(&mut manager, Message::user("later"), 9, &mut added);
    assert_eq!(added.len(), 3, "one title only");
}

// ── Recording ──

#[test]
fn record_message_increments_count_and_chains_parent() {
    let mut manager = start();
    let mut disk = Vec::new();
    record(&mut manager, Message::user("hello"), 1, &mut disk);
    record(&mut manager, Message::assistant("hi"), 2, &mut disk);
    assert_eq!(links(&disk), vec![(1, None), (2, Some(1))]);
    assert!(matches!(
        manager.finish(NOW),
        Some(Entry::Summary { message_count: 2, .. })
    ));
}

#[test]
fn manager_record_message_writes_title_before_first_user_message() {
    let mut manager = start();
    let mut disk = Vec::new();
    record(&mut manager, Message::user("First prompt"), 1, &mut disk);
    assert!(matches!(disk[0], Entry::Header { .. }));
    assert!(matches!(&disk[1], Entry::Title { title, .. } if title == "First prompt"));
    assert!(matches!(disk[2], Entry::Message { .. }));
}

#[test]
fn record_message_writes_title_only_once() {
    let mut manager = start();
    let mut disk = Vec::new();
    record(&mut manager, Message::user("first"), 1, &mut disk);
    record(&mut manager, Message::user("second"), 2, &mut disk);
    let titles = disk.iter().filter(|e| matches!(e, Entry::Title { .. })).count();
    assert_eq!(titles, 1);
}

#[test]
fn record_message_no_title_for_tool_result_only() {
    let mut manager = start();
    let mut disk = Vec::new();
    record(&mut manager, result("t"), 1, &mut disk);
    assert!(!disk.iter().any(|e| matches!(e, Entry::Title { .. })));
}

#[test]
fn a_failed_step_ends_the_recording() {
    let mut manager = start();
    let mut first = job(Message::user("first"), 1);
    manager.record_message(&mut first, RecordEvent::Done);
    assert!(matches!(
        manager.record_message(&mut first, RecordEvent::Failed),
        RecordAction::GiveUp
    ));
    assert!(manager.pending_header().is_some(), "the file is asked for again");

    let mut second = job(Message::user("second"), 2);
    manager.record_message(&mut second, RecordEvent::Done);
    manager.record_message(&mut second, RecordEvent::Done);
    manager.record_message(&mut second, RecordEvent::Failed);
    let mut disk = Vec::new();
    record(&mut manager, Message::user("third"), 3, &mut disk);
    assert_eq!(disk.len(), 1, "a title that failed is not written again");
    assert_eq!(links(&disk), vec![(3, None)]);
}

// ── Finish ──

#[test]
fn manager_finish_empty_session_leaves_no_file() {
    assert!(start().finish(NOW).is_none());
}

#[test]
fn finish_is_idempotent() {
    let mut manager = start();
    let mut disk = Vec::new();
    record(&mut manager, Message::user("hi"), 1, &mut disk);
    assert!(manager.finish(NOW).is_some());
    assert!(manager.finish(NOW).is_none());
}

#[test]
fn manager_finish_skips_summary_on_empty_resume() {
    let data = recorded(vec![Message::user("hello")]);
    let mut resumed = SessionManager::from_resumed_data("sid".to_owned(), data).unwrap().manager;
    assert!(resumed.finish(NOW).is_none());
}

// ── Titles and metadata ──

#[test]
fn take_ai_title_seed_yields_first_prompt_once_on_fresh_session() {
    let mut manager = start();
    let mut disk = Vec::new();
    // No messages recorded yet → no seed.
    assert!(manager.take_ai_title_seed().is_none());

    // First user message seeds; second call drains to None.
    record(&mut manager, Message::user("Fix login bug"), 1, &mut disk);
    assert_eq!(
        manager.take_ai_title_seed().as_deref(),
        Some("Fix login bug")
    );
    assert!(manager.take_ai_title_seed().is_none());

    // Subsequent user messages don't re-seed.
    record(&mut manager, Message::user("follow up"), 2, &mut disk);
    assert!(manager.take_ai_title_seed().is_none());
}

#[test]
fn take_ai_title_seed_is_empty_on_resume_even_when_file_has_first_prompt_only() {
    let data = recorded(vec![Message::user("hello")]);
    let mut resumed = SessionManager::from_resumed_data("sid".to_owned(), data).unwrap().manager;
    assert!(resumed.take_ai_title_seed().is_none());
}

fn edited() -> ToolMetadata {
    ToolMetadata { title: Some("Edited f.rs".to_owned()), replacements: Some(4) }
}

#[test]
fn record_tool_result_metadata_round_trips_title_and_replacements() {
    let mut manager = start();
    let mut disk = Vec::new();
    record(&mut manager, Message::user("edit something"), 1, &mut disk);
    let entry = manager.record_tool_result_metadata("t1", edited(), NOW).unwrap().expect("an entry");
    disk.push(entry);
    let data = load_session_data(disk).unwrap();
    let metadata = data
        .tool_result_metadata
        .get("t1")
        .expect("metadata entry should round-trip");
    assert_eq!(metadata.title.as_deref(), Some("Edited f.rs"));
    assert_eq!(metadata.replacements, Some(4));
}

#[test]
fn record_tool_result_metadata_skips_default_metadata() {
    let mut manager = start();
    record(&mut manager, Message::user("trigger"), 1, &mut Vec::new());
    let empty = ToolMetadata { title: None, replacements: None };
    assert_eq!(manager.record_tool_result_metadata("t1", empty, NOW), Ok(None));
}

#[test]
fn record_tool_result_metadata_errors_before_session_file_materializes() {
    let err = start().record_tool_result_metadata("t1", edited(), NOW).unwrap_err();
    assert!(err.contains("materialized"), "got: {err}");
}

#[test]
fn append_ai_title_errors_before_session_file_materializes() {
    let err = start().append_ai_title("whatever", NOW).unwrap_err();
    assert!(err.contains("materialized"), "got: {err}");
}

#[test]
fn manager_append_ai_title_writes_title_entry_and_supersedes_first_prompt_on_list() {
    let mut manager = start();
    let mut disk = Vec::new();
    record(&mut manager, Message::user("Fix login bug"), 1, &mut disk);
    disk.push(manager.append_ai_title("Fix auth flow for mobile", NOW + 100).unwrap());
    let title = load_session_data(disk).unwrap().title.expect("a title");
    assert_eq!(title.title, "Fix auth flow for mobile");
}

// ── Failures ──

#[test]
fn record_write_failure_first_call_returns_true_then_false() {
    let mut manager = start();
    assert!(
        manager.record_write_failure(),
        "first failure should be reported"
    );
    assert!(
        !manager.record_write_failure(),
        "subsequent failures should be silenced"
    );
    assert!(
        !manager.record_write_failure(),
        "flag is sticky across further calls"
    );
}

#[test]
fn log_session_err_is_noop_on_ok() {
    let mut manager = start();
    assert!(log_session_err(Ok(()), &mut manager, true).is_none());
    assert!(log_session_err(Err("real failure".to_owned()), &mut manager, true).is_some());
}

#[test]
fn log_session_err_err_without_sink_only_warns() {
    let mut manager = start();
    assert!(log_session_err(Err("write blew up".to_owned()), &mut manager, false).is_none());
    assert!(
        log_session_err(Err("second failure".to_owned()), &mut manager, true).is_none(),
        "subsequent failure must not re-notify",
    );
}

#[test]
fn log_session_err_first_failure_notifies_via_sink() {
    let mut manager = start();
    let err = "failed to write session file: permission denied".to_owned();
    assert_eq!(
        log_session_err(Err(err), &mut manager, true).as_deref(),
        Some(
            "Session write failed: failed to write session file: permission denied. Conversation \
             history may be incomplete; further write errors will be silent."
        ),
    );
}

#[test]
fn log_session_err_subsequent_failure_stays_silent() {
    let mut manager = start();
    let told = ["first", "second", "third"]
        .into_iter()
        .filter_map(|e| log_session_err(Err(e.to_owned()), &mut manager, true))
        .count();
    assert_eq!(told, 1);
}
