use oxide_code::message::{ContentBlock, Message, Role};
use oxide_code::session::entry::{Entry, SessionInfo, TitleSource, ToolMetadata};
use oxide_code::session::store::{
    find_session_in, find_session_path, header_line, is_session_file, load_session_data, new_file_name, project_dir,
    read_lines, read_session_info, scan_lines, read_session_id, session_filename,
    sort_sessions_recent_first, validate_session_id, InfoLine, MetadataTable, StoreError,
};

const SECOND: i128 = 1_000_000_000;

fn header(id: &str) -> Entry {
    Entry::Header {
        session_id: id.to_owned(),
        cwd: "/work".to_owned(),
        model: "m".to_owned(),
        created_at: 10 * SECOND,
        version: 1,
        git_branch: None,
    }
}

fn message(uuid: u128, parent_uuid: Option<u128>, timestamp: i128, text: &str) -> Entry {
    Entry::Message { uuid, parent_uuid, message: Message::user(text), timestamp }
}

fn title(text: &str, updated_at: i128) -> Entry {
    Entry::Title { title: text.to_owned(), source: TitleSource::AiGenerated, updated_at }
}

fn is_text(message: &Message, want: &str) -> bool {
    matches!(&message.content[0], ContentBlock::Text { text } if text == want)
}

// ── Names ──

#[test]
fn create_rejects_non_header_entry() {
    assert_eq!(new_file_name(&message(1, None, 0, "hi")), Err(StoreError::ExpectedHeader));
    assert_eq!(new_file_name(&header("existing")), Ok("10-existing.jsonl".to_owned()));
}

#[test]
fn load_session_data_rejects_malicious_session_ids() {
    for id in [
        "",
        "../etc/passwd",
        r"..\..\etc\passwd",
        "session\0evil",
        "foo:bar",
        "foo|bar",
        "foo*",
        &"a".repeat(65),
    ] {
        assert_eq!(
            validate_session_id(id),
            Err(StoreError::InvalidSessionId(id.to_owned())),
            "{id:?}",
        );
    }
    assert_eq!(validate_session_id(&"a".repeat(64)), Ok(()));
    assert_eq!(validate_session_id("00112233-4455-6677-8899-aabbccddeeff"), Ok(()));
}

#[test]
fn session_files_are_found_by_their_identifier() {
    let names = vec![
        "notes.txt".to_owned(),
        session_filename("other", 5 * SECOND),
        session_filename("foreign", -SECOND / 2),
    ];
    assert_eq!(names[2], "-1-foreign.jsonl");
    assert_eq!(find_session_in(&names, "foreign"), Some(2));
    assert_eq!(find_session_in(&names, "ghost"), None);
    assert!(is_session_file(&names[1]));
    assert!(!is_session_file(&names[0]));
}

#[test]
fn find_session_path_falls_back_to_other_projects() {
    let home = vec!["1-own.jsonl".to_owned(), "2-both.jsonl".to_owned()];
    let other = vec!["3-both.jsonl".to_owned(), "4-foreign.jsonl".to_owned()];
    let dirs = vec![home, other];
    assert_eq!(find_session_path(&dirs, "foreign"), Ok((1, 1)));
    assert_eq!(find_session_path(&dirs, "both"), Ok((0, 1)), "the current project comes first");
}

#[test]
fn find_session_path_errors_for_unknown_session() {
    let err = find_session_path(&vec![], "ghost").unwrap_err();
    assert_eq!(err.message(), "session not found: ghost");
    assert_eq!(
        find_session_path(&vec![], "../x"),
        Err(StoreError::InvalidSessionId("../x".to_owned())),
    );
}

#[test]
fn projects_have_directories_of_their_own() {
    assert_eq!(project_dir(Some(b"/home/me/proj")), "home-me-proj");
    assert_eq!(project_dir(None), "_unknown_");
}

// ── Lines ──

#[test]
fn load_session_data_recovers_from_truncated_utf8_at_eof() {
    let mut bytes = b"one\ntwo\ncrab ".to_vec();
    // The first two bytes of a character of four.
    bytes.extend_from_slice(&[0xF0, 0x9F]);
    assert_eq!(read_lines(&bytes), vec!["one".to_owned(), "two".to_owned()]);
}

#[test]
fn load_session_data_recovers_from_missing_trailing_newline() {
    assert_eq!(read_lines(b"one\ntwo"), vec!["one".to_owned(), "two".to_owned()]);
}

#[test]
fn load_session_data_skips_corrupt_empty_and_unknown_lines() {
    let data = load_session_data(vec![
        header("messy"),
        Entry::Unknown,
        message(0xa1, None, 1, "ok"),
    ])
    .unwrap();
    assert_eq!(data.messages.len(), 1);
    assert_eq!(data.last_uuid, Some(0xa1));
}

#[test]
fn header_lines_are_first_lines() {
    assert_eq!(header_line(b"first\nsecond\n").as_deref(), Some("first"));
    assert_eq!(header_line(b"only").as_deref(), Some("only"));
    assert_eq!(header_line(b""), None);
    assert_eq!(header_line(&[0xFF, 10]), None);
}

#[test]
fn scans_keep_titles_and_summaries() {
    let bytes = b"{\"type\":\"header\"}\n{\"type\":\"title\",\"a\":1}\nnoise\n{\"type\":\"summary\",\"b\":2}\n";
    assert_eq!(
        scan_lines(bytes),
        vec![
            (InfoLine::Title, "{\"type\":\"title\",\"a\":1}".to_owned()),
            (InfoLine::Summary, "{\"type\":\"summary\",\"b\":2}".to_owned()),
        ],
    );
}

// ── load_session_data ──

#[test]
fn load_session_data_returns_only_messages_with_last_uuid() {
    let data = load_session_data(vec![
        header("load-test"),
        message(1, None, 1, "hello"),
        Entry::Message {
            uuid: 2,
            parent_uuid: Some(1),
            message: Message::assistant("hi there"),
            timestamp: 2,
        },
        title("greeting", 3),
        Entry::Summary { message_count: 2, updated_at: 4 },
    ])
    .unwrap();
    assert_eq!(data.messages.len(), 2);
    assert_eq!(data.last_uuid, Some(2));
    assert_eq!(data.messages[0].role, Role::User);
    assert!(is_text(&data.messages[0], "hello"));
    assert_eq!(data.messages[1].role, Role::Assistant);
    assert!(is_text(&data.messages[1], "hi there"));
    assert_eq!(data.title.map(|t| t.title).as_deref(), Some("greeting"));
}

#[test]
fn load_session_data_picks_newest_leaf_on_fork() {
    let data = load_session_data(vec![
        header("fork"),
        message(1, None, 1, "shared root"),
        message(2, Some(1), 2, "branch A (older leaf)"),
        message(3, Some(1), 3, "branch B (newer leaf)"),
    ])
    .unwrap();
    assert_eq!(data.last_uuid, Some(3), "tip should be the newer leaf");
    assert_eq!(data.messages.len(), 2);
    assert!(is_text(&data.messages[0], "shared root"));
    assert!(is_text(&data.messages[1], "branch B (newer leaf)"));
}

#[test]
fn load_session_data_terminates_at_orphan_parent_reference() {
    let data =
        load_session_data(vec![header("orphan"), message(1, Some(99), 1, "orphan tip")]).unwrap();
    assert_eq!(data.last_uuid, Some(1));
    assert_eq!(data.messages.len(), 1);
    assert!(is_text(&data.messages[0], "orphan tip"));
}

#[test]
fn load_session_data_breaks_chain_walk_on_cycle() {
    let data = load_session_data(vec![
        header("cycle"),
        message(1, Some(2), 1, "A"),
        message(2, Some(1), 2, "B"),
    ])
    .unwrap();
    assert!(data.messages.is_empty());
}

#[test]
fn load_session_data_prefers_later_duplicate_uuid() {
    let data = load_session_data(vec![
        header("dup"),
        message(1, None, 1, "first copy"),
        message(1, None, 5, "second copy"),
    ])
    .unwrap();
    assert_eq!(data.last_uuid, Some(1));
    assert_eq!(data.messages.len(), 1);
    assert!(is_text(&data.messages[0], "second copy"));
}

#[test]
fn load_session_data_rejects_future_format_version() {
    let future = Entry::Header {
        session_id: "future".to_owned(),
        cwd: "/".to_owned(),
        model: "m".to_owned(),
        created_at: 0,
        version: 2,
        git_branch: None,
    };
    let err = load_session_data(vec![future]).unwrap_err();
    assert_eq!(err, StoreError::NewerVersion(2));
    assert!(err.message().contains("newer than supported"), "{}", err.message());
}

#[test]
fn load_session_data_starts_anew_at_a_compaction() {
    let data = load_session_data(vec![
        header("compacted"),
        message(1, None, 1, "long ago"),
        Entry::Compact { summary: "s".to_owned(), instructions: None, timestamp: 2 },
        message(2, None, 2, "summary"),
        message(3, Some(2), 3, "next"),
    ])
    .unwrap();
    assert_eq!(data.last_uuid, Some(3));
    assert_eq!(data.messages.len(), 2);
    assert!(is_text(&data.messages[0], "summary"));
}

// ── read_session_id ──

#[test]
fn read_session_id_from_path_returns_header_session_id() {
    assert_eq!(read_session_id("x.jsonl", Some(header("abc-123"))), Ok("abc-123".to_owned()));
}

#[test]
fn read_session_id_from_path_rejects_non_header_first_line() {
    let err = read_session_id("x.jsonl", Some(message(1, None, 1, "hi"))).unwrap_err();
    assert_eq!(err.message(), "x.jsonl does not begin with a header");
}

#[test]
fn read_session_id_from_path_rejects_unparsable_first_line() {
    let err = read_session_id("x.jsonl", None).unwrap_err();
    assert_eq!(err.message(), "first line of x.jsonl is not a valid header");
}

// ── Listing ──

fn info(id: &str, last_active_at: i128) -> SessionInfo {
    read_session_info(header(id), Vec::new(), Some(last_active_at)).expect("a session")
}

fn ids(sessions: &[SessionInfo]) -> Vec<&str> {
    sessions.iter().map(|s| s.session_id.as_str()).collect()
}

#[test]
fn list_returns_sessions_in_mtime_order_newest_first() {
    let mut sessions = vec![info("aaa", 1), info("bbb", 3), info("ccc", 2)];
    sort_sessions_recent_first(&mut sessions);
    assert_eq!(ids(&sessions), vec!["bbb", "ccc", "aaa"]);
}

#[test]
fn list_picks_latest_title_when_re_appended() {
    let found = read_session_info(
        header("retitled"),
        vec![
            (InfoLine::Title, title("original prompt", 1)),
            (InfoLine::Title, title("AI generated", 2)),
            (InfoLine::Title, title("stale", 0)),
            (InfoLine::Summary, Entry::Summary { message_count: 2, updated_at: 3 }),
        ],
        None,
    )
    .unwrap();
    assert_eq!(found.title.expect("a title").title, "AI generated");
    assert_eq!(found.exit.expect("a summary").message_count, 2);
    assert_eq!(found.last_active_at, 10 * SECOND, "created then, where nothing else is known");
}

#[test]
fn list_works_without_title_or_summary() {
    let bare = info("bare", 4);
    assert_eq!(bare.session_id, "bare");
    assert_eq!(bare.last_active_at, 4);
    assert!(bare.title.is_none());
    assert!(bare.exit.is_none());
}

#[test]
fn list_skips_non_session_files_and_malformed_jsonl() {
    assert!(read_session_info(message(0, None, 0, "x"), Vec::new(), None).is_err());
    assert!(!is_session_file("notes.txt"));
}

// ── Metadata ──

#[test]
fn metadata_is_kept_by_identifier() {
    let named = |title: &str| ToolMetadata { title: Some(title.to_owned()), replacements: None };
    let table = MetadataTable::new()
        .insert("a".to_owned(), named("one"))
        .insert("b".to_owned(), named("two"))
        .insert("a".to_owned(), named("three"));
    assert_eq!(table.len(), 2);
    assert_eq!(table.get("a"), Some(&named("three")));
    assert_eq!(table.get("b"), Some(&named("two")));
    assert_eq!(table.get("c"), None);
}

#[test]
fn errors_are_told_in_words() {
    for (error, want) in [
        (StoreError::InvalidSessionId("a/b".to_owned()), "a/b"),
        (StoreError::ExpectedHeader, "expected Header entry"),
        (StoreError::NewerVersion(7), "7"),
        (StoreError::NotAHeader, "first line is not a header"),
    ] {
        assert!(error.message().contains(want), "{}", error.message());
    }
}

// ── Lines that are passed over ──

/// Reads the lines that stand for entries here: `m1` is a message, `?` an unknown kind.
fn read_toy(line: &str) -> Option<Entry> {
    match line {
        "h" => Some(header("sid")),
        "m1" => Some(message(1, None, SECOND, "one")),
        "m2" => Some(message(2, Some(1), 2 * SECOND, "two")),
        "t" => Some(title("named", SECOND)),
        "?" => Some(Entry::Unknown),
        _ => None,
    }
}

#[test]
fn passed_over_lines_change_nothing_that_is_loaded() {
    let load = |bytes: &[u8]| {
        let entries = read_lines(bytes).iter().filter_map(|l| read_toy(l)).collect();
        load_session_data(entries).expect("the session reads back")
    };
    let plain = load(b"h\nm1\nt\nm2\n");
    let padded = load(b"\nh\n\xff\xfe\nm1\n?\nno entry\nt\n\n\nm2\n");
    assert_eq!(padded.messages, plain.messages);
    assert_eq!(padded.messages.len(), 2);
    assert_eq!(padded.last_uuid, Some(2));
    assert_eq!(padded.last_uuid, plain.last_uuid);
    assert_eq!(padded.title.unwrap().title, "named");
    assert_eq!(plain.title.unwrap().title, "named");
}

#[test]
fn a_listing_and_a_load_tell_one_title() {
    let titles = [("old", 3), ("new", 9), ("as new", 9), ("older", 2)];
    let all = || {
        let mut entries = vec![header("sid")];
        entries.extend(titles.iter().map(|(text, at)| title(text, at * SECOND)));
        entries
    };
    let listed = all().into_iter().skip(1).map(|e| (InfoLine::Title, e)).collect();
    let info = read_session_info(header("sid"), listed, None).unwrap();
    let data = load_session_data(all()).unwrap();
    assert_eq!(info.title.unwrap().title, "new");
    assert_eq!(data.title.unwrap().title, "new");
}
