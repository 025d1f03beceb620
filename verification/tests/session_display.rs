use oxide_code::session::clock::{is_local_time, SECOND};
use oxide_code::session::display::{
    display_title, format_metadata_line, format_relative_time, id_prefix, metadata_line,
    relative_time, ID_PREFIX_WIDTH, SEPARATOR, UNTITLED_MARKER,
};
use oxide_code::session::entry::{SessionInfo, TitleInfo};

fn at(text: &str) -> i128 {
    time::OffsetDateTime::parse(text, &time::format_description::well_known::Rfc3339)
        .expect("a time")
        .unix_timestamp_nanos()
}

// ── id_prefix ──

#[test]
fn id_prefix_returns_first_eight_bytes_or_full_id_when_shorter() {
    // Pin both the long-id slicing and the short-id fallback so a future change to direct
    // `&id[..8]` slicing would panic on short ids and break this test.
    assert_eq!(id_prefix("abcdefghij"), "abcdefgh");
    assert_eq!(id_prefix("abcd"), "abcd");
    assert_eq!(id_prefix(""), "");
}

// ── display_title ──

#[test]
fn display_title_uses_title_when_present_else_untitled_marker() {
    let mut info = SessionInfo {
        session_id: "abc".to_owned(),
        cwd: String::new(),
        model: String::new(),
        created_at: at("2026-05-08T09:00:00Z"),
        last_active_at: at("2026-05-08T09:00:00Z"),
        title: None,
        exit: None,
        git_branch: None,
    };
    assert_eq!(display_title(&info), UNTITLED_MARKER);

    info.title = Some(TitleInfo {
        title: "Fix auth flow".to_owned(),
        updated_at: at("2026-05-08T09:00:00Z"),
    });
    assert_eq!(display_title(&info), "Fix auth flow");
}

// ── format_relative_time ──

#[test]
fn pluralizes_units_and_falls_back_to_iso_date_past_30_days() {
    let now = at("2026-05-08T12:00:00Z");
    assert_eq!(
        format_relative_time(now - 1 * SECOND, 0, now),
        "1 second ago",
    );
    assert_eq!(
        format_relative_time(now - 3 * SECOND, 0, now),
        "3 seconds ago",
    );
    assert_eq!(
        format_relative_time(now - 1 * 60 * SECOND, 0, now),
        "1 minute ago",
    );
    assert_eq!(
        format_relative_time(now - 2 * 60 * SECOND, 0, now),
        "2 minutes ago",
    );
    assert_eq!(
        format_relative_time(now - 1 * 3_600 * SECOND, 0, now),
        "1 hour ago",
    );
    assert_eq!(
        format_relative_time(now - 5 * 3_600 * SECOND, 0, now),
        "5 hours ago",
    );
    assert_eq!(
        format_relative_time(now - 1 * 86_400 * SECOND, 0, now),
        "1 day ago",
    );
    assert_eq!(
        format_relative_time(now - 3 * 86_400 * SECOND, 0, now),
        "3 days ago",
    );
    assert_eq!(
        format_relative_time(now - 60 * 86_400 * SECOND, 0, now),
        "2026-03-09",
    );
    assert_eq!(
        format_relative_time(now + 30 * SECOND, 0, now),
        "0 seconds ago",
        "future stamps collapse to 0 rather than negative",
    );
}

// ── format_metadata_line ──

#[test]
fn includes_msg_count_branch_and_project_when_supplied() {
    let id = "aabbccdd-eeff-1122-3344-556677889900";
    let line = format_metadata_line(
        id,
        at("2026-05-08T09:00:00Z"),
        0,
        14,
        Some("feat/login"),
        Some("~/work/oxide"),
    );
    assert!(line.contains(&id[..ID_PREFIX_WIDTH]), "id prefix: {line}");
    assert!(line.contains("14 msgs"), "plural msg count: {line}");
    assert!(line.contains("feat/login"), "branch: {line}");
    assert!(line.contains("~/work/oxide"), "project: {line}");
}

#[test]
fn singular_msg_unit_at_count_one() {
    let line = format_metadata_line(
        "aabbccdd-eeff-1122-3344-556677889900",
        at("2026-05-08T09:00:00Z"),
        0,
        1,
        None,
        None,
    );
    assert!(line.contains("1 msg"), "singular: {line}");
    assert!(!line.contains("1 msgs"), "no plural slip: {line}");
}

#[test]
fn omits_msg_count_branch_and_project_when_absent() {
    let line = format_metadata_line(
        "aabbccdd-eeff-1122-3344-556677889900",
        at("2026-05-08T09:00:00Z"),
        0,
        0,
        None,
        None,
    );
    assert!(!line.contains("msg"), "no msg segment: {line}");
    assert_eq!(
        line.matches(SEPARATOR).count(),
        1,
        "exactly one separator between prefix and when: {line}",
    );
}

// ── Exact lines ──

#[test]
fn metadata_line_joins_its_parts_in_order() {
    assert_eq!(
        metadata_line("aabbccdd-eeff", "3 days ago", 14, Some("main"), Some("~/x")),
        "aabbccdd · 3 days ago · 14 msgs · main · ~/x",
    );
    assert_eq!(metadata_line("abc", "now", 0, None, Some("~/x")), "abc · now · ~/x");
}

#[test]
fn relative_time_changes_unit_at_each_bound() {
    for (secs, want) in [
        (0, "0 seconds ago"),
        (59, "59 seconds ago"),
        (60, "1 minute ago"),
        (3_599, "59 minutes ago"),
        (3_600, "1 hour ago"),
        (86_399, "23 hours ago"),
        (86_400, "1 day ago"),
    ] {
        assert_eq!(relative_time(secs, "date"), want);
    }
    assert_eq!(relative_time(31 * 86_400, "2026-01-01"), "2026-01-01");
}

#[test]
fn dates_are_those_of_the_local_calendar() {
    let ts = at("2026-03-09T23:30:00Z");
    let now = at("2026-06-01T00:00:00Z");
    assert_eq!(format_relative_time(ts, 0, now), "2026-03-09");
    assert_eq!(format_relative_time(ts, 3_600, now), "2026-03-10");
    assert!(is_local_time(ts, 3_600));
    assert!(!is_local_time(i128::MAX, 0));
}
