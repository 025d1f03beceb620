use oxide_code::session::entry::{ExitInfo, SessionInfo, TitleInfo};
use oxide_code::session::list_view::{can_cut, render_sessions};
use oxide_code::width::truncate_to_width;
use unicode_width::UnicodeWidthStr;

fn at(text: &str) -> i128 {
    time::OffsetDateTime::parse(text, &time::format_description::well_known::Rfc3339)
        .expect("a time")
        .unix_timestamp_nanos()
}

fn session(session_id: &str, last_active_at: i128) -> SessionInfo {
    SessionInfo {
        session_id: session_id.to_owned(),
        cwd: "/work/project".to_owned(),
        model: "m".to_owned(),
        created_at: last_active_at,
        last_active_at,
        title: None,
        exit: None,
        git_branch: None,
    }
}

fn render_to_string(sessions: Vec<SessionInfo>, all: bool) -> String {
    render_with_width(sessions, all, None)
}

fn render_with_width(sessions: Vec<SessionInfo>, all: bool, term_width: Option<usize>) -> String {
    render_sessions(&sessions, all, 0, term_width, None)
}

// ── render_list ──

#[test]
fn render_list_empty_store_shows_no_sessions_notice() {
    assert_eq!(
        render_sessions(&Vec::new(), false, 0, None, None),
        "No sessions found in this project.\n",
    );
    assert_eq!(render_sessions(&Vec::new(), true, 0, None, None), "No sessions found.\n");
}

// ── render_sessions ──

#[test]
fn render_sessions_populated_row_has_header_prefix_and_title_defaults() {
    let s = session("0123456789abcdef", at("2026-04-18T13:45:00Z"));
    let out = render_to_string(vec![s], false);
    let mut lines = out.lines();
    assert_eq!(
        lines.next().unwrap(),
        "ID         Last Active         Msgs   Title"
    );
    let row = lines.next().unwrap();
    assert!(row.starts_with("01234567   "), "got: {row:?}");
    assert!(row.contains("2026-04-18 13:45"), "got: {row:?}");
    assert!(row.ends_with(" -      (untitled)"), "got: {row:?}");
    assert!(lines.next().is_none(), "unexpected trailing line");
}

#[test]
fn render_sessions_shows_message_count_and_title_when_available() {
    let mut s = session("feeddeadbeef0000", at("2026-04-18T09:00:00Z"));
    s.title = Some(TitleInfo {
        title: "Fix auth bug".to_owned(),
        updated_at: at("2026-04-18T09:05:00Z"),
    });
    s.exit = Some(ExitInfo {
        message_count: 42,
        updated_at: at("2026-04-18T09:30:00Z"),
    });
    let out = render_to_string(vec![s], false);
    let row = out.lines().nth(1).unwrap();
    assert!(row.contains(" 42     "), "got: {row:?}");
    assert!(row.ends_with("Fix auth bug"), "got: {row:?}");
}

#[test]
fn render_sessions_all_mode_inserts_project_column_aligned_to_widest_cwd() {
    let mut short = session("aaaaaaaaaaaa", at("2026-04-18T09:00:00Z"));
    short.cwd = "/a".to_owned();
    let mut longer = session("bbbbbbbbbbbb", at("2026-04-18T09:05:00Z"));
    longer.cwd = "/work/oxide-code".to_owned();
    let out = render_to_string(vec![short, longer], true);

    let mut lines = out.lines();
    let header = lines.next().unwrap();
    assert!(
        header.contains("Project"),
        "header should mention Project: {header:?}"
    );
    let rows: Vec<&str> = lines.collect();
    assert_eq!(rows.len(), 2);
    assert!(rows[0].contains("/a"), "row 0 missing cwd: {:?}", rows[0]);
    assert!(
        rows[1].contains("/work/oxide-code"),
        "row 1 missing cwd: {:?}",
        rows[1],
    );

    // Title slot must start at the same column across rows, aligned with the header.
    let header_title_col = header.find("Title").expect("header must contain Title");
    let row_title_cols: Vec<usize> = rows
        .iter()
        .map(|r| {
            r.rfind("(untitled)")
                .expect("row must render default title")
        })
        .collect();
    assert_eq!(row_title_cols[0], row_title_cols[1], "titles misaligned");
    assert_eq!(
        row_title_cols[0], header_title_col,
        "title column misaligned with header",
    );
}

#[test]
fn render_sessions_project_col_width_respects_maximum() {
    let long_cwd: String = "/deep/"
        .chars()
        .chain(std::iter::repeat_n('x', 80))
        .collect();
    let mut s = session("cccccccccccc", at("2026-04-18T09:00:00Z"));
    s.cwd = long_cwd.clone();
    let out = render_to_string(vec![s], true);

    let row = out.lines().nth(1).unwrap();
    let title_pos = row
        .rfind("(untitled)")
        .expect("row must render the default title");
    // cwd exceeds the 40-col cap; row should still render the full cwd (no data loss)
    // even though the title slips past the header column.
    assert!(row.contains(&long_cwd), "cwd missing from row: {row:?}");
    assert!(title_pos > 0);
}

#[test]
fn render_sessions_truncates_title_when_term_width_too_narrow() {
    let mut s = session("0123456789ab", at("2026-04-18T09:00:00Z"));
    s.title = Some(TitleInfo {
        title: "A very long session title that will not fit".to_owned(),
        updated_at: at("2026-04-18T09:05:00Z"),
    });
    // Prefix = 38, term_width = 60 → title budget = 22 (fits ~19 chars + `...`).
    let out = render_with_width(vec![s], false, Some(60));
    let row = out.lines().nth(1).unwrap();
    let title = row
        .split_once("-      ")
        .map(|(_, t)| t)
        .expect("row must have the Msgs cell");
    assert!(title.ends_with("..."), "expected ellipsis, got: {title:?}");
    assert!(
        title.width() <= 22,
        "title width {} exceeds budget for {title:?}",
        title.width(),
    );
}

#[test]
fn render_sessions_leaves_title_untruncated_without_term_width() {
    let mut s = session("0123456789ab", at("2026-04-18T09:00:00Z"));
    let full_title = "A very long session title that will not fit";
    s.title = Some(TitleInfo {
        title: full_title.to_owned(),
        updated_at: at("2026-04-18T09:05:00Z"),
    });
    let out = render_with_width(vec![s], false, None);
    assert!(
        out.contains(full_title),
        "full title should render when term_width is None: {out}",
    );
}

#[test]
fn render_sessions_skips_truncation_when_title_budget_below_minimum() {
    let mut s = session("0123456789ab", at("2026-04-18T09:00:00Z"));
    let full_title = "A very long session title that will not fit";
    s.title = Some(TitleInfo {
        title: full_title.to_owned(),
        updated_at: at("2026-04-18T09:05:00Z"),
    });
    // term_width 45 < prefix 38 + MIN_TITLE_BUDGET 12 → no truncation; terminal wraps.
    let out = render_with_width(vec![s], false, Some(45));
    assert!(
        out.contains(full_title),
        "full title should render when budget too small: {out}",
    );
}

#[test]
fn render_sessions_empty_project_scope_mentions_project() {
    let out = render_to_string(vec![], false);
    assert_eq!(out, "No sessions found in this project.\n");
}

#[test]
fn render_sessions_empty_all_scope_omits_project_qualifier() {
    let out = render_to_string(vec![], true);
    assert_eq!(out, "No sessions found.\n");
}

#[test]
fn render_sessions_writes_the_whole_table() {
    let mut s = session("0123456789ab", at("2026-04-18T13:45:00Z"));
    s.cwd = "/home/me/work".to_owned();
    let out = render_sessions(&vec![s], true, 3_600, None, Some("/home/me"));
    assert_eq!(
        out,
        "ID         Last Active         Msgs   Project  Title\n\
         01234567   2026-04-18 14:45    -      ~/work   (untitled)\n",
    );
}

#[test]
fn can_cut_tells_whether_eight_bytes_end_at_a_character() {
    assert!(can_cut("0123456789"));
    assert!(can_cut("abc"));
    assert!(!can_cut("0123456é"));
}

// ── Widths ──

#[test]
fn truncate_to_width_counts_columns() {
    assert_eq!(truncate_to_width("hello", 5), "hello");
    assert_eq!(truncate_to_width("hello world", 8), "hello...");
    assert_eq!(truncate_to_width("日本語日本語", 9), "日本語...");
    assert!(truncate_to_width("日本語日本語", 8).width() <= 8);
}
