use oxide_code::slash::command::SlashContext;
use oxide_code::slash::context::{test_session_info, ChatEntry, ChatLog};
use oxide_code::slash::diff::{
    collect_diff_in, execute_in, format_diff, format_size, git_args, git_failure_message,
    has_head, inside_git_repo, run_git_in, truncate, DiffNext, DiffStep, GitRun, MAX_BYTES,
};
use oxide_code::slash::dispatch::show_diff;

fn ended(success: bool, stdout: &str, stderr: &str) -> GitRun {
    GitRun::Ended {
        success,
        stdout: stdout.as_bytes().to_vec(),
        stderr: stderr.as_bytes().to_vec(),
    }
}

fn said(stdout: &str) -> GitRun {
    ended(true, stdout, "")
}

/// Puts the questions to answers in order, and gives what comes of them.
fn collect(answers: &[GitRun]) -> (Result<String, String>, Vec<String>) {
    let mut step = DiffStep::InsideWorkTree;
    let mut asked = Vec::new();
    for run in answers {
        asked.push(git_args(&step).join(" "));
        match collect_diff_in(step, run) {
            DiffNext::Ask(next) => step = next,
            DiffNext::Done(text) => return (Ok(text), asked),
            DiffNext::Failed(text) => return (Err(text), asked),
        }
    }
    panic!("more questions than answers: {asked:?}");
}

// ── execute_in ──

#[test]
fn execute_in_clean_repo_pushes_no_changes_marker() {
    // Empty diff → friendly marker, not a blank message.
    let mut chat = ChatLog::new();
    execute_in(String::new(), &mut chat);
    assert_eq!(chat.entry_count(), 1);
    assert!(!chat.last_is_error());
    assert_eq!(chat.last(), Some(&ChatEntry::System("Working tree clean.".to_owned())));
}

#[test]
fn execute_in_dirty_repo_pushes_diff_text() {
    // Pin exactly one block lands — no double-push between the
    // empty-trim guard and the body branch.
    let mut chat = ChatLog::new();
    let text = "Untracked files:\n  note.txt".to_owned();
    execute_in(text.clone(), &mut chat);
    assert_eq!(chat.entry_count(), 1);
    assert!(!chat.last_is_error());
    assert_eq!(chat.last(), Some(&ChatEntry::GitDiff(text)));
}

#[test]
fn execute_in_outside_a_repo_returns_err_string() {
    // Pin the actionable wording survives up to the conversation.
    let (text, _) = collect(&[ended(false, "", "fatal: not a git repository")]);
    let err = text.expect_err("must error outside a repo");
    assert!(err.contains("not inside a git repository"), "{err}");
    let mut ctx = SlashContext::new(test_session_info());
    show_diff("diff", Err(err), &mut ctx);
    assert_eq!(ctx.chat.last_error_text(), Some("/diff: not inside a git repository"));
}

// ── collect_diff_in ──

#[test]
fn collect_diff_in_fresh_repo_is_empty_when_nothing_staged() {
    // Pre-first-commit path: `has_head` is false, so we fall back to
    // `git diff --cached` (empty). Empty result drives the execute
    // path's "Working tree clean." marker.
    let (text, asked) = collect(&[
        said("true\n"),
        ended(false, "", "fatal: Needed a single revision"),
        said(""),
        said(""),
    ]);
    assert_eq!(text, Ok(String::new()));
    assert_eq!(
        asked,
        vec![
            "rev-parse --is-inside-work-tree",
            "rev-parse --verify HEAD",
            "diff --cached",
            "ls-files --others --exclude-standard",
        ],
    );
}

#[test]
fn collect_diff_in_fresh_repo_lists_untracked_files() {
    let (text, _) = collect(&[said("true\n"), ended(false, "", ""), said(""), said("new.txt\n")]);
    let body = text.unwrap();
    assert!(body.contains("Untracked files:"), "{body}");
    assert!(body.contains("new.txt"), "{body}");
}

#[test]
fn collect_diff_in_after_commit_shows_unstaged_changes() {
    let diff = "diff --git a/a.txt b/a.txt\n first\n+second\n";
    let (text, asked) = collect(&[said("true\n"), said("abc\n"), said(diff), said("")]);
    let body = text.unwrap();
    assert!(body.contains("a.txt"), "diff body missing path: {body}");
    assert!(body.contains("+second"), "diff body missing add: {body}");
    assert_eq!(asked[2], "diff HEAD");
}

#[test]
fn collect_diff_in_separates_tracked_changes_from_untracked_list() {
    let diff = "diff --git a/a.txt b/a.txt\n first\n+edit\n";
    let (text, _) = collect(&[said("true\n"), said("abc\n"), said(diff), said("untracked.txt\n")]);
    let body = text.unwrap();
    assert!(body.contains("+edit"), "{body}");
    assert!(body.contains("Untracked files:"), "{body}");
    assert!(body.contains("untracked.txt"), "{body}");
}

#[test]
fn collect_diff_in_returns_error_outside_a_repo() {
    for run in [ended(false, "", "fatal"), said("false\n")] {
        let (text, _) = collect(&[run]);
        assert_eq!(text, Err("not inside a git repository".to_owned()));
    }
}

#[test]
fn collect_diff_in_tells_what_git_said_when_it_fails() {
    let (text, _) = collect(&[said("true"), said("abc"), ended(false, "", "  fatal: bad\n")]);
    assert_eq!(text, Err("fatal: bad".to_owned()));
    let (text, _) = collect(&[
        said("true"),
        said("abc"),
        said(""),
        GitRun::NotStarted("no such file".to_owned()),
    ]);
    assert_eq!(
        text,
        Err("failed to spawn git ls-files --others --exclude-standard: no such file".to_owned()),
    );
}

// ── format_diff ──

#[test]
fn format_diff_tracked_only_renders_verbatim() {
    let body = format_diff("diff --git a/x b/x\n+foo\n", "");
    assert_eq!(body, "diff --git a/x b/x\n+foo");
}

#[test]
fn format_diff_keeps_trailing_whitespace_on_diff_lines() {
    // Real diffs can include trailing-whitespace edits; only git's
    // trailing newline gets stripped.
    let body = format_diff(" context  \n+added  \n", "");
    assert_eq!(body, " context  \n+added  ");
}

#[test]
fn format_diff_untracked_only_lists_files_under_heading() {
    let body = format_diff("", "new.rs\nother.rs\n");
    assert_eq!(body, "Untracked files:\n  new.rs\n  other.rs");
}

#[test]
fn format_diff_combined_separates_with_blank_line() {
    let body = format_diff("diff --git a/x b/x\n+foo\n", "new.rs\n");
    assert_eq!(
        body,
        "diff --git a/x b/x\n+foo\n\nUntracked files:\n  new.rs",
    );
}

#[test]
fn format_diff_both_empty_yields_empty_string() {
    // Pin so a trim-semantics change can't emit "Untracked files:"
    // alone with no body.
    assert_eq!(format_diff("", ""), "");
    assert_eq!(format_diff("   \n", "  \n"), "");
}

#[test]
fn format_diff_takes_carriage_returns_off_listed_files() {
    assert_eq!(format_diff("", "a\r\nb\n\nc"), "Untracked files:\n  a\n  b\n  \n  c");
}

// ── inside_git_repo ──

#[test]
fn inside_git_repo_returns_true_for_real_repo() {
    assert_eq!(inside_git_repo(&said("true\n")), Ok(true));
}

#[test]
fn inside_git_repo_returns_false_outside_a_repo() {
    assert_eq!(inside_git_repo(&ended(false, "", "fatal: not a git repository")), Ok(false));
    assert_eq!(inside_git_repo(&ended(false, "true\n", "")), Ok(false));
}

#[test]
fn inside_git_repo_tells_that_git_is_missing() {
    assert_eq!(
        inside_git_repo(&GitRun::NotStarted("not found".to_owned())),
        Err("failed to spawn git — is it installed and on PATH?: not found".to_owned()),
    );
}

// ── has_head ──

#[test]
fn has_head_is_false_in_fresh_repo_with_no_commits() {
    assert!(!has_head(&ended(false, "", "fatal: Needed a single revision")));
    assert!(!has_head(&GitRun::NotStarted("gone".to_owned())));
}

#[test]
fn has_head_is_true_after_first_commit() {
    assert!(has_head(&said("deadbeef\n")));
}

// ── run_git_in ──

#[test]
fn run_git_in_propagates_stderr_on_failure() {
    let run = ended(false, "", "fatal: Not a valid object name deadbeef\n");
    let err = run_git_in(&vec!["cat-file", "-t", "deadbeef"], &run).unwrap_err();
    assert_eq!(err, "fatal: Not a valid object name deadbeef");
}

#[test]
fn run_git_in_replaces_bytes_that_are_no_text() {
    let run = GitRun::Ended { success: true, stdout: vec![97, 255, 98], stderr: vec![] };
    assert_eq!(run_git_in(&vec!["diff"], &run), Ok("a\u{fffd}b".to_owned()));
}

// ── git_failure_message ──

#[test]
fn git_failure_message_passes_through_trimmed_stderr() {
    assert_eq!(
        git_failure_message(&vec!["status"], b"  fatal: not a git repo\n"),
        "fatal: not a git repo",
    );
}

#[test]
fn git_failure_message_falls_back_to_synthetic_when_stderr_blank() {
    // Without the fallback an empty / whitespace-only stderr would
    // surface as the empty string.
    assert_eq!(git_failure_message(&vec!["status"], b""), "git status failed",);
    assert_eq!(
        git_failure_message(&vec!["diff", "HEAD"], b"  \n\t\n  "),
        "git diff HEAD failed",
    );
}

// ── truncate ──

#[test]
fn truncate_short_input_unchanged() {
    let s = "abc".to_owned();
    assert_eq!(truncate(s), "abc");
}

#[test]
fn truncate_at_exact_cap_returns_input_unchanged() {
    // Boundary: gate is `<=`, so MAX_BYTES is in-bounds. Flipping
    // to `<` would footer every full-cap diff.
    let s = "a".repeat(MAX_BYTES);
    assert_eq!(truncate(s.clone()), s);
}

#[test]
fn truncate_oversized_input_appends_footer_with_human_size() {
    let s = "a".repeat(MAX_BYTES + 100);
    let got = truncate(s);
    // Pin kept prefix and footer separately — an off-by-one in
    // either direction or a dropped recovery hint must fail here.
    let footer = "\n\n(truncated: 100 B more — run `git diff HEAD` for the full output)";
    assert_eq!(got.len(), MAX_BYTES + footer.len());
    assert_eq!(&got[..MAX_BYTES], &"a".repeat(MAX_BYTES));
    let tail = &got[got.len() - 80..];
    assert!(got.ends_with(footer), "footer drift, tail: {tail}");
}

#[test]
fn truncate_cuts_on_utf8_boundary_and_never_exceeds_max_bytes() {
    // Final char straddles the cap; cut must back up to the
    // preceding boundary so the prefix never exceeds MAX_BYTES.
    let prefix = "a".repeat(MAX_BYTES - 1);
    let s = format!("{prefix}€trailing"); // '€' is 3 bytes
    let got = truncate(s);
    let footer_start = got.find("\n\n(truncated:").expect("footer present");
    assert_eq!(footer_start, MAX_BYTES - 1);
    assert!(got.is_char_boundary(footer_start));
}

// ── format_size ──

#[test]
fn format_size_truncates_to_one_decimal_for_kb() {
    // Fractional digit is integer truncation; pin both unit
    // boundaries so an off-by-one in `<` would fail visibly.
    assert_eq!(format_size(0), "0 B");
    assert_eq!(format_size(512), "512 B");
    assert_eq!(format_size(1023), "1023 B");
    assert_eq!(format_size(1024), "1.0 KB");
    assert_eq!(format_size(1536), "1.5 KB");
    assert_eq!(format_size(1024 * 1024 - 1), "1023.9 KB");
}

#[test]
fn format_size_switches_to_mb_above_one_megabyte() {
    let mb = 1024 * 1024;
    assert_eq!(format_size(mb), "1.0 MB");
    assert_eq!(format_size(mb * 3 / 2), "1.5 MB");
}
