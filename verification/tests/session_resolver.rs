use oxide_code::session::entry::SessionInfo;
use oxide_code::session::resolver::{
    can_resolve, format_session_id_preview, normalize_resume_arg, resolve_session, ResumeMode,
};

fn session(id: &str) -> SessionInfo {
    SessionInfo {
        session_id: id.to_owned(),
        cwd: "/work".to_owned(),
        model: "m".to_owned(),
        created_at: 0,
        last_active_at: 0,
        title: None,
        exit: None,
        git_branch: None,
    }
}

// ── resolve_session ──

#[test]
fn resolve_session_starts_fresh_when_no_continue_flag() {
    assert_eq!(resolve_session(&ResumeMode::Fresh, &vec![session("aa")], false), Ok(None));
}

#[test]
fn resolve_session_prefix_resumes_single_match() {
    let sessions = vec![session("aabb-1"), session("ccdd-2")];
    assert_eq!(
        resolve_session(&ResumeMode::Prefix("cc"), &sessions, false),
        Ok(Some("ccdd-2".to_owned())),
    );
    assert_eq!(
        resolve_session(&ResumeMode::Latest, &sessions, false),
        Ok(Some("aabb-1".to_owned())),
    );
}

#[test]
fn resolve_session_bare_continue_errors_without_sessions() {
    for all in [false, true] {
        let err = resolve_session(&ResumeMode::Latest, &vec![], all).unwrap_err();
        assert!(err.contains("no sessions"), "got: {err}");
        assert_eq!(err.contains("use --all"), !all, "got: {err}");
    }
}

#[test]
fn resolve_session_prefix_errors_on_no_match() {
    let err = resolve_session(&ResumeMode::Prefix("zz"), &vec![session("aabb")], false).unwrap_err();
    assert!(err.contains("no session matching prefix"), "got: {err}");
    assert!(err.contains("zz"), "got: {err}");
    assert!(err.contains("use --all"), "got: {err}");
    let err = resolve_session(&ResumeMode::Prefix("zz"), &vec![session("aabb")], true).unwrap_err();
    assert!(!err.contains("use --all"), "got: {err}");
}

#[test]
fn resolve_session_prefix_reports_ambiguous_matches() {
    let sessions = vec![session("aabbccdd-1"), session("aabbccee-2")];
    let err = resolve_session(&ResumeMode::Prefix("aabb"), &sessions, false).unwrap_err();
    assert!(err.contains("ambiguous prefix"), "got: {err}");
    assert!(err.contains("'aabb' matches 2 sessions"), "got: {err}");
    assert!(err.contains("aabbccdd") && err.contains("aabbccee"), "{err}");
}

#[test]
fn resolve_session_cuts_no_identifier_of_a_single_match() {
    // The eighth byte of the identifier stands inside a character: it has no short form.
    let odd = "aaaaaaa\u{e9}-1";
    let one = vec![session(odd), session("bb-2")];
    assert!(can_resolve(&ResumeMode::Prefix("aa"), &one));
    assert_eq!(
        resolve_session(&ResumeMode::Prefix("aa"), &one, false),
        Ok(Some(odd.to_owned())),
    );
    let two = vec![session(odd), session("aaaa-2")];
    assert!(!can_resolve(&ResumeMode::Prefix("aa"), &two));
    assert!(can_resolve(&ResumeMode::Latest, &two));
}

// ── normalize_resume_arg ──

#[test]
fn normalize_resume_arg_maps_none_to_fresh() {
    assert!(matches!(
        normalize_resume_arg(None).unwrap(),
        ResumeMode::Fresh
    ));
}

#[test]
fn normalize_resume_arg_maps_bare_flag_to_latest() {
    assert!(matches!(
        normalize_resume_arg(Some(&None)).unwrap(),
        ResumeMode::Latest
    ));
}

#[test]
fn normalize_resume_arg_trims_valid_prefix() {
    let arg = Some("  abc123 ".to_owned());
    let mode = normalize_resume_arg(Some(&arg)).unwrap();
    assert!(matches!(mode, ResumeMode::Prefix("abc123")));
}

#[test]
fn normalize_resume_arg_classifies_path_arguments() {
    for raw in [
        "/abs/path.jsonl",
        "./relative.jsonl",
        "sub/dir/session.jsonl",
        "name.jsonl",           // no separator but has .jsonl suffix
        r"C:\Users\me\s.jsonl", // windows-shaped
    ] {
        let arg = Some(raw.to_owned());
        let mode = normalize_resume_arg(Some(&arg)).unwrap();
        assert!(
            matches!(mode, ResumeMode::Path(p) if p == raw),
            "{raw:?} should classify as Path",
        );
    }
}

#[test]
fn normalize_resume_arg_keeps_uuid_shaped_prefix_as_prefix() {
    // UUID prefix has no `/` and no `.jsonl`; must not classify as path.
    let arg = Some("a1b2c3d4-e5f6-7890".to_owned());
    let mode = normalize_resume_arg(Some(&arg)).unwrap();
    assert!(matches!(mode, ResumeMode::Prefix("a1b2c3d4-e5f6-7890")));
}

#[test]
fn normalize_resume_arg_rejects_empty_and_whitespace_prefix() {
    for raw in ["", "   ", "\t\n"] {
        let arg = Some(raw.to_owned());
        let err = normalize_resume_arg(Some(&arg)).err().unwrap().to_string();
        assert!(err.contains("empty session ID prefix"), "{raw:?} → {err:?}");
        assert!(err.contains("bare"), "{raw:?} → {err:?}");
    }
}

// ── format_session_id_preview ──

#[test]
fn format_session_id_preview_truncates_ids_to_eight_chars() {
    let ids = vec![
        "aaaaaaaaaaa".to_owned(),
        "bbbbbbbbbbb".to_owned(),
        "c".to_owned(),
    ];
    assert_eq!(format_session_id_preview(&ids), "aaaaaaaa, bbbbbbbb, c");
}

#[test]
fn format_session_id_preview_caps_at_five_and_appends_ellipsis() {
    let ids: Vec<String> = (0..7).map(|i| format!("abcdefgh{i}")).collect();
    let out = format_session_id_preview(&ids);
    let short_count = out.split(", ").filter(|s| *s != "...").count();
    assert_eq!(short_count, 5, "{out:?}");
    assert!(out.ends_with(", ..."), "{out:?}");
}

#[test]
fn format_session_id_preview_no_ellipsis_at_limit() {
    let ids: Vec<String> = (0..5).map(|i| format!("id{i}")).collect();
    let out = format_session_id_preview(&ids);
    assert!(!out.ends_with(", ..."), "{out:?}");
}
