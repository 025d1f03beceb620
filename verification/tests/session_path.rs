use oxide_code::session::path::{
    project_dir_name, sanitize_cwd, HASH_SUFFIX_HEX_LEN, MAX_PROJECT_DIR_LEN, UNKNOWN_PROJECT_DIR,
};

// ── sanitize_cwd ──

#[test]
fn sanitize_cwd_replaces_slashes_and_trims_leading() {
    let out = sanitize_cwd("/Users/alice/project".as_bytes());
    assert_eq!(out, "Users-alice-project");
}

#[test]
fn sanitize_cwd_replaces_backslash_and_drive_letter() {
    let out = sanitize_cwd(r"C:\Users\alice\project".as_bytes());
    assert_eq!(out, "C--Users-alice-project");
}

#[test]
fn sanitize_cwd_preserves_dots_underscores_and_dashes() {
    let out = sanitize_cwd("/home/user/my-proj_v1.0".as_bytes());
    assert_eq!(out, "home-user-my-proj_v1.0");
}

#[test]
fn sanitize_cwd_replaces_other_reserved_chars_with_dash() {
    let out = sanitize_cwd("/sub dir/with spaces&symbols!".as_bytes());
    assert_eq!(out, "sub-dir-with-spaces-symbols");
}

#[test]
fn sanitize_cwd_is_unknown_for_empty_result() {
    assert_eq!(sanitize_cwd("/".as_bytes()), UNKNOWN_PROJECT_DIR);
    assert_eq!(sanitize_cwd("".as_bytes()), UNKNOWN_PROJECT_DIR);
    assert_eq!(sanitize_cwd("///".as_bytes()), UNKNOWN_PROJECT_DIR);
}

#[test]
fn sanitize_cwd_truncates_long_paths_with_stable_hash_suffix() {
    let long = "/".to_string() + &"a".repeat(200);
    let out = sanitize_cwd(long.as_bytes());
    assert_eq!(out.chars().count(), MAX_PROJECT_DIR_LEN);
    // Suffix is 16 hex chars preceded by a separator.
    let suffix = &out[out.len() - (HASH_SUFFIX_HEX_LEN + 1)..];
    assert!(suffix.starts_with('-'));
    assert!(suffix[1..].chars().all(|c| c.is_ascii_hexdigit()));
}

#[test]
fn sanitize_cwd_truncation_distinguishes_similar_long_paths() {
    // Paths sharing a prefix beyond the truncation point must still hash apart.
    let base = "/".to_string() + &"a".repeat(200);
    let a = sanitize_cwd((base.clone() + "/alpha").as_bytes());
    let b = sanitize_cwd((base + "/beta").as_bytes());
    assert_ne!(a, b, "hash suffix must disambiguate");
}

#[test]
fn sanitize_cwd_is_deterministic() {
    let p = "/some/deterministic/path".as_bytes();
    assert_eq!(sanitize_cwd(p), sanitize_cwd(p));
}

#[test]
fn sanitize_cwd_distinguishes_non_utf8_paths_with_same_lossy_form() {
    // Different invalid bytes both read as U+FFFD; the hash is of the raw bytes.
    let base = "/".to_string() + &"a".repeat(200) + "/";
    let mut bytes_a = base.as_bytes().to_vec();
    bytes_a.push(0xFF);
    let mut bytes_b = base.as_bytes().to_vec();
    bytes_b.push(0xFE);
    assert_eq!(
        String::from_utf8_lossy(&bytes_a),
        String::from_utf8_lossy(&bytes_b),
        "precondition: lossy forms collide",
    );
    assert_ne!(sanitize_cwd(&bytes_a), sanitize_cwd(&bytes_b));
}

#[test]
fn long_names_end_in_the_hash_of_the_path() {
    let long = "/".to_string() + &"a".repeat(200);
    let hash = xxhash_rust::xxh64::xxh64(long.as_bytes(), 0);
    assert_eq!(sanitize_cwd(long.as_bytes()), format!("{}-{hash:016x}", "a".repeat(63)));
    assert_eq!(
        project_dir_name(&"b".repeat(81), 0x2a),
        format!("{}-000000000000002a", "b".repeat(63)),
    );
    assert_eq!(project_dir_name(&"b".repeat(80), 0x2a), "b".repeat(80));
}
