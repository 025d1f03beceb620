use oxide_code::slash::parser::{parse_slash, popup_state, PopupState};

// ── parse_slash ──

#[test]
fn parse_slash_bare_name_has_empty_args() {
    let parsed = parse_slash("/help").unwrap();
    assert_eq!(parsed.name, "help");
    assert_eq!(parsed.args, "");
}

#[test]
fn parse_slash_name_with_args_keeps_remainder_trimmed() {
    let parsed = parse_slash("/model acme-sonnet-4-6").unwrap();
    assert_eq!(parsed.name, "model");
    assert_eq!(parsed.args, "acme-sonnet-4-6");
}

#[test]
fn parse_slash_collapses_inner_whitespace_into_args() {
    let parsed = parse_slash("/init please write ACME.md").unwrap();
    assert_eq!(parsed.name, "init");
    assert_eq!(parsed.args, "please write ACME.md");
}

#[test]
fn parse_slash_tolerates_leading_whitespace() {
    let parsed = parse_slash("   /help").unwrap();
    assert_eq!(parsed.name, "help");
}

#[test]
fn parse_slash_trailing_whitespace_in_args_is_trimmed() {
    let parsed = parse_slash("/help   ").unwrap();
    assert_eq!(parsed.args, "");
}

#[test]
fn parse_slash_plain_prompt_is_not_a_command() {
    assert!(parse_slash("hello").is_none());
    assert!(parse_slash("explain /etc/hosts").is_none());
}

#[test]
fn parse_slash_bare_slash_is_not_a_command() {
    assert!(parse_slash("/").is_none());
    assert!(parse_slash("  /  ").is_none());
}

#[test]
fn parse_slash_double_slash_is_not_a_command() {
    assert!(parse_slash("//help").is_none());
}

#[test]
fn parse_slash_accepts_plugin_namespace_in_name() {
    let parsed = parse_slash("/context7-plugin:docs").unwrap();
    assert_eq!(parsed.name, "context7-plugin:docs");
    assert_eq!(parsed.args, "");
}

#[test]
fn parse_slash_rejects_non_ascii_or_special_chars_in_name() {
    assert!(parse_slash("/foo🦀").is_none());
    assert!(parse_slash("/foo!").is_none());
    assert!(parse_slash("/foo,bar").is_none());
}

// ── popup_state ──

fn name(s: &str) -> PopupState<'_> {
    PopupState::Name(s)
}

fn arg<'a>(name: &'a str, prefix: &'a str) -> PopupState<'a> {
    PopupState::Arg { name, prefix }
}

#[test]
fn popup_state_bare_slash_is_empty_name() {
    assert_eq!(popup_state("/"), Some(name("")));
}

#[test]
fn popup_state_partial_name_carries_typed_chars() {
    assert_eq!(popup_state("/cl"), Some(name("cl")));
    assert_eq!(popup_state("/clear"), Some(name("clear")));
}

#[test]
fn popup_state_tolerates_leading_whitespace_before_slash() {
    assert_eq!(popup_state("   /he"), Some(name("he")));
}

#[test]
fn popup_state_trailing_space_after_name_switches_to_empty_arg() {
    // The empty-prefix case is the trigger for the placeholder ghost-text — we have to be
    // able to distinguish it from `Name`, otherwise the popup never opens for arg mode.
    assert_eq!(popup_state("/clear "), Some(arg("clear", "")));
}

#[test]
fn popup_state_typed_arg_carries_prefix_trimmed_of_leading_whitespace() {
    assert_eq!(popup_state("/model acme-"), Some(arg("model", "acme-")));
    assert_eq!(popup_state("/model    opus"), Some(arg("model", "opus")));
}

#[test]
fn popup_state_inner_whitespace_in_args_is_kept_for_free_form_commands() {
    // /init takes a free-form sentence — the popup is hidden via empty `complete_arg`, but
    // the parser still classifies it as Arg with the full remainder as prefix.
    assert_eq!(
        popup_state("/init please write ACME.md"),
        Some(arg("init", "please write ACME.md")),
    );
}

#[test]
fn popup_state_double_slash_escape_is_not_a_command() {
    assert!(popup_state("//etc/hosts").is_none());
    assert!(popup_state("//").is_none());
}

#[test]
fn popup_state_plain_prompts_are_not_a_command() {
    assert!(popup_state("hello").is_none());
    assert!(popup_state("explain /etc/hosts").is_none());
    assert!(popup_state("").is_none());
}

#[test]
fn popup_state_invalid_name_chars_reject_the_buffer() {
    assert!(popup_state("/foo🦀").is_none());
    assert!(popup_state("/foo!").is_none());
    // Disallowed-char names also fail in arg form so the popup doesn't show stale completions.
    assert!(popup_state("/foo! arg").is_none());
}

#[test]
fn popup_state_empty_name_rejects_buffer() {
    // `/` followed by whitespace has no name to dispatch — must not parse as `Arg { name: "" }`,
    // which would route empty-string lookups through `complete_arg_for` / `arg_placeholder_for`.
    assert!(popup_state("/ ").is_none());
    assert!(popup_state("/    ").is_none());
    assert!(popup_state("/  arg").is_none());
}
// ── Both readings ──

#[test]
fn a_name_being_typed_is_the_name_of_the_command() {
    for (line, want) in [("/help", "help"), ("  /context7-plugin:docs", "context7-plugin:docs")] {
        assert_eq!(popup_state(line), Some(name(want)));
        let parsed = parse_slash(line).unwrap();
        assert_eq!((parsed.name.as_str(), parsed.args.as_str()), (want, ""));
    }
}

#[test]
fn arguments_agree_up_to_the_white_space_behind_them() {
    assert_eq!(popup_state("/theme  latte "), Some(arg("theme", "latte ")));
    assert_eq!(parse_slash("/theme  latte ").unwrap().args, "latte");
}

#[test]
fn unicode_white_space_ends_a_name() {
    let parsed = parse_slash("/model\u{2003}opus").unwrap();
    assert_eq!(parsed.name, "model");
    assert_eq!(parsed.args, "opus");
}
