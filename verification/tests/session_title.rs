use oxide_code::session::title_generator::{
    envelope_body, parse_title, strip_code_fence, title_model, truncate_for_log, truncate_prompt,
};

fn read_title(response: &str) -> Result<String, String> {
    let body = envelope_body(response)?;
    let title = match serde_json::from_str::<serde_json::Value>(body) {
        Ok(value) => value.get("title").and_then(|t| t.as_str()).map(str::to_owned),
        Err(_) => None,
    };
    parse_title(body, title)
}

// ── parse_title ──

#[test]
fn parse_title_extracts_json_title_field() {
    let out = read_title(r#"{"title": "Fix auth bug"}"#).unwrap();
    assert_eq!(out, "Fix auth bug");
}

#[test]
fn parse_title_trims_whitespace_inside_json_envelope() {
    let out = read_title(r#"{"title": "  padded  "}"#).unwrap();
    assert_eq!(out, "padded");
}

#[test]
fn parse_title_errors_on_empty_title_field() {
    // An envelope with an empty title is as useless as no title at
    // all. Bail so the first-prompt fallback stays in place.
    let err = read_title(r#"{"title": ""}"#).unwrap_err();
    assert!(err.contains("empty title"), "got: {err}");
}

#[test]
fn parse_title_errors_on_plain_text_response() {
    // The model's conversational refusal ("I'd be happy to help!
    // However, I need more details...") would otherwise land on the
    // status bar as a multi-sentence "title". Require the JSON
    // envelope so the first-prompt title survives instead.
    let err = read_title("I'd be happy to help! However, I need more details.")
        .unwrap_err();
    assert!(err.contains("not a title envelope"), "got: {err}");
}

#[test]
fn parse_title_errors_on_empty_response() {
    assert!(read_title("   ").is_err());
}

#[test]
fn parse_title_unwraps_json_code_fence() {
    // The model on some gateways wraps the JSON envelope in a fenced block.
    let raw = r#"```json
{
  "title": "Fix the login flow"
}
```
"#;
    assert_eq!(read_title(raw).unwrap(), "Fix the login flow");
}

#[test]
fn parse_title_unwraps_bare_code_fence() {
    let raw = r#"```
{"title":"Add OAuth auth"}
```
"#;
    assert_eq!(read_title(raw).unwrap(), "Add OAuth auth");
}

// ── truncate_for_log ──

#[test]
fn truncate_for_log_passes_short_strings_through() {
    assert_eq!(truncate_for_log("short"), "short");
}

#[test]
fn truncate_for_log_caps_long_strings_with_ellipsis() {
    let long = "a".repeat(500);
    let out = truncate_for_log(&long);
    assert!(out.ends_with("..."), "got: {out:?}");
    assert_eq!(out.chars().count(), 123, "got: {out:?}");
}

// ── strip_code_fence ──

#[test]
fn strip_code_fence_leaves_unwrapped_text_alone() {
    assert_eq!(strip_code_fence("hello"), "hello");
    assert_eq!(strip_code_fence(r#"{"title":"x"}"#), r#"{"title":"x"}"#);
}

#[test]
fn strip_code_fence_handles_language_tag() {
    let raw = r#"```json
body
```
"#;
    assert_eq!(strip_code_fence(raw), "body");
}

#[test]
fn strip_code_fence_handles_no_opening_newline() {
    // Single-line fenced block — no language tag, no newline.
    assert_eq!(strip_code_fence("```body```"), "body");
}

#[test]
fn strip_code_fence_leaves_an_unclosed_fence_alone() {
    assert_eq!(strip_code_fence("```json\nbody"), "```json\nbody");
    assert_eq!(strip_code_fence("```"), "```");
    assert_eq!(strip_code_fence("body\n```"), "body\n```");
}

// ── truncate_prompt ──

#[test]
fn truncate_prompt_passes_short_text_through() {
    assert_eq!(truncate_prompt("short", 100), "short");
}

#[test]
fn truncate_prompt_keeps_the_tail_of_long_text() {
    let long = "a".repeat(50) + "TAIL";
    let out = truncate_prompt(&long, 10);
    assert_eq!(out.chars().count(), 10);
    assert!(out.ends_with("TAIL"), "should retain tail: {out:?}");
}

#[test]
fn truncate_prompt_respects_char_boundaries_for_multibyte() {
    // 1000 é + "tail": truncate to 4 chars should give just "tail",
    // not broken bytes from an é midpoint.
    let s: String = "\u{00e9}".repeat(1_000) + "tail";
    let out = truncate_prompt(&s, 4);
    assert_eq!(out, "tail");
}

// ── Exact texts ──

#[test]
fn answers_without_a_title_are_told_apart() {
    assert_eq!(read_title(" \n"), Err("empty response".to_owned()));
    assert_eq!(
        read_title("no"),
        Err("response is not a title envelope: no".to_owned()),
    );
    assert_eq!(
        read_title("{\"title\": \"  \"}"),
        Err("title envelope had an empty title field".to_owned()),
    );
}

// ── title_model ──

#[test]
fn title_model_is_the_small_one_of_the_family() {
    assert_eq!(title_model("acme"), "acme-haiku-4-5");
}
