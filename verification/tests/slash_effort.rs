use oxide_code::config::{Effort, VALID_EFFORTS};
use oxide_code::event::UserAction;
use oxide_code::slash::command::{execute, BuiltIn, Overlay, SlashContext, SlashOutcome};
use oxide_code::slash::context::{test_catalog, test_session_info};
use oxide_code::slash::effort::{no_effort_tier_msg, parse_effort_arg};
use oxide_code::slash::effort_slider::{tier_color, EffortSlider, TierColor};
use oxide_code::slash::registry::SlashKind;
use oxide_code::tui::modal::{KeyCode, KeyEvent, ModalAction, ModalKey};

// ── Metadata ──

#[test]
fn effort_metadata_matches_built_ins_contract() {
    assert_eq!(BuiltIn::Effort.name(), "effort");
    assert!(BuiltIn::Effort.aliases().is_empty());
    assert!(!BuiltIn::Effort.description("ACME.md").is_empty());
    assert_eq!(BuiltIn::Effort.usage(), Some("[<level>]"));
}

#[test]
fn effort_classify_splits_on_args() {
    // Bare form opens the slider (read-only); typed arg races the client (mutating).
    assert_eq!(BuiltIn::Effort.classify(""), SlashKind::ReadOnly);
    assert_eq!(BuiltIn::Effort.classify("   "), SlashKind::ReadOnly);
    assert_eq!(BuiltIn::Effort.classify("xhigh"), SlashKind::Mutating);
}

// ── execute ──

fn run_execute(args: &str) -> (usize, Result<SlashOutcome, String>) {
    let mut ctx = SlashContext::new(test_session_info());
    let outcome = execute(BuiltIn::Effort, args, &mut ctx);
    (ctx.chat.entry_count(), outcome)
}

fn run_execute_with_model(model_id: &str, args: &str) -> (usize, Result<SlashOutcome, String>) {
    let mut info = test_session_info();
    info.config.model_id = model_id.to_owned();
    let mut ctx = SlashContext::new(info);
    let outcome = execute(BuiltIn::Effort, args, &mut ctx);
    (ctx.chat.entry_count(), outcome)
}

#[test]
fn execute_no_args_opens_slider_via_ctx_and_pushes_no_chat_block() {
    let mut ctx = SlashContext::new(test_session_info());
    let outcome = execute(BuiltIn::Effort, "", &mut ctx);
    assert_eq!(outcome, Ok(SlashOutcome::Done));
    assert!(
        matches!(ctx.take_modal(), Some(Overlay::Effort(_))),
        "bare /effort must populate the modal slot",
    );
    assert_eq!(ctx.chat.entry_count(), 0, "chat must stay clean on open");
}

#[test]
fn execute_no_args_on_no_tier_model_errors_with_recovery_hint() {
    // Slider can't render zero tiers — error before opening the modal.
    let (entries, outcome) = run_execute_with_model("acme-haiku-4-5", "");
    let msg = outcome.expect_err("must error");
    assert!(
        msg.contains("Acme Haiku 4.5") && msg.contains("/model"),
        "marketing name + recovery hint: {msg}",
    );
    assert_eq!(entries, 0, "execute must not push on Err");
}

#[test]
fn execute_with_level_forwards_swap_config_with_effort_only() {
    for (arg, level) in [
        ("low", Effort::Low),
        ("medium", Effort::Medium),
        ("high", Effort::High),
        ("xhigh", Effort::Xhigh),
        ("max", Effort::Max),
    ] {
        let (_, outcome) = run_execute(arg);
        assert_eq!(
            outcome,
            Ok(SlashOutcome::Forward(UserAction::SwapConfig {
                model: None,
                effort: Some(level),
            })),
            "`{arg}` should forward SwapConfig {{ effort: Some({level:?}) }}",
        );
    }
}

#[test]
fn execute_explicit_level_on_no_tier_model_errors_with_recovery_hint() {
    // Setting xhigh on Haiku silently resolves to None (no effort), confusing the user.
    // Reject upfront.
    let (entries, outcome) = run_execute_with_model("acme-haiku-4-5", "xhigh");
    let msg = outcome.expect_err("must error");
    assert!(
        msg.contains("Acme Haiku 4.5") && msg.contains("/model"),
        "marketing name + recovery hint: {msg}",
    );
    assert_eq!(entries, 0, "execute must not push on Err");
}

#[test]
fn execute_unknown_level_errors_listing_valid_options() {
    let (entries, outcome) = run_execute("turbo");
    let msg = outcome.expect_err("unknown level must error");
    assert!(msg.starts_with("Unknown effort: `turbo`."), "{msg}");
    for valid in VALID_EFFORTS.split(", ") {
        assert!(msg.contains(valid), "lists `{valid}`: {msg}");
    }
    assert!(!msg.contains("auto"), "{msg}");
    assert_eq!(entries, 0, "execute must not push on Err");
}

#[test]
fn execute_auto_is_unknown() {
    let (_, outcome) = run_execute("auto");
    let msg = outcome.expect_err("auto is not a selectable effort");
    assert!(msg.starts_with("Unknown effort: `auto`."), "{msg}");
}

#[test]
fn unknown_levels_are_told_before_models_without_effort() {
    let (_, outcome) = run_execute_with_model("acme-haiku-4-5", "turbo");
    assert_eq!(
        outcome,
        Err("Unknown effort: `turbo`. Valid: low, medium, high, xhigh, max.".to_owned()),
    );
}

// ── parse_effort_arg ──

#[test]
fn parse_effort_arg_is_case_insensitive() {
    assert_eq!(parse_effort_arg("XHIGH"), Ok(Effort::Xhigh));
    assert_eq!(parse_effort_arg("MaX"), Ok(Effort::Max));
}

#[test]
fn no_effort_tier_msg_names_the_model() {
    assert_eq!(
        no_effort_tier_msg(&test_catalog(), "gpt-4"),
        "gpt-4 has no effort tier. Pick an effort-capable model first with /model (e.g. /model opus, /model sonnet).",
    );
}

#[test]
fn levels_are_found_by_their_names() {
    for level in Effort::all() {
        assert_eq!(Effort::parse(level.name()), Some(level));
    }
    assert_eq!(Effort::parse("High"), None);
}

// ── EffortSlider::new ──

fn slider_for(model_id: &str, effort: Option<Effort>) -> EffortSlider {
    let mut info = test_session_info();
    info.config.model_id = model_id.to_owned();
    info.config.effort = effort;
    EffortSlider::new(&info).expect("model accepts effort")
}

fn key(code: KeyCode) -> KeyEvent {
    KeyEvent::plain(code)
}

#[test]
fn new_returns_none_for_no_effort_model() {
    let mut info = test_session_info();
    info.config.model_id = "acme-haiku-4-5".to_owned();
    assert!(EffortSlider::new(&info).is_none());
}

#[test]
fn new_lists_only_supported_tiers_low_to_high() {
    // Sonnet 4.6 supports low / medium / high but not xhigh / max — the slider must drop the
    // unsupported tiers entirely so the cursor never lands on a value the API would reject.
    let s = slider_for("acme-sonnet-4-6", Some(Effort::High));
    assert_eq!(*s.supported(), vec![Effort::Low, Effort::Medium, Effort::High]);
}

#[test]
fn new_seeds_selected_to_active_effort() {
    let s = slider_for("acme-opus-4-7", Some(Effort::High));
    assert_eq!(s.supported()[s.selected()], Effort::High);
    assert_eq!(s.initial(), Effort::High);
}

#[test]
fn new_falls_back_to_model_default_when_effort_unset() {
    let s = slider_for("acme-opus-4-7", None);
    assert_eq!(s.initial(), Effort::Xhigh);
    assert_eq!(s.supported()[s.selected()], Effort::Xhigh);
}

// ── EffortSlider::handle_key ──

#[test]
fn right_arrow_advances_selected_within_supported() {
    let mut s = slider_for("acme-opus-4-7", Some(Effort::Low));
    let before = s.selected();
    s.handle_key(&key(KeyCode::Right));
    assert_eq!(s.selected(), before + 1);
}

#[test]
fn right_arrow_at_top_clamps_without_panicking() {
    let mut s = slider_for("acme-opus-4-7", Some(Effort::Max));
    s.handle_key(&key(KeyCode::Right));
    assert_eq!(s.picked(), Effort::Max, "must stay clamped");
}

#[test]
fn left_arrow_retreats_selected_until_low() {
    let mut s = slider_for("acme-opus-4-7", Some(Effort::Medium));
    s.handle_key(&key(KeyCode::Left));
    assert_eq!(s.picked(), Effort::Low);
    s.handle_key(&key(KeyCode::Left));
    assert_eq!(s.picked(), Effort::Low, "stays clamped");
}

#[test]
fn vim_keys_mirror_arrow_navigation() {
    let mut s = slider_for("acme-opus-4-7", Some(Effort::Low));
    s.handle_key(&key(KeyCode::Char('l')));
    assert_eq!(s.picked(), Effort::Medium);
    s.handle_key(&key(KeyCode::Char('h')));
    assert_eq!(s.picked(), Effort::Low);
}

#[test]
fn enter_with_no_change_returns_cancelled() {
    // Open + Enter without moving is the same shape as Esc — nothing to dispatch.
    let mut s = slider_for("acme-opus-4-7", Some(Effort::High));
    let outcome = s.handle_key(&key(KeyCode::Enter));
    assert!(matches!(outcome, ModalKey::Cancelled));
}

#[test]
fn enter_after_change_emits_swap_config_with_effort_only() {
    let mut s = slider_for("acme-opus-4-7", Some(Effort::Low));
    s.handle_key(&key(KeyCode::Right));
    let outcome = s.handle_key(&key(KeyCode::Enter));
    match outcome {
        ModalKey::Submitted(ModalAction::User(UserAction::SwapConfig { model, effort })) => {
            assert!(model.is_none(), "effort-only swap; model unchanged");
            assert_eq!(effort, Some(Effort::Medium));
        }
        other => panic!("expected Submitted SwapConfig, got {other:?}"),
    }
}

#[test]
fn unhandled_key_is_consumed_without_state_change() {
    // Esc / Ctrl+C never reach the slider; everything else (Up, Tab, letters other
    // than h / l) must fall through to `Consumed` and leave the cursor put.
    let mut s = slider_for("acme-opus-4-7", Some(Effort::Medium));
    let before = s.selected();
    for code in [KeyCode::Up, KeyCode::Down, KeyCode::Tab, KeyCode::Char('q')] {
        let outcome = s.handle_key(&key(code));
        assert!(
            matches!(outcome, ModalKey::Consumed),
            "{code:?} must be consumed"
        );
        assert_eq!(s.selected(), before, "{code:?} must not move the cursor");
    }
}

// ── EffortSlider lines ──

#[test]
fn slider_lines_are_as_wide_as_the_levels() {
    let s = slider_for("acme-opus-4-7", Some(Effort::High));
    // "● low" + "● medium" + "● high" + "● xhigh" + "● max" and four gaps.
    assert_eq!(s.slider_width(), 5 + 8 + 6 + 7 + 5 + 12);
    assert_eq!(s.line_track().chars().count(), 43);
    assert!(s.line_track().chars().all(|c| c == '─'));
    let ends = s.line_speed_intel();
    assert!(ends.starts_with("Speed ") && ends.ends_with(" Intelligence"), "{ends}");
    assert_eq!(ends.len(), 43);
}

#[test]
fn slider_marks_the_level_under_the_cursor() {
    let s = slider_for("acme-sonnet-4-6", Some(Effort::Medium));
    let labels = s.line_tier_labels();
    let texts: Vec<&str> = labels.iter().map(|l| l.text.as_str()).collect();
    assert_eq!(texts, vec!["○ low", "● medium", "○ high"]);
    assert_eq!(labels.iter().map(|l| l.active).collect::<Vec<_>>(), vec![false, true, false]);
    assert_eq!(labels[1].color, TierColor::Cyan);
}

#[test]
fn colours_go_from_cold_to_hot() {
    assert_eq!(tier_color(Effort::Low), TierColor::Blue);
    assert_eq!(tier_color(Effort::Medium), TierColor::Cyan);
    assert_eq!(tier_color(Effort::High), TierColor::Green);
    assert_eq!(tier_color(Effort::Xhigh), TierColor::Magenta);
    assert_eq!(tier_color(Effort::Max), TierColor::Red);
}
