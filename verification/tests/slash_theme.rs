use oxide_code::event::UserAction;
use oxide_code::slash::command::{execute, BuiltIn, Overlay, SlashContext, SlashOutcome};
use oxide_code::slash::context::{test_catalog, test_session_info};
use oxide_code::slash::registry::SlashKind;
use oxide_code::slash::theme::{
    listed_descriptions, listed_names, resolve_theme_arg, valid_names, ThemePicker, ThemeRow,
};
use oxide_code::tui::list_picker::{numeric_hint, ListPicker, PickerItem};
use oxide_code::tui::modal::{Area, KeyCode, KeyEvent, ModalAction, ModalKey};

fn key(code: KeyCode) -> KeyEvent {
    KeyEvent::plain(code)
}

fn run_execute(args: &str) -> (usize, Option<Overlay>, Result<SlashOutcome, String>) {
    let mut ctx = SlashContext::new(test_session_info());
    let outcome = execute(BuiltIn::Theme, args, &mut ctx);
    let modal = ctx.take_modal();
    (ctx.chat.entry_count(), modal, outcome)
}

fn picker_with_active(name: &str) -> ThemePicker {
    ThemePicker::new(name)
}

// ── ThemeRow ──

#[test]
fn theme_row_picker_item_methods_return_curated_values() {
    let rows = ThemeRow::build("latte");
    let names: Vec<&str> = rows.iter().map(|r| r.name).collect();
    assert_eq!(names, listed_names());

    let active_count = rows.iter().filter(|r| r.is_active()).count();
    assert_eq!(active_count, 1, "exactly one row marks the active theme");
    assert_eq!(
        rows.iter().find(|r| r.is_active()).unwrap().name,
        "latte"
    );

    for (idx, row) in rows.iter().enumerate() {
        assert_eq!(row.key_hint(), numeric_hint(idx), "idx={idx}");
        assert_eq!(row.description, listed_descriptions()[idx]);
    }
}

// ── numeric_hint ──

#[test]
fn numeric_hint_covers_first_nine_rows_then_returns_none() {
    for idx in 0..9 {
        let expected = char::from_digit(u32::try_from(idx + 1).unwrap(), 10);
        assert_eq!(numeric_hint(idx), expected, "idx={idx}");
    }
    assert_eq!(numeric_hint(9), None, "10th row has no hint");
}

// ── ThemePicker::new ──

#[test]
fn new_positions_cursor_on_active_theme() {
    let p = picker_with_active("latte");
    let row = p.list.selected().expect("active row");
    assert_eq!(row.name, "latte");
    assert!(row.is_active);
}

#[test]
fn new_with_unknown_active_keeps_cursor_on_first_row() {
    // Custom file path doesn't match any built-in row; cursor falls back to the first.
    let p = picker_with_active("~/themes/custom.toml");
    let row = p.list.selected().expect("first row");
    assert_eq!(row.name, "mocha");
}

// ── ThemePicker::handle_key ──

#[test]
fn down_and_j_emit_preview_for_next_row_without_popping() {
    // Down arrow and `j` (vi binding) share an arm; both must advance to the next row and
    // emit a preview without popping the modal.
    for code in [KeyCode::Down, KeyCode::Char('j')] {
        let mut p = picker_with_active("mocha");
        let outcome = p.handle_key(&key(code));
        match outcome {
            ModalKey::Preview(ModalAction::User(UserAction::PreviewTheme { name })) => {
                assert_eq!(name, "macchiato", "{code:?} from mocha lands on macchiato");
            }
            other => panic!("expected Preview(PreviewTheme) for {code:?}, got {other:?}"),
        }
    }
}

#[test]
fn up_and_k_emit_preview_for_prev_row_without_popping() {
    // Up arrow and `k` (vi binding) share an arm; both must cycle to the previous row and
    // emit a preview. From the first row they wrap to the last via `select_prev`.
    for code in [KeyCode::Up, KeyCode::Char('k')] {
        let mut p = picker_with_active("mocha");
        let outcome = p.handle_key(&key(code));
        match outcome {
            ModalKey::Preview(ModalAction::User(UserAction::PreviewTheme { name })) => {
                assert_eq!(
                    name,
                    *listed_names().last().unwrap(),
                    "{code:?} from first row wraps to last",
                );
            }
            other => panic!("expected Preview for {code:?}, got {other:?}"),
        }
    }
}

#[test]
fn numeric_jump_emits_preview_for_target_row() {
    let mut p = picker_with_active("mocha");
    let outcome = p.handle_key(&key(KeyCode::Char('4')));
    match outcome {
        ModalKey::Preview(ModalAction::User(UserAction::PreviewTheme { name })) => {
            assert_eq!(name, "latte", "row 4 is latte");
        }
        other => panic!("expected Preview, got {other:?}"),
    }
}

#[test]
fn numeric_jump_past_roster_is_a_consumed_noop() {
    // Out-of-range digits stay Consumed so the App doesn't repaint for nothing. Use the
    // first digit past the curated count so the test survives roster growth.
    let past_end = char::from_digit(u32::try_from(listed_names().len()).unwrap() + 1, 10)
        .expect("roster fits in a single digit");
    let mut p = picker_with_active("mocha");
    let outcome = p.handle_key(&key(KeyCode::Char(past_end)));
    assert!(matches!(outcome, ModalKey::Consumed));
}

#[test]
fn enter_on_unchanged_cursor_returns_cancelled() {
    // No-touch Enter mirrors Esc — nothing to commit.
    let mut p = picker_with_active("mocha");
    let outcome = p.handle_key(&key(KeyCode::Enter));
    assert!(matches!(outcome, ModalKey::Cancelled));
}

#[test]
fn enter_after_cursor_move_emits_swap_for_new_theme() {
    let mut p = picker_with_active("mocha");
    p.handle_key(&key(KeyCode::Down)); // → macchiato
    let outcome = p.handle_key(&key(KeyCode::Enter));
    match outcome {
        ModalKey::Submitted(ModalAction::User(UserAction::SwapTheme { name })) => {
            assert_eq!(name, "macchiato");
        }
        other => panic!("expected Submitted(SwapTheme), got {other:?}"),
    }
}

#[test]
fn theme_other_keys_are_consumed_and_modal_stays_open() {
    let mut p = picker_with_active("mocha");
    for code in [KeyCode::Tab, KeyCode::Char('x'), KeyCode::Char('0')] {
        let outcome = p.handle_key(&key(code));
        assert!(
            matches!(outcome, ModalKey::Consumed),
            "{code:?} must be consumed",
        );
    }
}

#[test]
fn going_down_and_up_comes_back() {
    let mut p = picker_with_active("material");
    p.handle_key(&key(KeyCode::Down));
    assert_eq!(p.list.selected_index(), 0, "round from the last row");
    p.handle_key(&key(KeyCode::Up));
    assert_eq!(p.list.selected_index(), 4);
}

#[test]
fn layout_keeps_a_blank_line_above_the_footer() {
    let p = picker_with_active("mocha");
    assert_eq!(p.height(9), 11);
    assert_eq!(p.height(u16::MAX), u16::MAX);
    let area = Area { x: 1, y: 5, width: 30, height: 11 };
    let places = p.layout(area, 9);
    assert_eq!(places.list, Area { x: 1, y: 5, width: 30, height: 9 });
    assert_eq!(places.footer, Some(Area { x: 1, y: 15, width: 30, height: 1 }));
    let short = Area { x: 1, y: 5, width: 30, height: 10 };
    assert_eq!(p.layout(short, 9).footer, None);
}

// ── Metadata ──

#[test]
fn theme_metadata_matches_built_ins_contract() {
    assert_eq!(BuiltIn::Theme.name(), "theme");
    assert!(BuiltIn::Theme.aliases().is_empty());
    assert!(!BuiltIn::Theme.description("ACME.md").is_empty());
    assert_eq!(BuiltIn::Theme.usage(), Some("[<name>]"));
}

#[test]
fn theme_classify_splits_on_args() {
    // Bare form opens the picker (read-only); typed arg races the client (mutating).
    assert_eq!(BuiltIn::Theme.classify(""), SlashKind::ReadOnly);
    assert_eq!(BuiltIn::Theme.classify("   "), SlashKind::ReadOnly);
    assert_eq!(BuiltIn::Theme.classify("latte"), SlashKind::Mutating);
}

// ── complete_arg ──

fn arg_values(prefix: &str) -> Vec<String> {
    BuiltIn::Theme
        .complete_arg(&test_catalog(), prefix)
        .into_iter()
        .map(|c| c.value)
        .collect()
}

#[test]
fn complete_arg_empty_prefix_lists_full_roster_in_curated_order() {
    let expected: Vec<String> = listed_names()
        .iter()
        .map(|name| (*name).to_owned())
        .collect();
    assert_eq!(arg_values(""), expected);
}

#[test]
fn complete_arg_prefix_filter_narrows_to_matching_themes() {
    // `m` prefixes mocha, macchiato, material; matters that all three surface and roster
    // order is preserved.
    assert_eq!(arg_values("m"), vec!["mocha", "macchiato", "material"]);
}

#[test]
fn complete_arg_substring_match_below_prefix_tier() {
    // `te` is a substring of `latte` and `material`; preserves declared order.
    assert_eq!(arg_values("te"), vec!["latte", "material"]);
}

#[test]
fn theme_complete_arg_is_case_insensitive() {
    assert_eq!(arg_values("MOCHA"), vec!["mocha"]);
}

#[test]
fn completions_carry_descriptions() {
    let found = BuiltIn::Theme.complete_arg(&test_catalog(), "lat");
    assert_eq!(found.len(), 1);
    assert_eq!(found[0].description, "Catppuccin light");
}

// ── execute ──

#[test]
fn execute_no_args_opens_picker_and_pushes_no_chat_block() {
    let (entries, modal, outcome) = run_execute("");
    assert_eq!(outcome, Ok(SlashOutcome::Done));
    assert!(
        matches!(modal, Some(Overlay::Theme(_))),
        "bare /theme must populate the modal slot"
    );
    assert_eq!(entries, 0, "chat must stay clean on open");
}

#[test]
fn execute_with_known_name_forwards_swap_theme() {
    for name in listed_names() {
        let (_, _, outcome) = run_execute(name);
        assert_eq!(
            outcome,
            Ok(SlashOutcome::Forward(UserAction::SwapTheme {
                name: name.to_owned(),
            })),
            "`{name}` must forward SwapTheme",
        );
    }
}

#[test]
fn execute_is_case_insensitive() {
    let (_, _, outcome) = run_execute("LATTE");
    assert_eq!(
        outcome,
        Ok(SlashOutcome::Forward(UserAction::SwapTheme {
            name: "latte".to_owned(),
        })),
    );
}

#[test]
fn execute_unknown_name_errors_listing_valid_options() {
    let (entries, _, outcome) = run_execute("solarized");
    let msg = outcome.expect_err("unknown name must error");
    assert!(msg.starts_with("Unknown theme: `solarized`."), "{msg}");
    for name in listed_names() {
        assert!(msg.contains(name), "lists `{name}`: {msg}");
    }
    assert_eq!(entries, 0, "execute must not push on Err");
}

#[test]
fn resolve_theme_arg_keeps_the_typed_word_in_the_error() {
    assert_eq!(resolve_theme_arg("Frappe"), Ok("frappe"));
    assert_eq!(
        resolve_theme_arg("Nord"),
        Err("Unknown theme: `Nord`. Valid: mocha, macchiato, frappe, latte, material.".to_owned()),
    );
    assert_eq!(valid_names(), "mocha, macchiato, frappe, latte, material");
}

#[test]
fn preview_without_a_row_closes_the_picker() {
    let mut p = ThemePicker { list: ListPicker::new(vec![]), original_name: "mocha".to_owned() };
    assert_eq!(p.preview_current(), ModalKey::Cancelled);
    assert_eq!(p.handle_key(&key(KeyCode::Down)), ModalKey::Cancelled);
    assert_eq!(p.submit(), ModalKey::Cancelled);
}
