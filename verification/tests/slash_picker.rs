use oxide_code::config::Effort;
use oxide_code::event::UserAction;
use oxide_code::model::ResolvedModelId;
use oxide_code::slash::context::{test_catalog, test_session_info};
use oxide_code::slash::effort_slider::TierColor;
use oxide_code::slash::picker::{has_effort_tier, Direction, ModelEffortPicker, ModelRow};
use oxide_code::tui::modal::{Area, KeyCode, KeyEvent, ModalAction, ModalKey};

fn picker() -> ModelEffortPicker {
    ModelEffortPicker::new(&test_session_info())
}

fn key(code: KeyCode) -> KeyEvent {
    KeyEvent::plain(code)
}

// ── new ──

#[test]
fn new_positions_cursor_on_active_model() {
    // `test_session_info` ships acme-opus-4-7 active.
    let p = picker();
    let row = p.list.selected().expect("active row");
    assert_eq!(row.id, "acme-opus-4-7");
    assert!(row.is_active);
}

#[test]
fn new_opens_with_clean_effort_axis() {
    // Effort dirty must start false so a no-touch Enter cancels rather than firing a
    // spurious SwapConfig (matters when the model resolves a default effort but the user
    // hasn't expressed a pick).
    let p = picker();
    assert!(!p.effort_dirty);
}

#[test]
fn rows_carry_names_and_digits() {
    let rows = ModelRow::build(&test_catalog(), "acme-sonnet-4-6");
    assert_eq!(rows.len(), 5);
    assert_eq!(rows[3].description, "Acme Sonnet 4.6 (1M context)");
    assert_eq!(rows[4].hint, Some('5'));
    assert_eq!(rows.iter().filter(|r| r.is_active).count(), 1);
    assert!(rows[2].is_active);
    assert!(has_effort_tier(&rows[2]));
    assert!(!has_effort_tier(&rows[4]));
}

// ── handle_key ──

#[test]
fn down_arrow_advances_cursor_and_refreshes_effort() {
    let mut p = picker();
    let before = p.list.selected_index();
    p.handle_key(&key(KeyCode::Down));
    assert_eq!(p.list.selected_index(), before + 1);
}

#[test]
fn numeric_jump_routes_cursor_to_matching_row() {
    // `5` jumps to the fifth listed model — Haiku 4.5.
    let mut p = picker();
    p.handle_key(&key(KeyCode::Char('5')));
    let row = p.list.selected().expect("selected row");
    assert_eq!(row.id, "acme-haiku-4-5");
}

#[test]
fn right_arrow_cycles_effort_within_supported_levels() {
    // Opus 4.7 supports the full ladder. Pressing Right walks
    // through it; Left walks back.
    let mut p = picker();
    let initial = p.effort;
    p.handle_key(&key(KeyCode::Right));
    assert_ne!(p.effort, initial, "Right must change effort");
    assert!(p.effort_dirty, "navigation marks effort dirty");
}

#[test]
fn right_arrow_on_no_tier_model_is_a_noop() {
    // Haiku 4.5 has no effort tier — Left/Right must not mutate the (None) effort state.
    let mut p = picker();
    p.handle_key(&key(KeyCode::Char('5'))); // jump to Haiku
    assert!(p.effort.is_none());
    assert!(!p.effort_dirty);
    p.handle_key(&key(KeyCode::Right));
    assert!(p.effort.is_none(), "no-tier model must stay None");
    assert!(
        !p.effort_dirty,
        "navigation that no-ops must not mark effort dirty",
    );
}

#[test]
fn left_arrow_walks_effort_backward_with_wrap() {
    // Backward branch in `cycle_effort` has different arithmetic from the forward branch
    // — pin it independently. Cycle Left until the effort returns to the initial pick.
    let mut p = picker();
    p.handle_key(&key(KeyCode::Right)); // arm the axis with a known starting tier
    let initial = p.effort.expect("Opus 4.7 has an effort axis");
    for _ in 0..16 {
        p.handle_key(&key(KeyCode::Left));
        if p.effort == Some(initial) {
            return;
        }
    }
    panic!(
        "Left-arrow cycle never returned to the starting tier; got {:?}",
        p.effort
    );
}

#[test]
fn navigating_from_no_tier_back_to_tier_model_restores_effort() {
    let mut p = picker();
    p.handle_key(&key(KeyCode::Char('5'))); // jump to Haiku
    assert!(p.effort.is_none(), "Haiku has no effort tier");
    p.handle_key(&key(KeyCode::Up)); // back to Sonnet 4.6 [1m] (index 3)
    assert!(
        p.effort.is_some(),
        "tier model must restore effort via effort_or_active fallback",
    );
}

#[test]
fn enter_with_no_changes_returns_cancelled() {
    // Open + Enter without touching anything is the same shape as
    // Esc — nothing to dispatch.
    let mut p = picker();
    let outcome = p.handle_key(&key(KeyCode::Enter));
    assert!(matches!(outcome, ModalKey::Cancelled));
}

#[test]
fn enter_after_model_change_emits_swap_with_model_only() {
    let mut p = picker();
    p.handle_key(&key(KeyCode::Down));
    let outcome = p.handle_key(&key(KeyCode::Enter));
    match outcome {
        ModalKey::Submitted(ModalAction::User(UserAction::SwapConfig { model, effort })) => {
            assert_eq!(
                model.map(ResolvedModelId::into_inner).as_deref(),
                Some("acme-opus-4-7[1m]"),
            );
            assert!(
                effort.is_none(),
                "effort must NOT be set when only the model axis moved",
            );
        }
        other => panic!("expected Submitted(SwapConfig {{ model: Some, .. }}), got {other:?}"),
    }
}

#[test]
fn enter_after_effort_change_emits_swap_with_effort_only() {
    // Opus 4.7 active + High; cycle effort Forward once → Xhigh.
    let mut p = picker();
    p.handle_key(&key(KeyCode::Right));
    let outcome = p.handle_key(&key(KeyCode::Enter));
    match outcome {
        ModalKey::Submitted(ModalAction::User(UserAction::SwapConfig { model, effort })) => {
            assert!(
                model.is_none(),
                "model must NOT be set when only the effort axis moved",
            );
            assert_eq!(effort, Some(Effort::Xhigh));
        }
        other => panic!("expected Submitted with effort-only SwapConfig, got {other:?}"),
    }
}

#[test]
fn effort_that_was_brought_back_asks_for_nothing() {
    let mut p = picker();
    p.handle_key(&key(KeyCode::Char('l')));
    p.handle_key(&key(KeyCode::Char('h')));
    assert!(p.effort_dirty);
    assert_eq!(p.handle_key(&key(KeyCode::Enter)), ModalKey::Cancelled);
}

#[test]
fn effort_goes_round_at_both_ends() {
    let mut p = picker();
    p.cycle_effort(Direction::Forward);
    p.cycle_effort(Direction::Forward);
    assert_eq!(p.effort, Some(Effort::Max));
    p.cycle_effort(Direction::Forward);
    assert_eq!(p.effort, Some(Effort::Low));
    p.cycle_effort(Direction::Backward);
    assert_eq!(p.effort, Some(Effort::Max));
}

#[test]
fn effort_is_fitted_to_the_model_under_the_cursor() {
    let mut p = picker();
    p.handle_key(&key(KeyCode::Right));
    assert_eq!(p.effort, Some(Effort::Xhigh));
    p.handle_key(&key(KeyCode::Char('3')));
    assert_eq!(p.effort, Some(Effort::High), "Sonnet stops at high");
}

#[test]
fn unknown_digits_and_keys_change_nothing() {
    let mut p = picker();
    for code in [KeyCode::Char('9'), KeyCode::Char('0'), KeyCode::Char('x'), KeyCode::Tab] {
        assert_eq!(p.handle_key(&key(code)), ModalKey::Consumed);
        assert_eq!(p.list.selected_index(), 0);
        assert!(!p.effort_dirty);
    }
}

// ── submit ──

#[test]
fn untouched_enter_cancels_where_the_active_model_is_not_offered() {
    let mut info = test_session_info();
    info.config.model_id = "acme-opus-4-6".to_owned();
    let mut p = ModelEffortPicker::new(&info);
    assert_eq!(p.list.selected_index(), 0);
    assert_eq!(p.submit(), ModalKey::Cancelled);
    // Away and back is no move.
    p.handle_key(&key(KeyCode::Down));
    p.handle_key(&key(KeyCode::Up));
    assert_eq!(p.handle_key(&key(KeyCode::Enter)), ModalKey::Cancelled);
    p.handle_key(&key(KeyCode::Char('5')));
    assert_eq!(
        p.handle_key(&key(KeyCode::Enter)),
        ModalKey::Submitted(ModalAction::User(UserAction::SwapConfig {
            model: Some(ResolvedModelId::new("acme-haiku-4-5".to_owned())),
            effort: None,
        })),
    );
}

// ── effort row ──

#[test]
fn effort_row_tells_the_level_and_whether_it_is_the_default() {
    let row = picker().render_effort_row().expect("Opus has an effort tier");
    assert_eq!(row.text, "high effort");
    assert_eq!(row.color, TierColor::Green);
    let mut info = test_session_info();
    info.config.effort = None;
    let mut p = ModelEffortPicker::new(&info);
    assert_eq!(p.render_effort_row().unwrap().text, "xhigh effort (default)");
    p.handle_key(&key(KeyCode::Right));
    assert_eq!(p.render_effort_row().unwrap().text, "max effort");
    p.handle_key(&key(KeyCode::Char('5')));
    assert_eq!(p.render_effort_row(), None);
}

// ── height ──

#[test]
fn height_drops_when_highlighted_model_lacks_effort_tier() {
    // The effort row + spacer (2 rows) only render when the highlighted model has an
    // effort tier. Pin the no-tier path so a regression that always reserves the row
    // fails here.
    let mut p = picker();
    let with_tier = p.height(80);
    p.handle_key(&key(KeyCode::Char('5'))); // jump to Haiku 4.5
    let no_tier = p.height(80);
    assert_eq!(
        with_tier.saturating_sub(no_tier),
        2,
        "no-tier model drops exactly the effort row + spacer",
    );
    assert_eq!(no_tier, 82);
    assert_eq!(p.height(u16::MAX - 2), u16::MAX, "no room is kept for an effort row");
}

// ── layout ──

#[test]
fn layout_stacks_list_effort_and_footer() {
    let p = picker();
    let area = Area { x: 2, y: 10, width: 40, height: 12 };
    let places = p.layout(area, 7);
    assert_eq!(places.list, Area { x: 2, y: 10, width: 40, height: 7 });
    assert_eq!(places.effort, Some(Area { x: 2, y: 18, width: 40, height: 1 }));
    assert_eq!(places.footer, Some(Area { x: 2, y: 20, width: 40, height: 1 }));
}

#[test]
fn layout_drops_what_has_no_room() {
    let mut p = picker();
    let area = Area { x: 0, y: 0, width: 40, height: 6 };
    let places = p.layout(area, 7);
    assert_eq!(places.list.height, 6);
    assert_eq!(places.effort, Some(Area { x: 0, y: 8, width: 40, height: 0 }));
    assert_eq!(places.footer, None);
    p.handle_key(&key(KeyCode::Char('5')));
    let area = Area { x: 0, y: 0, width: 40, height: 9 };
    let places = p.layout(area, 7);
    assert_eq!(places.effort, None);
    assert_eq!(places.footer, Some(Area { x: 0, y: 8, width: 40, height: 1 }));
}
