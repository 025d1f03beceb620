use oxide_code::event::UserAction;
use oxide_code::slash::command::{execute, BuiltIn, Overlay, SlashContext, SlashOutcome};
use oxide_code::slash::context::test_session_info;
use oxide_code::slash::registry::SlashKind;
use oxide_code::slash::rename::{RenameModal, MAX_TITLE_CHARS};
use oxide_code::tui::modal::{Area, KeyCode, KeyEvent, ModalAction, ModalKey};

fn ctx_with_title(title: Option<&str>) -> SlashContext {
    SlashContext::with_title(test_session_info(), title.map(str::to_owned))
}

fn key(code: KeyCode) -> KeyEvent {
    KeyEvent::plain(code)
}

fn rename_of(ctx: &mut SlashContext) -> RenameModal {
    match ctx.take_modal() {
        Some(Overlay::Rename(m)) => m,
        other => panic!("bare form opens a modal, got {other:?}"),
    }
}

// ── Metadata ──

#[test]
fn rename_metadata_matches_built_ins_contract() {
    assert_eq!(BuiltIn::Rename.name(), "rename");
    assert!(BuiltIn::Rename.aliases().is_empty());
    assert!(!BuiltIn::Rename.description("ACME.md").is_empty());
    assert_eq!(BuiltIn::Rename.usage(), Some("[<title>]"));
}

#[test]
fn rename_classify_is_always_mutating() {
    assert_eq!(BuiltIn::Rename.classify(""), SlashKind::Mutating);
    assert_eq!(BuiltIn::Rename.classify("New Title"), SlashKind::Mutating);
}

#[test]
fn echoes_input_only_for_typed_arg_form() {
    assert!(!BuiltIn::Rename.echoes_input(""));
    assert!(!BuiltIn::Rename.echoes_input("   "));
    assert!(BuiltIn::Rename.echoes_input("New Title"));
}

// ── execute ──

#[test]
fn execute_typed_arg_forwards_rename_action_with_trimmed_title() {
    let mut ctx = ctx_with_title(None);

    let outcome = execute(BuiltIn::Rename, "  Fix auth bug  ", &mut ctx).unwrap();

    assert_eq!(
        outcome,
        SlashOutcome::Forward(UserAction::Rename {
            title: "Fix auth bug".to_owned(),
        }),
    );
    assert!(
        ctx.take_modal().is_none(),
        "typed-arg form does not open a modal"
    );
}

#[test]
fn execute_bare_form_opens_modal_pre_filled_with_current_title() {
    let mut ctx = ctx_with_title(Some("Existing title"));

    let outcome = execute(BuiltIn::Rename, "", &mut ctx).unwrap();

    assert_eq!(outcome, SlashOutcome::Done);
    let mut modal = rename_of(&mut ctx);
    let result = modal.handle_key(&key(KeyCode::Enter));
    let ModalKey::Submitted(ModalAction::User(UserAction::Rename { title })) = result else {
        panic!("Enter on pre-filled buffer must submit; got {result:?}");
    };
    assert_eq!(title, "Existing title");
}

#[test]
fn execute_bare_form_with_no_current_title_opens_empty_modal() {
    let mut ctx = ctx_with_title(None);

    let _ = execute(BuiltIn::Rename, "", &mut ctx).unwrap();
    let mut modal = rename_of(&mut ctx);
    let result = modal.handle_key(&key(KeyCode::Enter));
    assert!(
        matches!(result, ModalKey::Consumed),
        "empty Enter must not submit; got {result:?}",
    );
}

// ── handle_key ──

#[test]
fn handle_key_typing_appends_to_buffer_and_enter_submits_trimmed_title() {
    let mut modal = RenameModal::new(None);
    for ch in "  Fix auth  ".chars() {
        assert!(matches!(
            modal.handle_key(&key(KeyCode::Char(ch))),
            ModalKey::Consumed,
        ));
    }
    let outcome = modal.handle_key(&key(KeyCode::Enter));
    let ModalKey::Submitted(ModalAction::User(UserAction::Rename { title })) = outcome else {
        panic!("trim happens at submit time; got {outcome:?}");
    };
    assert_eq!(title, "Fix auth");
}

#[test]
fn handle_key_backspace_removes_last_char_when_buffer_non_empty() {
    let mut modal = RenameModal::new(Some("ab"));
    assert!(matches!(
        modal.handle_key(&key(KeyCode::Backspace)),
        ModalKey::Consumed,
    ));
    let outcome = modal.handle_key(&key(KeyCode::Enter));
    let ModalKey::Submitted(ModalAction::User(UserAction::Rename { title })) = outcome else {
        panic!("expected Submitted, got {outcome:?}");
    };
    assert_eq!(title, "a");
}

#[test]
fn handle_key_backspace_on_empty_buffer_is_a_silent_noop() {
    let mut modal = RenameModal::new(None);
    assert!(matches!(
        modal.handle_key(&key(KeyCode::Backspace)),
        ModalKey::Consumed,
    ));
}

#[test]
fn handle_key_char_at_max_length_drops_extra_input() {
    // Over-long titles would visually overflow `--list` rows.
    let prefilled: String = "a".repeat(MAX_TITLE_CHARS);
    let mut modal = RenameModal::new(Some(&prefilled));
    modal.handle_key(&key(KeyCode::Char('z')));
    let outcome = modal.handle_key(&key(KeyCode::Enter));
    let ModalKey::Submitted(ModalAction::User(UserAction::Rename { title })) = outcome else {
        panic!("expected Submitted, got {outcome:?}");
    };
    assert_eq!(title.chars().count(), MAX_TITLE_CHARS, "extra char dropped");
    assert!(!title.contains('z'), "the dropped char must not appear");
}

#[test]
fn handle_key_blank_only_buffer_does_not_submit() {
    let mut modal = RenameModal::new(None);
    for _ in 0..3 {
        modal.handle_key(&key(KeyCode::Char(' ')));
    }
    let outcome = modal.handle_key(&key(KeyCode::Enter));
    assert!(
        matches!(outcome, ModalKey::Consumed),
        "all-whitespace Enter must not submit; got {outcome:?}",
    );
}

#[test]
fn long_titles_are_cut_by_characters() {
    let modal = RenameModal::new(Some(&"é".repeat(100)));
    assert_eq!(modal.buffer().chars().count(), 80);
}

// ── Drawing ──

#[test]
fn input_is_cut_to_the_columns_behind_the_prompt() {
    let modal = RenameModal::new(Some("日本語のタイトル"));
    assert_eq!(modal.input_row(40), "日本語のタイトル");
    assert_eq!(modal.input_row(12), "日本語...");
    assert_eq!(modal.input_row(2), "...");
}

#[test]
fn cursor_stands_behind_the_text() {
    let modal = RenameModal::new(Some("日本"));
    let area = Area { x: 3, y: 7, width: 40, height: 5 };
    assert_eq!(modal.place_cursor(area), Some((3 + 2 + 4, 9)));
    let low = Area { x: 3, y: 7, width: 40, height: 2 };
    assert_eq!(modal.place_cursor(low), None);
}
