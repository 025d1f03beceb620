use oxide_code::slash::confirm::{
    may_delete, ConfirmDeleteSessionModal, ConfirmStep, Deletion, LIVE_REFUSAL, TITLE,
};
use oxide_code::tui::modal::{KeyCode, KeyEvent, ModalAction, ModalKey, Tone};

fn key(code: KeyCode) -> KeyEvent {
    KeyEvent::plain(code)
}

fn seed_modal(id: &str, title: &str) -> ConfirmDeleteSessionModal {
    ConfirmDeleteSessionModal::new(
        format!("{id:0<36}"),
        title.to_owned(),
        "3 msgs · 2 hours ago".to_owned(),
        "live-session-id".to_owned(),
    )
}

fn dump(modal: &ConfirmDeleteSessionModal, width: u16) -> String {
    let lines: Vec<String> = modal.lines(width).into_iter().map(|l| l.text).collect();
    lines.join("\n")
}

/// Presses a key and, where the session is to be deleted, deletes it from `sessions`.
fn press(
    modal: &mut ConfirmDeleteSessionModal,
    code: KeyCode,
    sessions: &mut Vec<String>,
) -> ModalKey {
    match modal.handle_key(&key(code)) {
        ConfirmStep::Key(k) => k,
        ConfirmStep::Delete => {
            let outcome = match may_delete(&modal.session_id, &modal.live_session_id) {
                Deletion::Refused => Err(LIVE_REFUSAL.to_owned()),
                Deletion::Allowed => {
                    let gone = modal.session_id.clone();
                    sessions.retain(|s| *s != gone);
                    Ok(())
                }
            };
            modal.confirm(outcome)
        }
    }
}

// ── Lines ──

#[test]
fn render_paints_title_identity_metadata_and_footer() {
    let modal = seed_modal("abcd1234", "Fix auth flow");
    let dump = dump(&modal, 60);
    assert!(dump.contains(TITLE), "title appears: {dump}");
    assert!(dump.contains("abcd1234"), "id prefix appears: {dump}");
    assert!(dump.contains("Fix auth flow"), "title appears: {dump}");
    assert!(
        dump.contains("3 msgs · 2 hours ago"),
        "metadata appears: {dump}"
    );
    assert!(dump.contains("[Y] delete"), "footer hint appears: {dump}");
}

#[test]
fn render_appends_error_row_when_previous_attempt_failed() {
    let mut modal = seed_modal("abcd1234", "Fix auth flow");
    modal.error = Some("permission denied".to_owned());
    // Height grows by one to accommodate the error row.
    assert_eq!(modal.height(), 7, "error row claims an extra line");
    let dump = dump(&modal, 60);
    assert!(dump.contains("permission denied"), "error visible: {dump}");
    let last = modal.lines(60).pop().unwrap();
    assert_eq!(last.text, "! permission denied");
    assert_eq!(last.tone, Tone::Error);
}

#[test]
fn render_does_not_panic_at_minimum_widths() {
    let modal = seed_modal("abcd1234", "T");
    for w in [4_u16, 8, 20] {
        assert_eq!(modal.lines(w).len(), 6);
    }
    assert_eq!(modal.lines(4)[2].text, "abcd1...", "eight columns at least");
}

// ── handle_key ──

#[test]
fn y_press_runs_delete_and_submits_with_chat_confirmation() {
    let mut modal = seed_modal("abcd1234", "Fix auth flow");
    let id_to_delete = modal.session_id.clone();
    let mut sessions = vec![id_to_delete.clone()];

    let outcome = press(&mut modal, KeyCode::Char('y'), &mut sessions);
    let ModalKey::Submitted(ModalAction::SystemMessage(msg)) = outcome else {
        panic!("Y must Submit(SystemMessage); got {outcome:?}");
    };
    assert!(
        msg.starts_with("Deleted session abcd1234"),
        "confirmation must lead with the id prefix: {msg}",
    );
    assert!(
        msg.contains("Fix auth flow"),
        "confirmation includes title: {msg}"
    );
    assert!(
        sessions.iter().all(|s| *s != id_to_delete),
        "row gone from list",
    );
}

#[test]
fn enter_press_is_an_alias_for_y_and_runs_delete() {
    let mut modal = seed_modal("abcd1234", "Fix auth flow");
    let mut sessions = vec![modal.session_id.clone()];
    let outcome = press(&mut modal, KeyCode::Enter, &mut sessions);
    assert!(matches!(
        outcome,
        ModalKey::Submitted(ModalAction::SystemMessage(_)),
    ));
    assert!(sessions.is_empty());
}

#[test]
fn uppercase_y_also_confirms() {
    let mut modal = seed_modal("abcd1234", "Fix auth");
    let outcome = press(&mut modal, KeyCode::Char('Y'), &mut Vec::new());
    assert!(matches!(
        outcome,
        ModalKey::Submitted(ModalAction::SystemMessage(_)),
    ));
}

#[test]
fn n_press_cancels_without_running_delete() {
    let mut modal = seed_modal("abcd1234", "Fix auth flow");
    let id_kept = modal.session_id.clone();
    let mut sessions = vec![id_kept.clone()];

    let outcome = press(&mut modal, KeyCode::Char('n'), &mut sessions);
    assert!(
        matches!(outcome, ModalKey::Cancelled),
        "N must Cancel; got {outcome:?}"
    );
    assert!(
        sessions.iter().any(|s| *s == id_kept),
        "session must still exist after cancel",
    );
}

#[test]
fn confirm_failure_stays_open_with_inline_error_then_clears_on_next_key() {
    // Same-id-as-live is refused; modal must stay on screen with the
    // error visible. A subsequent unrecognized key clears the error so the user can re-attempt.
    let live_id = format!("{:0<36}", "abcd1234");
    let mut modal = ConfirmDeleteSessionModal::new(
        live_id.clone(),
        "Fix auth flow".to_owned(),
        "3 msgs · 2 hours ago".to_owned(),
        live_id.clone(),
    );
    let mut sessions = vec![live_id.clone()];

    let outcome = press(&mut modal, KeyCode::Char('y'), &mut sessions);
    assert!(matches!(outcome, ModalKey::Consumed));
    let err = modal.error.as_deref().expect("error must latch on failure");
    assert!(
        err.contains("refusing to delete the live session"),
        "got: {err}"
    );
    assert!(
        sessions.iter().any(|s| *s == live_id),
        "row must still exist after refused delete",
    );

    // An unrelated key clears the latch so the next attempt isn't shadowed by stale text.
    let outcome = press(&mut modal, KeyCode::Char('x'), &mut sessions);
    assert!(matches!(outcome, ModalKey::Consumed));
    assert!(modal.error.is_none(), "error cleared on next press");
}

#[test]
fn unrecognized_keys_consume_silently_without_running_delete() {
    let mut modal = seed_modal("abcd1234", "Fix auth flow");
    let mut sessions = vec![modal.session_id.clone()];
    let outcome = press(&mut modal, KeyCode::Char('z'), &mut sessions);
    assert!(matches!(outcome, ModalKey::Consumed));
    assert!(
        !sessions.is_empty(),
        "session untouched on unrecognized key",
    );
}

#[test]
fn cancelling_takes_the_failure_off_the_screen() {
    let mut modal = seed_modal("abcd1234", "Fix auth flow");
    modal.error = Some("permission denied".to_owned());
    assert!(matches!(press(&mut modal, KeyCode::Char('n'), &mut vec![]), ModalKey::Cancelled));
    assert!(modal.error.is_none());
}
