use oxide_code::event::UserAction;
use oxide_code::session::display::format_relative_time;
use oxide_code::session::entry::{ExitInfo, SessionInfo, TitleInfo};
use oxide_code::slash::command::{execute, BuiltIn, Overlay, SlashContext, SlashOutcome, Work};
use oxide_code::slash::confirm::ConfirmStep;
use oxide_code::slash::context::{stamped_id, test_session_info};
use oxide_code::slash::delete::metadata_line;
use oxide_code::slash::dispatch::{delete_by_id, resume_by_id, show_sessions, Found};
use oxide_code::slash::registry::SlashKind;
use oxide_code::slash::resume::{
    can_look_up, match_in_scope, pluralize, resolve_prefix, Lookup, ResumePicker, ResumeStep, SessionRow,
};
use oxide_code::tui::modal::{Area, KeyCode, KeyEvent, ModalAction, ModalKey};

const SECOND: i128 = 1_000_000_000;

/// 2026-04-18 09:00:00 UTC.
const APRIL_18: i128 = 1_776_502_800 * SECOND;

/// 2026-05-08 12:00:00 UTC.
const MAY_8: i128 = 1_778_241_600 * SECOND;

/// 2026-05-08 09:00:00 UTC.
const MAY_8_MORNING: i128 = 1_778_230_800 * SECOND;

const ID_WIDTH: usize = 8;

type Listing = Result<Vec<SessionInfo>, String>;

fn key(code: KeyCode) -> KeyEvent {
    KeyEvent::plain(code)
}

fn control(c: char) -> KeyEvent {
    KeyEvent::with_control(KeyCode::Char(c))
}

fn raw_session_info_full(
    session_id: &str,
    cwd: &str,
    title: Option<&str>,
    last_active_at: i128,
    message_count: Option<u32>,
    git_branch: Option<&str>,
) -> SessionInfo {
    SessionInfo {
        session_id: session_id.to_owned(),
        cwd: cwd.to_owned(),
        model: "acme-opus-4-7".to_owned(),
        created_at: last_active_at,
        last_active_at,
        title: title.map(|t| TitleInfo {
            title: t.to_owned(),
            updated_at: last_active_at,
        }),
        exit: message_count.map(|message_count| ExitInfo {
            message_count,
            updated_at: last_active_at,
        }),
        git_branch: git_branch.map(str::to_owned),
    }
}

fn raw_session_info(
    session_id: &str,
    cwd: &str,
    title: Option<&str>,
    last_active_at: i128,
) -> SessionInfo {
    raw_session_info_full(session_id, cwd, title, last_active_at, None, None)
}

fn seeded(rows: &[(u8, &str)]) -> Vec<SessionInfo> {
    rows.iter()
        .map(|(byte, title)| {
            raw_session_info_full(
                &stamped_id(*byte),
                "/work/oxide",
                Some(title),
                APRIL_18 + i128::from(*byte) * SECOND,
                Some(1),
                None,
            )
        })
        .collect()
}

fn picker_over(rows: &[(u8, &str)]) -> ResumePicker {
    ResumePicker::new(Ok(seeded(rows)), "live-session-id".to_owned(), 0, None)
}

fn press(picker: &mut ResumePicker, code: KeyCode) -> ModalKey {
    match picker.handle_key(&key(code)) {
        ResumeStep::Key(k) => k,
        other => panic!("expected an answer for {code:?}, got {other:?}"),
    }
}

// ── SessionRow ──

#[test]
fn from_info_handles_title_present_and_absent() {
    let absent = raw_session_info(&stamped_id(0xab), "/work/oxide", None, APRIL_18);
    let row = SessionRow::from_info(&absent, 0, true, None);
    assert_eq!(row.id_prefix().len(), ID_WIDTH);
    assert_eq!(row.title, "(untitled)");
    assert!(row.haystack.contains(&row.session_id));
    assert!(row.haystack.contains("/work/oxide"));

    let present = raw_session_info(&stamped_id(0xcd), "/work/oxide", Some("Fix auth bug"), APRIL_18);
    let row = SessionRow::from_info(&present, 0, true, None);
    assert_eq!(row.title, "Fix auth bug");
    assert!(row.haystack.contains("Fix auth bug"));
}

#[test]
fn from_info_in_scoped_mode_omits_project_from_haystack_and_metadata() {
    // scope=current means every visible row shares the project — surfacing it would be
    // visual noise and would confuse the substring filter.
    let info = raw_session_info(&stamped_id(0xab), "/work/oxide", Some("Fix auth"), APRIL_18);
    let row = SessionRow::from_info(&info, 0, false, None);
    assert!(
        row.project.is_none(),
        "scoped rows must not carry a project"
    );
    assert!(
        !row.haystack.contains("/work/oxide"),
        "scoped haystack must not contain the project path: {}",
        row.haystack,
    );
}

#[test]
fn rows_show_the_home_directory_as_a_tilde() {
    let info = raw_session_info(&stamped_id(0xab), "/home/me/oxide", Some("Fix"), APRIL_18);
    let row = SessionRow::from_info(&info, 0, true, Some("/home/me"));
    assert_eq!(row.project.as_deref(), Some("~/oxide"));
    assert_eq!(row.haystack, format!("{} Fix ~/oxide", stamped_id(0xab)));
}

// ── Lines ──

#[test]
fn render_paints_title_then_metadata_with_id_prefix_and_relative_time() {
    let info = raw_session_info(&stamped_id(0xab), "/work/oxide", Some("Fix auth"), APRIL_18);
    let row = SessionRow::from_info(&info, 0, true, None);
    let (title_text, meta_text) = row.lines(&row.metadata_line(), 60);
    assert!(title_text.contains("Fix auth"), "title row: {title_text}");
    assert!(meta_text.contains(row.id_prefix()), "meta row: {meta_text}");
    assert!(
        meta_text.contains(" ago") || meta_text.contains('-'),
        "meta row must carry a relative time or ISO date: {meta_text}",
    );
}

#[test]
fn render_metadata_includes_msg_count_and_git_branch_when_present() {
    // The full picker row: id · time · N msgs · branch · project. Singular vs plural is
    // exercised here too — `1 msg` vs `5 msgs`.
    let info = raw_session_info_full(
        &stamped_id(0xab),
        "/work/oxide",
        Some("Fix auth"),
        APRIL_18,
        Some(14),
        Some("feat/login"),
    );
    let row = SessionRow::from_info(&info, 0, true, None);
    let (_, meta) = row.lines(&row.metadata_line(), 80);
    assert!(meta.contains("14 msgs"), "plural msgs: {meta}");
    assert!(meta.contains("feat/login"), "branch: {meta}");

    let single = raw_session_info_full(
        &stamped_id(0xcd),
        "/work/oxide",
        Some("First turn"),
        APRIL_18,
        Some(1),
        None,
    );
    let row = SessionRow::from_info(&single, 0, false, None);
    let (_, meta) = row.lines(&row.metadata_line(), 80);
    assert!(meta.contains("1 msg"), "singular: {meta}");
    assert!(!meta.contains("1 msgs"), "no `1 msgs` plural slip: {meta}");
}

#[test]
fn render_metadata_omits_msg_count_when_session_never_finalized() {
    // `exit: None` means no Summary line was found — surface no count rather than `0 msgs`.
    let info = raw_session_info(&stamped_id(0xab), "/work/oxide", Some("Fix auth"), APRIL_18);
    let row = SessionRow::from_info(&info, 0, false, None);
    let (_, meta) = row.lines(&row.metadata_line(), 60);
    assert!(
        !meta.contains("msgs"),
        "no count when exit is missing: {meta}"
    );
    assert!(!meta.contains("msg"), "no singular either: {meta}");
}

#[test]
fn long_titles_are_cut_to_the_width() {
    let info = raw_session_info(&stamped_id(0xab), "/w", Some("A rather long title"), APRIL_18);
    let row = SessionRow::from_info(&info, 0, false, None);
    assert_eq!(row.lines("m", 12).0, "A rather ...");
    assert_eq!(row.lines("m", 2).0, "A rat...", "never below eight columns");
}

// ── format_relative_time ──

#[test]
fn format_relative_time_pluralizes_units_and_falls_back_to_iso_date_past_30_days() {
    let now = MAY_8;
    let at = |seconds: i128| format_relative_time(now - seconds * SECOND, 0, now);
    // Singular at the 1-of-each boundary, plural everywhere else.
    assert_eq!(at(1), "1 second ago");
    assert_eq!(at(3), "3 seconds ago");
    assert_eq!(at(60), "1 minute ago");
    assert_eq!(at(120), "2 minutes ago");
    assert_eq!(at(3600), "1 hour ago");
    assert_eq!(at(5 * 3600), "5 hours ago");
    assert_eq!(at(86_400), "1 day ago");
    assert_eq!(at(3 * 86_400), "3 days ago");
    // 30+ days falls back to the absolute ISO date.
    assert_eq!(at(60 * 86_400), "2026-03-09");
    // Negative delta (future stamp / clock skew) collapses to "0 seconds ago" rather than
    // emitting "-30 seconds ago".
    assert_eq!(at(-30), "0 seconds ago");
}

#[test]
fn units_take_an_s_unless_there_is_one() {
    assert_eq!(pluralize(1, "day"), "day");
    assert_eq!(pluralize(0, "day"), "days");
    assert_eq!(pluralize(-1, "day"), "days");
}

// ── ResumePicker::new ──

#[test]
fn new_loads_current_project_rows_into_searchable_list() {
    let picker = picker_over(&[(0x11, "First"), (0x22, "Second")]);
    assert_eq!(
        picker.total(), 2,
        "both seeded sessions should populate the list",
    );
}

#[test]
fn new_filters_out_live_session_to_block_self_resume() {
    // Critical invariant: the live session id never appears as a row, so the user can't
    // submit a Resume that would race the open append-writer.
    let live_id = stamped_id(0x11);
    let picker = ResumePicker::new(
        Ok(seeded(&[(0x11, "live"), (0x22, "other")])),
        live_id.clone(),
        0,
        None,
    );
    assert_eq!(picker.total(), 1, "live session must be filtered out");
    let visible_id = picker
        .selected()
        .expect("one row remaining")
        .session_id
        .clone();
    assert_ne!(visible_id, live_id);
}

// ── ResumePicker::reload ──

#[test]
fn reload_sets_load_error_and_clears_rows_when_list_paged_fails() {
    // The picker must surface a failure as `load_error` (so the footer can
    // distinguish "0 sessions" from "load failed") and zero out `total`.
    let mut picker = ResumePicker::new(
        Err("no such directory".to_owned()),
        "live-session-id".to_owned(),
        0,
        None,
    );
    assert_eq!(picker.load_error(), Some("failed to load sessions: no such directory"));
    assert_eq!(picker.total(), 0, "no rows materialise on the Err arm");
    picker.reload(Ok(seeded(&[(0x11, "back")])), None);
    assert_eq!(picker.load_error(), None, "a listing that worked clears it");
    assert_eq!(picker.total(), 1);
}

// ── ResumePicker::submit ──

#[test]
fn enter_with_selection_emits_resume_action() {
    let mut picker = picker_over(&[(0x11, "only")]);
    let outcome = press(&mut picker, KeyCode::Enter);
    let ModalKey::Submitted(ModalAction::User(UserAction::Resume { session_id })) = outcome else {
        panic!("expected Submitted(Resume), got {outcome:?}");
    };
    assert_eq!(session_id, stamped_id(0x11));
}

#[test]
fn enter_with_no_rows_keeps_picker_open() {
    let mut picker = picker_over(&[]);
    assert!(matches!(
        press(&mut picker, KeyCode::Enter),
        ModalKey::Consumed,
    ));
}

// ── ResumePicker::footer_text ──

#[test]
fn footer_text_singular_plural_and_scope_label() {
    // Three permutations: 1 + current_project (singular + scoped), 0 + all_projects after
    // Tab (zero plural + widened), 2 + current_project (plural + scoped).
    let picker = picker_over(&[(0x11, "only")]);
    assert_eq!(
        picker.footer_text(),
        "1 session · scope: current project · Tab to toggle · Enter to resume · \
         Ctrl+D to delete · Esc to cancel",
    );

    let mut empty = picker_over(&[]);
    assert_eq!(empty.handle_key(&key(KeyCode::Tab)), ResumeStep::Reload);
    empty.reload(Ok(vec![]), None);
    assert_eq!(
        empty.footer_text(),
        "0 sessions · scope: all projects · Tab to toggle · Enter to resume · \
         Ctrl+D to delete · Esc to cancel",
    );

    let picker_two = picker_over(&[(0x11, "t"), (0x22, "t")]);
    assert!(
        picker_two
            .footer_text()
            .starts_with("2 sessions · scope: current project")
    );
}

#[test]
fn footer_text_shows_filtered_over_total_when_query_active() {
    let mut picker = picker_over(&[(0x11, "auth fix"), (0x22, "ui tweak"), (0x33, "ai title")]);
    for c in "fix".chars() {
        press(&mut picker, KeyCode::Char(c));
    }
    let footer = picker.footer_text();
    assert!(
        footer.starts_with("1 / 3 matching · scope:"),
        "filter `fix` should narrow to one title but keep `total` visible: {footer}",
    );
}

// ── Places ──

#[test]
fn render_skips_footer_when_area_too_short_for_two_rows_below_list() {
    // If there are less than `list_h + 2` rows the picker drops
    // the footer rather than spilling into the list area.
    let picker = picker_over(&[]);
    assert_eq!(picker.height(10), 12);
    let area = Area { x: 0, y: 0, width: 60, height: 1 };
    let places = picker.layout(area, 10);
    assert_eq!(places.list.height, 1);
    assert_eq!(places.footer, None);
    let area = Area { x: 0, y: 4, width: 60, height: 12 };
    assert_eq!(
        picker.layout(area, 10).footer,
        Some(Area { x: 0, y: 15, width: 60, height: 1 }),
    );
}

// ── handle_key ──

#[test]
fn typing_filters_rows_via_searchable_list() {
    let mut picker = picker_over(&[(0x11, "Auth fix"), (0x22, "Refactor pass")]);
    for c in "auth".chars() {
        press(&mut picker, KeyCode::Char(c));
    }
    assert_eq!(picker.visible_len(), 1, "only `Auth fix` should match");
}

#[test]
fn backspace_pops_one_char_from_query() {
    let mut picker = picker_over(&[(0x11, "Auth")]);
    for c in "ab".chars() {
        press(&mut picker, KeyCode::Char(c));
    }
    press(&mut picker, KeyCode::Backspace);
    assert_eq!(picker.query(), "a");
}

#[test]
fn ctrl_u_clears_query() {
    let mut picker = picker_over(&[(0x11, "Auth")]);
    for c in "zzz".chars() {
        press(&mut picker, KeyCode::Char(c));
    }
    assert_eq!(picker.visible_len(), 0);
    picker.handle_key(&control('u'));
    assert_eq!(picker.query(), "");
    assert_eq!(picker.visible_len(), 1);
}

#[test]
fn navigation_keys_move_cursor_within_visible_set() {
    let mut picker = picker_over(&[(0x10, "row-0"), (0x11, "row-1"), (0x12, "row-2")]);
    assert_eq!(picker.cursor_index(), 0);
    press(&mut picker, KeyCode::Down);
    assert_eq!(picker.cursor_index(), 1);
    press(&mut picker, KeyCode::Up);
    assert_eq!(picker.cursor_index(), 0);
    press(&mut picker, KeyCode::PageDown);
    assert_eq!(
        picker.cursor_index(),
        2,
        "PageDown clamps at last visible row",
    );
    press(&mut picker, KeyCode::PageUp);
    assert_eq!(picker.cursor_index(), 0, "PageUp clamps at zero");
}

#[test]
fn tab_toggles_scope_and_reloads_rows() {
    let mut picker = picker_over(&[(0x11, "only")]);
    assert!(!picker.all());
    assert_eq!(picker.handle_key(&key(KeyCode::Tab)), ResumeStep::Reload);
    assert!(picker.all(), "Tab flips scope to all-projects");
    assert!(picker.footer_text().contains("all projects"));
    assert_eq!(picker.handle_key(&key(KeyCode::Tab)), ResumeStep::Reload);
    assert!(!picker.all(), "second Tab flips back");
}

#[test]
fn tab_widens_scope_to_other_project_sessions_and_preserves_query() {
    // Bare picker stays scoped; Tab widens AND preserves the typed filter.
    let mut picker = picker_over(&[(0x11, "local")]);
    assert_eq!(picker.total(), 1, "scoped: only the home project");
    for c in "11".chars() {
        press(&mut picker, KeyCode::Char(c));
    }
    assert_eq!(picker.query(), "11");
    assert_eq!(picker.handle_key(&key(KeyCode::Tab)), ResumeStep::Reload);
    picker.reload(Ok(seeded(&[(0x11, "local"), (0x22, "foreign")])), None);
    assert_eq!(picker.total(), 2, "Tab widens to all projects");
    assert_eq!(
        picker.query(),
        "11",
        "Tab must not reset the user's filter",
    );
    assert_eq!(
        picker.visible_row(0).unwrap().project.as_deref(),
        Some("/work/oxide"),
        "a widened row tells its project",
    );
}

#[test]
fn unrecognized_keys_are_consumed_without_side_effects() {
    // Both bare unhandled keys (Insert) and Ctrl + non-`u` chars are absorbed silently —
    // neither may push into the filter or move the cursor.
    let mut picker = picker_over(&[(0x11, "only")]);
    let outcome = press(&mut picker, KeyCode::Insert);
    assert!(matches!(outcome, ModalKey::Consumed));
    assert_eq!(picker.query(), "");
    assert_eq!(picker.cursor_index(), 0);

    picker.handle_key(&control('a'));
    assert_eq!(picker.query(), "");
}

#[test]
fn ctrl_d_pushes_confirm_modal_for_cursor_row() {
    // Both gestures route to the same confirm push — verifies the dual-binding contract from
    // the picker footer hint.
    let mut picker = picker_over(&[(0x11, "Fix auth")]);
    let outcome = picker.handle_key(&control('d'));
    assert!(
        matches!(outcome, ResumeStep::Push(_)),
        "Ctrl+D must push the confirm modal; got {outcome:?}",
    );

    let outcome = picker.handle_key(&key(KeyCode::Delete));
    let ResumeStep::Push(question) = outcome else {
        panic!("Delete key must push the confirm modal; got {outcome:?}");
    };
    assert_eq!(question.session_id, stamped_id(0x11));
    assert_eq!(question.display_title, "Fix auth");
    assert_eq!(question.live_session_id, "live-session-id");
    assert!(question.metadata.starts_with(&stamped_id(0x11)[..ID_WIDTH]), "{}", question.metadata);
}

#[test]
fn ctrl_d_with_no_rows_consumes_silently_instead_of_pushing() {
    // No selection → no row identity to confirm against. Better to consume than to surface a
    // confused-looking "delete (nothing)?" modal.
    let mut picker = picker_over(&[]);
    assert_eq!(picker.handle_key(&control('d')), ResumeStep::Key(ModalKey::Consumed));
}

// ── on_focus_regained ──

#[test]
fn on_focus_regained_reloads_rows_so_an_externally_deleted_session_disappears() {
    let mut picker = picker_over(&[(0x11, "first"), (0x22, "second")]);
    assert_eq!(picker.total(), 2, "both seeded rows present");

    picker.on_focus_regained(Ok(seeded(&[(0x22, "second")])), None);
    assert_eq!(picker.total(), 1, "deleted row drops on reload");
}

#[test]
fn on_focus_regained_preserves_cursor_when_row_is_still_present() {
    // Cancel-delete must leave the user on the row they were inspecting; without re-seeking
    // after reload, replace_items would yank the cursor back to row 0.
    let rows = [(0x11, "first"), (0x22, "second"), (0x33, "third")];
    let mut picker = picker_over(&rows);
    press(&mut picker, KeyCode::Down);
    let pinned = picker.selected().unwrap().session_id.clone();

    picker.on_focus_regained(Ok(seeded(&rows)), None);
    let after = picker.selected().unwrap().session_id.clone();
    assert_eq!(
        after, pinned,
        "cursor must remain on the previously selected row"
    );
}

#[test]
fn on_focus_regained_falls_back_to_top_when_previously_selected_row_was_deleted() {
    // If the row is gone, the cursor stays at the post-reload zero.
    let mut picker = picker_over(&[(0x11, "first"), (0x22, "doomed"), (0x33, "third")]);
    press(&mut picker, KeyCode::Down);
    let target = stamped_id(0x22);
    assert_eq!(picker.selected().unwrap().session_id, target);

    picker.on_focus_regained(Ok(seeded(&[(0x11, "first"), (0x33, "third")])), None);
    assert_eq!(picker.total(), 2, "deleted row dropped");
    assert_ne!(
        picker.selected().unwrap().session_id,
        target,
        "cursor moved off the deleted row",
    );
    assert_eq!(picker.cursor_index(), 0);
}

#[test]
fn ctrl_d_then_y_through_modal_stack_unlinks_the_session() {
    // End-to-end: Ctrl+D puts the question above the picker, Y deletes and goes back to it.
    let mut sessions = seeded(&[(0x11, "first"), (0x22, "second")]);
    let mut picker = picker_over(&[(0x11, "first"), (0x22, "second")]);
    let ResumeStep::Push(mut question) = picker.handle_key(&control('d')) else {
        panic!("Ctrl+D must push the question");
    };
    assert_eq!(question.handle_key(&key(KeyCode::Char('y'))), ConfirmStep::Delete);
    sessions.retain(|s| s.session_id != question.session_id);
    assert_eq!(
        question.confirm(Ok(())),
        ModalKey::Submitted(ModalAction::SystemMessage(
            "Deleted session 11111111: first".to_owned(),
        )),
    );
    assert_eq!(sessions.len(), 1, "one row was actually deleted");
    picker.on_focus_regained(Ok(sessions), None);
    assert_eq!(picker.total(), 1, "picker remains after the question");
}

// ── Command ──

#[test]
fn resume_metadata_matches_built_ins_contract() {
    assert_eq!(BuiltIn::Resume.name(), "resume");
    assert_eq!(BuiltIn::Resume.aliases(), &["continue"]);
    assert!(!BuiltIn::Resume.description("ACME.md").is_empty());
    assert_eq!(BuiltIn::Resume.usage(), Some("[<id-prefix>]"));
}

#[test]
fn resume_classify_is_always_mutating() {
    // Both forms reach the agent loop (typed-arg → Forward; picker → modal-submitted Resume),
    // and mid-turn user actions get dropped, so neither may run while busy.
    assert_eq!(BuiltIn::Resume.classify(""), SlashKind::Mutating);
    assert_eq!(BuiltIn::Resume.classify("   "), SlashKind::Mutating);
    assert_eq!(BuiltIn::Resume.classify("ab"), SlashKind::Mutating);
}

#[test]
fn echoes_input_only_when_arg_present() {
    assert!(!BuiltIn::Resume.echoes_input(""));
    assert!(BuiltIn::Resume.echoes_input("ab"));
}

#[test]
fn execute_bare_opens_picker_with_no_chat_writes() {
    let mut ctx = SlashContext::new(test_session_info());
    let outcome = execute(BuiltIn::Resume, "", &mut ctx).unwrap();
    assert_eq!(outcome, SlashOutcome::Ask(Work::Sessions));
    show_sessions(Ok(vec![]), 0, None, &mut ctx);
    assert!(
        matches!(ctx.take_modal(), Some(Overlay::Resume(_))),
        "bare /resume must open a modal"
    );
    assert_eq!(ctx.chat.entry_count(), 0);
}

/// Carries out `/resume` or `/delete` with a prefix over the sessions of the project and of all.
fn by_id(cmd: BuiltIn, arg: &str, scoped: Listing, all: Listing) -> (SlashContext, Found) {
    let mut ctx = SlashContext::new(test_session_info());
    let name = cmd.name();
    let widened = Some(all);
    match execute(cmd, arg, &mut ctx) {
        Ok(SlashOutcome::Ask(Work::ResumeById { prefix })) => {
            let mut found = resume_by_id(name, &prefix, &scoped, &None, &mut ctx);
            if found == Found::Widen {
                found = resume_by_id(name, &prefix, &scoped, &widened, &mut ctx);
            }
            (ctx, found)
        }
        Ok(SlashOutcome::Ask(Work::DeleteById { prefix })) => {
            let mut found = delete_by_id(name, &prefix, &scoped, &None, 0, None, &mut ctx);
            if found == Found::Widen {
                found = delete_by_id(name, &prefix, &scoped, &widened, 0, None, &mut ctx);
            }
            (ctx, found)
        }
        other => panic!("expected a lookup, got {other:?}"),
    }
}

#[test]
fn resume_execute_with_unknown_prefix_returns_friendly_error() {
    let (ctx, found) = by_id(BuiltIn::Resume, "zzz1234", Ok(vec![]), Ok(vec![]));
    assert_eq!(found, Found::Nothing);
    let err = ctx.chat.last_error_text().unwrap();
    assert!(err.contains("no session matching"), "{err}");
}

#[test]
fn execute_typed_arg_unique_match_emits_forward_with_resolved_id() {
    let target_id = stamped_id(0xab);
    // 4-char prefix is enough to pin a single session in the seeded store.
    let (_, found) = by_id(
        BuiltIn::Resume,
        &target_id[..4],
        Ok(seeded(&[(0xab, "only")])),
        Ok(vec![]),
    );
    assert_eq!(found, Found::Action(UserAction::Resume { session_id: target_id }));
}

#[test]
fn sessions_of_other_projects_are_tried_when_the_project_has_none() {
    let (_, found) = by_id(
        BuiltIn::Resume,
        "2222",
        Ok(seeded(&[(0x11, "here")])),
        Ok(seeded(&[(0x11, "here"), (0x22, "there")])),
    );
    assert_eq!(found, Found::Action(UserAction::Resume { session_id: stamped_id(0x22) }));
    let (ctx, found) = by_id(BuiltIn::Resume, "11", Err("disk".to_owned()), Ok(vec![]));
    assert_eq!(found, Found::Nothing);
    assert_eq!(ctx.chat.last_error_text(), Some("/resume: list sessions: disk"));
}

// ── resolve_prefix ──

fn resolve(sessions: &[SessionInfo], prefix: &str, live: &str) -> Result<String, String> {
    let scoped: Listing = Ok(sessions.iter().map(copy).collect());
    let widened = Some(Ok(sessions.iter().map(copy).collect()));
    match resolve_prefix(&scoped, &widened, prefix, live) {
        Lookup::Found { index, .. } => Ok(sessions[index].session_id.clone()),
        Lookup::Widen => panic!("all sessions are known"),
        Lookup::Failed(e) => Err(e),
    }
}

fn copy(s: &SessionInfo) -> SessionInfo {
    raw_session_info(&s.session_id, &s.cwd, None, s.last_active_at)
}

#[test]
fn resolve_prefix_excludes_live_session_id() {
    let live = stamped_id(0x11);
    let err = resolve(&seeded(&[(0x11, "live")]), &live[..2], &live).unwrap_err();
    assert!(err.contains("no session matching"), "{err}");
}

#[test]
fn resolve_prefix_unique_match_returns_session_id() {
    let id = resolve(&seeded(&[(0x11, "a"), (0x22, "b")]), "1111", "other").unwrap();
    assert_eq!(id, stamped_id(0x11));
}

#[test]
fn resolve_prefix_cuts_no_identifier_of_a_single_match() {
    let odd = "aaaaaaa\u{e9}-1";
    let here = vec![raw_session_info(odd, "/w", None, APRIL_18)];
    assert!(can_look_up(&Ok(here.iter().map(copy).collect()), "aa", "other"));
    assert_eq!(resolve(&here, "aa", "other"), Ok(odd.to_owned()));
    let both = vec![
        raw_session_info(odd, "/w", None, APRIL_18),
        raw_session_info("aabb", "/w", None, APRIL_18),
    ];
    assert!(!can_look_up(&Ok(both.iter().map(copy).collect()), "aa", "other"));
    assert!(can_look_up(&Ok(both.iter().map(copy).collect()), "aa", "aabb"));
}

#[test]
fn resolve_prefix_full_id_match_is_unique() {
    // Pasting a full session id is the common power-user case — must round-trip cleanly
    // and not be confused with an ambiguous prefix.
    let id = stamped_id(0x11);
    assert_eq!(resolve(&seeded(&[(0x11, "a"), (0x22, "b")]), &id, "other").unwrap(), id);
}

#[test]
fn resolve_prefix_ambiguous_lists_short_ids_in_error() {
    let id_a = format!("aaaa{}", &stamped_id(0xaa)[4..]);
    let id_b = format!("aaaa{}", &stamped_id(0xab)[4..]);
    let sessions = vec![
        raw_session_info(&id_a, "/w", Some("a"), APRIL_18),
        raw_session_info(&id_b, "/w", Some("b"), APRIL_18 + SECOND),
    ];
    let err = resolve(&sessions, "aaaa", "other").unwrap_err();
    assert!(err.contains("ambiguous prefix"), "{err}");
    assert!(err.contains(&id_a[..ID_WIDTH]), "expected id_a in {err}");
    assert!(err.contains(&id_b[..ID_WIDTH]), "expected id_b in {err}");
    assert_eq!(
        match_in_scope(&Ok(sessions), "aaaa", "other"),
        Err(format!(
            "ambiguous prefix `aaaa` matches 2 sessions: {}, {}",
            &id_a[..8],
            &id_b[..8],
        )),
    );
}

// ── /delete ──

#[test]
fn delete_metadata_matches_built_ins_contract() {
    assert_eq!(BuiltIn::Delete.name(), "delete");
    assert!(BuiltIn::Delete.aliases().is_empty());
    assert!(!BuiltIn::Delete.description("ACME.md").is_empty());
    assert_eq!(BuiltIn::Delete.usage(), Some("<id-prefix>"));
}

#[test]
fn delete_classify_is_always_mutating() {
    // Both forms touch the sessions (typed-arg pushes a modal that performs the delete; bare
    // emits an error block). Bare's error is informational but still a state-aware response,
    // so Mutating keeps it idle-gated alongside the active form.
    assert_eq!(BuiltIn::Delete.classify(""), SlashKind::Mutating);
    assert_eq!(BuiltIn::Delete.classify("ab"), SlashKind::Mutating);
}

#[test]
fn execute_bare_returns_friendly_error_about_missing_id() {
    let mut ctx = SlashContext::new(test_session_info());
    let err = execute(BuiltIn::Delete, "", &mut ctx).unwrap_err();
    assert!(err.contains("missing id"), "{err}");
    assert!(ctx.take_modal().is_none(), "no modal pushed on bare form");
}

#[test]
fn delete_execute_with_unknown_prefix_returns_friendly_error() {
    let (mut ctx, found) = by_id(BuiltIn::Delete, "zzz1234", Ok(vec![]), Ok(vec![]));
    assert_eq!(found, Found::Nothing);
    let err = ctx.chat.last_error_text().unwrap().to_owned();
    assert!(err.contains("no session matching"), "{err}");
    assert!(ctx.take_modal().is_none());
}

#[test]
fn execute_typed_arg_unique_match_pushes_confirm_modal() {
    let target_id = stamped_id(0xab);
    let (mut ctx, found) = by_id(
        BuiltIn::Delete,
        &target_id[..4],
        Ok(seeded(&[(0xab, "Doomed session")])),
        Ok(vec![]),
    );
    assert_eq!(found, Found::Nothing);
    assert_eq!(ctx.chat.entry_count(), 0);
    let Some(Overlay::ConfirmDelete(question)) = ctx.take_modal() else {
        panic!("typed-arg must push a confirm modal");
    };
    assert_eq!(question.session_id, target_id);
    assert_eq!(question.display_title, "Doomed session");
}

#[test]
fn execute_with_live_id_prefix_excludes_self_and_returns_no_match() {
    // The live session id is filtered out of the resolve path so a typed `/delete <live-id>`
    // surfaces as "no session matching" rather than a confirm modal that would then refuse.
    let live_id = "test-session"; // matches `test_session_info().session_id`.
    let listing = || Ok(vec![raw_session_info(live_id, "/w", Some("Live"), APRIL_18)]);
    let (ctx, _) = by_id(BuiltIn::Delete, live_id, listing(), listing());
    let err = ctx.chat.last_error_text().unwrap();
    assert!(err.contains("no session matching"), "{err}");
}

#[test]
fn execute_ambiguous_prefix_lists_short_ids_in_error() {
    let id_a = format!("aaaa{}", &stamped_id(0xaa)[4..]);
    let id_b = format!("aaaa{}", &stamped_id(0xab)[4..]);
    let sessions = vec![
        raw_session_info(&id_a, "/w", Some("t"), APRIL_18),
        raw_session_info(&id_b, "/w", Some("t"), APRIL_18),
    ];
    let (ctx, _) = by_id(BuiltIn::Delete, "aaaa", Ok(sessions), Ok(vec![]));
    let err = ctx.chat.last_error_text().unwrap();
    assert!(err.contains("ambiguous prefix"), "{err}");
    assert!(err.contains(&id_a[..8]), "first id in {err}");
    assert!(err.contains(&id_b[..8]), "second id in {err}");
}

#[test]
fn format_relative_pluralizes_units_and_falls_back_to_iso_date_past_30_days() {
    let now = MAY_8;
    let at = |seconds: i128| format_relative_time(now - seconds * SECOND, 0, now);
    assert_eq!(at(1), "1 second ago");
    assert_eq!(at(45), "45 seconds ago");
    assert_eq!(at(60), "1 minute ago");
    assert_eq!(at(2 * 3600), "2 hours ago");
    assert_eq!(at(5 * 86_400), "5 days ago");
    assert_eq!(at(60 * 86_400), "2026-03-09");
    assert_eq!(
        at(-30),
        "0 seconds ago",
        "future stamps collapse to 0 rather than negative",
    );
}

#[test]
fn metadata_line_includes_msg_count_and_branch_when_present() {
    let info = raw_session_info_full(
        &stamped_id(0xab),
        "/work/oxide",
        None,
        MAY_8_MORNING,
        Some(14),
        Some("feat/login"),
    );
    let line = metadata_line(&info, 0, None);
    assert!(line.contains(&info.session_id[..8]), "id prefix: {line}");
    assert!(line.contains("14 msgs"), "plural msg count: {line}");
    assert!(line.contains("feat/login"), "branch: {line}");
    assert!(line.ends_with(" · /work/oxide"), "project: {line}");
}

#[test]
fn metadata_line_omits_msg_count_when_session_never_finalized() {
    let info = raw_session_info(&stamped_id(0xcd), "/work", None, MAY_8_MORNING);
    let line = metadata_line(&info, 0, None);
    assert!(!line.contains("msgs"), "no plural: {line}");
    assert!(!line.contains("msg"), "no singular: {line}");
}

// ── stamped_id ──

#[test]
fn stamped_ids_have_the_form_of_a_uuid() {
    assert_eq!(stamped_id(0xab), "abab1111-2222-3333-4444-abababababab");
    assert_eq!(stamped_id(0x01).len(), 36);
}

#[test]
fn metadata_lines_leave_out_what_is_empty() {
    let info = raw_session_info_full("aabbccdd-1", "", Some("t"), APRIL_18, None, Some(""));
    let row = SessionRow::from_info(&info, 0, true, None);
    for line in [row.metadata_line(), metadata_line(&info, 0, None)] {
        assert!(line.starts_with("aabbccdd · "), "{line}");
        assert_eq!(line.matches(" · ").count(), 1, "{line}");
    }
}
