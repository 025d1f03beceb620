use oxide_code::event::UserAction;
use oxide_code::slash::command::{
    built_ins, execute, lookup, rows, BuiltIn, Overlay, SlashContext, SlashOutcome, Work,
};
use oxide_code::slash::config::{build_modal as config_modal, display_path, ConfigFile};
use oxide_code::slash::context::{test_catalog, test_session_info, ChatLog};
use oxide_code::slash::dispatch::{
    arg_placeholder_for, classify, classify_in, complete_arg_for, dispatch, dispatch_with,
    echoes_input, filter_built_ins, format_available, settle, show_config, Dispatched,
};
use oxide_code::slash::help::{build_modal as help_modal, display_label};
use oxide_code::slash::parser::Parsed;
use oxide_code::slash::registry::{lookup_in, CommandRow, SlashKind};
use oxide_code::slash::status::build_modal as status_overview;
use oxide_code::slash::status_modal::StatusModal;
use oxide_code::tui::kv_overview::KvOverview;
use oxide_code::tui::modal::{KeyCode, KeyEvent, ModalKey};

fn parsed(name: &str, args: &str) -> Parsed {
    Parsed {
        name: name.to_owned(),
        args: args.to_owned(),
    }
}

fn context() -> SlashContext {
    SlashContext::new(test_session_info())
}

fn key(code: KeyCode) -> KeyEvent {
    KeyEvent::plain(code)
}

fn fake(
    name: &'static str,
    aliases: &[&'static str],
    description: &'static str,
    usage: Option<&'static str>,
) -> CommandRow {
    CommandRow {
        name,
        aliases: aliases.to_vec(),
        description: description.to_owned(),
        usage,
    }
}

// ── dispatch ──

#[test]
fn dispatch_known_command_runs_and_does_not_push_error() {
    let mut ctx = context();
    let outcome = dispatch(&parsed("help", ""), &mut ctx);
    assert_eq!(outcome, Dispatched::Nothing, "/help is Done, not Forward");
    assert!(ctx.take_modal().is_some(), "/help opens a modal");
    assert!(!ctx.chat.last_is_error());
    assert_eq!(
        ctx.chat.entry_count(),
        0,
        "modal-only commands push no chat blocks"
    );
    assert_eq!(ctx.chat.last_error_text(), None);
}

#[test]
fn dispatch_prompt_submit_command_produces_synthesized_body() {
    let mut ctx = context();
    let action = dispatch(&parsed("init", ""), &mut ctx);
    assert!(
        matches!(
            &action,
            Dispatched::Action(UserAction::SubmitPrompt(body)) if body.contains("AGENTS.md")
        ),
        "expected SubmitPrompt with AGENTS.md body, got {action:?}",
    );
    assert_eq!(ctx.chat.entry_count(), 0, "the typed line is pushed by the App");
}

#[test]
fn dispatch_unknown_command_pushes_error_block() {
    let mut ctx = context();
    dispatch(&parsed("no-such-command", ""), &mut ctx);
    assert!(
        ctx.chat.last_is_error(),
        "unknown command should land as an ErrorBlock",
    );
}

#[test]
fn dispatch_unknown_command_message_lists_available_and_escape_hint() {
    let mut ctx = context();
    dispatch(&parsed("etc", ""), &mut ctx);
    let msg = ctx.chat.last_error_text().expect("error block present");
    assert!(msg.contains("/help"), "should list /help: {msg}");
    for cmd in built_ins() {
        let needle = format!("/{}", cmd.name());
        assert!(msg.contains(&needle), "should list `{needle}`: {msg}");
    }
    assert!(
        msg.contains("//etc"),
        "should mention `//etc` escape: {msg}"
    );
}

#[test]
fn dispatch_unknown_command_is_told_exactly() {
    let mut ctx = context();
    dispatch_with(&vec![BuiltIn::Clear, BuiltIn::Help], &parsed("status", ""), &mut ctx);
    assert_eq!(
        ctx.chat.last_error_text(),
        Some(
            "unknown command: /status. Available: /clear, /help. \
             Use //status to send the literal text."
        ),
    );
    assert_eq!(format_available(&vec![]), "");
}

#[test]
fn dispatch_hands_out_actions_and_work() {
    let mut ctx = context();
    assert_eq!(
        dispatch(&parsed("new", ""), &mut ctx),
        Dispatched::Action(UserAction::Clear),
        "an alias routes to its command",
    );
    assert_eq!(dispatch(&parsed("diff", ""), &mut ctx), Dispatched::Work(Work::WorkTree));
    assert_eq!(ctx.chat.entry_count(), 0);
}

// ── Failures ──

/// Always-erroring; exercises error-wrapping and alias resolution.
fn failing() -> CommandRow {
    fake("failing", &["bust", "boom"], "test", None)
}

fn run_failing(typed: &str) -> Option<String> {
    let registry = vec![failing()];
    assert_eq!(lookup_in(&registry, typed), Some(0));
    let mut chat = ChatLog::new();
    let outcome = settle(typed, Err("explicit failure".to_owned()), &mut chat);
    assert_eq!(outcome, Dispatched::Nothing);
    chat.last_error_text().map(str::to_owned)
}

#[test]
fn failing_fixture_metadata_matches_what_dispatcher_tests_assume() {
    assert_eq!(failing().name, "failing");
    assert_eq!(failing().aliases, &["bust", "boom"]);
    assert_eq!(failing().description, "test");
}

#[test]
fn dispatch_with_command_failure_renders_error_block_prefixed_with_name() {
    assert_eq!(run_failing("failing").as_deref(), Some("/failing: explicit failure"));
}

#[test]
fn dispatch_with_alias_routes_to_canonical_impl() {
    // Error must echo the typed alias, not the canonical name.
    assert_eq!(run_failing("boom").as_deref(), Some("/boom: explicit failure"));
}

// ── echoes_input ──

#[test]
fn echoes_input_modal_only_commands_suppress_their_typed_line() {
    for name in ["status", "config", "help"] {
        assert!(!echoes_input(&parsed(name, "")), "/{name} must not echo");
    }
}

#[test]
fn echoes_input_picker_or_typed_commands_split_on_args() {
    for name in ["effort", "model", "theme"] {
        assert!(!echoes_input(&parsed(name, "")), "bare /{name} must not echo");
        assert!(echoes_input(&parsed(name, "x")), "typed /{name} must echo");
    }
}

#[test]
fn echoes_input_unknown_command_echoes_so_error_block_has_context() {
    assert!(echoes_input(&parsed("no-such-thing", "")));
}

#[test]
fn commands_that_speak_in_the_conversation_echo() {
    for name in ["clear", "compact", "delete", "diff", "init"] {
        assert!(echoes_input(&parsed(name, "")), "/{name} must echo");
    }
}

// ── classify ──

#[test]
fn classify_built_in_read_only_command_is_read_only() {
    assert_eq!(classify(&parsed("help", "")), SlashKind::ReadOnly);
}

#[test]
fn classify_built_in_state_mutating_command_is_mutating() {
    for name in ["clear", "new", "reset", "init"] {
        assert_eq!(classify(&parsed(name, "")), SlashKind::Mutating, "{name}");
    }
}

#[test]
fn classify_unknown_command_is_unknown() {
    assert_eq!(classify(&parsed("no-such-thing", "")), SlashKind::Unknown);
    assert_eq!(
        classify_in(&vec![BuiltIn::Help], &parsed("clear", "")),
        SlashKind::Unknown,
        "a command that is not among those given",
    );
}

// ── Popup ──

#[test]
fn popup_finds_commands_by_alias() {
    let found = filter_built_ins("res", "ACME.md");
    let names: Vec<&str> = found.iter().map(|m| m.name).collect();
    assert_eq!(names, vec!["resume", "clear"]);
    assert_eq!(found[1].matched_alias, Some("reset"));
    assert_eq!(filter_built_ins("", "ACME.md").len(), 13);
}

#[test]
fn popup_completes_and_hints_arguments() {
    assert_eq!(complete_arg_for(&test_catalog(), "theme", "lat")[0].value, "latte");
    assert!(complete_arg_for(&test_catalog(), "help", "").is_empty());
    assert!(complete_arg_for(&test_catalog(), "no-such-thing", "").is_empty());
    assert_eq!(arg_placeholder_for("continue"), Some("[<id-prefix>]"));
    assert_eq!(arg_placeholder_for("help"), None);
    assert_eq!(arg_placeholder_for("no-such-thing"), None);
}

// ── Registry ──

#[test]
fn built_ins_have_unique_canonical_names() {
    let mut names: Vec<&str> = built_ins().iter().map(|c| c.name()).collect();
    let count = names.len();
    names.sort_unstable();
    names.dedup();
    assert_eq!(names.len(), count, "duplicate canonical name");
    assert_eq!(names, built_ins().iter().map(|c| c.name()).collect::<Vec<_>>(), "alphabetical");
}

fn alias_collisions(commands: &[CommandRow]) -> Vec<(&'static str, &'static str)> {
    let names: Vec<&str> = commands.iter().map(|c| c.name).collect();
    commands
        .iter()
        .flat_map(|cmd| {
            cmd.aliases
                .iter()
                .filter(|alias| names.contains(*alias))
                .map(move |alias| (cmd.name, *alias))
        })
        .collect()
}

fn empty_metadata_offenders(commands: &[CommandRow]) -> Vec<&'static str> {
    commands
        .iter()
        .filter(|c| c.name.is_empty() || c.description.is_empty())
        .map(|c| c.name)
        .collect()
}

#[test]
fn built_ins_aliases_do_not_collide_with_any_canonical_name() {
    let collisions = alias_collisions(&rows(&built_ins(), "ACME.md"));
    assert!(collisions.is_empty(), "alias collisions: {collisions:?}");
}

#[test]
fn alias_collisions_finds_a_synthetic_overlap() {
    let registry = vec![BuiltIn::Help.row("ACME.md"), fake("collider", &["help"], "collide", None)];
    assert_eq!(alias_collisions(&registry), vec![("collider", "help")]);
}

#[test]
fn built_ins_have_non_empty_name_and_description() {
    let offenders = empty_metadata_offenders(&rows(&built_ins(), "ACME.md"));
    assert!(
        offenders.is_empty(),
        "commands with empty name or description: {offenders:?}",
    );
}

#[test]
fn empty_metadata_offenders_flags_a_synthetic_violator() {
    assert_eq!(
        empty_metadata_offenders(&[fake("no-desc", &[], "", None)]),
        vec!["no-desc"],
    );
}

#[test]
fn aliased_cmd_fixture_satisfies_trait_contract() {
    let row = fake("primary", &["alt", "shortcut"], "fake", None);
    assert_eq!(row.name, "primary");
    assert_eq!(row.aliases, &["alt", "shortcut"]);
    assert_eq!(row.description, "fake");
}

#[test]
fn lookup_in_resolves_canonical_name() {
    let table = rows(&built_ins(), "ACME.md");
    let i = lookup_in(&table, "help").expect("/help is registered");
    assert_eq!(table[i].name, "help");
    assert_eq!(lookup(&built_ins(), "help"), Some(BuiltIn::Help));
}

#[test]
fn lookup_in_resolves_each_alias_to_canonical_impl() {
    let registry = vec![fake("primary", &["alt", "shortcut"], "fake", None)];
    for alias in ["alt", "shortcut"] {
        let i = lookup_in(&registry, alias).expect("alias must resolve");
        assert_eq!(registry[i].name, "primary");
    }
}

#[test]
fn lookup_in_unknown_name_is_absent() {
    assert!(lookup_in(&rows(&built_ins(), "ACME.md"), "no-such-command").is_none());
}

#[test]
fn lookup_in_prefers_names_to_aliases() {
    let registry = vec![fake("first", &["second"], "a", None), fake("second", &[], "b", None)];
    assert_eq!(lookup_in(&registry, "second"), Some(1));
}

#[test]
fn every_command_is_found_by_its_names() {
    for cmd in built_ins() {
        assert_eq!(lookup(&built_ins(), cmd.name()), Some(cmd));
        for alias in cmd.aliases() {
            assert_eq!(lookup(&built_ins(), alias), Some(cmd));
        }
    }
}

// ── /clear ──

#[test]
fn clear_metadata_matches_built_ins_contract() {
    assert_eq!(BuiltIn::Clear.name(), "clear");
    assert_eq!(BuiltIn::Clear.aliases(), &["new", "reset"]);
    assert!(!BuiltIn::Clear.description("ACME.md").is_empty());
}

#[test]
fn classify_is_mutating() {
    assert_eq!(BuiltIn::Clear.classify(""), SlashKind::Mutating);
}

#[test]
fn execute_produces_clear_action_without_local_side_effects() {
    let mut ctx = context();
    ctx.chat.push_system_message("prompt");

    let outcome = execute(BuiltIn::Clear, "", &mut ctx).expect("/clear must succeed");

    assert_eq!(outcome, SlashOutcome::Forward(UserAction::Clear));
    assert_eq!(ctx.chat.entry_count(), 1, "execute must not touch the chat");
}

// ── /compact ──

#[test]
fn compact_metadata_matches_built_ins_contract() {
    assert_eq!(BuiltIn::Compact.name(), "compact");
    assert!(BuiltIn::Compact.aliases().is_empty());
    assert!(!BuiltIn::Compact.description("ACME.md").is_empty());
    assert_eq!(BuiltIn::Compact.usage(), Some("[<instructions>]"));
}

#[test]
fn compact_classify_is_always_mutating() {
    assert_eq!(BuiltIn::Compact.classify(""), SlashKind::Mutating);
    assert_eq!(BuiltIn::Compact.classify("focus on the bug"), SlashKind::Mutating);
}

#[test]
fn execute_bare_forwards_compact_action_with_no_instructions() {
    let outcome = execute(BuiltIn::Compact, "", &mut context()).unwrap();
    assert_eq!(
        outcome,
        SlashOutcome::Forward(UserAction::Compact { instructions: None }),
    );
}

#[test]
fn execute_with_args_forwards_trimmed_instructions() {
    let outcome = execute(BuiltIn::Compact, "  focus on the build error  ", &mut context()).unwrap();
    assert_eq!(
        outcome,
        SlashOutcome::Forward(UserAction::Compact {
            instructions: Some("focus on the build error".to_owned()),
        }),
    );
}

#[test]
fn execute_whitespace_only_args_treated_as_bare() {
    let outcome = execute(BuiltIn::Compact, "   \n\t  ", &mut context()).unwrap();
    assert_eq!(
        outcome,
        SlashOutcome::Forward(UserAction::Compact { instructions: None }),
    );
}

// ── /config ──

fn value<'a>(overview: &'a KvOverview, name: &str) -> &'a str {
    overview
        .sections
        .iter()
        .flat_map(|s| s.rows.iter())
        .find(|(k, _)| k == name)
        .map(|(_, v)| v.as_str())
        .expect("row present")
}

#[test]
fn config_metadata_matches_built_ins_contract() {
    assert_eq!(BuiltIn::Config.name(), "config");
    assert!(BuiltIn::Config.aliases().is_empty());
    assert!(!BuiltIn::Config.description("ACME.md").is_empty());
}

#[test]
fn config_execute_opens_a_modal_via_ctx_and_pushes_no_chat_block() {
    let mut ctx = context();
    assert_eq!(
        execute(BuiltIn::Config, "", &mut ctx),
        Ok(SlashOutcome::Ask(Work::ConfigFiles)),
    );
    show_config(&None, &None, None, &mut ctx);
    assert!(
        matches!(ctx.take_modal(), Some(Overlay::Overview(_))),
        "/config must populate the modal slot",
    );
    assert_eq!(ctx.chat.entry_count(), 0, "chat must stay clean on open");
}

#[test]
fn build_modal_height_accounts_for_both_sections() {
    // title + blank + (heading + blank + 11 rows) + blank + (heading + blank + 2 rows)
    //   + blank + footer = 2 + 13 + 1 + 4 + 2 = 22.
    let info = test_session_info();
    let m = config_modal(&info, &None, &None, None);
    assert_eq!(m.height(), 22);
}

#[test]
fn build_modal_renders_resolved_auto_compaction() {
    let info = test_session_info();
    let m = config_modal(&info, &None, &None, None);
    assert_eq!(value(&m, "Auto Compaction"), "at 155000 tokens");
}

#[test]
fn build_modal_tildifies_extra_ca_certs_path() {
    let mut info = test_session_info();
    info.config.extra_ca_certs = Some("/tmp/oxide-fake-home/certs/corp.pem".to_owned());
    let m = config_modal(&info, &None, &None, Some("/tmp/oxide-fake-home"));
    assert_eq!(value(&m, "Extra CA Certs"), "~/certs/corp.pem");
}

#[test]
fn build_modal_renders_extra_ca_certs_none_as_placeholder() {
    let info = test_session_info();
    assert!(info.config.extra_ca_certs.is_none(), "precondition: unset");
    let m = config_modal(&info, &None, &None, None);
    assert_eq!(value(&m, "Extra CA Certs"), "(none)");
}

#[test]
fn display_path_none_renders_not_configured() {
    assert_eq!(display_path(&None, None), "(not configured)");
}

#[test]
fn display_path_missing_file_marks_not_found_after_path() {
    let file = ConfigFile { path: "/definitely/does/not/exist.toml".to_owned(), exists: false };
    let got = display_path(&Some(file), None);
    assert!(got.ends_with("(not found)"), "{got}");
    assert!(got.starts_with("/definitely/"), "path missing: {got}");
}

#[test]
fn display_path_existing_file_is_tildified_value_only() {
    let file = ConfigFile { path: "/home/me/.config/ox/config.toml".to_owned(), exists: true };
    let got = display_path(&Some(file), Some("/home/me"));
    assert!(!got.contains("(not found)"), "{got}");
    assert!(!got.contains("(not configured)"), "{got}");
    assert_eq!(got, "~/.config/ox/config.toml");
}

// ── /help ──

#[test]
fn help_metadata_matches_built_ins_contract() {
    assert_eq!(BuiltIn::Help.name(), "help");
    assert!(BuiltIn::Help.aliases().is_empty());
    assert!(!BuiltIn::Help.description("ACME.md").is_empty());
}

#[test]
fn help_execute_opens_a_modal_via_ctx_and_pushes_no_chat_block() {
    let mut ctx = context();
    execute(BuiltIn::Help, "", &mut ctx).unwrap();
    assert!(
        ctx.take_modal().is_some(),
        "/help must populate the modal slot",
    );
    assert_eq!(ctx.chat.entry_count(), 0, "chat must stay clean on open");
}

#[test]
fn build_modal_renders_one_row_per_built_in() {
    let m = help_modal(&rows(&built_ins(), "ACME.md"));
    // title + blank + N rows + blank + footer.
    let expected = u16::try_from(built_ins().len() + 4).unwrap();
    assert_eq!(m.height(), expected);
    assert_eq!(value(&m, "/clear (new, reset)"), "Reset the conversation context");
}

#[test]
fn display_label_no_aliases_is_just_slashed_name() {
    assert_eq!(display_label(&BuiltIn::Help.row("ACME.md")), "/help");
}

#[test]
fn display_label_with_aliases_lists_them_in_parens() {
    assert_eq!(
        display_label(&fake("clear", &["new", "reset"], "", None)),
        "/clear (new, reset)",
    );
}

#[test]
fn display_label_with_usage_appends_hint_after_name() {
    assert_eq!(
        display_label(&fake("model", &[], "", Some("<model-id>"))),
        "/model <model-id>",
    );
    assert_eq!(
        display_label(&fake("clear", &["new", "reset"], "", Some("<args>"))),
        "/clear (new, reset) <args>",
    );
}

// ── /init ──

fn init_prompt() -> (usize, String) {
    let mut ctx = context();
    match execute(BuiltIn::Init, "", &mut ctx) {
        Ok(SlashOutcome::Forward(UserAction::SubmitPrompt(p))) => (ctx.chat.entry_count(), p),
        other => panic!("/init submits a prompt, got {other:?}"),
    }
}

#[test]
fn init_metadata_matches_built_ins_contract() {
    assert_eq!(BuiltIn::Init.name(), "init");
    assert!(BuiltIn::Init.aliases().is_empty());
    assert!(BuiltIn::Init.usage().is_none());
}

#[test]
fn is_read_only_is_false() {
    // A parallel turn would race the in-flight one over the session writer.
    assert_ne!(BuiltIn::Init.classify(""), SlashKind::ReadOnly);
}

#[test]
fn execute_does_not_push_chat_blocks() {
    // The agent loop's response stream is the only block source —
    // an extra push here would land before the typed `/init` row.
    assert_eq!(init_prompt().0, 0);
}

#[test]
fn execute_prompt_targets_agents_md_and_acme_md() {
    let (_, p) = init_prompt();
    assert!(p.contains("AGENTS.md") && p.contains("ACME.md"), "{p}");
}

#[test]
fn execute_prompt_says_do_not_overwrite_existing_file() {
    // Conjunction pins the actual rule — `contains("overwrite")`
    // alone would pass `"please overwrite all existing files"`.
    let (_, p) = init_prompt();
    assert!(p.contains("already exists") && p.contains("not overwrite"), "{p}");
}

// ── /status ──

#[test]
fn status_metadata_matches_built_ins_contract() {
    assert_eq!(BuiltIn::Status.name(), "status");
    assert!(BuiltIn::Status.aliases().is_empty());
    assert!(!BuiltIn::Status.description("ACME.md").is_empty());
}

#[test]
fn status_execute_opens_a_modal_via_ctx_and_pushes_no_chat_block() {
    let mut ctx = context();
    let outcome = execute(BuiltIn::Status, "", &mut ctx);
    assert_eq!(outcome, Ok(SlashOutcome::Done));
    assert!(
        ctx.take_modal().is_some(),
        "/status must populate the modal slot",
    );
    assert_eq!(ctx.chat.entry_count(), 0, "chat must stay clean on open");
}

#[test]
fn build_modal_renders_one_row_per_session_descriptor() {
    let info = test_session_info();
    let m = status_overview(&info);
    // Title + blank + 10 rows + blank + footer = 14.
    assert_eq!(m.height(), 14);
    assert_eq!(value(&m, "Model"), "Acme Opus 4.7 (acme-opus-4-7)");
    assert_eq!(value(&m, "Show Welcome"), "on");
}

// ── Status panel ──

fn panel() -> StatusModal {
    StatusModal::new(&test_session_info())
}

#[test]
fn new_produces_one_row_per_session_descriptor() {
    let m = panel();
    assert_eq!(m.rows.len(), 8);
    assert_eq!(m.height(), 12);
}

#[test]
fn new_collects_every_session_field_value() {
    let info = test_session_info();
    let m = StatusModal::new(&info);
    let body: String = m
        .rows
        .iter()
        .map(|(_, v)| v.as_str())
        .collect::<Vec<_>>()
        .join("|");
    for needle in [
        info.config.model_id.as_str(),
        info.cwd.as_str(),
        info.config.auth_label,
        info.version,
        info.session_id.as_str(),
    ] {
        assert!(body.contains(needle), "missing `{needle}`: {body}");
    }
}

#[test]
fn new_renders_thinking_off_when_snapshot_says_false() {
    let info = test_session_info();
    let m = StatusModal::new(&info);
    let thinking_row = m
        .rows
        .iter()
        .find(|(k, _)| *k == "Show Thinking")
        .expect("show-thinking row");
    assert_eq!(thinking_row.1, "off");
}

#[test]
fn new_renders_thinking_on_when_snapshot_says_true() {
    let mut info = test_session_info();
    info.config.show_thinking = true;
    let m = StatusModal::new(&info);
    let thinking_row = m
        .rows
        .iter()
        .find(|(k, _)| *k == "Show Thinking")
        .expect("show-thinking row");
    assert_eq!(thinking_row.1, "on");
}

#[test]
fn esc_closes_modal_silently() {
    assert!(matches!(panel().handle_key(&key(KeyCode::Esc)), ModalKey::Cancelled));
}

#[test]
fn enter_also_closes_modal_silently() {
    assert!(matches!(panel().handle_key(&key(KeyCode::Enter)), ModalKey::Cancelled));
}

#[test]
fn status_modal_other_keys_are_consumed_and_modal_stays_open() {
    for code in [KeyCode::Up, KeyCode::Down, KeyCode::Char('x'), KeyCode::Tab] {
        assert!(
            matches!(panel().handle_key(&key(code)), ModalKey::Consumed),
            "{code:?} must be consumed",
        );
    }
}

#[test]
fn panel_names_are_filled_up_to_the_longest() {
    let labels = panel().labels();
    assert_eq!(labels[0], "Model            ");
    assert!(labels.iter().all(|l| l.chars().count() == "Working Directory".len()));
}

#[test]
fn commands_that_open_nothing_leave_an_open_overlay_alone() {
    let mut ctx = SlashContext::new(test_session_info());
    assert_eq!(execute(BuiltIn::Status, "", &mut ctx), Ok(SlashOutcome::Done));
    assert_eq!(
        execute(BuiltIn::Clear, "", &mut ctx),
        Ok(SlashOutcome::Forward(UserAction::Clear)),
    );
    assert!(matches!(ctx.take_modal(), Some(Overlay::Overview(_))));
}

#[test]
fn init_description_names_both_files() {
    assert_eq!(
        BuiltIn::Init.description("ACME.md"),
        "Generate or update the project's `AGENTS.md` / `ACME.md`",
    );
    let found = filter_built_ins("init", "ACME.md");
    assert_eq!(found[0].description, "Generate or update the project's `AGENTS.md` / `ACME.md`");
}
