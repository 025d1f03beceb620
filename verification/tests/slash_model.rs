use oxide_code::config::Effort;
use oxide_code::event::UserAction;
use oxide_code::model::{
    listed_models, model_aliases, Capabilities, Catalog, ModelInfo, ResolvedModelId,
};
use oxide_code::slash::command::{execute, BuiltIn, Overlay, SlashContext, SlashOutcome};
use oxide_code::slash::context::{test_catalog, test_session_info};
use oxide_code::slash::model;
use oxide_code::slash::model::{has_dated_suffix, Within};
use oxide_code::slash::registry::SlashKind;

fn listed_ids() -> Vec<String> {
    test_catalog().listed().clone()
}

fn resolve_model_arg(arg: &str) -> Result<ResolvedModelId, String> {
    model::resolve_model_arg(&test_catalog(), arg)
}

fn listed_models_matching(arg: &str) -> String {
    model::listed_models_matching(&test_catalog(), arg)
}

fn resolved(id: &str) -> ResolvedModelId {
    ResolvedModelId::new(id.to_owned())
}

fn swap_model(id: &str) -> SlashOutcome {
    SlashOutcome::Forward(UserAction::SwapConfig {
        model: Some(resolved(id)),
        effort: None,
    })
}

// ── Metadata ──

#[test]
fn model_metadata_matches_built_ins_contract() {
    assert_eq!(BuiltIn::Model.name(), "model");
    assert!(BuiltIn::Model.aliases().is_empty());
    assert!(!BuiltIn::Model.description("ACME.md").is_empty());
    assert_eq!(BuiltIn::Model.usage(), Some("[<id>]"));
}

#[test]
fn classify_is_mutating_for_picker_and_direct_forms() {
    assert_eq!(BuiltIn::Model.classify(""), SlashKind::Mutating);
    assert_eq!(BuiltIn::Model.classify("   "), SlashKind::Mutating);
    assert_eq!(BuiltIn::Model.classify("opus"), SlashKind::Mutating);
    assert_eq!(BuiltIn::Model.classify("acme-opus-4-7"), SlashKind::Mutating);
}

// ── complete_arg ──

fn arg_rows(prefix: &str) -> Vec<(String, String)> {
    BuiltIn::Model
        .complete_arg(&test_catalog(), prefix)
        .into_iter()
        .map(|c| (c.value, c.description))
        .collect()
}

#[test]
fn complete_arg_empty_prefix_lists_curated_roster_in_picker_order() {
    let expected: Vec<String> = listed_ids();
    let got: Vec<String> = arg_rows("").into_iter().map(|(v, _)| v).collect();
    assert_eq!(got, expected);
}

#[test]
fn complete_arg_prefix_filter_narrows_to_matching_ids() {
    let got: Vec<String> = arg_rows("acme-opus").into_iter().map(|(v, _)| v).collect();
    assert_eq!(got, vec!["acme-opus-4-7", "acme-opus-4-7[1m]"]);
}

#[test]
fn complete_arg_appends_1m_context_suffix_only_for_1m_variants() {
    let rows = arg_rows("acme-opus-4-7");
    let one_m = rows
        .iter()
        .find(|(v, _)| v == "acme-opus-4-7[1m]")
        .expect("1M variant present");
    let plain = rows
        .iter()
        .find(|(v, _)| v == "acme-opus-4-7")
        .expect("plain variant present");
    assert!(
        one_m.1.contains("1M context"),
        "1M description: {:?}",
        one_m.1,
    );
    assert!(
        !plain.1.contains("1M context"),
        "plain description must not carry the 1M marker: {:?}",
        plain.1,
    );
}

#[test]
fn model_complete_arg_is_case_insensitive() {
    let got: Vec<String> = arg_rows("HAIKU").into_iter().map(|(v, _)| v).collect();
    assert_eq!(got, vec!["acme-haiku-4-5"]);
}

// ── execute ──

fn run_execute(args: &str) -> (usize, Result<SlashOutcome, String>) {
    let mut ctx = SlashContext::new(test_session_info());
    let outcome = execute(BuiltIn::Model, args, &mut ctx);
    (ctx.chat.entry_count(), outcome)
}

#[test]
fn execute_no_args_opens_picker_via_ctx_and_pushes_no_chat_block() {
    let mut ctx = SlashContext::new(test_session_info());
    let outcome = execute(BuiltIn::Model, "", &mut ctx);
    assert_eq!(outcome, Ok(SlashOutcome::Done));
    assert!(
        matches!(ctx.take_modal(), Some(Overlay::Model(_))),
        "bare /model must populate the modal slot",
    );
    assert_eq!(ctx.chat.entry_count(), 0, "chat must stay clean on open");
}

#[test]
fn execute_with_alias_resolves_to_canonical_id() {
    for (alias, expected) in [
        ("opus", "acme-opus-4-7"),
        ("opus[1m]", "acme-opus-4-7[1m]"),
        ("sonnet", "acme-sonnet-4-6"),
        ("sonnet[1m]", "acme-sonnet-4-6[1m]"),
        ("haiku", "acme-haiku-4-5"),
    ] {
        let (_, outcome) = run_execute(alias);
        assert_eq!(
            outcome,
            Ok(swap_model(expected)),
            "alias `{alias}` should route to `{expected}`",
        );
    }
}

#[test]
fn execute_canonical_id_round_trips_for_bare_and_1m_variants() {
    for id in [
        "acme-opus-4-7",
        "acme-opus-4-7[1m]",
        "acme-opus-4-6",
        "acme-opus-4-6[1m]",
        "acme-sonnet-4-6[1m]",
        "acme-haiku-4-5",
    ] {
        let (_, outcome) = run_execute(id);
        assert_eq!(
            outcome,
            Ok(swap_model(id)),
            "canonical `{id}` must round-trip",
        );
    }
}

#[test]
fn execute_short_id_resolves_via_suffix_tier() {
    for (arg, expected) in [
        ("haiku-4-5", "acme-haiku-4-5"),
        ("opus-4-1", "acme-opus-4-1"),
        ("sonnet-4-5", "acme-sonnet-4-5"),
        ("sonnet-4-6", "acme-sonnet-4-6"),
        ("opus-4-6[1m]", "acme-opus-4-6[1m]"),
    ] {
        let (_, outcome) = run_execute(arg);
        assert_eq!(
            outcome,
            Ok(swap_model(expected)),
            "`{arg}` should resolve to `{expected}`",
        );
    }
}

#[test]
fn execute_unique_substring_resolves_after_suffix_tier_misses() {
    let (_, outcome) = run_execute("haiku-4-");
    assert_eq!(outcome, Ok(swap_model("acme-haiku-4-5")));
}

#[test]
fn execute_haiku_4_resolves_to_only_extant_descendant() {
    // `acme-haiku-4` substring-matches only `acme-haiku-4-5` (Haiku 4 was never released).
    let (_, outcome) = run_execute("acme-haiku-4");
    assert_eq!(outcome, Ok(swap_model("acme-haiku-4-5")));
}

#[test]
fn execute_trims_whitespace_around_arg() {
    let (_, outcome) = run_execute("  haiku-4-5  ");
    assert_eq!(outcome, Ok(swap_model("acme-haiku-4-5")));
}

#[test]
fn execute_1m_on_incompatible_model_is_rejected_with_display_name() {
    for arg in ["haiku[1m]", "acme-haiku-4-5[1m]"] {
        let (_, outcome) = run_execute(arg);
        let msg = outcome.expect_err("must error");
        assert_eq!(
            msg, "Acme Haiku 4.5: 1M context not supported. Drop the `[1m]` tag.",
            "arg `{arg}`",
        );
    }
}

#[test]
fn execute_unknown_arg_errors_with_curated_listing() {
    let (entries, outcome) = run_execute("gpt-4");
    let msg = outcome.expect_err("unknown arg must error");
    assert!(msg.starts_with("Unknown model: `gpt-4`."), "{msg}");
    assert!(msg.contains("Supported models:"), "{msg}");
    for id in listed_ids() {
        assert!(
            msg.contains(&format!("- `{id}` — ")),
            "{id} should appear as a bullet: {msg}",
        );
    }
    assert!(
        msg.contains("Acme Opus 4.7 (1M context)"),
        "1M variant renders the (1M context) suffix: {msg}",
    );
    assert_eq!(entries, 0);
}

#[test]
fn execute_retired_or_legacy_id_falls_through_to_ambiguity() {
    // Retired ids substring-match multiple current rows; ambiguity must surface.
    for arg in ["opus-4", "acme-opus-4", "acme-sonnet-4"] {
        let (_, outcome) = run_execute(arg);
        let msg = outcome.expect_err(&format!("`{arg}` must error"));
        assert!(msg.contains("is ambiguous"), "ambiguity for `{arg}`: {msg}");
    }
}

#[test]
fn execute_ambiguous_substring_filters_curated_listing_by_arg() {
    let (_, outcome) = run_execute("4-6");
    let msg = outcome.expect_err("ambiguous arg must error");
    assert!(msg.starts_with("`4-6` is ambiguous."), "{msg}");
    // The listing filtered by `4-6` — only Sonnet entries are curated, so non-listed
    // `acme-opus-4-6` doesn't surface here even though the resolver counted it as a match.
    for needle in ["acme-sonnet-4-6", "acme-sonnet-4-6[1m]"] {
        assert!(msg.contains(needle), "{needle} listed: {msg}");
    }
    assert!(
        !msg.contains("acme-opus-4-6"),
        "non-curated row must not appear: {msg}",
    );
    assert!(msg.contains("opus"), "alias hint surfaces: {msg}");
}

#[test]
fn execute_ambiguous_listing_falls_back_to_full_curated_set_when_filter_empty() {
    let (_, outcome) = run_execute("acme-opus");
    let msg = outcome.expect_err("ambiguous arg must error");
    // `acme-opus` matches the listed Opus 4.7 entries, so the listing surfaces those.
    for id in ["acme-opus-4-7", "acme-opus-4-7[1m]"] {
        assert!(msg.contains(id), "{id} should be listed: {msg}");
    }
    // Older non-listed Opus rows must not appear in the curated listing.
    for id in ["acme-opus-4-5", "acme-opus-4-1"] {
        assert!(
            !msg.contains(id),
            "non-curated `{id}` must not appear: {msg}",
        );
    }
}

// ── resolve_model_arg ──

fn resolve(arg: &str) -> Result<String, String> {
    resolve_model_arg(arg).map(ResolvedModelId::into_inner)
}

#[test]
fn resolve_model_arg_alias_substitution_runs_before_substring_match() {
    assert_eq!(
        resolve_model_arg("opus")
            .as_ref()
            .map(ResolvedModelId::as_str),
        Ok("acme-opus-4-7")
    );
}

#[test]
fn resolve_model_arg_round_trips_every_models_row() {
    for info in test_catalog().models() {
        assert_eq!(
            resolve_model_arg(&info.id_substr)
                .as_ref()
                .map(ResolvedModelId::as_str),
            Ok(info.id_substr.as_str()),
            "{}",
            info.id_substr,
        );
    }
}

#[test]
fn resolve_model_arg_passes_through_dated_id_via_lookup() {
    for dated in [
        "acme-opus-4-7-20260101",
        "acme-opus-4-6-20250805",
        "acme-sonnet-4-5-20250929",
    ] {
        assert_eq!(
            resolve_model_arg(dated)
                .as_ref()
                .map(ResolvedModelId::as_str),
            Ok(dated),
            "{dated} must pass through",
        );
    }
}

#[test]
fn resolve_model_arg_lowercases_arg_before_matching() {
    assert_eq!(
        resolve_model_arg("OPUS")
            .as_ref()
            .map(ResolvedModelId::as_str),
        Ok("acme-opus-4-7")
    );
    assert_eq!(
        resolve_model_arg("Acme-Opus-4-7")
            .as_ref()
            .map(ResolvedModelId::as_str),
        Ok("acme-opus-4-7"),
    );
    assert_eq!(
        resolve_model_arg("OPUS[1M]")
            .as_ref()
            .map(ResolvedModelId::as_str),
        Ok("acme-opus-4-7[1m]"),
    );
}

#[test]
fn resolve_model_arg_rejects_malformed_ids_that_only_contain_known_rows() {
    for arg in [
        "acme-opus-4-7x",
        "foo-acme-opus-4-7",
        "acme-opus-4-7[1m]-bad",
        "acme-opus-4-7-2026010x",
        "acme-opus-4-7-202601011",
    ] {
        assert!(
            resolve_model_arg(arg).is_err(),
            "malformed id must not pass through: {arg}",
        );
    }
}

#[test]
fn resolve_model_arg_bare_1m_tag_errors_without_listing_models() {
    let msg = resolve_model_arg("[1m]").expect_err("must error");
    assert!(msg.contains("tag, not a model"), "{msg}");
    assert!(
        !msg.contains("- `acme"),
        "must not surface the candidate listing: {msg}",
    );
}

#[test]
fn resolve_model_arg_tells_exactly_what_is_wrong() {
    assert_eq!(
        resolve("[1m]"),
        Err("`[1m]` is a tag, not a model. Try `/model opus[1m]` or `/model acme-opus-4-7[1m]`."
            .to_owned()),
    );
    assert_eq!(
        resolve("haiku-4-5[1m]"),
        Err("Acme Haiku 4.5: 1M context not supported. Drop the `[1m]` tag.".to_owned()),
    );
    assert_eq!(
        resolve("4-6"),
        Err("`4-6` is ambiguous. Pick one or use a short alias (`opus`, `sonnet`, `haiku`):\n\n\
             - `acme-sonnet-4-6` — Acme Sonnet 4.6\n\
             - `acme-sonnet-4-6[1m]` — Acme Sonnet 4.6 (1M context)"
            .to_owned()),
    );
}

#[test]
fn resolve_model_arg_ignores_case_and_keeps_tags() {
    assert_eq!(resolve("SoNnEt"), resolve("sonnet"));
    assert_eq!(
        resolve("ACME-SONNET-4-5-20250929[1M]"),
        Ok("acme-sonnet-4-5-20250929[1m]".to_owned()),
    );
}

#[test]
fn resolve_base_tries_the_end_before_the_middle() {
    let catalog = test_catalog();
    assert_eq!(model::resolve_base(&catalog, "sonnet-4-6"), Ok("acme-sonnet-4-6".to_owned()));
    assert_eq!(model::candidates(&catalog, "4-5", Within::Suffix).len(), 3);
    assert_eq!(
        model::candidates(&catalog, "opus-4", Within::Anywhere),
        vec!["acme-opus-4-7", "acme-opus-4-6", "acme-opus-4-5", "acme-opus-4-1"],
    );
    assert!(model::candidates(&catalog, "opus-4", Within::Suffix).is_empty());
}

#[test]
fn dates_have_eight_digits_behind_a_dash() {
    assert!(has_dated_suffix("acme-opus-4-7-20260101", "acme-opus-4-7"));
    assert!(!has_dated_suffix("acme-opus-4-7_20260101", "acme-opus-4-7"));
    assert!(!has_dated_suffix("acme-opus-4-7-2026010", "acme-opus-4-7"));
    assert!(!has_dated_suffix("acme-opus-4-7", "acme-opus-4-7"));
    let catalog = test_catalog();
    assert!(model::is_dated_model_id(&catalog, "acme-haiku-4-5-20251001"));
    assert!(!model::is_dated_model_id(&catalog, "acme-haiku-4-5"));
    assert!(model::is_selectable_known_id(&catalog, "acme-haiku-4-5"));
    assert!(!model::is_selectable_known_id(&catalog, "haiku"));
}

// ── listed_models_matching ──

#[test]
fn listed_models_matching_filters_curated_roster_by_arg() {
    let out = listed_models_matching("haiku");
    assert_eq!(out, "- `acme-haiku-4-5` — Acme Haiku 4.5");
}

#[test]
fn listed_models_matching_surfaces_1m_variants_alongside_base() {
    let out = listed_models_matching("acme-opus");
    assert!(
        out.contains("- `acme-opus-4-7` — Acme Opus 4.7"),
        "{out}"
    );
    assert!(
        out.contains("- `acme-opus-4-7[1m]` — Acme Opus 4.7 (1M context)"),
        "{out}",
    );
}

#[test]
fn listed_models_matching_falls_back_to_full_roster_when_filter_empty() {
    let out = listed_models_matching("zzz-no-match");
    for id in listed_ids() {
        assert!(out.contains(&id), "{id} should appear in fallback: {out}");
    }
}

#[test]
fn listed_models_matching_ignores_case() {
    assert_eq!(listed_models_matching("HAIKU"), listed_models_matching("haiku"));
}

// ── format_supported_models ──

#[test]
fn format_supported_models_renders_bullets_with_1m_suffix_for_1m_ids() {
    let ids = vec![
        "acme-opus-4-7".to_owned(),
        "acme-opus-4-7[1m]".to_owned(),
        "gpt-4".to_owned(),
    ];
    let out = model::format_supported_models(&test_catalog(), &ids);
    assert_eq!(
        out,
        "- `acme-opus-4-7` — Acme Opus 4.7\n\
         - `acme-opus-4-7[1m]` — Acme Opus 4.7 (1M context)\n\
         - `gpt-4` — gpt-4",
    );
}

#[test]
fn format_supported_models_empty_input_renders_empty_string() {
    assert_eq!(model::format_supported_models(&test_catalog(), &vec![]), "");
}

// ── Models ──

#[test]
fn models_are_called_by_name_where_they_are_known() {
    let catalog = test_catalog();
    assert_eq!(catalog.display_name("acme-sonnet-4-6[1m]"), "Acme Sonnet 4.6 (1M context)");
    assert_eq!(catalog.marketing_or_id("acme-sonnet-4-6[1m]"), "Acme Sonnet 4.6");
    assert_eq!(catalog.display_name("acme-opus-4-7-20260101"), "Acme Opus 4.7");
    assert_eq!(catalog.display_name("gpt-4[1m]"), "gpt-4[1m]");
    assert_eq!(catalog.marketing_or_id("gpt-4"), "gpt-4");
}

#[test]
fn efforts_are_lowered_to_what_a_model_takes() {
    let catalog = test_catalog();
    let sonnet = catalog.capabilities_for("acme-sonnet-4-6");
    assert_eq!(sonnet.supported(), vec![Effort::Low, Effort::Medium, Effort::High]);
    assert_eq!(sonnet.resolve_effort(Some(Effort::Max)), Some(Effort::High));
    assert_eq!(sonnet.resolve_effort(Some(Effort::Xhigh)), Some(Effort::High));
    assert_eq!(sonnet.resolve_effort(Some(Effort::Low)), Some(Effort::Low));
    assert_eq!(sonnet.resolve_effort(None), Some(Effort::High));
    let opus = catalog.capabilities_for("acme-opus-4-7");
    assert_eq!(opus.resolve_effort(None), Some(Effort::Xhigh));
    assert_eq!(opus.resolve_effort(Some(Effort::Max)), Some(Effort::Max));
    assert_eq!(catalog.capabilities_for("acme-haiku-4-5").resolve_effort(Some(Effort::Low)), None);
    assert!(!catalog.capabilities_for("gpt-4").effort);
}

#[test]
fn a_catalog_has_short_names_for_known_models_only() {
    let capabilities = Capabilities {
        effort: false,
        effort_xhigh: false,
        effort_max: false,
        context_1m: false,
    };
    let models = || {
        vec![ModelInfo {
            id_substr: "acme-one".to_owned(),
            display_name: "Acme One".to_owned(),
            capabilities,
        }]
    };
    assert!(Catalog::new(models(), vec![], vec![]).is_none());
    let stray = vec![("two".to_owned(), "acme-two".to_owned())];
    assert!(Catalog::new(models(), vec![], stray).is_none());
    let aliases = vec![("one".to_owned(), "acme-one".to_owned())];
    let catalog = Catalog::new(models(), vec![], aliases).expect("a catalog");
    assert_eq!(
        model::resolve_model_arg(&catalog, "one").map(ResolvedModelId::into_inner),
        Ok("acme-one".to_owned()),
    );
    assert_eq!(catalog.lookup("acme-one-20260101").map(|m| m.display_name.as_str()), Some("Acme One"));
    assert!(catalog.lookup("acme-two").is_none());
}

// ── Roster ──

#[test]
fn the_roster_and_the_short_names_are_those_of_the_family() {
    assert_eq!(
        listed_models("acme"),
        vec![
            "acme-opus-4-7",
            "acme-opus-4-7[1m]",
            "acme-sonnet-4-6",
            "acme-sonnet-4-6[1m]",
            "acme-haiku-4-5",
        ],
    );
    let aliases = model_aliases("acme");
    let names: Vec<(&str, &str)> =
        aliases.iter().map(|(a, id)| (a.as_str(), id.as_str())).collect();
    assert_eq!(
        names,
        vec![
            ("opus", "acme-opus-4-7"),
            ("sonnet", "acme-sonnet-4-6"),
            ("haiku", "acme-haiku-4-5"),
        ],
    );
    assert!(Catalog::of_family("acme", vec![]).is_none(), "a short name must stand for a model");
}

#[test]
fn resolved_ids_resolve_to_themselves() {
    for arg in ["opus", "SONNET[1M]", "haiku-4-", "acme-opus-4-7-20260101", "acme-opus-4-6[1m]"] {
        let id = resolve(arg).unwrap();
        assert_eq!(resolve(&id), Ok(id.clone()), "{arg}");
        assert_eq!(resolve(&arg.to_ascii_uppercase()), Ok(id), "{arg}");
    }
}
