use oxide_code::slash::matcher::{
    best_match, filter_and_rank, rank_by_prefix, MatchedCommand, Tier,
};
use oxide_code::slash::registry::CommandRow;

fn fake(
    name: &'static str,
    aliases: &[&'static str],
    description: &'static str,
) -> CommandRow {
    CommandRow {
        name,
        aliases: aliases.to_vec(),
        description: description.to_owned(),
        usage: None,
    }
}

fn help() -> CommandRow {
    fake("help", &[], "list")
}

fn clear() -> CommandRow {
    fake("clear", &["new", "reset"], "wipe")
}

fn status() -> CommandRow {
    fake("status", &[], "show")
}

fn compact() -> CommandRow {
    fake("compact", &[], "fold")
}

fn registry() -> Vec<CommandRow> {
    vec![help(), clear(), status(), compact()]
}

fn names(rows: &[MatchedCommand]) -> Vec<&'static str> {
    rows.iter().map(|m| m.name).collect()
}

// ── filter_and_rank ──

#[test]
fn filter_and_rank_empty_query_yields_full_registry_in_declared_order() {
    let rows = filter_and_rank("", &registry());
    assert_eq!(names(&rows), vec!["help", "clear", "status", "compact"]);
    assert!(rows.iter().all(|m| m.matched_alias.is_none()));
}

#[test]
fn filter_and_rank_name_prefix_beats_substring_within_other_command() {
    let with_substring = vec![compact(), fake("forconfig", &[], "fake")];
    let rows = filter_and_rank("co", &with_substring);
    assert_eq!(names(&rows), vec!["compact", "forconfig"]);
}

#[test]
fn filter_and_rank_alias_prefix_beats_name_substring() {
    let with_substring = vec![clear(), fake("renew", &[], "fake")];
    let rows = filter_and_rank("new", &with_substring);
    assert_eq!(names(&rows), vec!["clear", "renew"]);
    assert_eq!(rows[0].matched_alias, Some("new"));
    assert_eq!(rows[1].matched_alias, None);
}

#[test]
fn filter_and_rank_within_tier_sorts_alphabetically_on_canonical_name() {
    let two_prefix = vec![status(), fake("select", &[], "fake")];
    let rows = filter_and_rank("s", &two_prefix);
    assert_eq!(names(&rows), vec!["select", "status"]);
}

#[test]
fn filter_and_rank_alias_match_surfaces_only_typed_alias() {
    let rows = filter_and_rank("res", &registry());
    assert_eq!(names(&rows), vec!["clear"]);
    assert_eq!(rows[0].matched_alias, Some("reset"));
}

#[test]
fn filter_and_rank_alias_substring_lands_below_other_tiers() {
    let rows = filter_and_rank("se", &registry());
    assert_eq!(names(&rows), vec!["clear"]);
    assert_eq!(rows[0].matched_alias, Some("reset"));
}

#[test]
fn filter_and_rank_query_is_case_insensitive() {
    let prefix = filter_and_rank("HE", &registry());
    assert_eq!(names(&prefix), vec!["help"]);

    let substring = filter_and_rank("EAR", &registry());
    assert_eq!(names(&substring), vec!["clear"]);
}

#[test]
fn filter_and_rank_unmatched_query_is_empty() {
    let rows = filter_and_rank("zzz", &registry());
    assert!(rows.is_empty());
}

#[test]
fn filter_and_rank_puts_every_tier_in_its_place() {
    let rows = vec![
        fake("zz", &["xaby"], "alias holds it"),
        fake("cab", &[], "name holds it"),
        fake("yy", &["ab"], "alias starts with it"),
        fake("abz", &[], "name starts with it"),
        fake("aba", &[], "name starts with it"),
    ];
    let found = filter_and_rank("Ab", &rows);
    assert_eq!(names(&found), vec!["aba", "abz", "yy", "cab", "zz"]);
    assert_eq!(found[2].matched_alias, Some("ab"));
    assert_eq!(found[4].matched_alias, Some("xaby"));
    assert_eq!(found[4].description, "alias holds it");
}

// ── best_match ──

#[test]
fn best_match_prefers_name_prefix_over_any_alias_branch() {
    let also = fake("clearview", &["cl"], "fake");
    let (tier, m) = best_match("cl", &also).unwrap();
    assert_eq!(tier, Tier::NamePrefix);
    assert_eq!(m.matched_alias, None);
}

#[test]
fn best_match_is_none_when_neither_name_nor_alias_match() {
    assert!(best_match("zzz", &clear()).is_none());
}

#[test]
fn best_match_tells_each_tier() {
    assert_eq!(best_match("new", &clear()).unwrap().0, Tier::AliasPrefix);
    assert_eq!(best_match("lea", &clear()).unwrap().0, Tier::NameSubstring);
    assert_eq!(best_match("set", &clear()).unwrap().0, Tier::AliasSubstring);
}

// ── rank_by_prefix ──

fn levels() -> Vec<&'static str> {
    vec!["low", "medium", "high", "xhigh", "max"]
}

fn ranked(query: &str) -> Vec<&'static str> {
    let xs = levels();
    rank_by_prefix(&xs, query).into_iter().map(|i| xs[i]).collect()
}

#[test]
fn rank_by_prefix_empty_query_yields_full_roster_in_declared_order() {
    assert_eq!(ranked(""), levels());
}

#[test]
fn rank_by_prefix_promotes_prefix_matches_above_substring_within_declared_order() {
    // `h` prefixes `high`; substring-matches `xhigh`. Prefix wins; declared order otherwise.
    assert_eq!(ranked("h"), vec!["high", "xhigh"]);
}

#[test]
fn rank_by_prefix_is_case_insensitive() {
    assert_eq!(ranked("HI"), vec!["high", "xhigh"]);
}

#[test]
fn rank_by_prefix_unmatched_query_is_empty() {
    assert!(ranked("zzz").is_empty());
}
