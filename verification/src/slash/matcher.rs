//! Finding commands and roster items by what was typed of them.
//!
//! Commands rank by where the query was found: at the start of the name, at the start of an
//! alias, inside the name, inside an alias; by name within each of these.

use vstd::prelude::*;
use vstd::string::*;

use crate::order::{
    is_order, is_stable_sort, law_sorting_keeps_what_there_is, lemma_insert_sorted,
    lemma_sort_empty,
};
use crate::slash::registry::{CommandRow, RowView};
use crate::text::{
    contains, has_prefix, has_substring, lemma_lex_order, lex_less, lower, occurs_at, owned,
    starts_with, str_less, to_lower,
};

verus! {

// ── Matches ──

/// A command that a query found.
#[derive(Debug, PartialEq, Eq)]
pub struct MatchedCommand {
    pub name: &'static str,
    pub description: String,
    /// The alias that the query was found in; `None` where it was found in the name, or where
    /// nothing was asked for.
    pub matched_alias: Option<&'static str>,
}

/// A found command by its characters.
#[verifier::ext_equal]
pub ghost struct MatchView {
    pub name: Seq<char>,
    pub description: Seq<char>,
    pub matched_alias: Option<Seq<char>>,
}

impl View for MatchedCommand {
    type V = MatchView;

    open spec fn view(&self) -> MatchView {
        MatchView {
            name: self.name@,
            description: self.description@,
            matched_alias: match self.matched_alias {
                Some(a) => Some(a@),
                None => None,
            },
        }
    }
}

/// What each found command is.
pub open spec fn match_views(v: Seq<MatchedCommand>) -> Seq<MatchView> {
    v.map_values(|m: MatchedCommand| m@)
}

/// Where a query was found, the best place first.
#[derive(Debug, Clone, Copy, PartialEq, Eq, Structural)]
pub enum Tier {
    NamePrefix,
    AliasPrefix,
    NameSubstring,
    AliasSubstring,
}

impl Tier {
    /// The place of `self` among the tiers.
    pub open spec fn rank(self) -> nat {
        match self {
            Tier::NamePrefix => 0,
            Tier::AliasPrefix => 1,
            Tier::NameSubstring => 2,
            Tier::AliasSubstring => 3,
        }
    }

    fn place(self) -> (r: u8)
        ensures
            r == self.rank(),
    {
        match self {
            Tier::NamePrefix => 0,
            Tier::AliasPrefix => 1,
            Tier::NameSubstring => 2,
            Tier::AliasSubstring => 3,
        }
    }
}

/// The row as found by its name.
pub open spec fn by_name(row: RowView) -> MatchView {
    MatchView { name: row.name, description: row.description, matched_alias: None }
}

/// The row as found by an alias.
pub open spec fn by_alias(row: RowView, alias: Seq<char>) -> MatchView {
    MatchView { name: row.name, description: row.description, matched_alias: Some(alias) }
}

/// The first alias whose small letters satisfy `found`.
pub open spec fn first_alias(aliases: Seq<Seq<char>>, found: spec_fn(Seq<char>) -> bool) -> Option<
    Seq<char>,
>
    decreases aliases.len(),
{
    if aliases.len() == 0 {
        None
    } else if found(lower(aliases[0])) {
        Some(aliases[0])
    } else {
        first_alias(aliases.drop_first(), found)
    }
}

/// Text that starts with `query`.
pub open spec fn starting(query: Seq<char>) -> spec_fn(Seq<char>) -> bool {
    |s: Seq<char>| starts_with(s, query)
}

/// Text that holds `query` somewhere.
pub open spec fn holding(query: Seq<char>) -> spec_fn(Seq<char>) -> bool {
    |s: Seq<char>| contains(s, query)
}

/// Where `query` is found in the row, and as what; letters of either case are the same.
pub open spec fn best_of(query: Seq<char>, row: RowView) -> Option<(nat, MatchView)> {
    if starts_with(lower(row.name), query) {
        Some((Tier::NamePrefix.rank(), by_name(row)))
    } else if let Some(a) = first_alias(row.aliases, starting(query)) {
        Some((Tier::AliasPrefix.rank(), by_alias(row, a)))
    } else if contains(lower(row.name), query) {
        Some((Tier::NameSubstring.rank(), by_name(row)))
    } else if let Some(a) = first_alias(row.aliases, holding(query)) {
        Some((Tier::AliasSubstring.rank(), by_alias(row, a)))
    } else {
        None
    }
}

/// What `query` finds among the rows, in their order.
pub open spec fn hits(query: Seq<char>, rows: Seq<RowView>) -> Seq<(nat, MatchView)>
    decreases rows.len(),
{
    if rows.len() == 0 {
        seq![]
    } else {
        match best_of(query, rows.last()) {
            Some(h) => hits(query, rows.drop_last()).push(h),
            None => hits(query, rows.drop_last()),
        }
    }
}

/// Better tiers first, then names in order.
pub open spec fn ranked_before(a: (nat, MatchView), b: (nat, MatchView)) -> bool {
    a.0 < b.0 || (a.0 == b.0 && lex_less(a.1.name, b.1.name))
}

/// The order of found commands.
pub open spec fn rank_order() -> spec_fn((nat, MatchView), (nat, MatchView)) -> bool {
    |a: (nat, MatchView), b: (nat, MatchView)| ranked_before(a, b)
}

/// The rows as they are shown before anything was asked for.
pub open spec fn roster(rows: Seq<RowView>) -> Seq<MatchView> {
    rows.map_values(|row: RowView| by_name(row))
}

/// Whether `found` is what `query` finds among the rows, ranked.
pub open spec fn is_ranking(query: Seq<char>, rows: Seq<RowView>, found: Seq<MatchView>) -> bool {
    if query.len() == 0 {
        found == roster(rows)
    } else {
        exists|sorted: Seq<(nat, MatchView)>|
            {
                &&& #[trigger] is_stable_sort(sorted, hits(lower(query), rows), rank_order())
                &&& found == sorted.map_values(|h: (nat, MatchView)| h.1)
            }
    }
}

proof fn lemma_rank_order()
    ensures
        is_order(rank_order()),
{
    let before = rank_order();
    assert forall|a: (nat, MatchView)| !#[trigger] before(a, a) by {
        lemma_lex_order(a.1.name, a.1.name, a.1.name);
    }
    assert forall|a: (nat, MatchView), b: (nat, MatchView), c: (nat, MatchView)| #[trigger]
        before(a, b) && #[trigger] before(b, c) implies before(a, c) by {
        lemma_lex_order(a.1.name, b.1.name, c.1.name);
    }
    assert forall|a: (nat, MatchView), b: (nat, MatchView), c: (nat, MatchView)|
        #![trigger before(a, c), before(a, b)]
        #![trigger before(a, c), before(b, c)]
        before(a, c) implies before(a, b) || before(b, c) by {
        lemma_lex_order(a.1.name, b.1.name, c.1.name);
        lemma_lex_order(b.1.name, a.1.name, c.1.name);
        lemma_lex_order(c.1.name, b.1.name, a.1.name);
        lemma_lex_order(b.1.name, c.1.name, a.1.name);
    }
}

fn on_name(row: &CommandRow) -> (r: MatchedCommand)
    ensures
        r@ == by_name(row@),
{
    MatchedCommand {
        name: row.name,
        description: owned(row.description.as_str()),
        matched_alias: None,
    }
}

fn on_alias(row: &CommandRow, alias: &'static str) -> (r: MatchedCommand)
    ensures
        r@ == by_alias(row@, alias@),
{
    MatchedCommand {
        name: row.name,
        description: owned(row.description.as_str()),
        matched_alias: Some(alias),
    }
}

/// The first alias that starts with `query`, or with `anywhere`, that holds it.
fn matching_alias(row: &CommandRow, query: &str, anywhere: bool) -> (r: Option<&'static str>)
    ensures
        match r {
            Some(a) => first_alias(
                row@.aliases,
                if anywhere {
                    holding(query@)
                } else {
                    starting(query@)
                },
            ) == Some(a@),
            None => first_alias(
                row@.aliases,
                if anywhere {
                    holding(query@)
                } else {
                    starting(query@)
                },
            ) is None,
        },
{
    let ghost found = if anywhere {
        holding(query@)
    } else {
        starting(query@)
    };
    let ghost aliases = row@.aliases;
    let mut i: usize = 0;
    assert(aliases.skip(0) =~= aliases);
    while i < row.aliases.len()
        invariant
            i <= row.aliases.len(),
            aliases == row@.aliases,
            found == if anywhere {
                holding(query@)
            } else {
                starting(query@)
            },
            first_alias(aliases, found) == first_alias(aliases.skip(i as int), found),
        decreases row.aliases.len() - i,
    {
        let alias: &'static str = row.aliases[i];
        let small: String = to_lower(alias);
        let hit: bool = if anywhere {
            has_substring(small.as_str(), query)
        } else {
            has_prefix(small.as_str(), query)
        };
        assert(aliases.skip(i as int)[0] == alias@);
        if hit {
            return Some(alias);
        }
        assert(aliases.skip(i as int).drop_first() =~= aliases.skip(i as int + 1));
        i = i + 1;
    }
    None
}

/// Where `query`, in small letters, is found in the row, and as what.
pub fn best_match(query: &str, row: &CommandRow) -> (r: Option<(Tier, MatchedCommand)>)
    ensures
        match r {
            Some(h) => best_of(query@, row@) == Some((h.0.rank(), h.1@)),
            None => best_of(query@, row@) is None,
        },
{
    let small: String = to_lower(row.name);
    if has_prefix(small.as_str(), query) {
        return Some((Tier::NamePrefix, on_name(row)));
    }
    if let Some(alias) = matching_alias(row, query, false) {
        return Some((Tier::AliasPrefix, on_alias(row, alias)));
    }
    if has_substring(small.as_str(), query) {
        return Some((Tier::NameSubstring, on_name(row)));
    }
    if let Some(alias) = matching_alias(row, query, true) {
        return Some((Tier::AliasSubstring, on_alias(row, alias)));
    }
    None
}

spec fn hit_view(h: (Tier, MatchedCommand)) -> (nat, MatchView) {
    (h.0.rank(), h.1@)
}

spec fn hit_views(v: Seq<(Tier, MatchedCommand)>) -> Seq<(nat, MatchView)> {
    v.map_values(|h: (Tier, MatchedCommand)| hit_view(h))
}

fn precedes(a: &(Tier, MatchedCommand), b: &(Tier, MatchedCommand)) -> (r: bool)
    ensures
        r == ranked_before(hit_view(*a), hit_view(*b)),
{
    let x: u8 = a.0.place();
    let y: u8 = b.0.place();
    x < y || (x == y && str_less(a.1.name, b.1.name))
}

fn insert_ranked(sorted: &mut Vec<(Tier, MatchedCommand)>, hit: (Tier, MatchedCommand), Ghost(
    all,
): Ghost<Seq<(nat, MatchView)>>)
    requires
        is_stable_sort(hit_views(old(sorted)@), all, rank_order()),
    ensures
        is_stable_sort(hit_views(final(sorted)@), all.push(hit_view(hit)), rank_order()),
{
    let ghost before = sorted@;
    let ghost seen = hit_views(before);
    let mut p: usize = 0;
    while p < sorted.len() && !precedes(&hit, &sorted[p])
        invariant
            p <= sorted.len(),
            sorted@ == before,
            seen == hit_views(before),
            forall|k: int| 0 <= k < p ==> !rank_order()(hit_view(hit), #[trigger] seen[k]),
        decreases sorted.len() - p,
    {
        assert(seen[p as int] == hit_view(before[p as int]));
        p = p + 1;
    }
    proof {
        lemma_rank_order();
        if p < before.len() {
            assert(seen[p as int] == hit_view(before[p as int]));
        }
        lemma_insert_sorted(seen, all, hit_view(hit), p as int, rank_order());
        assert(hit_views(before.insert(p as int, hit)) =~= seen.insert(p as int, hit_view(hit)));
    }
    sorted.insert(p, hit);
}

/// The rows that `query` finds, ranked; all of them, in their order, where nothing was asked
/// for.
pub fn filter_and_rank(query: &str, rows: &Vec<CommandRow>) -> (r: Vec<MatchedCommand>)
    ensures
        is_ranking(query@, crate::slash::registry::row_views(rows@), match_views(r@)),
{
    let ghost seen = crate::slash::registry::row_views(rows@);
    let mut out: Vec<MatchedCommand> = Vec::new();
    if query.unicode_len() == 0 {
        let mut i: usize = 0;
        while i < rows.len()
            invariant
                i <= rows.len(),
                seen == crate::slash::registry::row_views(rows@),
                match_views(out@) =~= roster(seen).take(i as int),
            decreases rows.len() - i,
        {
            let m: MatchedCommand = on_name(&rows[i]);
            assert(match_views(out@.push(m)) =~= match_views(out@).push(m@));
            out.push(m);
            i = i + 1;
        }
        assert(roster(seen).take(rows@.len() as int) =~= roster(seen));
        return out;
    }
    let small: String = to_lower(query);
    let mut sorted: Vec<(Tier, MatchedCommand)> = Vec::new();
    let mut i: usize = 0;
    proof {
        lemma_sort_empty(rank_order());
        assert(hit_views(sorted@) =~= seq![]);
        assert(seen.take(0) =~= seq![]);
    }
    while i < rows.len()
        invariant
            i <= rows.len(),
            seen == crate::slash::registry::row_views(rows@),
            small@ == lower(query@),
            is_stable_sort(hit_views(sorted@), hits(small@, seen.take(i as int)), rank_order()),
        decreases rows.len() - i,
    {
        let ghost front = seen.take(i as int);
        assert(seen.take(i as int + 1).drop_last() =~= front);
        if let Some(hit) = best_match(small.as_str(), &rows[i]) {
            insert_ranked(&mut sorted, hit, Ghost(hits(small@, front)));
        }
        i = i + 1;
    }
    assert(seen.take(rows@.len() as int) =~= seen);
    let ghost ranked = hit_views(sorted@);
    for hit in it: sorted
        invariant
            hit_views(it.seq()) == ranked,
            match_views(out@) =~= ranked.map_values(|h: (nat, MatchView)| h.1).take(it.index()),
    {
        let m: MatchedCommand = hit.1;
        assert(ranked[it.index()] == hit_view(hit));
        assert(match_views(out@.push(m)) =~= match_views(out@).push(m@));
        out.push(m);
    }
    assert(match_views(out@) =~= ranked.map_values(|h: (nat, MatchView)| h.1));
    out
}

// ── Rosters ──

/// The places of the labels that start with `query`, in order.
pub open spec fn prefix_places(labels: Seq<Seq<char>>, query: Seq<char>) -> Seq<int>
    decreases labels.len(),
{
    if labels.len() == 0 {
        seq![]
    } else if starts_with(lower(labels.last()), query) {
        prefix_places(labels.drop_last(), query).push(labels.len() - 1)
    } else {
        prefix_places(labels.drop_last(), query)
    }
}

/// The places of the labels that hold `query` behind their start only, in order.
pub open spec fn inner_places(labels: Seq<Seq<char>>, query: Seq<char>) -> Seq<int>
    decreases labels.len(),
{
    if labels.len() == 0 {
        seq![]
    } else if !starts_with(lower(labels.last()), query) && contains(lower(labels.last()), query) {
        inner_places(labels.drop_last(), query).push(labels.len() - 1)
    } else {
        inner_places(labels.drop_last(), query)
    }
}

/// The places of the labels that `query` finds: those that start with it, then those that hold
/// it elsewhere; every place where nothing was asked for.
pub open spec fn ranked_places(labels: Seq<Seq<char>>, query: Seq<char>) -> Seq<int> {
    if query.len() == 0 {
        Seq::new(labels.len(), |i: int| i)
    } else {
        prefix_places(labels, lower(query)) + inner_places(labels, lower(query))
    }
}

/// The characters of each label.
pub open spec fn label_views<'a>(labels: Seq<&'a str>) -> Seq<Seq<char>> {
    labels.map_values(|s: &'a str| s@)
}

/// Places as integers.
pub open spec fn places(v: Seq<usize>) -> Seq<int> {
    v.map_values(|i: usize| i as int)
}

/// The places of the labels that `query` finds, ranked.
pub fn rank_by_prefix<'a>(labels: &Vec<&'a str>, query: &str) -> (r: Vec<usize>)
    ensures
        places(r@) == ranked_places(label_views(labels@), query@),
        forall|k: int| 0 <= k < r@.len() ==> #[trigger] r@[k] < labels@.len(),
{
    let ghost all = label_views(labels@);
    let mut out: Vec<usize> = Vec::new();
    if query.unicode_len() == 0 {
        let mut i: usize = 0;
        while i < labels.len()
            invariant
                i <= labels.len(),
                places(out@) =~= Seq::new(i as nat, |k: int| k),
                forall|k: int| 0 <= k < out@.len() ==> #[trigger] out@[k] < labels@.len(),
            decreases labels.len() - i,
        {
            assert(places(out@.push(i)) =~= places(out@).push(i as int));
            out.push(i);
            i = i + 1;
        }
        return out;
    }
    let small: String = to_lower(query);
    let mut inner: Vec<usize> = Vec::new();
    let mut i: usize = 0;
    assert(all.take(0) =~= seq![]);
    assert(places(out@) =~= seq![]);
    while i < labels.len()
        invariant
            i <= labels.len(),
            all == label_views(labels@),
            small@ == lower(query@),
            places(out@) == prefix_places(all.take(i as int), small@),
            places(inner@) == inner_places(all.take(i as int), small@),
            forall|k: int| 0 <= k < out@.len() ==> #[trigger] out@[k] < labels@.len(),
            forall|k: int| 0 <= k < inner@.len() ==> #[trigger] inner@[k] < labels@.len(),
        decreases labels.len() - i,
    {
        assert(all.take(i as int + 1).drop_last() =~= all.take(i as int));
        let label: String = to_lower(labels[i]);
        if has_prefix(label.as_str(), small.as_str()) {
            assert(places(out@.push(i)) =~= places(out@).push(i as int));
            out.push(i);
        } else if has_substring(label.as_str(), small.as_str()) {
            assert(places(inner@.push(i)) =~= places(inner@).push(i as int));
            inner.push(i);
        }
        i = i + 1;
    }
    assert(all.take(all.len() as int) =~= all);
    let ghost front = out@;
    let mut k: usize = 0;
    while k < inner.len()
        invariant
            k <= inner.len(),
            out@ =~= front + inner@.take(k as int),
            forall|j: int| 0 <= j < front.len() ==> #[trigger] front[j] < labels@.len(),
            forall|j: int| 0 <= j < inner@.len() ==> #[trigger] inner@[j] < labels@.len(),
        decreases inner.len() - k,
    {
        out.push(inner[k]);
        k = k + 1;
    }
    assert(places(out@) =~= places(front) + places(inner@));
    out
}

proof fn lemma_first_alias(aliases: Seq<Seq<char>>, found: spec_fn(Seq<char>) -> bool) -> (k: int)
    ensures
        first_alias(aliases, found) matches Some(a) ==> 0 <= k < aliases.len() && aliases[k] == a
            && found(lower(a)) && forall|j: int| 0 <= j < k ==> !found(lower(#[trigger] aliases[j])),
        first_alias(aliases, found) is None ==> forall|j: int|
            0 <= j < aliases.len() ==> !found(lower(#[trigger] aliases[j])),
    decreases aliases.len(),
{
    if aliases.len() == 0 || found(lower(aliases[0])) {
        0
    } else {
        let t = aliases.drop_first();
        let k = lemma_first_alias(t, found) + 1;
        assert forall|j: int| 1 <= j < aliases.len() implies #[trigger] aliases[j] == t[j - 1] by {}
        k
    }
}

/// A command is found where its name or an alias holds the query in lower case. A name that begins
/// with it is the best place, then an alias that does, then a name that holds it elsewhere, then
/// an alias; an alias is told only where the name is no better place, and it is the first such.
pub proof fn law_commands_are_found_at_the_best_place(query: Seq<char>, row: RowView) -> (k: int)
    ensures
        ({
            let name = lower(row.name);
            let begins = exists|j: int|
                0 <= j < row.aliases.len() && starts_with(lower(#[trigger] row.aliases[j]), query);
            let holds = exists|j: int|
                0 <= j < row.aliases.len() && contains(lower(#[trigger] row.aliases[j]), query);
            let found = best_of(query, row);
            let alias_at = |place: nat|
                found == Some(
                    (
                        place,
                        MatchView {
                            name: row.name,
                            description: row.description,
                            matched_alias: Some(row.aliases[k]),
                        },
                    ),
                ) && 0 <= k < row.aliases.len();
            let name_at = |place: nat|
                found == Some(
                    (
                        place,
                        MatchView {
                            name: row.name,
                            description: row.description,
                            matched_alias: None,
                        },
                    ),
                );
            &&& starts_with(name, query) ==> name_at(0)
            &&& !starts_with(name, query) && begins ==> alias_at(1) && starts_with(
                lower(row.aliases[k]),
                query,
            ) && forall|j: int|
                0 <= j < k ==> !starts_with(lower(#[trigger] row.aliases[j]), query)
            &&& !starts_with(name, query) && !begins && contains(name, query) ==> name_at(2)
            &&& !begins && !contains(name, query) && holds ==> alias_at(3) && contains(
                lower(row.aliases[k]),
                query,
            ) && forall|j: int| 0 <= j < k ==> !contains(lower(#[trigger] row.aliases[j]), query)
            &&& !contains(name, query) && !holds ==> found is None
        }),
{
    let name = lower(row.name);
    let at_start = lemma_first_alias(row.aliases, starting(query));
    let inside = lemma_first_alias(row.aliases, holding(query));
    if starts_with(name, query) {
        assert(occurs_at(name, query, 0)) by {
            assert(name.subrange(0, query.len() as int) =~= name.take(query.len() as int));
        }
    }
    assert forall|j: int|
        0 <= j < row.aliases.len() && starts_with(
            lower(#[trigger] row.aliases[j]),
            query,
        ) implies contains(lower(row.aliases[j]), query) by {
        let a = lower(row.aliases[j]);
        assert(a.subrange(0, query.len() as int) =~= a.take(query.len() as int));
        assert(occurs_at(a, query, 0));
    }
    if first_alias(row.aliases, starting(query)) is Some {
        assert(starting(query)(lower(row.aliases[at_start])));
        at_start
    } else {
        if exists|j: int|
            0 <= j < row.aliases.len() && starts_with(lower(#[trigger] row.aliases[j]), query) {
            let j = choose|j: int|
                0 <= j < row.aliases.len() && starts_with(lower(#[trigger] row.aliases[j]), query);
            assert(starting(query)(lower(row.aliases[j])));
        }
        if first_alias(row.aliases, holding(query)) is Some {
            assert(holding(query)(lower(row.aliases[inside])));
        } else {
            if exists|j: int|
                0 <= j < row.aliases.len() && contains(lower(#[trigger] row.aliases[j]), query) {
                let j = choose|j: int|
                    0 <= j < row.aliases.len() && contains(lower(#[trigger] row.aliases[j]), query);
                assert(holding(query)(lower(row.aliases[j])));
            }
        }
        inside
    }
}

proof fn lemma_hits(query: Seq<char>, rows: Seq<RowView>)
    ensures
        forall|i: int|
            0 <= i < rows.len() ==> (best_of(query, #[trigger] rows[i]) matches Some(h) ==> hits(
                query,
                rows,
            ).contains(h)),
        forall|k: int|
            0 <= k < hits(query, rows).len() ==> exists|i: int|
                0 <= i < rows.len() && best_of(query, #[trigger] rows[i]) == Some(
                    #[trigger] hits(query, rows)[k],
                ),
    decreases rows.len(),
{
    if rows.len() > 0 {
        let t = rows.drop_last();
        lemma_hits(query, t);
        let before = hits(query, t);
        let all = hits(query, rows);
        assert forall|i: int| 0 <= i < rows.len() implies (best_of(query, #[trigger] rows[i]) matches
            Some(h) ==> all.contains(h)) by {
            if let Some(h) = best_of(query, rows[i]) {
                if i < t.len() {
                    assert(t[i] == rows[i]);
                    let k = choose|k: int| 0 <= k < before.len() && before[k] == h;
                    assert(all[k] == h);
                } else {
                    assert(all[before.len() as int] == h);
                }
            }
        }
        assert forall|k: int| 0 <= k < all.len() implies exists|i: int|
            0 <= i < rows.len() && best_of(query, #[trigger] rows[i]) == Some(#[trigger] all[k]) by {
            if k < before.len() {
                assert(all[k] == before[k]);
                let i = choose|i: int|
                    0 <= i < t.len() && best_of(query, #[trigger] t[i]) == Some(before[k]);
                assert(rows[i] == t[i]);
            } else {
                assert(rows[rows.len() - 1] == rows.last());
            }
        }
    }
}

/// Where nothing is asked for, every command is found, in its order.
pub proof fn law_every_command_is_found_by_nothing(rows: Seq<RowView>, found: Seq<MatchView>)
    requires
        is_ranking(Seq::empty(), rows, found),
    ensures
        found.len() == rows.len(),
        forall|i: int|
            0 <= i < rows.len() ==> (#[trigger] found[i]).name == rows[i].name
                && found[i].description == rows[i].description && found[i].matched_alias is None,
{
}

/// What a query finds is every command that has it somewhere, once, and nothing else.
pub proof fn law_query_finds_what_has_it(
    query: Seq<char>,
    rows: Seq<RowView>,
    found: Seq<MatchView>,
    m: MatchView,
)
    requires
        query.len() > 0,
        is_ranking(query, rows, found),
    ensures
        found.contains(m) <==> exists|i: int|
            0 <= i < rows.len() && (best_of(lower(query), #[trigger] rows[i]) matches Some((_, h))
                && h == m),
        found.len() == rows.filter(|row: RowView| best_of(lower(query), row) is Some).len(),
{
    let q = lower(query);
    let all = hits(q, rows);
    lemma_hits(q, rows);
    lemma_hits_len(q, rows);
    lemma_rank_order();
    let sorted = choose|sorted: Seq<(nat, MatchView)>|
        {
            &&& #[trigger] is_stable_sort(sorted, all, rank_order())
            &&& found == sorted.map_values(|h: (nat, MatchView)| h.1)
        };
    assert forall|h: (nat, MatchView)| #[trigger] sorted.contains(h) <==> all.contains(h) by {
        law_sorting_keeps_what_there_is(sorted, all, rank_order(), h);
    }
    if all.len() > 0 {
        law_sorting_keeps_what_there_is(sorted, all, rank_order(), all[0]);
    } else if sorted.len() > 0 {
        assert(sorted.contains(sorted[0]));
    }
    if found.contains(m) {
        let k = choose|k: int| 0 <= k < found.len() && found[k] == m;
        assert(sorted.contains(sorted[k]));
        let j = choose|j: int| 0 <= j < all.len() && all[j] == sorted[k];
        assert(all[j].1 == m);
    }
    if exists|i: int|
        0 <= i < rows.len() && (best_of(q, #[trigger] rows[i]) matches Some((_, h)) && h == m) {
        let i = choose|i: int|
            0 <= i < rows.len() && (best_of(q, #[trigger] rows[i]) matches Some((_, h)) && h == m);
        let h = best_of(q, rows[i])->0;
        assert(sorted.contains(h));
        let k = choose|k: int| 0 <= k < sorted.len() && sorted[k] == h;
        assert(found[k] == m);
    }
}

proof fn lemma_hits_len(query: Seq<char>, rows: Seq<RowView>)
    ensures
        hits(query, rows).len() == rows.filter(
            |row: RowView| best_of(query, row) is Some,
        ).len(),
    decreases rows.len(),
{
    reveal(Seq::filter);
    if rows.len() > 0 {
        lemma_hits_len(query, rows.drop_last());
    }
}

/// Of two commands that a query finds, the one that comes first has it at a better place, or at as
/// good a place and a name that does not come later in the alphabet.
pub proof fn law_better_places_come_first(
    query: Seq<char>,
    rows: Seq<RowView>,
    found: Seq<MatchView>,
    i: int,
    j: int,
)
    requires
        query.len() > 0,
        is_ranking(query, rows, found),
        0 <= i < j < found.len(),
    ensures
        exists|a: int, b: int|
            {
                &&& 0 <= a < rows.len()
                &&& 0 <= b < rows.len()
                &&& best_of(lower(query), #[trigger] rows[a]) matches Some((p, m)) && m == found[i]
                    && (best_of(lower(query), #[trigger] rows[b]) matches Some((q, n)) && n
                    == found[j] && (p < q || (p == q && !lex_less(n.name, m.name))))
            },
{
    let q = lower(query);
    let all = hits(q, rows);
    lemma_hits(q, rows);
    lemma_rank_order();
    let sorted = choose|sorted: Seq<(nat, MatchView)>|
        {
            &&& #[trigger] is_stable_sort(sorted, all, rank_order())
            &&& found == sorted.map_values(|h: (nat, MatchView)| h.1)
        };
    law_sorting_keeps_what_there_is(sorted, all, rank_order(), sorted[i]);
    law_sorting_keeps_what_there_is(sorted, all, rank_order(), sorted[j]);
    assert(sorted.contains(sorted[i]) && sorted.contains(sorted[j]));
    let x = choose|x: int| 0 <= x < all.len() && all[x] == sorted[i];
    let y = choose|y: int| 0 <= y < all.len() && all[y] == sorted[j];
    let a = choose|a: int| 0 <= a < rows.len() && best_of(q, #[trigger] rows[a]) == Some(all[x]);
    let b = choose|b: int| 0 <= b < rows.len() && best_of(q, #[trigger] rows[b]) == Some(all[y]);
    assert(!rank_order()(sorted[j], sorted[i]));
    assert(best_of(q, rows[a]) == Some(sorted[i]));
    assert(best_of(q, rows[b]) == Some(sorted[j]));
    assert(found[i] == sorted[i].1 && found[j] == sorted[j].1);
}

proof fn lemma_places(labels: Seq<Seq<char>>, query: Seq<char>)
    ensures
        forall|k: int|
            0 <= k < prefix_places(labels, query).len() ==> 0 <= (#[trigger] prefix_places(
                labels,
                query,
            )[k]) < labels.len() && starts_with(
                lower(labels[prefix_places(labels, query)[k]]),
                query,
            ),
        forall|k: int|
            0 <= k < inner_places(labels, query).len() ==> 0 <= (#[trigger] inner_places(
                labels,
                query,
            )[k]) < labels.len() && contains(lower(labels[inner_places(labels, query)[k]]), query)
                && !starts_with(lower(labels[inner_places(labels, query)[k]]), query),
        forall|a: int, b: int|
            0 <= a < b < prefix_places(labels, query).len() ==> #[trigger] prefix_places(
                labels,
                query,
            )[a] < #[trigger] prefix_places(labels, query)[b],
        forall|a: int, b: int|
            0 <= a < b < inner_places(labels, query).len() ==> #[trigger] inner_places(
                labels,
                query,
            )[a] < #[trigger] inner_places(labels, query)[b],
        forall|p: int|
            0 <= p < labels.len() && starts_with(lower(#[trigger] labels[p]), query)
                ==> prefix_places(labels, query).contains(p),
        forall|p: int|
            0 <= p < labels.len() && contains(lower(#[trigger] labels[p]), query) && !starts_with(
                lower(labels[p]),
                query,
            ) ==> inner_places(labels, query).contains(p),
    decreases labels.len(),
{
    if labels.len() > 0 {
        let t = labels.drop_last();
        let n = t.len() as int;
        lemma_places(t, query);
        let pt = prefix_places(t, query);
        let it = inner_places(t, query);
        let pl = prefix_places(labels, query);
        let il = inner_places(labels, query);
        assert(forall|p: int| 0 <= p < n ==> #[trigger] labels[p] == t[p]);
        assert(forall|k: int| 0 <= k < pt.len() ==> #[trigger] pl[k] == pt[k]);
        assert(forall|k: int| 0 <= k < it.len() ==> #[trigger] il[k] == it[k]);
        assert forall|p: int|
            0 <= p < labels.len() && starts_with(
                lower(#[trigger] labels[p]),
                query,
            ) implies pl.contains(p) by {
            if p < n {
                assert(t[p] == labels[p]);
                let k = choose|k: int| 0 <= k < pt.len() && pt[k] == p;
                assert(pl[k] == p);
            } else {
                assert(pl[pt.len() as int] == p);
            }
        }
        assert forall|p: int|
            0 <= p < labels.len() && contains(lower(#[trigger] labels[p]), query) && !starts_with(
                lower(labels[p]),
                query,
            ) implies il.contains(p) by {
            if p < n {
                assert(t[p] == labels[p]);
                let k = choose|k: int| 0 <= k < it.len() && it[k] == p;
                assert(il[k] == p);
            } else {
                assert(il[it.len() as int] == p);
            }
        }
        assert forall|k: int| 0 <= k < pl.len() implies 0 <= (#[trigger] pl[k]) < labels.len()
            && starts_with(lower(labels[pl[k]]), query) by {
            if k < pt.len() {
                assert(t[pt[k]] == labels[pl[k]]);
            }
        }
        assert forall|k: int| 0 <= k < il.len() implies 0 <= (#[trigger] il[k]) < labels.len()
            && contains(lower(labels[il[k]]), query) && !starts_with(lower(labels[il[k]]), query) by {
            if k < it.len() {
                assert(t[it[k]] == labels[il[k]]);
            }
        }
    }
}

/// What is typed of a label finds every label that holds it in any case, and no other, those that
/// begin with it first, and otherwise in their order; nothing finds them all in their order.
pub proof fn law_labels_that_begin_come_first(labels: Seq<Seq<char>>, query: Seq<char>)
    ensures
        query.len() == 0 ==> ranked_places(labels, query).len() == labels.len() && forall|i: int|
            0 <= i < labels.len() ==> #[trigger] ranked_places(labels, query)[i] == i,
        query.len() > 0 ==> ({
            let r = ranked_places(labels, query);
            let begins = |p: int| starts_with(lower(labels[p]), lower(query));
            &&& forall|p: int|
                #[trigger] r.contains(p) <==> 0 <= p < labels.len() && contains(
                    lower(labels[p]),
                    lower(query),
                )
            &&& forall|a: int, b: int|
                0 <= a < b < r.len() ==> (begins(#[trigger] r[a]) && !begins(#[trigger] r[b])) || (
                begins(r[a]) == begins(r[b]) && r[a] < r[b])
        }),
{
    if query.len() > 0 {
        let q = lower(query);
        lemma_places(labels, q);
        let r = ranked_places(labels, query);
        let pl = prefix_places(labels, q);
        let il = inner_places(labels, q);
        assert forall|p: int| #[trigger] r.contains(p) <==> 0 <= p < labels.len() && contains(
            lower(labels[p]),
            q,
        ) by {
            if r.contains(p) {
                let k = choose|k: int| 0 <= k < r.len() && r[k] == p;
                if k < pl.len() {
                    assert(pl[k] == p);
                    let s = lower(labels[p]);
                    assert(s.subrange(0, q.len() as int) =~= s.take(q.len() as int));
                    assert(occurs_at(s, q, 0));
                } else {
                    assert(il[k - pl.len()] == p);
                }
            }
            if 0 <= p < labels.len() && contains(lower(labels[p]), q) {
                if starts_with(lower(labels[p]), q) {
                    let k = choose|k: int| 0 <= k < pl.len() && pl[k] == p;
                    assert(r[k] == p);
                } else {
                    let k = choose|k: int| 0 <= k < il.len() && il[k] == p;
                    assert(r[pl.len() + k] == p);
                }
            }
        }
        assert(forall|k: int| 0 <= k < pl.len() ==> #[trigger] r[k] == pl[k]);
        assert(forall|k: int| pl.len() <= k < r.len() ==> #[trigger] r[k] == il[k - pl.len()]);
    }
}

} // verus!
