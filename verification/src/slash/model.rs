//! `/model`: from what was typed to a model identifier.

use vstd::prelude::*;
use vstd::string::*;

use crate::model::{
    info_views, lemma_first_named, Catalog, CatalogView, ModelInfo, ResolvedModelId, TAG_1M,
};
use crate::slash::matcher::{
    label_views, law_labels_that_begin_come_first, places, rank_by_prefix, ranked_places,
};
use crate::slash::registry::{completion_views, ArgCompletion};
use crate::text::{
    chars_of, contains, ends_with, has_prefix, has_substring, has_suffix, join, lemma_lower_upper,
    lower, occurs_at, owned, starts_with, str_eq, strip_end, strip_end_of, to_lower, upper, views,
};
use crate::tui::kv_overview::pair_views;

verus! {

// ── Short names ──

/// The identifier that the first `n` short names have for `arg`.
pub open spec fn alias_among(
    aliases: Seq<(Seq<char>, Seq<char>)>,
    arg: Seq<char>,
    n: nat,
) -> Option<Seq<char>>
    decreases n,
{
    if n == 0 {
        None
    } else {
        match alias_among(aliases, arg, (n - 1) as nat) {
            Some(id) => Some(id),
            None => if aliases[n - 1].0 == arg {
                Some(aliases[n - 1].1)
            } else {
                None
            },
        }
    }
}

/// The identifier that a short name stands for.
pub open spec fn alias_of(cat: CatalogView, arg: Seq<char>) -> Option<Seq<char>> {
    alias_among(cat.aliases, arg, cat.aliases.len())
}

proof fn lemma_alias_among(aliases: Seq<(Seq<char>, Seq<char>)>, arg: Seq<char>, n: nat, m: nat)
    requires
        n <= m <= aliases.len(),
    ensures
        alias_among(aliases, arg, n) is Some ==> alias_among(aliases, arg, m) == alias_among(
            aliases,
            arg,
            n,
        ),
        alias_among(aliases, arg, n) matches Some(id) ==> exists|k: int|
            0 <= k < n && (#[trigger] aliases[k]).1 == id && aliases[k].0 == arg,
    decreases m,
{
    if n < m {
        lemma_alias_among(aliases, arg, n, (m - 1) as nat);
    } else if n > 0 {
        lemma_alias_among(aliases, arg, (n - 1) as nat, (n - 1) as nat);
        if alias_among(aliases, arg, (n - 1) as nat) is None {
            assert(alias_among(aliases, arg, n) is Some ==> aliases[n - 1].0 == arg);
        }
    }
}

fn alias_target<'a>(cat: &'a Catalog, arg: &str) -> (r: Option<&'a str>)
    ensures
        match r {
            Some(id) => alias_of(cat@, arg@) == Some(id@),
            None => alias_of(cat@, arg@) is None,
        },
{
    let aliases: &Vec<(String, String)> = cat.aliases();
    let ghost all = cat@.aliases;
    assert(all.len() == aliases@.len());
    let mut i: usize = 0;
    while i < aliases.len()
        invariant
            i <= aliases.len(),
            all == cat@.aliases,
            all == pair_views(aliases@),
            all.len() == aliases@.len(),
            alias_among(all, arg@, i as nat) is None,
        decreases aliases.len() - i,
    {
        assert(all[i as int] == (aliases@[i as int].0@, aliases@[i as int].1@));
        if str_eq(aliases[i].0.as_str(), arg) {
            proof {
                lemma_alias_among(all, arg@, (i + 1) as nat, all.len());
            }
            return Some(aliases[i].1.as_str());
        }
        i = i + 1;
    }
    None
}

/// Short names as they are listed to the user.
pub open spec fn quoted_aliases(cat: CatalogView) -> Seq<Seq<char>> {
    cat.aliases.map_values(|a: (Seq<char>, Seq<char>)| "`"@ + a.0 + "`"@)
}

fn alias_list(cat: &Catalog) -> (r: String)
    ensures
        r@ == join(quoted_aliases(cat@), ", "@),
{
    let aliases: &Vec<(String, String)> = cat.aliases();
    let ghost all = quoted_aliases(cat@);
    assert(cat@.aliases.len() == aliases@.len());
    let mut out: String = String::new();
    let mut i: usize = 0;
    assert(all.take(0) =~= seq![]);
    while i < aliases.len()
        invariant
            i <= aliases.len(),
            cat@.aliases == pair_views(aliases@),
            all == quoted_aliases(cat@),
            all.len() == aliases@.len(),
            out@ == join(all.take(i as int), ", "@),
        decreases aliases.len() - i,
    {
        assert(all.take(i as int + 1).drop_last() =~= all.take(i as int));
        assert(all[i as int] == "`"@ + aliases@[i as int].0@ + "`"@);
        if i > 0 {
            out.append(", ");
        }
        let ghost before = out@;
        out.append("`");
        out.append(aliases[i].0.as_str());
        out.append("`");
        assert(out@ =~= before + ("`"@ + aliases@[i as int].0@ + "`"@));
        i = i + 1;
    }
    assert(all.take(all.len() as int) =~= all);
    out
}

// ── Completion ──

/// What `values` are completed to for what was typed, each with its description.
pub open spec fn completed(
    values: Seq<Seq<char>>,
    descriptions: Seq<Seq<char>>,
    typed: Seq<char>,
) -> Seq<(Seq<char>, Seq<char>)> {
    ranked_places(values, typed).map_values(|i: int| (values[i], descriptions[i]))
}

/// The names of the models that are offered.
pub open spec fn listed_names(cat: CatalogView) -> Seq<Seq<char>> {
    cat.listed.map_values(|id: Seq<char>| cat.shown_name(id))
}

/// Strings as slices of characters.
fn as_labels<'a>(v: &'a Vec<String>) -> (r: Vec<&'a str>)
    ensures
        label_views(r@) == views(v@),
        r@.len() == v@.len(),
{
    let mut out: Vec<&'a str> = Vec::new();
    let mut i: usize = 0;
    while i < v.len()
        invariant
            i <= v.len(),
            out@.len() == i,
            label_views(out@) =~= views(v@).take(i as int),
        decreases v.len() - i,
    {
        let s: &'a str = v[i].as_str();
        let ghost before = out@;
        out.push(s);
        assert(label_views(out@) =~= label_views(before).push(s@));
        i = i + 1;
    }
    assert(views(v@).take(v@.len() as int) =~= views(v@));
    out
}

/// The offered models that `prefix` finds, each with its name.
pub fn complete_arg(cat: &Catalog, prefix: &str) -> (r: Vec<ArgCompletion>)
    ensures
        completion_views(r@) == completed(cat@.listed, listed_names(cat@), prefix@),
{
    let ids: Vec<&str> = as_labels(cat.listed());
    let found: Vec<usize> = rank_by_prefix(&ids, prefix);
    let ghost listed = cat@.listed;
    let ghost want = completed(listed, listed_names(cat@), prefix@);
    let mut out: Vec<ArgCompletion> = Vec::new();
    let mut i: usize = 0;
    assert(label_views(ids@).len() == ids@.len());
    while i < found.len()
        invariant
            i <= found.len(),
            listed == cat@.listed,
            label_views(ids@) == listed,
            ids@.len() == listed.len(),
            places(found@) == ranked_places(listed, prefix@),
            forall|k: int| 0 <= k < found@.len() ==> #[trigger] found@[k] < ids@.len(),
            want == completed(listed, listed_names(cat@), prefix@),
            completion_views(out@) =~= want.take(i as int),
        decreases found.len() - i,
    {
        let id: &str = ids[found[i]];
        assert(places(found@)[i as int] == found@[i as int]);
        assert(listed[found@[i as int] as int] == id@);
        let c: ArgCompletion = ArgCompletion {
            value: owned(id),
            description: cat.display_name(id),
        };
        assert(completion_views(out@.push(c)) =~= completion_views(out@).push(
            (c.value@, c.description@),
        ));
        out.push(c);
        i = i + 1;
    }
    assert(want.take(found@.len() as int) =~= want) by {
        assert(places(found@).len() == found@.len());
    }
    out
}

// ── Known identifiers ──

/// Whether `arg` is `base` with a date of eight digits behind a dash.
pub open spec fn is_dated_form(arg: Seq<char>, base: Seq<char>) -> bool {
    &&& starts_with(arg, base)
    &&& arg.len() == base.len() + 9
    &&& arg[base.len() as int] == '-'
    &&& forall|i: int| base.len() < i < arg.len() ==> '0' <= #[trigger] arg[i] <= '9'
}

/// Whether `arg` is `base` with a date of eight digits behind a dash.
pub fn has_dated_suffix(arg: &str, base: &str) -> (r: bool)
    ensures
        r == is_dated_form(arg@, base@),
{
    if !has_prefix(arg, base) {
        return false;
    }
    let cs: Vec<char> = chars_of(arg);
    let n: usize = base.unicode_len();
    if cs.len() < 9 || cs.len() - 9 != n {
        return false;
    }
    if cs[n] != '-' {
        return false;
    }
    let mut i: usize = n + 1;
    while i < cs.len()
        invariant
            n < i <= cs.len(),
            cs@ == arg@,
            n == base@.len(),
            forall|k: int| n < k < i ==> '0' <= #[trigger] arg@[k] <= '9',
        decreases cs.len() - i,
    {
        if cs[i] < '0' || cs[i] > '9' {
            assert(!('0' <= arg@[i as int] <= '9'));
            return false;
        }
        i = i + 1;
    }
    true
}

/// Whether `arg` is a known identifier with a date.
pub open spec fn is_dated(cat: CatalogView, arg: Seq<char>) -> bool {
    exists|k: int|
        0 <= k < cat.models.len() && is_dated_form(arg, (#[trigger] cat.models[k]).id)
}

/// Whether `arg` is a known identifier.
pub open spec fn is_known(cat: CatalogView, arg: Seq<char>) -> bool {
    exists|k: int| 0 <= k < cat.models.len() && arg == (#[trigger] cat.models[k]).id
}

/// Whether `arg` is a known identifier with a date.
pub fn is_dated_model_id(cat: &Catalog, arg: &str) -> (r: bool)
    ensures
        r == is_dated(cat@, arg@),
{
    let table: &Vec<ModelInfo> = cat.models();
    let ghost all = cat@.models;
    let mut i: usize = 0;
    while i < table.len()
        invariant
            i <= table.len(),
            info_views(table@) == all,
            all == cat@.models,
            forall|k: int| 0 <= k < i ==> !is_dated_form(arg@, (#[trigger] all[k]).id),
        decreases table.len() - i,
    {
        assert(all[i as int] == table@[i as int]@);
        if has_dated_suffix(arg, table[i].id_substr.as_str()) {
            return true;
        }
        i = i + 1;
    }
    assert(info_views(table@).len() == table@.len());
    false
}

/// Whether `arg` is a known identifier.
pub fn is_selectable_known_id(cat: &Catalog, arg: &str) -> (r: bool)
    ensures
        r == is_known(cat@, arg@),
{
    let table: &Vec<ModelInfo> = cat.models();
    let ghost all = cat@.models;
    let mut i: usize = 0;
    while i < table.len()
        invariant
            i <= table.len(),
            info_views(table@) == all,
            all == cat@.models,
            forall|k: int| 0 <= k < i ==> arg@ != (#[trigger] all[k]).id,
        decreases table.len() - i,
    {
        assert(all[i as int] == table@[i as int]@);
        if str_eq(table[i].id_substr.as_str(), arg) {
            return true;
        }
        i = i + 1;
    }
    assert(info_views(table@).len() == table@.len());
    false
}

/// Where a typed part is looked for in an identifier.
#[derive(Debug, Clone, Copy, PartialEq, Eq, Structural)]
pub enum Within {
    /// At its end.
    Suffix,
    /// Anywhere.
    Anywhere,
}

/// Whether `arg` is in `id` where it is looked for.
pub open spec fn is_part(id: Seq<char>, arg: Seq<char>, within: Within) -> bool {
    match within {
        Within::Suffix => ends_with(id, arg),
        Within::Anywhere => contains(id, arg),
    }
}

/// The identifiers of the first `n` models that have `arg` where it is looked for.
pub open spec fn parts_found(cat: CatalogView, arg: Seq<char>, within: Within, n: nat) -> Seq<
    Seq<char>,
>
    decreases n,
{
    if n == 0 {
        seq![]
    } else if is_part(cat.models[n - 1].id, arg, within) {
        parts_found(cat, arg, within, (n - 1) as nat).push(cat.models[n - 1].id)
    } else {
        parts_found(cat, arg, within, (n - 1) as nat)
    }
}

/// The known identifiers that have `arg` where it is looked for.
pub open spec fn candidate_ids(cat: CatalogView, arg: Seq<char>, within: Within) -> Seq<Seq<char>> {
    parts_found(cat, arg, within, cat.models.len())
}

/// The known identifiers that have `arg` where it is looked for.
pub fn candidates(cat: &Catalog, arg: &str, within: Within) -> (r: Vec<String>)
    ensures
        views(r@) == candidate_ids(cat@, arg@, within),
{
    let table: &Vec<ModelInfo> = cat.models();
    let mut out: Vec<String> = Vec::new();
    let mut i: usize = 0;
    assert(views(out@) =~= seq![]);
    while i < table.len()
        invariant
            i <= table.len(),
            info_views(table@) == cat@.models,
            views(out@) == parts_found(cat@, arg@, within, i as nat),
        decreases table.len() - i,
    {
        assert(cat@.models[i as int] == table@[i as int]@);
        let id: &str = table[i].id_substr.as_str();
        let hit: bool = match within {
            Within::Suffix => has_suffix(id, arg),
            Within::Anywhere => has_substring(id, arg),
        };
        if hit {
            let name: String = owned(id);
            let ghost before = out@;
            out.push(name);
            assert(views(out@) =~= views(before).push(name@));
        }
        i = i + 1;
    }
    assert(info_views(table@).len() == table@.len());
    out
}

proof fn lemma_candidates_are_known(cat: CatalogView, arg: Seq<char>, within: Within, n: nat)
    requires
        n <= cat.models.len(),
    ensures
        forall|i: int|
            0 <= i < parts_found(cat, arg, within, n).len() ==> is_known(
                cat,
                #[trigger] parts_found(cat, arg, within, n)[i],
            ),
    decreases n,
{
    if n > 0 {
        let front = parts_found(cat, arg, within, (n - 1) as nat);
        let all = parts_found(cat, arg, within, n);
        lemma_candidates_are_known(cat, arg, within, (n - 1) as nat);
        assert(is_known(cat, cat.models[n - 1].id));
        assert forall|i: int| 0 <= i < all.len() implies is_known(cat, #[trigger] all[i]) by {
            if i < front.len() {
                assert(all[i] == front[i]);
            }
        }
    }
}

// ── Listings ──

/// A line for each model: its identifier and its name.
pub open spec fn bullets(cat: CatalogView, ids: Seq<Seq<char>>) -> Seq<char>
    decreases ids.len(),
{
    if ids.len() == 0 {
        seq![]
    } else {
        bullets(cat, ids.drop_last()) + "- `"@ + ids.last() + "` — "@ + cat.shown_name(ids.last())
            + "\n"@
    }
}

/// A list of models: a line for each, with no line end at the end.
pub open spec fn supported_text(cat: CatalogView, ids: Seq<Seq<char>>) -> Seq<char> {
    strip_end_of(bullets(cat, ids), '\n')
}

/// A list of models: a line for each, with its identifier and its name.
pub fn format_supported_models(cat: &Catalog, ids: &Vec<String>) -> (r: String)
    ensures
        r@ == supported_text(cat@, views(ids@)),
{
    let ghost all = views(ids@);
    let mut out: String = String::new();
    let mut i: usize = 0;
    assert(all.take(0) =~= seq![]);
    while i < ids.len()
        invariant
            i <= ids.len(),
            all == views(ids@),
            out@ == bullets(cat@, all.take(i as int)),
        decreases ids.len() - i,
    {
        assert(all.take(i as int + 1).drop_last() =~= all.take(i as int));
        let id: &str = ids[i].as_str();
        let label: String = cat.display_name(id);
        out.append("- `");
        out.append(id);
        out.append("` — ");
        out.append(label.as_str());
        out.append("\n");
        i = i + 1;
    }
    assert(all.take(all.len() as int) =~= all);
    owned(strip_end(out.as_str(), '\n'))
}

/// The identifiers that hold `arg`, letters of either case being the same.
pub open spec fn holding_ids(ids: Seq<Seq<char>>, arg: Seq<char>) -> Seq<Seq<char>>
    decreases ids.len(),
{
    if ids.len() == 0 {
        seq![]
    } else if contains(lower(ids.last()), lower(arg)) {
        holding_ids(ids.drop_last(), arg).push(ids.last())
    } else {
        holding_ids(ids.drop_last(), arg)
    }
}

/// The offered models that hold `arg`; all of them where none does.
pub open spec fn listing_for(cat: CatalogView, arg: Seq<char>) -> Seq<char> {
    if holding_ids(cat.listed, arg).len() == 0 {
        supported_text(cat, cat.listed)
    } else {
        supported_text(cat, holding_ids(cat.listed, arg))
    }
}

/// Lists the offered models that hold `arg`; all of them where none does.
pub fn listed_models_matching(cat: &Catalog, arg: &str) -> (r: String)
    ensures
        r@ == listing_for(cat@, arg@),
{
    let ids: &Vec<String> = cat.listed();
    let small: String = to_lower(arg);
    let ghost all = cat@.listed;
    let mut kept: Vec<String> = Vec::new();
    let mut i: usize = 0;
    assert(all.take(0) =~= seq![]);
    assert(views(kept@) =~= seq![]);
    while i < ids.len()
        invariant
            i <= ids.len(),
            small@ == lower(arg@),
            all == views(ids@),
            views(kept@) == holding_ids(all.take(i as int), arg@),
        decreases ids.len() - i,
    {
        assert(all.take(i as int + 1).drop_last() =~= all.take(i as int));
        let id: &str = ids[i].as_str();
        let label: String = to_lower(id);
        if has_substring(label.as_str(), small.as_str()) {
            let name: String = owned(id);
            let ghost before = kept@;
            kept.push(name);
            assert(views(kept@) =~= views(before).push(name@));
        }
        i = i + 1;
    }
    assert(all.take(all.len() as int) =~= all);
    assert(views(kept@).len() == kept@.len());
    if kept.len() == 0 {
        format_supported_models(cat, ids)
    } else {
        format_supported_models(cat, &kept)
    }
}

// ── Resolution ──

/// What is said where `arg` could be several models.
pub open spec fn ambiguous_text(cat: CatalogView, arg: Seq<char>) -> Seq<char> {
    "`"@ + arg + "` is ambiguous. Pick one or use a short alias ("@ + join(
        quoted_aliases(cat),
        ", "@,
    ) + "):\n\n"@ + listing_for(cat, arg)
}

/// What is said where `arg` is no model.
pub open spec fn unknown_text(cat: CatalogView, arg: Seq<char>) -> Seq<char> {
    "Unknown model: `"@ + arg + "`. Supported models:\n\n"@ + supported_text(cat, cat.listed)
}

/// The model that `arg` stands for: by its short name, by its identifier with or without a date,
/// by an end that no other has, by a part that no other has.
pub open spec fn resolved_base(cat: CatalogView, arg: Seq<char>) -> Result<Seq<char>, Seq<char>> {
    if let Some(id) = alias_of(cat, arg) {
        Ok(id)
    } else if is_dated(cat, arg) || is_known(cat, arg) {
        Ok(arg)
    } else if candidate_ids(cat, arg, Within::Suffix).len() == 1 {
        Ok(candidate_ids(cat, arg, Within::Suffix)[0])
    } else if candidate_ids(cat, arg, Within::Anywhere).len() == 1 {
        Ok(candidate_ids(cat, arg, Within::Anywhere)[0])
    } else if candidate_ids(cat, arg, Within::Anywhere).len() > 1 {
        Err(ambiguous_text(cat, arg))
    } else {
        Err(unknown_text(cat, arg))
    }
}

proof fn lemma_base_is_known(cat: CatalogView, arg: Seq<char>)
    requires
        cat.is_sound(),
    ensures
        resolved_base(cat, arg) matches Ok(id) ==> cat.names(id),
{
    if let Ok(id) = resolved_base(cat, arg) {
        if alias_of(cat, arg) is Some {
            lemma_alias_among(cat.aliases, arg, cat.aliases.len(), cat.aliases.len());
        } else if is_dated(cat, arg) {
            let k = choose|k: int|
                0 <= k < cat.models.len() && is_dated_form(arg, (#[trigger] cat.models[k]).id);
            assert(arg.subrange(0, cat.models[k].id.len() as int) =~= arg.take(
                cat.models[k].id.len() as int,
            ));
            assert(occurs_at(id, cat.models[k].id, 0));
            lemma_first_named(cat.models, id, k);
        } else {
            lemma_candidates_are_known(cat, arg, Within::Suffix, cat.models.len());
            lemma_candidates_are_known(cat, arg, Within::Anywhere, cat.models.len());
            assert(is_known(cat, id));
            let k = choose|k: int|
                0 <= k < cat.models.len() && id == (#[trigger] cat.models[k]).id;
            assert(id.subrange(0, id.len() as int) =~= id);
            assert(occurs_at(id, cat.models[k].id, 0));
            lemma_first_named(cat.models, id, k);
        }
    }
}

/// The model that `arg`, in small letters and without a tag, stands for.
pub fn resolve_base(cat: &Catalog, arg: &str) -> (r: Result<String, String>)
    ensures
        match r {
            Ok(id) => resolved_base(cat@, arg@) == Ok::<Seq<char>, Seq<char>>(id@),
            Err(e) => resolved_base(cat@, arg@) == Err::<Seq<char>, Seq<char>>(e@),
        },
{
    if let Some(target) = alias_target(cat, arg) {
        return Ok(owned(target));
    }
    if is_dated_model_id(cat, arg) {
        return Ok(owned(arg));
    }
    if is_selectable_known_id(cat, arg) {
        return Ok(owned(arg));
    }
    let ends: Vec<String> = candidates(cat, arg, Within::Suffix);
    assert(views(ends@).len() == ends@.len());
    if ends.len() == 1 {
        assert(views(ends@)[0] == ends@[0]@);
        return Ok(owned(ends[0].as_str()));
    }
    let found: Vec<String> = candidates(cat, arg, Within::Anywhere);
    assert(views(found@).len() == found@.len());
    if found.len() == 1 {
        assert(views(found@)[0] == found@[0]@);
        return Ok(owned(found[0].as_str()));
    }
    let mut out: String = String::new();
    if found.len() > 1 {
        let names: String = alias_list(cat);
        let list: String = listed_models_matching(cat, arg);
        out.append("`");
        out.append(arg);
        out.append("` is ambiguous. Pick one or use a short alias (");
        out.append(names.as_str());
        out.append("):\n\n");
        out.append(list.as_str());
        assert(out@ =~= ambiguous_text(cat@, arg@));
    } else {
        let list: String = format_supported_models(cat, cat.listed());
        out.append("Unknown model: `");
        out.append(arg);
        out.append("`. Supported models:\n\n");
        out.append(list.as_str());
        assert(out@ =~= unknown_text(cat@, arg@));
    }
    Err(out)
}

/// What is said where a tag stands alone: a short name and an identifier are given as examples.
pub open spec fn bare_tag_text(cat: CatalogView) -> Seq<char> {
    "`[1m]` is a tag, not a model. Try `/model "@ + cat.aliases[0].0 + "[1m]` or `/model "@
        + cat.aliases[0].1 + "[1m]`."@
}

/// What is said where a model lacks the large context window.
pub open spec fn no_1m_text(cat: CatalogView, id: Seq<char>) -> Seq<char> {
    cat.marketing_name(id) + ": 1M context not supported. Drop the `[1m]` tag."@
}

/// The model that `arg`, in small letters, stands for, tagged where `arg` is.
pub open spec fn resolved_small(cat: CatalogView, arg: Seq<char>) -> Result<Seq<char>, Seq<char>> {
    let tagged = ends_with(arg, TAG_1M@);
    let base = if tagged {
        arg.take(arg.len() - TAG_1M@.len())
    } else {
        arg
    };
    if base.len() == 0 {
        Err(bare_tag_text(cat))
    } else {
        match resolved_base(cat, base) {
            Err(e) => Err(e),
            Ok(id) => if !tagged {
                Ok(id)
            } else if !cat.capabilities_of(id).context_1m {
                Err(no_1m_text(cat, id))
            } else {
                Ok(id + TAG_1M@)
            },
        }
    }
}

/// The model that `arg` stands for, letters of either case being the same.
pub open spec fn resolved_model(cat: CatalogView, arg: Seq<char>) -> Result<Seq<char>, Seq<char>> {
    resolved_small(cat, lower(arg))
}

/// The model that `arg` stands for, letters of either case being the same.
pub fn resolve_model_arg(cat: &Catalog, arg: &str) -> (r: Result<ResolvedModelId, String>)
    ensures
        match r {
            Ok(id) => resolved_model(cat@, arg@) == Ok::<Seq<char>, Seq<char>>(id@),
            Err(e) => resolved_model(cat@, arg@) == Err::<Seq<char>, Seq<char>>(e@),
        },
{
    let small: String = to_lower(arg);
    let text: &str = small.as_str();
    let tagged: bool = has_suffix(text, TAG_1M);
    let base: &str = if tagged {
        let n: usize = text.unicode_len() - TAG_1M.unicode_len();
        assert(text@.subrange(0, n as int) =~= text@.take(n as int));
        text.substring_char(0, n)
    } else {
        text
    };
    let aliases: &Vec<(String, String)> = cat.aliases();
    if base.unicode_len() == 0 {
        assert(cat@.aliases.len() == aliases@.len());
        assert(cat@.aliases[0] == (aliases@[0].0@, aliases@[0].1@));
        let mut out: String = "`[1m]` is a tag, not a model. Try `/model ".to_owned();
        out.append(aliases[0].0.as_str());
        out.append("[1m]` or `/model ");
        out.append(aliases[0].1.as_str());
        out.append("[1m]`.");
        return Err(out);
    }
    proof {
        lemma_base_is_known(cat@, base@);
    }
    match resolve_base(cat, base) {
        Err(e) => Err(e),
        Ok(id) => {
            if !tagged {
                return Ok(ResolvedModelId::new(id));
            }
            match cat.lookup(id.as_str()) {
                Some(info) => {
                    if !info.capabilities.context_1m {
                        let mut out: String = owned(info.display_name.as_str());
                        out.append(": 1M context not supported. Drop the `[1m]` tag.");
                        return Err(out);
                    }
                    let mut full: String = id;
                    full.append(TAG_1M);
                    Ok(ResolvedModelId::new(full))
                },
                None => {
                    assert(false);
                    Ok(ResolvedModelId::new(id))
                },
            }
        },
    }
}

// ── Laws ──

/// Whatever is resolved names a known model, and a tag is kept only where the model has the
/// large context window.
pub proof fn law_resolved_models_are_known(cat: CatalogView, arg: Seq<char>)
    requires
        cat.is_sound(),
    ensures
        resolved_model(cat, arg) matches Ok(id) ==> (exists|base: Seq<char>|
            #![trigger cat.names(base)]
            cat.names(base) && (id == base || (id == base + TAG_1M@ && cat.capabilities_of(
                base,
            ).context_1m))),
{
    let small = lower(arg);
    let base = if ends_with(small, TAG_1M@) {
        small.take(small.len() - TAG_1M@.len())
    } else {
        small
    };
    lemma_base_is_known(cat, base);
    if resolved_model(cat, arg) is Ok {
        assert(cat.names(resolved_base(cat, base)->Ok_0));
    }
}

/// Capitals make no difference.
pub proof fn law_resolution_ignores_case(cat: CatalogView, a: Seq<char>, b: Seq<char>)
    requires
        lower(a) == lower(b),
    ensures
        resolved_model(cat, a) == resolved_model(cat, b),
{
}

/// Whether the text has no capitals, no tag, and something in it.
pub open spec fn is_plain(s: Seq<char>) -> bool {
    &&& s.len() > 0
    &&& lower(s) == s
    &&& !ends_with(s, TAG_1M@)
}

/// A known identifier stands for itself, unless it is a short name of another or is not plain.
pub proof fn law_known_ids_resolve_to_themselves(cat: CatalogView, id: Seq<char>)
    requires
        is_known(cat, id),
        is_plain(id),
        alias_of(cat, id) is None,
    ensures
        resolved_model(cat, id) == Ok::<Seq<char>, Seq<char>>(id),
{
}

/// A known identifier with a date stands for itself, unless it is a short name or is not plain.
pub proof fn law_dated_ids_resolve_to_themselves(cat: CatalogView, arg: Seq<char>)
    requires
        is_dated(cat, arg),
        lower(arg) == arg,
        alias_of(cat, arg) is None,
    ensures
        resolved_model(cat, arg) == Ok::<Seq<char>, Seq<char>>(arg),
{
    lemma_dated_is_untagged(cat, arg);
}

/// A known identifier with a tag stands for itself where the model has the large context window,
/// and is refused where it lacks it.
pub proof fn law_tagged_ids_keep_their_tag(cat: CatalogView, id: Seq<char>)
    requires
        is_known(cat, id),
        is_plain(id),
        alias_of(cat, id) is None,
    ensures
        resolved_model(cat, id + TAG_1M@) == if cat.capabilities_of(id).context_1m {
            Ok::<Seq<char>, Seq<char>>(id + TAG_1M@)
        } else {
            Err::<Seq<char>, Seq<char>>(no_1m_text(cat, id))
        },
{
    let arg = id + TAG_1M@;
    reveal_strlit("[1m]");
    assert(lower(TAG_1M@) =~= TAG_1M@);
    assert(lower(arg) =~= lower(id) + lower(TAG_1M@));
    assert(arg.skip(arg.len() - TAG_1M@.len()) =~= TAG_1M@);
    assert(arg.take(arg.len() - TAG_1M@.len()) =~= id);
}

/// Whether the known identifiers are plain, and each short name stands for one of them and is
/// none itself, with or without a date.
pub open spec fn is_well_named(cat: CatalogView) -> bool {
    &&& forall|k: int| 0 <= k < cat.models.len() ==> is_plain((#[trigger] cat.models[k]).id)
    &&& forall|k: int|
        0 <= k < cat.aliases.len() ==> {
            &&& is_known(cat, (#[trigger] cat.aliases[k]).1)
            &&& !is_known(cat, cat.aliases[k].0)
            &&& !is_dated(cat, cat.aliases[k].0)
        }
}

/// What an argument in small letters stands for is a known identifier, perhaps dated, that is
/// plain and no short name.
proof fn lemma_base_is_plain(cat: CatalogView, arg: Seq<char>)
    requires
        is_well_named(cat),
        lower(arg) == arg,
    ensures
        resolved_base(cat, arg) matches Ok(id) ==> is_plain(id) && resolved_base(cat, id) == Ok::<
            Seq<char>,
            Seq<char>,
        >(id),
{
    if let Ok(id) = resolved_base(cat, arg) {
        lemma_alias_among(cat.aliases, arg, cat.aliases.len(), cat.aliases.len());
        lemma_alias_among(cat.aliases, id, cat.aliases.len(), cat.aliases.len());
        if alias_of(cat, arg) is None && is_dated(cat, arg) {
            lemma_dated_is_untagged(cat, arg);
        } else {
            lemma_candidates_are_known(cat, arg, Within::Suffix, cat.models.len());
            lemma_candidates_are_known(cat, arg, Within::Anywhere, cat.models.len());
            assert(is_known(cat, id));
        }
    }
}

proof fn lemma_dated_is_untagged(cat: CatalogView, arg: Seq<char>)
    requires
        is_dated(cat, arg),
    ensures
        arg.len() > 0,
        !ends_with(arg, TAG_1M@),
{
    reveal_strlit("[1m]");
    let k = choose|k: int|
        0 <= k < cat.models.len() && is_dated_form(arg, (#[trigger] cat.models[k]).id);
    assert('0' <= arg[arg.len() - 1] <= '9');
    if ends_with(arg, TAG_1M@) {
        assert(arg.skip(arg.len() - 4)[3] == arg.last());
        assert(TAG_1M@[3] == ']');
    }
}

/// What was resolved resolves to itself, dated and tagged identifiers too, and what was typed in
/// capitals resolves to the same. The identifiers of the catalog are plain and no short names.
pub proof fn law_resolved_ids_resolve_to_themselves(cat: CatalogView, arg: Seq<char>)
    requires
        is_well_named(cat),
    ensures
        resolved_model(cat, arg) matches Ok(id) ==> resolved_model(cat, id) == Ok::<
            Seq<char>,
            Seq<char>,
        >(id),
        resolved_model(cat, upper(arg)) == resolved_model(cat, arg),
{
    lemma_lower_upper(arg);
    let small = lower(arg);
    let tagged = ends_with(small, TAG_1M@);
    let base = if tagged {
        small.take(small.len() - TAG_1M@.len())
    } else {
        small
    };
    assert(lower(base) =~= base) by {
        assert(lower(small) == small);
        assert forall|i: int| 0 <= i < base.len() implies lower(base)[i] == base[i] by {
            assert(lower(small)[i] == small[i]);
        }
    }
    lemma_base_is_plain(cat, base);
    if let Ok(id) = resolved_model(cat, arg) {
        let id = resolved_base(cat, base)->Ok_0;
        if tagged {
            let full = id + TAG_1M@;
            reveal_strlit("[1m]");
            assert(lower(TAG_1M@) =~= TAG_1M@);
            assert(lower(full) =~= lower(id) + lower(TAG_1M@));
            assert(full.skip(full.len() - TAG_1M@.len()) =~= TAG_1M@);
            assert(full.take(full.len() - TAG_1M@.len()) =~= id);
        }
    }
}

/// A short name stands for its model, whatever else it is a part of.
pub proof fn law_short_names_come_first(cat: CatalogView, arg: Seq<char>)
    requires
        alias_of(cat, lower(arg)) is Some,
        lower(arg).len() > 0,
        !ends_with(lower(arg), TAG_1M@),
    ensures
        resolved_model(cat, arg) == Ok::<Seq<char>, Seq<char>>(alias_of(cat, lower(arg))->0),
{
}

proof fn lemma_first_of_its_name(aliases: Seq<(Seq<char>, Seq<char>)>, arg: Seq<char>, n: nat) -> (k: int)
    requires
        n <= aliases.len(),
    ensures
        alias_among(aliases, arg, n) is None ==> forall|j: int|
            0 <= j < n ==> (#[trigger] aliases[j]).0 != arg,
        alias_among(aliases, arg, n) matches Some(id) ==> 0 <= k < n && aliases[k] == (arg, id)
            && forall|j: int| 0 <= j < k ==> (#[trigger] aliases[j]).0 != arg,
    decreases n,
{
    if n == 0 {
        0
    } else {
        let k = lemma_first_of_its_name(aliases, arg, (n - 1) as nat);
        if alias_among(aliases, arg, (n - 1) as nat) is Some {
            k
        } else {
            n - 1
        }
    }
}

/// A short name stands for what the first short name that is the same stands for; what is no
/// short name stands for nothing.
pub proof fn law_short_name_is_the_first_of_its_name(cat: CatalogView, arg: Seq<char>) -> (k: int)
    ensures
        alias_of(cat, arg) is None ==> forall|j: int|
            0 <= j < cat.aliases.len() ==> (#[trigger] cat.aliases[j]).0 != arg,
        alias_of(cat, arg) matches Some(id) ==> {
            &&& 0 <= k < cat.aliases.len()
            &&& cat.aliases[k] == (arg, id)
            &&& forall|j: int| 0 <= j < k ==> (#[trigger] cat.aliases[j]).0 != arg
        },
{
    lemma_first_of_its_name(cat.aliases, arg, cat.aliases.len())
}

/// The dated form of an identifier is it, a hyphen and eight digits.
pub proof fn law_dated_form_adds_a_date(base: Seq<char>, digits: Seq<char>, arg: Seq<char>)
    ensures
        digits.len() == 8 && (forall|i: int| 0 <= i < 8 ==> '0' <= #[trigger] digits[i] <= '9')
            ==> is_dated_form(base + "-"@ + digits, base),
        is_dated_form(arg, base) ==> ({
            let date = arg.skip(base.len() as int + 1);
            &&& arg == base + "-"@ + date
            &&& date.len() == 8
            &&& forall|i: int| 0 <= i < 8 ==> '0' <= #[trigger] date[i] <= '9'
        }),
{
    reveal_strlit("-");
    let whole = base + "-"@ + digits;
    if digits.len() == 8 && (forall|i: int| 0 <= i < 8 ==> '0' <= #[trigger] digits[i] <= '9') {
        assert(whole.take(base.len() as int) =~= base);
        assert forall|i: int| base.len() < i < whole.len() implies '0' <= #[trigger] whole[i]
            <= '9' by {
            assert(whole[i] == digits[i - base.len() - 1]);
        }
    }
    if is_dated_form(arg, base) {
        let date = arg.skip(base.len() as int + 1);
        assert(arg =~= arg.take(base.len() as int) + "-"@ + date);
        assert forall|i: int| 0 <= i < 8 implies '0' <= #[trigger] date[i] <= '9' by {
            assert(date[i] == arg[base.len() + 1 + i]);
        }
    }
}

/// Whether model `k` is the only one whose identifier has `arg` in the place asked for.
pub open spec fn is_sole(cat: CatalogView, arg: Seq<char>, within: Within, k: int) -> bool {
    &&& 0 <= k < cat.models.len()
    &&& is_part(cat.models[k].id, arg, within)
    &&& forall|j: int|
        0 <= j < cat.models.len() && j != k ==> !is_part((#[trigger] cat.models[j]).id, arg, within)
}

proof fn lemma_parts_none(cat: CatalogView, arg: Seq<char>, within: Within, n: nat)
    requires
        n <= cat.models.len(),
        forall|j: int| 0 <= j < n ==> !is_part((#[trigger] cat.models[j]).id, arg, within),
    ensures
        parts_found(cat, arg, within, n).len() == 0,
    decreases n,
{
    if n > 0 {
        assert(!is_part(cat.models[n - 1].id, arg, within));
        lemma_parts_none(cat, arg, within, (n - 1) as nat);
    }
}

proof fn lemma_parts_sole(cat: CatalogView, arg: Seq<char>, within: Within, n: nat, k: int)
    requires
        k < n <= cat.models.len(),
        is_sole(cat, arg, within, k),
    ensures
        parts_found(cat, arg, within, n) == seq![cat.models[k].id],
    decreases n,
{
    if k == n - 1 {
        lemma_parts_none(cat, arg, within, (n - 1) as nat);
        assert(parts_found(cat, arg, within, n) =~= seq![cat.models[k].id]);
    } else {
        assert(!is_part(cat.models[n - 1].id, arg, within));
        lemma_parts_sole(cat, arg, within, (n - 1) as nat, k);
    }
}

proof fn lemma_parts_some(cat: CatalogView, arg: Seq<char>, within: Within, n: nat, k: int)
    requires
        0 <= k < n <= cat.models.len(),
        is_part(cat.models[k].id, arg, within),
    ensures
        parts_found(cat, arg, within, n).len() >= 1,
    decreases n,
{
    if k < n - 1 {
        lemma_parts_some(cat, arg, within, (n - 1) as nat, k);
    }
}

proof fn lemma_parts_two(cat: CatalogView, arg: Seq<char>, within: Within, n: nat, j: int, k: int)
    requires
        0 <= j < k < n <= cat.models.len(),
        is_part(cat.models[j].id, arg, within),
        is_part(cat.models[k].id, arg, within),
    ensures
        parts_found(cat, arg, within, n).len() >= 2,
    decreases n,
{
    if k < n - 1 {
        lemma_parts_two(cat, arg, within, (n - 1) as nat, j, k);
    } else {
        lemma_parts_some(cat, arg, within, (n - 1) as nat, j);
    }
}

proof fn lemma_one_part(cat: CatalogView, arg: Seq<char>, within: Within) -> (k: int)
    ensures
        candidate_ids(cat, arg, within).len() == 1 ==> is_sole(cat, arg, within, k),
{
    if candidate_ids(cat, arg, within).len() == 1 {
        let n = cat.models.len();
        if forall|j: int| 0 <= j < n ==> !is_part((#[trigger] cat.models[j]).id, arg, within) {
            lemma_parts_none(cat, arg, within, n);
        }
        let k = choose|k: int| 0 <= k < n && is_part((#[trigger] cat.models[k]).id, arg, within);
        assert forall|j: int| 0 <= j < n && j != k implies !is_part(
            (#[trigger] cat.models[j]).id,
            arg,
            within,
        ) by {
            if is_part(cat.models[j].id, arg, within) {
                if j < k {
                    lemma_parts_two(cat, arg, within, n, j, k);
                } else {
                    lemma_parts_two(cat, arg, within, n, k, j);
                }
            }
        }
        k
    } else {
        0
    }
}

/// What is neither a short name nor an identifier stands for the one model whose identifier ends
/// with it, else for the one whose identifier holds it. Where several hold it, it is refused as
/// ambiguous, and where none does, as unknown.
pub proof fn law_part_stands_for_the_one_model_that_has_it(
    cat: CatalogView,
    arg: Seq<char>,
    j: int,
    k: int,
)
    requires
        alias_of(cat, arg) is None,
        !is_dated(cat, arg),
        !is_known(cat, arg),
    ensures
        is_sole(cat, arg, Within::Suffix, k) ==> resolved_base(cat, arg) == Ok::<
            Seq<char>,
            Seq<char>,
        >(cat.models[k].id),
        is_sole(cat, arg, Within::Anywhere, k) ==> resolved_base(cat, arg) == Ok::<
            Seq<char>,
            Seq<char>,
        >(cat.models[k].id),
        0 <= j < k < cat.models.len() && contains(cat.models[j].id, arg) && contains(
            cat.models[k].id,
            arg,
        ) && !(exists|i: int| #[trigger] is_sole(cat, arg, Within::Suffix, i)) ==> resolved_base(
            cat,
            arg,
        ) == Err::<Seq<char>, Seq<char>>(ambiguous_text(cat, arg)),
        (forall|i: int|
            0 <= i < cat.models.len() ==> !contains((#[trigger] cat.models[i]).id, arg))
            ==> resolved_base(cat, arg) == Err::<Seq<char>, Seq<char>>(unknown_text(cat, arg)),
{
    let n = cat.models.len();
    assert forall|i: int|
        0 <= i < n && is_part((#[trigger] cat.models[i]).id, arg, Within::Suffix) implies is_part(
        cat.models[i].id,
        arg,
        Within::Anywhere,
    ) by {
        let id = cat.models[i].id;
        assert(id.subrange(id.len() - arg.len(), id.len() as int) =~= id.skip(
            id.len() - arg.len(),
        ));
        assert(occurs_at(id, arg, id.len() - arg.len()));
    }
    let end = lemma_one_part(cat, arg, Within::Suffix);
    if is_sole(cat, arg, Within::Suffix, k) {
        lemma_parts_sole(cat, arg, Within::Suffix, n, k);
    }
    if is_sole(cat, arg, Within::Anywhere, k) {
        lemma_parts_sole(cat, arg, Within::Anywhere, n, k);
        if candidate_ids(cat, arg, Within::Suffix).len() == 1 {
            assert(is_part(cat.models[end].id, arg, Within::Anywhere));
            lemma_parts_sole(cat, arg, Within::Suffix, n, end);
            assert(end == k);
        }
    }
    if 0 <= j < k < n && contains(cat.models[j].id, arg) && contains(cat.models[k].id, arg) && !(
    exists|i: int| #[trigger] is_sole(cat, arg, Within::Suffix, i)) {
        lemma_parts_two(cat, arg, Within::Anywhere, n, j, k);
        assert(!is_sole(cat, arg, Within::Suffix, end));
    }
    if forall|i: int| 0 <= i < n ==> !contains((#[trigger] cat.models[i]).id, arg) {
        lemma_parts_none(cat, arg, Within::Anywhere, n);
        assert forall|i: int| 0 <= i < n implies !is_part(
            (#[trigger] cat.models[i]).id,
            arg,
            Within::Suffix,
        ) by {
            if is_part(cat.models[i].id, arg, Within::Suffix) {
                assert(is_part(cat.models[i].id, arg, Within::Anywhere));
            }
        }
        lemma_parts_none(cat, arg, Within::Suffix, n);
    }
}

/// A place at the end is what the identifier ends with, any other what it holds.
pub proof fn law_parts_are_at_the_end_or_anywhere(id: Seq<char>, arg: Seq<char>)
    ensures
        is_part(id, arg, Within::Suffix) <==> ends_with(id, arg),
        is_part(id, arg, Within::Anywhere) <==> contains(id, arg),
{
}

/// The tag is taken off before a model is looked for and put back behind what was found, where the
/// model has the large context; it is refused where the model has not, and where it stands alone.
pub proof fn law_tag_is_put_back(cat: CatalogView, arg: Seq<char>)
    requires
        arg.len() > 0,
    ensures
        resolved_model(cat, arg + "[1m]"@) == match resolved_base(cat, lower(arg)) {
            Err(e) => Err::<Seq<char>, Seq<char>>(e),
            Ok(id) => if cat.capabilities_of(id).context_1m {
                Ok(id + "[1m]"@)
            } else {
                Err(cat.marketing_name(id) + ": 1M context not supported. Drop the `[1m]` tag."@)
            },
        },
        !ends_with(lower(arg), "[1m]"@) ==> resolved_model(cat, arg) == resolved_base(
            cat,
            lower(arg),
        ),
        resolved_model(cat, "[1m]"@) == Err::<Seq<char>, Seq<char>>(bare_tag_text(cat)),
{
    reveal_strlit("[1m]");
    let tag = "[1m]"@;
    let small = lower(arg);
    assert(lower(tag) =~= tag);
    assert(lower(arg + tag) =~= small + tag);
    assert((small + tag).skip(small.len() as int) =~= tag);
    assert((small + tag).take(small.len() as int) =~= small);
    assert(tag.skip(0) =~= tag);
    assert(tag.take(0) =~= Seq::empty());
}

/// The list of models has a line for each identifier, in order, with its name behind it; the last
/// line is not ended.
pub proof fn law_models_are_listed_line_by_line(
    cat: CatalogView,
    ids: Seq<Seq<char>>,
    id: Seq<char>,
)
    ensures
        bullets(cat, Seq::empty()).len() == 0,
        bullets(cat, ids.push(id)) == bullets(cat, ids) + ("- `"@ + id + "` — "@ + cat.shown_name(id)
            + "\n"@),
        cat.shown_name(id).len() > 0 && cat.shown_name(id).last() != '\n' ==> supported_text(
            cat,
            ids.push(id),
        ) + "\n"@ == bullets(cat, ids.push(id)),
{
    reveal_strlit("\n");
    assert(ids.push(id).drop_last() =~= ids);
    let all = bullets(cat, ids.push(id));
    assert(all =~= bullets(cat, ids) + ("- `"@ + id + "` — "@ + cat.shown_name(id) + "\n"@));
    if cat.shown_name(id).len() > 0 && cat.shown_name(id).last() != '\n' {
        let t = all.drop_last();
        assert(all.last() == '\n');
        assert(t =~= bullets(cat, ids) + "- `"@ + id + "` — "@ + cat.shown_name(id));
        assert(t.last() == cat.shown_name(id).last());
        assert(strip_end_of(t, '\n') == t);
        assert(supported_text(cat, ids.push(id)) == t);
        assert(t + "\n"@ =~= all);
    }
}

/// What is listed beside an argument are the identifiers on offer that hold it in any case, in
/// their order, or all of them where none does.
pub proof fn law_listing_shows_what_holds_the_argument(
    ids: Seq<Seq<char>>,
    id: Seq<char>,
    arg: Seq<char>,
    cat: CatalogView,
)
    ensures
        holding_ids(Seq::empty(), arg).len() == 0,
        holding_ids(ids.push(id), arg) == if contains(lower(id), lower(arg)) {
            holding_ids(ids, arg).push(id)
        } else {
            holding_ids(ids, arg)
        },
        holding_ids(cat.listed, arg).len() == 0 ==> listing_for(cat, arg) == supported_text(
            cat,
            cat.listed,
        ),
        holding_ids(cat.listed, arg).len() > 0 ==> listing_for(cat, arg) == supported_text(
            cat,
            holding_ids(cat.listed, arg),
        ),
{
    assert(ids.push(id).drop_last() =~= ids);
}

/// What completes an argument are values that hold what was typed, each with its own description.
pub proof fn law_completions_hold_what_was_typed(
    values: Seq<Seq<char>>,
    descriptions: Seq<Seq<char>>,
    typed: Seq<char>,
    k: int,
)
    requires
        0 <= k < completed(values, descriptions, typed).len(),
    ensures
        exists|i: int|
            0 <= i < values.len() && (typed.len() == 0 || contains(lower(values[i]), lower(typed)))
                && completed(values, descriptions, typed)[k] == (
                #[trigger] values[i],
                descriptions[i],
            ),
{
    law_labels_that_begin_come_first(values, typed);
    let i = ranked_places(values, typed)[k];
    assert(ranked_places(values, typed).contains(i));
    if typed.len() == 0 {
        assert(i == k);
    }
    assert(completed(values, descriptions, typed)[k] == (values[i], descriptions[i]));
}

/// What is told of an argument that means no one model: that it means several, with the short names
/// and the models that hold it; or that it is not known, with all that are offered; or that the tag
/// is no model, with the first short name and what it stands for.
pub proof fn law_refusals_are_told(cat: CatalogView, arg: Seq<char>)
    ensures
        ambiguous_text(cat, arg) == "`"@ + arg
            + "` is ambiguous. Pick one or use a short alias ("@ + join(
            cat.aliases.map_values(|a: (Seq<char>, Seq<char>)| "`"@ + a.0 + "`"@),
            ", "@,
        ) + "):\n\n"@ + listing_for(cat, arg),
        unknown_text(cat, arg) == "Unknown model: `"@ + arg + "`. Supported models:\n\n"@
            + supported_text(cat, cat.listed),
        cat.aliases.len() > 0 ==> bare_tag_text(cat)
            == "`[1m]` is a tag, not a model. Try `/model "@ + cat.aliases[0].0
            + "[1m]` or `/model "@ + cat.aliases[0].1 + "[1m]`."@,
{
    assert(quoted_aliases(cat) =~= cat.aliases.map_values(
        |a: (Seq<char>, Seq<char>)| "`"@ + a.0 + "`"@,
    ));
}

} // verus!
