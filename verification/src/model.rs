//! The models that are known, what each can do, and how each is called.

use vstd::prelude::*;
use vstd::string::*;

use crate::config::Effort;
use crate::text::{
    contains, ends_with, has_substring, has_suffix, law_ends_stand_behind_the_rest, owned, views,
};
use crate::tui::kv_overview::pair_views;

verus! {

/// What marks a model identifier as one with the large context window.
pub const TAG_1M: &'static str = "[1m]";

/// What a model can do.
#[derive(Debug, Clone, Copy, PartialEq, Eq, Structural)]
pub struct Capabilities {
    /// Takes an effort level, at least up to the third.
    pub effort: bool,
    pub effort_xhigh: bool,
    pub effort_max: bool,
    /// Has the large context window.
    pub context_1m: bool,
}

impl Capabilities {
    /// Whether the model takes that level.
    pub open spec fn takes(self, level: Effort) -> bool {
        self.effort && match level {
            Effort::Xhigh => self.effort_xhigh,
            Effort::Max => self.effort_max,
            _ => true,
        }
    }

    /// Whether the model takes that level.
    pub fn accepts_effort(self, level: Effort) -> (r: bool)
        ensures
            r == self.takes(level),
    {
        self.effort && match level {
            Effort::Xhigh => self.effort_xhigh,
            Effort::Max => self.effort_max,
            _ => true,
        }
    }

    /// The level that the model runs at where `pick` was asked for: `pick` itself, or the next
    /// one below it that the model takes; the model's own where nothing was asked for.
    pub open spec fn resolved(self, pick: Option<Effort>) -> Option<Effort> {
        if !self.effort {
            None
        } else {
            match pick {
                None => Some(
                    if self.effort_xhigh {
                        Effort::Xhigh
                    } else {
                        Effort::High
                    },
                ),
                Some(Effort::Max) if !self.effort_max => Some(
                    if self.effort_xhigh {
                        Effort::Xhigh
                    } else {
                        Effort::High
                    },
                ),
                Some(Effort::Xhigh) if !self.effort_xhigh => Some(Effort::High),
                Some(e) => Some(e),
            }
        }
    }

    /// The level that the model runs at where `pick` was asked for.
    pub fn resolve_effort(self, pick: Option<Effort>) -> (r: Option<Effort>)
        ensures
            r == self.resolved(pick),
            r is Some <==> self.effort,
            r matches Some(e) ==> self.takes(e),
    {
        if !self.effort {
            return None;
        }
        match pick {
            None => if self.effort_xhigh {
                Some(Effort::Xhigh)
            } else {
                Some(Effort::High)
            },
            Some(Effort::Max) => if self.effort_max {
                Some(Effort::Max)
            } else if self.effort_xhigh {
                Some(Effort::Xhigh)
            } else {
                Some(Effort::High)
            },
            Some(Effort::Xhigh) => if self.effort_xhigh {
                Some(Effort::Xhigh)
            } else {
                Some(Effort::High)
            },
            Some(e) => Some(e),
        }
    }
}

impl Capabilities {
    /// The first `n` levels without those that the model does not take.
    pub open spec fn levels_below(self, n: nat) -> Seq<Effort>
        decreases n,
    {
        if n == 0 {
            seq![]
        } else if self.takes(Effort::ladder()[n - 1]) {
            self.levels_below((n - 1) as nat).push(Effort::ladder()[n - 1])
        } else {
            self.levels_below((n - 1) as nat)
        }
    }

    /// The levels that the model takes, from the least to the most.
    pub open spec fn levels(self) -> Seq<Effort> {
        self.levels_below(Effort::ladder().len())
    }

    /// The levels that the model takes, from the least to the most.
    pub fn supported(self) -> (r: Vec<Effort>)
        ensures
            r@ == self.levels(),
            r@.len() <= 5,
            forall|e: Effort| self.takes(e) <==> #[trigger] r@.contains(e),
    {
        let all: Vec<Effort> = Effort::all();
        let mut out: Vec<Effort> = Vec::new();
        let mut i: usize = 0;
        while i < all.len()
            invariant
                i <= all.len(),
                all@ == Effort::ladder(),
                out@ == self.levels_below(i as nat),
                out@.len() <= i,
            decreases all.len() - i,
        {
            if self.accepts_effort(all[i]) {
                out.push(all[i]);
            }
            i = i + 1;
        }
        proof {
            self.lemma_levels(Effort::ladder().len());
            assert forall|e: Effort| self.takes(e) <==> #[trigger] out@.contains(e) by {
                assert(Effort::ladder()[e.rank()] == e);
            }
        }
        out
    }

    /// The levels are those that the model takes, in order.
    pub proof fn lemma_levels(self, n: nat)
        requires
            n <= Effort::ladder().len(),
        ensures
            forall|i: int|
                0 <= i < n && self.takes(Effort::ladder()[i]) ==> self.levels_below(n).contains(
                    #[trigger] Effort::ladder()[i],
                ),
            forall|e: Effort| #[trigger]
                self.levels_below(n).contains(e) ==> self.takes(e) && e.rank() < n,
        decreases n,
    {
        if n > 0 {
            self.lemma_levels((n - 1) as nat);
            let front = self.levels_below((n - 1) as nat);
            let all = self.levels_below(n);
            let last = Effort::ladder()[n - 1];
            assert forall|i: int| 0 <= i < n && self.takes(Effort::ladder()[i]) implies all.contains(
                #[trigger] Effort::ladder()[i],
            ) by {
                if i < n - 1 {
                    let k = choose|k: int| 0 <= k < front.len() && front[k] == Effort::ladder()[i];
                    assert(all[k] == front[k]);
                } else {
                    assert(all[all.len() - 1] == last);
                }
            }
            assert forall|e: Effort| #[trigger] all.contains(e) implies self.takes(e) && e.rank()
                < n by {
                let k = choose|k: int| 0 <= k < all.len() && all[k] == e;
                if k < front.len() {
                    assert(front[k] == e);
                    assert(front.contains(e));
                }
            }
        }
    }
}

/// A known model.
#[derive(Debug)]
pub struct ModelInfo {
    /// What its identifiers hold.
    pub id_substr: String,
    pub display_name: String,
    pub capabilities: Capabilities,
}

/// A known model by its characters.
#[verifier::ext_equal]
pub ghost struct InfoView {
    pub id: Seq<char>,
    pub name: Seq<char>,
    pub capabilities: Capabilities,
}

impl View for ModelInfo {
    type V = InfoView;

    open spec fn view(&self) -> InfoView {
        InfoView {
            id: self.id_substr@,
            name: self.display_name@,
            capabilities: self.capabilities,
        }
    }
}

/// What each model is.
pub open spec fn info_views(v: Seq<ModelInfo>) -> Seq<InfoView> {
    v.map_values(|m: ModelInfo| m@)
}

/// Nothing that a model could do.
pub open spec fn no_capabilities() -> Capabilities {
    Capabilities { effort: false, effort_xhigh: false, effort_max: false, context_1m: false }
}

/// The first of the models that the identifier names.
pub open spec fn first_named(table: Seq<InfoView>, id: Seq<char>) -> Option<InfoView>
    decreases table.len(),
{
    if table.len() == 0 {
        None
    } else if contains(id, table[0].id) {
        Some(table[0])
    } else {
        first_named(table.drop_first(), id)
    }
}

/// An identifier that holds that of a model names one.
pub proof fn lemma_first_named(table: Seq<InfoView>, id: Seq<char>, k: int)
    requires
        0 <= k < table.len(),
        contains(id, table[k].id),
    ensures
        first_named(table, id) is Some,
    decreases table.len(),
{
    if !contains(id, table[0].id) {
        assert(table.drop_first()[k - 1] == table[k]);
        lemma_first_named(table.drop_first(), id, k - 1);
    }
}

// ── Roster ──

/// The models that are offered, in the order in which they are shown, each by what its identifier
/// has behind the name of its family.
pub open spec fn roster() -> Seq<Seq<char>> {
    seq!["opus-4-7"@, "opus-4-7[1m]"@, "sonnet-4-6"@, "sonnet-4-6[1m]"@, "haiku-4-5"@]
}

/// Short names, each with the model that it stands for.
pub open spec fn short_names() -> Seq<(Seq<char>, Seq<char>)> {
    seq![("opus"@, "opus-4-7"@), ("sonnet"@, "sonnet-4-6"@), ("haiku"@, "haiku-4-5"@)]
}

/// The identifier of a model of a family.
pub open spec fn id_in(family: Seq<char>, model: Seq<char>) -> Seq<char> {
    family + "-"@ + model
}

/// The identifiers of the models of a family that are offered.
pub open spec fn listed_of(family: Seq<char>) -> Seq<Seq<char>> {
    roster().map_values(|model: Seq<char>| id_in(family, model))
}

/// The short names, each with the identifier in the family that it stands for.
pub open spec fn aliases_of(family: Seq<char>) -> Seq<(Seq<char>, Seq<char>)> {
    short_names().map_values(|a: (Seq<char>, Seq<char>)| (a.0, id_in(family, a.1)))
}

/// The catalog of a family of which `models` are known.
pub open spec fn family_catalog(family: Seq<char>, models: Seq<InfoView>) -> CatalogView {
    CatalogView { models, listed: listed_of(family), aliases: aliases_of(family) }
}

/// The identifier of a model of a family.
pub(crate) fn model_in(family: &str, model: &str) -> (r: String)
    ensures
        r@ == id_in(family@, model@),
{
    let mut out: String = owned(family);
    out.append("-");
    out.append(model);
    out
}

/// The identifiers of the models of a family that are offered, in the order in which they are
/// shown.
pub fn listed_models(family: &str) -> (r: Vec<String>)
    ensures
        views(r@) == listed_of(family@),
{
    let out: Vec<String> = vec![
        model_in(family, "opus-4-7"),
        model_in(family, "opus-4-7[1m]"),
        model_in(family, "sonnet-4-6"),
        model_in(family, "sonnet-4-6[1m]"),
        model_in(family, "haiku-4-5"),
    ];
    assert(views(out@) =~= listed_of(family@));
    out
}

/// The short names, each with the identifier in the family that it stands for.
pub fn model_aliases(family: &str) -> (r: Vec<(String, String)>)
    ensures
        pair_views(r@) == aliases_of(family@),
{
    let out: Vec<(String, String)> = vec![
        (owned("opus"), model_in(family, "opus-4-7")),
        (owned("sonnet"), model_in(family, "sonnet-4-6")),
        (owned("haiku"), model_in(family, "haiku-4-5")),
    ];
    assert(pair_views(out@) =~= aliases_of(family@));
    out
}

// ── Catalog ──

/// The models that are known, the identifiers that are offered, and short names for some.
#[derive(Debug)]
pub struct Catalog {
    models: Vec<ModelInfo>,
    listed: Vec<String>,
    aliases: Vec<(String, String)>,
}

/// A catalog by its characters.
#[verifier::ext_equal]
pub ghost struct CatalogView {
    pub models: Seq<InfoView>,
    /// The identifiers that are offered, in the order in which they are shown.
    pub listed: Seq<Seq<char>>,
    /// Short names, each with the identifier that it stands for.
    pub aliases: Seq<(Seq<char>, Seq<char>)>,
}

impl CatalogView {
    /// There is a short name, and each stands for an identifier of a known model.
    pub open spec fn is_sound(self) -> bool {
        &&& self.aliases.len() > 0
        &&& forall|i: int|
            0 <= i < self.aliases.len() ==> self.names((#[trigger] self.aliases[i]).1)
    }

    /// Whether the identifier names a known model.
    pub open spec fn names(self, id: Seq<char>) -> bool {
        self.model_of(id) is Some
    }

    /// The model that the identifier names.
    pub open spec fn model_of(self, id: Seq<char>) -> Option<InfoView> {
        first_named(self.models, id)
    }

    /// What the model that the identifier names can do.
    pub open spec fn capabilities_of(self, id: Seq<char>) -> Capabilities {
        match self.model_of(id) {
            Some(m) => m.capabilities,
            None => no_capabilities(),
        }
    }

    /// The name of the model, or the identifier where it names none.
    pub open spec fn marketing_name(self, id: Seq<char>) -> Seq<char> {
        match self.model_of(id) {
            Some(m) => m.name,
            None => id,
        }
    }

    /// The name of the model, with its context window where the identifier is tagged; the
    /// identifier where it names none.
    pub open spec fn shown_name(self, id: Seq<char>) -> Seq<char> {
        match self.model_of(id) {
            Some(m) => if ends_with(id, TAG_1M@) {
                m.name + " (1M context)"@
            } else {
                m.name
            },
            None => id,
        }
    }
}

impl View for Catalog {
    type V = CatalogView;

    closed spec fn view(&self) -> CatalogView {
        CatalogView {
            models: info_views(self.models@),
            listed: views(self.listed@),
            aliases: pair_views(self.aliases@),
        }
    }
}

/// The first of the models that the identifier names.
fn find_model<'a>(models: &'a Vec<ModelInfo>, id: &str) -> (r: Option<&'a ModelInfo>)
    ensures
        match r {
            Some(m) => first_named(info_views(models@), id@) == Some(m@),
            None => first_named(info_views(models@), id@) is None,
        },
{
    let ghost all = info_views(models@);
    let mut i: usize = 0;
    assert(all.skip(0) =~= all);
    while i < models.len()
        invariant
            i <= models.len(),
            all == info_views(models@),
            first_named(all, id@) == first_named(all.skip(i as int), id@),
        decreases models.len() - i,
    {
        assert(all.skip(i as int)[0] == models@[i as int]@);
        if has_substring(id, models[i].id_substr.as_str()) {
            return Some(&models[i]);
        }
        assert(all.skip(i as int).drop_first() =~= all.skip(i as int + 1));
        i = i + 1;
    }
    None
}

impl Catalog {
    /// There is a short name, and each stands for an identifier of a known model.
    #[verifier::type_invariant]
    spec fn is_sound(&self) -> bool {
        self@.is_sound()
    }

    /// A catalog, unless there is no short name, or one stands for no known model.
    pub fn new(
        models: Vec<ModelInfo>,
        listed: Vec<String>,
        aliases: Vec<(String, String)>,
    ) -> (r: Option<Catalog>)
        ensures
            ({
                let parts = CatalogView {
                    models: info_views(models@),
                    listed: views(listed@),
                    aliases: pair_views(aliases@),
                };
                match r {
                    Some(c) => c@ == parts && parts.is_sound(),
                    None => !parts.is_sound(),
                }
            }),
    {
        let ghost parts = CatalogView {
            models: info_views(models@),
            listed: views(listed@),
            aliases: pair_views(aliases@),
        };
        assert(parts.aliases.len() == aliases@.len());
        if aliases.len() == 0 {
            return None;
        }
        let mut i: usize = 0;
        while i < aliases.len()
            invariant
                i <= aliases.len(),
                parts.models == info_views(models@),
                parts.aliases == pair_views(aliases@),
                forall|k: int| 0 <= k < i ==> parts.names((#[trigger] parts.aliases[k]).1),
            decreases aliases.len() - i,
        {
            assert(parts.aliases[i as int].1 == aliases@[i as int].1@);
            if find_model(&models, aliases[i].1.as_str()).is_none() {
                assert(!parts.names(parts.aliases[i as int].1));
                return None;
            }
            i = i + 1;
        }
        Some(Catalog { models, listed, aliases })
    }

    /// The catalog of a family of which `models` are known, unless a short name stands for none
    /// of them.
    pub fn of_family(family: &str, models: Vec<ModelInfo>) -> (r: Option<Catalog>)
        ensures
            ({
                let whole = family_catalog(family@, info_views(models@));
                match r {
                    Some(c) => c@ == whole && whole.is_sound(),
                    None => !whole.is_sound(),
                }
            }),
    {
        Catalog::new(models, listed_models(family), model_aliases(family))
    }

    /// The models that are known.
    pub fn models(&self) -> (r: &Vec<ModelInfo>)
        ensures
            info_views(r@) == self@.models,
    {
        &self.models
    }

    /// The identifiers that are offered, in the order in which they are shown.
    pub fn listed(&self) -> (r: &Vec<String>)
        ensures
            views(r@) == self@.listed,
    {
        &self.listed
    }

    /// Short names, each with the identifier that it stands for.
    pub fn aliases(&self) -> (r: &Vec<(String, String)>)
        ensures
            pair_views(r@) == self@.aliases,
            self@.is_sound(),
    {
        proof {
            use_type_invariant(self);
        }
        &self.aliases
    }

    /// The model that the identifier names.
    pub fn lookup(&self, id: &str) -> (r: Option<&ModelInfo>)
        ensures
            match r {
                Some(m) => self@.model_of(id@) == Some(m@),
                None => self@.model_of(id@) is None,
            },
    {
        find_model(&self.models, id)
    }

    /// What the model that the identifier names can do.
    pub fn capabilities_for(&self, id: &str) -> (r: Capabilities)
        ensures
            r == self@.capabilities_of(id@),
    {
        match self.lookup(id) {
            Some(m) => m.capabilities,
            None => Capabilities {
                effort: false,
                effort_xhigh: false,
                effort_max: false,
                context_1m: false,
            },
        }
    }

    /// The name of the model, or the identifier where it names none.
    pub fn marketing_or_id(&self, id: &str) -> (r: String)
        ensures
            r@ == self@.marketing_name(id@),
    {
        match self.lookup(id) {
            Some(m) => owned(m.display_name.as_str()),
            None => owned(id),
        }
    }

    /// The name of the model, with its context window where the identifier is tagged; the
    /// identifier where it names none.
    pub fn display_name(&self, id: &str) -> (r: String)
        ensures
            r@ == self@.shown_name(id@),
    {
        match self.lookup(id) {
            Some(m) => {
                let mut out: String = owned(m.display_name.as_str());
                if has_suffix(id, TAG_1M) {
                    out.append(" (1M context)");
                }
                out
            },
            None => owned(id),
        }
    }
}

/// A model identifier that the user's words were resolved to.
#[derive(Debug, PartialEq, Eq)]
pub struct ResolvedModelId {
    id: String,
}

impl View for ResolvedModelId {
    type V = Seq<char>;

    closed spec fn view(&self) -> Seq<char> {
        self.id@
    }
}

impl ResolvedModelId {
    /// Takes an identifier as resolved.
    pub fn new(id: String) -> (r: ResolvedModelId)
        ensures
            r@ == id@,
    {
        ResolvedModelId { id }
    }

    /// The identifier.
    pub fn as_str(&self) -> (r: &str)
        ensures
            r@ == self@,
    {
        self.id.as_str()
    }

    /// The identifier.
    pub fn into_inner(self) -> (r: String)
        ensures
            r@ == self@,
    {
        self.id
    }
}

/// How much a level is, from the least.
pub open spec fn level_place(e: Effort) -> nat {
    match e {
        Effort::Low => 0,
        Effort::Medium => 1,
        Effort::High => 2,
        Effort::Xhigh => 3,
        Effort::Max => 4,
    }
}

/// A model that takes levels takes the first three, and each of the others where it says so; one
/// that takes none resolves to none.
pub proof fn law_levels_are_taken_as_told(c: Capabilities, e: Effort)
    ensures
        !c.effort ==> !c.takes(e) && c.resolved(Some(e)) is None && c.resolved(None) is None,
        c.effort && level_place(e) <= 2 ==> c.takes(e),
        c.effort ==> c.takes(Effort::Xhigh) == c.effort_xhigh && c.takes(Effort::Max)
            == c.effort_max,
{
}

/// A pick resolves to the highest level that the model takes and that is no more than the pick;
/// no pick stands for the level below the highest.
pub proof fn law_pick_resolves_to_the_highest_taken(c: Capabilities, pick: Option<Effort>, e: Effort)
    requires
        c.effort,
    ensures
        ({
            let most = match pick {
                Some(p) => level_place(p),
                None => 3,
            };
            &&& c.resolved(pick) is Some
            &&& c.takes(c.resolved(pick)->0)
            &&& level_place(c.resolved(pick)->0) <= most
            &&& c.takes(e) && level_place(e) <= most ==> level_place(e) <= level_place(
                c.resolved(pick)->0,
            )
        }),
{
}

proof fn lemma_levels_below(c: Capabilities, n: nat)
    requires
        n <= 5,
    ensures
        forall|i: int|
            0 <= i < c.levels_below(n).len() ==> level_place(#[trigger] c.levels_below(n)[i]) < n,
        forall|i: int, j: int|
            0 <= i < j < c.levels_below(n).len() ==> level_place(#[trigger] c.levels_below(n)[i])
                < level_place(#[trigger] c.levels_below(n)[j]),
    decreases n,
{
    if n > 0 {
        let m = (n - 1) as nat;
        let e = Effort::ladder()[n - 1];
        lemma_levels_below(c, m);
        assert(level_place(e) == m);
        let before = c.levels_below(m);
        let all = c.levels_below(n);
        assert(all == before || all == before.push(e));
        assert(forall|i: int| 0 <= i < before.len() ==> #[trigger] all[i] == before[i]);
        assert(forall|i: int| 0 <= i < before.len() ==> level_place(#[trigger] before[i]) < m);
    }
}

/// The levels that a model takes are told from the least to the most, each once.
pub proof fn law_levels_rise(c: Capabilities, i: int, j: int)
    requires
        0 <= i < j < c.levels().len(),
    ensures
        level_place(c.levels()[i]) < level_place(c.levels()[j]),
{
    lemma_levels_below(c, 5);
}

/// The model of an identifier is the first in the table whose name the identifier holds, and there
/// is none only where it holds none of them.
pub proof fn law_model_is_the_first_that_is_named(table: Seq<InfoView>, id: Seq<char>) -> (k: int)
    ensures
        first_named(table, id) is None ==> forall|j: int|
            0 <= j < table.len() ==> !contains(id, (#[trigger] table[j]).id),
        first_named(table, id) matches Some(m) ==> {
            &&& 0 <= k < table.len()
            &&& m == table[k]
            &&& contains(id, table[k].id)
            &&& forall|j: int| 0 <= j < k ==> !contains(id, (#[trigger] table[j]).id)
        },
    decreases table.len(),
{
    if table.len() == 0 || contains(id, table[0].id) {
        0
    } else {
        let t = table.drop_first();
        let k = law_model_is_the_first_that_is_named(t, id) + 1;
        assert forall|j: int| 1 <= j < table.len() implies #[trigger] table[j] == t[j - 1] by {}
        k
    }
}

/// Of an identifier with a known model, the model tells what it can do and what it is called, and
/// the tag adds that the context is large; of any other, nothing can be done and it is shown as it
/// is.
pub proof fn law_model_tells_of_its_identifiers(cat: CatalogView, id: Seq<char>)
    ensures
        first_named(cat.models, id) matches Some(m) ==> {
            &&& cat.capabilities_of(id) == m.capabilities
            &&& cat.marketing_name(id) == m.name
            &&& (exists|base: Seq<char>| id == #[trigger] (base + "[1m]"@)) ==> cat.shown_name(id)
                == m.name + " (1M context)"@
            &&& !(exists|base: Seq<char>| id == #[trigger] (base + "[1m]"@)) ==> cat.shown_name(id)
                == m.name
        },
        first_named(cat.models, id) is None ==> {
            &&& forall|e: Effort| !#[trigger] cat.capabilities_of(id).takes(e)
            &&& !cat.capabilities_of(id).context_1m
            &&& cat.marketing_name(id) == id
            &&& cat.shown_name(id) == id
        },
        cat.names(id) <==> first_named(cat.models, id) is Some,
{
    let tag = "[1m]"@;
    if ends_with(id, tag) {
        law_ends_stand_behind_the_rest(id, tag, id);
        assert(id == id.take(id.len() - tag.len()) + tag);
    }
    if exists|base: Seq<char>| id == #[trigger] (base + tag) {
        let base = choose|base: Seq<char>| id == #[trigger] (base + tag);
        law_ends_stand_behind_the_rest(base, tag, base);
    }
}

/// What a family offers are five identifiers, each the family's name, a hyphen and a model's; each
/// short name is that of one that is offered, and begins the model's name.
pub proof fn law_family_offers_its_models(family: Seq<char>, i: int)
    ensures
        listed_of(family).len() == 5,
        0 <= i < 5 ==> listed_of(family)[i] == family + "-"@ + roster()[i],
        0 <= i < aliases_of(family).len() ==> {
            &&& listed_of(family).contains(aliases_of(family)[i].1)
            &&& exists|rest: Seq<char>|
                aliases_of(family)[i].1 == #[trigger] (family + "-"@ + aliases_of(family)[i].0
                    + rest)
        },
{
    if 0 <= i < aliases_of(family).len() {
        reveal_strlit("opus");
        reveal_strlit("sonnet");
        reveal_strlit("haiku");
        reveal_strlit("opus-4-7");
        reveal_strlit("sonnet-4-6");
        reveal_strlit("haiku-4-5");
        let name = short_names()[i].0;
        let model = short_names()[i].1;
        assert(i == 0 || i == 1 || i == 2);
        assert(roster()[2 * i] == model);
        assert(aliases_of(family)[i] == (name, id_in(family, model)));
        let rest = model.skip(name.len() as int);
        assert(model =~= name + rest);
        assert(aliases_of(family)[i].1 =~= family + "-"@ + name + rest);
        let listed = listed_of(family);
        assert(listed.len() == 5);
        assert(listed[2 * i] == id_in(family, model));
        assert(listed.contains(aliases_of(family)[i].1));
        assert(aliases_of(family)[i].1 == family + "-"@ + aliases_of(family)[i].0 + rest);
    }
}

} // verus!
