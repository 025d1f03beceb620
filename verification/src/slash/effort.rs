//! `/effort`: opens the slider, or switches to the level that was typed.

use vstd::prelude::*;
use vstd::string::*;

use crate::config::{Effort, VALID_EFFORTS};
use crate::model::{Catalog, CatalogView};
use crate::text::{lower, to_lower};

verus! {

/// What is said of a model that takes no effort.
pub open spec fn no_tier_text(cat: CatalogView, model_id: Seq<char>) -> Seq<char> {
    cat.marketing_name(model_id)
        + " has no effort tier. Pick an effort-capable model first with /model (e.g. /model opus, /model sonnet)."@
}

/// What is said of a model that takes no effort.
pub fn no_effort_tier_msg(cat: &Catalog, model_id: &str) -> (r: String)
    ensures
        r@ == no_tier_text(cat@, model_id@),
{
    let mut out: String = cat.marketing_or_id(model_id);
    out.append(
        " has no effort tier. Pick an effort-capable model first with /model (e.g. /model opus, /model sonnet).",
    );
    out
}

/// What is said of a word that is no level.
pub open spec fn unknown_effort_text(arg: Seq<char>) -> Seq<char> {
    "Unknown effort: `"@ + arg + "`. Valid: "@ + VALID_EFFORTS@ + "."@
}

/// The level of that name, letters of either case being the same.
pub fn parse_effort_arg(arg: &str) -> (r: Result<Effort, String>)
    ensures
        match r {
            Ok(e) => Effort::named(lower(arg@)) == Some(e),
            Err(t) => Effort::named(lower(arg@)) is None && t@ == unknown_effort_text(arg@),
        },
{
    let small: String = to_lower(arg);
    match Effort::parse(small.as_str()) {
        Some(e) => Ok(e),
        None => {
            let mut out: String = "Unknown effort: `".to_owned();
            out.append(arg);
            out.append("`. Valid: ");
            out.append(VALID_EFFORTS);
            out.append(".");
            Err(out)
        },
    }
}

/// An argument that names no level is told together with the levels; a model without levels is told
/// by its name.
pub proof fn law_refused_efforts_are_told(cat: CatalogView, id: Seq<char>, arg: Seq<char>)
    ensures
        unknown_effort_text(arg) == "Unknown effort: `"@ + arg + "`. Valid: "@
            + Effort::Low.label() + ", "@ + Effort::Medium.label() + ", "@ + Effort::High.label()
            + ", "@ + Effort::Xhigh.label() + ", "@ + Effort::Max.label() + "."@,
        no_tier_text(cat, id) == cat.marketing_name(id)
            + " has no effort tier. Pick an effort-capable model first with /model (e.g. /model opus, /model sonnet)."@,
{
    reveal_strlit("low");
    reveal_strlit("medium");
    reveal_strlit("high");
    reveal_strlit("xhigh");
    reveal_strlit("max");
    reveal_strlit(", ");
    reveal_strlit("low, medium, high, xhigh, max");
    let levels = Effort::Low.label() + ", "@ + Effort::Medium.label() + ", "@
        + Effort::High.label() + ", "@ + Effort::Xhigh.label() + ", "@ + Effort::Max.label();
    assert(levels =~= "low, medium, high, xhigh, max"@);
    let start = "Unknown effort: `"@ + arg + "`. Valid: "@;
    assert(start + Effort::Low.label() + ", "@ + Effort::Medium.label() + ", "@
        + Effort::High.label() + ", "@ + Effort::Xhigh.label() + ", "@ + Effort::Max.label()
        =~= start + levels);
}

} // verus!
