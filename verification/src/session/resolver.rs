//! Which session a command line asks to go on with.

use vstd::prelude::*;
use vstd::string::*;

use crate::session::display::{id_prefix, short_id};
use crate::session::entry::SessionInfo;
use crate::session::list_view::{can_cut, is_cuttable};
use crate::session::store::has_jsonl_extension;
use crate::text::{
    decimal, decimal_of, ellipsized, ends_with, has_char, has_prefix, is_blank, join, joined,
    lower, starts_with, to_lower, trim, trim_of, views, ELLIPSIS,
};

verus! {

/// What the command line asks for.
#[derive(Debug, PartialEq, Eq)]
pub enum ResumeMode<'a> {
    /// A new session.
    Fresh,
    /// The session that was active last.
    Latest,
    /// The one session whose identifier begins so.
    Prefix(&'a str),
    /// The session in this file.
    Path(&'a str),
}

/// What the command line asks for, by its characters.
#[verifier::ext_equal]
pub ghost enum ModeView {
    Fresh,
    Latest,
    Prefix(Seq<char>),
    Path(Seq<char>),
}

impl<'a> View for ResumeMode<'a> {
    type V = ModeView;

    open spec fn view(&self) -> ModeView {
        match *self {
            ResumeMode::Fresh => ModeView::Fresh,
            ResumeMode::Latest => ModeView::Latest,
            ResumeMode::Prefix(p) => ModeView::Prefix(p@),
            ResumeMode::Path(p) => ModeView::Path(p@),
        }
    }
}

/// What is said of a prefix with nothing in it.
pub const EMPTY_PREFIX: &'static str =
    "empty session ID prefix; use `ox -c` (bare) to resume the latest session";

/// Whether an argument is a path: it holds a separator, or has the extension of a session file.
pub open spec fn is_path(arg: Seq<char>) -> bool {
    arg.contains('/') || arg.contains('\\') || has_jsonl_extension(lower(arg))
}

/// Whether an argument is a path rather than the beginning of an identifier.
pub fn looks_like_path(arg: &str) -> (r: bool)
    ensures
        r == is_path(arg@),
{
    has_char(arg, '/') || has_char(arg, '\\') || crate::session::store::is_session_file(
        to_lower(arg).as_str(),
    )
}

/// What an argument asks for.
pub open spec fn mode_of(arg: Seq<char>) -> Option<ModeView> {
    let trimmed = trim_of(arg);
    if trimmed.len() == 0 {
        None
    } else if is_path(trimmed) {
        Some(ModeView::Path(trimmed))
    } else {
        Some(ModeView::Prefix(trimmed))
    }
}

/// Reads the resume argument: absent, bare, or with a value. A blank value is refused, so that
/// it does not pass for a bare one.
pub fn normalize_resume_arg<'a>(resume: Option<&'a Option<String>>) -> (r: Result<
    ResumeMode<'a>,
    String,
>)
    ensures
        match resume {
            None => r matches Ok(m) && m@ == ModeView::Fresh,
            Some(None) => r matches Ok(m) && m@ == ModeView::Latest,
            Some(Some(raw)) => match mode_of(raw@) {
                Some(mode) => r matches Ok(m) && m@ == mode,
                None => r matches Err(e) && e@ == EMPTY_PREFIX@,
            },
        },
{
    match resume {
        None => Ok(ResumeMode::Fresh),
        Some(None) => Ok(ResumeMode::Latest),
        Some(Some(raw)) => {
            let trimmed: &'a str = trim(raw.as_str());
            if trimmed.is_empty() {
                return Err(EMPTY_PREFIX.to_owned());
            }
            if looks_like_path(trimmed) {
                Ok(ResumeMode::Path(trimmed))
            } else {
                Ok(ResumeMode::Prefix(trimmed))
            }
        },
    }
}

/// How many identifiers a preview names.
pub const MATCH_PREVIEW_LIMIT: usize = 5;

/// The short forms of `ids`.
pub open spec fn short_ids(ids: Seq<Seq<char>>) -> Seq<Seq<char>> {
    ids.map_values(|id: Seq<char>| short_id(id))
}

/// The short forms of the first identifiers, and an ellipsis where there are more.
pub open spec fn preview(ids: Seq<Seq<char>>) -> Seq<char> {
    if ids.len() <= MATCH_PREVIEW_LIMIT {
        join(short_ids(ids), ", "@)
    } else {
        join(short_ids(ids.take(MATCH_PREVIEW_LIMIT as int)), ", "@) + ", "@ + ELLIPSIS@
    }
}

/// Whether each identifier that a preview names can be cut short.
pub open spec fn previewable(ids: Seq<Seq<char>>) -> bool {
    forall|i: int|
        0 <= i < ids.len() && i < MATCH_PREVIEW_LIMIT ==> is_cuttable(#[trigger] ids[i])
}

/// The short forms of up to [`MATCH_PREVIEW_LIMIT`] identifiers, with an ellipsis for the rest.
pub fn format_session_id_preview(ids: &Vec<String>) -> (r: String)
    requires
        previewable(views(ids@)),
    ensures
        r@ == preview(views(ids@)),
{
    let n: usize = if ids.len() <= MATCH_PREVIEW_LIMIT {
        ids.len()
    } else {
        MATCH_PREVIEW_LIMIT
    };
    let ghost named = short_ids(views(ids@).take(n as int));
    let mut short: Vec<String> = Vec::new();
    let mut i: usize = 0;
    while i < n
        invariant
            i <= n <= ids.len(),
            named == short_ids(views(ids@).take(n as int)),
            views(short@) =~= named.take(i as int),
        decreases n - i,
    {
        let id: String = id_prefix(ids[i].as_str()).to_owned();
        let ghost before = short@;
        short.push(id);
        assert(views(short@) =~= views(before).push(id@));
        i = i + 1;
    }
    assert(views(short@) =~= named);
    assert(ids.len() <= MATCH_PREVIEW_LIMIT ==> views(ids@).take(n as int) =~= views(ids@));
    let mut out: String = joined(&short, ", ");
    if ids.len() > MATCH_PREVIEW_LIMIT {
        out.append(", ");
        out.append(ELLIPSIS);
    }
    out
}

/// Where was looked, as a hint.
pub open spec fn scope_hint(all: bool) -> Seq<char> {
    if all {
        ""@
    } else {
        " in this project (use --all to search every project)"@
    }
}

/// Where was looked, as a hint.
fn hint(all: bool) -> (r: &'static str)
    ensures
        r@ == scope_hint(all),
{
    if all {
        ""
    } else {
        " in this project (use --all to search every project)"
    }
}

/// The identifiers of `sessions`.
pub open spec fn ids_of(sessions: Seq<SessionInfo>) -> Seq<Seq<char>> {
    sessions.map_values(|s: SessionInfo| s.session_id@)
}

/// The identifiers that begin with `prefix`, in order.
pub open spec fn matching(ids: Seq<Seq<char>>, prefix: Seq<char>) -> Seq<Seq<char>>
    decreases ids.len(),
{
    if ids.len() == 0 {
        Seq::empty()
    } else {
        let before = matching(ids.drop_last(), prefix);
        if starts_with(ids.last(), prefix) {
            before.push(ids.last())
        } else {
            before
        }
    }
}

/// What is said of a prefix that more than one session has.
pub open spec fn ambiguous_text(prefix: Seq<char>, found: Seq<Seq<char>>) -> Seq<char> {
    "ambiguous prefix '"@ + prefix + "' matches "@ + decimal(found.len()) + " sessions: "@ + preview(
        found,
    )
}

/// The session that `mode` asks for among `ids`, or why there is none. Neither a new session
/// nor a path is looked up.
pub open spec fn chosen(mode: ModeView, ids: Seq<Seq<char>>, all: bool) -> Result<
    Option<Seq<char>>,
    Seq<char>,
> {
    match mode {
        ModeView::Latest => if ids.len() == 0 {
            Err("no sessions to resume"@ + scope_hint(all))
        } else {
            Ok(Some(ids[0]))
        },
        ModeView::Prefix(prefix) => {
            let found = matching(ids, prefix);
            if found.len() == 0 {
                Err("no session matching prefix '"@ + prefix + "'"@ + scope_hint(all))
            } else if found.len() == 1 {
                Ok(Some(found[0]))
            } else {
                Err(ambiguous_text(prefix, found))
            }
        },
        _ => Ok(None),
    }
}

/// A choice by its characters.
pub open spec fn choice_view(r: Result<Option<String>, String>) -> Result<
    Option<Seq<char>>,
    Seq<char>,
> {
    match r {
        Ok(Some(id)) => Ok(Some(id@)),
        Ok(None) => Ok(None),
        Err(e) => Err(e@),
    }
}

/// The identifiers of the sessions that begin with `prefix`, in order.
pub(crate) fn find_matching(sessions: &Vec<SessionInfo>, prefix: &str) -> (r: Vec<String>)
    ensures
        views(r@) == matching(ids_of(sessions@), prefix@),
{
    let ghost ids = ids_of(sessions@);
    let mut found: Vec<String> = Vec::new();
    let mut i: usize = 0;
    assert(views(found@) =~= Seq::empty());
    while i < sessions.len()
        invariant
            i <= sessions.len(),
            ids == ids_of(sessions@),
            views(found@) == matching(ids.take(i as int), prefix@),
        decreases sessions.len() - i,
    {
        assert(ids.take(i as int + 1).drop_last() =~= ids.take(i as int));
        if has_prefix(sessions[i].session_id.as_str(), prefix) {
            let id: String = sessions[i].session_id.clone();
            let ghost before = found@;
            found.push(id);
            assert(views(found@) =~= views(before).push(id@));
        }
        i = i + 1;
    }
    assert(ids.take(ids.len() as int) =~= ids);
    found
}

/// Whether what is said of the sessions that `mode` asks for can be said: more than one match is
/// told by short forms, and those must be there.
pub open spec fn tellable(mode: ModeView, ids: Seq<Seq<char>>) -> bool {
    mode matches ModeView::Prefix(p) ==> (matching(ids, p).len() >= 2 ==> previewable(
        matching(ids, p),
    ))
}

/// Whether a preview can name `ids`.
pub fn can_preview(ids: &Vec<String>) -> (r: bool)
    ensures
        r == previewable(views(ids@)),
{
    let mut i: usize = 0;
    while i < ids.len() && i < MATCH_PREVIEW_LIMIT
        invariant
            i <= ids.len(),
            forall|k: int| 0 <= k < i ==> is_cuttable(#[trigger] views(ids@)[k]),
        decreases ids.len() - i,
    {
        if !can_cut(ids[i].as_str()) {
            assert(!is_cuttable(views(ids@)[i as int]));
            return false;
        }
        i = i + 1;
    }
    true
}

/// Whether what is said of the sessions that `mode` asks for can be said.
pub fn can_resolve(mode: &ResumeMode<'_>, sessions: &Vec<SessionInfo>) -> (r: bool)
    ensures
        r == tellable(mode@, ids_of(sessions@)),
{
    match mode {
        ResumeMode::Prefix(prefix) => {
            let found: Vec<String> = find_matching(sessions, prefix);
            found.len() < 2 || can_preview(&found)
        },
        _ => true,
    }
}

/// The session to go on with among `sessions`, which are listed the most recently active first.
/// A new session and a path name none of them.
pub fn resolve_session(mode: &ResumeMode<'_>, sessions: &Vec<SessionInfo>, all: bool) -> (r: Result<
    Option<String>,
    String,
>)
    requires
        tellable(mode@, ids_of(sessions@)),
    ensures
        choice_view(r) == chosen(mode@, ids_of(sessions@), all),
{
    match mode {
        ResumeMode::Latest => {
            if sessions.len() == 0 {
                let mut msg: String = "no sessions to resume".to_owned();
                msg.append(hint(all));
                Err(msg)
            } else {
                Ok(Some(sessions[0].session_id.clone()))
            }
        },
        ResumeMode::Prefix(prefix) => {
            let mut found: Vec<String> = find_matching(sessions, prefix);
            if found.len() == 0 {
                let mut msg: String = "no session matching prefix '".to_owned();
                msg.append(prefix);
                msg.append("'");
                msg.append(hint(all));
                return Err(msg);
            }
            if found.len() == 1 {
                assert(views(found@)[0] == found@[0]@);
                return Ok(Some(found.remove(0)));
            }
            let mut msg: String = "ambiguous prefix '".to_owned();
            msg.append(prefix);
            msg.append("' matches ");
            msg.append(decimal_of(found.len() as u64).as_str());
            msg.append(" sessions: ");
            msg.append(format_session_id_preview(&found).as_str());
            Err(msg)
        },
        _ => Ok(None),
    }
}

// ── Laws ──

/// The beginning of an identifier, and nothing else, is looked up as one: an argument of letters,
/// digits, hyphens and underscores is never taken for a path.
pub proof fn law_identifiers_are_no_paths(arg: Seq<char>)
    requires
        forall|i: int|
            0 <= i < arg.len() ==> crate::session::store::is_id_char(#[trigger] arg[i]),
    ensures
        !is_path(arg),
{
    reveal_strlit(".jsonl");
    if arg.contains('/') {
        let k = choose|k: int| 0 <= k < arg.len() && arg[k] == '/';
        assert(crate::session::store::is_id_char(arg[k]));
    }
    if arg.contains('\\') {
        let k = choose|k: int| 0 <= k < arg.len() && arg[k] == '\\';
        assert(crate::session::store::is_id_char(arg[k]));
    }
    let low = lower(arg);
    if has_jsonl_extension(low) {
        let dot = low.skip(low.len() - 6)[0];
        assert(dot == '.');
        assert(low[low.len() - 6] == '.');
        assert(crate::session::store::is_id_char(arg[low.len() - 6]));
    }
}

/// What is found by a prefix are the identifiers that begin with it, all of them and in order:
/// each identifier that is found is one of those that there are and begins so, and one that is
/// added at the end is found at the end where it begins so, and changes nothing where it does not.
pub proof fn law_matches_begin_with_the_prefix(
    ids: Seq<Seq<char>>,
    more: Seq<char>,
    prefix: Seq<char>,
)
    ensures
        forall|i: int|
            0 <= i < matching(ids, prefix).len() ==> ids.contains(#[trigger] matching(ids, prefix)[i])
                && prefix.len() <= matching(ids, prefix)[i].len() && matching(ids, prefix)[i].take(
                prefix.len() as int,
            ) == prefix,
        forall|rest: Seq<char>|
            more == #[trigger] (prefix + rest) ==> matching(ids.push(more), prefix) == matching(
                ids,
                prefix,
            ).push(more),
        !(exists|rest: Seq<char>| more == #[trigger] (prefix + rest)) ==> matching(
            ids.push(more),
            prefix,
        ) == matching(ids, prefix),
        matching(Seq::<Seq<char>>::empty(), prefix).len() == 0,
    decreases ids.len(),
{
    assert(ids.push(more).drop_last() =~= ids);
    assert forall|rest: Seq<char>| more == #[trigger] (prefix + rest) implies starts_with(
        more,
        prefix,
    ) by {
        assert(more.take(prefix.len() as int) =~= prefix);
    }
    if starts_with(more, prefix) {
        let rest = more.skip(prefix.len() as int);
        assert(more =~= more.take(prefix.len() as int) + rest);
        assert(more == prefix + rest);
    }
    if ids.len() > 0 {
        let t = ids.drop_last();
        law_matches_begin_with_the_prefix(t, ids.last(), prefix);
        let found = matching(ids, prefix);
        let before = matching(t, prefix);
        assert(ids[ids.len() - 1] == ids.last());
        assert forall|i: int| 0 <= i < found.len() implies ids.contains(#[trigger] found[i])
            && prefix.len() <= found[i].len() && found[i].take(prefix.len() as int) == prefix by {
            if i < before.len() {
                assert(found[i] == before[i]);
                let k = choose|k: int| 0 <= k < t.len() && t[k] == before[i];
                assert(ids[k] == found[i]);
            }
        }
    }
}

/// What is gone on with: the first session where the latest is asked for, the one session that a
/// prefix finds, and none where the prefix finds none or several, which are then told.
pub proof fn law_session_is_chosen_by_what_is_asked(
    ids: Seq<Seq<char>>,
    prefix: Seq<char>,
    all: bool,
)
    ensures
        ids.len() > 0 ==> chosen(ModeView::Latest, ids, all) == Ok::<Option<Seq<char>>, Seq<char>>(
            Some(ids[0]),
        ),
        ids.len() == 0 ==> chosen(ModeView::Latest, ids, all) == Err::<
            Option<Seq<char>>,
            Seq<char>,
        >("no sessions to resume"@ + scope_hint(all)),
        chosen(ModeView::Fresh, ids, all) == Ok::<Option<Seq<char>>, Seq<char>>(None),
        chosen(ModeView::Path(prefix), ids, all) == Ok::<Option<Seq<char>>, Seq<char>>(None),
        matching(ids, prefix).len() == 0 ==> chosen(ModeView::Prefix(prefix), ids, all) == Err::<
            Option<Seq<char>>,
            Seq<char>,
        >("no session matching prefix '"@ + prefix + "'"@ + scope_hint(all)),
        matching(ids, prefix).len() == 1 ==> chosen(ModeView::Prefix(prefix), ids, all) == Ok::<
            Option<Seq<char>>,
            Seq<char>,
        >(Some(matching(ids, prefix)[0])),
        matching(ids, prefix).len() > 1 ==> chosen(ModeView::Prefix(prefix), ids, all) == Err::<
            Option<Seq<char>>,
            Seq<char>,
        >(
            "ambiguous prefix '"@ + prefix + "' matches "@ + decimal(matching(ids, prefix).len())
                + " sessions: "@ + preview(matching(ids, prefix)),
        ),
{
}

/// A preview names the first five identifiers by their short forms, and says where there are more.
pub proof fn law_preview_names_the_first(ids: Seq<Seq<char>>)
    ensures
        ids.len() <= 5 ==> preview(ids) == join(ids.map_values(|id: Seq<char>| short_id(id)), ", "@),
        ids.len() > 5 ==> preview(ids) == join(
            ids.take(5).map_values(|id: Seq<char>| short_id(id)),
            ", "@,
        ) + ", ..."@,
{
    reveal_strlit(", ");
    reveal_strlit("...");
    reveal_strlit(", ...");
    assert(", "@ + "..."@ =~= ", ..."@);
    assert(ids.map_values(|id: Seq<char>| short_id(id)) =~= short_ids(ids));
    if ids.len() > 5 {
        assert(ids.take(5).map_values(|id: Seq<char>| short_id(id)) =~= short_ids(ids.take(5)));
        let named = join(short_ids(ids.take(5)), ", "@);
        assert(named + ", "@ + "..."@ =~= named + (", "@ + "..."@));
    }
}

/// An argument that is not blank asks for what stands in it without the white space around it: a
/// path where that holds a separator or has the extension of a session file, else a session by
/// the beginning of its identifier. A blank one asks for nothing.
pub proof fn law_arguments_ask_for_a_path_or_a_prefix(arg: Seq<char>)
    ensures
        ({
            let word = trim_of(arg);
            let path = (exists|k: int| 0 <= k < word.len() && (word[k] == '/' || word[k] == '\\'))
                || (word.len() > 6 && ends_with(lower(word), ".jsonl"@));
            &&& word.len() == 0 ==> mode_of(arg) is None
            &&& word.len() > 0 && path ==> mode_of(arg) == Some(ModeView::Path(word))
            &&& word.len() > 0 && !path ==> mode_of(arg) == Some(ModeView::Prefix(word))
        }),
{
    let word = trim_of(arg);
    assert(lower(word).len() == word.len());
    if word.contains('/') {
        let k = choose|k: int| 0 <= k < word.len() && word[k] == '/';
        assert(word[k] == '/');
    }
    if word.contains('\\') {
        let k = choose|k: int| 0 <= k < word.len() && word[k] == '\\';
        assert(word[k] == '\\');
    }
    if exists|k: int| 0 <= k < word.len() && (word[k] == '/' || word[k] == '\\') {
        let k = choose|k: int| 0 <= k < word.len() && (word[k] == '/' || word[k] == '\\');
        assert(word.contains(word[k]));
    }
}

/// Whatever is asked for, an answer can be told where every identifier can be cut short.
pub proof fn law_answers_can_be_told(mode: ModeView, ids: Seq<Seq<char>>)
    requires
        forall|i: int| 0 <= i < ids.len() ==> is_cuttable(#[trigger] ids[i]),
    ensures
        tellable(mode, ids),
        previewable(ids),
{
    if let ModeView::Prefix(prefix) = mode {
        let found = matching(ids, prefix);
        law_matches_begin_with_the_prefix(ids, prefix, prefix);
        assert forall|i: int| 0 <= i < found.len() implies is_cuttable(#[trigger] found[i]) by {
            assert(ids.contains(found[i]));
            let k = choose|k: int| 0 <= k < ids.len() && ids[k] == found[i];
            assert(is_cuttable(ids[k]));
        }
    }
}

} // verus!
