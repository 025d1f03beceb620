//! Slash commands as they are typed: a name behind a slash, and arguments behind white space.

use vstd::prelude::*;
use vstd::string::*;

use crate::text::{
    chars_of, is_alnum, is_alphanumeric, is_space, is_white_space, trim, trim_end_of, trim_of,
    trim_start, trim_start_of,
};

verus! {

/// A typed command. The name has no slash; the arguments are trimmed.
#[derive(Debug, PartialEq, Eq)]
pub struct Parsed {
    pub name: String,
    pub args: String,
}

/// What the cursor stands in while a command is typed.
#[derive(Debug, PartialEq, Eq)]
pub enum PopupState<'a> {
    /// The name, with no white space behind it yet.
    Name(&'a str),
    /// The arguments.
    Arg { name: &'a str, prefix: &'a str },
}

/// What the cursor stands in, by its characters.
#[verifier::ext_equal]
pub ghost enum PopupView {
    Name(Seq<char>),
    Arg { name: Seq<char>, prefix: Seq<char> },
}

impl<'a> View for PopupState<'a> {
    type V = PopupView;

    open spec fn view(&self) -> PopupView {
        match *self {
            PopupState::Name(n) => PopupView::Name(n@),
            PopupState::Arg { name, prefix } => PopupView::Arg { name: name@, prefix: prefix@ },
        }
    }
}

/// The characters of a name: ASCII letters and digits, and what sets namespaces apart.
pub open spec fn in_name(c: char) -> bool {
    is_alnum(c) || c == '_' || c == '-' || c == ':' || c == '.'
}

/// Whether `c` can be part of a name.
pub fn is_name_char(c: char) -> (r: bool)
    ensures
        r == in_name(c),
{
    is_alphanumeric(c) || c == '_' || c == '-' || c == ':' || c == '.'
}

/// Whether `s` holds nothing but characters of names.
pub open spec fn is_name_text(s: Seq<char>) -> bool {
    forall|i: int| 0 <= i < s.len() ==> in_name(#[trigger] s[i])
}

/// The position of the first white space of `s`, or its length.
pub open spec fn space_at(s: Seq<char>) -> int
    decreases s.len(),
{
    if s.len() == 0 || is_space(s[0]) {
        0
    } else {
        1 + space_at(s.drop_first())
    }
}

/// What stands behind the slash of a command; nothing for a text that begins with none, or with
/// two.
pub open spec fn behind_slash(input: Seq<char>) -> Option<Seq<char>> {
    let s = trim_start_of(input);
    if s.len() > 0 && s[0] == '/' && !(s.len() > 1 && s[1] == '/') {
        Some(s.skip(1))
    } else {
        None
    }
}

/// The name and the arguments that `input` asks for.
pub open spec fn parsed(input: Seq<char>) -> Option<(Seq<char>, Seq<char>)> {
    match behind_slash(input) {
        None => None,
        Some(rest) => {
            let n = space_at(rest);
            let name = rest.take(n);
            if name.len() == 0 || !is_name_text(name) {
                None
            } else if n < rest.len() {
                Some((name, trim_of(rest.skip(n + 1))))
            } else {
                Some((name, Seq::empty()))
            }
        },
    }
}

/// What the cursor at the end of `buffer` stands in.
pub open spec fn popup(buffer: Seq<char>) -> Option<PopupView> {
    match behind_slash(buffer) {
        None => None,
        Some(rest) => {
            let n = space_at(rest);
            let name = rest.take(n);
            if !is_name_text(name) || (n < rest.len() && name.len() == 0) {
                None
            } else if n < rest.len() {
                Some(PopupView::Arg { name, prefix: trim_start_of(rest.skip(n + 1)) })
            } else {
                Some(PopupView::Name(rest))
            }
        },
    }
}

proof fn lemma_space_at(s: Seq<char>)
    ensures
        0 <= space_at(s) <= s.len(),
        space_at(s) < s.len() ==> is_space(s[space_at(s)]),
        forall|k: int| 0 <= k < space_at(s) ==> !is_space(#[trigger] s[k]),
    decreases s.len(),
{
    if s.len() > 0 && !is_space(s[0]) {
        let t = s.drop_first();
        lemma_space_at(t);
        assert forall|k: int| 0 <= k < space_at(s) implies !is_space(#[trigger] s[k]) by {
            if k > 0 {
                assert(s[k] == t[k - 1]);
            }
        }
    }
}

/// What stands behind the slash of a command.
fn strip_slash(input: &str) -> (r: Option<&str>)
    ensures
        r is Some <==> behind_slash(input@) is Some,
        r matches Some(s) ==> behind_slash(input@) == Some(s@),
{
    let s: &str = trim_start(input);
    let cs: Vec<char> = chars_of(s);
    if cs.len() == 0 || cs[0] != '/' || (cs.len() > 1 && cs[1] == '/') {
        return None;
    }
    let n: usize = cs.len();
    assert(s@.subrange(1, n as int) =~= s@.skip(1));
    Some(s.substring_char(1, n))
}

/// The position of the first white space of `s`, or its length.
fn find_space(s: &str) -> (r: usize)
    ensures
        r == space_at(s@),
        r <= s@.len(),
{
    let cs: Vec<char> = chars_of(s);
    proof {
        lemma_space_at(s@);
    }
    let mut i: usize = 0;
    while i < cs.len() && !is_white_space(cs[i])
        invariant
            i <= cs.len(),
            cs@ == s@,
            forall|k: int| 0 <= k < i ==> !is_space(#[trigger] s@[k]),
        decreases cs.len() - i,
    {
        i = i + 1;
    }
    i
}

/// Whether `s` holds nothing but characters of names.
fn all_name_chars(s: &str) -> (r: bool)
    ensures
        r == is_name_text(s@),
{
    let cs: Vec<char> = chars_of(s);
    let mut i: usize = 0;
    while i < cs.len()
        invariant
            i <= cs.len(),
            cs@ == s@,
            forall|k: int| 0 <= k < i ==> in_name(#[trigger] s@[k]),
        decreases cs.len() - i,
    {
        if !is_name_char(cs[i]) {
            assert(!in_name(s@[i as int]));
            return false;
        }
        i = i + 1;
    }
    true
}

/// A parsed command by its characters.
pub open spec fn parsed_view(p: Option<Parsed>) -> Option<(Seq<char>, Seq<char>)> {
    match p {
        Some(p) => Some((p.name@, p.args@)),
        None => None,
    }
}

/// The command that `input` asks for: none for a plain prompt, two slashes, a bare slash, or a
/// name with other characters.
pub fn parse_slash(input: &str) -> (r: Option<Parsed>)
    ensures
        parsed_view(r) == parsed(input@),
{
    match strip_slash(input) {
        None => None,
        Some(rest) => {
            let n: usize = find_space(rest);
            let len: usize = rest.unicode_len();
            let name: &str = rest.substring_char(0, n);
            assert(rest@.subrange(0, n as int) =~= rest@.take(n as int));
            if name.is_empty() || !all_name_chars(name) {
                return None;
            }
            let args: String = if n < len {
                assert(rest@.subrange(n + 1, len as int) =~= rest@.skip(n + 1));
                trim(rest.substring_char(n + 1, len)).to_owned()
            } else {
                String::new()
            };
            Some(Parsed { name: name.to_owned(), args })
        },
    }
}

/// A popup state by its characters.
pub open spec fn popup_view(p: Option<PopupState<'_>>) -> Option<PopupView> {
    match p {
        Some(p) => Some(p@),
        None => None,
    }
}

/// What the cursor at the end of `buffer` stands in: the name while no white space was typed
/// behind it, the arguments from then on, and nothing in what is no command.
pub fn popup_state<'a>(buffer: &'a str) -> (r: Option<PopupState<'a>>)
    ensures
        popup_view(r) == popup(buffer@),
{
    match strip_slash(buffer) {
        None => None,
        Some(rest) => {
            let n: usize = find_space(rest);
            let len: usize = rest.unicode_len();
            let name: &'a str = rest.substring_char(0, n);
            assert(rest@.subrange(0, n as int) =~= rest@.take(n as int));
            if !all_name_chars(name) {
                return None;
            }
            if n < len {
                if name.is_empty() {
                    return None;
                }
                assert(rest@.subrange(n + 1, len as int) =~= rest@.skip(n + 1));
                let after: &'a str = rest.substring_char(n + 1, len);
                Some(PopupState::Arg { name, prefix: trim_start(after) })
            } else {
                assert(rest@.take(n as int) =~= rest@);
                Some(PopupState::Name(name))
            }
        },
    }
}

// ── Laws ──

proof fn lemma_trim_start_idempotent(s: Seq<char>)
    ensures
        trim_start_of(trim_start_of(s)) == trim_start_of(s),
    decreases s.len(),
{
    if s.len() > 0 && is_space(s[0]) {
        lemma_trim_start_idempotent(s.drop_first());
    }
}

/// The popup and the parser agree on what is a command: what is parsed is what the popup stood
/// in, with the name and the arguments that it showed; and a popup that shows a name that is
/// not empty, or arguments, stands in what is parsed.
pub proof fn law_popup_agrees_with_parser(input: Seq<char>)
    ensures
        parsed(input) is Some <==> (popup(input) is Some && popup(input) != Some(
            PopupView::Name(Seq::empty()),
        )),
        popup(input) matches Some(PopupView::Name(n)) ==> n.len() > 0 ==> parsed(input) == Some(
            (n, Seq::<char>::empty()),
        ),
        popup(input) matches Some(PopupView::Arg { name, prefix }) ==> parsed(input) == Some(
            (name, trim_of(prefix)),
        ),
{
    match behind_slash(input) {
        None => {},
        Some(rest) => {
            lemma_space_at(rest);
            let n = space_at(rest);
            if n < rest.len() {
                lemma_trim_start_idempotent(rest.skip(n + 1));
            } else {
                assert(rest.take(n) =~= rest);
                if rest.len() == 0 {
                    assert(rest =~= Seq::empty());
                }
            }
        },
    }
}

/// A prompt that begins with two slashes, or with none, is no command, whatever follows.
pub proof fn law_escaped_text_is_no_command(input: Seq<char>)
    requires
        ({
            let s = trim_start_of(input);
            s.len() == 0 || s[0] != '/' || (s.len() > 1 && s[1] == '/')
        }),
    ensures
        parsed(input) is None,
        popup(input) is None,
{
}

proof fn lemma_lead_off(lead: Seq<char>, t: Seq<char>)
    requires
        forall|i: int| 0 <= i < lead.len() ==> is_space(#[trigger] lead[i]),
        t.len() > 0,
        !is_space(t[0]),
    ensures
        trim_start_of(lead + t) == t,
    decreases lead.len(),
{
    if lead.len() == 0 {
        assert(lead + t =~= t);
    } else {
        let rest = lead.drop_first();
        assert forall|i: int| 0 <= i < rest.len() implies is_space(#[trigger] rest[i]) by {
            assert(rest[i] == lead[i + 1]);
        }
        lemma_lead_off(rest, t);
        assert((lead + t).drop_first() =~= rest + t);
        assert((lead + t)[0] == lead[0]);
    }
}

proof fn lemma_space_behind(word: Seq<char>, behind: Seq<char>)
    requires
        forall|i: int| 0 <= i < word.len() ==> !is_space(#[trigger] word[i]),
        behind.len() > 0 ==> is_space(behind[0]),
    ensures
        space_at(word + behind) == word.len(),
    decreases word.len(),
{
    let s = word + behind;
    if word.len() == 0 {
        assert(s =~= behind);
    } else {
        let rest = word.drop_first();
        assert forall|i: int| 0 <= i < rest.len() implies !is_space(#[trigger] rest[i]) by {
            assert(rest[i] == word[i + 1]);
        }
        lemma_space_behind(rest, behind);
        assert(s.drop_first() =~= rest + behind);
        assert(s[0] == word[0]);
    }
}

/// What stands behind the slash is split at its first white space.
proof fn lemma_split(lead: Seq<char>, word: Seq<char>, behind: Seq<char>)
    requires
        forall|i: int| 0 <= i < lead.len() ==> is_space(#[trigger] lead[i]),
        forall|i: int| 0 <= i < word.len() ==> !is_space(#[trigger] word[i]),
        behind.len() > 0 ==> is_space(behind[0]),
    ensures
        ({
            let input = lead + "/"@ + word + behind;
            let rest = word + behind;
            &&& word.len() > 0 && word[0] == '/' ==> behind_slash(input) is None
            &&& !(word.len() > 0 && word[0] == '/') ==> behind_slash(input) == Some(rest)
            &&& space_at(rest) == word.len()
            &&& rest.take(word.len() as int) == word
            &&& behind.len() > 0 ==> rest.skip(word.len() as int + 1) == behind.skip(1)
        }),
{
    reveal_strlit("/");
    let input = lead + "/"@ + word + behind;
    let rest = word + behind;
    let t = "/"@ + rest;
    assert(input =~= lead + t);
    assert(t[0] == '/');
    lemma_lead_off(lead, t);
    lemma_space_behind(word, behind);
    assert(t.skip(1) =~= rest);
    assert(rest.take(word.len() as int) =~= word);
    if rest.len() > 0 {
        assert(t[1] == rest[0]);
        if word.len() == 0 {
            assert(rest[0] == behind[0]);
        } else {
            assert(rest[0] == word[0]);
        }
    }
    if behind.len() > 0 {
        assert(rest.skip(word.len() as int + 1) =~= behind.skip(1));
    }
}

/// A name is made of the ASCII letters and digits, the underscore, the hyphen, the colon and the
/// dot.
pub proof fn law_names_are_made_of_plain_characters(c: char)
    ensures
        ({
            let n = c as int;
            in_name(c) <==> (48 <= n <= 57 || 65 <= n <= 90 || 97 <= n <= 122 || c == '_' || c == '-'
                || c == ':' || c == '.')
        }),
{
}

/// A command is a slash, which white space may stand before, and its name; its arguments are what
/// stands behind the white space after the name, without white space around them. While it is
/// typed, the name is completed until there is white space behind it, and then the arguments.
pub proof fn law_command_is_a_name_and_arguments(
    lead: Seq<char>,
    name: Seq<char>,
    gap: char,
    args: Seq<char>,
)
    requires
        forall|i: int| 0 <= i < lead.len() ==> is_space(#[trigger] lead[i]),
        forall|i: int| 0 <= i < name.len() ==> in_name(#[trigger] name[i]),
        name.len() > 0,
        is_space(gap),
    ensures
        parsed(lead + "/"@ + name) == Some((name, Seq::<char>::empty())),
        parsed(lead + "/"@ + name + (seq![gap] + args)) == Some((name, trim_of(args))),
        popup(lead + "/"@) == Some(PopupView::Name(Seq::empty())),
        popup(lead + "/"@ + name) == Some(PopupView::Name(name)),
        popup(lead + "/"@ + name + (seq![gap] + args)) == Some(
            PopupView::Arg { name, prefix: trim_start_of(args) },
        ),
{
    let none = Seq::<char>::empty();
    lemma_split(lead, name, none);
    lemma_split(lead, name, seq![gap] + args);
    lemma_split(lead, none, none);
    assert(lead + "/"@ + name + none =~= lead + "/"@ + name);
    assert(lead + "/"@ + none + none =~= lead + "/"@);
    assert(name + none =~= name);
    assert(none + none =~= none);
    assert((seq![gap] + args).skip(1) =~= args);
    assert(is_name_text(name));
    assert(in_name(name[0]));
}

/// A word that has something else in it is no name, and what begins with it no command; nor is a
/// slash with nothing behind it.
pub proof fn law_other_words_are_no_names(
    lead: Seq<char>,
    word: Seq<char>,
    behind: Seq<char>,
    k: int,
)
    requires
        forall|i: int| 0 <= i < lead.len() ==> is_space(#[trigger] lead[i]),
        forall|i: int| 0 <= i < word.len() ==> !is_space(#[trigger] word[i]),
        behind.len() > 0 ==> is_space(behind[0]),
    ensures
        0 <= k < word.len() && !in_name(word[k]) ==> parsed(lead + "/"@ + word + behind) is None
            && popup(lead + "/"@ + word + behind) is None,
        parsed(lead + "/"@ + behind) is None,
{
    let none = Seq::<char>::empty();
    lemma_split(lead, word, behind);
    lemma_split(lead, none, behind);
    assert(lead + "/"@ + none + behind =~= lead + "/"@ + behind);
}

} // verus!
