//! Columns that text takes on a terminal.

use vstd::prelude::*;
use vstd::string::*;

use crate::text::{chars_of, ELLIPSIS, ELLIPSIS_WIDTH};

verus! {

/// The columns that a text takes.
pub uninterp spec fn str_width(s: Seq<char>) -> usize;

/// `unicode_width::UnicodeWidthStr::width`. The width is named, not described.
#[verifier::external_body]
pub(crate) fn width_of(s: &str) -> (r: usize)
    ensures
        r == str_width(s@),
{
    unicode_width::UnicodeWidthStr::width(s)
}

/// The columns that a character takes by itself, or nothing for a control character.
pub uninterp spec fn char_width(c: char) -> Option<usize>;

/// `unicode_width::UnicodeWidthChar::width`. The width is named, not described.
#[verifier::external_body]
fn width_of_char(c: char) -> (r: Option<usize>)
    ensures
        r == char_width(c),
{
    unicode_width::UnicodeWidthChar::width(c)
}

/// The columns that a character counts for: a control character counts for none.
pub open spec fn columns(c: char) -> nat {
    match char_width(c) {
        Some(w) => w as nat,
        None => 0,
    }
}

/// The columns that the characters of `s` count for.
pub open spec fn total_columns(s: Seq<char>) -> nat
    decreases s.len(),
{
    if s.len() == 0 {
        0
    } else {
        columns(s[0]) + total_columns(s.drop_first())
    }
}

/// The number of leading characters of `s` that fit into `limit` columns.
pub open spec fn fitting(s: Seq<char>, limit: nat) -> nat
    decreases s.len(),
{
    if s.len() == 0 || columns(s[0]) > limit {
        0
    } else {
        1 + fitting(s.drop_first(), (limit - columns(s[0])) as nat)
    }
}

/// `s` where it fits into `max` columns; else what fits before an ellipsis, and the ellipsis.
pub open spec fn truncated_to_width(s: Seq<char>, max: nat) -> Seq<char> {
    if str_width(s) <= max {
        s
    } else {
        let limit = if max < ELLIPSIS_WIDTH {
            0
        } else {
            (max - ELLIPSIS_WIDTH) as nat
        };
        s.take(fitting(s, limit) as int) + ELLIPSIS@
    }
}

proof fn lemma_fitting(s: Seq<char>, limit: nat)
    ensures
        fitting(s, limit) <= s.len(),
        total_columns(s.take(fitting(s, limit) as int)) <= limit,
    decreases s.len(),
{
    if s.len() > 0 && columns(s[0]) <= limit {
        let t = s.drop_first();
        let rest = (limit - columns(s[0])) as nat;
        lemma_fitting(t, rest);
        let n = fitting(s, limit) as int;
        assert(s.take(n).drop_first() =~= t.take(n - 1));
    } else {
        assert(s.take(0) =~= Seq::empty());
    }
}

/// Cuts `s` to `max` columns, the ellipsis included.
pub fn truncate_to_width(s: &str, max: usize) -> (r: String)
    ensures
        r@ == truncated_to_width(s@, max as nat),
{
    if width_of(s) <= max {
        return s.to_owned();
    }
    let limit: usize = if max < ELLIPSIS_WIDTH {
        0
    } else {
        max - ELLIPSIS_WIDTH
    };
    let cs: Vec<char> = chars_of(s);
    let mut i: usize = 0;
    let mut left: usize = limit;
    assert(s@.skip(0) =~= s@);
    while i < cs.len()
        invariant_except_break
            i <= cs.len(),
            cs@ == s@,
            fitting(s@, limit as nat) == i + fitting(s@.skip(i as int), left as nat),
        ensures
            i <= s@.len(),
            i == fitting(s@, limit as nat),
        decreases cs.len() - i,
    {
        let w: usize = match width_of_char(cs[i]) {
            Some(w) => w,
            None => 0,
        };
        assert(s@.skip(i as int)[0] == cs@[i as int]);
        if w > left {
            break;
        }
        assert(s@.skip(i as int).drop_first() =~= s@.skip(i as int + 1));
        left = left - w;
        i = i + 1;
    }
    let mut out: String = s.substring_char(0, i).to_owned();
    assert(s@.subrange(0, i as int) =~= s@.take(i as int));
    out.append(ELLIPSIS);
    out
}

/// What is kept of a text that is cut fits beside the ellipsis, character by character.
pub proof fn law_truncated_fits(s: Seq<char>, max: nat)
    requires
        max >= ELLIPSIS_WIDTH,
        str_width(s) > max,
    ensures
        exists|n: int|
            0 <= n <= s.len() && truncated_to_width(s, max) == #[trigger] s.take(n) + ELLIPSIS@
                && total_columns(s.take(n)) + ELLIPSIS_WIDTH <= max,
{
    let limit = (max - ELLIPSIS_WIDTH) as nat;
    lemma_fitting(s, limit);
    assert(truncated_to_width(s, max) == s.take(fitting(s, limit) as int) + ELLIPSIS@);
}

proof fn lemma_fitting_is_most(s: Seq<char>, limit: nat)
    ensures
        fitting(s, limit) < s.len() ==> total_columns(s.take(fitting(s, limit) as int + 1)) > limit,
    decreases s.len(),
{
    if s.len() > 0 {
        if columns(s[0]) <= limit {
            let t = s.drop_first();
            let rest = (limit - columns(s[0])) as nat;
            lemma_fitting_is_most(t, rest);
            let n = fitting(s, limit) as int;
            if n < s.len() {
                assert(s.take(n + 1).drop_first() =~= t.take(n));
            }
        } else {
            assert(s.take(1).drop_first() =~= Seq::empty());
        }
    }
}

/// A text that fits is left as it is. Of one that does not, as many characters are kept as fit
/// beside the ellipsis: with one more it would be too wide.
pub proof fn law_truncated_keeps_as_much_as_fits(s: Seq<char>, max: nat)
    ensures
        str_width(s) <= max ==> truncated_to_width(s, max) == s,
        str_width(s) > max ==> exists|n: int|
            0 <= n <= s.len() && truncated_to_width(s, max) == #[trigger] s.take(n) + "..."@ && (n
                < s.len() ==> total_columns(s.take(n + 1)) + 3 > max),
{
    let limit = if max < ELLIPSIS_WIDTH {
        0
    } else {
        (max - ELLIPSIS_WIDTH) as nat
    };
    lemma_fitting(s, limit);
    lemma_fitting_is_most(s, limit);
    if str_width(s) > max {
        let n = fitting(s, limit) as int;
        assert(truncated_to_width(s, max) == s.take(n) + "..."@);
    }
}

} // verus!
