//! Text as sequences of characters: trimming, searching, joining, ASCII case and
//! decimal numerals, each stated over the characters of a string.

use vstd::prelude::*;
use vstd::string::*;
use vstd::utf8::{char_is_scalar, decode_utf8, encode_scalar, encode_utf8, valid_utf8};

verus! {

// ── White space ──

/// The characters with the Unicode `White_Space` property.
pub open spec fn is_space(c: char) -> bool {
    ||| '\u{9}' <= c <= '\u{d}'
    ||| c == ' '
    ||| c == '\u{85}'
    ||| c == '\u{a0}'
    ||| c == '\u{1680}'
    ||| '\u{2000}' <= c <= '\u{200a}'
    ||| c == '\u{2028}'
    ||| c == '\u{2029}'
    ||| c == '\u{202f}'
    ||| c == '\u{205f}'
    ||| c == '\u{3000}'
}

/// Whether `c` is white space.
pub fn is_white_space(c: char) -> (r: bool)
    ensures
        r == is_space(c),
{
    ('\u{9}' <= c && c <= '\u{d}') || c == ' ' || c == '\u{85}' || c == '\u{a0}' || c == '\u{1680}'
        || ('\u{2000}' <= c && c <= '\u{200a}') || c == '\u{2028}' || c == '\u{2029}' || c
        == '\u{202f}' || c == '\u{205f}' || c == '\u{3000}'
}

/// `s` without its leading white space.
pub open spec fn trim_start_of(s: Seq<char>) -> Seq<char>
    decreases s.len(),
{
    if s.len() > 0 && is_space(s[0]) {
        trim_start_of(s.drop_first())
    } else {
        s
    }
}

/// `s` without its trailing white space.
pub open spec fn trim_end_of(s: Seq<char>) -> Seq<char>
    decreases s.len(),
{
    if s.len() > 0 && is_space(s.last()) {
        trim_end_of(s.drop_last())
    } else {
        s
    }
}

/// `s` without its leading and trailing white space.
pub open spec fn trim_of(s: Seq<char>) -> Seq<char> {
    trim_end_of(trim_start_of(s))
}

/// Whether `s` holds nothing but white space.
pub open spec fn is_blank(s: Seq<char>) -> bool {
    trim_of(s).len() == 0
}

proof fn lemma_trim_start_space(s: Seq<char>)
    ensures
        trim_start_of(s).len() == 0 <==> (forall|k: int|
            0 <= k < s.len() ==> is_space(#[trigger] s[k])),
        trim_start_of(s).len() > 0 ==> !is_space(trim_start_of(s)[0]),
    decreases s.len(),
{
    if s.len() > 0 && is_space(s[0]) {
        let t = s.drop_first();
        lemma_trim_start_space(t);
        assert(forall|k: int| 0 <= k < t.len() ==> t[k] == #[trigger] s[k + 1]);
        if forall|k: int| 0 <= k < t.len() ==> is_space(#[trigger] t[k]) {
            assert forall|k: int| 0 <= k < s.len() implies is_space(#[trigger] s[k]) by {
                if k > 0 {
                    assert(is_space(t[k - 1]));
                }
            }
        } else {
            let k = choose|k: int| 0 <= k < t.len() && !is_space(#[trigger] t[k]);
            assert(!is_space(s[k + 1]));
        }
    }
}

proof fn lemma_trim_end_keeps(s: Seq<char>)
    requires
        s.len() > 0,
        !is_space(s[0]),
    ensures
        trim_end_of(s).len() > 0,
    decreases s.len(),
{
    if is_space(s.last()) {
        lemma_trim_end_keeps(s.drop_last());
    }
}

/// A blank text is one whose characters are all white space.
pub proof fn lemma_blank(s: Seq<char>)
    ensures
        is_blank(s) <==> (forall|k: int| 0 <= k < s.len() ==> is_space(#[trigger] s[k])),
{
    lemma_trim_start_space(s);
    if trim_start_of(s).len() > 0 {
        lemma_trim_end_keeps(trim_start_of(s));
    }
}

/// Removes leading white space.
pub fn trim_start(s: &str) -> (r: &str)
    ensures
        r@ == trim_start_of(s@),
{
    let cs: Vec<char> = chars_of(s);
    let mut i: usize = 0;
    assert(s@.skip(0) =~= s@);
    while i < cs.len() && is_white_space(cs[i])
        invariant
            i <= cs.len(),
            cs@ == s@,
            trim_start_of(s@) == trim_start_of(s@.skip(i as int)),
        decreases cs.len() - i,
    {
        assert(s@.skip(i as int).drop_first() =~= s@.skip(i as int + 1));
        i = i + 1;
    }
    let n: usize = cs.len();
    assert(s@.subrange(i as int, n as int) =~= s@.skip(i as int));
    s.substring_char(i, n)
}

/// Removes trailing white space.
pub fn trim_end(s: &str) -> (r: &str)
    ensures
        r@ == trim_end_of(s@),
{
    let cs: Vec<char> = chars_of(s);
    let mut n: usize = cs.len();
    assert(s@.take(n as int) =~= s@);
    while n > 0 && is_white_space(cs[n - 1])
        invariant
            n <= cs.len(),
            cs@ == s@,
            trim_end_of(s@) == trim_end_of(s@.take(n as int)),
        decreases n,
    {
        assert(s@.take(n as int).drop_last() =~= s@.take(n as int - 1));
        n = n - 1;
    }
    assert(s@.subrange(0, n as int) =~= s@.take(n as int));
    s.substring_char(0, n)
}

/// Removes leading and trailing white space.
pub fn trim(s: &str) -> (r: &str)
    ensures
        r@ == trim_of(s@),
{
    trim_end(trim_start(s))
}

// ── Characters and strings ──

/// `String::push` of std: the string grows by the one character, at its end.
pub assume_specification[ String::push ](s: &mut String, c: char)
    ensures
        final(s)@ == old(s)@.push(c),
;

/// The characters of `s`, in order.
pub fn chars_of(s: &str) -> (r: Vec<char>)
    ensures
        r@ == s@,
{
    let mut out: Vec<char> = Vec::new();
    for c in it: s.chars()
        invariant
            out@ =~= s@.take(it.index()),
            it.seq() == s@,
    {
        out.push(c);
    }
    assert(s@.take(s@.len() as int) =~= s@);
    out
}

/// The string made of the characters of `cs`.
pub fn string_of(cs: &[char]) -> (r: String)
    ensures
        r@ == cs@,
{
    let mut out: String = String::new();
    let mut i: usize = 0;
    while i < cs.len()
        invariant
            i <= cs.len(),
            out@ =~= cs@.take(i as int),
        decreases cs.len() - i,
    {
        out.push(cs[i]);
        i = i + 1;
    }
    assert(cs@.take(cs@.len() as int) =~= cs@);
    out
}

/// A copy of a string slice.
pub fn owned(s: &str) -> (r: String)
    ensures
        r@ == s@,
{
    s.to_owned()
}

/// Whether two strings hold the same characters.
pub fn str_eq(a: &str, b: &str) -> (r: bool)
    ensures
        r == (a@ == b@),
{
    let x: Vec<char> = chars_of(a);
    let y: Vec<char> = chars_of(b);
    if x.len() != y.len() {
        return false;
    }
    let mut i: usize = 0;
    while i < x.len()
        invariant
            i <= x.len(),
            x.len() == y.len(),
            x@ == a@,
            y@ == b@,
            forall|k: int| 0 <= k < i ==> x@[k] == y@[k],
        decreases x.len() - i,
    {
        if x[i] != y[i] {
            return false;
        }
        i = i + 1;
    }
    assert(a@ =~= b@);
    true
}

// ── Searching ──

/// Whether `s` begins with `p`.
pub open spec fn starts_with(s: Seq<char>, p: Seq<char>) -> bool {
    p.len() <= s.len() && s.take(p.len() as int) == p
}

/// Whether `s` ends with `p`.
pub open spec fn ends_with(s: Seq<char>, p: Seq<char>) -> bool {
    p.len() <= s.len() && s.skip(s.len() - p.len()) == p
}

/// Whether `p` stands in `s` at position `i`.
pub open spec fn occurs_at(s: Seq<char>, p: Seq<char>, i: int) -> bool {
    0 <= i && i + p.len() <= s.len() && s.subrange(i, i + p.len()) == p
}

/// Whether `p` stands somewhere in `s`.
pub open spec fn contains(s: Seq<char>, p: Seq<char>) -> bool {
    exists|i: int| occurs_at(s, p, i)
}

/// Whether `p` stands in `s` at `i`, where there is room for it.
fn matches_at(s: &Vec<char>, p: &Vec<char>, i: usize) -> (r: bool)
    requires
        i + p.len() <= s.len(),
    ensures
        r == occurs_at(s@, p@, i as int),
{
    let mut k: usize = 0;
    while k < p.len()
        invariant
            k <= p.len(),
            i + p.len() <= s.len(),
            forall|j: int| 0 <= j < k ==> s@[i + j] == p@[j],
        decreases p.len() - k,
    {
        if s[i + k] != p[k] {
            assert(s@.subrange(i as int, i + p.len())[k as int] != p@[k as int]);
            return false;
        }
        k = k + 1;
    }
    assert(s@.subrange(i as int, i + p.len()) =~= p@);
    true
}

/// Whether `s` begins with `p`.
pub fn has_prefix(s: &str, p: &str) -> (r: bool)
    ensures
        r == starts_with(s@, p@),
{
    let x: Vec<char> = chars_of(s);
    let y: Vec<char> = chars_of(p);
    assert(p@.len() <= s@.len() ==> s@.take(p@.len() as int) =~= s@.subrange(0, p@.len() as int));
    y.len() <= x.len() && matches_at(&x, &y, 0)
}

/// Whether `s` ends with `p`.
pub fn has_suffix(s: &str, p: &str) -> (r: bool)
    ensures
        r == ends_with(s@, p@),
{
    let x: Vec<char> = chars_of(s);
    let y: Vec<char> = chars_of(p);
    assert(p@.len() <= s@.len() ==> s@.skip(s@.len() - p@.len()) =~= s@.subrange(
        s@.len() - p@.len(),
        s@.len() as int,
    ));
    y.len() <= x.len() && matches_at(&x, &y, x.len() - y.len())
}

/// Whether `p` stands somewhere in `s`.
pub fn has_substring(s: &str, p: &str) -> (r: bool)
    ensures
        r == contains(s@, p@),
{
    let x: Vec<char> = chars_of(s);
    let y: Vec<char> = chars_of(p);
    if y.len() > x.len() {
        return false;
    }
    let last: usize = x.len() - y.len();
    let mut i: usize = 0;
    while i <= last
        invariant
            x@ == s@,
            y@ == p@,
            last + y.len() == x.len(),
            i <= last + 1,
            forall|k: int| 0 <= k < i ==> !occurs_at(s@, p@, k),
        decreases last + 1 - i,
    {
        if matches_at(&x, &y, i) {
            return true;
        }
        if i == last {
            return false;
        }
        i = i + 1;
    }
    false
}

/// Whether the character `c` stands in `s`.
pub fn has_char(s: &str, c: char) -> (r: bool)
    ensures
        r == s@.contains(c),
{
    let x: Vec<char> = chars_of(s);
    let mut i: usize = 0;
    while i < x.len()
        invariant
            i <= x.len(),
            x@ == s@,
            forall|k: int| 0 <= k < i ==> x@[k] != c,
        decreases x.len() - i,
    {
        if x[i] == c {
            assert(s@[i as int] == c);
            return true;
        }
        i = i + 1;
    }
    false
}

/// The position of the first `c` in `s`, or the length of `s` where it holds none.
pub open spec fn index_of(s: Seq<char>, c: char) -> int
    decreases s.len(),
{
    if s.len() == 0 || s[0] == c {
        0
    } else {
        1 + index_of(s.drop_first(), c)
    }
}

/// What `index_of` finds: nothing before it is `c`, and it is `c` or the end.
pub proof fn lemma_index_of(s: Seq<char>, c: char)
    ensures
        0 <= index_of(s, c) <= s.len(),
        index_of(s, c) < s.len() ==> s[index_of(s, c)] == c,
        forall|k: int| 0 <= k < index_of(s, c) ==> s[k] != c,
    decreases s.len(),
{
    if s.len() > 0 && s[0] != c {
        let t = s.drop_first();
        lemma_index_of(t, c);
        assert forall|k: int| 0 <= k < index_of(s, c) implies s[k] != c by {
            if k > 0 {
                assert(s[k] == t[k - 1]);
            }
        }
    }
}

/// The position of the first `c` in `cs`, or the length of `cs` where it holds none.
pub fn position(cs: &Vec<char>, c: char) -> (r: usize)
    ensures
        r == index_of(cs@, c),
        r <= cs.len(),
{
    proof {
        lemma_index_of(cs@, c);
    }
    let mut i: usize = 0;
    while i < cs.len() && cs[i] != c
        invariant
            i <= cs.len(),
            forall|k: int| 0 <= k < i ==> cs@[k] != c,
        decreases cs.len() - i,
    {
        i = i + 1;
    }
    i
}

/// `s` without the `c`s at its end.
pub open spec fn strip_end_of(s: Seq<char>, c: char) -> Seq<char>
    decreases s.len(),
{
    if s.len() > 0 && s.last() == c {
        strip_end_of(s.drop_last(), c)
    } else {
        s
    }
}

/// `s` without the `c`s at its end.
pub fn strip_end(s: &str, c: char) -> (r: &str)
    ensures
        r@ == strip_end_of(s@, c),
{
    let cs: Vec<char> = chars_of(s);
    let mut n: usize = cs.len();
    assert(s@.take(n as int) =~= s@);
    while n > 0 && cs[n - 1] == c
        invariant
            n <= cs.len(),
            cs@ == s@,
            strip_end_of(s@, c) == strip_end_of(s@.take(n as int), c),
        decreases n,
    {
        assert(s@.take(n as int).drop_last() =~= s@.take(n as int - 1));
        n = n - 1;
    }
    assert(s@.subrange(0, n as int) =~= s@.take(n as int));
    s.substring_char(0, n)
}

// ── ASCII case ──

/// `c` with an ASCII capital made small.
pub open spec fn lower_char(c: char) -> char {
    if 'A' <= c <= 'Z' {
        (c as int + 32) as char
    } else {
        c
    }
}

/// `s` with its ASCII capitals made small.
pub open spec fn lower(s: Seq<char>) -> Seq<char> {
    s.map_values(|c: char| lower_char(c))
}

/// `c` with a small ASCII letter made a capital.
pub open spec fn upper_char(c: char) -> char {
    if 'a' <= c <= 'z' {
        (c as int - 32) as char
    } else {
        c
    }
}

/// `s` with its small ASCII letters made capitals.
pub open spec fn upper(s: Seq<char>) -> Seq<char> {
    s.map_values(|c: char| upper_char(c))
}

/// Capitals made small again are what they were before they were made.
pub proof fn lemma_lower_upper(s: Seq<char>)
    ensures
        lower(upper(s)) == lower(s),
        lower(lower(s)) == lower(s),
{
    assert(lower(upper(s)) =~= lower(s));
    assert(lower(lower(s)) =~= lower(s));
}

/// `c` with an ASCII capital made small.
pub fn to_lower_char(c: char) -> (r: char)
    ensures
        r == lower_char(c),
{
    if 'A' <= c && c <= 'Z' {
        (c as u8 + 32) as char
    } else {
        c
    }
}

/// `s` with its ASCII capitals made small.
pub fn to_lower(s: &str) -> (r: String)
    ensures
        r@ == lower(s@),
{
    let cs: Vec<char> = chars_of(s);
    let mut out: String = String::new();
    let mut i: usize = 0;
    while i < cs.len()
        invariant
            i <= cs.len(),
            cs@ == s@,
            out@ =~= lower(s@).take(i as int),
        decreases cs.len() - i,
    {
        out.push(to_lower_char(cs[i]));
        i = i + 1;
    }
    assert(lower(s@).take(s@.len() as int) =~= lower(s@));
    out
}

/// `c` is an ASCII letter or digit.
pub open spec fn is_alnum(c: char) -> bool {
    'a' <= c <= 'z' || 'A' <= c <= 'Z' || '0' <= c <= '9'
}

/// Whether `c` is an ASCII letter or digit.
pub fn is_alphanumeric(c: char) -> (r: bool)
    ensures
        r == is_alnum(c),
{
    ('a' <= c && c <= 'z') || ('A' <= c && c <= 'Z') || ('0' <= c && c <= '9')
}

/// `s`, followed by as many spaces as bring it to `n` characters.
pub open spec fn padded(s: Seq<char>, n: nat) -> Seq<char> {
    if s.len() < n {
        s + repeated(' ', (n - s.len()) as nat)
    } else {
        s
    }
}

/// Appends `s`, followed by as many spaces as bring it to `n` characters.
pub fn push_padded(out: &mut String, s: &str, n: usize)
    ensures
        final(out)@ == old(out)@ + padded(s@, n as nat),
{
    let have: usize = s.unicode_len();
    out.append(s);
    if have < n {
        push_repeated(out, ' ', n - have);
        assert(out@ =~= old(out)@ + padded(s@, n as nat));
    }
}

// ── Joining ──

/// The parts of `parts`, one after the other, with `sep` between them.
pub open spec fn join(parts: Seq<Seq<char>>, sep: Seq<char>) -> Seq<char>
    decreases parts.len(),
{
    if parts.len() == 0 {
        Seq::empty()
    } else if parts.len() == 1 {
        parts[0]
    } else {
        join(parts.drop_last(), sep) + sep + parts.last()
    }
}

/// The characters of each string of `v`.
pub open spec fn views(v: Seq<String>) -> Seq<Seq<char>> {
    v.map_values(|s: String| s@)
}

/// The strings of `parts`, one after the other, with `sep` between them.
pub fn joined(parts: &Vec<String>, sep: &str) -> (r: String)
    ensures
        r@ == join(views(parts@), sep@),
{
    let mut out: String = String::new();
    let mut i: usize = 0;
    while i < parts.len()
        invariant
            i <= parts.len(),
            out@ == join(views(parts@).take(i as int), sep@),
        decreases parts.len() - i,
    {
        let ghost next = views(parts@).take(i as int + 1);
        assert(next.drop_last() =~= views(parts@).take(i as int));
        if i > 0 {
            out.append(sep);
        }
        out.append(parts[i].as_str());
        i = i + 1;
    }
    assert(views(parts@).take(parts@.len() as int) =~= views(parts@));
    out
}

// ── UTF-8 ──

/// `std::str::from_utf8`: the text of `bytes` where they are UTF-8, nothing where they are not.
#[verifier::external_body]
pub(crate) fn utf8_text(bytes: &[u8]) -> (r: Option<&str>)
    ensures
        r is Some <==> valid_utf8(bytes@),
        r matches Some(s) ==> s@ == decode_utf8(bytes@),
{
    std::str::from_utf8(bytes).ok()
}

/// The bytes that `c` takes in UTF-8.
pub open spec fn utf8_len(c: char) -> nat {
    if (c as u32) < 0x80 {
        1
    } else if (c as u32) < 0x800 {
        2
    } else if (c as u32) < 0x1_0000 {
        3
    } else {
        4
    }
}

/// The bytes that `c` takes in UTF-8.
pub fn len_utf8(c: char) -> (r: usize)
    ensures
        r == utf8_len(c),
        1 <= r <= 4,
{
    let u: u32 = c as u32;
    if u < 0x80 {
        1
    } else if u < 0x800 {
        2
    } else if u < 0x1_0000 {
        3
    } else {
        4
    }
}

/// The bytes that `s` takes in UTF-8.
pub open spec fn byte_len(s: Seq<char>) -> nat
    decreases s.len(),
{
    if s.len() == 0 {
        0
    } else {
        byte_len(s.drop_last()) + utf8_len(s.last())
    }
}

/// The first character's bytes come first.
proof fn lemma_byte_len_first(s: Seq<char>)
    requires
        s.len() > 0,
    ensures
        byte_len(s) == utf8_len(s[0]) + byte_len(s.drop_first()),
    decreases s.len(),
{
    if s.len() > 1 {
        lemma_byte_len_first(s.drop_last());
        assert(s.drop_last().drop_first() =~= s.drop_first().drop_last());
    } else {
        assert(s.drop_last() =~= Seq::empty());
        assert(s.drop_first() =~= Seq::empty());
    }
}

/// The bytes that a text takes are those of its UTF-8 encoding.
pub proof fn lemma_byte_len_is_utf8(s: Seq<char>)
    ensures
        byte_len(s) == encode_utf8(s).len(),
    decreases s.len(),
{
    if s.len() > 0 {
        lemma_byte_len_first(s);
        lemma_byte_len_is_utf8(s.drop_first());
        char_is_scalar(s[0]);
        assert(encode_scalar(s[0] as u32).len() == utf8_len(s[0]));
    }
}

/// The bytes of two texts together.
pub proof fn lemma_byte_len_add(a: Seq<char>, b: Seq<char>)
    ensures
        byte_len(a + b) == byte_len(a) + byte_len(b),
    decreases b.len(),
{
    if b.len() > 0 {
        lemma_byte_len_add(a, b.drop_last());
        assert((a + b).drop_last() =~= a + b.drop_last());
    } else {
        assert(a + b =~= a);
    }
}

/// The bytes that `s` takes in UTF-8.
pub fn byte_len_of(s: &str) -> (r: usize)
    ensures
        r == byte_len(s@),
{
    proof {
        lemma_byte_len_is_utf8(s@);
    }
    s.as_bytes().len()
}

/// A text takes at least one byte for each character.
pub proof fn lemma_byte_len(s: Seq<char>)
    ensures
        byte_len(s) >= s.len(),
    decreases s.len(),
{
    if s.len() > 0 {
        lemma_byte_len(s.drop_last());
    }
}

/// The first `n` bytes of `s`, where they are whole characters of it.
pub open spec fn byte_prefix(s: Seq<char>, n: nat) -> Option<Seq<char>>
    decreases s.len(),
{
    if n == 0 {
        Some(Seq::empty())
    } else if s.len() == 0 || utf8_len(s[0]) > n {
        None
    } else {
        match byte_prefix(s.drop_first(), (n - utf8_len(s[0])) as nat) {
            Some(p) => Some(seq![s[0]] + p),
            None => None,
        }
    }
}

/// The first `n` bytes of `s`, where they are whole characters of it.
pub fn cut_bytes(s: &str, n: usize) -> (r: Option<&str>)
    ensures
        r is Some <==> byte_prefix(s@, n as nat) is Some,
        r matches Some(p) ==> byte_prefix(s@, n as nat) == Some(p@),
{
    let cs: Vec<char> = chars_of(s);
    let mut i: usize = 0;
    let mut left: usize = n;
    assert(s@.skip(0) =~= s@);
    proof {
        lemma_cut_step(s@, n as nat, 0, n as nat);
    }
    while i < cs.len() && left > 0
        invariant
            i <= cs.len(),
            cs@ == s@,
            byte_prefix(s@, n as nat) == cut_from(s@, i as int, left as nat),
        decreases cs.len() - i,
    {
        let w: usize = len_utf8(cs[i]);
        assert(s@.skip(i as int)[0] == cs@[i as int]);
        if w > left {
            return None;
        }
        proof {
            assert(s@.skip(i as int).drop_first() =~= s@.skip(i as int + 1));
            match byte_prefix(s@.skip(i as int + 1), (left - w) as nat) {
                Some(p) => {
                    assert(s@.take(i as int) + (seq![s@[i as int]] + p) =~= s@.take(i as int + 1)
                        + p);
                },
                None => {},
            }
        }
        left = left - w;
        i = i + 1;
    }
    if left > 0 {
        None
    } else {
        assert(s@.subrange(0, i as int) =~= s@.take(i as int) + Seq::<char>::empty());
        Some(s.substring_char(0, i))
    }
}

/// What the first `left` bytes behind character `i` make the prefix.
spec fn cut_from(s: Seq<char>, i: int, left: nat) -> Option<Seq<char>> {
    match byte_prefix(s.skip(i), left) {
        Some(p) => Some(s.take(i) + p),
        None => None,
    }
}

proof fn lemma_cut_step(s: Seq<char>, n: nat, i: int, left: nat)
    requires
        i == 0,
        left == n,
    ensures
        byte_prefix(s, n) == cut_from(s, i, left),
{
    assert(s.skip(0) =~= s);
    match byte_prefix(s, n) {
        Some(p) => {
            assert(s.take(0) + p =~= p);
        },
        None => {},
    }
}

// ── Order ──

/// Whether `a` comes before `b`, character by character.
pub open spec fn lex_less(a: Seq<char>, b: Seq<char>) -> bool
    decreases a.len(),
{
    if b.len() == 0 {
        false
    } else if a.len() == 0 {
        true
    } else if a[0] == b[0] {
        lex_less(a.drop_first(), b.drop_first())
    } else {
        a[0] < b[0]
    }
}

/// Whether `a` comes before `b`, character by character.
pub fn str_less(a: &str, b: &str) -> (r: bool)
    ensures
        r == lex_less(a@, b@),
{
    let x: Vec<char> = chars_of(a);
    let y: Vec<char> = chars_of(b);
    let mut i: usize = 0;
    assert(a@.skip(0) =~= a@);
    assert(b@.skip(0) =~= b@);
    while i < x.len() && i < y.len() && x[i] == y[i]
        invariant
            i <= x.len(),
            i <= y.len(),
            x@ == a@,
            y@ == b@,
            lex_less(a@, b@) == lex_less(a@.skip(i as int), b@.skip(i as int)),
        decreases x.len() - i,
    {
        assert(a@.skip(i as int).drop_first() =~= a@.skip(i as int + 1));
        assert(b@.skip(i as int).drop_first() =~= b@.skip(i as int + 1));
        i = i + 1;
    }
    if i >= y.len() {
        false
    } else if i >= x.len() {
        true
    } else {
        x[i] < y[i]
    }
}

/// Nothing comes before itself, and what comes before comes before what follows.
pub proof fn lemma_lex_order(a: Seq<char>, b: Seq<char>, c: Seq<char>)
    ensures
        !lex_less(a, a),
        lex_less(a, b) && lex_less(b, c) ==> lex_less(a, c),
        lex_less(a, b) || lex_less(b, a) || a == b,
    decreases a.len() + b.len() + c.len(),
{
    if a.len() > 0 && b.len() > 0 {
        let c1 = if c.len() > 0 {
            c.drop_first()
        } else {
            c
        };
        lemma_lex_order(a.drop_first(), b.drop_first(), c1);
        if a[0] == b[0] && a.drop_first() == b.drop_first() {
            assert(a =~= seq![a[0]] + a.drop_first());
            assert(b =~= seq![b[0]] + b.drop_first());
        }
    } else if a.len() > 0 {
        lemma_lex_order(a.drop_first(), b, c);
    } else if b.len() == 0 {
        assert(a =~= b);
    }
}

// ── Lines and ellipses ──

/// What stands for text that was cut off.
pub const ELLIPSIS: &'static str = "...";

/// The columns that [`ELLIPSIS`] takes.
pub const ELLIPSIS_WIDTH: usize = 3;

/// `s` up to its first line feed.
pub open spec fn first_line_of(s: Seq<char>) -> Seq<char> {
    s.take(index_of(s, '\n'))
}

/// `s` up to its first line feed.
pub fn first_line(s: &str) -> (r: &str)
    ensures
        r@ == first_line_of(s@),
{
    let cs: Vec<char> = chars_of(s);
    let n: usize = position(&cs, '\n');
    assert(s@.subrange(0, n as int) =~= s@.take(n as int));
    s.substring_char(0, n)
}

/// `s` where it has at most `max` characters; else as many of its first characters as leave
/// room for an ellipsis within `max`, and the ellipsis.
pub open spec fn ellipsized(s: Seq<char>, max: nat) -> Seq<char> {
    if s.len() <= max {
        s
    } else {
        s.take(max - ELLIPSIS_WIDTH) + ELLIPSIS@
    }
}

/// Cuts `s` to `max` characters, the ellipsis included.
pub fn ellipsize(s: &str, max: usize) -> (r: String)
    requires
        max >= ELLIPSIS_WIDTH,
    ensures
        r@ == ellipsized(s@, max as nat),
{
    if s.unicode_len() <= max {
        s.to_owned()
    } else {
        let keep: usize = max - ELLIPSIS_WIDTH;
        let mut out: String = s.substring_char(0, keep).to_owned();
        assert(s@.subrange(0, keep as int) =~= s@.take(keep as int));
        out.append(ELLIPSIS);
        out
    }
}

/// Cutting never leaves more than `max` characters, and leaves shorter text as it is.
pub proof fn law_ellipsized_fits(s: Seq<char>, max: nat)
    requires
        max >= ELLIPSIS_WIDTH,
    ensures
        ellipsized(s, max).len() <= max,
        s.len() <= max ==> ellipsized(s, max) == s,
{
    reveal_strlit("...");
}

// ── Numerals ──

/// The decimal digit of value `d`.
pub open spec fn digit(d: nat) -> char {
    ('0' as int + d) as char
}

/// The decimal numeral of `n`, without leading zeros.
pub open spec fn decimal(n: nat) -> Seq<char>
    decreases n,
{
    if n < 10 {
        seq![digit(n)]
    } else {
        decimal(n / 10).push(digit(n % 10))
    }
}

/// The decimal numeral of `n`.
pub fn decimal_of(n: u64) -> (r: String)
    ensures
        r@ == decimal(n as nat),
    decreases n,
{
    let d: u8 = (n % 10) as u8;
    let c: char = (48u8 + d) as char;
    assert(c == digit((n % 10) as nat));
    let mut out: String = if n < 10 {
        String::new()
    } else {
        decimal_of(n / 10)
    };
    out.push(c);
    assert(n < 10 ==> out@ =~= seq![digit(n as nat)]);
    out
}

/// The decimal numeral of `n`, with a minus sign where it is negative.
pub open spec fn signed_decimal(n: int) -> Seq<char> {
    if n < 0 {
        seq!['-'] + decimal((-n) as nat)
    } else {
        decimal(n as nat)
    }
}

/// The decimal numeral of `n`.
pub fn signed_decimal_of(n: i64) -> (r: String)
    ensures
        r@ == signed_decimal(n as int),
{
    if n < 0 {
        let size: u64 = (-(n as i128)) as u64;
        let mut out: String = String::new();
        out.push('-');
        out.append(decimal_of(size).as_str());
        assert(out@ =~= seq!['-'] + decimal((-n) as nat));
        out
    } else {
        decimal_of(n as u64)
    }
}

/// `c`, `n` times over.
pub open spec fn repeated(c: char, n: nat) -> Seq<char> {
    Seq::new(n, |i: int| c)
}

/// Appends `c`, `n` times over.
pub fn push_repeated(s: &mut String, c: char, n: usize)
    ensures
        final(s)@ == old(s)@ + repeated(c, n as nat),
{
    let mut i: usize = 0;
    while i < n
        invariant
            i <= n,
            s@ =~= old(s)@ + repeated(c, i as nat),
        decreases n - i,
    {
        s.push(c);
        i = i + 1;
    }
}

// ── Laws ──

proof fn lemma_trim_start_part(s: Seq<char>) -> (i: int)
    ensures
        0 <= i <= s.len(),
        trim_start_of(s) == s.skip(i),
        forall|k: int| 0 <= k < i ==> is_space(#[trigger] s[k]),
        i < s.len() ==> !is_space(s[i]),
    decreases s.len(),
{
    if s.len() > 0 && is_space(s[0]) {
        let t = s.drop_first();
        let i = lemma_trim_start_part(t) + 1;
        assert(t.skip(i - 1) =~= s.skip(i));
        assert forall|k: int| 0 <= k < i implies is_space(#[trigger] s[k]) by {
            if k > 0 {
                assert(is_space(t[k - 1]));
            }
        }
        i
    } else {
        assert(s.skip(0) =~= s);
        0
    }
}

proof fn lemma_trim_end_part(s: Seq<char>) -> (j: int)
    ensures
        0 <= j <= s.len(),
        trim_end_of(s) == s.take(j),
        forall|k: int| j <= k < s.len() ==> is_space(#[trigger] s[k]),
        j > 0 ==> !is_space(s[j - 1]),
    decreases s.len(),
{
    if s.len() > 0 && is_space(s.last()) {
        let t = s.drop_last();
        let j = lemma_trim_end_part(t);
        assert(t.take(j) =~= s.take(j));
        assert forall|k: int| j <= k < s.len() implies is_space(#[trigger] s[k]) by {
            if k < t.len() {
                assert(is_space(t[k]));
            }
        }
        if j > 0 {
            assert(t[j - 1] == s[j - 1]);
        }
        j
    } else {
        assert(s.take(s.len() as int) =~= s);
        s.len() as int
    }
}

/// Trimming takes white space off both ends and nothing else: what is left is a stretch of the
/// text that neither begins nor ends with white space, and what was around it is white space.
pub proof fn law_trimming_takes_space_off_the_ends(s: Seq<char>) -> (r: (int, int))
    ensures
        0 <= r.0 <= r.1 <= s.len(),
        trim_of(s) == s.subrange(r.0, r.1),
        forall|k: int|
            0 <= k < s.len() && (k < r.0 || r.1 <= k) ==> is_space(#[trigger] s[k]),
        r.0 < r.1 ==> !is_space(s[r.0]) && !is_space(s[r.1 - 1]),
{
    let i = lemma_trim_start_part(s);
    let t = s.skip(i);
    let j = lemma_trim_end_part(t);
    assert(t.take(j) =~= s.subrange(i, i + j));
    assert forall|k: int|
        0 <= k < s.len() && (k < i || i + j <= k) implies is_space(#[trigger] s[k]) by {
        if k >= i {
            assert(is_space(t[k - i]));
        }
    }
    if j > 0 {
        assert(t[j - 1] == s[i + j - 1]);
    }
    (i, i + j)
}

/// The number that a decimal numeral stands for.
pub open spec fn numeral_value(s: Seq<char>) -> int
    decreases s.len(),
{
    if s.len() == 0 {
        0
    } else {
        numeral_value(s.drop_last()) * 10 + (s.last() as int - 48)
    }
}

/// A numeral reads back as its number, is made of digits, and begins with no zero but that of
/// zero itself.
pub proof fn law_numerals_read_back(n: nat)
    ensures
        numeral_value(decimal(n)) == n,
        decimal(n).len() > 0,
        forall|i: int| 0 <= i < decimal(n).len() ==> 48 <= (#[trigger] decimal(n)[i]) as int <= 57,
        n > 0 ==> decimal(n)[0] != '0',
        n < 10 ==> decimal(n).len() == 1,
    decreases n,
{
    let s = decimal(n);
    if n < 10 {
        assert(s.drop_last() =~= Seq::empty());
        assert(numeral_value(s.drop_last()) == 0);
    } else {
        law_numerals_read_back(n / 10);
        assert(s.drop_last() =~= decimal(n / 10));
        assert(s[0] == decimal(n / 10)[0]);
        assert forall|i: int| 0 <= i < s.len() implies 48 <= (#[trigger] s[i]) as int <= 57 by {
            if i < s.len() - 1 {
                assert(s[i] == decimal(n / 10)[i]);
            }
        }
    }
}

/// The first `n` bytes of a text are a beginning of it that takes so many bytes, and are there
/// wherever such a beginning is.
pub proof fn law_byte_prefix_is_a_beginning(s: Seq<char>, n: nat)
    ensures
        byte_prefix(s, n) matches Some(p) ==> p.len() <= s.len() && p == s.take(p.len() as int)
            && byte_len(p) == n,
        forall|k: int|
            0 <= k <= s.len() && byte_len(#[trigger] s.take(k)) == n ==> byte_prefix(s, n)
                == Some(s.take(k)),
    decreases s.len(),
{
    assert forall|k: int| 0 <= k <= s.len() && byte_len(#[trigger] s.take(k)) == n implies
        byte_prefix(s, n) == Some(s.take(k)) by {
        if n == 0 {
            lemma_byte_len(s.take(k));
            assert(s.take(k) =~= Seq::empty());
        } else {
            assert(k > 0) by {
                if k == 0 {
                    assert(s.take(0) =~= Seq::empty());
                }
            }
            let t = s.drop_first();
            lemma_byte_len_first(s.take(k));
            assert(s.take(k).drop_first() =~= t.take(k - 1));
            let m = (n - utf8_len(s[0])) as nat;
            law_byte_prefix_is_a_beginning(t, m);
            assert(byte_len(t.take(k - 1)) == m);
            assert(byte_prefix(t, m) == Some(t.take(k - 1)));
            assert(seq![s[0]] + t.take(k - 1) =~= s.take(k));
        }
    }
    if let Some(p) = byte_prefix(s, n) {
        if n == 0 {
            assert(s.take(0) =~= Seq::empty());
        } else {
            let t = s.drop_first();
            let m = (n - utf8_len(s[0])) as nat;
            law_byte_prefix_is_a_beginning(t, m);
            let q = byte_prefix(t, m)->0;
            assert(p == seq![s[0]] + q);
            assert(p =~= s.take(p.len() as int));
            lemma_byte_len_first(p);
            assert(p.drop_first() =~= q);
        }
    }
}

/// A text that is cut keeps as much of its beginning as fits before the ellipsis, and the whole
/// takes what there is room for.
pub proof fn law_ellipsis_ends_the_beginning(s: Seq<char>, max: nat)
    requires
        max >= ELLIPSIS_WIDTH,
        s.len() > max,
    ensures
        ellipsized(s, max).len() == max,
        ellipsized(s, max).take(max - 3) == s.take(max - 3),
        ellipsized(s, max).skip(max - 3) == "..."@,
{
    reveal_strlit("...");
    assert(ellipsized(s, max).take(max - 3) =~= s.take(max - 3));
    assert(ellipsized(s, max).skip(max - 3) =~= "..."@);
}

/// The first line is what stands before the first line feed, or the whole text where there is
/// none.
pub proof fn law_first_line_ends_at_a_line_feed(s: Seq<char>)
    ensures
        !first_line_of(s).contains('\n'),
        first_line_of(s).len() <= s.len(),
        first_line_of(s) == s.take(first_line_of(s).len() as int),
        first_line_of(s).len() < s.len() ==> s[first_line_of(s).len() as int] == '\n',
{
    lemma_index_of(s, '\n');
    let l = first_line_of(s);
    if l.contains('\n') {
        let k = choose|k: int| 0 <= k < l.len() && l[k] == '\n';
        assert(s[k] == '\n');
    }
}

/// Stripping takes off the end what is to be taken off, and nothing else.
pub proof fn law_stripping_takes_one_character_off_the_end(s: Seq<char>, c: char)
    ensures
        strip_end_of(s, c).len() <= s.len(),
        s == strip_end_of(s, c) + repeated(c, (s.len() - strip_end_of(s, c).len()) as nat),
        strip_end_of(s, c).len() > 0 ==> strip_end_of(s, c).last() != c,
    decreases s.len(),
{
    if s.len() > 0 && s.last() == c {
        let t = s.drop_last();
        law_stripping_takes_one_character_off_the_end(t, c);
        let r = strip_end_of(s, c);
        let m = (t.len() - r.len()) as nat;
        assert(t == r + repeated(c, m));
        assert(s =~= t.push(c));
        assert(repeated(c, m).push(c) =~= repeated(c, m + 1));
        assert(s =~= r + repeated(c, m + 1));
    } else {
        assert(s =~= strip_end_of(s, c) + repeated(c, 0));
    }
}

/// A padded text begins with the text, goes on with spaces alone, and is no shorter than it has
/// to be.
pub proof fn law_padding_adds_spaces(s: Seq<char>, n: nat)
    ensures
        padded(s, n).len() == if s.len() < n {
            n
        } else {
            s.len()
        },
        padded(s, n).take(s.len() as int) == s,
        forall|i: int| s.len() <= i < padded(s, n).len() ==> #[trigger] padded(s, n)[i] == ' ',
{
    assert(padded(s, n).take(s.len() as int) =~= s);
}

/// Joining two lists is joining each and putting the separator between.
pub proof fn law_joined_lists_join(a: Seq<Seq<char>>, b: Seq<Seq<char>>, sep: Seq<char>)
    ensures
        join(Seq::<Seq<char>>::empty(), sep) == Seq::<char>::empty(),
        a.len() == 1 ==> join(a, sep) == a[0],
        a.len() > 0 && b.len() > 0 ==> join(a + b, sep) == join(a, sep) + sep + join(b, sep),
    decreases b.len(),
{
    if a.len() == 1 {
        assert(a.drop_last() =~= Seq::empty());
        assert(join(a, sep) =~= a[0]);
    }
    if a.len() > 0 && b.len() > 0 {
        assert((a + b).drop_last() =~= a + b.drop_last());
        assert((a + b).last() == b.last());
        if b.len() == 1 {
            assert(b.drop_last() =~= Seq::empty());
            assert(a + b.drop_last() =~= a);
            assert(join(b, sep) =~= b[0]);
        } else {
            law_joined_lists_join(a, b.drop_last(), sep);
        }
        assert(join(a + b, sep) =~= join(a, sep) + sep + join(b, sep));
    }
}

/// One text comes before another where the first character in which they differ is less, or
/// where it is a beginning of the other.
pub proof fn law_order_is_by_the_first_difference(a: Seq<char>, b: Seq<char>, k: int)
    requires
        0 <= k <= a.len(),
        k <= b.len(),
        a.take(k) == b.take(k),
    ensures
        k == a.len() && k < b.len() ==> lex_less(a, b),
        k == b.len() ==> !lex_less(a, b),
        k < a.len() && k < b.len() && a[k] != b[k] ==> lex_less(a, b) == (a[k] < b[k]),
    decreases k,
{
    if k > 0 {
        let x = a.drop_first();
        let y = b.drop_first();
        assert(a[0] == a.take(k)[0]);
        assert(b[0] == b.take(k)[0]);
        assert(x.take(k - 1) =~= a.take(k).drop_first());
        assert(y.take(k - 1) =~= b.take(k).drop_first());
        law_order_is_by_the_first_difference(x, y, k - 1);
        if k < a.len() {
            assert(x[k - 1] == a[k]);
        }
        if k < b.len() {
            assert(y[k - 1] == b[k]);
        }
    }
}

/// A text begins with another where something, or nothing, stands behind it.
pub proof fn law_beginnings_stand_before_the_rest(p: Seq<char>, b: Seq<char>, s: Seq<char>)
    ensures
        starts_with(p + b, p),
        starts_with(s, p) ==> s == p + s.skip(p.len() as int),
{
    assert((p + b).take(p.len() as int) =~= p);
    if starts_with(s, p) {
        assert(s =~= s.take(p.len() as int) + s.skip(p.len() as int));
    }
}

/// A text ends with another where something, or nothing, stands before it.
pub proof fn law_ends_stand_behind_the_rest(a: Seq<char>, p: Seq<char>, s: Seq<char>)
    ensures
        ends_with(a + p, p),
        ends_with(s, p) ==> s == s.take(s.len() - p.len()) + p,
{
    assert((a + p).skip(a.len() as int) =~= p);
    if ends_with(s, p) {
        assert(s =~= s.take(s.len() - p.len()) + s.skip(s.len() - p.len()));
    }
}

/// A text holds another where something, or nothing, stands before it and behind it.
pub proof fn law_parts_stand_between_the_rest(
    a: Seq<char>,
    p: Seq<char>,
    b: Seq<char>,
    s: Seq<char>,
) -> (r: (Seq<char>, Seq<char>))
    ensures
        contains(a + p + b, p),
        contains(s, p) ==> s == r.0 + p + r.1,
{
    let n = a.len() as int;
    assert((a + p + b).subrange(n, n + p.len()) =~= p);
    assert(occurs_at(a + p + b, p, n));
    if contains(s, p) {
        let i = choose|i: int| occurs_at(s, p, i);
        let x = s.take(i);
        let y = s.skip(i + p.len());
        assert(s =~= x + s.subrange(i, i + p.len()) + y);
        (x, y)
    } else {
        (a, b)
    }
}

/// Lower case changes the letters from A to Z into those from a to z, place by place, and nothing
/// else; upper case does the opposite.
pub proof fn law_case_changes_letters_alone(s: Seq<char>, i: int)
    requires
        0 <= i < s.len(),
    ensures
        lower(s).len() == s.len(),
        upper(s).len() == s.len(),
        65 <= s[i] as int <= 90 ==> lower(s)[i] as int == s[i] as int + 32,
        !(65 <= s[i] as int <= 90) ==> lower(s)[i] == s[i],
        97 <= s[i] as int <= 122 ==> upper(s)[i] as int == s[i] as int - 32,
        !(97 <= s[i] as int <= 122) ==> upper(s)[i] == s[i],
{
}

/// White space is the characters that Unicode names so.
pub proof fn law_white_space_is_that_of_unicode(c: char)
    ensures
        ({
            let n = c as int;
            is_space(c) <==> (9 <= n <= 13 || n == 32 || n == 0x85 || n == 0xa0 || n == 0x1680
                || 0x2000 <= n <= 0x200a || n == 0x2028 || n == 0x2029 || n == 0x202f || n == 0x205f
                || n == 0x3000)
        }),
{
}

} // verus!
