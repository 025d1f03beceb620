//! The directory name of a project, from the path of its working directory.

use vstd::prelude::*;
use vstd::string::*;
use vstd::utf8::{decode_utf8, valid_utf8};

use crate::ident::hex_digit;
use crate::text::{chars_of, is_alnum, is_alphanumeric, string_of};

verus! {

/// The longest name that is used as it is, in characters.
pub const MAX_PROJECT_DIR_LEN: usize = 80;

/// The hexadecimal digits of the hash that a longer name ends with.
pub const HASH_SUFFIX_HEX_LEN: usize = 16;

/// Stands for a project whose directory cannot be told.
pub const UNKNOWN_PROJECT_DIR: &'static str = "_unknown_";

// ── Outside functions ──

/// The text that `String::from_utf8_lossy` makes of bytes.
pub uninterp spec fn lossy_text(bytes: Seq<u8>) -> Seq<char>;

/// `String::from_utf8_lossy`: the text of bytes that are UTF-8; what it makes of others is
/// named, not described.
#[verifier::external_body]
pub(crate) fn text_lossy(bytes: &[u8]) -> (r: String)
    ensures
        r@ == lossy_text(bytes@),
        valid_utf8(bytes@) ==> r@ == decode_utf8(bytes@),
{
    String::from_utf8_lossy(bytes).into_owned()
}

/// The 64-bit xxHash of bytes under a seed.
pub uninterp spec fn xxh64_of(bytes: Seq<u8>, seed: u64) -> u64;

/// `xxhash_rust::xxh64::xxh64`. The hash is named, not described.
#[verifier::external_body]
fn hash_bytes(bytes: &[u8], seed: u64) -> (r: u64)
    ensures
        r == xxh64_of(bytes@, seed),
{
    xxhash_rust::xxh64::xxh64(bytes, seed)
}

// ── Names ──

/// The characters that a name keeps.
pub open spec fn is_name_char(c: char) -> bool {
    is_alnum(c) || c == '.' || c == '_' || c == '-'
}

/// `s`, where every other character is a hyphen.
pub open spec fn cleaned(s: Seq<char>) -> Seq<char> {
    s.map_values(
        |c: char|
            if is_name_char(c) {
                c
            } else {
                '-'
            },
    )
}

/// `s` without its leading hyphens.
pub open spec fn without_leading_dashes(s: Seq<char>) -> Seq<char>
    decreases s.len(),
{
    if s.len() > 0 && s[0] == '-' {
        without_leading_dashes(s.drop_first())
    } else {
        s
    }
}

/// `s` without its trailing hyphens.
pub open spec fn without_trailing_dashes(s: Seq<char>) -> Seq<char>
    decreases s.len(),
{
    if s.len() > 0 && s.last() == '-' {
        without_trailing_dashes(s.drop_last())
    } else {
        s
    }
}

/// `n` as 16 hexadecimal digits in lower case.
pub open spec fn hex16(n: u64) -> Seq<char> {
    hex_digits(n as nat, 16)
}

/// The last `count` hexadecimal digits of `n`.
pub open spec fn hex_digits(n: nat, count: nat) -> Seq<char>
    decreases count,
{
    if count == 0 {
        Seq::empty()
    } else {
        hex_digits(n / 16, (count - 1) as nat).push(hex_digit((n % 16) as int))
    }
}

/// The name for a path with this text and this hash: what is safe of the text, cut short with
/// the hash behind it where it is long.
pub open spec fn dir_name(text: Seq<char>, hash: u64) -> Seq<char> {
    let name = without_trailing_dashes(without_leading_dashes(cleaned(text)));
    if name.len() == 0 {
        UNKNOWN_PROJECT_DIR@
    } else if name.len() <= MAX_PROJECT_DIR_LEN {
        name
    } else {
        name.take(MAX_PROJECT_DIR_LEN - HASH_SUFFIX_HEX_LEN - 1) + seq!['-'] + hex16(hash)
    }
}

/// The name for the path `raw`, by its bytes.
pub open spec fn sanitized_cwd(raw: Seq<u8>) -> Seq<char> {
    dir_name(lossy_text(raw), xxh64_of(raw, 0))
}

/// The directory name for the path with these bytes. The hash is that of the bytes, so that
/// two paths whose texts agree are told apart.
pub fn sanitize_cwd(raw: &[u8]) -> (r: String)
    ensures
        r@ == sanitized_cwd(raw@),
{
    project_dir_name(text_lossy(raw).as_str(), hash_bytes(raw, 0))
}

/// `n` as hexadecimal digits, the last `count` of them.
fn hex_text(n: u64, count: usize) -> (r: String)
    ensures
        r@ == hex_digits(n as nat, count as nat),
    decreases count,
{
    if count == 0 {
        let out: String = String::new();
        assert(out@ =~= Seq::empty());
        out
    } else {
        let mut out: String = hex_text(n / 16, count - 1);
        let d: u8 = (n % 16) as u8;
        let c: char = if d < 10 {
            (48u8 + d) as char
        } else {
            (87u8 + d) as char
        };
        out.push(c);
        out
    }
}

/// The directory name for a path with this text and this hash.
pub fn project_dir_name(text: &str, hash: u64) -> (r: String)
    ensures
        r@ == dir_name(text@, hash),
{
    let cs: Vec<char> = chars_of(text);
    let mut name: Vec<char> = Vec::new();
    let mut i: usize = 0;
    while i < cs.len()
        invariant
            i <= cs.len(),
            cs@ == text@,
            name@ =~= cleaned(text@).take(i as int),
        decreases cs.len() - i,
    {
        let c: char = cs[i];
        if is_alphanumeric(c) || c == '.' || c == '_' || c == '-' {
            name.push(c);
        } else {
            name.push('-');
        }
        i = i + 1;
    }
    let ghost clean = cleaned(text@);
    assert(name@ =~= clean);
    let mut a: usize = 0;
    assert(clean.skip(0) =~= clean);
    while a < name.len() && name[a] == '-'
        invariant
            a <= name.len(),
            name@ == clean,
            without_leading_dashes(clean) == without_leading_dashes(clean.skip(a as int)),
        decreases name.len() - a,
    {
        assert(clean.skip(a as int).drop_first() =~= clean.skip(a as int + 1));
        a = a + 1;
    }
    let ghost front = clean.skip(a as int);
    assert(without_leading_dashes(clean) == front);
    let mut b: usize = name.len();
    assert(front =~= clean.subrange(a as int, b as int));
    while b > a && name[b - 1] == '-'
        invariant
            a <= b <= name.len(),
            name@ == clean,
            without_trailing_dashes(front) == without_trailing_dashes(
                clean.subrange(a as int, b as int),
            ),
        decreases b,
    {
        assert(clean.subrange(a as int, b as int).drop_last() =~= clean.subrange(
            a as int,
            b as int - 1,
        ));
        b = b - 1;
    }
    let ghost trimmed = clean.subrange(a as int, b as int);
    let n: usize = b - a;
    if n == 0 {
        return UNKNOWN_PROJECT_DIR.to_owned();
    }
    let whole: String = string_of(name.as_slice());
    if n <= MAX_PROJECT_DIR_LEN {
        return whole.as_str().substring_char(a, b).to_owned();
    }
    let keep: usize = MAX_PROJECT_DIR_LEN - HASH_SUFFIX_HEX_LEN - 1;
    let mut out: String = whole.as_str().substring_char(a, a + keep).to_owned();
    assert(clean.subrange(a as int, a + keep) =~= trimmed.take(keep as int));
    out.push('-');
    out.append(hex_text(hash, HASH_SUFFIX_HEX_LEN).as_str());
    assert(out@ =~= trimmed.take(keep as int) + seq!['-'] + hex16(hash));
    out
}

// ── Laws ──

/// Whether every character of `s` is one that a name keeps.
pub open spec fn is_safe(s: Seq<char>) -> bool {
    forall|i: int| 0 <= i < s.len() ==> is_name_char(#[trigger] s[i])
}

proof fn lemma_dashes_safe(s: Seq<char>)
    requires
        is_safe(s),
    ensures
        is_safe(without_leading_dashes(s)),
        is_safe(without_trailing_dashes(s)),
    decreases s.len(),
{
    if s.len() > 0 {
        assert(is_safe(s.drop_first()));
        assert(is_safe(s.drop_last()));
        lemma_dashes_safe(s.drop_first());
        lemma_dashes_safe(s.drop_last());
    }
}

proof fn lemma_hex_safe(n: nat, count: nat)
    ensures
        is_safe(hex_digits(n, count)),
        hex_digits(n, count).len() == count,
    decreases count,
{
    if count > 0 {
        lemma_hex_safe(n / 16, (count - 1) as nat);
    }
}

/// A directory name is never empty nor longer than the cap, and holds nothing but ASCII letters,
/// digits, dots, underscores and hyphens, whatever the path.
pub proof fn law_dir_name_is_safe(text: Seq<char>, hash: u64)
    ensures
        0 < dir_name(text, hash).len() <= MAX_PROJECT_DIR_LEN,
        is_safe(dir_name(text, hash)),
{
    reveal_strlit("_unknown_");
    let clean = cleaned(text);
    assert(is_safe(clean));
    lemma_dashes_safe(clean);
    let front = without_leading_dashes(clean);
    lemma_dashes_safe(front);
    lemma_hex_safe(hash as nat, 16);
}

/// Long names with one text are told apart by their hashes: equal names have hashes with
/// equal digits.
pub proof fn law_long_names_end_in_the_hash(text: Seq<char>, hash: u64)
    requires
        without_trailing_dashes(without_leading_dashes(cleaned(text))).len() > MAX_PROJECT_DIR_LEN,
    ensures
        dir_name(text, hash).len() == MAX_PROJECT_DIR_LEN,
        dir_name(text, hash).skip(MAX_PROJECT_DIR_LEN - HASH_SUFFIX_HEX_LEN) == hex16(hash),
{
    lemma_hex_safe(hash as nat, 16);
    assert(dir_name(text, hash).skip(MAX_PROJECT_DIR_LEN - HASH_SUFFIX_HEX_LEN) =~= hex16(hash));
}

/// What is taken off the ends of a name is hyphens, and no hyphen is left there.
proof fn lemma_dashes_off(s: Seq<char>) -> (r: (int, int))
    ensures
        0 <= r.0 <= r.1 <= s.len(),
        without_trailing_dashes(without_leading_dashes(s)) == s.subrange(r.0, r.1),
        forall|k: int| 0 <= k < s.len() && (k < r.0 || r.1 <= k) ==> #[trigger] s[k] == '-',
        r.0 < r.1 ==> s[r.0] != '-' && s[r.1 - 1] != '-',
{
    let i = lemma_leading_off(s);
    let t = s.skip(i);
    let j = lemma_trailing_off(t);
    assert(t.take(j) =~= s.subrange(i, i + j));
    assert forall|k: int| 0 <= k < s.len() && (k < i || i + j <= k) implies #[trigger] s[k] == '-' by {
        if k >= i {
            assert(t[k - i] == '-');
        }
    }
    if j > 0 {
        assert(t[0] == s[i]);
        assert(t[j - 1] == s[i + j - 1]);
    }
    (i, i + j)
}

proof fn lemma_leading_off(s: Seq<char>) -> (i: int)
    ensures
        0 <= i <= s.len(),
        without_leading_dashes(s) == s.skip(i),
        forall|k: int| 0 <= k < i ==> #[trigger] s[k] == '-',
        i < s.len() ==> s[i] != '-',
    decreases s.len(),
{
    if s.len() > 0 && s[0] == '-' {
        let t = s.drop_first();
        let i = lemma_leading_off(t) + 1;
        assert(t.skip(i - 1) =~= s.skip(i));
        assert forall|k: int| 0 <= k < i implies #[trigger] s[k] == '-' by {
            if k > 0 {
                assert(t[k - 1] == '-');
            }
        }
        i
    } else {
        assert(s.skip(0) =~= s);
        0
    }
}

proof fn lemma_trailing_off(s: Seq<char>) -> (j: int)
    ensures
        0 <= j <= s.len(),
        without_trailing_dashes(s) == s.take(j),
        forall|k: int| j <= k < s.len() ==> #[trigger] s[k] == '-',
        j > 0 ==> s[j - 1] != '-',
    decreases s.len(),
{
    if s.len() > 0 && s.last() == '-' {
        let t = s.drop_last();
        let j = lemma_trailing_off(t);
        assert(t.take(j) =~= s.take(j));
        assert forall|k: int| j <= k < s.len() implies #[trigger] s[k] == '-' by {
            if k < t.len() {
                assert(t[k] == '-');
            }
        }
        if j > 0 {
            assert(t[j - 1] == s[j - 1]);
        }
        j
    } else {
        assert(s.take(s.len() as int) =~= s);
        s.len() as int
    }
}

/// Whether `c` is an ASCII letter or digit, a dot, an underscore or a hyphen.
pub open spec fn is_plain_char(c: char) -> bool {
    ||| 'a' <= c <= 'z'
    ||| 'A' <= c <= 'Z'
    ||| '0' <= c <= '9'
    ||| c == '.'
    ||| c == '_'
    ||| c == '-'
}

/// A directory name tells the path: each of its characters stands for the one in its place, as it
/// is where it is plain and a hyphen where it is not. Only what would be hyphens at the ends is
/// left out, and of a name that is too long all but the first characters, for which the hash
/// stands in.
pub proof fn law_dir_name_tells_the_path(text: Seq<char>, hash: u64) -> (r: (int, int))
    ensures
        0 <= r.0 <= r.1 <= text.len(),
        forall|k: int|
            0 <= k < text.len() && (k < r.0 || r.1 <= k) ==> !is_plain_char(#[trigger] text[k])
                || text[k] == '-',
        r.0 == r.1 ==> dir_name(text, hash) == "_unknown_"@,
        r.0 < r.1 ==> ({
            let name = dir_name(text, hash);
            let n: int = if r.1 - r.0 <= 80 {
                r.1 - r.0
            } else {
                63
            };
            &&& is_plain_char(text[r.0]) && text[r.0] != '-'
            &&& is_plain_char(text[r.1 - 1]) && text[r.1 - 1] != '-'
            &&& forall|k: int|
                0 <= k < n ==> #[trigger] name[k] == if is_plain_char(text[r.0 + k]) {
                    text[r.0 + k]
                } else {
                    '-'
                }
            &&& r.1 - r.0 <= 80 ==> name.len() == n
            &&& r.1 - r.0 > 80 ==> name.len() == 80 && name[63] == '-' && name.skip(64) == hex16(
                hash,
            )
        }),
{
    let clean = cleaned(text);
    let r = lemma_dashes_off(clean);
    assert forall|c: char| #[trigger] is_name_char(c) == is_plain_char(c) by {}
    assert forall|k: int|
        0 <= k < text.len() && (k < r.0 || r.1 <= k) implies !is_plain_char(#[trigger] text[k])
        || text[k] == '-' by {
        assert(clean[k] == '-');
    }
    if r.0 < r.1 {
        lemma_hex_safe(hash as nat, 16);
        let name = dir_name(text, hash);
        let whole = clean.subrange(r.0, r.1);
        assert(clean[r.0] != '-');
        assert(clean[r.1 - 1] != '-');
        if r.1 - r.0 > 80 {
            assert(name.skip(64) =~= hex16(hash));
        }
        let n: int = if r.1 - r.0 <= 80 {
            r.1 - r.0
        } else {
            63
        };
        assert forall|k: int| 0 <= k < n implies #[trigger] name[k] == if is_plain_char(
            text[r.0 + k],
        ) {
            text[r.0 + k]
        } else {
            '-'
        } by {
            assert(name[k] == whole[k]);
            assert(whole[k] == clean[r.0 + k]);
        }
    }
    r
}

/// The value of a hexadecimal digit in lower case.
pub open spec fn hex_value(c: char) -> int {
    if '0' <= c <= '9' {
        c as int - 48
    } else {
        c as int - 87
    }
}

/// The number that hexadecimal digits stand for.
pub open spec fn hex_number(s: Seq<char>) -> int
    decreases s.len(),
{
    if s.len() == 0 {
        0
    } else {
        hex_number(s.drop_last()) * 16 + hex_value(s.last())
    }
}

proof fn lemma_hex_reads_back(n: nat, count: nat)
    requires
        n < vstd::arithmetic::power::pow(16, count),
    ensures
        hex_number(hex_digits(n, count)) == n,
    decreases count,
{
    reveal(vstd::arithmetic::power::pow);
    if count > 0 {
        let s = hex_digits(n, count);
        assert(n / 16 < vstd::arithmetic::power::pow(16, (count - 1) as nat)) by (nonlinear_arith)
            requires
                n < 16 * vstd::arithmetic::power::pow(16, (count - 1) as nat),
        ;
        lemma_hex_reads_back(n / 16, (count - 1) as nat);
        assert(s.drop_last() =~= hex_digits(n / 16, (count - 1) as nat));
        assert(hex_value(s.last()) == n % 16);
    }
}

/// The digits behind a long name are those of the hash: they read back as it, so that names with
/// different hashes differ.
pub proof fn law_hash_reads_back(hash: u64)
    ensures
        hex16(hash).len() == 16,
        hex_number(hex16(hash)) == hash,
{
    lemma_hex_safe(hash as nat, 16);
    assert(vstd::arithmetic::power::pow(16, 16) == 0x1_0000_0000_0000_0000) by {
        reveal_with_fuel(vstd::arithmetic::power::pow, 17);
    }
    lemma_hex_reads_back(hash as nat, 16);
}

/// The directory of a path is named by its text and the hash of its bytes.
pub proof fn law_directory_is_named_by_text_and_hash(raw: Seq<u8>)
    ensures
        sanitized_cwd(raw) == dir_name(lossy_text(raw), xxh64_of(raw, 0)),
{
}

} // verus!
