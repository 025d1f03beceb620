//! `/diff`: what changed in the working tree, as git tells it.

use vstd::prelude::*;
use vstd::string::*;

use crate::session::path::{lossy_text, text_lossy};
use crate::slash::context::{ChatLog, ChatView};
use crate::slash::matcher::label_views;
use crate::text::{
    byte_len, byte_len_of, chars_of, decimal, decimal_of, index_of, is_blank, is_space, join,
    law_joined_lists_join, law_stripping_takes_one_character_off_the_end,
    law_trimming_takes_space_off_the_ends, lemma_blank, lemma_byte_len, lemma_byte_len_add,
    lemma_index_of, len_utf8, owned, repeated, str_eq, string_of, strip_end, strip_end_of, trim,
    trim_of, utf8_len,
};

verus! {

/// How many bytes of a diff are shown.
pub const MAX_BYTES: usize = 65_536;

/// What is said where nothing changed.
pub const CLEAN_TEXT: &'static str = "Working tree clean.";

// ── Text ──

/// `line` without the carriage return at its end.
pub open spec fn without_return(line: Seq<char>) -> Seq<char> {
    if line.len() > 0 && line.last() == '\r' {
        line.drop_last()
    } else {
        line
    }
}

/// The lines of `s`, each on an indented line of its own.
pub open spec fn indented(s: Seq<char>) -> Seq<char>
    decreases s.len(),
{
    if s.len() == 0 {
        Seq::empty()
    } else if index_of(s, '\n') >= s.len() || index_of(s, '\n') < 0 {
        "\n  "@ + s
    } else {
        "\n  "@ + without_return(s.take(index_of(s, '\n'))) + indented(
            s.skip(index_of(s, '\n') + 1),
        )
    }
}

/// Adds the lines of `s` to `out`, each on an indented line of its own.
fn push_indented(out: &mut String, s: &str)
    ensures
        final(out)@ == old(out)@ + indented(s@),
{
    let cs: Vec<char> = chars_of(s);
    let ghost all = s@;
    let ghost target = out@ + indented(all);
    let mut start: usize = 0;
    assert(all.skip(0) =~= all);
    while start < cs.len()
        invariant
            start <= cs.len(),
            cs@ == all,
            all == s@,
            target == out@ + indented(all.skip(start as int)),
        decreases cs.len() - start,
    {
        let ghost rest = all.skip(start as int);
        proof {
            lemma_index_of(rest, '\n');
        }
        let mut end: usize = start;
        while end < cs.len() && cs[end] != '\n'
            invariant
                start <= end <= cs.len(),
                cs@ == all,
                rest == all.skip(start as int),
                forall|k: int| 0 <= k < end - start ==> rest[k] != '\n',
            decreases cs.len() - end,
        {
            assert(rest[end - start] == all[end as int]);
            end = end + 1;
        }
        assert(index_of(rest, '\n') == end - start) by {
            if end < cs.len() {
                assert(rest[end - start] == all[end as int]);
            }
        }
        let whole: bool = end >= cs.len();
        let mut stop: usize = end;
        if !whole && end > start && cs[end - 1] == '\r' {
            stop = end - 1;
        }
        let ghost line = if whole {
            rest
        } else {
            without_return(rest.take(end - start))
        };
        let ghost before = out@;
        out.append("\n  ");
        out.append(s.substring_char(start, stop));
        assert(all.subrange(start as int, stop as int) =~= line) by {
            if !whole && end > start {
                assert(rest.take(end - start).last() == all[end - 1]);
            }
        }
        assert(out@ =~= before + ("\n  "@ + line));
        if whole {
            start = cs.len();
            assert(all.skip(start as int) =~= Seq::empty());
            assert(target =~= out@ + indented(all.skip(start as int)));
        } else {
            start = end + 1;
            assert(rest.skip(index_of(rest, '\n') + 1) =~= all.skip(start as int));
            assert(target =~= out@ + indented(all.skip(start as int)));
        }
    }
    assert(out@ =~= target);
}

/// The changes that git tells of, then the files that it does not know.
pub open spec fn diff_text(changed: Seq<char>, untracked: Seq<char>) -> Seq<char> {
    let changes = strip_end_of(changed, '\n');
    let shown = if is_blank(changes) {
        Seq::empty()
    } else {
        changes
    };
    let files = trim_of(untracked);
    if files.len() == 0 {
        shown
    } else {
        shown + if shown.len() == 0 {
            Seq::empty()
        } else {
            "\n\n"@
        } + "Untracked files:"@ + indented(files)
    }
}

/// The changes that git tells of, without the line ends at their end, then the files that it
/// does not know.
pub fn format_diff(changed: &str, untracked: &str) -> (r: String)
    ensures
        r@ == diff_text(changed@, untracked@),
{
    let mut out: String = String::new();
    let changes: &str = strip_end(changed, '\n');
    if !trim(changes).is_empty() {
        out.append(changes);
    }
    let files: &str = trim(untracked);
    let ghost shown = if is_blank(changes@) {
        Seq::empty()
    } else {
        changes@
    };
    assert(out@ =~= shown);
    if !files.is_empty() {
        if !out.as_str().is_empty() {
            out.append("\n\n");
        }
        out.append("Untracked files:");
        push_indented(&mut out, files);
    }
    assert(out@ =~= diff_text(changed@, untracked@));
    out
}

/// The number of leading characters of `s` that take at most `limit` bytes.
pub open spec fn fitting_bytes(s: Seq<char>, limit: nat) -> nat
    decreases s.len(),
{
    if s.len() == 0 || utf8_len(s[0]) > limit {
        0
    } else {
        1 + fitting_bytes(s.drop_first(), (limit - utf8_len(s[0])) as nat)
    }
}

/// How a number of bytes is shown: in bytes, or in larger units with one digit behind the point
/// and the rest cut off.
pub open spec fn size_text(bytes: nat) -> Seq<char> {
    if bytes < 1024 {
        decimal(bytes) + " B"@
    } else if bytes < 1_048_576 {
        decimal(bytes / 1024) + "."@ + decimal((bytes % 1024) * 10 / 1024) + " KB"@
    } else {
        decimal(bytes / 1_048_576) + "."@ + decimal((bytes % 1_048_576) * 10 / 1_048_576) + " MB"@
    }
}

/// Shows a number of bytes.
pub fn format_size(bytes: usize) -> (r: String)
    ensures
        r@ == size_text(bytes as nat),
{
    if bytes < 1024 {
        let mut out: String = decimal_of(bytes as u64);
        out.append(" B");
        return out;
    }
    let unit: usize = if bytes < 1_048_576 {
        1024
    } else {
        1_048_576
    };
    let tenth: usize = (bytes % unit) * 10 / unit;
    let mut out: String = decimal_of((bytes / unit) as u64);
    let digit: String = decimal_of(tenth as u64);
    out.append(".");
    out.append(digit.as_str());
    if bytes < 1_048_576 {
        out.append(" KB");
    } else {
        out.append(" MB");
    }
    out
}

/// What is shown of a long diff.
pub open spec fn kept(s: Seq<char>) -> Seq<char> {
    s.take(fitting_bytes(s, MAX_BYTES as nat) as int)
}

/// `s` where it is not too long; else what fits of it, and how much is left out.
pub open spec fn truncated(s: Seq<char>) -> Seq<char> {
    if byte_len(s) <= MAX_BYTES {
        s
    } else {
        kept(s) + "\n\n(truncated: "@ + size_text((byte_len(s) - byte_len(kept(s))) as nat)
            + " more — run `git diff HEAD` for the full output)"@
    }
}

proof fn lemma_fitting_bytes(s: Seq<char>, limit: nat)
    ensures
        fitting_bytes(s, limit) <= s.len(),
        byte_len(s.take(fitting_bytes(s, limit) as int)) <= limit,
    decreases s.len(),
{
    if s.len() > 0 && utf8_len(s[0]) <= limit {
        let t = s.drop_first();
        let n = fitting_bytes(t, (limit - utf8_len(s[0])) as nat);
        lemma_fitting_bytes(t, (limit - utf8_len(s[0])) as nat);
        assert(s.take(n as int + 1) =~= seq![s[0]] + t.take(n as int));
        lemma_byte_len_add(seq![s[0]], t.take(n as int));
        assert(byte_len(seq![s[0]]) == utf8_len(s[0])) by {
            reveal_with_fuel(byte_len, 2);
            assert(seq![s[0]].drop_last() =~= Seq::empty());
            assert(seq![s[0]].drop_first() =~= Seq::empty());
        }
    } else {
        assert(s.take(0) =~= Seq::empty());
    }
}

/// Cuts a long diff between two characters and says how much is left out.
pub fn truncate(s: String) -> (r: String)
    ensures
        r@ == truncated(s@),
{
    let text: &str = s.as_str();
    let total: usize = byte_len_of(text);
    if total <= MAX_BYTES {
        return owned(text);
    }
    let cs: Vec<char> = chars_of(text);
    let ghost all = text@;
    let mut used: usize = 0;
    let mut n: usize = 0;
    assert(all.skip(0) =~= all);
    assert(all.take(0) =~= Seq::empty());
    while n < cs.len() && len_utf8(cs[n]) <= MAX_BYTES - used
        invariant
            n <= cs.len(),
            cs@ == all,
            used <= MAX_BYTES,
            used == byte_len(all.take(n as int)),
            fitting_bytes(all, MAX_BYTES as nat) == n + fitting_bytes(
                all.skip(n as int),
                (MAX_BYTES - used) as nat,
            ),
        decreases cs.len() - n,
    {
        let ghost c = cs@[n as int];
        assert(all.skip(n as int).drop_first() =~= all.skip(n as int + 1));
        assert(all.take(n as int + 1) =~= all.take(n as int) + seq![c]);
        proof {
            lemma_byte_len_add(all.take(n as int), seq![c]);
            reveal_with_fuel(byte_len, 2);
            assert(seq![c].drop_last() =~= Seq::empty());
            assert(seq![c].drop_first() =~= Seq::empty());
        }
        used = used + len_utf8(cs[n]);
        n = n + 1;
    }
    assert(fitting_bytes(all, MAX_BYTES as nat) == n);
    assert(all.subrange(0, n as int) =~= kept(all));
    let mut out: String = owned(text.substring_char(0, n));
    let left: String = format_size(total - used);
    out.append("\n\n(truncated: ");
    out.append(left.as_str());
    out.append(" more — run `git diff HEAD` for the full output)");
    out
}

/// What is shown of a diff is its beginning and not too long, and a diff that is not too long is
/// shown whole.
pub proof fn law_truncation_keeps_a_bounded_beginning(s: Seq<char>)
    ensures
        byte_len(s) <= MAX_BYTES ==> truncated(s) == s,
        byte_len(kept(s)) <= MAX_BYTES,
        kept(s) == s.take(kept(s).len() as int),
        byte_len(s) > MAX_BYTES ==> truncated(s).take(kept(s).len() as int) == kept(s),
{
    lemma_fitting_bytes(s, MAX_BYTES as nat);
    if byte_len(s) > MAX_BYTES {
        assert(truncated(s).take(kept(s).len() as int) =~= kept(s));
    }
}

proof fn lemma_fitting_bytes_is_most(s: Seq<char>, limit: nat)
    ensures
        fitting_bytes(s, limit) <= s.len(),
        fitting_bytes(s, limit) == s.len() ==> byte_len(s) <= limit,
        fitting_bytes(s, limit) < s.len() ==> byte_len(
            s.take(fitting_bytes(s, limit) as int + 1),
        ) > limit,
    decreases s.len(),
{
    lemma_fitting_bytes(s, limit);
    let n = fitting_bytes(s, limit) as int;
    if n == s.len() {
        assert(s.take(n) =~= s);
    } else {
        let w = utf8_len(s[0]);
        reveal_with_fuel(byte_len, 2);
        assert(seq![s[0]].drop_last() =~= Seq::empty());
        if w <= limit {
            let t = s.drop_first();
            lemma_fitting_bytes_is_most(t, (limit - w) as nat);
            assert(s.take(n + 1) =~= seq![s[0]] + t.take(n));
            lemma_byte_len_add(seq![s[0]], t.take(n));
        } else {
            assert(s.take(1) =~= seq![s[0]]);
        }
    }
}

/// What is kept of a long diff is the longest beginning that fits: with one character more it
/// would be too long.
pub proof fn law_truncation_keeps_as_much_as_fits(s: Seq<char>)
    requires
        byte_len(s) > MAX_BYTES,
    ensures
        kept(s).len() < s.len(),
        kept(s) == s.take(kept(s).len() as int),
        byte_len(kept(s)) <= MAX_BYTES,
        byte_len(s.take(kept(s).len() as int + 1)) > MAX_BYTES,
{
    lemma_fitting_bytes(s, MAX_BYTES as nat);
    lemma_fitting_bytes_is_most(s, MAX_BYTES as nat);
}

/// A long diff is cut once, between two characters, and the footer tells how many bytes were
/// left out: those that what is shown and the whole differ by.
pub proof fn law_footer_tells_what_is_left_out(s: Seq<char>, n: int)
    requires
        0 <= n < s.len(),
        byte_len(s.take(n)) <= MAX_BYTES,
        byte_len(s.take(n + 1)) > MAX_BYTES,
    ensures
        truncated(s) == s.take(n) + "\n\n(truncated: "@ + size_text(
            (byte_len(s) - byte_len(s.take(n))) as nat,
        ) + " more — run `git diff HEAD` for the full output)"@,
{
    lemma_byte_len_add(s.take(n + 1), s.skip(n + 1));
    assert(s.take(n + 1) + s.skip(n + 1) =~= s);
    law_truncation_keeps_as_much_as_fits(s);
    let k = kept(s).len() as int;
    if k < n {
        lemma_byte_len_add(s.take(k + 1), s.subrange(k + 1, n));
        assert(s.take(k + 1) + s.subrange(k + 1, n) =~= s.take(n));
    }
    if n < k {
        lemma_byte_len_add(s.take(n + 1), s.subrange(n + 1, k));
        assert(s.take(n + 1) + s.subrange(n + 1, k) =~= s.take(k));
    }
}

/// A size is told in bytes below a kilobyte, in kilobytes below a megabyte, and in megabytes from
/// there on; in tenths of the unit, which are never rounded up.
pub proof fn law_sizes_are_told_in_tenths(bytes: nat) -> (r: (nat, nat))
    ensures
        bytes < 1024 ==> size_text(bytes) == decimal(bytes) + " B"@,
        bytes >= 1024 ==> ({
            let unit: int = if bytes < 1_048_576 {
                1024
            } else {
                1_048_576
            };
            &&& r.1 < 10
            &&& (10 * r.0 + r.1) * unit <= 10 * bytes
            &&& 10 * bytes < (10 * r.0 + r.1 + 1) * unit
            &&& size_text(bytes) == decimal(r.0) + "."@ + decimal(r.1) + (if bytes < 1_048_576 {
                " KB"@
            } else {
                " MB"@
            })
        }),
{
    if bytes < 1_048_576 {
        (bytes / 1024, (bytes % 1024) * 10 / 1024)
    } else {
        (bytes / 1_048_576, (bytes % 1_048_576) * 10 / 1_048_576)
    }
}

/// The names, each on an indented line of its own.
pub open spec fn listed(names: Seq<Seq<char>>) -> Seq<char>
    decreases names.len(),
{
    if names.len() == 0 {
        Seq::empty()
    } else {
        listed(names.drop_last()) + "\n  "@ + names.last()
    }
}

/// Whether `name` is one line that no white space surrounds.
pub open spec fn is_name(name: Seq<char>) -> bool {
    &&& name.len() > 0
    &&& !name.contains('\n')
    &&& !is_space(name[0])
    &&& !is_space(name.last())
}

proof fn lemma_index_behind(a: Seq<char>, rest: Seq<char>)
    requires
        !a.contains('\n'),
    ensures
        index_of(a + seq!['\n'] + rest, '\n') == a.len(),
{
    let s = a + seq!['\n'] + rest;
    lemma_index_of(s, '\n');
    let n = index_of(s, '\n');
    if n < a.len() {
        assert(a[n] == '\n');
    }
    assert(s[a.len() as int] == '\n');
}

proof fn lemma_listed_first(names: Seq<Seq<char>>)
    requires
        names.len() > 0,
    ensures
        listed(names) == "\n  "@ + names[0] + listed(names.drop_first()),
    decreases names.len(),
{
    if names.len() == 1 {
        assert(names.drop_last() =~= Seq::empty());
        assert(names.drop_first() =~= Seq::empty());
        assert(listed(names) =~= "\n  "@ + names[0] + listed(names.drop_first()));
    } else {
        lemma_listed_first(names.drop_last());
        assert(names.drop_last().drop_first() =~= names.drop_first().drop_last());
        assert(listed(names) =~= "\n  "@ + names[0] + listed(names.drop_first()));
    }
}

proof fn lemma_indented_names(names: Seq<Seq<char>>)
    requires
        names.len() > 0,
        forall|i: int| 0 <= i < names.len() ==> is_name(#[trigger] names[i]),
    ensures
        indented(join(names, "\n"@)) == listed(names),
    decreases names.len(),
{
    reveal_strlit("\n");
    let first = names[0];
    lemma_listed_first(names);
    if names.len() == 1 {
        law_joined_lists_join(names, names, "\n"@);
        lemma_index_of(first, '\n');
        if index_of(first, '\n') < first.len() {
            assert(first.contains('\n'));
        }
        assert(names.drop_first() =~= Seq::empty());
        assert(indented(first) =~= listed(names));
    } else {
        let t = names.drop_first();
        assert forall|i: int| 0 <= i < t.len() implies is_name(#[trigger] t[i]) by {
            assert(t[i] == names[i + 1]);
        }
        lemma_indented_names(t);
        assert(seq![first] + t =~= names);
        law_joined_lists_join(seq![first], t, "\n"@);
        let s = join(names, "\n"@);
        let rest = join(t, "\n"@);
        assert(s =~= first + seq!['\n'] + rest);
        lemma_index_behind(first, rest);
        assert(s.take(first.len() as int) =~= first);
        assert(s.skip(first.len() as int + 1) =~= rest);
        assert(without_return(first) == first);
        assert(indented(s) =~= listed(names));
    }
}

/// What is shown of changes `changed` and of files `names` that git does not know: the changes as
/// git tells them, without the line ends at their end, then a line for each file; only the one or
/// the other where the other is not there.
pub proof fn law_diff_tells_changes_and_files(changed: Seq<char>, names: Seq<Seq<char>>, ends: nat)
    requires
        changed.len() > 0 ==> !is_blank(changed) && changed.last() != '\n',
        forall|i: int| 0 <= i < names.len() ==> is_name(#[trigger] names[i]),
    ensures
        diff_text(
            changed + repeated('\n', ends),
            if names.len() == 0 {
                Seq::empty()
            } else {
                join(names, "\n"@) + "\n"@
            },
        ) == changed + (if names.len() == 0 {
            Seq::empty()
        } else if changed.len() == 0 {
            "Untracked files:"@ + listed(names)
        } else {
            "\n\nUntracked files:"@ + listed(names)
        }),
{
    reveal_strlit("\n");
    reveal_strlit("\n\n");
    reveal_strlit("Untracked files:");
    reveal_strlit("\n\nUntracked files:");
    let whole = changed + repeated('\n', ends);
    let cut = strip_end_of(whole, '\n');
    law_stripping_takes_one_character_off_the_end(whole, '\n');
    assert(cut =~= changed) by {
        assert(whole.take(cut.len() as int) =~= cut);
        if cut.len() > changed.len() {
            assert(cut.last() == whole[cut.len() - 1]);
        }
        if cut.len() < changed.len() {
            assert((cut + repeated('\n', (whole.len() - cut.len()) as nat))[changed.len() - 1]
                == '\n');
            assert(whole[changed.len() - 1] == changed.last());
        }
    }
    lemma_blank(changed);
    if names.len() == 0 {
        let none = Seq::<char>::empty();
        lemma_blank(none);
        assert(trim_of(none).len() == 0);
        assert(diff_text(whole, none) =~= changed);
    } else {
        let files = join(names, "\n"@);
        let told = files + "\n"@;
        lemma_joined_ends(names);
        let r = law_trimming_takes_space_off_the_ends(told);
        assert(told[0] == files[0]);
        assert(told[files.len() - 1] == files.last());
        assert(told.last() == '\n');
        assert(r.0 == 0 && r.1 == files.len());
        assert(trim_of(told) =~= files);
        lemma_indented_names(names);
        assert(diff_text(whole, told) =~= changed + (if changed.len() == 0 {
            "Untracked files:"@ + listed(names)
        } else {
            "\n\nUntracked files:"@ + listed(names)
        }));
    }
}

proof fn lemma_joined_ends(names: Seq<Seq<char>>)
    requires
        names.len() > 0,
        forall|i: int| 0 <= i < names.len() ==> is_name(#[trigger] names[i]),
    ensures
        join(names, "\n"@).len() > 0,
        !is_space(join(names, "\n"@)[0]),
        !is_space(join(names, "\n"@).last()),
    decreases names.len(),
{
    reveal_strlit("\n");
    assert(is_name(names[0]));
    assert(is_name(names[names.len() - 1]));
    if names.len() == 1 {
        law_joined_lists_join(names, names, "\n"@);
    } else {
        let t = names.drop_last();
        assert forall|i: int| 0 <= i < t.len() implies is_name(#[trigger] t[i]) by {
            assert(t[i] == names[i]);
        }
        lemma_joined_ends(t);
        assert(t + seq![names.last()] =~= names);
        law_joined_lists_join(t, seq![names.last()], "\n"@);
        law_joined_lists_join(seq![names.last()], t, "\n"@);
    }
}

// ── Git ──

/// What a run of git left behind, or why it could not be started.
#[derive(Debug, PartialEq, Eq)]
pub enum GitRun {
    Ended { success: bool, stdout: Vec<u8>, stderr: Vec<u8> },
    NotStarted(String),
}

/// A question that is put to git, in the order in which they are asked.
#[derive(Debug, PartialEq, Eq)]
pub enum DiffStep {
    /// Whether there is a working tree.
    InsideWorkTree,
    /// Whether there is a commit yet.
    Head,
    /// What changed: since the last commit, or where there is none, what was staged.
    Changes { head: bool },
    /// The files that git does not know, once the changes are known.
    Untracked { changed: String },
}

/// A question by its characters.
#[verifier::ext_equal]
pub ghost enum StepView {
    InsideWorkTree,
    Head,
    Changes { head: bool },
    Untracked { changed: Seq<char> },
}

impl View for DiffStep {
    type V = StepView;

    open spec fn view(&self) -> StepView {
        match self {
            DiffStep::InsideWorkTree => StepView::InsideWorkTree,
            DiffStep::Head => StepView::Head,
            DiffStep::Changes { head } => StepView::Changes { head: *head },
            DiffStep::Untracked { changed } => StepView::Untracked { changed: changed@ },
        }
    }
}

/// What follows an answer.
#[derive(Debug, PartialEq, Eq)]
pub enum DiffNext {
    /// Another question.
    Ask(DiffStep),
    /// The diff.
    Done(String),
    /// Why there is none.
    Failed(String),
}

/// What follows an answer, by its characters.
#[verifier::ext_equal]
pub ghost enum NextView {
    Ask(StepView),
    Done(Seq<char>),
    Failed(Seq<char>),
}

impl View for DiffNext {
    type V = NextView;

    open spec fn view(&self) -> NextView {
        match self {
            DiffNext::Ask(s) => NextView::Ask(s@),
            DiffNext::Done(s) => NextView::Done(s@),
            DiffNext::Failed(s) => NextView::Failed(s@),
        }
    }
}

/// The arguments that git gets for a question.
pub open spec fn git_words(step: StepView) -> Seq<Seq<char>> {
    match step {
        StepView::InsideWorkTree => seq!["rev-parse"@, "--is-inside-work-tree"@],
        StepView::Head => seq!["rev-parse"@, "--verify"@, "HEAD"@],
        StepView::Changes { head } => if head {
            seq!["diff"@, "HEAD"@]
        } else {
            seq!["diff"@, "--cached"@]
        },
        StepView::Untracked { changed } => seq!["ls-files"@, "--others"@, "--exclude-standard"@],
    }
}

/// The arguments that git gets for a question.
pub fn git_args(step: &DiffStep) -> (r: Vec<&'static str>)
    ensures
        label_views(r@) == git_words(step@),
{
    let r: Vec<&'static str> = match step {
        DiffStep::InsideWorkTree => vec!["rev-parse", "--is-inside-work-tree"],
        DiffStep::Head => vec!["rev-parse", "--verify", "HEAD"],
        DiffStep::Changes { head } => if *head {
            vec!["diff", "HEAD"]
        } else {
            vec!["diff", "--cached"]
        },
        DiffStep::Untracked { .. } => vec!["ls-files", "--others", "--exclude-standard"],
    };
    assert(label_views(r@) =~= git_words(step@));
    r
}

/// The words of a call, with spaces between them.
fn spaced(words: &Vec<&'static str>) -> (r: String)
    ensures
        r@ == join(label_views(words@), " "@),
{
    let ghost all = label_views(words@);
    let mut out: String = String::new();
    let mut i: usize = 0;
    assert(all.take(0) =~= seq![]);
    while i < words.len()
        invariant
            i <= words.len(),
            all == label_views(words@),
            out@ == join(all.take(i as int), " "@),
        decreases words.len() - i,
    {
        assert(all.take(i as int + 1).drop_last() =~= all.take(i as int));
        if i > 0 {
            out.append(" ");
        }
        out.append(words[i]);
        i = i + 1;
    }
    assert(all.take(all.len() as int) =~= all);
    out
}

/// What is said of a run that failed: what git said, or else that it failed.
pub open spec fn failure_text(words: Seq<Seq<char>>, stderr: Seq<u8>) -> Seq<char> {
    let said = trim_of(lossy_text(stderr));
    if said.len() == 0 {
        "git "@ + join(words, " "@) + " failed"@
    } else {
        said
    }
}

/// What is said of a run that failed: what git said, or else that it failed.
pub fn git_failure_message(args: &Vec<&'static str>, stderr: &[u8]) -> (r: String)
    ensures
        r@ == failure_text(label_views(args@), stderr@),
{
    let text: String = text_lossy(stderr);
    let said: &str = trim(text.as_str());
    if said.is_empty() {
        let words: String = spaced(args);
        let mut out: String = "git ".to_owned();
        out.append(words.as_str());
        out.append(" failed");
        out
    } else {
        owned(said)
    }
}

/// What a run gave out, or what is said where it failed or could not be started.
pub open spec fn git_output(words: Seq<Seq<char>>, run: GitRun) -> Result<Seq<char>, Seq<char>> {
    match run {
        GitRun::NotStarted(e) => Err("failed to spawn git "@ + join(words, " "@) + ": "@ + e@),
        GitRun::Ended { success, stdout, stderr } => if success {
            Ok(lossy_text(stdout@))
        } else {
            Err(failure_text(words, stderr@))
        },
    }
}

/// What a run gave out, or what is said where it failed or could not be started.
pub fn run_git_in(args: &Vec<&'static str>, run: &GitRun) -> (r: Result<String, String>)
    ensures
        match r {
            Ok(s) => git_output(label_views(args@), *run) == Ok::<Seq<char>, Seq<char>>(s@),
            Err(e) => git_output(label_views(args@), *run) == Err::<Seq<char>, Seq<char>>(e@),
        },
{
    match run {
        GitRun::NotStarted(e) => {
            let words: String = spaced(args);
            let mut out: String = "failed to spawn git ".to_owned();
            out.append(words.as_str());
            out.append(": ");
            out.append(e.as_str());
            Err(out)
        },
        GitRun::Ended { success, stdout, stderr } => if *success {
            Ok(text_lossy(stdout.as_slice()))
        } else {
            Err(git_failure_message(args, stderr.as_slice()))
        },
    }
}

/// Whether git said that there is a working tree; what is said where it could not be started.
pub open spec fn work_tree_answer(run: GitRun) -> Result<bool, Seq<char>> {
    match run {
        GitRun::NotStarted(e) => Err(
            "failed to spawn git — is it installed and on PATH?: "@ + e@,
        ),
        GitRun::Ended { success, stdout, stderr } => Ok(
            success && trim_of(lossy_text(stdout@)) == "true"@,
        ),
    }
}

/// Whether git said that there is a working tree; what is said where it could not be started.
pub fn inside_git_repo(run: &GitRun) -> (r: Result<bool, String>)
    ensures
        match r {
            Ok(b) => work_tree_answer(*run) == Ok::<bool, Seq<char>>(b),
            Err(e) => work_tree_answer(*run) == Err::<bool, Seq<char>>(e@),
        },
{
    match run {
        GitRun::NotStarted(e) => {
            let mut out: String = "failed to spawn git — is it installed and on PATH?: ".to_owned();
            out.append(e.as_str());
            Err(out)
        },
        GitRun::Ended { success, stdout, .. } => {
            let text: String = text_lossy(stdout.as_slice());
            Ok(*success && str_eq(trim(text.as_str()), "true"))
        },
    }
}

/// Whether git found a commit.
pub open spec fn found_head(run: GitRun) -> bool {
    run matches GitRun::Ended { success, .. } && success
}

/// Whether git found a commit.
pub fn has_head(run: &GitRun) -> (r: bool)
    ensures
        r == found_head(*run),
{
    match run {
        GitRun::Ended { success, .. } => *success,
        GitRun::NotStarted(_) => false,
    }
}

/// What follows the answer to a question: first whether there is a working tree, then whether
/// there is a commit, then the changes, then the files that git does not know, then the diff.
pub open spec fn after(step: StepView, run: GitRun) -> NextView {
    match step {
        StepView::InsideWorkTree => match work_tree_answer(run) {
            Err(e) => NextView::Failed(e),
            Ok(false) => NextView::Failed("not inside a git repository"@),
            Ok(true) => NextView::Ask(StepView::Head),
        },
        StepView::Head => NextView::Ask(StepView::Changes { head: found_head(run) }),
        StepView::Changes { head } => match git_output(git_words(step), run) {
            Err(e) => NextView::Failed(e),
            Ok(changed) => NextView::Ask(StepView::Untracked { changed }),
        },
        StepView::Untracked { changed } => match git_output(git_words(step), run) {
            Err(e) => NextView::Failed(e),
            Ok(untracked) => NextView::Done(truncated(diff_text(changed, untracked))),
        },
    }
}

/// Takes the answer to a question and says what follows.
pub fn collect_diff_in(step: DiffStep, run: &GitRun) -> (r: DiffNext)
    ensures
        r@ == after(step@, *run),
{
    let args: Vec<&'static str> = git_args(&step);
    match step {
        DiffStep::InsideWorkTree => match inside_git_repo(run) {
            Err(e) => DiffNext::Failed(e),
            Ok(inside) => if inside {
                DiffNext::Ask(DiffStep::Head)
            } else {
                DiffNext::Failed("not inside a git repository".to_owned())
            },
        },
        DiffStep::Head => DiffNext::Ask(DiffStep::Changes { head: has_head(run) }),
        DiffStep::Changes { .. } => match run_git_in(&args, run) {
            Err(e) => DiffNext::Failed(e),
            Ok(changed) => DiffNext::Ask(DiffStep::Untracked { changed }),
        },
        DiffStep::Untracked { changed } => match run_git_in(&args, run) {
            Err(e) => DiffNext::Failed(e),
            Ok(untracked) => DiffNext::Done(
                truncate(format_diff(changed.as_str(), untracked.as_str())),
            ),
        },
    }
}

/// Four answers are enough: the questions end in a diff or in a failure.
pub proof fn law_questions_end(a: GitRun, b: GitRun, c: GitRun, d: GitRun)
    ensures
        after(StepView::InsideWorkTree, a) matches NextView::Ask(s1) ==> (after(
            s1,
            b,
        ) matches NextView::Ask(s2) ==> (after(s2, c) matches NextView::Ask(s3) ==> after(
            s3,
            d,
        ) !is Ask)),
        after(StepView::InsideWorkTree, a) !is Done,
{
}

/// What a diff leaves in the conversation.
pub open spec fn diff_entry(text: Seq<char>) -> ChatView {
    if is_blank(text) {
        ChatView::System(CLEAN_TEXT@)
    } else {
        ChatView::GitDiff(text)
    }
}

/// Shows a diff, or says that nothing changed.
pub fn execute_in(text: String, chat: &mut ChatLog)
    ensures
        final(chat)@ == old(chat)@.push(diff_entry(text@)),
{
    if trim(text.as_str()).is_empty() {
        chat.push_system_message(CLEAN_TEXT);
    } else {
        chat.push_git_diff(text);
    }
}

/// Inside a working tree, what is shown comes from the answers: the changes since the last commit
/// where there is one and what was staged where there is none, then the files that git does not
/// know. Outside of one, and where a run fails, nothing is shown and it is told why.
pub proof fn law_answers_make_the_diff(a: GitRun, b: GitRun, c: GitRun, d: GitRun)
    ensures
        a is NotStarted ==> after(StepView::InsideWorkTree, a) is Failed,
        a matches GitRun::Ended { success, stdout, .. } ==> after(StepView::InsideWorkTree, a)
            == if success && trim_of(lossy_text(stdout@)) == "true"@ {
            NextView::Ask(StepView::Head)
        } else {
            NextView::Failed("not inside a git repository"@)
        },
        (b matches GitRun::Ended { success, .. } && success) ==> after(StepView::Head, b)
            == NextView::Ask(StepView::Changes { head: true }),
        !(b matches GitRun::Ended { success, .. } && success) ==> after(StepView::Head, b)
            == NextView::Ask(StepView::Changes { head: false }),
        forall|head: bool|
            match c {
                GitRun::Ended { success: true, stdout, .. } => #[trigger] after(
                    StepView::Changes { head },
                    c,
                ) == NextView::Ask(StepView::Untracked { changed: lossy_text(stdout@) }),
                _ => after(StepView::Changes { head }, c) is Failed,
            },
        forall|changed: Seq<char>|
            match d {
                GitRun::Ended { success: true, stdout, .. } => #[trigger] after(
                    StepView::Untracked { changed },
                    d,
                ) == NextView::Done(truncated(diff_text(changed, lossy_text(stdout@)))),
                _ => after(StepView::Untracked { changed }, d) is Failed,
            },
{
}

/// A diff with a character in it that is no white space is shown as it is; one without is told
/// as a clean tree.
pub proof fn law_clean_tree_is_told(text: Seq<char>)
    ensures
        (exists|k: int| 0 <= k < text.len() && !is_space(#[trigger] text[k])) ==> diff_entry(text)
            == ChatView::GitDiff(text),
        (forall|k: int| 0 <= k < text.len() ==> is_space(#[trigger] text[k])) ==> diff_entry(text)
            == ChatView::System("Working tree clean."@),
{
    lemma_blank(text);
}

/// Changes that are blank are not shown.
pub proof fn law_blank_changes_are_not_shown(changed: Seq<char>, untracked: Seq<char>)
    requires
        is_blank(strip_end_of(changed, '\n')),
    ensures
        diff_text(changed, untracked) == diff_text(Seq::empty(), untracked),
        is_blank(untracked) ==> diff_text(changed, untracked).len() == 0,
{
    assert(strip_end_of(Seq::<char>::empty(), '\n') =~= Seq::empty());
    assert(trim_of(Seq::<char>::empty()) =~= Seq::empty());
}

/// A line of the list of files ends at a line feed, with or without a carriage return before it.
pub proof fn law_lines_end_with_or_without_a_return(line: Seq<char>, rest: Seq<char>)
    requires
        !line.contains('\n'),
        line.len() > 0 ==> line.last() != '\r',
    ensures
        indented(line + "\n"@ + rest) == "\n  "@ + line + indented(rest),
        indented(line + "\r\n"@ + rest) == "\n  "@ + line + indented(rest),
        line.len() > 0 ==> indented(line) == "\n  "@ + line,
{
    reveal_strlit("\n");
    reveal_strlit("\r\n");
    let a = line + "\n"@ + rest;
    let b = line + "\r\n"@ + rest;
    let n = line.len() as int;
    lemma_index_of(a, '\n');
    lemma_index_of(b, '\n');
    lemma_index_of(line, '\n');
    let i = index_of(a, '\n');
    let j = index_of(b, '\n');
    assert(a[n] == '\n');
    assert(b[n + 1] == '\n');
    if i < n {
        assert(line[i] == a[i]);
    }
    if j < n {
        assert(line[j] == b[j]);
    }
    assert(b[n] == '\r');
    assert(i == n);
    assert(j == n + 1);
    assert(a.take(n) =~= line);
    assert(a.skip(n + 1) =~= rest);
    assert(b.take(n + 1) =~= line.push('\r'));
    assert(line.push('\r').drop_last() =~= line);
    assert(b.skip(n + 2) =~= rest);
    if index_of(line, '\n') < n {
        assert(line.contains(line[index_of(line, '\n')]));
    }
}

/// What git is asked, and what is told where it fails: what it said, or which question failed; or
/// that it could not be started.
pub proof fn law_git_failures_are_told(
    step: StepView,
    words: Seq<Seq<char>>,
    stdout: Vec<u8>,
    stderr: Vec<u8>,
    e: String,
)
    ensures
        ({
            let failed = git_output(words, GitRun::Ended { success: false, stdout, stderr });
            let said = trim_of(lossy_text(stderr@));
            &&& said.len() > 0 ==> failed == Err::<Seq<char>, Seq<char>>(said)
            &&& said.len() == 0 ==> failed == Err::<Seq<char>, Seq<char>>(
                "git "@ + join(words, " "@) + " failed"@,
            )
            &&& git_output(words, GitRun::NotStarted(e)) == Err::<Seq<char>, Seq<char>>(
                "failed to spawn git "@ + join(words, " "@) + ": "@ + e@,
            )
            &&& git_output(words, GitRun::Ended { success: true, stdout, stderr }) == Ok::<
                Seq<char>,
                Seq<char>,
            >(lossy_text(stdout@))
        }),
        join(git_words(StepView::InsideWorkTree), " "@) == "rev-parse --is-inside-work-tree"@,
        join(git_words(StepView::Head), " "@) == "rev-parse --verify HEAD"@,
        join(git_words(StepView::Changes { head: true }), " "@) == "diff HEAD"@,
        join(git_words(StepView::Changes { head: false }), " "@) == "diff --cached"@,
        step is Untracked ==> join(git_words(step), " "@)
            == "ls-files --others --exclude-standard"@,
{
    reveal_strlit(" ");
    reveal_strlit("rev-parse");
    reveal_strlit("--is-inside-work-tree");
    reveal_strlit("--verify");
    reveal_strlit("HEAD");
    reveal_strlit("diff");
    reveal_strlit("--cached");
    reveal_strlit("ls-files");
    reveal_strlit("--others");
    reveal_strlit("--exclude-standard");
    reveal_strlit("rev-parse --is-inside-work-tree");
    reveal_strlit("rev-parse --verify HEAD");
    reveal_strlit("diff HEAD");
    reveal_strlit("diff --cached");
    reveal_strlit("ls-files --others --exclude-standard");
    lemma_two_words("rev-parse"@, "--is-inside-work-tree"@);
    lemma_two_words("diff"@, "HEAD"@);
    lemma_two_words("diff"@, "--cached"@);
    lemma_three_words("rev-parse"@, "--verify"@, "HEAD"@);
    lemma_three_words("ls-files"@, "--others"@, "--exclude-standard"@);
    assert("rev-parse"@ + " "@ + "--is-inside-work-tree"@ =~= "rev-parse --is-inside-work-tree"@);
    assert("diff"@ + " "@ + "HEAD"@ =~= "diff HEAD"@);
    assert("diff"@ + " "@ + "--cached"@ =~= "diff --cached"@);
    assert("rev-parse"@ + " "@ + "--verify"@ + " "@ + "HEAD"@ =~= "rev-parse --verify HEAD"@);
    assert("ls-files"@ + " "@ + "--others"@ + " "@ + "--exclude-standard"@
        =~= "ls-files --others --exclude-standard"@);
}

proof fn lemma_two_words(a: Seq<char>, b: Seq<char>)
    ensures
        join(seq![a, b], " "@) == a + " "@ + b,
{
    assert(seq![a, b].drop_last() =~= seq![a]);
    assert(join(seq![a], " "@) == a);
}

proof fn lemma_three_words(a: Seq<char>, b: Seq<char>, c: Seq<char>)
    ensures
        join(seq![a, b, c], " "@) == a + " "@ + b + " "@ + c,
{
    assert(seq![a, b, c].drop_last() =~= seq![a, b]);
    lemma_two_words(a, b);
}

/// The files that git does not know are listed as git tells them, behind the changes where there are
/// any.
pub proof fn law_files_are_listed_behind_the_changes(
    changed: Seq<char>,
    ends: nat,
    untracked: Seq<char>,
)
    requires
        changed.len() > 0 ==> !is_blank(changed) && changed.last() != '\n',
    ensures
        ({
            let text = diff_text(changed + repeated('\n', ends), untracked);
            let files = "Untracked files:"@ + indented(trim_of(untracked));
            &&& is_blank(untracked) ==> text == changed
            &&& !is_blank(untracked) && changed.len() == 0 ==> text == files
            &&& !is_blank(untracked) && changed.len() > 0 ==> text == changed + "\n\n"@ + files
        }),
{
    let told = changed + repeated('\n', ends);
    lemma_ends_off(changed, ends);
    assert(strip_end_of(told, '\n') == changed);
    assert(trim_of(Seq::<char>::empty()) =~= Seq::empty());
    let none = Seq::<char>::empty();
    let head = "Untracked files:"@;
    let list = indented(trim_of(untracked));
    assert(none + none + head + list =~= head + list);
    assert(changed + "\n\n"@ + head + list =~= changed + "\n\n"@ + (head + list));
    if changed.len() == 0 {
        assert(changed =~= none);
    }
}

proof fn lemma_ends_off(s: Seq<char>, n: nat)
    requires
        s.len() > 0 ==> s.last() != '\n',
    ensures
        strip_end_of(s + repeated('\n', n), '\n') == s,
    decreases n,
{
    let t = s + repeated('\n', n);
    if n == 0 {
        assert(t =~= s);
    } else {
        assert(t.last() == '\n');
        assert(t.drop_last() =~= s + repeated('\n', (n - 1) as nat));
        lemma_ends_off(s, (n - 1) as nat);
    }
}

} // verus!
