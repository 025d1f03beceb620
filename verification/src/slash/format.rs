//! Tables of keys and values.

use vstd::prelude::*;
use vstd::string::*;

use crate::text::{byte_len, byte_len_of, lemma_byte_len_add, push_repeated, repeated};

verus! {

/// The keys and values of `rows`, by their characters.
pub open spec fn row_views(rows: Seq<(&str, &str)>) -> Seq<(Seq<char>, Seq<char>)> {
    rows.map_values(|r: (&str, &str)| (r.0@, r.1@))
}

/// The bytes of the longest key.
pub open spec fn longest_key(rows: Seq<(Seq<char>, Seq<char>)>) -> nat
    decreases rows.len(),
{
    if rows.len() == 0 {
        0
    } else {
        let before = longest_key(rows.drop_last());
        let here = byte_len(rows.last().0);
        if here > before {
            here
        } else {
            before
        }
    }
}

/// One row: the key, filled up to `gutter` bytes, and the value.
pub open spec fn row_text(row: (Seq<char>, Seq<char>), gutter: nat) -> Seq<char> {
    "  "@ + row.0 + repeated(' ', (gutter - byte_len(row.0)) as nat) + "  "@ + row.1 + "\n"@
}

/// The rows, each with its values in the column behind the longest key.
pub open spec fn rows_text(rows: Seq<(Seq<char>, Seq<char>)>, gutter: nat) -> Seq<char>
    decreases rows.len(),
{
    if rows.len() == 0 {
        Seq::empty()
    } else {
        rows_text(rows.drop_last(), gutter) + row_text(rows.last(), gutter)
    }
}

/// The table of `rows`.
pub open spec fn table_text(rows: Seq<(Seq<char>, Seq<char>)>) -> Seq<char> {
    rows_text(rows, longest_key(rows))
}

proof fn lemma_longest_key(rows: Seq<(Seq<char>, Seq<char>)>, i: int)
    requires
        0 <= i < rows.len(),
    ensures
        byte_len(rows[i].0) <= longest_key(rows),
    decreases rows.len(),
{
    if i < rows.len() - 1 {
        assert(rows.drop_last()[i] == rows[i]);
        lemma_longest_key(rows.drop_last(), i);
    }
}

/// Appends a heading, a blank line and the table of `rows`, behind a blank line where something
/// stands before it.
pub fn write_kv_section(out: &mut String, heading: &str, rows: &Vec<(&str, &str)>)
    ensures
        final(out)@ == old(out)@ + (if old(out)@.len() == 0 {
            Seq::empty()
        } else {
            "\n"@
        }) + heading@ + "\n\n"@ + table_text(row_views(rows@)),
{
    proof {
        reveal_strlit("\n");
        reveal_strlit("\n\n");
    }
    let ghost before = out@;
    if !out.as_str().is_empty() {
        out.append("\n");
    }
    out.append(heading);
    out.append("\n\n");
    assert(out@ =~= before + (if before.len() == 0 {
        Seq::empty()
    } else {
        "\n"@
    }) + heading@ + "\n\n"@);
    write_kv_table(out, rows);
}

/// Appends the table of `rows`: nothing where there are none.
pub fn write_kv_table(out: &mut String, rows: &Vec<(&str, &str)>)
    ensures
        final(out)@ == old(out)@ + table_text(row_views(rows@)),
{
    let ghost all = row_views(rows@);
    let ghost start = out@;
    let mut gutter: usize = 0;
    let mut i: usize = 0;
    while i < rows.len()
        invariant
            i <= rows.len(),
            all == row_views(rows@),
            gutter == longest_key(all.take(i as int)),
        decreases rows.len() - i,
    {
        assert(all.take(i as int + 1).drop_last() =~= all.take(i as int));
        let here: usize = byte_len_of(rows[i].0);
        if here > gutter {
            gutter = here;
        }
        i = i + 1;
    }
    assert(all.take(all.len() as int) =~= all);
    let mut j: usize = 0;
    assert(start + rows_text(all.take(0), gutter as nat) =~= start);
    while j < rows.len()
        invariant
            j <= rows.len(),
            all == row_views(rows@),
            gutter == longest_key(all),
            out@ == start + rows_text(all.take(j as int), gutter as nat),
        decreases rows.len() - j,
    {
        let ghost before = out@;
        proof {
            lemma_longest_key(all, j as int);
            assert(all[j as int] == (rows@[j as int].0@, rows@[j as int].1@));
        }
        let key: &str = rows[j].0;
        let pad: usize = gutter - byte_len_of(key);
        out.append("  ");
        out.append(key);
        push_repeated(out, ' ', pad);
        out.append("  ");
        out.append(rows[j].1);
        out.append("\n");
        proof {
            assert(out@ =~= before + row_text(all[j as int], gutter as nat));
            assert(all.take(j as int + 1).drop_last() =~= all.take(j as int));
            assert(start + rows_text(all.take(j as int), gutter as nat) + row_text(
                all[j as int],
                gutter as nat,
            ) =~= start + (rows_text(all.take(j as int), gutter as nat) + row_text(
                all[j as int],
                gutter as nat,
            )));
        }
        j = j + 1;
    }
    assert(all.take(all.len() as int) =~= all);
}

/// Blanks take a byte each.
proof fn lemma_blanks(n: nat)
    ensures
        byte_len(repeated(' ', n)) == n,
    decreases n,
{
    if n > 0 {
        lemma_blanks((n - 1) as nat);
        assert(repeated(' ', n) =~= repeated(' ', (n - 1) as nat) + seq![' ']);
        lemma_byte_len_add(repeated(' ', (n - 1) as nat), seq![' ']);
        reveal_with_fuel(byte_len, 2);
        assert(seq![' '].drop_last() =~= Seq::empty());
    } else {
        assert(repeated(' ', 0) =~= Seq::empty());
    }
}

/// What stands before the value of a row.
pub open spec fn before_value(key: Seq<char>, gutter: nat) -> Seq<char> {
    "  "@ + key + repeated(' ', (gutter - byte_len(key)) as nat) + "  "@
}

/// In a table, what stands before each value takes the same number of bytes: those of the longest
/// key and four blanks.
pub proof fn law_values_are_aligned(rows: Seq<(Seq<char>, Seq<char>)>, i: int)
    requires
        0 <= i < rows.len(),
    ensures
        row_text(rows[i], longest_key(rows)) == before_value(rows[i].0, longest_key(rows))
            + rows[i].1 + "\n"@,
        byte_len(before_value(rows[i].0, longest_key(rows))) == longest_key(rows) + 4,
{
    let key = rows[i].0;
    let gutter = longest_key(rows);
    let pad = repeated(' ', (gutter - byte_len(key)) as nat);
    lemma_longest_key(rows, i);
    lemma_blanks((gutter - byte_len(key)) as nat);
    lemma_blanks(2);
    reveal_strlit("  ");
    assert("  "@ =~= repeated(' ', 2));
    lemma_byte_len_add("  "@, key);
    lemma_byte_len_add("  "@ + key, pad);
    lemma_byte_len_add("  "@ + key + pad, "  "@);
}

/// The column of the keys is as wide as the longest of them, and no wider.
pub proof fn law_keys_are_as_wide_as_the_longest(rows: Seq<(Seq<char>, Seq<char>)>)
    ensures
        forall|i: int|
            0 <= i < rows.len() ==> byte_len((#[trigger] rows[i]).0) <= longest_key(rows),
        rows.len() > 0 ==> exists|i: int|
            0 <= i < rows.len() && byte_len((#[trigger] rows[i]).0) == longest_key(rows),
    decreases rows.len(),
{
    if rows.len() > 0 {
        let t = rows.drop_last();
        let n = t.len() as int;
        law_keys_are_as_wide_as_the_longest(t);
        assert(forall|i: int| 0 <= i < n ==> #[trigger] rows[i] == t[i]);
        assert(rows[n] == rows.last());
        if byte_len(rows.last().0) > longest_key(t) || n == 0 {
            assert(byte_len(rows[n].0) == longest_key(rows));
        } else {
            let i = choose|i: int|
                0 <= i < t.len() && byte_len((#[trigger] t[i]).0) == longest_key(t);
            assert(byte_len(rows[i].0) == longest_key(rows));
        }
    }
}

/// A table has a line for each row, in order: the key, filled with spaces to the width of the
/// column, and the value, with two spaces before each.
pub proof fn law_table_has_a_line_for_each_row(
    rows: Seq<(Seq<char>, Seq<char>)>,
    row: (Seq<char>, Seq<char>),
    gutter: nat,
)
    requires
        byte_len(row.0) <= gutter,
    ensures
        rows_text(Seq::empty(), gutter).len() == 0,
        rows_text(rows.push(row), gutter) == rows_text(rows, gutter) + ("  "@ + row.0 + repeated(
            ' ',
            (gutter - byte_len(row.0)) as nat,
        ) + "  "@ + row.1 + "\n"@),
        table_text(rows) == rows_text(rows, longest_key(rows)),
{
    assert(rows.push(row).drop_last() =~= rows);
}

} // verus!
