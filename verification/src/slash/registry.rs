//! What is known of each command, and finding a command by name.

use vstd::prelude::*;
use vstd::string::*;

use crate::text::str_eq;

verus! {

/// Whether a command can run while the assistant is busy.
#[derive(Debug, Clone, Copy, PartialEq, Eq, Structural)]
pub enum SlashKind {
    ReadOnly,
    Mutating,
    /// No such command. Only a lookup says so, never a command.
    Unknown,
}

/// What an argument can be completed to.
#[derive(Debug, PartialEq, Eq)]
pub struct ArgCompletion {
    pub value: String,
    pub description: String,
}

/// What each completion is: its value and its description.
pub open spec fn completion_views(v: Seq<ArgCompletion>) -> Seq<(Seq<char>, Seq<char>)> {
    v.map_values(|c: ArgCompletion| (c.value@, c.description@))
}

/// What is shown of a command, and what it answers to.
#[derive(Debug)]
pub struct CommandRow {
    pub name: &'static str,
    pub aliases: Vec<&'static str>,
    pub description: String,
    /// What its arguments look like, where it takes any.
    pub usage: Option<&'static str>,
}

/// A row by its characters.
#[verifier::ext_equal]
pub ghost struct RowView {
    pub name: Seq<char>,
    pub aliases: Seq<Seq<char>>,
    pub description: Seq<char>,
    pub usage: Option<Seq<char>>,
}

impl View for CommandRow {
    type V = RowView;

    open spec fn view(&self) -> RowView {
        RowView {
            name: self.name@,
            aliases: self.aliases@.map_values(|s: &'static str| s@),
            description: self.description@,
            usage: match self.usage {
                Some(u) => Some(u@),
                None => None,
            },
        }
    }
}

/// What each row is.
pub open spec fn row_views(rows: Seq<CommandRow>) -> Seq<RowView> {
    rows.map_values(|row: CommandRow| row@)
}

/// The first row of that name.
pub open spec fn named(rows: Seq<RowView>, name: Seq<char>) -> Option<int>
    decreases rows.len(),
{
    if rows.len() == 0 {
        None
    } else {
        match named(rows.drop_last(), name) {
            Some(i) => Some(i),
            None => if rows.last().name == name {
                Some(rows.len() - 1)
            } else {
                None
            },
        }
    }
}

/// The first row with that alias.
pub open spec fn nicknamed(rows: Seq<RowView>, name: Seq<char>) -> Option<int>
    decreases rows.len(),
{
    if rows.len() == 0 {
        None
    } else {
        match nicknamed(rows.drop_last(), name) {
            Some(i) => Some(i),
            None => if rows.last().aliases.contains(name) {
                Some(rows.len() - 1)
            } else {
                None
            },
        }
    }
}

/// The row that `name` stands for: the first of that name, or else the first with that alias.
pub open spec fn looked_up(rows: Seq<RowView>, name: Seq<char>) -> Option<int> {
    match named(rows, name) {
        Some(i) => Some(i),
        None => nicknamed(rows, name),
    }
}

/// Whether the row answers to the alias `name`.
pub fn has_alias(row: &CommandRow, name: &str) -> (r: bool)
    ensures
        r == row@.aliases.contains(name@),
{
    let ghost aliases = row@.aliases;
    let mut i: usize = 0;
    while i < row.aliases.len()
        invariant
            i <= row.aliases.len(),
            aliases == row@.aliases,
            forall|k: int| 0 <= k < i ==> #[trigger] aliases[k] != name@,
        decreases row.aliases.len() - i,
    {
        assert(aliases[i as int] == row.aliases@[i as int]@);
        if str_eq(row.aliases[i], name) {
            return true;
        }
        i = i + 1;
    }
    false
}

/// The place of the row that `name` stands for. Names come before aliases.
pub fn lookup_in(rows: &Vec<CommandRow>, name: &str) -> (r: Option<usize>)
    ensures
        match r {
            Some(i) => i < rows@.len() && looked_up(row_views(rows@), name@) == Some(i as int),
            None => looked_up(row_views(rows@), name@) is None,
        },
{
    let ghost all = row_views(rows@);
    let mut i: usize = 0;
    assert(all.take(0) =~= seq![]);
    while i < rows.len()
        invariant
            i <= rows.len(),
            all == row_views(rows@),
            named(all.take(i as int), name@) is None,
        decreases rows.len() - i,
    {
        assert(all.take(i as int + 1).drop_last() =~= all.take(i as int));
        if str_eq(rows[i].name, name) {
            proof {
                lemma_named_prefix(all, name@, i as int + 1);
            }
            return Some(i);
        }
        i = i + 1;
    }
    assert(all.take(all.len() as int) =~= all);
    let mut j: usize = 0;
    while j < rows.len()
        invariant
            j <= rows.len(),
            all == row_views(rows@),
            named(all, name@) is None,
            nicknamed(all.take(j as int), name@) is None,
        decreases rows.len() - j,
    {
        assert(all.take(j as int + 1).drop_last() =~= all.take(j as int));
        if has_alias(&rows[j], name) {
            proof {
                lemma_nicknamed_prefix(all, name@, j as int + 1);
            }
            return Some(j);
        }
        j = j + 1;
    }
    None
}

/// What the first rows hold, the first of all rows is.
proof fn lemma_named_prefix(rows: Seq<RowView>, name: Seq<char>, n: int)
    requires
        0 <= n <= rows.len(),
        named(rows.take(n), name) is Some,
    ensures
        named(rows, name) == named(rows.take(n), name),
    decreases rows.len(),
{
    if n == rows.len() {
        assert(rows.take(n) =~= rows);
    } else {
        assert(rows.drop_last().take(n) =~= rows.take(n));
        lemma_named_prefix(rows.drop_last(), name, n);
    }
}

proof fn lemma_nicknamed_prefix(rows: Seq<RowView>, name: Seq<char>, n: int)
    requires
        0 <= n <= rows.len(),
        nicknamed(rows.take(n), name) is Some,
    ensures
        nicknamed(rows, name) == nicknamed(rows.take(n), name),
    decreases rows.len(),
{
    if n == rows.len() {
        assert(rows.take(n) =~= rows);
    } else {
        assert(rows.drop_last().take(n) =~= rows.take(n));
        lemma_nicknamed_prefix(rows.drop_last(), name, n);
    }
}

/// A lookup finds a row exactly where some row has that name or alias, and then one that has it.
pub proof fn law_lookup_is_complete(rows: Seq<RowView>, name: Seq<char>)
    ensures
        looked_up(rows, name) is Some <==> exists|i: int|
            0 <= i < rows.len() && ((#[trigger] rows[i]).name == name || rows[i].aliases.contains(
                name,
            )),
        looked_up(rows, name) matches Some(i) ==> 0 <= i < rows.len() && (rows[i].name == name
            || rows[i].aliases.contains(name)),
        forall|i: int|
            0 <= i < rows.len() && (#[trigger] rows[i]).name == name ==> (looked_up(
                rows,
                name,
            ) matches Some(k) && k <= i && rows[k].name == name),
{
    lemma_named(rows, name);
    lemma_nicknamed(rows, name);
}

proof fn lemma_named(rows: Seq<RowView>, name: Seq<char>)
    ensures
        named(rows, name) matches Some(i) ==> 0 <= i < rows.len() && rows[i].name == name,
        forall|i: int|
            0 <= i < rows.len() && (#[trigger] rows[i]).name == name ==> (named(
                rows,
                name,
            ) matches Some(k) && k <= i),
    decreases rows.len(),
{
    if rows.len() > 0 {
        let front = rows.drop_last();
        lemma_named(front, name);
        assert forall|i: int| 0 <= i < rows.len() && (#[trigger] rows[i]).name == name implies (
        named(rows, name) matches Some(k) && k <= i) by {
            if i < front.len() {
                assert(front[i] == rows[i]);
            }
        }
    }
}

proof fn lemma_nicknamed(rows: Seq<RowView>, name: Seq<char>)
    ensures
        nicknamed(rows, name) matches Some(i) ==> 0 <= i < rows.len() && rows[i].aliases.contains(
            name,
        ),
        forall|i: int|
            0 <= i < rows.len() && (#[trigger] rows[i]).aliases.contains(name) ==> (nicknamed(
                rows,
                name,
            ) matches Some(k) && k <= i),
    decreases rows.len(),
{
    if rows.len() > 0 {
        let front = rows.drop_last();
        lemma_nicknamed(front, name);
        assert forall|i: int|
            0 <= i < rows.len() && (#[trigger] rows[i]).aliases.contains(name) implies (nicknamed(
            rows,
            name,
        ) matches Some(k) && k <= i) by {
            if i < front.len() {
                assert(front[i] == rows[i]);
            }
        }
    }
}

/// A name that no command has is looked for among the other names, and the first command that has
/// it is found.
pub proof fn law_other_names_find_the_first(rows: Seq<RowView>, name: Seq<char>, i: int)
    requires
        forall|k: int| 0 <= k < rows.len() ==> (#[trigger] rows[k]).name != name,
        0 <= i < rows.len(),
        rows[i].aliases.contains(name),
        forall|k: int| 0 <= k < i ==> !(#[trigger] rows[k]).aliases.contains(name),
    ensures
        looked_up(rows, name) == Some(i),
{
    law_lookup_is_complete(rows, name);
    lemma_no_name(rows, name);
    lemma_first_nickname(rows, name, i);
}

proof fn lemma_no_name(rows: Seq<RowView>, name: Seq<char>)
    requires
        forall|k: int| 0 <= k < rows.len() ==> (#[trigger] rows[k]).name != name,
    ensures
        named(rows, name) is None,
    decreases rows.len(),
{
    if rows.len() > 0 {
        let t = rows.drop_last();
        assert(forall|k: int| 0 <= k < t.len() ==> #[trigger] t[k] == rows[k]);
        lemma_no_name(t, name);
        assert(rows[rows.len() - 1].name != name);
    }
}

proof fn lemma_first_nickname(rows: Seq<RowView>, name: Seq<char>, i: int)
    requires
        0 <= i <= rows.len(),
        i < rows.len() ==> rows[i].aliases.contains(name),
        forall|k: int| 0 <= k < i ==> !(#[trigger] rows[k]).aliases.contains(name),
    ensures
        nicknamed(rows, name) == if i < rows.len() {
            Some(i)
        } else {
            None
        },
    decreases rows.len(),
{
    if rows.len() > 0 {
        let t = rows.drop_last();
        assert(forall|k: int| 0 <= k < t.len() ==> #[trigger] t[k] == rows[k]);
        if i < rows.len() {
            lemma_first_nickname(t, name, i);
        } else {
            lemma_first_nickname(t, name, i - 1);
            assert(!rows[i - 1].aliases.contains(name));
        }
    }
}

} // verus!
