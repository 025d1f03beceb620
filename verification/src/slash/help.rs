//! `/help`: the commands and how they are used.

use vstd::prelude::*;
use vstd::string::*;

use crate::slash::registry::{row_views, CommandRow, RowView};
use crate::text::{join, owned};
use crate::tui::kv_overview::{pair_views, KvOverview, KvSection, OverviewView, SectionView};

verus! {

/// How a command is shown: its name, its other names, and what its arguments look like.
pub open spec fn label_text(row: RowView) -> Seq<char> {
    "/"@ + row.name + (if row.aliases.len() == 0 {
        Seq::empty()
    } else {
        " ("@ + join(row.aliases, ", "@) + ")"@
    }) + (match row.usage {
        Some(u) => " "@ + u,
        None => Seq::empty(),
    })
}

/// How a command is shown: its name, its other names, and what its arguments look like.
pub fn display_label(row: &CommandRow) -> (r: String)
    ensures
        r@ == label_text(row@),
{
    let mut out: String = "/".to_owned();
    out.append(row.name);
    let ghost base = out@;
    let ghost all = row@.aliases;
    assert(all.len() == row.aliases@.len());
    if row.aliases.len() > 0 {
        out.append(" (");
        let ghost head = out@;
        let mut i: usize = 0;
        assert(all.take(0) =~= seq![]);
        assert(out@ =~= head + join(all.take(0), ", "@));
        while i < row.aliases.len()
            invariant
                i <= row.aliases.len(),
                all == row@.aliases,
                out@ == head + join(all.take(i as int), ", "@),
            decreases row.aliases.len() - i,
        {
            assert(all.take(i as int + 1).drop_last() =~= all.take(i as int));
            assert(all.take(i as int + 1).last() == row.aliases@[i as int]@);
            if i > 0 {
                out.append(", ");
            }
            out.append(row.aliases[i]);
            assert(out@ =~= head + join(all.take(i as int + 1), ", "@));
            i = i + 1;
        }
        assert(all.take(all.len() as int) =~= all);
        out.append(")");
        assert(out@ =~= base + (" ("@ + join(all, ", "@) + ")"@));
    } else {
        assert(out@ =~= base + Seq::empty());
    }
    let ghost named = out@;
    match row.usage {
        Some(usage) => {
            out.append(" ");
            out.append(usage);
            assert(out@ =~= named + (" "@ + usage@));
        },
        None => {
            assert(out@ =~= named + Seq::empty());
        },
    }
    out
}

/// The overview of the commands: how each is shown, and what it does.
pub open spec fn help_view(rows: Seq<RowView>) -> OverviewView {
    OverviewView {
        title: "Help"@,
        sections: seq![
            SectionView {
                heading: None,
                rows: rows.map_values(|row: RowView| (label_text(row), row.description)),
            },
        ],
    }
}

/// The overview of the commands: how each is shown, and what it does.
pub fn build_modal(commands: &Vec<CommandRow>) -> (r: KvOverview)
    ensures
        r@ == help_view(row_views(commands@)),
{
    let ghost want = row_views(commands@).map_values(
        |row: RowView| (label_text(row), row.description),
    );
    let mut rows: Vec<(String, String)> = Vec::new();
    let mut i: usize = 0;
    while i < commands.len()
        invariant
            i <= commands.len(),
            want == row_views(commands@).map_values(
                |row: RowView| (label_text(row), row.description),
            ),
            pair_views(rows@) =~= want.take(i as int),
        decreases commands.len() - i,
    {
        let pair: (String, String) = (display_label(&commands[i]), owned(commands[i].description.as_str()));
        assert(pair_views(rows@.push(pair)) =~= pair_views(rows@).push((pair.0@, pair.1@)));
        assert(want[i as int] == (pair.0@, pair.1@));
        rows.push(pair);
        i = i + 1;
    }
    assert(want.take(want.len() as int) =~= want);
    let section: KvSection = KvSection { heading: None, rows };
    let sections: Vec<KvSection> = vec![section];
    assert(sections@.map_values(|s: KvSection| s@) =~= help_view(row_views(commands@)).sections);
    KvOverview::new("Help", sections)
}

/// A command is told by its name behind a slash, its other names in brackets where it has any, and
/// what it takes where it takes anything.
pub proof fn law_commands_are_told_by_name_and_usage(row: RowView)
    ensures
        ({
            let others = " ("@ + join(row.aliases, ", "@) + ")"@;
            &&& row.aliases.len() == 0 && row.usage is None ==> label_text(row) == "/"@ + row.name
            &&& row.aliases.len() > 0 && row.usage is None ==> label_text(row) == "/"@ + row.name
                + others
            &&& row.aliases.len() == 0 && row.usage is Some ==> label_text(row) == "/"@ + row.name
                + " "@ + row.usage->0
            &&& row.aliases.len() > 0 && row.usage is Some ==> label_text(row) == "/"@ + row.name
                + others + " "@ + row.usage->0
        }),
{
    let others = " ("@ + join(row.aliases, ", "@) + ")"@;
    let none = Seq::<char>::empty();
    let name = "/"@ + row.name;
    if row.usage is None {
        assert(name + none + none =~= name);
        assert(name + others + none =~= name + others);
    } else {
        let usage = " "@ + row.usage->0;
        assert(name + none + usage =~= name + " "@ + row.usage->0);
        assert(name + others + usage =~= name + others + " "@ + row.usage->0);
    }
}

/// The help tells of every command, in order, with its description.
pub proof fn law_help_tells_of_every_command(rows: Seq<RowView>, i: int)
    requires
        0 <= i < rows.len(),
    ensures
        help_view(rows).title == "Help"@,
        help_view(rows).sections.len() == 1,
        help_view(rows).sections[0].heading is None,
        help_view(rows).sections[0].rows.len() == rows.len(),
        help_view(rows).sections[0].rows[i].0 == label_text(rows[i]),
        help_view(rows).sections[0].rows[i].1 == rows[i].description,
{
}

} // verus!
