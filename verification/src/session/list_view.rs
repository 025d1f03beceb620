//! The table of sessions.

use vstd::prelude::*;
use vstd::string::*;

use crate::home::{tildified, tildify};
use crate::session::clock::{format_time, has_local_time, time_text, MINUTE_PATTERN};
use crate::session::display::{display_title, id_prefix, short_id, shown_title};
use crate::session::entry::SessionInfo;
use crate::session::state::opt_str_view;
use crate::text::{
    byte_len, byte_prefix, chars_of, decimal, decimal_of, law_byte_prefix_is_a_beginning, len_utf8,
    padded, push_padded,
};
use crate::width::{str_width, truncate_to_width, truncated_to_width, width_of};

verus! {

/// The columns before the project and the title: identifier, last activity, messages.
pub const FIXED_PREFIX_WIDTH: usize = 38;

/// Titles are not cut to less than this.
pub const MIN_TITLE_BUDGET: usize = 12;

/// The least columns of the project.
pub const PROJECT_COL_MIN: usize = 8;

/// The most columns that are kept for the project.
pub const PROJECT_COL_MAX: usize = 40;

/// Whether the short form of an identifier ends between two characters.
pub open spec fn is_cuttable(id: Seq<char>) -> bool {
    byte_len(id) <= 8 || byte_prefix(id, 8) is Some
}

/// Whether a session can be shown in the table, `offset` seconds east of UTC.
pub open spec fn is_listable(s: SessionInfo, offset: i32) -> bool {
    has_local_time(s.last_active_at, offset) && is_cuttable(s.session_id@)
}

/// The widest of the projects, as they are shown.
pub open spec fn widest_project(sessions: Seq<SessionInfo>, home: Option<Seq<char>>) -> nat
    decreases sessions.len(),
{
    if sessions.len() == 0 {
        0
    } else {
        let before = widest_project(sessions.drop_last(), home);
        let here = str_width(tildified(sessions.last().cwd@, home)) as nat;
        if here > before {
            here
        } else {
            before
        }
    }
}

/// The columns of the project: those of the widest, within the limits, and none where it is not
/// shown.
pub open spec fn project_columns(
    sessions: Seq<SessionInfo>,
    all: bool,
    home: Option<Seq<char>>,
) -> nat {
    let widest = widest_project(sessions, home);
    if !all {
        0
    } else if widest < PROJECT_COL_MIN {
        PROJECT_COL_MIN as nat
    } else if widest > PROJECT_COL_MAX {
        PROJECT_COL_MAX as nat
    } else {
        widest
    }
}

/// The columns that are left for titles, where they are known and enough.
pub open spec fn title_budget(term_width: Option<usize>, all: bool, project: nat) -> Option<nat> {
    let prefix = FIXED_PREFIX_WIDTH + if all {
        project + 1
    } else {
        0
    };
    match term_width {
        Some(w) if w >= prefix + MIN_TITLE_BUDGET => Some((w - prefix) as nat),
        _ => None,
    }
}

/// The cells before the title, each filled up to its width.
pub open spec fn cells(
    id: Seq<char>,
    active: Seq<char>,
    msgs: Seq<char>,
    project: Option<Seq<char>>,
    columns: nat,
) -> Seq<char> {
    let fixed = padded(id, 10) + " "@ + padded(active, 19) + " "@ + padded(msgs, 6) + " "@;
    match project {
        Some(p) => fixed + padded(p, columns) + " "@,
        None => fixed,
    }
}

/// The head of the table.
pub open spec fn head_line(all: bool, columns: nat) -> Seq<char> {
    cells(
        "ID"@,
        "Last Active"@,
        "Msgs"@,
        if all {
            Some("Project"@)
        } else {
            None
        },
        columns,
    ) + "Title\n"@
}

/// The number of messages that a session ended with, if it did.
pub open spec fn msgs_text(s: SessionInfo) -> Seq<char> {
    match s.exit {
        Some(e) => decimal(e.message_count as nat),
        None => "-"@,
    }
}

/// A title within its budget.
pub open spec fn budgeted(title: Seq<char>, budget: Option<nat>) -> Seq<char> {
    match budget {
        Some(b) => truncated_to_width(title, b),
        None => title,
    }
}

/// The line of one session.
pub open spec fn session_line(
    s: SessionInfo,
    all: bool,
    offset: i32,
    columns: nat,
    budget: Option<nat>,
    home: Option<Seq<char>>,
) -> Seq<char> {
    cells(
        short_id(s.session_id@),
        time_text(s.last_active_at, offset, MINUTE_PATTERN@),
        msgs_text(s),
        if all {
            Some(tildified(s.cwd@, home))
        } else {
            None
        },
        columns,
    ) + budgeted(shown_title(s), budget) + "\n"@
}

/// The lines of `sessions`.
pub open spec fn session_lines(
    sessions: Seq<SessionInfo>,
    all: bool,
    offset: i32,
    columns: nat,
    budget: Option<nat>,
    home: Option<Seq<char>>,
) -> Seq<char>
    decreases sessions.len(),
{
    if sessions.len() == 0 {
        Seq::empty()
    } else {
        session_lines(sessions.drop_last(), all, offset, columns, budget, home) + session_line(
            sessions.last(),
            all,
            offset,
            columns,
            budget,
            home,
        )
    }
}

/// The table of `sessions`, or a line that says that there are none.
pub open spec fn session_table(
    sessions: Seq<SessionInfo>,
    all: bool,
    offset: i32,
    term_width: Option<usize>,
    home: Option<Seq<char>>,
) -> Seq<char> {
    if sessions.len() == 0 {
        "No sessions found"@ + (if all {
            ""@
        } else {
            " in this project"@
        }) + ".\n"@
    } else {
        let columns = project_columns(sessions, all, home);
        let budget = title_budget(term_width, all, columns);
        head_line(all, columns) + session_lines(sessions, all, offset, columns, budget, home)
    }
}

/// Whether the short form of an identifier ends between two characters.
pub fn can_cut(id: &str) -> (r: bool)
    ensures
        r == is_cuttable(id@),
{
    if crate::text::cut_bytes(id, 8).is_some() {
        return true;
    }
    let cs: Vec<char> = chars_of(id);
    if cs.len() > 8 {
        proof {
            crate::text::lemma_byte_len(id@);
        }
        return false;
    }
    let mut n: usize = 0;
    let mut i: usize = 0;
    while i < cs.len()
        invariant
            i <= cs.len() <= 8,
            cs@ == id@,
            n == byte_len(id@.take(i as int)),
            n <= 4 * i,
        decreases cs.len() - i,
    {
        assert(id@.take(i as int + 1).drop_last() =~= id@.take(i as int));
        n = n + len_utf8(cs[i]);
        i = i + 1;
    }
    assert(id@.take(id@.len() as int) =~= id@);
    n <= 8
}

/// Appends the cells before the title.
fn push_cells(
    out: &mut String,
    id: &str,
    active: &str,
    msgs: &str,
    project: Option<&str>,
    columns: usize,
)
    ensures
        final(out)@ == old(out)@ + cells(
            id@,
            active@,
            msgs@,
            opt_str_view(project),
            columns as nat,
        ),
{
    push_padded(out, id, 10);
    out.append(" ");
    push_padded(out, active, 19);
    out.append(" ");
    push_padded(out, msgs, 6);
    out.append(" ");
    match project {
        Some(p) => {
            push_padded(out, p, columns);
            out.append(" ");
        },
        None => {},
    }
    assert(out@ =~= old(out)@ + cells(
        id@,
        active@,
        msgs@,
        opt_str_view(project),
        columns as nat,
    ));
}

/// The columns of the project.
fn measure_projects(sessions: &Vec<SessionInfo>, all: bool, home: Option<&str>) -> (r: usize)
    ensures
        r == project_columns(sessions@, all, opt_str_view(home)),
        r <= PROJECT_COL_MAX,
{
    if !all {
        return 0;
    }
    let mut widest: usize = 0;
    let mut i: usize = 0;
    while i < sessions.len()
        invariant
            i <= sessions.len(),
            widest == widest_project(sessions@.take(i as int), opt_str_view(home)),
        decreases sessions.len() - i,
    {
        assert(sessions@.take(i as int + 1).drop_last() =~= sessions@.take(i as int));
        let here: usize = width_of(tildify(sessions[i].cwd.as_str(), home).as_str());
        if here > widest {
            widest = here;
        }
        i = i + 1;
    }
    assert(sessions@.take(sessions@.len() as int) =~= sessions@);
    if widest < PROJECT_COL_MIN {
        PROJECT_COL_MIN
    } else if widest > PROJECT_COL_MAX {
        PROJECT_COL_MAX
    } else {
        widest
    }
}

/// An optional number as it is in contracts.
pub open spec fn opt_nat(n: Option<usize>) -> Option<nat> {
    match n {
        Some(n) => Some(n as nat),
        None => None,
    }
}

/// Appends the line of one session.
fn push_session(
    out: &mut String,
    s: &SessionInfo,
    all: bool,
    local_offset: i32,
    columns: usize,
    budget: Option<usize>,
    home: Option<&str>,
)
    requires
        is_listable(*s, local_offset),
    ensures
        final(out)@ == old(out)@ + session_line(
            *s,
            all,
            local_offset,
            columns as nat,
            opt_nat(budget),
            opt_str_view(home),
        ),
{
    let active: String = format_time(s.last_active_at, local_offset, MINUTE_PATTERN);
    let msgs: String = match &s.exit {
        Some(e) => decimal_of(e.message_count as u64),
        None => "-".to_owned(),
    };
    let title: String = display_title(s);
    let title: String = match budget {
        Some(b) => truncate_to_width(title.as_str(), b),
        None => title,
    };
    let id: &str = id_prefix(s.session_id.as_str());
    if all {
        let project: String = tildify(s.cwd.as_str(), home);
        push_cells(out, id, active.as_str(), msgs.as_str(), Some(project.as_str()), columns);
    } else {
        push_cells(out, id, active.as_str(), msgs.as_str(), None, columns);
    }
    out.append(title.as_str());
    out.append("\n");
    assert(out@ =~= old(out)@ + session_line(
        *s,
        all,
        local_offset,
        columns as nat,
        opt_nat(budget),
        opt_str_view(home),
    ));
}

/// The table of sessions. `all` adds a column for the project; a title is cut to what
/// `term_width` leaves for it, where that is known and enough.
pub fn render_sessions(
    sessions: &Vec<SessionInfo>,
    all: bool,
    local_offset: i32,
    term_width: Option<usize>,
    home: Option<&str>,
) -> (r: String)
    requires
        forall|i: int|
            0 <= i < sessions.len() ==> is_listable(#[trigger] sessions@[i], local_offset),
    ensures
        r@ == session_table(sessions@, all, local_offset, term_width, opt_str_view(home)),
{
    let mut out: String = String::new();
    if sessions.len() == 0 {
        out.append("No sessions found");
        if !all {
            out.append(" in this project");
        }
        out.append(".\n");
        proof {
            reveal_strlit("");
        }
        assert(out@ =~= session_table(
            sessions@,
            all,
            local_offset,
            term_width,
            opt_str_view(home),
        ));
        return out;
    }
    let columns: usize = measure_projects(sessions, all, home);
    let prefix: usize = FIXED_PREFIX_WIDTH + if all {
        columns + 1
    } else {
        0
    };
    let budget: Option<usize> = match term_width {
        Some(w) => {
            if w >= prefix + MIN_TITLE_BUDGET {
                Some(w - prefix)
            } else {
                None
            }
        },
        None => None,
    };
    if all {
        push_cells(&mut out, "ID", "Last Active", "Msgs", Some("Project"), columns);
    } else {
        push_cells(&mut out, "ID", "Last Active", "Msgs", None, columns);
    }
    out.append("Title\n");
    let ghost head = head_line(all, columns as nat);
    assert(out@ =~= head);
    let mut i: usize = 0;
    let ghost h = opt_str_view(home);
    let ghost b = opt_nat(budget);
    assert(head + session_lines(sessions@.take(0), all, local_offset, columns as nat, b, h)
        =~= head);
    while i < sessions.len()
        invariant
            i <= sessions.len(),
            forall|k: int|
                0 <= k < sessions.len() ==> is_listable(#[trigger] sessions@[k], local_offset),
            h == opt_str_view(home),
            b == opt_nat(budget),
            out@ == head + session_lines(
                sessions@.take(i as int),
                all,
                local_offset,
                columns as nat,
                b,
                h,
            ),
        decreases sessions.len() - i,
    {
        let ghost before = session_lines(
            sessions@.take(i as int),
            all,
            local_offset,
            columns as nat,
            b,
            h,
        );
        push_session(&mut out, &sessions[i], all, local_offset, columns, budget, home);
        proof {
            assert(sessions@.take(i as int + 1).drop_last() =~= sessions@.take(i as int));
            let line = session_line(sessions@[i as int], all, local_offset, columns as nat, b, h);
            assert(head + before + line =~= head + (before + line));
        }
        i = i + 1;
    }
    assert(sessions@.take(sessions@.len() as int) =~= sessions@);
    out
}

// ── Laws ──

/// The cells before the title take as many characters in the head as in every line, as long as
/// no cell overflows: titles stand under their head.
pub proof fn law_titles_are_aligned(
    id: Seq<char>,
    active: Seq<char>,
    msgs: Seq<char>,
    project: Option<Seq<char>>,
    columns: nat,
)
    requires
        id.len() <= 10,
        active.len() <= 19,
        msgs.len() <= 6,
        project matches Some(p) ==> p.len() <= columns,
    ensures
        cells(id, active, msgs, project, columns).len() == FIXED_PREFIX_WIDTH + (if project is Some {
            columns + 1
        } else {
            0
        }),
{
    reveal_strlit(" ");
}

/// Where titles are cut, a line fits the terminal as long as no cell before the title overflows:
/// what is left for the title and the cells before it, the project's among them where it is
/// shown, are as wide as the terminal. Titles are cut wherever that leaves them enough room, and
/// only there.
pub proof fn law_lines_fit_the_terminal(
    sessions: Seq<SessionInfo>,
    all: bool,
    home: Option<Seq<char>>,
    w: usize,
    id: Seq<char>,
    active: Seq<char>,
    msgs: Seq<char>,
    project: Seq<char>,
)
    requires
        id.len() <= 10,
        active.len() <= 19,
        msgs.len() <= 6,
        project.len() <= project_columns(sessions, all, home),
    ensures
        ({
            let columns = project_columns(sessions, all, home);
            let shown = cells(
                id,
                active,
                msgs,
                if all {
                    Some(project)
                } else {
                    None
                },
                columns,
            );
            &&& title_budget(None, all, columns) is None
            &&& title_budget(Some(w), all, columns) matches Some(b) ==> shown.len() + b == w && b
                >= 12
            &&& title_budget(Some(w), all, columns) is None ==> w < shown.len() + 12
        }),
{
    let columns = project_columns(sessions, all, home);
    law_titles_are_aligned(
        id,
        active,
        msgs,
        if all {
            Some(project)
        } else {
            None
        },
        columns,
    );
}

/// The column of the project takes every project up to the most that is kept for it, and no more
/// than the widest needs; there is none where projects are not shown.
pub proof fn law_project_column_takes_the_widest(
    sessions: Seq<SessionInfo>,
    home: Option<Seq<char>>,
)
    ensures
        project_columns(sessions, false, home) == 0,
        8 <= project_columns(sessions, true, home) <= 40,
        forall|i: int|
            0 <= i < sessions.len() ==> str_width(tildified((#[trigger] sessions[i]).cwd@, home))
                <= project_columns(sessions, true, home) || project_columns(sessions, true, home)
                == 40,
        project_columns(sessions, true, home) > 8 ==> exists|i: int|
            0 <= i < sessions.len() && str_width(tildified((#[trigger] sessions[i]).cwd@, home))
                >= project_columns(sessions, true, home),
{
    lemma_widest(sessions, home);
}

proof fn lemma_widest(sessions: Seq<SessionInfo>, home: Option<Seq<char>>)
    ensures
        forall|i: int|
            0 <= i < sessions.len() ==> str_width(tildified((#[trigger] sessions[i]).cwd@, home))
                <= widest_project(sessions, home),
        widest_project(sessions, home) > 0 ==> exists|i: int|
            0 <= i < sessions.len() && str_width(tildified((#[trigger] sessions[i]).cwd@, home))
                == widest_project(sessions, home),
    decreases sessions.len(),
{
    if sessions.len() > 0 {
        let t = sessions.drop_last();
        lemma_widest(t, home);
        assert forall|i: int| 0 <= i < sessions.len() implies str_width(
            tildified((#[trigger] sessions[i]).cwd@, home),
        ) <= widest_project(sessions, home) by {
            if i < t.len() {
                assert(t[i] == sessions[i]);
            }
        }
        if widest_project(sessions, home) > 0 {
            let n = sessions.len() - 1;
            if str_width(tildified(sessions[n].cwd@, home)) != widest_project(sessions, home) {
                let i = choose|i: int|
                    0 <= i < t.len() && str_width(tildified((#[trigger] t[i]).cwd@, home))
                        == widest_project(t, home);
                assert(sessions[i] == t[i]);
            }
        }
    }
}

/// The line of a session tells its short identifier, when it was active, how many messages it
/// ended with or a dash, its project where that is shown, and its title.
pub proof fn law_line_tells_the_session(
    s: SessionInfo,
    all: bool,
    offset: i32,
    columns: nat,
    budget: Option<nat>,
    home: Option<Seq<char>>,
)
    ensures
        session_line(s, all, offset, columns, budget, home) == padded(short_id(s.session_id@), 10)
            + " "@ + padded(time_text(s.last_active_at, offset, MINUTE_PATTERN@), 19) + " "@
            + padded(
            match s.exit {
                Some(e) => decimal(e.message_count as nat),
                None => "-"@,
            },
            6,
        ) + " "@ + (if all {
            padded(tildified(s.cwd@, home), columns) + " "@
        } else {
            Seq::empty()
        }) + (match (s.title, budget) {
            (None, None) => "(untitled)"@,
            (None, Some(b)) => truncated_to_width("(untitled)"@, b),
            (Some(t), None) => t.title@,
            (Some(t), Some(b)) => truncated_to_width(t.title@, b),
        }) + "\n"@,
{
    assert(session_line(s, all, offset, columns, budget, home) =~= padded(
        short_id(s.session_id@),
        10,
    ) + " "@ + padded(time_text(s.last_active_at, offset, MINUTE_PATTERN@), 19) + " "@ + padded(
        msgs_text(s),
        6,
    ) + " "@ + (if all {
        padded(tildified(s.cwd@, home), columns) + " "@
    } else {
        Seq::empty()
    }) + budgeted(shown_title(s), budget) + "\n"@);
}

/// The table has a head and then a line for each session, in the order in which they come; the
/// head names the columns that the lines have.
pub proof fn law_table_lists_every_session(
    sessions: Seq<SessionInfo>,
    more: SessionInfo,
    all: bool,
    offset: i32,
    columns: nat,
    budget: Option<nat>,
    home: Option<Seq<char>>,
    term_width: Option<usize>,
)
    ensures
        session_lines(sessions.push(more), all, offset, columns, budget, home) == session_lines(
            sessions,
            all,
            offset,
            columns,
            budget,
            home,
        ) + session_line(more, all, offset, columns, budget, home),
        session_lines(Seq::<SessionInfo>::empty(), all, offset, columns, budget, home).len() == 0,
        sessions.len() > 0 ==> ({
            let wide = project_columns(sessions, all, home);
            session_table(sessions, all, offset, term_width, home) == padded("ID"@, 10) + " "@
                + padded("Last Active"@, 19) + " "@ + padded("Msgs"@, 6) + " "@ + (if all {
                padded("Project"@, wide) + " "@
            } else {
                Seq::empty()
            }) + "Title\n"@ + session_lines(
                sessions,
                all,
                offset,
                wide,
                title_budget(term_width, all, wide),
                home,
            )
        }),
        session_table(Seq::<SessionInfo>::empty(), true, offset, term_width, home)
            == "No sessions found.\n"@,
        session_table(Seq::<SessionInfo>::empty(), false, offset, term_width, home)
            == "No sessions found in this project.\n"@,
{
    assert(sessions.push(more).drop_last() =~= sessions);
    reveal_strlit("");
    reveal_strlit(".\n");
    reveal_strlit("No sessions found");
    reveal_strlit(" in this project");
    reveal_strlit("No sessions found.\n");
    reveal_strlit("No sessions found in this project.\n");
    let none = Seq::<SessionInfo>::empty();
    assert(session_table(none, true, offset, term_width, home) =~= "No sessions found.\n"@);
    assert(session_table(none, false, offset, term_width, home)
        =~= "No sessions found in this project.\n"@);
    if sessions.len() > 0 {
        let wide = project_columns(sessions, all, home);
        assert(session_table(sessions, all, offset, term_width, home) =~= padded("ID"@, 10) + " "@
            + padded("Last Active"@, 19) + " "@ + padded("Msgs"@, 6) + " "@ + (if all {
            padded("Project"@, wide) + " "@
        } else {
            Seq::empty()
        }) + "Title\n"@ + session_lines(
            sessions,
            all,
            offset,
            wide,
            title_budget(term_width, all, wide),
            home,
        ));
    }
}

/// An identifier can be cut short where it has no more than eight bytes, or where the first eight
/// are whole characters.
pub proof fn law_identifiers_are_cut_between_characters(id: Seq<char>, k: int)
    ensures
        byte_len(id) <= 8 ==> is_cuttable(id),
        0 <= k <= id.len() && byte_len(id.take(k)) == 8 ==> is_cuttable(id),
        is_cuttable(id) && byte_len(id) > 8 ==> byte_len(short_id(id)) == 8,
{
    law_byte_prefix_is_a_beginning(id, 8);
}

} // verus!
