//! What listings and dialogs say of a session.

use vstd::prelude::*;
use vstd::string::*;

use crate::session::clock::{
    format_time, has_local_time, is_instant, now_utc, time_text, DATE_PATTERN, SECOND,
};
use crate::session::entry::SessionInfo;
use crate::session::state::opt_str_view;
use crate::text::{
    byte_len, byte_prefix, cut_bytes, decimal, decimal_of, law_byte_prefix_is_a_beginning,
};

verus! {

/// Stands between two parts of a metadata line.
pub const SEPARATOR: &'static str = " · ";

/// The bytes of an identifier that are shown.
pub const ID_PREFIX_WIDTH: usize = 8;

/// Stands for a title that is not there.
pub const UNTITLED_MARKER: &'static str = "(untitled)";

/// The first bytes of an identifier, or all of it where they are not whole characters of it.
pub open spec fn short_id(id: Seq<char>) -> Seq<char> {
    match byte_prefix(id, ID_PREFIX_WIDTH as nat) {
        Some(p) => p,
        None => id,
    }
}

/// The first bytes of an identifier, or all of it where it is shorter.
pub fn id_prefix(session_id: &str) -> (r: &str)
    ensures
        r@ == short_id(session_id@),
{
    match cut_bytes(session_id, ID_PREFIX_WIDTH) {
        Some(p) => p,
        None => session_id,
    }
}

/// The title of a session, or a marker.
pub open spec fn shown_title(info: SessionInfo) -> Seq<char> {
    match info.title {
        Some(t) => t.title@,
        None => UNTITLED_MARKER@,
    }
}

/// The title of a session, or a marker.
pub fn display_title(info: &SessionInfo) -> (r: String)
    ensures
        r@ == shown_title(*info),
{
    match &info.title {
        Some(t) => t.title.clone(),
        None => UNTITLED_MARKER.to_owned(),
    }
}

/// Whole seconds from `ts` to `now`, none where `ts` lies ahead.
pub open spec fn seconds_between(ts: i128, now: i128) -> nat {
    if now < ts {
        0
    } else {
        ((now - ts) / 1_000_000_000) as nat
    }
}

/// `n` units ago.
pub open spec fn ago(n: nat, unit: Seq<char>) -> Seq<char> {
    decimal(n) + " "@ + unit + (if n == 1 {
        ""@
    } else {
        "s"@
    }) + " ago"@
}

/// How long ago something was, in the largest unit below a month, or `date` from a month on.
pub open spec fn relative_text(secs: nat, date: Seq<char>) -> Seq<char> {
    if secs < 60 {
        ago(secs, "second"@)
    } else if secs < 3600 {
        ago(secs / 60, "minute"@)
    } else if secs < 86_400 {
        ago(secs / 3600, "hour"@)
    } else if secs < 30 * 86_400 {
        ago(secs / 86_400, "day"@)
    } else {
        date
    }
}

/// `n` units ago.
fn ago_text(n: u64, unit: &str) -> (r: String)
    ensures
        r@ == ago(n as nat, unit@),
{
    let mut out: String = decimal_of(n);
    out.append(" ");
    out.append(unit);
    if n != 1 {
        out.append("s");
    }
    out.append(" ago");
    proof {
        reveal_strlit("");
        assert(out@ =~= ago(n as nat, unit@));
    }
    out
}

/// How long ago something was, given its date for what is older than a month.
pub fn relative_time(secs: u64, date: &str) -> (r: String)
    ensures
        r@ == relative_text(secs as nat, date@),
{
    if secs < 60 {
        ago_text(secs, "second")
    } else if secs < 3600 {
        ago_text(secs / 60, "minute")
    } else if secs < 86_400 {
        ago_text(secs / 3600, "hour")
    } else if secs < 30 * 86_400 {
        ago_text(secs / 86_400, "day")
    } else {
        date.to_owned()
    }
}

/// How long before `now` the instant `ts` was, or its date `offset` seconds east of UTC.
pub fn format_relative_time(ts: i128, offset: i32, now: i128) -> (r: String)
    requires
        has_local_time(ts, offset),
        is_instant(now as int),
    ensures
        r@ == relative_text(
            seconds_between(ts, now),
            time_text(ts, offset, DATE_PATTERN@),
        ),
{
    let secs: u64 = if now < ts {
        0
    } else {
        ((now - ts) / SECOND) as u64
    };
    let date: String = format_time(ts, offset, DATE_PATTERN);
    relative_time(secs, date.as_str())
}

/// The part of a metadata line that tells the number of messages.
pub open spec fn count_part(count: u32) -> Seq<char> {
    if count == 0 {
        Seq::empty()
    } else {
        SEPARATOR@ + decimal(count as nat) + (if count == 1 {
            " msg"@
        } else {
            " msgs"@
        })
    }
}

/// A part that has something in it.
pub open spec fn filled(part: Option<Seq<char>>) -> Option<Seq<char>> {
    match part {
        Some(p) if p.len() > 0 => Some(p),
        _ => None,
    }
}

/// A part that has something in it.
pub(crate) fn filled_str<'a>(part: Option<&'a str>) -> (r: Option<&'a str>)
    ensures
        opt_str_view(r) == filled(opt_str_view(part)),
{
    match part {
        Some(p) => if p.is_empty() {
            None
        } else {
            Some(p)
        },
        None => None,
    }
}

/// An optional part of a metadata line.
pub open spec fn optional_part(part: Option<Seq<char>>) -> Seq<char> {
    match part {
        Some(p) => SEPARATOR@ + p,
        None => Seq::empty(),
    }
}

/// A session in one line: its short identifier, when it was active, and what else is known.
pub open spec fn metadata_text(
    id: Seq<char>,
    when: Seq<char>,
    count: u32,
    branch: Option<Seq<char>>,
    project: Option<Seq<char>>,
) -> Seq<char> {
    short_id(id) + SEPARATOR@ + when + count_part(count) + optional_part(branch) + optional_part(
        project,
    )
}

/// A session in one line, given when it was active.
pub fn metadata_line(
    session_id: &str,
    when: &str,
    message_count: u32,
    git_branch: Option<&str>,
    project: Option<&str>,
) -> (r: String)
    ensures
        r@ == metadata_text(
            session_id@,
            when@,
            message_count,
            opt_str_view(git_branch),
            opt_str_view(project),
        ),
{
    let mut meta: String = id_prefix(session_id).to_owned();
    meta.append(SEPARATOR);
    meta.append(when);
    let ghost base = meta@;
    if message_count > 0 {
        meta.append(SEPARATOR);
        meta.append(decimal_of(message_count as u64).as_str());
        if message_count == 1 {
            meta.append(" msg");
        } else {
            meta.append(" msgs");
        }
    }
    assert(meta@ =~= base + count_part(message_count));
    let ghost base = meta@;
    match git_branch {
        Some(branch) => {
            meta.append(SEPARATOR);
            meta.append(branch);
        },
        None => {},
    }
    assert(meta@ =~= base + optional_part(opt_str_view(git_branch)));
    let ghost base = meta@;
    match project {
        Some(p) => {
            meta.append(SEPARATOR);
            meta.append(p);
        },
        None => {},
    }
    assert(meta@ =~= base + optional_part(opt_str_view(project)));
    meta
}

/// A session in one line, at the present instant.
pub fn format_metadata_line(
    session_id: &str,
    last_active_at: i128,
    local_offset: i32,
    message_count: u32,
    git_branch: Option<&str>,
    project: Option<&str>,
) -> (r: String)
    requires
        has_local_time(last_active_at, local_offset),
    ensures
        exists|now: i128|
            is_instant(now as int) && r@ == metadata_text(
                session_id@,
                relative_text(
                    #[trigger] seconds_between(last_active_at, now),
                    time_text(last_active_at, local_offset, DATE_PATTERN@),
                ),
                message_count,
                opt_str_view(git_branch),
                opt_str_view(project),
            ),
{
    let now: i128 = now_utc();
    let when: String = format_relative_time(last_active_at, local_offset, now);
    metadata_line(session_id, when.as_str(), message_count, git_branch, project)
}

/// A short identifier is the first eight bytes of the whole, where those are whole characters,
/// and the whole where it has no such beginning.
pub proof fn law_short_identifiers_begin_the_whole(id: Seq<char>)
    ensures
        short_id(id) == id.take(short_id(id).len() as int),
        short_id(id) != id ==> byte_len(short_id(id)) == 8,
        forall|k: int|
            0 <= k <= id.len() && byte_len(#[trigger] id.take(k)) == 8 ==> short_id(id) == id.take(k),
{
    law_byte_prefix_is_a_beginning(id, 8);
    assert(id.take(id.len() as int) =~= id);
}

/// Time that went by is told in whole units of the largest kind that it fills, up to a month; what
/// lies ahead was no time ago.
pub proof fn law_time_ago_is_told_in_whole_units(ts: i128, now: i128, date: Seq<char>) -> (n: nat)
    ensures
        ({
            let secs: int = if now < ts {
                0
            } else {
                (now - ts) / 1_000_000_000
            };
            let text = relative_text(seconds_between(ts, now), date);
            let plural = if n == 1 {
                " ago"@
            } else {
                "s ago"@
            };
            &&& secs < 60 ==> n == secs && text == decimal(n) + " second"@ + plural
            &&& 60 <= secs < 3600 ==> n * 60 <= secs < (n + 1) * 60 && text == decimal(n)
                + " minute"@ + plural
            &&& 3600 <= secs < 86_400 ==> n * 3600 <= secs < (n + 1) * 3600 && text == decimal(n)
                + " hour"@ + plural
            &&& 86_400 <= secs < 2_592_000 ==> n * 86_400 <= secs < (n + 1) * 86_400 && text
                == decimal(n) + " day"@ + plural
            &&& secs >= 2_592_000 ==> text == date
        }),
{
    reveal_strlit("");
    reveal_strlit(" ");
    reveal_strlit("s");
    reveal_strlit(" ago");
    reveal_strlit("s ago");
    reveal_strlit("second");
    reveal_strlit("minute");
    reveal_strlit("hour");
    reveal_strlit("day");
    reveal_strlit(" second");
    reveal_strlit(" minute");
    reveal_strlit(" hour");
    reveal_strlit(" day");
    let secs = seconds_between(ts, now);
    let (n, unit, told): (nat, Seq<char>, Seq<char>) = if secs < 60 {
        (secs, "second"@, " second"@)
    } else if secs < 3600 {
        (secs / 60, "minute"@, " minute"@)
    } else if secs < 86_400 {
        (secs / 3600, "hour"@, " hour"@)
    } else {
        (secs / 86_400, "day"@, " day"@)
    };
    assert(ago(n, unit) =~= decimal(n) + told + (if n == 1 {
        " ago"@
    } else {
        "s ago"@
    }));
    n
}

/// The line on a session tells its short identifier and when it was active, then the number of
/// messages, the branch and the project, each where there is something to tell, in this order.
pub proof fn law_metadata_tells_what_is_known(
    id: Seq<char>,
    active: Seq<char>,
    count: u32,
    branch: Option<Seq<char>>,
    project: Option<Seq<char>>,
)
    ensures
        metadata_text(id, active, count, branch, project) == short_id(id) + " · "@ + active + (if count
            == 0 {
            Seq::empty()
        } else if count == 1 {
            " · 1 msg"@
        } else {
            " · "@ + decimal(count as nat) + " msgs"@
        }) + (match branch {
            Some(b) => " · "@ + b,
            None => Seq::empty(),
        }) + (match project {
            Some(p) => " · "@ + p,
            None => Seq::empty(),
        }),
        filled(Some(Seq::<char>::empty())) is None,
        filled(None) is None,
        active.len() > 0 ==> filled(Some(active)) == Some(active),
{
    reveal_strlit(" · ");
    reveal_strlit(" msg");
    reveal_strlit(" · 1 msg");
    if count == 1 {
        assert(decimal(1) =~= seq!['1']);
        assert(" · "@ + decimal(1) + " msg"@ =~= " · 1 msg"@);
    }
}

} // verus!
