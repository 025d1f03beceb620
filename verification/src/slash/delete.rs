//! `/delete`: the question about the session whose identifier was typed.

use vstd::prelude::*;
use vstd::string::*;

use crate::home::{tildified, tildify};
use crate::session::clock::{has_local_time, is_instant, time_text, DATE_PATTERN};
use crate::session::display::{
    display_title, filled, filled_str, format_metadata_line, metadata_text, relative_text,
    seconds_between, shown_title,
};
use crate::session::entry::{opt_view, SessionInfo};
use crate::session::state::opt_str_view;
use crate::slash::confirm::{ConfirmDeleteSessionModal, ConfirmView};
use crate::slash::resume::{can_tell_of, meant, resolve_prefix, Lookup, LookupView};
use crate::text::owned;

verus! {

/// What is said where no identifier was typed.
pub const MISSING_ID_TEXT: &'static str = "missing id. Use `/resume` then Ctrl+D, or `/delete <id-prefix>` for direct removal.";

/// A session in one line, at some instant. What is empty is left out.
pub open spec fn info_metadata(
    info: SessionInfo,
    offset: i32,
    home: Option<Seq<char>>,
    now: i128,
) -> Seq<char> {
    metadata_text(
        info.session_id@,
        relative_text(
            seconds_between(info.last_active_at, now),
            time_text(info.last_active_at, offset, DATE_PATTERN@),
        ),
        match info.exit {
            Some(e) => e.message_count,
            None => 0,
        },
        filled(opt_view(info.git_branch)),
        filled(Some(tildified(info.cwd@, home))),
    )
}

/// A session in one line, at the present instant.
pub fn metadata_line(info: &SessionInfo, local_offset: i32, home: Option<&str>) -> (r: String)
    requires
        has_local_time(info.last_active_at, local_offset),
    ensures
        exists|now: i128|
            is_instant(now as int) && r@ == #[trigger] info_metadata(
                *info,
                local_offset,
                opt_str_view(home),
                now,
            ),
{
    let path: String = tildify(info.cwd.as_str(), home);
    let branch: Option<&str> = match &info.git_branch {
        Some(b) => Some(b.as_str()),
        None => None,
    };
    let count: u32 = match &info.exit {
        Some(e) => e.message_count,
        None => 0,
    };
    let r: String = format_metadata_line(
        info.session_id.as_str(),
        info.last_active_at,
        local_offset,
        count,
        filled_str(branch),
        filled_str(Some(path.as_str())),
    );
    proof {
        let now = choose|now: i128|
            is_instant(now as int) && r@ == metadata_text(
                info.session_id@,
                relative_text(
                    #[trigger] seconds_between(info.last_active_at, now),
                    time_text(info.last_active_at, local_offset, DATE_PATTERN@),
                ),
                count,
                filled(opt_str_view(branch)),
                filled(Some(path@)),
            );
        assert(r@ == info_metadata(*info, local_offset, opt_str_view(home), now));
    }
    r
}

/// Whether `q` is the question about a session, at some instant.
pub open spec fn is_question(
    q: ConfirmView,
    info: SessionInfo,
    live: Seq<char>,
    offset: i32,
    home: Option<Seq<char>>,
) -> bool {
    exists|now: i128|
        is_instant(now as int) && q == (ConfirmView {
            session_id: info.session_id@,
            display_title: shown_title(info),
            metadata: #[trigger] info_metadata(info, offset, home, now),
            live_session_id: live,
            error: None,
        })
}

fn question(info: &SessionInfo, live_id: &str, local_offset: i32, home: Option<&str>) -> (r:
    ConfirmDeleteSessionModal)
    requires
        has_local_time(info.last_active_at, local_offset),
    ensures
        is_question(r@, *info, live_id@, local_offset, opt_str_view(home)),
{
    let metadata: String = metadata_line(info, local_offset, home);
    ConfirmDeleteSessionModal::new(
        owned(info.session_id.as_str()),
        display_title(info),
        metadata,
        owned(live_id),
    )
}

/// What follows from the prefix that was typed.
#[derive(Debug, PartialEq, Eq)]
pub enum DeleteStep {
    /// The question.
    Confirm(ConfirmDeleteSessionModal),
    /// Nothing in the project; the sessions of all projects are to be listed.
    Widen,
    Failed(String),
}

/// Whether the session that a prefix means, where it means one, has a date and a time of day at
/// that offset.
pub open spec fn meant_is_timed(
    scoped: Result<Vec<SessionInfo>, String>,
    widened: Option<Result<Vec<SessionInfo>, String>>,
    prefix: Seq<char>,
    live: Seq<char>,
    offset: i32,
) -> bool {
    meant(scoped, widened, prefix, live) matches LookupView::Found { all, index } ==> has_local_time(
        (if all {
            (widened->0)->Ok_0@[index]
        } else {
            scoped->Ok_0@[index]
        }).last_active_at,
        offset,
    )
}

/// Puts the question about the session that a prefix means: one of the project, or where none
/// has it, one of all projects, once those were listed. The session that is open is never meant.
pub fn resolve_prefix_to_info(
    scoped: &Result<Vec<SessionInfo>, String>,
    widened: &Option<Result<Vec<SessionInfo>, String>>,
    prefix: &str,
    live_id: &str,
    local_offset: i32,
    home: Option<&str>,
) -> (r: DeleteStep)
    requires
        can_tell_of(*scoped, *widened, prefix@, live_id@),
        meant_is_timed(*scoped, *widened, prefix@, live_id@, local_offset),
    ensures
        match meant(*scoped, *widened, prefix@, live_id@) {
            LookupView::Widen => r is Widen,
            LookupView::Failed(t) => r matches DeleteStep::Failed(s) && s@ == t,
            LookupView::Found { all, index } => r matches DeleteStep::Confirm(q) && is_question(
                q@,
                (if all {
                    (widened->0)->Ok_0@[index]
                } else {
                    scoped->Ok_0@[index]
                }),
                live_id@,
                local_offset,
                opt_str_view(home),
            ) && q@.session_id != live_id@,
        },
{
    match resolve_prefix(scoped, widened, prefix, live_id) {
        Lookup::Failed(e) => DeleteStep::Failed(e),
        Lookup::Widen => DeleteStep::Widen,
        Lookup::Found { all, index } => {
            if all {
                match widened {
                    Some(Ok(sessions)) => DeleteStep::Confirm(
                        question(&sessions[index], live_id, local_offset, home),
                    ),
                    _ => DeleteStep::Widen,
                }
            } else {
                match scoped {
                    Ok(sessions) => DeleteStep::Confirm(
                        question(&sessions[index], live_id, local_offset, home),
                    ),
                    Err(_) => DeleteStep::Widen,
                }
            }
        },
    }
}

/// The question is about the session that is meant: it has its identifier, its title, and a line
/// that tells how long ago it was active, how many messages it has, its branch and its project.
pub proof fn law_question_is_about_the_session(
    q: ConfirmView,
    info: SessionInfo,
    live: Seq<char>,
    offset: i32,
    home: Option<Seq<char>>,
) -> (now: i128)
    requires
        is_question(q, info, live, offset, home),
    ensures
        is_instant(now as int),
        q.session_id == info.session_id@,
        q.live_session_id == live,
        q.error is None,
        info.title matches Some(t) ==> q.display_title == t.title@,
        info.title is None ==> q.display_title == "(untitled)"@,
        q.metadata == metadata_text(
            info.session_id@,
            relative_text(
                seconds_between(info.last_active_at, now),
                time_text(info.last_active_at, offset, DATE_PATTERN@),
            ),
            if info.exit is Some {
                info.exit->0.message_count
            } else {
                0
            },
            if info.git_branch is Some && info.git_branch->0@.len() > 0 {
                Some(info.git_branch->0@)
            } else {
                None
            },
            if tildified(info.cwd@, home).len() > 0 {
                Some(tildified(info.cwd@, home))
            } else {
                None
            },
        ),
{
    choose|now: i128|
        is_instant(now as int) && q == (ConfirmView {
            session_id: info.session_id@,
            display_title: shown_title(info),
            metadata: #[trigger] info_metadata(info, offset, home, now),
            live_session_id: live,
            error: None,
        })
}

} // verus!
