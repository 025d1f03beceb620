//! The question before a session is deleted.

use vstd::prelude::*;
use vstd::string::*;

use crate::session::display::{id_prefix, short_id};
use crate::session::entry::opt_view;
use crate::text::{owned, str_eq};
use crate::tui::modal::{
    line_views, KeyCode, KeyEvent, ModalAction, ModalActionView, ModalKey, ModalKeyView,
    StyledLine, Tone,
};
use crate::width::{truncate_to_width, truncated_to_width};

verus! {

/// The question.
pub const TITLE: &'static str = "Delete this session?";

/// What the keys do.
pub const FOOTER_HINT: &'static str = "[Y] delete   [N] cancel   Esc to cancel";

/// The least number of columns that lines are fitted to.
pub const MIN_BUDGET: usize = 8;

/// What is said where the open session was to be deleted.
pub const LIVE_REFUSAL: &'static str = "refusing to delete the live session";

/// The session that is to be deleted, and what went wrong the last time.
#[derive(Debug, PartialEq, Eq)]
pub struct ConfirmDeleteSessionModal {
    pub session_id: String,
    pub display_title: String,
    /// The session in one line.
    pub metadata: String,
    /// The session that is open.
    pub live_session_id: String,
    pub error: Option<String>,
}

/// The question by its characters.
#[verifier::ext_equal]
pub ghost struct ConfirmView {
    pub session_id: Seq<char>,
    pub display_title: Seq<char>,
    pub metadata: Seq<char>,
    pub live_session_id: Seq<char>,
    pub error: Option<Seq<char>>,
}

impl View for ConfirmDeleteSessionModal {
    type V = ConfirmView;

    open spec fn view(&self) -> ConfirmView {
        ConfirmView {
            session_id: self.session_id@,
            display_title: self.display_title@,
            metadata: self.metadata@,
            live_session_id: self.live_session_id@,
            error: opt_view(self.error),
        }
    }
}

/// What the question answers to a key.
#[derive(Debug, PartialEq, Eq)]
pub enum ConfirmStep {
    /// An answer.
    Key(ModalKey),
    /// The session is to be deleted; what came of it goes to
    /// [`ConfirmDeleteSessionModal::confirm`].
    Delete,
}

/// Whether the key deletes.
pub open spec fn is_yes(code: KeyCode) -> bool {
    match code {
        KeyCode::Enter => true,
        KeyCode::Char(c) => c == 'y' || c == 'Y',
        _ => false,
    }
}

/// Whether the key cancels.
pub open spec fn is_no(code: KeyCode) -> bool {
    match code {
        KeyCode::Char(c) => c == 'n' || c == 'N',
        _ => false,
    }
}

/// What is said of a session that was deleted.
pub open spec fn deleted_text(session_id: Seq<char>, title: Seq<char>) -> Seq<char> {
    "Deleted session "@ + short_id(session_id) + ": "@ + title
}

/// What is done about a session that is to be deleted.
#[derive(Debug, Clone, Copy, PartialEq, Eq, Structural)]
pub enum Deletion {
    /// It is the one that is open, and stays.
    Refused,
    Allowed,
}

/// Whether the session can be deleted: all but the one that is open.
pub fn may_delete(session_id: &str, live_session_id: &str) -> (r: Deletion)
    ensures
        r == if session_id@ == live_session_id@ {
            Deletion::Refused
        } else {
            Deletion::Allowed
        },
{
    if str_eq(session_id, live_session_id) {
        Deletion::Refused
    } else {
        Deletion::Allowed
    }
}

/// The columns that lines are fitted to.
pub open spec fn line_budget(width: u16) -> nat {
    if width as nat >= MIN_BUDGET as nat {
        width as nat
    } else {
        MIN_BUDGET as nat
    }
}

/// The columns that lines are fitted to.
pub fn budget_for(width: u16) -> (r: usize)
    ensures
        r == line_budget(width),
{
    if width as usize >= MIN_BUDGET {
        width as usize
    } else {
        MIN_BUDGET
    }
}

/// The lines of the question.
pub open spec fn question_lines(q: ConfirmView, width: u16) -> Seq<(Seq<char>, Tone)> {
    let n = line_budget(width);
    let lines = seq![
        (TITLE@, Tone::Heading),
        (Seq::empty(), Tone::Text),
        (truncated_to_width(short_id(q.session_id) + " — "@ + q.display_title, n), Tone::Text),
        (truncated_to_width(q.metadata, n), Tone::Dim),
        (Seq::empty(), Tone::Text),
        (truncated_to_width(FOOTER_HINT@, n), Tone::Dim),
    ];
    match q.error {
        Some(e) => lines.push((truncated_to_width("! "@ + e, n), Tone::Error)),
        None => lines,
    }
}

impl ConfirmDeleteSessionModal {
    /// The question about a session.
    pub fn new(
        session_id: String,
        display_title: String,
        metadata: String,
        live_session_id: String,
    ) -> (r: ConfirmDeleteSessionModal)
        ensures
            r@ == (ConfirmView {
                session_id: session_id@,
                display_title: display_title@,
                metadata: metadata@,
                live_session_id: live_session_id@,
                error: None,
            }),
    {
        ConfirmDeleteSessionModal {
            session_id,
            display_title,
            metadata,
            live_session_id,
            error: None,
        }
    }

    /// The short form of the identifier.
    pub fn id_prefix(&self) -> (r: &str)
        ensures
            r@ == short_id(self.session_id@),
    {
        id_prefix(self.session_id.as_str())
    }

    /// What follows from the attempt: closes and says so where the session is gone; stays open
    /// with the reason where it is not.
    pub fn confirm(&mut self, outcome: Result<(), String>) -> (r: ModalKey)
        ensures
            match outcome {
                Ok(_) => final(self)@ == old(self)@ && r@ == ModalKeyView::Submitted(
                    ModalActionView::SystemMessage(
                        deleted_text(old(self).session_id@, old(self).display_title@),
                    ),
                ),
                Err(e) => final(self)@ == (ConfirmView { error: Some(e@), ..old(self)@ }) && r@
                    == ModalKeyView::Consumed,
            },
    {
        match outcome {
            Ok(_) => {
                let mut out: String = "Deleted session ".to_owned();
                out.append(self.id_prefix());
                out.append(": ");
                out.append(self.display_title.as_str());
                ModalKey::Submitted(ModalAction::SystemMessage(out))
            },
            Err(e) => {
                self.error = Some(e);
                ModalKey::Consumed
            },
        }
    }

    /// Deletes on `y` and Enter, cancels on `n`; every key but `y` and Enter takes the last failure
    /// off the screen.
    pub fn handle_key(&mut self, event: &KeyEvent) -> (r: ConfirmStep)
        ensures
            is_yes(event.code) ==> r is Delete && final(self)@ == old(self)@,
            is_no(event.code) ==> r == ConfirmStep::Key(ModalKey::Cancelled),
            !is_yes(event.code) ==> final(self)@ == (ConfirmView { error: None, ..old(self)@ }),
            !is_yes(event.code) && !is_no(event.code) ==> r == ConfirmStep::Key(ModalKey::Consumed),
    {
        match event.code {
            KeyCode::Enter => ConfirmStep::Delete,
            KeyCode::Char('y') | KeyCode::Char('Y') => ConfirmStep::Delete,
            KeyCode::Char('n') | KeyCode::Char('N') => {
                self.error = None;
                ConfirmStep::Key(ModalKey::Cancelled)
            },
            _ => {
                self.error = None;
                ConfirmStep::Key(ModalKey::Consumed)
            },
        }
    }

    /// How many lines the question takes.
    pub fn height(&self) -> (r: u16)
        ensures
            r == question_lines(self@, 0).len(),
            r == if self.error is Some {
                7u16
            } else {
                6u16
            },
    {
        if self.error.is_some() {
            7
        } else {
            6
        }
    }

    /// The lines of the question, fitted to `width` columns.
    pub fn lines(&self, width: u16) -> (r: Vec<StyledLine>)
        ensures
            line_views(r@) == question_lines(self@, width),
    {
        let n: usize = budget_for(width);
        let mut identity: String = owned(self.id_prefix());
        identity.append(" — ");
        identity.append(self.display_title.as_str());
        let mut out: Vec<StyledLine> = vec![
            StyledLine { text: TITLE.to_owned(), tone: Tone::Heading },
            StyledLine { text: String::new(), tone: Tone::Text },
            StyledLine { text: truncate_to_width(identity.as_str(), n), tone: Tone::Text },
            StyledLine { text: truncate_to_width(self.metadata.as_str(), n), tone: Tone::Dim },
            StyledLine { text: String::new(), tone: Tone::Text },
            StyledLine { text: truncate_to_width(FOOTER_HINT, n), tone: Tone::Dim },
        ];
        if let Some(e) = &self.error {
            let mut text: String = "! ".to_owned();
            text.append(e.as_str());
            out.push(StyledLine { text: truncate_to_width(text.as_str(), n), tone: Tone::Error });
        }
        assert(line_views(out@) =~= question_lines(self@, width));
        out
    }
}

/// Enter and y, in either case, say yes; n, in either case, says no; no other key answers.
pub proof fn law_keys_that_answer(code: KeyCode)
    ensures
        is_yes(code) <==> (code == KeyCode::Enter || code == KeyCode::Char('y') || code
            == KeyCode::Char('Y')),
        is_no(code) <==> (code == KeyCode::Char('n') || code == KeyCode::Char('N')),
{
}

/// A line has the width that there is, and eight columns at least.
pub proof fn law_lines_have_eight_columns(width: u16)
    ensures
        width >= 8 ==> line_budget(width) == width,
        width < 8 ==> line_budget(width) == 8,
{
}

/// The question tells the session by its short identifier and title and by its line, and what went
/// wrong where something did.
pub proof fn law_question_tells_the_session(q: ConfirmView, width: u16)
    ensures
        ({
            let lines = question_lines(q, width);
            let n = if width >= 8 {
                width as nat
            } else {
                8
            };
            &&& lines[0].0 == "Delete this session?"@ && lines[0].1 == Tone::Heading
            &&& lines[2].0 == truncated_to_width(
                short_id(q.session_id) + " — "@ + q.display_title,
                n,
            ) && lines[2].1 == Tone::Text
            &&& lines[3].0 == truncated_to_width(q.metadata, n) && lines[3].1 == Tone::Dim
            &&& lines[5].0 == truncated_to_width("[Y] delete   [N] cancel   Esc to cancel"@, n)
                && lines[5].1 == Tone::Dim
            &&& lines[1].0.len() == 0 && lines[4].0.len() == 0
            &&& q.error is None ==> lines.len() == 6
            &&& q.error matches Some(e) ==> lines.len() == 7 && lines[6].0 == truncated_to_width(
                "! "@ + e,
                n,
            ) && lines[6].1 == Tone::Error
        }),
{
}

/// What is told of a session that was deleted: its short identifier and its title.
pub proof fn law_deleted_sessions_are_told(id: Seq<char>, title: Seq<char>)
    ensures
        deleted_text(id, title) == "Deleted session "@ + short_id(id) + ": "@ + title,
{
}

} // verus!
