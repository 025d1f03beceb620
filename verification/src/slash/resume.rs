//! `/resume`: a picker of past sessions, or the session whose identifier was typed.

use vstd::prelude::*;
use vstd::string::*;

use crate::event::{ActionView, UserAction};
use crate::home::{tildified, tildify};
use crate::session::clock::{has_local_time, is_instant, time_text, DATE_PATTERN};
use crate::session::display::{
    display_title, filled, filled_str, format_metadata_line, id_prefix, metadata_text,
    relative_text, seconds_between, short_id, shown_title,
};
use crate::session::entry::{clone_opt, opt_view, SessionInfo};
use crate::session::list_view::is_cuttable;
use crate::session::resolver::{
    can_preview, format_session_id_preview, ids_of, preview, previewable,
};
use crate::session::state::opt_str_view;
use crate::slash::confirm::{budget_for, line_budget, ConfirmDeleteSessionModal, ConfirmView};
use crate::text::{decimal, decimal_of, has_prefix, owned, starts_with, str_eq, views};
use crate::tui::list_picker::{row_above, row_below};
use crate::tui::modal::{
    capped, list_layout, list_places, submitting, sum, Area, KeyCode, KeyEvent, ListLayout,
    ModalAction, ModalActionView, ModalKey, ModalKeyView,
};
use crate::tui::searchable_list::{
    law_row_is_found_by_its_key, law_shown_items_match, page_above, page_below, row_of,
    shown_places, SearchableItem, SearchableList,
};
use crate::width::{truncate_to_width, truncated_to_width};

verus! {

/// The title of the picker.
pub const PICKER_TITLE: &'static str = "Resume session";

/// What the picker says of itself.
pub const PICKER_DESCRIPTION: &'static str = "Pick a session to resume in place.";

/// How many rows a page has.
pub const VIEWPORT_HEIGHT: usize = 6;

/// How many lines a row takes: title, metadata and a blank line.
pub const ROW_HEIGHT: u16 = 3;

// ── Rows ──

/// A session as the picker shows it.
#[derive(Debug)]
pub struct SessionRow {
    pub session_id: String,
    pub last_active_at: i128,
    pub local_offset: i32,
    pub title: String,
    /// Zero where the session was never closed.
    pub message_count: u32,
    pub git_branch: Option<String>,
    /// Told only among the sessions of all projects.
    pub project: Option<String>,
    /// What is searched.
    pub haystack: String,
}

/// A row by its characters.
#[verifier::ext_equal]
pub ghost struct SessionRowView {
    pub session_id: Seq<char>,
    pub last_active_at: i128,
    pub local_offset: i32,
    pub title: Seq<char>,
    pub message_count: u32,
    pub git_branch: Option<Seq<char>>,
    pub project: Option<Seq<char>>,
    pub haystack: Seq<char>,
}

impl View for SessionRow {
    type V = SessionRowView;

    open spec fn view(&self) -> SessionRowView {
        SessionRowView {
            session_id: self.session_id@,
            last_active_at: self.last_active_at,
            local_offset: self.local_offset,
            title: self.title@,
            message_count: self.message_count,
            git_branch: opt_view(self.git_branch),
            project: opt_view(self.project),
            haystack: self.haystack@,
        }
    }
}

impl SearchableItem for SessionRow {
    open spec fn text(&self) -> Seq<char> {
        self.haystack@
    }

    open spec fn key(&self) -> Seq<char> {
        self.session_id@
    }

    fn haystack(&self) -> (r: &str) {
        self.haystack.as_str()
    }

    fn identity(&self) -> (r: &str) {
        self.session_id.as_str()
    }
}

/// The row of a session. Its project is told, and searched, only where `show_project` holds.
pub open spec fn row_for(
    info: SessionInfo,
    offset: i32,
    show_project: bool,
    home: Option<Seq<char>>,
) -> SessionRowView {
    let project = tildified(info.cwd@, home);
    SessionRowView {
        session_id: info.session_id@,
        last_active_at: info.last_active_at,
        local_offset: offset,
        title: shown_title(info),
        message_count: match info.exit {
            Some(e) => e.message_count,
            None => 0,
        },
        git_branch: opt_view(info.git_branch),
        project: if show_project {
            Some(project)
        } else {
            None
        },
        haystack: info.session_id@ + " "@ + shown_title(info) + if show_project {
            " "@ + project
        } else {
            Seq::empty()
        },
    }
}

/// A row in one line, at some instant. What is empty is left out.
pub open spec fn row_metadata(row: SessionRowView, now: i128) -> Seq<char> {
    metadata_text(
        row.session_id,
        relative_text(
            seconds_between(row.last_active_at, now),
            time_text(row.last_active_at, row.local_offset, DATE_PATTERN@),
        ),
        row.message_count,
        filled(row.git_branch),
        filled(row.project),
    )
}

impl SessionRow {
    /// The row of a session.
    pub fn from_info(
        info: &SessionInfo,
        local_offset: i32,
        show_project: bool,
        home: Option<&str>,
    ) -> (r: SessionRow)
        ensures
            r@ == row_for(*info, local_offset, show_project, opt_str_view(home)),
    {
        let title: String = display_title(info);
        let project: String = tildify(info.cwd.as_str(), home);
        let mut haystack: String = owned(info.session_id.as_str());
        haystack.append(" ");
        haystack.append(title.as_str());
        if show_project {
            haystack.append(" ");
            haystack.append(project.as_str());
        }
        assert(haystack@ =~= row_for(
            *info,
            local_offset,
            show_project,
            opt_str_view(home),
        ).haystack);
        let message_count: u32 = match &info.exit {
            Some(e) => e.message_count,
            None => 0,
        };
        SessionRow {
            session_id: owned(info.session_id.as_str()),
            last_active_at: info.last_active_at,
            local_offset,
            title,
            message_count,
            git_branch: clone_opt(&info.git_branch),
            project: if show_project {
                Some(project)
            } else {
                None
            },
            haystack,
        }
    }

    /// The short form of the identifier.
    pub fn id_prefix(&self) -> (r: &str)
        ensures
            r@ == short_id(self.session_id@),
    {
        id_prefix(self.session_id.as_str())
    }

    /// The session in one line, at the present instant. What is empty is left out.
    pub fn metadata_line(&self) -> (r: String)
        requires
            has_local_time(self.last_active_at, self.local_offset),
        ensures
            exists|now: i128|
                is_instant(now as int) && r@ == #[trigger] row_metadata(self@, now),
    {
        let branch: Option<&str> = match &self.git_branch {
            Some(b) => Some(b.as_str()),
            None => None,
        };
        let project: Option<&str> = match &self.project {
            Some(p) => Some(p.as_str()),
            None => None,
        };
        let r: String = format_metadata_line(
            self.session_id.as_str(),
            self.last_active_at,
            self.local_offset,
            self.message_count,
            filled_str(branch),
            filled_str(project),
        );
        proof {
            let now = choose|now: i128|
                is_instant(now as int) && r@ == metadata_text(
                    self.session_id@,
                    relative_text(
                        #[trigger] seconds_between(self.last_active_at, now),
                        time_text(self.last_active_at, self.local_offset, DATE_PATTERN@),
                    ),
                    self.message_count,
                    filled(opt_str_view(branch)),
                    filled(opt_str_view(project)),
                );
            assert(r@ == row_metadata(self@, now));
        }
        r
    }

    /// The title and the metadata, each as far as it fits; the blank line below them is left to
    /// the one who draws.
    pub fn lines(&self, metadata: &str, width: u16) -> (r: (String, String))
        ensures
            r.0@ == truncated_to_width(self.title@, line_budget(width)),
            r.1@ == truncated_to_width(metadata@, line_budget(width)),
    {
        let n: usize = budget_for(width);
        (truncate_to_width(self.title.as_str(), n), truncate_to_width(metadata, n))
    }
}

/// The rows of the sessions, without the one that is open.
pub open spec fn rows_for(
    sessions: Seq<SessionInfo>,
    live: Seq<char>,
    offset: i32,
    show_project: bool,
    home: Option<Seq<char>>,
) -> Seq<SessionRowView>
    decreases sessions.len(),
{
    if sessions.len() == 0 {
        seq![]
    } else {
        let before = rows_for(sessions.drop_last(), live, offset, show_project, home);
        if sessions.last().session_id@ == live {
            before
        } else {
            before.push(row_for(sessions.last(), offset, show_project, home))
        }
    }
}

/// What each row is.
pub open spec fn session_row_views(rows: Seq<SessionRow>) -> Seq<SessionRowView> {
    rows.map_values(|row: SessionRow| row@)
}

/// Whether every session has a date and a time of day at that offset.
pub open spec fn all_timed(sessions: Seq<SessionInfo>, offset: i32) -> bool {
    forall|i: int|
        0 <= i < sessions.len() ==> has_local_time((#[trigger] sessions[i]).last_active_at, offset)
}

/// Whether each row has a date and a time of day, and none is the session that is open.
pub open spec fn rows_are_sound(rows: Seq<SessionRow>, live: Seq<char>) -> bool {
    forall|i: int|
        0 <= i < rows.len() ==> (#[trigger] rows[i]).session_id@ != live && has_local_time(
            rows[i].last_active_at,
            rows[i].local_offset,
        )
}

fn build_rows(
    sessions: &Vec<SessionInfo>,
    live: &str,
    offset: i32,
    show_project: bool,
    home: Option<&str>,
) -> (r: Vec<SessionRow>)
    requires
        all_timed(sessions@, offset),
    ensures
        session_row_views(r@) == rows_for(
            sessions@,
            live@,
            offset,
            show_project,
            opt_str_view(home),
        ),
        rows_are_sound(r@, live@),
{
    let ghost h = opt_str_view(home);
    let mut rows: Vec<SessionRow> = Vec::new();
    let mut i: usize = 0;
    assert(sessions@.take(0) =~= seq![]);
    assert(session_row_views(rows@) =~= seq![]);
    while i < sessions.len()
        invariant
            i <= sessions.len(),
            h == opt_str_view(home),
            all_timed(sessions@, offset),
            session_row_views(rows@) == rows_for(
                sessions@.take(i as int),
                live@,
                offset,
                show_project,
                h,
            ),
            rows_are_sound(rows@, live@),
        decreases sessions.len() - i,
    {
        assert(sessions@.take(i as int + 1).drop_last() =~= sessions@.take(i as int));
        if !str_eq(sessions[i].session_id.as_str(), live) {
            let row: SessionRow = SessionRow::from_info(&sessions[i], offset, show_project, home);
            let ghost before = rows@;
            rows.push(row);
            assert(session_row_views(rows@) =~= session_row_views(before).push(row@));
        }
        i = i + 1;
    }
    assert(sessions@.take(sessions@.len() as int) =~= sessions@);
    rows
}

// ── Picker ──

/// The sessions with a cursor and what was typed to find one.
#[derive(Debug)]
pub struct ResumePicker {
    list: SearchableList<SessionRow>,
    all: bool,
    local_offset: i32,
    live_session_id: String,
    load_error: Option<String>,
}

/// What the picker answers to a key.
#[derive(Debug, PartialEq, Eq)]
pub enum ResumeStep {
    /// An answer.
    Key(ModalKey),
    /// The sessions are to be listed again; what came of it goes to [`ResumePicker::reload`].
    Reload,
    /// A question is to be put above the picker.
    Push(ConfirmDeleteSessionModal),
}

/// What is said where the sessions could not be listed.
pub open spec fn load_failure(e: Seq<char>) -> Seq<char> {
    "failed to load sessions: "@ + e
}

/// How `n` counts: one, or several.
pub fn pluralize(n: i64, unit: &str) -> (r: String)
    ensures
        r@ == if n == 1 {
            unit@
        } else {
            unit@ + "s"@
        },
{
    let mut out: String = owned(unit);
    if n != 1 {
        out.append("s");
    }
    out
}

/// The line below the list.
pub open spec fn footer_line(all: bool, filtered: bool, shown: nat, total: nat) -> Seq<char> {
    (if filtered {
        decimal(shown) + " / "@ + decimal(total) + " matching"@
    } else {
        decimal(total) + " session"@ + if total == 1 {
            Seq::empty()
        } else {
            "s"@
        }
    }) + " · scope: "@ + (if all {
        "all projects"@
    } else {
        "current project"@
    })
        + " · Tab to toggle · Enter to resume · Ctrl+D to delete · Esc to cancel"@
}

impl ResumePicker {
    /// The rows.
    pub closed spec fn rows(&self) -> Seq<SessionRow> {
        self.list.items()
    }

    /// What was typed.
    pub closed spec fn typed(&self) -> Seq<char> {
        self.list.typed()
    }

    /// The row that the cursor stands on.
    pub closed spec fn row(&self) -> int {
        self.list.row()
    }

    /// How many rows a page has.
    pub closed spec fn page(&self) -> int {
        self.list.page_rows()
    }

    /// Whether the sessions of all projects are shown.
    pub closed spec fn is_wide(&self) -> bool {
        self.all
    }

    /// The seconds east of UTC at which dates are told.
    pub closed spec fn offset(&self) -> i32 {
        self.local_offset
    }

    /// The session that is open.
    pub closed spec fn live(&self) -> Seq<char> {
        self.live_session_id@
    }

    /// What went wrong when the sessions were listed.
    pub closed spec fn failure(&self) -> Option<Seq<char>> {
        opt_view(self.load_error)
    }

    /// The session that is open is none of the rows.
    #[verifier::type_invariant]
    spec fn leaves_out_the_live_session(&self) -> bool {
        rows_are_sound(self.list.items(), self.live_session_id@)
    }

    /// The places of the rows that are shown.
    pub open spec fn shown(&self) -> Seq<int> {
        shown_places(self.rows(), self.typed())
    }

    /// The row under the cursor.
    pub open spec fn current(&self) -> Option<SessionRow> {
        if self.shown().len() == 0 {
            None
        } else {
            Some(self.rows()[self.shown()[self.row()]])
        }
    }

    /// Whether nothing but what was typed and the cursor differ.
    pub open spec fn same_frame(&self, other: &ResumePicker) -> bool {
        &&& self.rows() == other.rows()
        &&& self.page() == other.page()
        &&& self.offset() == other.offset()
        &&& self.live() == other.live()
        &&& self.failure() == other.failure()
    }

    /// What is answered where the row under the cursor is chosen.
    pub open spec fn choice(&self) -> ModalKeyView {
        match self.current() {
            Some(row) => submitting(ActionView::Resume { session_id: row.session_id@ }),
            None => ModalKeyView::Consumed,
        }
    }

    /// The rows after the sessions were listed: none where that failed.
    pub open spec fn listed(
        &self,
        listing: Result<Vec<SessionInfo>, String>,
        home: Option<Seq<char>>,
    ) -> Seq<SessionRowView> {
        match listing {
            Ok(sessions) => rows_for(
                sessions@,
                self.live(),
                self.offset(),
                self.is_wide(),
                home,
            ),
            Err(_) => seq![],
        }
    }

    /// The picker over the sessions of the project.
    pub fn new(
        listing: Result<Vec<SessionInfo>, String>,
        live_session_id: String,
        local_offset: i32,
        home: Option<&str>,
    ) -> (r: ResumePicker)
        requires
            listing matches Ok(sessions) ==> all_timed(sessions@, local_offset),
        ensures
            r.live() == live_session_id@,
            r.offset() == local_offset,
            !r.is_wide(),
            r.typed() == Seq::<char>::empty(),
            r.row() == 0,
            r.page() == VIEWPORT_HEIGHT,
            session_row_views(r.rows()) == r.listed(listing, opt_str_view(home)),
            r.failure() == match listing {
                Ok(_) => None,
                Err(e) => Some(load_failure(e@)),
            },
    {
        let list: SearchableList<SessionRow> = SearchableList::new(VIEWPORT_HEIGHT);
        let mut picker: ResumePicker = ResumePicker {
            list,
            all: false,
            local_offset,
            live_session_id,
            load_error: None,
        };
        picker.reload(listing, home);
        picker
    }

    /// Takes the sessions as they were listed, without the one that is open, and puts the cursor
    /// on the first row; shows no rows and why where they could not be listed.
    pub fn reload(&mut self, listing: Result<Vec<SessionInfo>, String>, home: Option<&str>)
        requires
            listing matches Ok(sessions) ==> all_timed(sessions@, old(self).offset()),
        ensures
            final(self).live() == old(self).live(),
            final(self).offset() == old(self).offset(),
            final(self).is_wide() == old(self).is_wide(),
            final(self).typed() == old(self).typed(),
            final(self).page() == old(self).page(),
            final(self).row() == 0,
            session_row_views(final(self).rows()) == old(self).listed(
                listing,
                opt_str_view(home),
            ),
            final(self).failure() == match listing {
                Ok(_) => None,
                Err(e) => Some(load_failure(e@)),
            },
    {
        proof {
            use_type_invariant(&*self);
        }
        let rows: Vec<SessionRow> = match listing {
            Ok(sessions) => {
                self.load_error = None;
                build_rows(
                    &sessions,
                    self.live_session_id.as_str(),
                    self.local_offset,
                    self.all,
                    home,
                )
            },
            Err(e) => {
                let mut text: String = "failed to load sessions: ".to_owned();
                text.append(e.as_str());
                self.load_error = Some(text);
                Vec::new()
            },
        };
        assert(session_row_views(rows@) =~= old(self).listed(listing, opt_str_view(home)));
        let mut taken: SearchableList<SessionRow> = SearchableList::new(VIEWPORT_HEIGHT);
        std::mem::swap(&mut taken, &mut self.list);
        self.list = taken.replace_items(rows);
    }

    /// Whether the sessions of all projects are shown.
    pub fn all(&self) -> (r: bool)
        ensures
            r == self.is_wide(),
    {
        self.all
    }

    /// The seconds east of UTC at which dates are told.
    pub fn local_offset(&self) -> (r: i32)
        ensures
            r == self.offset(),
    {
        self.local_offset
    }

    /// What went wrong when the sessions were listed.
    pub fn load_error(&self) -> (r: Option<&str>)
        ensures
            opt_str_view(r) == self.failure(),
    {
        match &self.load_error {
            Some(e) => Some(e.as_str()),
            None => None,
        }
    }

    /// How many rows there are.
    pub fn total(&self) -> (r: usize)
        ensures
            r == self.rows().len(),
    {
        self.list.len()
    }

    /// How many rows are shown.
    pub fn visible_len(&self) -> (r: usize)
        ensures
            r == self.shown().len(),
    {
        self.list.visible_len()
    }

    /// What was typed.
    pub fn query(&self) -> (r: &str)
        ensures
            r@ == self.typed(),
    {
        self.list.query()
    }

    /// The row that the cursor stands on.
    pub fn cursor_index(&self) -> (r: usize)
        ensures
            r == self.row(),
    {
        self.list.cursor_index()
    }

    /// The shown row in that place.
    pub fn visible_row(&self, i: usize) -> (r: Option<&SessionRow>)
        ensures
            match r {
                Some(row) => i < self.shown().len() && *row == self.rows()[self.shown()[i as int]],
                None => i >= self.shown().len(),
            },
    {
        self.list.visible_item(i)
    }

    /// The row under the cursor. It is not the session that is open.
    pub fn selected(&self) -> (r: Option<&SessionRow>)
        ensures
            match r {
                Some(row) => self.current() == Some(*row) && row.session_id@ != self.live()
                    && has_local_time(row.last_active_at, row.local_offset),
                None => self.current() is None,
            },
    {
        proof {
            use_type_invariant(self);
            law_shown_items_match(self.list.items(), self.list.typed());
        }
        self.list.selected()
    }

    /// Asks for the session under the cursor; stays open where there is none.
    pub fn submit(&self) -> (r: ModalKey)
        ensures
            r@ == self.choice(),
            r@ matches ModalKeyView::Submitted(a) ==> a
                != crate::tui::modal::ModalActionView::User(
                ActionView::Resume { session_id: self.live() },
            ),
    {
        match self.selected() {
            Some(row) => ModalKey::Submitted(
                ModalAction::User(
                    UserAction::Resume { session_id: owned(row.session_id.as_str()) },
                ),
            ),
            None => ModalKey::Consumed,
        }
    }

    /// The question about the row under the cursor; nothing where there is none.
    pub fn start_delete_confirm(&self) -> (r: ResumeStep)
        ensures
            self.current() is None ==> r == ResumeStep::Key(ModalKey::Consumed),
            self.current() matches Some(row) ==> (r matches ResumeStep::Push(q) && exists|now: i128|
                is_instant(now as int) && q@ == (ConfirmView {
                    session_id: row.session_id@,
                    display_title: row.title@,
                    metadata: #[trigger] row_metadata(row@, now),
                    live_session_id: self.live(),
                    error: None,
                })),
    {
        match self.selected() {
            None => ResumeStep::Key(ModalKey::Consumed),
            Some(row) => {
                let metadata: String = row.metadata_line();
                ResumeStep::Push(
                    ConfirmDeleteSessionModal::new(
                        owned(row.session_id.as_str()),
                        owned(row.title.as_str()),
                        metadata,
                        owned(self.live_session_id.as_str()),
                    ),
                )
            },
        }
    }

    /// The line below the list: how many sessions there are, or how many were found, of which
    /// projects, and what the keys do.
    pub fn footer_text(&self) -> (r: String)
        ensures
            r@ == footer_line(
                self.is_wide(),
                self.typed().len() > 0,
                self.shown().len(),
                self.rows().len(),
            ),
    {
        let total: usize = self.total();
        let mut out: String;
        if self.list.is_filtered() {
            out = decimal_of(self.visible_len() as u64);
            let n: String = decimal_of(total as u64);
            out.append(" / ");
            out.append(n.as_str());
            out.append(" matching");
        } else {
            out = decimal_of(total as u64);
            out.append(" session");
            if total != 1 {
                out.append("s");
            }
        }
        out.append(" · scope: ");
        if self.all {
            out.append("all projects");
        } else {
            out.append("current project");
        }
        out.append(" · Tab to toggle · Enter to resume · Ctrl+D to delete · Esc to cancel");
        assert(out@ =~= footer_line(
            self.is_wide(),
            self.typed().len() > 0,
            self.shown().len(),
            self.rows().len(),
        ));
        out
    }

    /// What was typed, after a key.
    pub open spec fn retyped(&self, event: KeyEvent) -> Seq<char> {
        match event.code {
            KeyCode::Backspace => if self.typed().len() == 0 {
                self.typed()
            } else {
                self.typed().drop_last()
            },
            KeyCode::Char(c) => if event.control {
                if c == 'u' {
                    Seq::empty()
                } else {
                    self.typed()
                }
            } else {
                self.typed().push(c)
            },
            _ => self.typed(),
        }
    }

    /// The row that the cursor stands on, after a key. Typing puts it on the first row.
    pub open spec fn moved(&self, event: KeyEvent) -> int {
        let len = self.shown().len() as int;
        match event.code {
            KeyCode::Up => row_above(self.row(), len),
            KeyCode::Down => row_below(self.row(), len),
            KeyCode::PageUp => page_above(self.row(), self.page()),
            KeyCode::PageDown => page_below(self.row(), self.page(), len),
            KeyCode::Backspace => 0,
            KeyCode::Char(c) => if event.control && c != 'u' {
                self.row()
            } else {
                0
            },
            _ => self.row(),
        }
    }

    /// Whether the key asks for the row under the cursor to be deleted.
    pub open spec fn is_delete(event: KeyEvent) -> bool {
        match event.code {
            KeyCode::Delete => true,
            KeyCode::Char(c) => c == 'd' && event.control,
            _ => false,
        }
    }

    /// Moves the cursor, types, widens or narrows the scope, asks before a deletion, or chooses.
    pub fn handle_key(&mut self, event: &KeyEvent) -> (r: ResumeStep)
        ensures
            final(self).same_frame(old(self)),
            final(self).typed() == old(self).retyped(*event),
            final(self).row() == old(self).moved(*event),
            final(self).is_wide() == if event.code == KeyCode::Tab {
                !old(self).is_wide()
            } else {
                old(self).is_wide()
            },
            Self::is_delete(*event) ==> {
                &&& old(self).current() is None ==> r == ResumeStep::Key(ModalKey::Consumed)
                &&& old(self).current() matches Some(row) ==> (r matches ResumeStep::Push(q)
                    && exists|now: i128|
                    is_instant(now as int) && q@ == (ConfirmView {
                        session_id: row.session_id@,
                        display_title: row.title@,
                        metadata: #[trigger] row_metadata(row@, now),
                        live_session_id: old(self).live(),
                        error: None,
                    }))
            },
            event.code == KeyCode::Tab ==> r is Reload,
            event.code == KeyCode::Enter ==> (r matches ResumeStep::Key(k) && k@ == old(
                self).choice()),
            !Self::is_delete(*event) && event.code != KeyCode::Tab && event.code != KeyCode::Enter
                ==> r == ResumeStep::Key(ModalKey::Consumed),
    {
        match event.code {
            KeyCode::Enter => ResumeStep::Key(self.submit()),
            KeyCode::Up => {
                self.step(Motion::Up);
                ResumeStep::Key(ModalKey::Consumed)
            },
            KeyCode::Down => {
                self.step(Motion::Down);
                ResumeStep::Key(ModalKey::Consumed)
            },
            KeyCode::PageUp => {
                self.step(Motion::PageUp);
                ResumeStep::Key(ModalKey::Consumed)
            },
            KeyCode::PageDown => {
                self.step(Motion::PageDown);
                ResumeStep::Key(ModalKey::Consumed)
            },
            KeyCode::Tab => {
                proof {
                    use_type_invariant(&*self);
                }
                self.all = !self.all;
                ResumeStep::Reload
            },
            KeyCode::Backspace => {
                self.step(Motion::TakeBack);
                ResumeStep::Key(ModalKey::Consumed)
            },
            KeyCode::Delete => self.start_delete_confirm(),
            KeyCode::Char(c) => {
                if event.control && c == 'd' {
                    return self.start_delete_confirm();
                }
                if event.control {
                    if c == 'u' {
                        self.step(Motion::Forget);
                    }
                } else {
                    self.step(Motion::Type(c));
                }
                ResumeStep::Key(ModalKey::Consumed)
            },
            _ => ResumeStep::Key(ModalKey::Consumed),
        }
    }

    /// Carries out a motion on the list.
    fn step(&mut self, motion: Motion)
        ensures
            final(self).same_frame(old(self)),
            final(self).is_wide() == old(self).is_wide(),
            final(self).typed() == match motion {
                Motion::TakeBack => if old(self).typed().len() == 0 {
                    old(self).typed()
                } else {
                    old(self).typed().drop_last()
                },
                Motion::Type(c) => old(self).typed().push(c),
                Motion::Forget => Seq::empty(),
                _ => old(self).typed(),
            },
            final(self).row() == match motion {
                Motion::Up => row_above(old(self).row(), old(self).shown().len() as int),
                Motion::Down => row_below(old(self).row(), old(self).shown().len() as int),
                Motion::PageUp => page_above(old(self).row(), old(self).page()),
                Motion::PageDown => page_below(
                    old(self).row(),
                    old(self).page(),
                    old(self).shown().len() as int,
                ),
                _ => 0,
            },
    {
        proof {
            use_type_invariant(&*self);
        }
        let mut list: SearchableList<SessionRow> = SearchableList::new(VIEWPORT_HEIGHT);
        std::mem::swap(&mut list, &mut self.list);
        match motion {
            Motion::Up => {
                list.select_prev();
                self.list = list;
            },
            Motion::Down => {
                list.select_next();
                self.list = list;
            },
            Motion::PageUp => {
                list.page_up();
                self.list = list;
            },
            Motion::PageDown => {
                list.page_down();
                self.list = list;
            },
            Motion::TakeBack => {
                self.list = list.pop_char();
            },
            Motion::Type(c) => {
                self.list = list.push_char(c);
            },
            Motion::Forget => {
                self.list = list.set_query(String::new());
            },
        }
    }

    /// The row that the cursor stands on after the sessions were listed again: the one with the
    /// same session where it is still shown, else the first.
    pub open spec fn regained_row(&self, was: Option<SessionRow>) -> int {
        match was {
            None => 0,
            Some(row) => match row_of(self.rows(), self.shown(), row.session_id@) {
                Some(i) => i,
                None => 0,
            },
        }
    }

    /// Takes the sessions as they were listed when nothing stands above the picker any more, and
    /// keeps the cursor on its session where that is still shown.
    pub fn on_focus_regained(
        &mut self,
        listing: Result<Vec<SessionInfo>, String>,
        home: Option<&str>,
    )
        requires
            listing matches Ok(sessions) ==> all_timed(sessions@, old(self).offset()),
        ensures
            final(self).live() == old(self).live(),
            final(self).offset() == old(self).offset(),
            final(self).is_wide() == old(self).is_wide(),
            final(self).typed() == old(self).typed(),
            final(self).page() == old(self).page(),
            session_row_views(final(self).rows()) == old(self).listed(
                listing,
                opt_str_view(home),
            ),
            final(self).failure() == match listing {
                Ok(_) => None,
                Err(e) => Some(load_failure(e@)),
            },
            final(self).row() == final(self).regained_row(old(self).current()),
    {
        let was: Option<String> = match self.selected() {
            Some(row) => Some(owned(row.session_id.as_str())),
            None => None,
        };
        self.reload(listing, home);
        if let Some(id) = was {
            proof {
                use_type_invariant(&*self);
            }
            let mut list: SearchableList<SessionRow> = SearchableList::new(VIEWPORT_HEIGHT);
            std::mem::swap(&mut list, &mut self.list);
            list.cursor_to(id.as_str());
            self.list = list;
        }
    }

    /// How many lines the picker takes: the list, a blank line and a footer.
    pub fn height(&self, list_height: u16) -> (r: u16)
        ensures
            r == capped(list_height + 2),
    {
        sum(list_height, 2)
    }

    /// Where the picker is drawn.
    pub fn layout(&self, area: Area, list_height: u16) -> (r: ListLayout)
        ensures
            r == list_places(area, list_height),
    {
        list_layout(area, list_height)
    }
}

/// What a key does to the list.
#[derive(Debug, Clone, Copy, PartialEq, Eq, Structural)]
pub enum Motion {
    Up,
    Down,
    PageUp,
    PageDown,
    Type(char),
    TakeBack,
    Forget,
}

// ── Identifiers ──

/// The places of the identifiers that begin with `prefix` and are not `live`.
pub open spec fn candidate_places(ids: Seq<Seq<char>>, prefix: Seq<char>, live: Seq<char>) -> Seq<
    int,
>
    decreases ids.len(),
{
    if ids.len() == 0 {
        seq![]
    } else {
        let before = candidate_places(ids.drop_last(), prefix, live);
        if ids.last() != live && starts_with(ids.last(), prefix) {
            before.push(ids.len() - 1)
        } else {
            before
        }
    }
}

/// The identifiers in those places.
pub open spec fn ids_at(ids: Seq<Seq<char>>, places: Seq<int>) -> Seq<Seq<char>> {
    places.map_values(|i: int| ids[i])
}

/// What is said of a prefix that more than one session has.
pub open spec fn ambiguous_text(prefix: Seq<char>, found: Seq<Seq<char>>) -> Seq<char> {
    "ambiguous prefix `"@ + prefix + "` matches "@ + decimal(found.len()) + " sessions: "@
        + preview(found)
}

/// The session that a prefix means among those that were listed, or why none can be told.
pub open spec fn matched(
    listing: Result<Vec<SessionInfo>, String>,
    prefix: Seq<char>,
    live: Seq<char>,
) -> Result<Option<int>, Seq<char>> {
    match listing {
        Err(e) => Err("list sessions: "@ + e@),
        Ok(sessions) => {
            let ids = ids_of(sessions@);
            let found = candidate_places(ids, prefix, live);
            if found.len() == 0 {
                Ok(None)
            } else if found.len() == 1 {
                Ok(Some(found[0]))
            } else {
                Err(ambiguous_text(prefix, ids_at(ids, found)))
            }
        },
    }
}

/// Whether what is said of the sessions that a prefix finds can be said: more than one are told
/// by short forms, and those must be there.
pub open spec fn can_tell(
    listing: Result<Vec<SessionInfo>, String>,
    prefix: Seq<char>,
    live: Seq<char>,
) -> bool {
    listing matches Ok(sessions) ==> {
        let ids = ids_of(sessions@);
        let found = candidate_places(ids, prefix, live);
        found.len() >= 2 ==> previewable(ids_at(ids, found))
    }
}

/// Whether what a prefix means can be said. All projects matter only where the one at hand has
/// no such session.
pub open spec fn can_tell_of(
    scoped: Result<Vec<SessionInfo>, String>,
    widened: Option<Result<Vec<SessionInfo>, String>>,
    prefix: Seq<char>,
    live: Seq<char>,
) -> bool {
    &&& can_tell(scoped, prefix, live)
    &&& matched(scoped, prefix, live) == Ok::<Option<int>, Seq<char>>(None) ==> (
    widened matches Some(listing) ==> can_tell(listing, prefix, live))
}

proof fn lemma_candidate_places(ids: Seq<Seq<char>>, prefix: Seq<char>, live: Seq<char>)
    ensures
        forall|k: int|
            0 <= k < candidate_places(ids, prefix, live).len() ==> {
                let i = #[trigger] candidate_places(ids, prefix, live)[k];
                0 <= i < ids.len() && ids[i] != live && starts_with(ids[i], prefix)
            },
    decreases ids.len(),
{
    if ids.len() > 0 {
        let front = ids.drop_last();
        lemma_candidate_places(front, prefix, live);
        let all = candidate_places(ids, prefix, live);
        let before = candidate_places(front, prefix, live);
        assert forall|k: int| 0 <= k < all.len() implies {
            let i = #[trigger] all[k];
            0 <= i < ids.len() && ids[i] != live && starts_with(ids[i], prefix)
        } by {
            if k < before.len() {
                assert(all[k] == before[k]);
                assert(front[before[k]] == ids[before[k]]);
            }
        }
    }
}

/// The sessions that a prefix finds, by their places and their identifiers. The session that is
/// open is left out.
fn find_candidates(sessions: &Vec<SessionInfo>, prefix: &str, live_id: &str) -> (r: (
    Vec<usize>,
    Vec<String>,
))
    ensures
        r.0@.map_values(|i: usize| i as int) == candidate_places(
            ids_of(sessions@),
            prefix@,
            live_id@,
        ),
        views(r.1@) == ids_at(
            ids_of(sessions@),
            candidate_places(ids_of(sessions@), prefix@, live_id@),
        ),
        r.0@.len() == r.1@.len() == candidate_places(ids_of(sessions@), prefix@, live_id@).len(),
{
    let ghost ids = ids_of(sessions@);
    let mut found: Vec<usize> = Vec::new();
    let mut named: Vec<String> = Vec::new();
    let mut i: usize = 0;
    assert(ids.take(0) =~= seq![]);
    assert(found@.map_values(|i: usize| i as int) =~= seq![]);
    assert(views(named@) =~= seq![]);
    assert(ids_at(ids, seq![]) =~= seq![]);
    while i < sessions.len()
        invariant
            i <= sessions.len(),
            ids == ids_of(sessions@),
            found@.map_values(|i: usize| i as int) == candidate_places(
                ids.take(i as int),
                prefix@,
                live_id@,
            ),
            views(named@) == ids_at(ids, found@.map_values(|i: usize| i as int)),
            found@.len() == named@.len(),
        decreases sessions.len() - i,
    {
        assert(ids.take(i as int + 1).drop_last() =~= ids.take(i as int));
        assert(ids[i as int] == sessions@[i as int].session_id@);
        let id: &str = sessions[i].session_id.as_str();
        if !str_eq(id, live_id) && has_prefix(id, prefix) {
            let ghost before = found@;
            let ghost before_named = named@;
            let name: String = owned(id);
            found.push(i);
            named.push(name);
            assert(found@.map_values(|i: usize| i as int) =~= before.map_values(
                |i: usize| i as int,
            ).push(i as int));
            assert(views(named@) =~= views(before_named).push(name@));
            assert(views(named@) =~= ids_at(ids, found@.map_values(|i: usize| i as int)));
        }
        i = i + 1;
    }
    assert(ids.take(ids.len() as int) =~= ids);
    assert(views(named@).len() == named@.len());
    (found, named)
}

/// Whether what is said of the sessions that a prefix finds can be said.
pub fn can_look_up(
    listing: &Result<Vec<SessionInfo>, String>,
    prefix: &str,
    live_id: &str,
) -> (r: bool)
    ensures
        r == can_tell(*listing, prefix@, live_id@),
{
    match listing {
        Ok(sessions) => {
            let (found, named) = find_candidates(sessions, prefix, live_id);
            found.len() < 2 || can_preview(&named)
        },
        Err(_) => true,
    }
}

/// The session that a prefix means among those that were listed. The session that is open is
/// left out.
pub fn match_in_scope(
    listing: &Result<Vec<SessionInfo>, String>,
    prefix: &str,
    live_id: &str,
) -> (r: Result<Option<usize>, String>)
    requires
        can_tell(*listing, prefix@, live_id@),
    ensures
        match r {
            Ok(Some(i)) => matched(*listing, prefix@, live_id@) == Ok::<Option<int>, Seq<char>>(
                Some(i as int),
            ) && (listing matches Ok(sessions) && i < sessions@.len()
                && sessions@[i as int].session_id@ != live_id@ && starts_with(
                sessions@[i as int].session_id@,
                prefix@,
            )),
            Ok(None) => matched(*listing, prefix@, live_id@) == Ok::<Option<int>, Seq<char>>(None),
            Err(e) => matched(*listing, prefix@, live_id@) == Err::<Option<int>, Seq<char>>(e@),
        },
{
    match listing {
        Err(e) => {
            let mut out: String = "list sessions: ".to_owned();
            out.append(e.as_str());
            Err(out)
        },
        Ok(sessions) => {
            let ghost ids = ids_of(sessions@);
            let (found, named) = find_candidates(sessions, prefix, live_id);
            proof {
                lemma_candidate_places(ids, prefix@, live_id@);
                assert(found@.map_values(|i: usize| i as int).len() == found@.len());
            }
            if found.len() == 0 {
                return Ok(None);
            }
            if found.len() == 1 {
                assert(candidate_places(ids, prefix@, live_id@)[0] == found@[0]);
                return Ok(Some(found[0]));
            }
            let list: String = format_session_id_preview(&named);
            let n: String = decimal_of(named.len() as u64);
            let mut out: String = "ambiguous prefix `".to_owned();
            out.append(prefix);
            out.append("` matches ");
            out.append(n.as_str());
            out.append(" sessions: ");
            out.append(list.as_str());
            assert(views(named@).len() == named@.len());
            assert(out@ =~= ambiguous_text(prefix@, views(named@)));
            Err(out)
        },
    }
}

/// What a prefix means.
#[derive(Debug, PartialEq, Eq)]
pub enum Lookup {
    /// The session in that place of what was listed: of the project, or of all projects.
    Found { all: bool, index: usize },
    /// Nothing in the project; the sessions of all projects are to be listed.
    Widen,
    Failed(String),
}

/// What a prefix means, by its characters.
#[verifier::ext_equal]
pub ghost enum LookupView {
    Found { all: bool, index: int },
    Widen,
    Failed(Seq<char>),
}

impl View for Lookup {
    type V = LookupView;

    open spec fn view(&self) -> LookupView {
        match self {
            Lookup::Found { all, index } => LookupView::Found { all: *all, index: *index as int },
            Lookup::Widen => LookupView::Widen,
            Lookup::Failed(s) => LookupView::Failed(s@),
        }
    }
}

/// What a prefix means: a session of the project, or where none has it, one of all projects.
pub open spec fn meant(
    scoped: Result<Vec<SessionInfo>, String>,
    widened: Option<Result<Vec<SessionInfo>, String>>,
    prefix: Seq<char>,
    live: Seq<char>,
) -> LookupView {
    match matched(scoped, prefix, live) {
        Err(e) => LookupView::Failed(e),
        Ok(Some(index)) => LookupView::Found { all: false, index },
        Ok(None) => match widened {
            None => LookupView::Widen,
            Some(listing) => match matched(listing, prefix, live) {
                Err(e) => LookupView::Failed(e),
                Ok(Some(index)) => LookupView::Found { all: true, index },
                Ok(None) => LookupView::Failed("no session matching `"@ + prefix + "`"@),
            },
        },
    }
}

/// What a prefix means: a session of the project, or where none has it, one of all projects,
/// once those were listed. The session that is open is never meant.
pub fn resolve_prefix(
    scoped: &Result<Vec<SessionInfo>, String>,
    widened: &Option<Result<Vec<SessionInfo>, String>>,
    prefix: &str,
    live_id: &str,
) -> (r: Lookup)
    requires
        can_tell_of(*scoped, *widened, prefix@, live_id@),
    ensures
        r@ == meant(*scoped, *widened, prefix@, live_id@),
        r matches Lookup::Found { all: false, index } ==> (scoped matches Ok(sessions) && index
            < sessions@.len() && sessions@[index as int].session_id@ != live_id@),
        r matches Lookup::Found { all: true, index } ==> (widened matches Some(Ok(sessions))
            && index < sessions@.len() && sessions@[index as int].session_id@ != live_id@),
{
    match match_in_scope(scoped, prefix, live_id) {
        Err(e) => Lookup::Failed(e),
        Ok(Some(index)) => Lookup::Found { all: false, index },
        Ok(None) => match widened {
            None => Lookup::Widen,
            Some(listing) => match match_in_scope(listing, prefix, live_id) {
                Err(e) => Lookup::Failed(e),
                Ok(Some(index)) => Lookup::Found { all: true, index },
                Ok(None) => {
                    let mut out: String = "no session matching `".to_owned();
                    out.append(prefix);
                    out.append("`");
                    Lookup::Failed(out)
                },
            },
        },
    }
}

/// A row tells what is known of its session, and is searched by the identifier, the title, and the
/// project where that is told.
pub proof fn law_row_tells_the_session(
    info: SessionInfo,
    offset: i32,
    show_project: bool,
    home: Option<Seq<char>>,
)
    ensures
        ({
            let row = row_for(info, offset, show_project, home);
            let project = tildified(info.cwd@, home);
            &&& row.session_id == info.session_id@
            &&& row.last_active_at == info.last_active_at
            &&& row.local_offset == offset
            &&& info.title matches Some(t) ==> row.title == t.title@
            &&& info.title is None ==> row.title == "(untitled)"@
            &&& info.exit matches Some(e) ==> row.message_count == e.message_count
            &&& info.exit is None ==> row.message_count == 0
            &&& info.git_branch matches Some(b) ==> row.git_branch == Some(b@)
            &&& info.git_branch is None ==> row.git_branch is None
            &&& show_project ==> row.project == Some(project) && row.haystack == row.session_id
                + " "@ + row.title + " "@ + project
            &&& !show_project ==> row.project is None && row.haystack == row.session_id + " "@
                + row.title
        }),
{
    let row = row_for(info, offset, show_project, home);
    if show_project {
        assert(row.haystack =~= row.session_id + " "@ + row.title + " "@ + tildified(
            info.cwd@,
            home,
        ));
    } else {
        assert(row.haystack =~= row.session_id + " "@ + row.title);
    }
}

/// There is a row for every session but the one that is live, in the order in which they come.
pub proof fn law_every_other_session_has_a_row(
    sessions: Seq<SessionInfo>,
    s: SessionInfo,
    live: Seq<char>,
    offset: i32,
    show_project: bool,
    home: Option<Seq<char>>,
)
    ensures
        rows_for(Seq::empty(), live, offset, show_project, home).len() == 0,
        s.session_id@ != live ==> rows_for(sessions.push(s), live, offset, show_project, home)
            == rows_for(sessions, live, offset, show_project, home).push(
            row_for(s, offset, show_project, home),
        ),
        s.session_id@ == live ==> rows_for(sessions.push(s), live, offset, show_project, home)
            == rows_for(sessions, live, offset, show_project, home),
{
    assert(sessions.push(s).drop_last() =~= sessions);
}

/// The line of a row tells the session by its short identifier, how long ago it was active, the
/// number of its messages, and its branch and project where they are not empty.
pub proof fn law_row_line_tells_the_session(row: SessionRowView, now: i128)
    ensures
        row_metadata(row, now) == metadata_text(
            row.session_id,
            relative_text(
                seconds_between(row.last_active_at, now),
                time_text(row.last_active_at, row.local_offset, DATE_PATTERN@),
            ),
            row.message_count,
            match row.git_branch {
                Some(b) => if b.len() > 0 {
                    Some(b)
                } else {
                    None
                },
                None => None,
            },
            match row.project {
                Some(p) => if p.len() > 0 {
                    Some(p)
                } else {
                    None
                },
                None => None,
            },
        ),
{
}

/// The footer counts the sessions, or those that match where something was typed, and tells which
/// projects they are of.
pub proof fn law_footer_counts_the_sessions(all: bool, shown: nat, total: nat)
    ensures
        ({
            let keys =
                " · Tab to toggle · Enter to resume · Ctrl+D to delete · Esc to cancel"@;
            let scope = if all {
                " · scope: all projects"@
            } else {
                " · scope: current project"@
            };
            &&& footer_line(all, true, shown, total) == decimal(shown) + " / "@ + decimal(total)
                + " matching"@ + scope + keys
            &&& total != 1 ==> footer_line(all, false, shown, total) == decimal(total)
                + " sessions"@ + scope + keys
            &&& footer_line(all, false, shown, 1) == "1 session"@ + scope + keys
        }),
{
    reveal_strlit(" session");
    reveal_strlit(" sessions");
    reveal_strlit("1 session");
    reveal_strlit("s");
    reveal_strlit(" · scope: ");
    reveal_strlit("all projects");
    reveal_strlit("current project");
    reveal_strlit(" · scope: all projects");
    reveal_strlit(" · scope: current project");
    let keys = " · Tab to toggle · Enter to resume · Ctrl+D to delete · Esc to cancel"@;
    let scope = if all {
        " · scope: all projects"@
    } else {
        " · scope: current project"@
    };
    assert(scope =~= " · scope: "@ + (if all {
        "all projects"@
    } else {
        "current project"@
    }));
    assert(decimal(1) =~= seq!['1']);
    assert(footer_line(all, true, shown, total) =~= decimal(shown) + " / "@ + decimal(total)
        + " matching"@ + scope + keys);
    if total != 1 {
        assert(" session"@ + "s"@ =~= " sessions"@);
        assert(footer_line(all, false, shown, total) =~= decimal(total) + " sessions"@ + scope
            + keys);
    }
    assert(footer_line(all, false, shown, 1) =~= "1 session"@ + scope + keys);
}

/// What is typed is added to the query, Backspace takes its last character back and control with u
/// all of it; other keys leave it. A query that may have changed is looked at from the first row.
pub proof fn law_typing_edits_the_query(p: ResumePicker, c: char, control: bool, code: KeyCode)
    ensures
        ({
            let key = |code: KeyCode, control: bool| KeyEvent { code, control };
            &&& p.retyped(key(KeyCode::Char(c), false)) == p.typed() + seq![c]
            &&& p.moved(key(KeyCode::Char(c), false)) == 0
            &&& p.typed().len() > 0 ==> p.retyped(key(KeyCode::Backspace, control)) + seq![
                p.typed().last(),
            ] == p.typed()
            &&& p.typed().len() == 0 ==> p.retyped(key(KeyCode::Backspace, control)).len() == 0
            &&& p.moved(key(KeyCode::Backspace, control)) == 0
            &&& p.retyped(key(KeyCode::Char('u'), true)).len() == 0
            &&& p.moved(key(KeyCode::Char('u'), true)) == 0
            &&& c != 'u' ==> p.retyped(key(KeyCode::Char(c), true)) == p.typed() && p.moved(
                key(KeyCode::Char(c), true),
            ) == p.row()
            &&& !(code is Char) && code != KeyCode::Backspace ==> p.retyped(key(code, control))
                == p.typed()
        }),
{
    assert(p.typed().push(c) =~= p.typed() + seq![c]);
    if p.typed().len() > 0 {
        assert(p.typed().drop_last() + seq![p.typed().last()] =~= p.typed());
    }
}

/// The arrows go to the next row, round the ends, and the page keys go a page, up to the ends;
/// other keys that do not type stay on the row.
pub proof fn law_keys_move_over_the_rows(p: ResumePicker, control: bool, code: KeyCode)
    requires
        0 <= p.row() < p.shown().len(),
        0 <= p.page(),
    ensures
        ({
            let at = |code: KeyCode| p.moved(KeyEvent { code, control });
            let last = p.shown().len() - 1;
            &&& at(KeyCode::Down) == if p.row() == last {
                0
            } else {
                p.row() + 1
            }
            &&& at(KeyCode::Up) == if p.row() == 0 {
                last
            } else {
                p.row() - 1
            }
            &&& at(KeyCode::PageDown) == if p.row() + p.page() <= last {
                p.row() + p.page()
            } else {
                last
            }
            &&& at(KeyCode::PageUp) == if p.row() - p.page() >= 0 {
                p.row() - p.page()
            } else {
                0
            }
            &&& !(code is Char || code is Down || code is Up || code is PageDown || code is PageUp
                || code is Backspace) ==> at(code) == p.row()
        }),
{
}

/// Delete, and control with d, ask for the session to be deleted; no other key does.
pub proof fn law_two_keys_delete(event: KeyEvent)
    ensures
        ResumePicker::is_delete(event) <==> (event.code == KeyCode::Delete || (event.code
            == KeyCode::Char('d') && event.control)),
{
}

/// What Enter resumes is the session of the row that the cursor is on, and nothing where no row is
/// shown.
pub proof fn law_enter_resumes_the_row(p: ResumePicker)
    ensures
        p.shown().len() == 0 ==> p.current() is None && p.choice() == ModalKeyView::Consumed,
        p.shown().len() > 0 ==> p.current() == Some(p.rows()[p.shown()[p.row()]]) && p.choice()
            == ModalKeyView::Submitted(
            ModalActionView::User(
                ActionView::Resume { session_id: p.rows()[p.shown()[p.row()]].session_id@ },
            ),
        ),
{
}

/// Where the list was read anew, the cursor is on the session that it was on, where that is still
/// shown, and else on the first row.
pub proof fn law_cursor_stays_on_its_session(p: ResumePicker, was: SessionRow)
    ensures
        p.regained_row(None) == 0,
        ({
            let r = p.regained_row(Some(was));
            ||| 0 <= r < p.shown().len() && p.rows()[p.shown()[r]].session_id@ == was.session_id@
            ||| r == 0 && forall|k: int|
                0 <= k < p.shown().len() ==> p.rows()[#[trigger] p.shown()[k]].session_id@
                    != was.session_id@
        }),
{
    law_row_is_found_by_its_key(p.rows(), p.shown(), was.session_id@);
    assert(forall|k: int|
        0 <= k < p.shown().len() ==> p.rows()[#[trigger] p.shown()[k]].key()
            == p.rows()[p.shown()[k]].session_id@);
}

/// Whether session `i` can be meant by the prefix: it begins so, and is not the live one.
pub open spec fn may_be_meant(ids: Seq<Seq<char>>, prefix: Seq<char>, live: Seq<char>, i: int) -> bool {
    &&& 0 <= i < ids.len()
    &&& ids[i] != live
    &&& starts_with(ids[i], prefix)
}

proof fn lemma_candidates(ids: Seq<Seq<char>>, prefix: Seq<char>, live: Seq<char>)
    ensures
        forall|i: int|
            #[trigger] candidate_places(ids, prefix, live).contains(i) <==> may_be_meant(
                ids,
                prefix,
                live,
                i,
            ),
        forall|a: int, b: int|
            0 <= a < b < candidate_places(ids, prefix, live).len() ==> #[trigger] candidate_places(
                ids,
                prefix,
                live,
            )[a] < #[trigger] candidate_places(ids, prefix, live)[b],
    decreases ids.len(),
{
    if ids.len() > 0 {
        let t = ids.drop_last();
        let n = t.len() as int;
        lemma_candidates(t, prefix, live);
        let before = candidate_places(t, prefix, live);
        let all = candidate_places(ids, prefix, live);
        assert(forall|i: int| 0 <= i < n ==> #[trigger] ids[i] == t[i]);
        assert(forall|k: int| 0 <= k < before.len() ==> #[trigger] all[k] == before[k]);
        assert forall|k: int| 0 <= k < before.len() implies 0 <= #[trigger] before[k] < n by {
            assert(before.contains(before[k]));
        }
        assert forall|i: int| #[trigger] all.contains(i) <==> may_be_meant(
            ids,
            prefix,
            live,
            i,
        ) by {
            if all.contains(i) {
                let k = choose|k: int| 0 <= k < all.len() && all[k] == i;
                if k < before.len() {
                    assert(before.contains(i));
                    assert(may_be_meant(t, prefix, live, i));
                }
            }
            if may_be_meant(ids, prefix, live, i) {
                if i < n {
                    assert(may_be_meant(t, prefix, live, i));
                    assert(before.contains(i));
                    let k = choose|k: int| 0 <= k < before.len() && before[k] == i;
                    assert(all[k] == i);
                } else {
                    assert(all[before.len() as int] == i);
                }
            }
        }
    }
}

/// A prefix means the one session that begins so and is not live. Where there is none, nothing is
/// meant, and where there are several, they are told in their order.
pub proof fn law_prefix_means_the_one_session(
    listing: Result<Vec<SessionInfo>, String>,
    prefix: Seq<char>,
    live: Seq<char>,
    i: int,
    j: int,
)
    ensures
        listing matches Err(e) ==> matched(listing, prefix, live) == Err::<Option<int>, Seq<char>>(
            "list sessions: "@ + e@,
        ),
        listing matches Ok(sessions) ==> ({
            let ids = sessions@.map_values(|s: SessionInfo| s.session_id@);
            let found = candidate_places(ids, prefix, live);
            &&& may_be_meant(ids, prefix, live, i) && (forall|k: int|
                #[trigger] may_be_meant(ids, prefix, live, k) ==> k == i) ==> matched(
                listing,
                prefix,
                live,
            ) == Ok::<Option<int>, Seq<char>>(Some(i))
            &&& (forall|k: int| !#[trigger] may_be_meant(ids, prefix, live, k)) ==> matched(
                listing,
                prefix,
                live,
            ) == Ok::<Option<int>, Seq<char>>(None)
            &&& may_be_meant(ids, prefix, live, i) && may_be_meant(ids, prefix, live, j) && i != j
                ==> matched(listing, prefix, live) == Err::<Option<int>, Seq<char>>(
                "ambiguous prefix `"@ + prefix + "` matches "@ + decimal(found.len())
                    + " sessions: "@ + preview(found.map_values(|k: int| ids[k])),
            )
            &&& forall|k: int| #[trigger] found.contains(k) <==> may_be_meant(ids, prefix, live, k)
            &&& forall|a: int, b: int|
                0 <= a < b < found.len() ==> #[trigger] found[a] < #[trigger] found[b]
        }),
{
    if let Ok(sessions) = listing {
        let ids = ids_of(sessions@);
        let found = candidate_places(ids, prefix, live);
        lemma_candidates(ids, prefix, live);
        if may_be_meant(ids, prefix, live, i) {
            assert(found.contains(i));
            if forall|k: int| #[trigger] may_be_meant(ids, prefix, live, k) ==> k == i {
                assert forall|k: int| 0 <= k < found.len() implies #[trigger] found[k] == i by {
                    assert(found.contains(found[k]));
                }
                if found.len() > 1 {
                    assert(found[0] < found[1]);
                }
            }
            if may_be_meant(ids, prefix, live, j) && i != j {
                assert(found.contains(j));
                let a = choose|a: int| 0 <= a < found.len() && found[a] == i;
                let b = choose|b: int| 0 <= b < found.len() && found[b] == j;
                assert(found.len() > 1);
                assert(ids_at(ids, found) =~= found.map_values(|k: int| ids[k]));
            }
        }
        if forall|k: int| !#[trigger] may_be_meant(ids, prefix, live, k) {
            if found.len() > 0 {
                assert(found.contains(found[0]));
            }
        }
    }
}

/// The project's sessions are looked at first, and those of all projects only where none of them
/// is meant.
pub proof fn law_project_is_looked_at_first(
    scoped: Result<Vec<SessionInfo>, String>,
    widened: Result<Vec<SessionInfo>, String>,
    prefix: Seq<char>,
    live: Seq<char>,
)
    ensures
        matched(scoped, prefix, live) matches Err(e) ==> meant(scoped, Some(widened), prefix, live)
            == LookupView::Failed(e) && meant(scoped, None, prefix, live) == LookupView::Failed(e),
        matched(scoped, prefix, live) matches Ok(Some(i)) ==> meant(
            scoped,
            Some(widened),
            prefix,
            live,
        ) == (LookupView::Found { all: false, index: i }) && meant(scoped, None, prefix, live) == (
        LookupView::Found { all: false, index: i }),
        matched(scoped, prefix, live) matches Ok(None) ==> meant(scoped, None, prefix, live)
            == LookupView::Widen && meant(scoped, Some(widened), prefix, live) == (match matched(
            widened,
            prefix,
            live,
        ) {
            Err(e) => LookupView::Failed(e),
            Ok(Some(i)) => LookupView::Found { all: true, index: i },
            Ok(None) => LookupView::Failed("no session matching `"@ + prefix + "`"@),
        }),
{
}

/// What a prefix means can be told where every identifier can be cut short.
pub proof fn law_what_is_meant_can_be_told(
    sessions: Vec<SessionInfo>,
    prefix: Seq<char>,
    live: Seq<char>,
)
    requires
        forall|i: int|
            0 <= i < sessions@.len() ==> is_cuttable(
                (#[trigger] sessions@[i]).session_id@,
            ),
    ensures
        can_tell(Ok::<Vec<SessionInfo>, String>(sessions), prefix, live),
        forall|e: String| #[trigger] can_tell(Err::<Vec<SessionInfo>, String>(e), prefix, live),
{
    let ids = ids_of(sessions@);
    let found = candidate_places(ids, prefix, live);
    lemma_candidates(ids, prefix, live);
    assert forall|k: int| 0 <= k < found.len() implies is_cuttable(
        #[trigger] ids_at(ids, found)[k],
    ) by {
        assert(found.contains(found[k]));
        assert(may_be_meant(ids, prefix, live, found[k]));
        assert(ids[found[k]] == sessions@[found[k]].session_id@);
    }
}

/// Why the sessions could not be listed is told.
pub proof fn law_failed_listings_are_told(e: Seq<char>)
    ensures
        load_failure(e) == "failed to load sessions: "@ + e,
{
}

} // verus!
