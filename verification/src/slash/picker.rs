//! The model picker: the models that are offered, and the effort of the one under the cursor.

use vstd::prelude::*;
use vstd::string::*;

use crate::config::Effort;
use crate::event::{ActionView, UserAction};
use crate::model::{law_levels_rise, Capabilities, Catalog, CatalogView, ResolvedModelId};
use crate::slash::context::LiveSessionInfo;
use crate::slash::effort_slider::{color_of, tier_color, TierColor};
use crate::text::{owned, str_eq, views};
use crate::tui::list_picker::{
    digit_hint, first_active, first_hinted, law_first_item_in_use_is_found,
    law_first_item_with_the_key_is_found, numeric_hint, row_above, row_below, ListPicker,
    PickerItem,
};
use crate::tui::modal::{
    capped, footer_area, footer_place, left_over, list_area, list_place, submitting, sum, Area,
    KeyCode, KeyEvent, ModalAction, ModalActionView, ModalKey, ModalKeyView,
};

verus! {

/// The title of the picker.
pub const PICKER_TITLE: &'static str = "Select model";

/// What the picker says of itself.
pub const PICKER_DESCRIPTION: &'static str = "Switch the active model. Applies to this session only — restart returns to your config.";

/// What the keys do.
pub const FOOTER: &'static str = "Enter to confirm  ·  Esc to cancel";

/// What the effort row begins with.
pub const EFFORT_MARK: &'static str = "● ";

/// What the arrows do.
pub const EFFORT_HINT: &'static str = "  ← →  to adjust";

// ── Rows ──

/// A model as the picker shows it.
#[derive(Debug)]
pub struct ModelRow {
    pub id: String,
    pub capabilities: Capabilities,
    pub is_active: bool,
    pub description: String,
    pub hint: Option<char>,
}

impl PickerItem for ModelRow {
    open spec fn hint(&self) -> Option<char> {
        self.hint
    }

    open spec fn active(&self) -> bool {
        self.is_active
    }

    fn key_hint(&self) -> (r: Option<char>) {
        self.hint
    }

    fn is_active(&self) -> (r: bool) {
        self.is_active
    }
}

/// Whether `rows` are the models that are offered, with the one called `active` marked.
pub open spec fn are_model_rows(
    cat: CatalogView,
    rows: Seq<ModelRow>,
    active: Seq<char>,
) -> bool {
    &&& rows.len() == cat.listed.len()
    &&& forall|i: int| 0 <= i < rows.len() ==> is_model_row(cat, #[trigger] rows[i], i, active)
}

/// Whether `row` is the `i`th model that is offered, marked where it is called `active`.
pub open spec fn is_model_row(cat: CatalogView, row: ModelRow, i: int, active: Seq<char>) -> bool {
    &&& row.id@ == cat.listed[i]
    &&& row.capabilities == cat.capabilities_of(cat.listed[i])
    &&& row.is_active == (cat.listed[i] == active)
    &&& row.description@ == cat.shown_name(cat.listed[i])
    &&& row.hint == digit_hint(i)
}

impl ModelRow {
    /// The models that are offered, with the one called `active_id` marked.
    pub fn build(cat: &Catalog, active_id: &str) -> (r: Vec<ModelRow>)
        ensures
            are_model_rows(cat@, r@, active_id@),
    {
        let ids: &Vec<String> = cat.listed();
        let mut rows: Vec<ModelRow> = Vec::new();
        let mut i: usize = 0;
        assert(views(ids@).len() == ids@.len());
        while i < ids.len()
            invariant
                i <= ids.len(),
                views(ids@) == cat@.listed,
                ids@.len() == cat@.listed.len(),
                rows@.len() == i,
                forall|k: int|
                    0 <= k < i ==> is_model_row(cat@, #[trigger] rows@[k], k, active_id@),
            decreases ids.len() - i,
        {
            assert(cat@.listed[i as int] == ids@[i as int]@);
            let id: &str = ids[i].as_str();
            rows.push(
                ModelRow {
                    id: owned(id),
                    capabilities: cat.capabilities_for(id),
                    is_active: str_eq(id, active_id),
                    description: cat.display_name(id),
                    hint: numeric_hint(i),
                },
            );
            i = i + 1;
        }
        rows
    }
}

/// Whether the model of the row takes an effort.
pub fn has_effort_tier(row: &ModelRow) -> (r: bool)
    ensures
        r == row.capabilities.effort,
{
    row.capabilities.effort
}

/// The effort of the model under the cursor, where `fallback` was asked for; none where it takes
/// none.
pub open spec fn highlighted_effort(row: Option<ModelRow>, fallback: Option<Effort>) -> Option<
    Effort,
> {
    match row {
        None => None,
        Some(r) => if r.capabilities.effort {
            match r.capabilities.resolved(fallback) {
                Some(e) => Some(e),
                None => Some(Effort::High),
            }
        } else {
            None
        },
    }
}

/// The effort of the model under the cursor, where `fallback` was asked for; none where it takes
/// none.
pub fn effort_for_highlighted(list: &ListPicker<ModelRow>, fallback: Option<Effort>) -> (r: Option<
    Effort,
>)
    ensures
        r == highlighted_effort(list.current(), fallback),
{
    match list.selected() {
        None => None,
        Some(row) => {
            let caps: Capabilities = row.capabilities;
            if !caps.effort {
                return None;
            }
            match caps.resolve_effort(fallback) {
                Some(e) => Some(e),
                None => Some(Effort::High),
            }
        },
    }
}

// ── Effort axis ──

/// Which way the effort goes.
#[derive(Debug, Clone, Copy, PartialEq, Eq, Structural)]
pub enum Direction {
    Forward,
    Backward,
}

/// The place of `level` among the levels; the first where it is none of them.
pub open spec fn place_of(levels: Seq<Effort>, level: Option<Effort>) -> int
{
    match level {
        None => 0,
        Some(e) => if levels.contains(e) {
            levels.index_of_first(e)->0
        } else {
            0
        },
    }
}

/// The level after `level`, going round.
pub open spec fn cycled(levels: Seq<Effort>, level: Option<Effort>, direction: Direction) -> Effort {
    let len = levels.len() as int;
    levels[match direction {
        Direction::Forward => row_below(place_of(levels, level), len),
        Direction::Backward => row_above(place_of(levels, level), len),
    }]
}

/// The models with a cursor, what was in use at first, and the effort as it stands.
#[derive(Debug)]
pub struct ModelEffortPicker {
    pub list: ListPicker<ModelRow>,
    /// The model that was in use at first.
    pub active_model: String,
    /// The row that the cursor stood on at first.
    pub initial_row: usize,
    /// The effort that was asked for at first.
    pub active_effort: Option<Effort>,
    /// The effort that the picker started with.
    pub initial_effort: Option<Effort>,
    /// The effort as it stands; none where the model under the cursor takes none.
    pub effort: Option<Effort>,
    /// Whether the effort was changed by hand.
    pub effort_dirty: bool,
}

/// The effort row as it is drawn.
#[derive(Debug, PartialEq, Eq)]
pub struct EffortRow {
    pub text: String,
    pub color: TierColor,
}

/// Where the picker is drawn.
#[derive(Debug, Clone, Copy, PartialEq, Eq, Structural)]
pub struct PickerLayout {
    pub list: Area,
    pub effort: Option<Area>,
    pub footer: Option<Area>,
}

/// How much of `n` rows is left after `k` of them.
pub open spec fn rest(n: int, k: int) -> u16 {
    if n >= k {
        (n - k) as u16
    } else {
        0
    }
}

/// Where the picker is drawn: the list, a blank line and the effort row where there is one, and
/// a blank line and the footer where there is room.
pub open spec fn picker_places(area: Area, list_height: u16, has_effort: bool) -> PickerLayout {
    let below = capped(area.y + list_height);
    let room = rest(area.height as int, list_height as int);
    if has_effort {
        let at = capped(below + 1);
        let left = rest(room as int, 1);
        PickerLayout {
            list: list_place(area, list_height),
            effort: Some(
                Area {
                    x: area.x,
                    y: at,
                    width: area.width,
                    height: if left >= 1 {
                        1
                    } else {
                        left
                    },
                },
            ),
            footer: footer_place(area, capped(at + 1), rest(left as int, 1)),
        }
    } else {
        PickerLayout {
            list: list_place(area, list_height),
            effort: None,
            footer: footer_place(area, below, room),
        }
    }
}

impl ModelEffortPicker {
    /// Whether the model under the cursor takes an effort.
    pub open spec fn has_tier(&self) -> bool {
        match self.list.current() {
            Some(row) => row.capabilities.effort,
            None => false,
        }
    }

    /// The effort as it stands, or the one that was asked for at first.
    pub open spec fn standing_effort(&self) -> Option<Effort> {
        match self.effort {
            Some(e) => Some(e),
            None => self.active_effort,
        }
    }

    /// Whether nothing but the cursor and the effort differ.
    pub open spec fn same_frame(&self, other: &ModelEffortPicker) -> bool {
        &&& self.list.items() == other.list.items()
        &&& self.active_model@ == other.active_model@
        &&& self.initial_row == other.initial_row
        &&& self.active_effort == other.active_effort
        &&& self.initial_effort == other.initial_effort
    }

    /// Whether the cursor stands on another row than at first, and on another model than the one
    /// that was in use.
    pub open spec fn model_moved(&self) -> bool {
        self.list.row() != self.initial_row && (self.list.current() matches Some(row) && row.id@
            != self.active_model@)
    }

    /// What is answered where the choice is made: what was changed, or nothing. The model is
    /// asked for only where the cursor was moved to it.
    pub open spec fn choice(&self) -> ModalKeyView {
        let effort_changed = self.effort_dirty && self.effort != self.initial_effort;
        if !self.model_moved() && !effort_changed {
            ModalKeyView::Cancelled
        } else {
            submitting(
                ActionView::SwapConfig {
                    model: if self.model_moved() {
                        Some(self.list.current()->0.id@)
                    } else {
                        None
                    },
                    effort: if effort_changed {
                        self.effort
                    } else {
                        None
                    },
                },
            )
        }
    }

    /// Whether the picker is as it opens: with the cursor on the model in use, or on the first
    /// where it is not offered, and the effort untouched.
    pub open spec fn is_start(&self, info: LiveSessionInfo) -> bool {
        &&& are_model_rows(info.catalog@, self.list.items(), info.config.model_id@)
        &&& self.list.row() == match first_active(self.list.items()) {
            Some(i) => i,
            None => 0,
        }
        &&& self.initial_row == self.list.row()
        &&& self.active_model@ == info.config.model_id@
        &&& self.active_effort == info.config.effort
        &&& self.effort == highlighted_effort(self.list.current(), info.config.effort)
        &&& self.initial_effort == self.effort
        &&& !self.effort_dirty
    }

    /// The picker with the cursor on the model in use; on the first where it is not offered.
    pub fn new(info: &LiveSessionInfo) -> (r: ModelEffortPicker)
        ensures
            r.is_start(*info),
    {
        let active_model: String = owned(info.config.model_id.as_str());
        let rows: Vec<ModelRow> = ModelRow::build(&info.catalog, active_model.as_str());
        let mut list: ListPicker<ModelRow> = ListPicker::new(rows);
        list.select_active();
        let effort: Option<Effort> = effort_for_highlighted(&list, info.config.effort);
        let initial_row: usize = list.selected_index();
        ModelEffortPicker {
            list,
            active_model,
            initial_row,
            active_effort: info.config.effort,
            initial_effort: effort,
            effort,
            effort_dirty: false,
        }
    }

    /// The effort as it stands, or the one that was asked for at first.
    pub fn effort_or_active(&self) -> (r: Option<Effort>)
        ensures
            r == self.standing_effort(),
    {
        match self.effort {
            Some(e) => Some(e),
            None => self.active_effort,
        }
    }

    /// Fits the effort to the model that the cursor came to.
    pub fn refresh_effort_for_cursor(&mut self)
        ensures
            final(self).same_frame(old(self)),
            final(self).list == old(self).list,
            final(self).effort_dirty == old(self).effort_dirty,
            final(self).effort == highlighted_effort(
                old(self).list.current(),
                old(self).standing_effort(),
            ),
    {
        self.effort = effort_for_highlighted(&self.list, self.effort_or_active());
    }

    /// Goes to the next level that the model under the cursor takes, going round; changes
    /// nothing where it takes none.
    pub fn cycle_effort(&mut self, direction: Direction)
        ensures
            final(self).same_frame(old(self)),
            final(self).list == old(self).list,
            !old(self).has_tier() ==> final(self).effort == old(self).effort && final(self).effort_dirty == old(self).effort_dirty,
            old(self).has_tier() ==> final(self).effort_dirty && final(self).effort == Some(
                cycled(
                    old(self).list.current()->0.capabilities.levels(),
                    old(self).effort,
                    direction,
                ),
            ),
    {
        let caps: Capabilities = match self.list.selected() {
            None => {
                return;
            },
            Some(row) => row.capabilities,
        };
        if !caps.effort {
            return;
        }
        let supported: Vec<Effort> = caps.supported();
        proof {
            assert(caps.takes(Effort::Low));
            assert(supported@.contains(Effort::Low));
        }
        let current: usize = match self.effort {
            None => 0,
            Some(e) => find_level(&supported, e),
        };
        let n: usize = supported.len();
        let next: usize = match direction {
            Direction::Forward => if current + 1 < n {
                current + 1
            } else {
                0
            },
            Direction::Backward => if current == 0 {
                n - 1
            } else {
                current - 1
            },
        };
        self.effort = Some(supported[next]);
        self.effort_dirty = true;
    }

    /// Asks for what was changed; for nothing where both are as they were at first.
    pub fn submit(&self) -> (r: ModalKey)
        ensures
            r@ == self.choice(),
    {
        let model: Option<ResolvedModelId> = match self.list.selected() {
            Some(row) => {
                if self.list.selected_index() != self.initial_row && !str_eq(
                    row.id.as_str(),
                    self.active_model.as_str(),
                ) {
                    Some(ResolvedModelId::new(owned(row.id.as_str())))
                } else {
                    None
                }
            },
            None => None,
        };
        let effort_changed: bool = self.effort_dirty && !same_effort(
            self.effort,
            self.initial_effort,
        );
        if model.is_none() && !effort_changed {
            return ModalKey::Cancelled;
        }
        let effort: Option<Effort> = if effort_changed {
            self.effort
        } else {
            None
        };
        ModalKey::Submitted(ModalAction::User(UserAction::SwapConfig { model, effort }))
    }

    /// The row after a key.
    pub open spec fn moved(&self, code: KeyCode) -> int {
        let len = self.list.items().len() as int;
        match code {
            KeyCode::Up | KeyCode::Char('k') => row_above(self.list.row(), len),
            KeyCode::Down | KeyCode::Char('j') => row_below(self.list.row(), len),
            KeyCode::Char(c) => if '1' <= c <= '9' {
                match first_hinted(self.list.items(), c) {
                    Some(i) => i,
                    None => self.list.row(),
                }
            } else {
                self.list.row()
            },
            _ => self.list.row(),
        }
    }

    /// Whether the key puts the cursor somewhere, be it where it was.
    pub open spec fn is_move(&self, code: KeyCode) -> bool {
        match code {
            KeyCode::Up | KeyCode::Down | KeyCode::Char('k') | KeyCode::Char('j') => true,
            KeyCode::Char(c) => '1' <= c <= '9' && first_hinted(self.list.items(), c) is Some,
            _ => false,
        }
    }

    /// Moves the cursor with the up and down arrows, `j` and `k` or a digit, fitting the effort
    /// to the model; changes the effort with the left and right arrows or `h` and `l`; chooses on
    /// Enter.
    pub fn handle_key(&mut self, event: &KeyEvent) -> (r: ModalKey)
        ensures
            final(self).same_frame(old(self)),
            final(self).list.row() == old(self).moved(event.code),
            r@ == match event.code {
                KeyCode::Enter => old(self).choice(),
                _ => ModalKeyView::Consumed,
            },
            old(self).is_move(event.code) ==> {
                &&& final(self).effort_dirty == old(self).effort_dirty
                &&& final(self).effort == highlighted_effort(
                    final(self).list.current(),
                    old(self).standing_effort(),
                )
            },
            match event.code {
                KeyCode::Right | KeyCode::Char('l') => old(self).has_tier(),
                KeyCode::Left | KeyCode::Char('h') => old(self).has_tier(),
                _ => false,
            } ==> {
                &&& final(self).effort_dirty
                &&& final(self).effort == Some(
                    cycled(
                        old(self).list.current()->0.capabilities.levels(),
                        old(self).effort,
                        match event.code {
                            KeyCode::Right | KeyCode::Char('l') => Direction::Forward,
                            _ => Direction::Backward,
                        },
                    ),
                )
            },
            !old(self).is_move(event.code) && !match event.code {
                KeyCode::Right | KeyCode::Char('l') => old(self).has_tier(),
                KeyCode::Left | KeyCode::Char('h') => old(self).has_tier(),
                _ => false,
            } ==> final(self).effort == old(self).effort && final(self).effort_dirty == old(self).effort_dirty,
    {
        match event.code {
            KeyCode::Enter => self.submit(),
            KeyCode::Up | KeyCode::Char('k') => {
                self.list.select_prev();
                self.refresh_effort_for_cursor();
                ModalKey::Consumed
            },
            KeyCode::Down | KeyCode::Char('j') => {
                self.list.select_next();
                self.refresh_effort_for_cursor();
                ModalKey::Consumed
            },
            KeyCode::Right | KeyCode::Char('l') => {
                self.cycle_effort(Direction::Forward);
                ModalKey::Consumed
            },
            KeyCode::Left | KeyCode::Char('h') => {
                self.cycle_effort(Direction::Backward);
                ModalKey::Consumed
            },
            KeyCode::Char(c) => {
                if '1' <= c && c <= '9' && self.list.select_by_hint(c) {
                    self.refresh_effort_for_cursor();
                }
                ModalKey::Consumed
            },
            _ => ModalKey::Consumed,
        }
    }

    /// The text of the effort row, and its colour; none where the model under the cursor takes no
    /// effort.
    pub open spec fn effort_row_text(&self) -> Option<(Seq<char>, TierColor)> {
        if !self.has_tier() {
            None
        } else {
            match self.standing_effort() {
                None => None,
                Some(e) => Some(
                    (
                        e.label() + " effort"@ + if self.active_effort is None
                            && !self.effort_dirty {
                            " (default)"@
                        } else {
                            Seq::<char>::empty()
                        },
                        color_of(e),
                    ),
                ),
            }
        }
    }

    /// The effort row: the level, and whether it is the model's own.
    pub fn render_effort_row(&self) -> (r: Option<EffortRow>)
        ensures
            match r {
                Some(row) => self.effort_row_text() == Some((row.text@, row.color)),
                None => self.effort_row_text() is None,
            },
    {
        match self.list.selected() {
            None => {
                return None;
            },
            Some(row) => {
                if !has_effort_tier(row) {
                    return None;
                }
            },
        }
        match self.effort_or_active() {
            None => None,
            Some(level) => {
                let mut text: String = level.name().to_owned();
                text.append(" effort");
                if self.active_effort.is_none() && !self.effort_dirty {
                    text.append(" (default)");
                }
                assert((self.effort_row_text()->0).0 =~= text@);
                Some(EffortRow { text, color: tier_color(level) })
            },
        }
    }

    /// How many lines the picker takes: the list, a blank line and the effort row where the model
    /// takes an effort, a blank line and the footer.
    pub fn height(&self, list_height: u16) -> (r: u16)
        requires
            list_height + 2 + (if self.has_tier() {
                2int
            } else {
                0int
            }) <= u16::MAX,
        ensures
            r == list_height + 2 + if self.has_tier() {
                2int
            } else {
                0int
            },
    {
        let mut h: u16 = list_height + 1;
        if let Some(row) = self.list.selected() {
            if has_effort_tier(row) {
                h = h + 2;
            }
        }
        h + 1
    }

    /// Where the picker is drawn.
    pub fn layout(&self, area: Area, list_height: u16) -> (r: PickerLayout)
        ensures
            r == picker_places(area, list_height, self.effort_row_text() is Some),
    {
        let mut y: u16 = sum(area.y, list_height);
        let mut room: u16 = left_over(area.height, list_height);
        let mut effort: Option<Area> = None;
        if self.render_effort_row().is_some() {
            y = sum(y, 1);
            room = left_over(room, 1);
            let height: u16 = if room >= 1 {
                1
            } else {
                room
            };
            effort = Some(Area { x: area.x, y, width: area.width, height });
            y = sum(y, 1);
            room = left_over(room, 1);
        }
        PickerLayout {
            list: list_area(area, list_height),
            effort,
            footer: footer_area(area, y, room),
        }
    }
}

fn same_effort(a: Option<Effort>, b: Option<Effort>) -> (r: bool)
    ensures
        r == (a == b),
{
    match (a, b) {
        (None, None) => true,
        (Some(x), Some(y)) => x == y,
        _ => false,
    }
}

fn find_level(levels: &Vec<Effort>, level: Effort) -> (r: usize)
    requires
        levels@.len() > 0,
    ensures
        r == place_of(levels@, Some(level)),
        r < levels@.len(),
{
    let mut i: usize = 0;
    while i < levels.len()
        invariant
            i <= levels.len(),
            forall|k: int| 0 <= k < i ==> levels@[k] != level,
        decreases levels.len() - i,
    {
        if levels[i] == level {
            proof {
                levels@.index_of_first_ensures(level);
            }
            return i;
        }
        i = i + 1;
    }
    0
}

// ── Laws ──

/// Where the cursor stands where it stood at first, or on the model in use, and the effort was
/// not changed by hand, or was brought back, a choice asks for nothing.
pub proof fn law_unchanged_choice_asks_for_nothing(p: ModelEffortPicker)
    requires
        p.list.row() == p.initial_row || (p.list.current() matches Some(row) ==> row.id@
            == p.active_model@),
        !p.effort_dirty || p.effort == p.initial_effort,
    ensures
        p.choice() == ModalKeyView::Cancelled,
{
}

/// A choice with no key pressed asks for nothing, whether or not the model in use is offered.
pub proof fn law_untouched_choice_asks_for_nothing(p: ModelEffortPicker, info: LiveSessionInfo)
    requires
        p.is_start(info),
    ensures
        p.choice() == ModalKeyView::Cancelled,
{
}

/// Going one level on and one back comes back to the level, whatever the model takes.
pub proof fn law_effort_goes_round(caps: Capabilities, level: Effort)
    requires
        caps.takes(level),
    ensures
        cycled(
            caps.levels(),
            Some(cycled(caps.levels(), Some(level), Direction::Forward)),
            Direction::Backward,
        ) == level,
        cycled(
            caps.levels(),
            Some(cycled(caps.levels(), Some(level), Direction::Backward)),
            Direction::Forward,
        ) == level,
        caps.takes(cycled(caps.levels(), Some(level), Direction::Forward)),
        caps.takes(cycled(caps.levels(), Some(level), Direction::Backward)),
{
    let levels = caps.levels();
    caps.lemma_levels(5);
    lemma_levels_ascend(caps, 5);
    assert(Effort::ladder()[level.rank()] == level);
    assert(levels.contains(level));
    levels.index_of_first_ensures(level);
    let i = place_of(levels, Some(level));
    let n = levels.len() as int;
    let up = row_below(i, n);
    let down = row_above(i, n);
    assert(levels.contains(levels[up]));
    assert(levels.contains(levels[down]));
    levels.index_of_first_ensures(levels[up]);
    levels.index_of_first_ensures(levels[down]);
    assert(place_of(levels, Some(levels[up])) == up);
    assert(place_of(levels, Some(levels[down])) == down);
}

proof fn lemma_levels_ascend(caps: Capabilities, n: nat)
    requires
        n <= 5,
    ensures
        forall|i: int, j: int|
            0 <= i < j < caps.levels_below(n).len() ==> (
            #[trigger] caps.levels_below(n)[i]).rank() < (
            #[trigger] caps.levels_below(n)[j]).rank(),
    decreases n,
{
    if n > 0 {
        let front = caps.levels_below((n - 1) as nat);
        let all = caps.levels_below(n);
        lemma_levels_ascend(caps, (n - 1) as nat);
        caps.lemma_levels((n - 1) as nat);
        assert forall|i: int, j: int| 0 <= i < j < all.len() implies (#[trigger] all[i]).rank() < (
        #[trigger] all[j]).rank() by {
            assert(all[i] == front[i]);
            assert(front.contains(front[i]));
            if j < front.len() {
                assert(all[j] == front[j]);
            }
        }
    }
}

/// The picker starts on the model in use, and on the first where that is not offered, with the
/// effort that the model under the cursor resolves the pick to; every model that is offered has its
/// row.
pub proof fn law_picker_starts_on_the_model_in_use(
    p: ModelEffortPicker,
    info: LiveSessionInfo,
    i: int,
)
    requires
        p.is_start(info),
    ensures
        ({
            let cat = info.catalog@;
            let active = info.config.model_id@;
            let rows = p.list.items();
            &&& rows.len() == cat.listed.len()
            &&& 0 <= i < rows.len() ==> {
                &&& rows[i].id@ == cat.listed[i]
                &&& rows[i].capabilities == cat.capabilities_of(cat.listed[i])
                &&& rows[i].description@ == cat.shown_name(cat.listed[i])
                &&& rows[i].is_active <==> cat.listed[i] == active
                &&& i < 9 ==> rows[i].hint is Some && rows[i].hint->0 as int == '1' as int + i
                &&& i >= 9 ==> rows[i].hint is None
            }
            &&& cat.listed.contains(active) ==> 0 <= p.list.row() < rows.len()
                && cat.listed[p.list.row()] == active
            &&& !cat.listed.contains(active) ==> p.list.row() == 0
            &&& p.initial_row == p.list.row()
            &&& p.active_model@ == active
            &&& p.active_effort == info.config.effort
            &&& 0 <= p.list.row() < rows.len() ==> p.effort == cat.capabilities_of(
                cat.listed[p.list.row()],
            ).resolved(info.config.effort)
            &&& p.initial_effort == p.effort
            &&& !p.effort_dirty
        }),
{
    let cat = info.catalog@;
    let rows = p.list.items();
    let active = info.config.model_id@;
    law_first_item_in_use_is_found(rows);
    if 0 <= i < rows.len() {
        assert(is_model_row(cat, rows[i], i, active));
    }
    if cat.listed.contains(active) {
        let k = choose|k: int| 0 <= k < cat.listed.len() && cat.listed[k] == active;
        assert(is_model_row(cat, rows[k], k, active));
        assert(rows[k].active());
        let f = first_active(rows)->0;
        assert(is_model_row(cat, rows[f], f, active));
    } else {
        if first_active(rows) is Some {
            let k = first_active(rows)->0;
            assert(is_model_row(cat, rows[k], k, active));
        }
    }
    let at = p.list.row();
    if 0 <= at < rows.len() {
        assert(is_model_row(cat, rows[at], at, active));
    }
}

/// The effort for a model under the cursor is what the model resolves the pick to; a model that
/// takes no level has none.
pub proof fn law_effort_is_that_of_the_model(row: ModelRow, pick: Option<Effort>)
    ensures
        highlighted_effort(Some(row), pick) == row.capabilities.resolved(pick),
        highlighted_effort(None, pick) is None,
{
}

/// Forward goes to the next level, and from the last to the first; backward goes the other way. No
/// level stands for the first.
pub proof fn law_levels_follow_one_another(caps: Capabilities, i: int)
    requires
        0 <= i < caps.levels().len(),
    ensures
        ({
            let levels = caps.levels();
            let last = levels.len() - 1;
            let next = |k: int|
                if k == last {
                    levels[0]
                } else {
                    levels[k + 1]
                };
            let prior = |k: int|
                if k == 0 {
                    levels[last]
                } else {
                    levels[k - 1]
                };
            &&& cycled(levels, Some(levels[i]), Direction::Forward) == next(i)
            &&& cycled(levels, Some(levels[i]), Direction::Backward) == prior(i)
            &&& cycled(levels, None, Direction::Forward) == next(0)
            &&& cycled(levels, None, Direction::Backward) == prior(0)
        }),
{
    let levels = caps.levels();
    assert(levels.contains(levels[i]));
    levels.index_of_first_ensures(levels[i]);
    let k = levels.index_of_first(levels[i])->0;
    if k < i {
        law_levels_rise(caps, k, i);
    } else if i < k {
        law_levels_rise(caps, i, k);
    }
}

/// What Enter asks for is what was changed: the model where the cursor is on another, the effort
/// where it was changed by hand to another, and nothing where neither is so.
pub proof fn law_enter_asks_for_what_was_changed(p: ModelEffortPicker)
    requires
        0 <= p.list.row() < p.list.items().len(),
    ensures
        ({
            let id = p.list.items()[p.list.row()].id@;
            let another = p.list.row() != p.initial_row && id != p.active_model@;
            let adjusted = p.effort_dirty && p.effort != p.initial_effort;
            let asking = |model: Option<Seq<char>>, effort: Option<Effort>|
                ModalKeyView::Submitted(
                    ModalActionView::User(ActionView::SwapConfig { model, effort }),
                );
            &&& another && adjusted ==> p.choice() == asking(Some(id), p.effort)
            &&& another && !adjusted ==> p.choice() == asking(Some(id), None)
            &&& !another && adjusted ==> p.choice() == asking(None, p.effort)
            &&& !another && !adjusted ==> p.choice() == ModalKeyView::Cancelled
        }),
{
}

/// The arrows, and j and k, go to the next row, round the ends; a digit goes to the row that has it
/// and stays where none has; other keys stay.
pub proof fn law_keys_move_over_the_models(p: ModelEffortPicker, c: char, code: KeyCode, i: int)
    requires
        0 <= p.list.row() < p.list.items().len(),
    ensures
        ({
            let row = p.list.row();
            let rows = p.list.items();
            let last = rows.len() - 1;
            let down = if row == last {
                0
            } else {
                row + 1
            };
            let up = if row == 0 {
                last
            } else {
                row - 1
            };
            &&& p.moved(KeyCode::Down) == down && p.moved(KeyCode::Char('j')) == down
            &&& p.moved(KeyCode::Up) == up && p.moved(KeyCode::Char('k')) == up
            &&& p.is_move(KeyCode::Down) && p.is_move(KeyCode::Char('j'))
            &&& p.is_move(KeyCode::Up) && p.is_move(KeyCode::Char('k'))
            &&& '1' <= c <= '9' && 0 <= i < rows.len() && rows[i].hint == Some(c) && (forall|j: int|
                0 <= j < i ==> (#[trigger] rows[j]).hint != Some(c)) ==> p.moved(KeyCode::Char(c))
                == i && p.is_move(KeyCode::Char(c))
            &&& '1' <= c <= '9' && (forall|j: int|
                0 <= j < rows.len() ==> (#[trigger] rows[j]).hint != Some(c)) ==> p.moved(
                KeyCode::Char(c),
            ) == row && !p.is_move(KeyCode::Char(c))
            &&& !('1' <= c <= '9') && c != 'j' && c != 'k' ==> p.moved(KeyCode::Char(c)) == row
                && !p.is_move(KeyCode::Char(c))
            &&& !(code is Char) && !(code is Up) && !(code is Down) ==> p.moved(code) == row
                && !p.is_move(code)
        }),
{
    let rows = p.list.items();
    law_first_item_with_the_key_is_found(rows, c);
    assert(forall|j: int| 0 <= j < rows.len() ==> (#[trigger] rows[j]).hint() == rows[j].hint);
    if 0 <= i < rows.len() {
        assert(rows[i].hint() == rows[i].hint);
    }
    if let Some(k) = first_hinted(rows, c) {
        assert(rows[k].hint() == rows[k].hint);
    }
}

/// The line on the effort is there where the model under the cursor takes levels, and tells the
/// level in its colour; one that was neither set nor changed by hand is told to be the default.
pub proof fn law_effort_is_told_where_it_is_taken(p: ModelEffortPicker, e: Effort)
    requires
        0 <= p.list.row() < p.list.items().len(),
    ensures
        ({
            let takes = p.list.items()[p.list.row()].capabilities.effort;
            let stands = p.effort == Some(e) || (p.effort is None && p.active_effort == Some(e));
            let default = p.active_effort is None && !p.effort_dirty;
            &&& !takes ==> p.effort_row_text() is None
            &&& p.effort is None && p.active_effort is None ==> p.effort_row_text() is None
            &&& takes && stands && default ==> p.effort_row_text() == Some(
                (e.label() + " effort (default)"@, color_of(e)),
            )
            &&& takes && stands && !default ==> p.effort_row_text() == Some(
                (e.label() + " effort"@, color_of(e)),
            )
        }),
{
    reveal_strlit(" effort");
    reveal_strlit(" (default)");
    reveal_strlit(" effort (default)");
    let none = Seq::<char>::empty();
    assert(e.label() + " effort"@ + " (default)"@ =~= e.label() + " effort (default)"@);
    assert(e.label() + " effort"@ + none =~= e.label() + " effort"@);
}

/// The list stands at the top, then a line apart the line on the effort where there is one, and the
/// footer a line apart under both, where there is room.
pub proof fn law_picker_parts_stand_under_one_another(area: Area, list_height: u16)
    requires
        area.y + area.height <= u16::MAX,
        list_height + 4 <= area.height,
    ensures
        ({
            let plain = picker_places(area, list_height, false);
            let with = picker_places(area, list_height, true);
            let line = |y: int| Area { x: area.x, y: y as u16, width: area.width, height: 1 };
            &&& plain.list == (Area { height: list_height, ..area })
            &&& with.list == plain.list
            &&& plain.effort is None
            &&& plain.footer == Some(line(area.y + list_height + 1))
            &&& with.effort == Some(line(area.y + list_height + 1))
            &&& with.footer == Some(line(area.y + list_height + 3))
        }),
{
}

/// Where there is no room for the footer, it is not there.
pub proof fn law_footer_needs_room(area: Area, list_height: u16)
    ensures
        picker_places(area, list_height, false).footer is None <==> area.height < list_height + 2,
        picker_places(area, list_height, true).footer is None <==> area.height < list_height + 4,
{
}

/// The line on the effort is under the list, a line apart, as long as there is room for it.
pub proof fn law_effort_line_needs_room(area: Area, list_height: u16)
    requires
        area.y + list_height + 1 <= u16::MAX,
    ensures
        ({
            let effort = picker_places(area, list_height, true).effort;
            &&& effort matches Some(e) && e.x == area.x && e.width == area.width && e.y == area.y
                + list_height + 1
            &&& effort->0.height == if area.height >= list_height + 2 {
                1u16
            } else {
                0u16
            }
            &&& picker_places(area, list_height, true).list.height <= area.height
        }),
{
}

} // verus!
