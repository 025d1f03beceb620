//! `/theme`: a picker that shows each theme as the cursor comes to it, or a switch to the theme
//! that was typed.

use vstd::prelude::*;
use vstd::string::*;

use crate::event::{ActionView, UserAction};
use crate::slash::matcher::{label_views, places, rank_by_prefix, ranked_places};
use crate::slash::model::completed;
use crate::slash::registry::{completion_views, ArgCompletion};
use crate::text::{join, lower, owned, str_eq, to_lower};
use crate::tui::list_picker::{
    digit_hint, first_active, first_hinted, law_first_item_in_use_is_found,
    law_first_item_with_the_key_is_found, numeric_hint, row_above, row_below, ListPicker,
    PickerItem,
};
use crate::tui::modal::{
    capped, list_layout, list_places, previewing, submitting, sum, Area, KeyCode, KeyEvent,
    ListLayout, ModalAction, ModalActionView, ModalKey, ModalKeyView,
};

verus! {

/// The title of the picker.
pub const PICKER_TITLE: &'static str = "Select theme";

/// What the picker says of itself.
pub const PICKER_DESCRIPTION: &'static str = "Switch the active theme. Applies to this session only — restart returns to your config.";

/// What the keys do.
pub const FOOTER: &'static str = "Enter to confirm  ·  Esc to cancel";

// ── Roster ──

/// The names of the themes, in the order in which they are shown.
pub open spec fn theme_names() -> Seq<Seq<char>> {
    seq!["mocha"@, "macchiato"@, "frappe"@, "latte"@, "material"@]
}

/// What each theme is, in the same order.
pub open spec fn theme_descriptions() -> Seq<Seq<char>> {
    seq![
        "Catppuccin dark (default)"@,
        "Catppuccin dark (medium)"@,
        "Catppuccin dark (soft)"@,
        "Catppuccin light"@,
        "Material dark"@,
    ]
}

/// The names of the themes, in the order in which they are shown.
pub fn listed_names() -> (r: Vec<&'static str>)
    ensures
        label_views(r@) == theme_names(),
{
    let r: Vec<&'static str> = vec!["mocha", "macchiato", "frappe", "latte", "material"];
    assert(label_views(r@) =~= theme_names());
    r
}

/// What each theme is, in the same order.
pub fn listed_descriptions() -> (r: Vec<&'static str>)
    ensures
        label_views(r@) == theme_descriptions(),
{
    let r: Vec<&'static str> = vec![
        "Catppuccin dark (default)",
        "Catppuccin dark (medium)",
        "Catppuccin dark (soft)",
        "Catppuccin light",
        "Material dark",
    ];
    assert(label_views(r@) =~= theme_descriptions());
    r
}

/// A theme as the picker shows it.
#[derive(Debug)]
pub struct ThemeRow {
    pub name: &'static str,
    pub description: &'static str,
    pub is_active: bool,
    pub hint: Option<char>,
}

impl PickerItem for ThemeRow {
    open spec fn hint(&self) -> Option<char> {
        self.hint
    }

    open spec fn active(&self) -> bool {
        self.is_active
    }

    fn key_hint(&self) -> (r: Option<char>) {
        self.hint
    }

    fn is_active(&self) -> (r: bool) {
        self.is_active
    }
}

/// Whether `rows` are the themes, with the one called `active` marked.
pub open spec fn are_theme_rows(rows: Seq<ThemeRow>, active: Seq<char>) -> bool {
    &&& rows.len() == theme_names().len()
    &&& forall|i: int|
        0 <= i < rows.len() ==> {
            &&& (#[trigger] rows[i]).name@ == theme_names()[i]
            &&& rows[i].description@ == theme_descriptions()[i]
            &&& rows[i].is_active == (theme_names()[i] == active)
            &&& rows[i].hint == digit_hint(i)
        }
}

impl ThemeRow {
    /// The themes, with the one called `active_name` marked.
    pub fn build(active_name: &str) -> (r: Vec<ThemeRow>)
        ensures
            are_theme_rows(r@, active_name@),
    {
        let names: Vec<&'static str> = listed_names();
        let descriptions: Vec<&'static str> = listed_descriptions();
        let mut rows: Vec<ThemeRow> = Vec::new();
        let mut i: usize = 0;
        assert(label_views(names@).len() == names@.len());
        assert(label_views(descriptions@).len() == descriptions@.len());
        while i < names.len()
            invariant
                i <= names.len(),
                label_views(names@) == theme_names(),
                label_views(descriptions@) == theme_descriptions(),
                names@.len() == 5,
                descriptions@.len() == 5,
                rows@.len() == i,
                forall|k: int|
                    0 <= k < i ==> {
                        &&& (#[trigger] rows@[k]).name@ == theme_names()[k]
                        &&& rows@[k].description@ == theme_descriptions()[k]
                        &&& rows@[k].is_active == (theme_names()[k] == active_name@)
                        &&& rows@[k].hint == digit_hint(k)
                    },
            decreases names.len() - i,
        {
            assert(theme_names()[i as int] == names@[i as int]@);
            assert(theme_descriptions()[i as int] == descriptions@[i as int]@);
            rows.push(
                ThemeRow {
                    name: names[i],
                    description: descriptions[i],
                    is_active: str_eq(names[i], active_name),
                    hint: numeric_hint(i),
                },
            );
            i = i + 1;
        }
        rows
    }
}

// ── Picker ──

/// The themes with a cursor, and the theme that was in use at first.
#[derive(Debug)]
pub struct ThemePicker {
    pub list: ListPicker<ThemeRow>,
    pub original_name: String,
}

/// Whether `c` is one of the digits that jump to a row.
pub open spec fn is_jump(c: char) -> bool {
    '1' <= c <= '9'
}

impl ThemePicker {
    /// The name under the cursor.
    pub open spec fn current_name(&self) -> Option<Seq<char>> {
        match self.list.current() {
            Some(row) => Some(row.name@),
            None => None,
        }
    }

    /// What is answered where the theme under the cursor is to be shown; the picker closes where
    /// there is none.
    pub open spec fn preview(&self) -> ModalKeyView {
        match self.current_name() {
            Some(name) => previewing(ActionView::PreviewTheme { name }),
            None => ModalKeyView::Cancelled,
        }
    }

    /// What is answered where the theme under the cursor is chosen.
    pub open spec fn choice(&self) -> ModalKeyView {
        match self.current_name() {
            Some(name) if name != self.original_name@ => submitting(
                ActionView::SwapTheme { name },
            ),
            _ => ModalKeyView::Cancelled,
        }
    }

    /// The row after a key.
    pub open spec fn moved(&self, code: KeyCode) -> int {
        let len = self.list.items().len() as int;
        match code {
            KeyCode::Up | KeyCode::Char('k') => row_above(self.list.row(), len),
            KeyCode::Down | KeyCode::Char('j') => row_below(self.list.row(), len),
            KeyCode::Char(c) => if is_jump(c) {
                match first_hinted(self.list.items(), c) {
                    Some(i) => i,
                    None => self.list.row(),
                }
            } else {
                self.list.row()
            },
            _ => self.list.row(),
        }
    }

    /// Whether the picker is as it opens: with the cursor on the theme in use, or on the first
    /// where it is none of them.
    pub open spec fn is_start(&self, active: Seq<char>) -> bool {
        &&& are_theme_rows(self.list.items(), active)
        &&& self.list.row() == match first_active(self.list.items()) {
            Some(i) => i,
            None => 0,
        }
        &&& self.original_name@ == active
    }

    /// The picker with the cursor on the theme in use; on the first where it is none of them.
    pub fn new(active_name: &str) -> (r: ThemePicker)
        ensures
            r.is_start(active_name@),
    {
        let rows: Vec<ThemeRow> = ThemeRow::build(active_name);
        let mut list: ListPicker<ThemeRow> = ListPicker::new(rows);
        list.select_active();
        ThemePicker { list, original_name: owned(active_name) }
    }

    /// Asks for the theme under the cursor to be shown; closes the picker where there is none.
    pub fn preview_current(&self) -> (r: ModalKey)
        ensures
            r@ == self.preview(),
    {
        match self.list.selected() {
            Some(row) => ModalKey::Preview(
                ModalAction::User(UserAction::PreviewTheme { name: owned(row.name) }),
            ),
            None => ModalKey::Cancelled,
        }
    }

    /// Asks for the theme under the cursor; for nothing where it was in use at first.
    pub fn submit(&self) -> (r: ModalKey)
        ensures
            r@ == self.choice(),
    {
        match self.list.selected() {
            None => ModalKey::Cancelled,
            Some(row) => {
                if str_eq(row.name, self.original_name.as_str()) {
                    return ModalKey::Cancelled;
                }
                ModalKey::Submitted(
                    ModalAction::User(UserAction::SwapTheme { name: owned(row.name) }),
                )
            },
        }
    }

    /// Moves the cursor with the arrows, `j` and `k` or a digit, showing the theme that it comes
    /// to; chooses on Enter.
    pub fn handle_key(&mut self, event: &KeyEvent) -> (r: ModalKey)
        ensures
            final(self).list.items() == old(self).list.items(),
            final(self).original_name@ == old(self).original_name@,
            final(self).list.row() == old(self).moved(event.code),
            r@ == match event.code {
                KeyCode::Enter => old(self).choice(),
                KeyCode::Up | KeyCode::Down | KeyCode::Char('k') | KeyCode::Char('j') => final(self).preview(),
                KeyCode::Char(c) => if is_jump(c) && first_hinted(
                    old(self).list.items(),
                    c,
                ) is Some {
                    final(self).preview()
                } else {
                    ModalKeyView::Consumed
                },
                _ => ModalKeyView::Consumed,
            },
    {
        match event.code {
            KeyCode::Enter => self.submit(),
            KeyCode::Up | KeyCode::Char('k') => {
                self.list.select_prev();
                self.preview_current()
            },
            KeyCode::Down | KeyCode::Char('j') => {
                self.list.select_next();
                self.preview_current()
            },
            KeyCode::Char(c) => {
                if '1' <= c && c <= '9' && self.list.select_by_hint(c) {
                    self.preview_current()
                } else {
                    ModalKey::Consumed
                }
            },
            _ => ModalKey::Consumed,
        }
    }

    /// How many lines the picker takes: the list, a blank line and a footer.
    pub fn height(&self, list_height: u16) -> (r: u16)
        ensures
            r == capped(list_height + 2),
    {
        sum(list_height, 2)
    }

    /// Where the picker is drawn.
    pub fn layout(&self, area: Area, list_height: u16) -> (r: ListLayout)
        ensures
            r == list_places(area, list_height),
    {
        list_layout(area, list_height)
    }
}

// ── Arguments ──

/// The themes that `prefix` finds, each with what it is.
pub fn complete_arg(prefix: &str) -> (r: Vec<ArgCompletion>)
    ensures
        completion_views(r@) == completed(theme_names(), theme_descriptions(), prefix@),
{
    let names: Vec<&'static str> = listed_names();
    let descriptions: Vec<&'static str> = listed_descriptions();
    let found: Vec<usize> = rank_by_prefix(&names, prefix);
    let ghost want = completed(theme_names(), theme_descriptions(), prefix@);
    let mut out: Vec<ArgCompletion> = Vec::new();
    let mut i: usize = 0;
    assert(label_views(names@).len() == names@.len());
    assert(label_views(descriptions@).len() == descriptions@.len());
    while i < found.len()
        invariant
            i <= found.len(),
            label_views(names@) == theme_names(),
            label_views(descriptions@) == theme_descriptions(),
            names@.len() == 5,
            descriptions@.len() == 5,
            places(found@) == ranked_places(theme_names(), prefix@),
            forall|k: int| 0 <= k < found@.len() ==> #[trigger] found@[k] < names@.len(),
            want == completed(theme_names(), theme_descriptions(), prefix@),
            completion_views(out@) =~= want.take(i as int),
        decreases found.len() - i,
    {
        let k: usize = found[i];
        assert(places(found@)[i as int] == k);
        assert(theme_names()[k as int] == names@[k as int]@);
        assert(theme_descriptions()[k as int] == descriptions@[k as int]@);
        let c: ArgCompletion = ArgCompletion {
            value: owned(names[k]),
            description: owned(descriptions[k]),
        };
        assert(completion_views(out@.push(c)) =~= completion_views(out@).push(
            (c.value@, c.description@),
        ));
        out.push(c);
        i = i + 1;
    }
    assert(want.take(found@.len() as int) =~= want) by {
        assert(places(found@).len() == found@.len());
    }
    out
}

/// The names of the themes, as they are listed to the user.
pub fn valid_names() -> (r: String)
    ensures
        r@ == join(theme_names(), ", "@),
{
    let names: Vec<&'static str> = listed_names();
    let ghost all = theme_names();
    let mut out: String = String::new();
    let mut i: usize = 0;
    assert(all.take(0) =~= seq![]);
    while i < names.len()
        invariant
            i <= names.len(),
            all == label_views(names@),
            out@ == join(all.take(i as int), ", "@),
        decreases names.len() - i,
    {
        assert(all.take(i as int + 1).drop_last() =~= all.take(i as int));
        assert(all.take(i as int + 1).last() == names@[i as int]@);
        if i > 0 {
            out.append(", ");
        }
        out.append(names[i]);
        i = i + 1;
    }
    assert(all.take(all.len() as int) =~= all);
    out
}

/// What is said of a word that is no theme.
pub open spec fn unknown_theme_text(arg: Seq<char>) -> Seq<char> {
    "Unknown theme: `"@ + arg + "`. Valid: "@ + join(theme_names(), ", "@) + "."@
}

/// The theme of that name, letters of either case being the same.
pub fn resolve_theme_arg(arg: &str) -> (r: Result<&'static str, String>)
    ensures
        match r {
            Ok(name) => name@ == lower(arg@) && theme_names().contains(lower(arg@)),
            Err(t) => !theme_names().contains(lower(arg@)) && t@ == unknown_theme_text(arg@),
        },
{
    let small: String = to_lower(arg);
    let names: Vec<&'static str> = listed_names();
    let mut i: usize = 0;
    while i < names.len()
        invariant
            i <= names.len(),
            label_views(names@) == theme_names(),
            small@ == lower(arg@),
            forall|k: int| 0 <= k < i ==> #[trigger] theme_names()[k] != small@,
        decreases names.len() - i,
    {
        assert(theme_names()[i as int] == names@[i as int]@);
        if str_eq(names[i], small.as_str()) {
            return Ok(names[i]);
        }
        i = i + 1;
    }
    assert(label_views(names@).len() == names@.len());
    let list: String = valid_names();
    let mut out: String = "Unknown theme: `".to_owned();
    out.append(arg);
    out.append("`. Valid: ");
    out.append(list.as_str());
    out.append(".");
    Err(out)
}

/// The picker starts on the theme in use, and on the first where that is none of them; every theme
/// has its row, with its description and the digit of its place.
pub proof fn law_picker_starts_on_the_theme_in_use(p: ThemePicker, active: Seq<char>, i: int)
    requires
        p.is_start(active),
    ensures
        p.list.items().len() == theme_names().len(),
        0 <= i < theme_names().len() ==> {
            let row = p.list.items()[i];
            &&& row.name@ == theme_names()[i]
            &&& row.description@ == theme_descriptions()[i]
            &&& row.is_active <==> theme_names()[i] == active
            &&& row.hint is Some && row.hint->0 as int == '1' as int + i
        },
        theme_names().contains(active) ==> 0 <= p.list.row() < theme_names().len()
            && theme_names()[p.list.row()] == active,
        !theme_names().contains(active) ==> p.list.row() == 0,
        p.original_name@ == active,
{
    let rows = p.list.items();
    law_first_item_in_use_is_found(rows);
    if theme_names().contains(active) {
        let k = choose|k: int| 0 <= k < theme_names().len() && theme_names()[k] == active;
        assert(rows[k].active());
    } else {
        if first_active(rows) is Some {
            let k = first_active(rows)->0;
            assert(rows[k].is_active);
            assert(theme_names()[k] == active);
        }
    }
}

/// The arrows, and j and k, go to the next row, round the ends; a digit goes to the row that has it
/// and stays where none has; other keys stay.
pub proof fn law_keys_move_over_the_themes(p: ThemePicker, c: char, code: KeyCode, i: int)
    requires
        0 <= p.list.row() < p.list.items().len(),
    ensures
        ({
            let row = p.list.row();
            let rows = p.list.items();
            let last = rows.len() - 1;
            let down = if row == last {
                0
            } else {
                row + 1
            };
            let up = if row == 0 {
                last
            } else {
                row - 1
            };
            &&& p.moved(KeyCode::Down) == down && p.moved(KeyCode::Char('j')) == down
            &&& p.moved(KeyCode::Up) == up && p.moved(KeyCode::Char('k')) == up
            &&& '1' <= c <= '9' && 0 <= i < rows.len() && rows[i].hint == Some(c) && (forall|j: int|
                0 <= j < i ==> (#[trigger] rows[j]).hint != Some(c)) ==> p.moved(KeyCode::Char(c))
                == i
            &&& '1' <= c <= '9' && (forall|j: int|
                0 <= j < rows.len() ==> (#[trigger] rows[j]).hint != Some(c)) ==> p.moved(
                KeyCode::Char(c),
            ) == row
            &&& !('1' <= c <= '9') && c != 'j' && c != 'k' ==> p.moved(KeyCode::Char(c)) == row
            &&& !(code is Char) && !(code is Up) && !(code is Down) ==> p.moved(code) == row
        }),
{
    let rows = p.list.items();
    law_first_item_with_the_key_is_found(rows, c);
    if 0 <= i < rows.len() {
        assert(rows[i].hint() == rows[i].hint);
    }
    if let Some(k) = first_hinted(rows, c) {
        assert(rows[k].hint() == rows[k].hint);
    }
    assert(forall|j: int| 0 <= j < rows.len() ==> (#[trigger] rows[j]).hint() == rows[j].hint);
}

/// A theme under the cursor is shown, and asked for on Enter where it is another than at first.
pub proof fn law_another_theme_is_asked_for(p: ThemePicker)
    requires
        0 <= p.list.row() < p.list.items().len(),
    ensures
        ({
            let name = p.list.items()[p.list.row()].name@;
            &&& p.preview() == ModalKeyView::Preview(
                ModalActionView::User(ActionView::PreviewTheme { name }),
            )
            &&& name != p.original_name@ ==> p.choice() == ModalKeyView::Submitted(
                ModalActionView::User(ActionView::SwapTheme { name }),
            )
            &&& name == p.original_name@ ==> p.choice() == ModalKeyView::Cancelled
        }),
{
}

/// An argument that names no theme is told together with the themes.
pub proof fn law_refused_themes_are_told(arg: Seq<char>)
    ensures
        unknown_theme_text(arg) == "Unknown theme: `"@ + arg + "`. Valid: "@ + join(
            theme_names(),
            ", "@,
        ) + "."@,
        theme_names() =~= seq!["mocha"@, "macchiato"@, "frappe"@, "latte"@, "material"@],
        theme_names().len() == theme_descriptions().len(),
{
}

} // verus!
