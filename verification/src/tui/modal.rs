//! Overlays: the keys that they get, what they answer, and the places that they are drawn in.

use vstd::prelude::*;
use vstd::string::*;

use crate::event::{ActionView, UserAction};

verus! {

// ── Keys ──

/// A key.
#[derive(Debug, Clone, Copy, PartialEq, Eq, Structural)]
pub enum KeyCode {
    Enter,
    Esc,
    Up,
    Down,
    Left,
    Right,
    PageUp,
    PageDown,
    Tab,
    Backspace,
    Delete,
    Insert,
    Char(char),
    /// Any key that no overlay knows.
    Other,
}

/// A key press.
#[derive(Debug, Clone, Copy, PartialEq, Eq, Structural)]
pub struct KeyEvent {
    pub code: KeyCode,
    /// Whether the control key was held.
    pub control: bool,
}

impl KeyEvent {
    /// The key without the control key.
    pub fn plain(code: KeyCode) -> (r: KeyEvent)
        ensures
            r.code == code,
            !r.control,
    {
        KeyEvent { code, control: false }
    }

    /// The key with the control key.
    pub fn with_control(code: KeyCode) -> (r: KeyEvent)
        ensures
            r.code == code,
            r.control,
    {
        KeyEvent { code, control: true }
    }
}

// ── Answers ──

/// What an overlay asks for.
#[derive(Debug, PartialEq, Eq)]
pub enum ModalAction {
    User(UserAction),
    /// A line to show in the conversation.
    SystemMessage(String),
}

/// What an overlay asks for, by its characters.
#[verifier::ext_equal]
pub ghost enum ModalActionView {
    User(ActionView),
    SystemMessage(Seq<char>),
}

impl View for ModalAction {
    type V = ModalActionView;

    open spec fn view(&self) -> ModalActionView {
        match self {
            ModalAction::User(a) => ModalActionView::User(a@),
            ModalAction::SystemMessage(s) => ModalActionView::SystemMessage(s@),
        }
    }
}

/// What an overlay answers to a key.
#[derive(Debug, PartialEq, Eq)]
pub enum ModalKey {
    /// Stays open.
    Consumed,
    /// Closes, asking for nothing.
    Cancelled,
    /// Stays open and asks for something to be shown.
    Preview(ModalAction),
    /// Closes and asks for something.
    Submitted(ModalAction),
}

/// An answer by its characters.
#[verifier::ext_equal]
pub ghost enum ModalKeyView {
    Consumed,
    Cancelled,
    Preview(ModalActionView),
    Submitted(ModalActionView),
}

impl View for ModalKey {
    type V = ModalKeyView;

    open spec fn view(&self) -> ModalKeyView {
        match self {
            ModalKey::Consumed => ModalKeyView::Consumed,
            ModalKey::Cancelled => ModalKeyView::Cancelled,
            ModalKey::Preview(a) => ModalKeyView::Preview(a@),
            ModalKey::Submitted(a) => ModalKeyView::Submitted(a@),
        }
    }
}

/// The answer that closes and asks for `action`.
pub open spec fn submitting(action: ActionView) -> ModalKeyView {
    ModalKeyView::Submitted(ModalActionView::User(action))
}

/// The answer that stays open and asks for `action`.
pub open spec fn previewing(action: ActionView) -> ModalKeyView {
    ModalKeyView::Preview(ModalActionView::User(action))
}

// ── Places ──

/// A rectangle of cells.
#[derive(Debug, Clone, Copy, PartialEq, Eq, Structural)]
pub struct Area {
    pub x: u16,
    pub y: u16,
    pub width: u16,
    pub height: u16,
}

/// `n`, or the largest number of its width where it is larger.
pub open spec fn capped(n: int) -> u16 {
    if n > u16::MAX {
        u16::MAX
    } else {
        n as u16
    }
}

/// `a + b`, or the largest number where it is larger.
pub fn sum(a: u16, b: u16) -> (r: u16)
    ensures
        r == capped(a + b),
{
    if b > u16::MAX - a {
        u16::MAX
    } else {
        a + b
    }
}

/// `a - b`, or zero where it is less.
pub fn left_over(a: u16, b: u16) -> (r: u16)
    ensures
        r == if a >= b {
            a - b
        } else {
            0
        },
{
    if a >= b {
        a - b
    } else {
        0
    }
}

/// How a line is drawn.
#[derive(Debug, Clone, Copy, PartialEq, Eq, Structural)]
pub enum Tone {
    /// In the accent colour and bold.
    Heading,
    Accent,
    Text,
    Dim,
    Error,
}

/// A line and how it is drawn.
#[derive(Debug, PartialEq, Eq)]
pub struct StyledLine {
    pub text: String,
    pub tone: Tone,
}

impl View for StyledLine {
    type V = (Seq<char>, Tone);

    open spec fn view(&self) -> (Seq<char>, Tone) {
        (self.text@, self.tone)
    }
}

/// What each line is.
pub open spec fn line_views(v: Seq<StyledLine>) -> Seq<(Seq<char>, Tone)> {
    v.map_values(|l: StyledLine| l@)
}

/// The list of an overlay at the top of its place, as high as it is or as there is room.
pub open spec fn list_place(area: Area, list_height: u16) -> Area {
    Area {
        height: if list_height <= area.height {
            list_height
        } else {
            area.height
        },
        ..area
    }
}

/// The list of an overlay at the top of its place, as high as it is or as there is room.
pub fn list_area(area: Area, list_height: u16) -> (r: Area)
    ensures
        r == list_place(area, list_height),
{
    let height: u16 = if list_height <= area.height {
        list_height
    } else {
        area.height
    };
    Area { x: area.x, y: area.y, width: area.width, height }
}

/// A line below what ends at row `y` with `room` rows below it: one row apart, where there is
/// room for both.
pub open spec fn footer_place(area: Area, y: u16, room: u16) -> Option<Area> {
    if room >= 2 {
        Some(Area { x: area.x, y: capped(y + 1), width: area.width, height: 1 })
    } else {
        None
    }
}

/// A line below what ends at row `y` with `room` rows below it: one row apart, where there is
/// room for both.
pub fn footer_area(area: Area, y: u16, room: u16) -> (r: Option<Area>)
    ensures
        r == footer_place(area, y, room),
{
    if room >= 2 {
        Some(Area { x: area.x, y: sum(y, 1), width: area.width, height: 1 })
    } else {
        None
    }
}

/// Where an overlay of a list and a footer is drawn.
#[derive(Debug, Clone, Copy, PartialEq, Eq, Structural)]
pub struct ListLayout {
    pub list: Area,
    /// `None` where there is no room for it.
    pub footer: Option<Area>,
}

/// Where an overlay of a list and a footer is drawn.
pub open spec fn list_places(area: Area, list_height: u16) -> ListLayout {
    ListLayout {
        list: list_place(area, list_height),
        footer: footer_place(
            area,
            capped(area.y + list_height),
            if area.height >= list_height {
                (area.height - list_height) as u16
            } else {
                0
            },
        ),
    }
}

/// Where an overlay of a list and a footer is drawn.
pub fn list_layout(area: Area, list_height: u16) -> (r: ListLayout)
    ensures
        r == list_places(area, list_height),
{
    ListLayout {
        list: list_area(area, list_height),
        footer: footer_area(area, sum(area.y, list_height), left_over(area.height, list_height)),
    }
}

/// A list with a footer stays inside its place, and the two do not overlap.
pub proof fn law_list_layout_stays_inside(area: Area, list_height: u16)
    requires
        area.y + area.height <= u16::MAX,
    ensures
        list_places(area, list_height).list.y == area.y,
        list_places(area, list_height).list.height <= area.height,
        list_places(area, list_height).footer matches Some(f) ==> {
            &&& f.y >= area.y + list_places(area, list_height).list.height
            &&& f.y + f.height <= area.y + area.height
        },
{
}

/// The list stands at the top, as high as it is or as there is room. The footer is one line under
/// it, with a line between them, exactly where there is room for both lines.
pub proof fn law_footer_stands_under_the_list(area: Area, list_height: u16)
    requires
        area.y + area.height <= u16::MAX,
    ensures
        ({
            let places = list_places(area, list_height);
            &&& places.list.x == area.x && places.list.y == area.y && places.list.width
                == area.width
            &&& list_height <= area.height ==> places.list.height == list_height
            &&& list_height > area.height ==> places.list.height == area.height
            &&& places.footer is Some <==> list_height + 2 <= area.height
            &&& places.footer matches Some(f) ==> f.x == area.x && f.width == area.width && f.height
                == 1 && f.y == area.y + list_height + 1
        }),
{
}

} // verus!
