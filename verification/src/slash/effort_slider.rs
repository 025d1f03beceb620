//! The effort slider: the levels that the model takes, from speed to intelligence.

use vstd::prelude::*;
use vstd::string::*;

use crate::config::Effort;
use crate::event::{ActionView, UserAction};
use crate::model::Capabilities;
use crate::slash::context::LiveSessionInfo;
use crate::text::{join, push_repeated, repeated};
use crate::tui::modal::{
    submitting, KeyCode, KeyEvent, ModalAction, ModalActionView, ModalKey, ModalKeyView,
};

verus! {

/// The label of the low end.
pub const SPEED_LABEL: &'static str = "Speed";

/// The label of the high end.
pub const INTEL_LABEL: &'static str = "Intelligence";

/// What the track is drawn with.
pub const TRACK_GLYPH: char = '─';

/// How many columns the mark before a level takes.
pub const GLYPH_PREFIX_WIDTH: usize = 2;

/// How many columns stand between two levels.
pub const TIER_GAP: usize = 3;

/// The title of the slider.
pub const TITLE: &'static str = "Select effort";

/// What the keys do.
pub const FOOTER: &'static str = "←/→ to change effort  ·  Enter to confirm  ·  Esc to cancel";

/// How many lines the slider takes: title, blank, ends, track, levels, blank, footer.
pub const BODY_HEIGHT: u16 = 7;

/// The colour of a level.
#[derive(Debug, Clone, Copy, PartialEq, Eq, Structural)]
pub enum TierColor {
    Blue,
    Cyan,
    Green,
    Magenta,
    Red,
}

/// The colour of a level, from cold to hot.
pub open spec fn color_of(level: Effort) -> TierColor {
    match level {
        Effort::Low => TierColor::Blue,
        Effort::Medium => TierColor::Cyan,
        Effort::High => TierColor::Green,
        Effort::Xhigh => TierColor::Magenta,
        Effort::Max => TierColor::Red,
    }
}

/// The colour of a level, from cold to hot.
pub fn tier_color(level: Effort) -> (r: TierColor)
    ensures
        r == color_of(level),
{
    match level {
        Effort::Low => TierColor::Blue,
        Effort::Medium => TierColor::Cyan,
        Effort::High => TierColor::Green,
        Effort::Xhigh => TierColor::Magenta,
        Effort::Max => TierColor::Red,
    }
}

/// The levels that the model takes, with a cursor, and the level that was in use at first.
#[derive(Debug)]
pub struct EffortSlider {
    supported: Vec<Effort>,
    selected: usize,
    initial: Effort,
}

/// The row after a key.
pub open spec fn slid(row: int, len: int, code: KeyCode) -> int {
    match code {
        KeyCode::Right | KeyCode::Char('l') => if row + 1 < len {
            row + 1
        } else {
            row
        },
        KeyCode::Left | KeyCode::Char('h') => if row > 0 {
            row - 1
        } else {
            0
        },
        _ => row,
    }
}

/// How many columns the first `n` levels take, each with its mark.
pub open spec fn tiers_width(tiers: Seq<Effort>, n: nat) -> nat
    decreases n,
{
    if n == 0 {
        0
    } else {
        tiers_width(tiers, (n - 1) as nat) + GLYPH_PREFIX_WIDTH as nat + tiers[n - 1].label().len()
    }
}

/// How many columns the levels take, with the gaps between them.
pub open spec fn total_width(tiers: Seq<Effort>) -> nat {
    if tiers.len() == 0 {
        0
    } else {
        tiers_width(tiers, tiers.len()) + (tiers.len() - 1) as nat * TIER_GAP as nat
    }
}

/// The line that names the two ends.
pub open spec fn ends_text(width: nat) -> Seq<char> {
    SPEED_LABEL@ + repeated(
        ' ',
        if width >= SPEED_LABEL@.len() + INTEL_LABEL@.len() {
            (width - SPEED_LABEL@.len() - INTEL_LABEL@.len()) as nat
        } else {
            0
        },
    ) + INTEL_LABEL@
}

/// A level as it is drawn.
#[derive(Debug, PartialEq, Eq)]
pub struct TierLabel {
    pub text: String,
    pub color: TierColor,
    /// Whether the cursor stands on it.
    pub active: bool,
}

/// A level as it is drawn, by its characters.
pub open spec fn tier_label(level: Effort, active: bool) -> (Seq<char>, TierColor, bool) {
    (
        seq![
            if active {
                '●'
            } else {
                '○'
            },
            ' ',
        ] + level.label(),
        color_of(level),
        active,
    )
}

impl EffortSlider {
    /// The levels.
    pub closed spec fn tiers(&self) -> Seq<Effort> {
        self.supported@
    }

    /// The row that the cursor stands on.
    pub closed spec fn row(&self) -> int {
        self.selected as int
    }

    /// The level that was in use at first.
    pub closed spec fn first(&self) -> Effort {
        self.initial
    }

    /// The cursor stands on a level.
    #[verifier::type_invariant]
    spec fn on_a_tier(&self) -> bool {
        self.selected < self.supported@.len() <= 5
    }

    /// The level under the cursor.
    pub open spec fn current(&self) -> Effort {
        self.tiers()[self.row()]
    }

    /// What the slider answers to a key.
    pub open spec fn answer(&self, code: KeyCode) -> ModalKeyView {
        match code {
            KeyCode::Enter => if self.current() == self.first() {
                ModalKeyView::Cancelled
            } else {
                submitting(ActionView::SwapConfig { model: None, effort: Some(self.current()) })
            },
            _ => ModalKeyView::Consumed,
        }
    }

    /// Whether the slider is as it opens: with the levels of the model of the session, on the one
    /// that the session runs at.
    pub open spec fn is_start(&self, info: LiveSessionInfo) -> bool {
        let caps = info.catalog@.capabilities_of(info.config.model_id@);
        &&& self.tiers() == caps.levels()
        &&& 0 <= self.row() < self.tiers().len()
        &&& Some(self.current()) == caps.resolved(info.config.effort)
        &&& self.first() == self.current()
    }

    /// The slider for the model of the session, on the level that the session runs at; none
    /// where the model takes no effort.
    pub fn new(info: &LiveSessionInfo) -> (r: Option<EffortSlider>)
        ensures
            r is Some <==> info.catalog@.capabilities_of(info.config.model_id@).effort,
            r matches Some(s) ==> s.is_start(*info),
    {
        let caps: Capabilities = info.catalog.capabilities_for(
            info.config.model_id.as_str(),
        );
        let initial: Effort = match caps.resolve_effort(info.config.effort) {
            None => {
                return None;
            },
            Some(e) => e,
        };
        let supported: Vec<Effort> = caps.supported();
        assert(supported@.contains(initial));
        let mut selected: usize = 0;
        while supported[selected] != initial
            invariant
                selected < supported@.len() <= 5,
                forall|k: int| 0 <= k < selected ==> supported@[k] != initial,
                supported@.contains(initial),
            decreases supported.len() - selected,
        {
            selected = selected + 1;
        }
        Some(EffortSlider { supported, selected, initial })
    }

    /// The levels.
    pub fn supported(&self) -> (r: &Vec<Effort>)
        ensures
            r@ == self.tiers(),
    {
        &self.supported
    }

    /// The row that the cursor stands on.
    pub fn selected(&self) -> (r: usize)
        ensures
            r == self.row(),
    {
        self.selected
    }

    /// The level under the cursor.
    pub fn picked(&self) -> (r: Effort)
        ensures
            r == self.current(),
    {
        proof {
            use_type_invariant(self);
        }
        self.supported[self.selected]
    }

    /// The level that was in use at first.
    pub fn initial(&self) -> (r: Effort)
        ensures
            r == self.first(),
    {
        self.initial
    }

    /// Asks for the level under the cursor; for nothing where it was in use at first.
    pub fn submit(&self) -> (r: ModalKey)
        ensures
            r@ == self.answer(KeyCode::Enter),
    {
        let picked: Effort = self.picked();
        if picked == self.initial {
            return ModalKey::Cancelled;
        }
        ModalKey::Submitted(
            ModalAction::User(UserAction::SwapConfig { model: None, effort: Some(picked) }),
        )
    }

    /// Moves the cursor with the arrows or `h` and `l`, not beyond the ends; submits on Enter.
    pub fn handle_key(&mut self, event: &KeyEvent) -> (r: ModalKey)
        ensures
            final(self).tiers() == old(self).tiers(),
            final(self).first() == old(self).first(),
            final(self).row() == slid(old(self).row(), old(self).tiers().len() as int, event.code),
            r@ == old(self).answer(event.code),
    {
        proof {
            use_type_invariant(&*self);
        }
        match event.code {
            KeyCode::Enter => self.submit(),
            KeyCode::Right | KeyCode::Char('l') => {
                if self.selected + 1 < self.supported.len() {
                    self.selected = self.selected + 1;
                }
                ModalKey::Consumed
            },
            KeyCode::Left | KeyCode::Char('h') => {
                if self.selected > 0 {
                    self.selected = self.selected - 1;
                }
                ModalKey::Consumed
            },
            _ => ModalKey::Consumed,
        }
    }

    /// How many columns the levels take, with the gaps between them.
    pub fn slider_width(&self) -> (r: usize)
        ensures
            r == total_width(self.tiers()),
            r <= 52,
    {
        proof {
            use_type_invariant(self);
        }
        let mut total: usize = 0;
        let mut i: usize = 0;
        while i < self.supported.len()
            invariant
                i <= self.supported.len(),
                self.supported@.len() <= 5,
                total == tiers_width(self.supported@, i as nat),
                total <= i * 8,
            decreases self.supported.len() - i,
        {
            let level: Effort = self.supported[i];
            proof {
                lemma_label_len(level);
            }
            total = total + GLYPH_PREFIX_WIDTH + level.name().unicode_len();
            i = i + 1;
        }
        total + (self.supported.len() - 1) * TIER_GAP
    }

    /// The line that names the two ends, as wide as the levels are.
    pub fn line_speed_intel(&self) -> (r: String)
        ensures
            r@ == ends_text(total_width(self.tiers())),
    {
        proof {
            reveal_strlit("Speed");
            reveal_strlit("Intelligence");
        }
        let total: usize = self.slider_width();
        let ends: usize = SPEED_LABEL.unicode_len() + INTEL_LABEL.unicode_len();
        let middle: usize = if total >= ends {
            total - ends
        } else {
            0
        };
        let mut out: String = SPEED_LABEL.to_owned();
        push_repeated(&mut out, ' ', middle);
        out.append(INTEL_LABEL);
        out
    }

    /// The track, as wide as the levels are.
    pub fn line_track(&self) -> (r: String)
        ensures
            r@ == repeated(TRACK_GLYPH, total_width(self.tiers())),
    {
        let total: usize = self.slider_width();
        let mut out: String = String::new();
        push_repeated(&mut out, TRACK_GLYPH, total);
        assert(out@ =~= repeated(TRACK_GLYPH, total as nat));
        out
    }

    /// The levels as they are drawn, the one under the cursor marked.
    pub fn line_tier_labels(&self) -> (r: Vec<TierLabel>)
        ensures
            r@.len() == self.tiers().len(),
            forall|i: int|
                0 <= i < r@.len() ==> ((#[trigger] r@[i]).text@, r@[i].color, r@[i].active)
                    == tier_label(self.tiers()[i], i == self.row()),
    {
        let mut out: Vec<TierLabel> = Vec::new();
        let mut i: usize = 0;
        while i < self.supported.len()
            invariant
                i <= self.supported.len(),
                out@.len() == i,
                forall|k: int|
                    0 <= k < i ==> ((#[trigger] out@[k]).text@, out@[k].color, out@[k].active)
                        == tier_label(self.tiers()[k], k == self.row()),
            decreases self.supported.len() - i,
        {
            let level: Effort = self.supported[i];
            let active: bool = i == self.selected;
            let mut text: String = String::new();
            if active {
                text.push('●');
            } else {
                text.push('○');
            }
            text.push(' ');
            text.append(level.name());
            assert(text@ =~= tier_label(level, active).0);
            out.push(TierLabel { text, color: tier_color(level), active });
            i = i + 1;
        }
        out
    }
}

proof fn lemma_label_len(level: Effort)
    ensures
        0 < level.label().len() <= 6,
{
    reveal_strlit("low");
    reveal_strlit("medium");
    reveal_strlit("high");
    reveal_strlit("xhigh");
    reveal_strlit("max");
}

/// The line of the two ends and the track are as wide as the levels, wherever the ends fit.
pub proof fn law_slider_lines_align(tiers: Seq<Effort>)
    requires
        total_width(tiers) >= SPEED_LABEL@.len() + INTEL_LABEL@.len(),
    ensures
        ends_text(total_width(tiers)).len() == total_width(tiers),
        repeated(TRACK_GLYPH, total_width(tiers)).len() == total_width(tiers),
{
}

/// Right and l go to the next level, left and h to the one before, and neither beyond the ends;
/// other keys stay.
pub proof fn law_keys_slide_to_the_next_level(row: int, len: int, code: KeyCode)
    requires
        0 <= row < len,
    ensures
        ({
            let up = code == KeyCode::Right || code == KeyCode::Char('l');
            let down = code == KeyCode::Left || code == KeyCode::Char('h');
            &&& up && row < len - 1 ==> slid(row, len, code) == row + 1
            &&& up && row == len - 1 ==> slid(row, len, code) == row
            &&& down && row > 0 ==> slid(row, len, code) == row - 1
            &&& down && row == 0 ==> slid(row, len, code) == 0
            &&& !up && !down ==> slid(row, len, code) == row
        }),
{
}

/// Enter asks for the level under the cursor where it is another than at first, and for no model;
/// where it is the same, nothing is asked for. Other keys ask for nothing and keep the slider open.
pub proof fn law_enter_asks_for_another_level(s: EffortSlider, code: KeyCode)
    ensures
        s.tiers()[s.row()] == s.first() ==> s.answer(KeyCode::Enter) == ModalKeyView::Cancelled,
        s.tiers()[s.row()] != s.first() ==> s.answer(KeyCode::Enter) == ModalKeyView::Submitted(
            ModalActionView::User(
                ActionView::SwapConfig { model: None, effort: Some(s.tiers()[s.row()]) },
            ),
        ),
        code != KeyCode::Enter ==> s.answer(code) == ModalKeyView::Consumed,
{
}

/// The slider starts on the level that the model resolves the pick to, among those that it takes.
pub proof fn law_slider_starts_on_the_level_in_use(s: EffortSlider, info: LiveSessionInfo)
    requires
        s.is_start(info),
    ensures
        ({
            let caps = info.catalog@.capabilities_of(info.config.model_id@);
            &&& s.tiers() == caps.levels()
            &&& 0 <= s.row() < s.tiers().len()
            &&& caps.resolved(info.config.effort) == Some(s.tiers()[s.row()])
            &&& s.first() == s.tiers()[s.row()]
            &&& s.answer(KeyCode::Enter) == ModalKeyView::Cancelled
        }),
{
}

/// The labels of the levels, as they stand where the cursor is on none of them.
pub open spec fn tier_texts(tiers: Seq<Effort>) -> Seq<Seq<char>> {
    tiers.map_values(|e: Effort| tier_label(e, false).0)
}

proof fn lemma_tiers_width(tiers: Seq<Effort>, n: nat)
    requires
        0 < n <= tiers.len(),
    ensures
        join(tier_texts(tiers).take(n as int), repeated(' ', 3)).len() == tiers_width(tiers, n) + (n
            - 1) * 3,
    decreases n,
{
    let texts = tier_texts(tiers);
    let part = texts.take(n as int);
    assert(texts[n - 1].len() == 2 + tiers[n - 1].label().len());
    if n == 1 {
        assert(part[0] == texts[0]);
        assert(tiers_width(tiers, 0) == 0);
        assert(tiers_width(tiers, 1) == 2 + tiers[0].label().len());
    } else {
        lemma_tiers_width(tiers, (n - 1) as nat);
        assert(part.drop_last() =~= texts.take(n - 1));
        assert(part.last() == texts[n - 1]);
    }
}

/// The slider is as wide as its labels with three spaces between them.
pub proof fn law_slider_is_as_wide_as_its_labels(tiers: Seq<Effort>)
    ensures
        total_width(tiers) == join(tier_texts(tiers), repeated(' ', 3)).len(),
{
    if tiers.len() > 0 {
        lemma_tiers_width(tiers, tiers.len());
        assert(tier_texts(tiers).take(tiers.len() as int) =~= tier_texts(tiers));
    }
}

/// A label is a mark, filled where the cursor is on it, and the name of the level, in the colour of
/// the level; the line above the slider has a word at each end and spaces between.
pub proof fn law_labels_and_ends(level: Effort, width: nat)
    ensures
        tier_label(level, true).0 == "● "@ + level.label(),
        tier_label(level, false).0 == "○ "@ + level.label(),
        tier_label(level, true).1 == color_of(level) && tier_label(level, true).2,
        tier_label(level, false).1 == color_of(level) && !tier_label(level, false).2,
        width >= 17 ==> ends_text(width) == "Speed"@ + repeated(' ', (width - 17) as nat)
            + "Intelligence"@,
        width < 17 ==> ends_text(width) == "SpeedIntelligence"@,
{
    reveal_strlit("● ");
    reveal_strlit("○ ");
    reveal_strlit("Speed");
    reveal_strlit("Intelligence");
    reveal_strlit("SpeedIntelligence");
    assert(seq!['●', ' '] =~= "● "@);
    assert(seq!['○', ' '] =~= "○ "@);
    if width < 17 {
        assert(ends_text(width) =~= "SpeedIntelligence"@);
    }
}

/// The colours of the levels differ.
pub proof fn law_levels_differ_in_colour(a: Effort, b: Effort)
    ensures
        color_of(a) == color_of(b) ==> a == b,
{
}

} // verus!
