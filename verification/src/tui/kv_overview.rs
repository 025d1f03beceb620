//! An overlay that shows names with their values, in sections.

use vstd::prelude::*;
use vstd::string::*;

use crate::tui::modal::{capped, KeyCode, KeyEvent, ModalKey, ModalKeyView};

verus! {

/// Rows of names and values, with or without a heading.
#[derive(Debug)]
pub struct KvSection {
    pub heading: Option<&'static str>,
    pub rows: Vec<(String, String)>,
}

/// Sections under a title.
#[derive(Debug)]
pub struct KvOverview {
    pub title: &'static str,
    pub sections: Vec<KvSection>,
}

/// A section by its characters.
#[verifier::ext_equal]
pub ghost struct SectionView {
    pub heading: Option<Seq<char>>,
    pub rows: Seq<(Seq<char>, Seq<char>)>,
}

/// Names and values by their characters.
pub open spec fn pair_views(v: Seq<(String, String)>) -> Seq<(Seq<char>, Seq<char>)> {
    v.map_values(|p: (String, String)| (p.0@, p.1@))
}

impl View for KvSection {
    type V = SectionView;

    open spec fn view(&self) -> SectionView {
        SectionView {
            heading: match self.heading {
                Some(h) => Some(h@),
                None => None,
            },
            rows: pair_views(self.rows@),
        }
    }
}

/// An overview by its characters.
#[verifier::ext_equal]
pub ghost struct OverviewView {
    pub title: Seq<char>,
    pub sections: Seq<SectionView>,
}

impl View for KvOverview {
    type V = OverviewView;

    open spec fn view(&self) -> OverviewView {
        OverviewView {
            title: self.title@,
            sections: self.sections@.map_values(|s: KvSection| s@),
        }
    }
}

/// How many lines a section takes: a line for each row, and two for a heading.
pub open spec fn section_height(s: SectionView) -> int {
    s.rows.len() + if s.heading is Some {
        2int
    } else {
        0int
    }
}

/// How many lines the sections take, with a blank line between them.
pub open spec fn body_height(sections: Seq<SectionView>) -> int
    decreases sections.len(),
{
    if sections.len() == 0 {
        0
    } else {
        body_height(sections.drop_last()) + section_height(sections.last()) + if sections.len() > 1 {
            1int
        } else {
            0int
        }
    }
}

/// What an overview answers to a key: it closes on Enter and Esc.
pub open spec fn closing_answer(code: KeyCode) -> ModalKeyView {
    match code {
        KeyCode::Enter => ModalKeyView::Cancelled,
        KeyCode::Esc => ModalKeyView::Cancelled,
        _ => ModalKeyView::Consumed,
    }
}

/// What an overview answers to a key: it closes on Enter and Esc.
pub fn closing_key(event: &KeyEvent) -> (r: ModalKey)
    ensures
        r@ == closing_answer(event.code),
{
    match event.code {
        KeyCode::Enter => ModalKey::Cancelled,
        KeyCode::Esc => ModalKey::Cancelled,
        _ => ModalKey::Consumed,
    }
}

/// `a + b`, or the largest number of terminal rows where it is larger.
fn rows_capped(a: u16, b: usize) -> (r: u16)
    ensures
        r == capped(a + b),
{
    if b > (u16::MAX - a) as usize {
        u16::MAX
    } else {
        a + b as u16
    }
}

impl KvOverview {
    /// Sections under a title.
    pub fn new(title: &'static str, sections: Vec<KvSection>) -> (r: KvOverview)
        ensures
            r@.title == title@,
            r@.sections == sections@.map_values(|s: KvSection| s@),
    {
        KvOverview { title, sections }
    }

    /// How many lines the overview takes: a title and a footer, each a blank line apart, and
    /// the sections.
    pub fn height(&self) -> (r: u16)
        ensures
            r == capped(4 + body_height(self@.sections)),
    {
        let ghost all = self@.sections;
        let mut total: u16 = 4;
        let mut i: usize = 0;
        assert(all.take(0) =~= seq![]);
        while i < self.sections.len()
            invariant
                i <= self.sections.len(),
                all == self@.sections,
                total == capped(4 + body_height(all.take(i as int))),
                body_height(all.take(i as int)) >= 0,
            decreases self.sections.len() - i,
        {
            let section: &KvSection = &self.sections[i];
            assert(all.take(i as int + 1).drop_last() =~= all.take(i as int));
            assert(all.take(i as int + 1).last() == section@);
            total = rows_capped(total, section.rows.len());
            if section.heading.is_some() {
                total = rows_capped(total, 2);
            }
            if i > 0 {
                total = rows_capped(total, 1);
            }
            i = i + 1;
        }
        assert(all.take(all.len() as int) =~= all);
        total
    }

    /// Closes on Enter and Esc; stays open on every other key.
    pub fn handle_key(&self, event: &KeyEvent) -> (r: ModalKey)
        ensures
            r@ == closing_answer(event.code),
    {
        closing_key(event)
    }
}

/// A section takes a line for each row, and two more where it has a heading; sections stand with a
/// line between them.
pub proof fn law_sections_take_their_lines(sections: Seq<SectionView>, s: SectionView)
    ensures
        body_height(Seq::empty()) == 0,
        body_height(seq![s]) == section_height(s),
        sections.len() > 0 ==> body_height(sections.push(s)) == body_height(sections) + 1
            + section_height(s),
        s.heading is None ==> section_height(s) == s.rows.len(),
        s.heading is Some ==> section_height(s) == s.rows.len() + 2,
{
    assert(sections.push(s).drop_last() =~= sections);
    assert(seq![s].drop_last() =~= Seq::empty());
    assert(body_height(seq![s].drop_last()) == 0);
}

/// An overview closes on Enter and on Esc, and on no other key.
pub proof fn law_enter_and_esc_close(code: KeyCode)
    ensures
        code == KeyCode::Enter || code == KeyCode::Esc ==> closing_answer(code)
            == ModalKeyView::Cancelled,
        code != KeyCode::Enter && code != KeyCode::Esc ==> closing_answer(code)
            == ModalKeyView::Consumed,
{
}

} // verus!
