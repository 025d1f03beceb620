//! `/rename`: a field for the title of the session.

use vstd::prelude::*;
use vstd::string::*;

use crate::event::{ActionView, UserAction};
use crate::session::state::opt_str_view;
use crate::text::{owned, trim, trim_of};
use crate::tui::modal::{
    capped, left_over, submitting, sum, Area, KeyCode, KeyEvent, ModalAction, ModalActionView,
    ModalKey, ModalKeyView,
};
use crate::width::{str_width, truncate_to_width, truncated_to_width, width_of};

verus! {

/// The title of the field.
pub const MODAL_TITLE: &'static str = "Rename session";

/// What stands before the text.
pub const PROMPT: &'static str = "/ ";

/// How many columns the prompt takes.
pub const PROMPT_WIDTH: u16 = 2;

/// What the keys do.
pub const FOOTER_HINT: &'static str = "Enter to save · Esc to cancel";

/// How many lines the field takes: title, blank, input, blank, footer.
pub const HEIGHT: u16 = 5;

/// The row of the input.
pub const INPUT_ROW: u16 = 2;

/// How many characters a title can have.
pub const MAX_TITLE_CHARS: usize = 80;

/// The field and what was typed into it.
#[derive(Debug)]
pub struct RenameModal {
    buffer: String,
}

/// What is in the field after a key.
pub open spec fn edited(text: Seq<char>, code: KeyCode) -> Seq<char> {
    match code {
        KeyCode::Backspace => if text.len() == 0 {
            text
        } else {
            text.drop_last()
        },
        KeyCode::Char(c) => if text.len() < MAX_TITLE_CHARS {
            text.push(c)
        } else {
            text
        },
        _ => text,
    }
}

/// What is answered where the text is chosen: nothing while it is blank.
pub open spec fn rename_answer(text: Seq<char>) -> ModalKeyView {
    if trim_of(text).len() == 0 {
        ModalKeyView::Consumed
    } else {
        submitting(ActionView::Rename { title: trim_of(text) })
    }
}

/// The first characters of a title, as many as it can have.
pub open spec fn first_chars(title: Seq<char>) -> Seq<char> {
    if title.len() <= MAX_TITLE_CHARS {
        title
    } else {
        title.take(MAX_TITLE_CHARS as int)
    }
}

/// What is in the field at first: the present title, where there is one.
pub open spec fn starting_text(title: Option<Seq<char>>) -> Seq<char> {
    match title {
        Some(t) => first_chars(t),
        None => Seq::empty(),
    }
}

impl RenameModal {
    /// What is in the field.
    pub closed spec fn text(&self) -> Seq<char> {
        self.buffer@
    }

    /// No title is too long.
    #[verifier::type_invariant]
    spec fn is_bounded(&self) -> bool {
        self.buffer@.len() <= MAX_TITLE_CHARS
    }

    /// The field with the present title in it.
    pub fn new(initial: Option<&str>) -> (r: RenameModal)
        ensures
            r.text() == starting_text(opt_str_view(initial)),
    {
        match initial {
            None => RenameModal { buffer: String::new() },
            Some(t) => {
                let n: usize = t.unicode_len();
                if n <= MAX_TITLE_CHARS {
                    RenameModal { buffer: owned(t) }
                } else {
                    let front: &str = t.substring_char(0, MAX_TITLE_CHARS);
                    assert(front@ =~= first_chars(t@));
                    RenameModal { buffer: owned(front) }
                }
            },
        }
    }

    /// What is in the field.
    pub fn buffer(&self) -> (r: &str)
        ensures
            r@ == self.text(),
            r@.len() <= MAX_TITLE_CHARS,
    {
        proof {
            use_type_invariant(self);
        }
        self.buffer.as_str()
    }

    /// Asks for the trimmed text as the title; stays open while it is blank.
    pub fn submit(&self) -> (r: ModalKey)
        ensures
            r@ == rename_answer(self.text()),
    {
        let title: &str = trim(self.buffer.as_str());
        if title.is_empty() {
            return ModalKey::Consumed;
        }
        ModalKey::Submitted(ModalAction::User(UserAction::Rename { title: owned(title) }))
    }

    /// Types, takes back, or chooses.
    pub fn handle_key(&mut self, event: &KeyEvent) -> (r: ModalKey)
        ensures
            final(self).text() == edited(old(self).text(), event.code),
            r@ == match event.code {
                KeyCode::Enter => rename_answer(old(self).text()),
                _ => ModalKeyView::Consumed,
            },
    {
        proof {
            use_type_invariant(&*self);
        }
        match event.code {
            KeyCode::Enter => self.submit(),
            KeyCode::Backspace => {
                let n: usize = self.buffer.as_str().unicode_len();
                if n > 0 {
                    let front: &str = self.buffer.as_str().substring_char(0, n - 1);
                    assert(front@ =~= self.buffer@.drop_last());
                    let kept: String = owned(front);
                    self.buffer = kept;
                }
                ModalKey::Consumed
            },
            KeyCode::Char(c) => {
                if self.buffer.as_str().unicode_len() < MAX_TITLE_CHARS {
                    let mut longer: String = owned(self.buffer.as_str());
                    longer.push(c);
                    self.buffer = longer;
                }
                ModalKey::Consumed
            },
            _ => ModalKey::Consumed,
        }
    }

    /// The text as it fits behind the prompt, with room for the cursor.
    pub fn input_row(&self, width: u16) -> (r: String)
        ensures
            r@ == truncated_to_width(
                self.text(),
                if width >= 3 {
                    (width - 3) as nat
                } else {
                    0
                },
            ),
    {
        truncate_to_width(self.buffer.as_str(), left_over(width, PROMPT_WIDTH + 1) as usize)
    }

    /// Where the cursor would stand behind the text, before it is kept inside the area; nowhere
    /// where the area does not reach down to the input.
    pub fn place_cursor(&self, area: Area) -> (r: Option<(u16, u16)>)
        ensures
            r == if area.height <= INPUT_ROW {
                None
            } else {
                Some(
                    (
                        capped(
                            capped(area.x + PROMPT_WIDTH) + capped(str_width(self.text()) as int),
                        ),
                        capped(area.y + INPUT_ROW),
                    ),
                )
            },
    {
        if INPUT_ROW >= area.height {
            return None;
        }
        let w: usize = width_of(self.buffer.as_str());
        let columns: u16 = if w > u16::MAX as usize {
            u16::MAX
        } else {
            w as u16
        };
        Some((sum(sum(area.x, PROMPT_WIDTH), columns), sum(area.y, INPUT_ROW)))
    }
}

/// No key makes the text longer than a title can be, and trimming it does not either.
pub proof fn law_titles_fit(text: Seq<char>)
    requires
        text.len() <= MAX_TITLE_CHARS,
    ensures
        trim_of(text).len() <= MAX_TITLE_CHARS,
        forall|code: KeyCode| #[trigger] edited(text, code).len() <= MAX_TITLE_CHARS,
{
    lemma_trim_len(text);
}

proof fn lemma_trim_len(s: Seq<char>)
    ensures
        trim_of(s).len() <= s.len(),
{
    lemma_trim_start_len(s);
    lemma_trim_end_len(s);
    lemma_trim_start_len(crate::text::trim_end_of(s));
    lemma_trim_end_len(crate::text::trim_start_of(s));
}

proof fn lemma_trim_start_len(s: Seq<char>)
    ensures
        crate::text::trim_start_of(s).len() <= s.len(),
    decreases s.len(),
{
    if s.len() > 0 {
        lemma_trim_start_len(s.drop_first());
        lemma_trim_start_len(s.skip(1));
    }
}

proof fn lemma_trim_end_len(s: Seq<char>)
    ensures
        crate::text::trim_end_of(s).len() <= s.len(),
    decreases s.len(),
{
    if s.len() > 0 {
        lemma_trim_end_len(s.drop_last());
    }
}

/// A character is added at the end as long as the title has fewer than eighty, Backspace takes the
/// last one back, and other keys change nothing.
pub proof fn law_typing_edits_the_title(text: Seq<char>, c: char, code: KeyCode)
    ensures
        text.len() < 80 ==> edited(text, KeyCode::Char(c)) == text + seq![c] && edited(
            edited(text, KeyCode::Char(c)),
            KeyCode::Backspace,
        ) == text,
        text.len() >= 80 ==> edited(text, KeyCode::Char(c)) == text,
        text.len() > 0 ==> edited(text, KeyCode::Backspace) + seq![text.last()] == text,
        text.len() == 0 ==> edited(text, KeyCode::Backspace) == text,
        !(code is Char) && !(code is Backspace) ==> edited(text, code) == text,
{
    assert(text.push(c) =~= text + seq![c]);
    assert(text.push(c).drop_last() =~= text);
    if text.len() > 0 {
        assert(text.drop_last() + seq![text.last()] =~= text);
    }
}

/// A title that is not blank is asked for without the white space around it; a blank one is not
/// asked for.
pub proof fn law_blank_titles_are_not_asked_for(text: Seq<char>)
    ensures
        rename_answer(text) == ModalKeyView::Consumed <==> trim_of(text).len() == 0,
        trim_of(text).len() > 0 ==> rename_answer(text) == ModalKeyView::Submitted(
            ModalActionView::User(ActionView::Rename { title: trim_of(text) }),
        ),
{
}

/// The title that is there is what editing starts with, up to its first eighty characters.
pub proof fn law_editing_starts_with_the_title(title: Seq<char>)
    ensures
        title.len() <= 80 ==> starting_text(Some(title)) == title,
        title.len() > 80 ==> starting_text(Some(title)) == title.take(80),
        starting_text(None).len() == 0,
{
}

} // verus!
