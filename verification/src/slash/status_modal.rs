//! A panel of what is known of the session.

use vstd::prelude::*;
use vstd::string::*;

use crate::config::{display_bool, display_effort, effort_text, switch_text};
use crate::slash::context::LiveSessionInfo;
use crate::text::{law_padding_adds_spaces, owned, padded, push_padded};
use crate::tui::kv_overview::{closing_answer, closing_key};
use crate::tui::modal::{capped, KeyEvent, ModalKey};

verus! {

/// The title of the panel.
pub const TITLE: &'static str = "Status";

/// What the keys do.
pub const FOOTER: &'static str = "Esc to close";

/// How many columns stand between a name and its value.
pub const COLUMN_GAP: usize = 2;

/// Names with their values.
#[derive(Debug)]
pub struct StatusModal {
    pub rows: Vec<(&'static str, String)>,
}

/// The rows by their characters.
pub open spec fn named_values(v: Seq<(&'static str, String)>) -> Seq<(Seq<char>, Seq<char>)> {
    v.map_values(|p: (&'static str, String)| (p.0@, p.1@))
}

/// The rows of the panel.
pub open spec fn panel_rows(info: LiveSessionInfo) -> Seq<(Seq<char>, Seq<char>)> {
    seq![
        (
            "Model"@,
            info.catalog@.marketing_name(info.config.model_id@) + " ("@ + info.config.model_id@ + ")"@,
        ),
        ("Effort"@, effort_text(info.config.effort)),
        ("Working Directory"@, info.cwd@),
        ("Session"@, info.session_id@),
        ("Auth"@, info.config.auth_label@),
        ("Version"@, info.version@),
        ("Context Cache"@, info.config.prompt_cache_ttl.label()),
        ("Show Thinking"@, switch_text(info.config.show_thinking)),
    ]
}

/// The length of the longest name.
pub open spec fn longest_name(rows: Seq<(Seq<char>, Seq<char>)>) -> nat
    decreases rows.len(),
{
    if rows.len() == 0 {
        0
    } else {
        let before = longest_name(rows.drop_last());
        if rows.last().0.len() > before {
            rows.last().0.len()
        } else {
            before
        }
    }
}

/// The names, each as long as the longest.
pub open spec fn padded_names(rows: Seq<(Seq<char>, Seq<char>)>) -> Seq<Seq<char>> {
    rows.map_values(|row: (Seq<char>, Seq<char>)| padded(row.0, longest_name(rows)))
}

impl StatusModal {
    /// The panel of a session.
    pub fn new(info: &LiveSessionInfo) -> (r: StatusModal)
        ensures
            named_values(r.rows@) == panel_rows(*info),
    {
        let mut model: String = info.marketing_name();
        model.append(" (");
        model.append(info.config.model_id.as_str());
        model.append(")");
        let rows: Vec<(&'static str, String)> = vec![
            ("Model", model),
            ("Effort", display_effort(info.config.effort)),
            ("Working Directory", owned(info.cwd.as_str())),
            ("Session", owned(info.session_id.as_str())),
            ("Auth", owned(info.config.auth_label)),
            ("Version", owned(info.version)),
            ("Context Cache", owned(info.config.prompt_cache_ttl.name())),
            ("Show Thinking", owned(display_bool(info.config.show_thinking))),
        ];
        assert(named_values(rows@) =~= panel_rows(*info));
        StatusModal { rows }
    }

    /// How many lines the panel takes: a title and a footer, each a blank line apart, and the
    /// rows.
    pub fn height(&self) -> (r: u16)
        ensures
            r == capped(self.rows@.len() as int + 4),
    {
        let n: usize = self.rows.len();
        if n > (u16::MAX - 4) as usize {
            u16::MAX
        } else {
            n as u16 + 4
        }
    }

    /// The length of the longest name.
    fn label_width(&self) -> (r: usize)
        ensures
            r == longest_name(named_values(self.rows@)),
    {
        let ghost all = named_values(self.rows@);
        let mut longest: usize = 0;
        let mut i: usize = 0;
        assert(all.take(0) =~= seq![]);
        while i < self.rows.len()
            invariant
                i <= self.rows.len(),
                all == named_values(self.rows@),
                longest == longest_name(all.take(i as int)),
            decreases self.rows.len() - i,
        {
            assert(all.take(i as int + 1).drop_last() =~= all.take(i as int));
            assert(all.take(i as int + 1).last().0 == self.rows@[i as int].0@);
            let n: usize = self.rows[i].0.unicode_len();
            if n > longest {
                longest = n;
            }
            i = i + 1;
        }
        assert(all.take(all.len() as int) =~= all);
        longest
    }

    /// The names as they are drawn, each as long as the longest.
    pub fn labels(&self) -> (r: Vec<String>)
        ensures
            crate::text::views(r@) == padded_names(named_values(self.rows@)),
    {
        let ghost all = named_values(self.rows@);
        let width: usize = self.label_width();
        let mut out: Vec<String> = Vec::new();
        let mut i: usize = 0;
        while i < self.rows.len()
            invariant
                i <= self.rows.len(),
                all == named_values(self.rows@),
                width == longest_name(all),
                crate::text::views(out@) =~= padded_names(all).take(i as int),
            decreases self.rows.len() - i,
        {
            let mut label: String = String::new();
            push_padded(&mut label, self.rows[i].0, width);
            assert(label@ =~= padded(self.rows@[i as int].0@, width as nat));
            assert(padded_names(all)[i as int] == label@);
            let ghost before = out@;
            out.push(label);
            assert(crate::text::views(out@) =~= crate::text::views(before).push(label@));
            i = i + 1;
        }
        assert(padded_names(all).take(all.len() as int) =~= padded_names(all));
        out
    }

    /// Closes on Enter and Esc; stays open on every other key.
    pub fn handle_key(&self, event: &KeyEvent) -> (r: ModalKey)
        ensures
            r@ == closing_answer(event.code),
    {
        closing_key(event)
    }
}

/// The panel tells the model by its marketing name and identifier, and how the session stands.
pub proof fn law_panel_tells_how_the_session_stands(info: LiveSessionInfo)
    ensures
        panel_rows(info) =~= seq![
            (
                "Model"@,
                info.catalog@.marketing_name(info.config.model_id@) + " ("@ + info.config.model_id@
                    + ")"@,
            ),
            ("Effort"@, effort_text(info.config.effort)),
            ("Working Directory"@, info.cwd@),
            ("Session"@, info.session_id@),
            ("Auth"@, info.config.auth_label@),
            ("Version"@, info.version@),
            ("Context Cache"@, info.config.prompt_cache_ttl.label()),
            ("Show Thinking"@, switch_text(info.config.show_thinking)),
        ],
{
}

/// The column of the names is as wide as the longest of them, and no wider.
pub proof fn law_names_are_as_wide_as_the_longest(rows: Seq<(Seq<char>, Seq<char>)>)
    ensures
        forall|i: int| 0 <= i < rows.len() ==> (#[trigger] rows[i]).0.len() <= longest_name(rows),
        rows.len() > 0 ==> exists|i: int|
            0 <= i < rows.len() && (#[trigger] rows[i]).0.len() == longest_name(rows),
        padded_names(rows).len() == rows.len(),
        forall|i: int|
            0 <= i < rows.len() ==> #[trigger] padded_names(rows)[i].len() == longest_name(rows)
                && padded_names(rows)[i].take(rows[i].0.len() as int) == rows[i].0,
    decreases rows.len(),
{
    if rows.len() > 0 {
        let t = rows.drop_last();
        let n = t.len() as int;
        law_names_are_as_wide_as_the_longest(t);
        assert(forall|i: int| 0 <= i < n ==> #[trigger] rows[i] == t[i]);
        assert(rows[n] == rows.last());
        if rows.last().0.len() > longest_name(t) || n == 0 {
            assert(rows[n].0.len() == longest_name(rows));
        } else {
            let i = choose|i: int|
                0 <= i < t.len() && (#[trigger] t[i]).0.len() == longest_name(t);
            assert(rows[i].0.len() == longest_name(rows));
        }
        assert forall|i: int| 0 <= i < rows.len() implies #[trigger] padded_names(rows)[i].len()
            == longest_name(rows) && padded_names(rows)[i].take(rows[i].0.len() as int)
            == rows[i].0 by {
            law_padding_adds_spaces(rows[i].0, longest_name(rows));
        }
    }
}

} // verus!
