//! The configuration that a session runs with, and how its values are shown.

use vstd::prelude::*;
use vstd::string::*;

use crate::text::{decimal, decimal_of, str_eq};

verus! {

/// How hard the model thinks, from the least to the most.
#[derive(Debug, Clone, Copy, PartialEq, Eq, Structural)]
pub enum Effort {
    Low,
    Medium,
    High,
    Xhigh,
    Max,
}

/// The names of the effort levels, as they are listed to the user.
pub const VALID_EFFORTS: &'static str = "low, medium, high, xhigh, max";

impl Effort {
    /// The name of the level.
    pub open spec fn label(self) -> Seq<char> {
        match self {
            Effort::Low => "low"@,
            Effort::Medium => "medium"@,
            Effort::High => "high"@,
            Effort::Xhigh => "xhigh"@,
            Effort::Max => "max"@,
        }
    }

    /// The place of the level, counted from the least.
    pub open spec fn rank(self) -> int {
        match self {
            Effort::Low => 0,
            Effort::Medium => 1,
            Effort::High => 2,
            Effort::Xhigh => 3,
            Effort::Max => 4,
        }
    }

    /// The level of that name.
    pub open spec fn named(s: Seq<char>) -> Option<Effort> {
        if s == "low"@ {
            Some(Effort::Low)
        } else if s == "medium"@ {
            Some(Effort::Medium)
        } else if s == "high"@ {
            Some(Effort::High)
        } else if s == "xhigh"@ {
            Some(Effort::Xhigh)
        } else if s == "max"@ {
            Some(Effort::Max)
        } else {
            None
        }
    }

    /// The name of the level.
    pub fn name(self) -> (r: &'static str)
        ensures
            r@ == self.label(),
    {
        match self {
            Effort::Low => "low",
            Effort::Medium => "medium",
            Effort::High => "high",
            Effort::Xhigh => "xhigh",
            Effort::Max => "max",
        }
    }

    /// The level of that name.
    pub fn parse(s: &str) -> (r: Option<Effort>)
        ensures
            r == Effort::named(s@),
    {
        if str_eq(s, "low") {
            Some(Effort::Low)
        } else if str_eq(s, "medium") {
            Some(Effort::Medium)
        } else if str_eq(s, "high") {
            Some(Effort::High)
        } else if str_eq(s, "xhigh") {
            Some(Effort::Xhigh)
        } else if str_eq(s, "max") {
            Some(Effort::Max)
        } else {
            None
        }
    }

    /// The levels, from the least to the most.
    pub open spec fn ladder() -> Seq<Effort> {
        seq![Effort::Low, Effort::Medium, Effort::High, Effort::Xhigh, Effort::Max]
    }

    /// The levels, from the least to the most.
    pub fn all() -> (r: Vec<Effort>)
        ensures
            r@ == Effort::ladder(),
    {
        let r: Vec<Effort> = vec![
            Effort::Low,
            Effort::Medium,
            Effort::High,
            Effort::Xhigh,
            Effort::Max,
        ];
        assert(r@ =~= Effort::ladder());
        r
    }
}

/// A level is found by its own name.
pub proof fn law_effort_names_read_back(e: Effort)
    ensures
        Effort::named(e.label()) == Some(e),
{
    reveal_strlit("low");
    reveal_strlit("medium");
    reveal_strlit("high");
    reveal_strlit("xhigh");
    reveal_strlit("max");
    assert("low"@.len() == 3);
    assert("medium"@.len() == 6);
    assert("high"@.len() == 4);
    assert("xhigh"@.len() == 5);
    assert("max"@.len() == 3 && "max"@[0] == 'm' && "low"@[0] == 'l');
}

/// How long a prompt stays in the cache.
#[derive(Debug, Clone, Copy, PartialEq, Eq, Structural)]
pub enum PromptCacheTtl {
    FiveMinutes,
    OneHour,
}

impl PromptCacheTtl {
    /// How the duration is written.
    pub open spec fn label(self) -> Seq<char> {
        match self {
            PromptCacheTtl::FiveMinutes => "5m"@,
            PromptCacheTtl::OneHour => "1h"@,
        }
    }

    /// How the duration is written.
    pub fn name(self) -> (r: &'static str)
        ensures
            r@ == self.label(),
    {
        match self {
            PromptCacheTtl::FiveMinutes => "5m",
            PromptCacheTtl::OneHour => "1h",
        }
    }
}

/// Whether the conversation is compacted by itself, and from how many tokens on.
#[derive(Debug, Clone, Copy, PartialEq, Eq, Structural)]
pub struct AutoCompaction {
    pub enabled: bool,
    pub threshold_tokens: Option<u64>,
}

/// What was configured when the session started, with later changes.
#[derive(Debug)]
pub struct ConfigSnapshot {
    pub auth_label: &'static str,
    pub base_url: String,
    pub extra_ca_certs: Option<String>,
    pub model_id: String,
    pub effort: Option<Effort>,
    pub max_tokens: u32,
    pub max_tool_rounds: Option<u32>,
    pub prompt_cache_ttl: PromptCacheTtl,
    pub auto_compaction: AutoCompaction,
    pub show_thinking: bool,
    pub show_welcome: bool,
    pub theme_name: String,
}

/// How a switch is shown.
pub open spec fn switch_text(on: bool) -> Seq<char> {
    if on {
        "on"@
    } else {
        "off"@
    }
}

/// Shows a switch.
pub fn display_bool(on: bool) -> (r: &'static str)
    ensures
        r@ == switch_text(on),
{
    if on {
        "on"
    } else {
        "off"
    }
}

/// How an effort is shown.
pub open spec fn effort_text(effort: Option<Effort>) -> Seq<char> {
    match effort {
        Some(e) => e.label(),
        None => "(default)"@,
    }
}

/// Shows an effort.
pub fn display_effort(effort: Option<Effort>) -> (r: String)
    ensures
        r@ == effort_text(effort),
{
    match effort {
        Some(e) => e.name().to_owned(),
        None => "(default)".to_owned(),
    }
}

/// How the limit on tool rounds is shown.
pub open spec fn rounds_text(rounds: Option<u32>) -> Seq<char> {
    match rounds {
        Some(n) => decimal(n as nat),
        None => "unlimited"@,
    }
}

/// Shows the limit on tool rounds.
pub fn display_max_tool_rounds(rounds: Option<u32>) -> (r: String)
    ensures
        r@ == rounds_text(rounds),
{
    match rounds {
        Some(n) => decimal_of(n as u64),
        None => "unlimited".to_owned(),
    }
}

/// How automatic compaction is shown.
pub open spec fn compaction_text(auto: AutoCompaction) -> Seq<char> {
    if !auto.enabled {
        "off"@
    } else {
        match auto.threshold_tokens {
            Some(n) => "at "@ + decimal(n as nat) + " tokens"@,
            None => "on"@,
        }
    }
}

/// Shows automatic compaction.
pub fn display_auto_compaction(auto: AutoCompaction) -> (r: String)
    ensures
        r@ == compaction_text(auto),
{
    if !auto.enabled {
        return "off".to_owned();
    }
    match auto.threshold_tokens {
        Some(n) => {
            let mut out: String = "at ".to_owned();
            let count: String = decimal_of(n);
            out.append(count.as_str());
            out.append(" tokens");
            out
        },
        None => "on".to_owned(),
    }
}

/// A level is found by its own name alone.
pub proof fn law_only_names_find_levels(s: Seq<char>)
    ensures
        Effort::named(s) matches Some(e) ==> s == e.label(),
        Effort::named(s) is None ==> forall|e: Effort| s != #[trigger] e.label(),
{
}

/// The levels stand in the order of how much they are.
pub proof fn law_ladder_rises(e: Effort)
    ensures
        Effort::ladder().len() == 5,
        0 <= e.rank() < 5,
        Effort::ladder()[e.rank()] == e,
{
}

/// How settings are told: a switch as on or off, an effort by its name, tool rounds as a number, and
/// compaction by its threshold; where nothing was set, that is told in words.
pub proof fn law_settings_are_told(
    on: bool,
    effort: Effort,
    rounds: u32,
    auto: AutoCompaction,
    n: u64,
)
    ensures
        switch_text(true) == "on"@,
        switch_text(false) == "off"@,
        effort_text(Some(effort)) == effort.label(),
        effort_text(None) == "(default)"@,
        rounds_text(Some(rounds)) == decimal(rounds as nat),
        rounds_text(None) == "unlimited"@,
        !auto.enabled ==> compaction_text(auto) == "off"@,
        compaction_text(AutoCompaction { enabled: true, threshold_tokens: None }) == "on"@,
        compaction_text(AutoCompaction { enabled: true, threshold_tokens: Some(n) }) == "at "@
            + decimal(n as nat) + " tokens"@,
        PromptCacheTtl::FiveMinutes.label() == "5m"@,
        PromptCacheTtl::OneHour.label() == "1h"@,
{
}

} // verus!
