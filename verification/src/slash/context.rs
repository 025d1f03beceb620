//! What a command can see and change: the session, the conversation, and one overlay.

use vstd::prelude::*;
use vstd::string::*;

use crate::config::{AutoCompaction, ConfigSnapshot, Effort, PromptCacheTtl};
use crate::ident::hex_digit;
use crate::model::{
    aliases_of, family_catalog, id_in, info_views, lemma_first_named, listed_of, Capabilities,
    Catalog, CatalogView, InfoView, ModelInfo,
};
use crate::session::store::{is_id_char, is_session_id};
use crate::text::{occurs_at, owned};

verus! {

// ── Session ──

/// An assistant of another vendor, which may have been at work on the project too.
#[derive(Debug)]
pub struct Peer {
    pub name: String,
    /// The file that it keeps its notes on a project in.
    pub notes_file: String,
}

/// The session that is open.
#[derive(Debug)]
pub struct LiveSessionInfo {
    pub cwd: String,
    pub version: &'static str,
    pub session_id: String,
    pub config: ConfigSnapshot,
    /// The models that can be chosen.
    pub catalog: Catalog,
    pub peer: Peer,
}

impl LiveSessionInfo {
    /// The name of the model, with its context window where it is the large one.
    pub fn display_name(&self) -> (r: String)
        ensures
            r@ == self.catalog@.shown_name(self.config.model_id@),
    {
        self.catalog.display_name(self.config.model_id.as_str())
    }

    /// The name of the model.
    pub fn marketing_name(&self) -> (r: String)
        ensures
            r@ == self.catalog@.marketing_name(self.config.model_id@),
    {
        self.catalog.marketing_or_id(self.config.model_id.as_str())
    }
}

// ── Conversation ──

/// A line that a command leaves in the conversation.
#[derive(Debug, PartialEq, Eq)]
pub enum ChatEntry {
    Error(String),
    System(String),
    GitDiff(String),
}

/// A line by its characters.
#[verifier::ext_equal]
pub ghost enum ChatView {
    Error(Seq<char>),
    System(Seq<char>),
    GitDiff(Seq<char>),
}

impl View for ChatEntry {
    type V = ChatView;

    open spec fn view(&self) -> ChatView {
        match self {
            ChatEntry::Error(s) => ChatView::Error(s@),
            ChatEntry::System(s) => ChatView::System(s@),
            ChatEntry::GitDiff(s) => ChatView::GitDiff(s@),
        }
    }
}

/// The lines that commands left in the conversation.
#[derive(Debug)]
pub struct ChatLog {
    entries: Vec<ChatEntry>,
}

impl View for ChatLog {
    type V = Seq<ChatView>;

    closed spec fn view(&self) -> Seq<ChatView> {
        self.entries@.map_values(|e: ChatEntry| e@)
    }
}

impl ChatLog {
    /// No lines.
    pub fn new() -> (r: ChatLog)
        ensures
            r@ == Seq::<ChatView>::empty(),
    {
        let r = ChatLog { entries: Vec::new() };
        assert(r@ =~= seq![]);
        r
    }

    /// Adds a line.
    pub fn push(&mut self, entry: ChatEntry)
        ensures
            final(self)@ == old(self)@.push(entry@),
    {
        assert(self.entries@.push(entry).map_values(|e: ChatEntry| e@) =~= self@.push(entry@));
        self.entries.push(entry);
    }

    /// Adds an error.
    pub fn push_error(&mut self, text: &str)
        ensures
            final(self)@ == old(self)@.push(ChatView::Error(text@)),
    {
        self.push(ChatEntry::Error(owned(text)));
    }

    /// Adds a line of the program's own.
    pub fn push_system_message(&mut self, text: &str)
        ensures
            final(self)@ == old(self)@.push(ChatView::System(text@)),
    {
        self.push(ChatEntry::System(owned(text)));
    }

    /// Adds a diff.
    pub fn push_git_diff(&mut self, text: String)
        ensures
            final(self)@ == old(self)@.push(ChatView::GitDiff(text@)),
    {
        self.push(ChatEntry::GitDiff(text));
    }

    /// How many lines there are.
    pub fn entry_count(&self) -> (r: usize)
        ensures
            r == self@.len(),
    {
        self.entries.len()
    }

    /// The last line.
    pub fn last(&self) -> (r: Option<&ChatEntry>)
        ensures
            match r {
                Some(e) => self@.len() > 0 && e@ == self@.last(),
                None => self@.len() == 0,
            },
    {
        let n: usize = self.entries.len();
        if n == 0 {
            None
        } else {
            Some(&self.entries[n - 1])
        }
    }

    /// Whether the last line is an error.
    pub fn last_is_error(&self) -> (r: bool)
        ensures
            r == (self@.len() > 0 && self@.last() is Error),
    {
        match self.last() {
            Some(ChatEntry::Error(_)) => true,
            _ => false,
        }
    }

    /// The text of the last line, where it is an error.
    pub fn last_error_text(&self) -> (r: Option<&str>)
        ensures
            match r {
                Some(t) => self@.len() > 0 && self@.last() == ChatView::Error(t@),
                None => self@.len() == 0 || self@.last() !is Error,
            },
    {
        match self.last() {
            Some(ChatEntry::Error(s)) => Some(s.as_str()),
            _ => None,
        }
    }
}

// ── Session for trials ──

/// What a model can do.
pub open spec fn caps(effort: bool, xhigh: bool, max: bool, context_1m: bool) -> Capabilities {
    Capabilities { effort, effort_xhigh: xhigh, effort_max: max, context_1m }
}

/// A model by its characters.
pub open spec fn info_view(id: Seq<char>, name: Seq<char>, capabilities: Capabilities) -> InfoView {
    InfoView { id, name, capabilities }
}

/// A catalog with models of every kind.
pub open spec fn sample_catalog() -> CatalogView {
    CatalogView {
        models: seq![
            info_view("acme-opus-4-7"@, "Acme Opus 4.7"@, caps(true, true, true, true)),
            info_view("acme-opus-4-6"@, "Acme Opus 4.6"@, caps(true, false, true, true)),
            info_view("acme-opus-4-5"@, "Acme Opus 4.5"@, caps(true, false, false, false)),
            info_view("acme-opus-4-1"@, "Acme Opus 4.1"@, caps(false, false, false, false)),
            info_view("acme-sonnet-4-6"@, "Acme Sonnet 4.6"@, caps(true, false, false, true)),
            info_view("acme-sonnet-4-5"@, "Acme Sonnet 4.5"@, caps(false, false, false, true)),
            info_view("acme-haiku-4-5"@, "Acme Haiku 4.5"@, caps(false, false, false, false)),
        ],
        listed: seq![
            "acme-opus-4-7"@,
            "acme-opus-4-7[1m]"@,
            "acme-sonnet-4-6"@,
            "acme-sonnet-4-6[1m]"@,
            "acme-haiku-4-5"@,
        ],
        aliases: seq![
            ("opus"@, "acme-opus-4-7"@),
            ("sonnet"@, "acme-sonnet-4-6"@),
            ("haiku"@, "acme-haiku-4-5"@),
        ],
    }
}

fn info(id: &str, name: &str, effort: bool, xhigh: bool, max: bool, context_1m: bool) -> (r:
    ModelInfo)
    ensures
        r@ == info_view(id@, name@, caps(effort, xhigh, max, context_1m)),
{
    ModelInfo {
        id_substr: owned(id),
        display_name: owned(name),
        capabilities: Capabilities { effort, effort_xhigh: xhigh, effort_max: max, context_1m },
    }
}

proof fn lemma_sample_is_of_a_family()
    ensures
        sample_catalog() == family_catalog("acme"@, sample_catalog().models),
{
    reveal_strlit("acme");
    reveal_strlit("-");
    reveal_strlit("opus-4-7");
    reveal_strlit("opus-4-7[1m]");
    reveal_strlit("sonnet-4-6");
    reveal_strlit("sonnet-4-6[1m]");
    reveal_strlit("haiku-4-5");
    reveal_strlit("acme-opus-4-7");
    reveal_strlit("acme-opus-4-7[1m]");
    reveal_strlit("acme-sonnet-4-6");
    reveal_strlit("acme-sonnet-4-6[1m]");
    reveal_strlit("acme-haiku-4-5");
    assert("acme-opus-4-7"@ =~= id_in("acme"@, "opus-4-7"@));
    assert("acme-opus-4-7[1m]"@ =~= id_in("acme"@, "opus-4-7[1m]"@));
    assert("acme-sonnet-4-6"@ =~= id_in("acme"@, "sonnet-4-6"@));
    assert("acme-sonnet-4-6[1m]"@ =~= id_in("acme"@, "sonnet-4-6[1m]"@));
    assert("acme-haiku-4-5"@ =~= id_in("acme"@, "haiku-4-5"@));
    assert(sample_catalog().listed =~= listed_of("acme"@));
    assert(sample_catalog().aliases =~= aliases_of("acme"@));
}

proof fn lemma_sample_is_sound()
    ensures
        sample_catalog().is_sound(),
{
    let cat = sample_catalog();
    assert forall|i: int| 0 <= i < cat.aliases.len() implies cat.names(
        (#[trigger] cat.aliases[i]).1,
    ) by {
        let k: int = if i == 0 {
            0
        } else if i == 1 {
            4
        } else {
            6
        };
        let id = cat.aliases[i].1;
        assert(cat.models[k].id == id);
        assert(id.subrange(0, id.len() as int) =~= id);
        assert(occurs_at(id, id, 0));
        lemma_first_named(cat.models, id, k);
    }
}

/// A catalog with models of every kind.
pub fn test_catalog() -> (r: Catalog)
    ensures
        r@ == sample_catalog(),
{
    let models: Vec<ModelInfo> = vec![
        info("acme-opus-4-7", "Acme Opus 4.7", true, true, true, true),
        info("acme-opus-4-6", "Acme Opus 4.6", true, false, true, true),
        info("acme-opus-4-5", "Acme Opus 4.5", true, false, false, false),
        info("acme-opus-4-1", "Acme Opus 4.1", false, false, false, false),
        info("acme-sonnet-4-6", "Acme Sonnet 4.6", true, false, false, true),
        info("acme-sonnet-4-5", "Acme Sonnet 4.5", false, false, false, true),
        info("acme-haiku-4-5", "Acme Haiku 4.5", false, false, false, false),
    ];
    assert(info_views(models@) =~= sample_catalog().models);
    proof {
        lemma_sample_is_of_a_family();
        lemma_sample_is_sound();
    }
    Catalog::of_family("acme", models).unwrap()
}

/// A session with every value set.
pub fn test_session_info() -> (r: LiveSessionInfo)
    ensures
        r.cwd@ == "~/test"@,
        r.version@ == "0.0.0-test"@,
        r.session_id@ == "test-session"@,
        r.config.auth_label@ == "API key"@,
        r.config.base_url@ == "https://api.test.invalid"@,
        r.config.extra_ca_certs is None,
        r.config.model_id@ == "acme-opus-4-7"@,
        r.config.effort == Some(Effort::High),
        r.config.max_tokens == 32_000,
        r.config.max_tool_rounds is None,
        r.config.prompt_cache_ttl == PromptCacheTtl::OneHour,
        r.config.auto_compaction == (AutoCompaction {
            enabled: true,
            threshold_tokens: Some(155_000),
        }),
        !r.config.show_thinking,
        r.config.show_welcome,
        r.config.theme_name@ == "mocha"@,
        r.catalog@ == sample_catalog(),
        r.peer.name@ == "Acme Code"@,
        r.peer.notes_file@ == "ACME.md"@,
{
    LiveSessionInfo {
        cwd: "~/test".to_owned(),
        version: "0.0.0-test",
        session_id: "test-session".to_owned(),
        config: ConfigSnapshot {
            auth_label: "API key",
            base_url: "https://api.test.invalid".to_owned(),
            extra_ca_certs: None,
            model_id: "acme-opus-4-7".to_owned(),
            effort: Some(Effort::High),
            max_tokens: 32_000,
            max_tool_rounds: None,
            prompt_cache_ttl: PromptCacheTtl::OneHour,
            auto_compaction: AutoCompaction { enabled: true, threshold_tokens: Some(155_000) },
            show_thinking: false,
            show_welcome: true,
            theme_name: "mocha".to_owned(),
        },
        catalog: test_catalog(),
        peer: Peer { name: "Acme Code".to_owned(), notes_file: "ACME.md".to_owned() },
    }
}

/// The digit of value `d` in hexadecimal, in lower case.
fn hex_char(d: u8) -> (r: char)
    requires
        d < 16,
    ensures
        r == hex_digit(d as int),
        is_id_char(r),
{
    if d < 10 {
        (48u8 + d) as char
    } else {
        (87u8 + d) as char
    }
}

/// The two hexadecimal digits of `byte`, twice.
pub open spec fn stamp(byte: u8) -> Seq<char> {
    seq![
        hex_digit(byte as int / 16),
        hex_digit(byte as int % 16),
        hex_digit(byte as int / 16),
        hex_digit(byte as int % 16),
    ]
}

/// An identifier in the form of a UUID, stamped with `byte`.
pub open spec fn stamped_text(byte: u8) -> Seq<char> {
    stamp(byte) + "1111-2222-3333-4444-"@ + stamp(byte) + stamp(byte) + stamp(byte)
}

/// An identifier in the form of a UUID, stamped with `byte`: 36 characters that can name a
/// session.
pub fn stamped_id(byte: u8) -> (r: String)
    ensures
        r@ == stamped_text(byte),
        r@.len() == 36,
        is_session_id(r@),
{
    let high: char = hex_char(byte / 16);
    let low: char = hex_char(byte % 16);
    let mut s: String = String::new();
    s.push(high);
    s.push(low);
    s.push(high);
    s.push(low);
    assert(s@ =~= stamp(byte));
    let mut out: String = String::new();
    out.append(s.as_str());
    out.append("1111-2222-3333-4444-");
    out.append(s.as_str());
    out.append(s.as_str());
    out.append(s.as_str());
    assert(out@ =~= stamped_text(byte));
    proof {
        reveal_strlit("1111-2222-3333-4444-");
        assert forall|i: int| 0 <= i < out@.len() implies is_id_char(#[trigger] out@[i]) by {
            if i < 4 {
                assert(out@[i] == stamp(byte)[i]);
            } else if i < 24 {
                assert(out@[i] == "1111-2222-3333-4444-"@[i - 4]);
            } else {
                assert(out@[i] == stamp(byte)[(i - 24) % 4]);
            }
        }
    }
    out
}

} // verus!
