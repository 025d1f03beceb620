//! The commands: what each is called, how it behaves while the assistant is busy, and what it
//! does.

use vstd::prelude::*;
use vstd::string::*;

use crate::config::{law_effort_names_read_back, Effort};
use crate::event::{ActionView, UserAction};
use crate::model::{Catalog, CatalogView};
use crate::slash::confirm::ConfirmDeleteSessionModal;
use crate::slash::context::{ChatLog, LiveSessionInfo};
use crate::slash::delete::MISSING_ID_TEXT;
use crate::slash::effort::{
    no_effort_tier_msg, no_tier_text, parse_effort_arg, unknown_effort_text,
};
use crate::slash::effort_slider::EffortSlider;
use crate::slash::init::{describe_init, init_description, prompt, prompt_text};
use crate::slash::matcher::label_views;
use crate::slash::model::{completed, listed_names, resolve_model_arg, resolved_model};
use crate::slash::picker::ModelEffortPicker;
use crate::slash::registry::{
    completion_views, looked_up, lookup_in, row_views, ArgCompletion, CommandRow, RowView,
    SlashKind,
};
use crate::slash::rename::RenameModal;
use crate::slash::resume::ResumePicker;
use crate::slash::theme::{
    resolve_theme_arg, theme_descriptions, theme_names, unknown_theme_text, ThemePicker,
};
use crate::text::{is_blank, lower, owned, trim, trim_of};
use crate::tui::kv_overview::{KvOverview, OverviewView};

verus! {

// ── Names ──

/// A command.
#[derive(Debug, Clone, Copy, PartialEq, Eq, Structural)]
pub enum BuiltIn {
    Clear,
    Compact,
    Config,
    Delete,
    Diff,
    Effort,
    Help,
    Init,
    Model,
    Rename,
    Resume,
    Status,
    Theme,
}

/// The commands in the order of their names.
pub open spec fn built_in_list() -> Seq<BuiltIn> {
    seq![
        BuiltIn::Clear,
        BuiltIn::Compact,
        BuiltIn::Config,
        BuiltIn::Delete,
        BuiltIn::Diff,
        BuiltIn::Effort,
        BuiltIn::Help,
        BuiltIn::Init,
        BuiltIn::Model,
        BuiltIn::Rename,
        BuiltIn::Resume,
        BuiltIn::Status,
        BuiltIn::Theme,
    ]
}

/// The commands in the order of their names.
pub fn built_ins() -> (r: Vec<BuiltIn>)
    ensures
        r@ == built_in_list(),
{
    let r: Vec<BuiltIn> = vec![
        BuiltIn::Clear,
        BuiltIn::Compact,
        BuiltIn::Config,
        BuiltIn::Delete,
        BuiltIn::Diff,
        BuiltIn::Effort,
        BuiltIn::Help,
        BuiltIn::Init,
        BuiltIn::Model,
        BuiltIn::Rename,
        BuiltIn::Resume,
        BuiltIn::Status,
        BuiltIn::Theme,
    ];
    assert(r@ =~= built_in_list());
    r
}

impl BuiltIn {
    /// What the command is called.
    pub open spec fn named(self) -> Seq<char> {
        match self {
            BuiltIn::Clear => "clear"@,
            BuiltIn::Compact => "compact"@,
            BuiltIn::Config => "config"@,
            BuiltIn::Delete => "delete"@,
            BuiltIn::Diff => "diff"@,
            BuiltIn::Effort => "effort"@,
            BuiltIn::Help => "help"@,
            BuiltIn::Init => "init"@,
            BuiltIn::Model => "model"@,
            BuiltIn::Rename => "rename"@,
            BuiltIn::Resume => "resume"@,
            BuiltIn::Status => "status"@,
            BuiltIn::Theme => "theme"@,
        }
    }

    /// What else the command is called.
    pub open spec fn nicknames(self) -> Seq<Seq<char>> {
        match self {
            BuiltIn::Clear => seq!["new"@, "reset"@],
            BuiltIn::Resume => seq!["continue"@],
            _ => seq![],
        }
    }

    /// What the command does, in words. `notes_file` is the file that a peer keeps its notes in.
    pub open spec fn described(self, notes_file: Seq<char>) -> Seq<char> {
        match self {
            BuiltIn::Clear => "Reset the conversation context"@,
            BuiltIn::Compact => "Compress conversation context into a summary"@,
            BuiltIn::Config => "Show resolved config"@,
            BuiltIn::Delete => "Delete a saved session"@,
            BuiltIn::Diff =>
                "Show uncommitted working-tree changes (`git diff HEAD`) and the names of any untracked files"@,
            BuiltIn::Effort => "Open the effort slider or switch directly with `/effort <level>`"@,
            BuiltIn::Help => "List the available slash commands and their usage hints"@,
            BuiltIn::Init => init_description(notes_file),
            BuiltIn::Model => "Switch the model"@,
            BuiltIn::Rename =>
                "Rename the current session — `/rename` for a modal, `/rename <title>` to apply directly"@,
            BuiltIn::Resume => "Resume a previous session"@,
            BuiltIn::Status => "Show current session info"@,
            BuiltIn::Theme => "Open the theme picker or switch directly with `/theme <name>`"@,
        }
    }

    /// What the arguments of the command look like.
    pub open spec fn placeholder(self) -> Option<Seq<char>> {
        match self {
            BuiltIn::Compact => Some("[<instructions>]"@),
            BuiltIn::Delete => Some("<id-prefix>"@),
            BuiltIn::Effort => Some("[<level>]"@),
            BuiltIn::Model => Some("[<id>]"@),
            BuiltIn::Rename => Some("[<title>]"@),
            BuiltIn::Resume => Some("[<id-prefix>]"@),
            BuiltIn::Theme => Some("[<name>]"@),
            _ => None,
        }
    }

    /// The row of the command.
    pub open spec fn row_view(self, notes_file: Seq<char>) -> RowView {
        RowView {
            name: self.named(),
            aliases: self.nicknames(),
            description: self.described(notes_file),
            usage: self.placeholder(),
        }
    }

    /// What the command is called.
    pub fn name(self) -> (r: &'static str)
        ensures
            r@ == self.named(),
    {
        match self {
            BuiltIn::Clear => "clear",
            BuiltIn::Compact => "compact",
            BuiltIn::Config => "config",
            BuiltIn::Delete => "delete",
            BuiltIn::Diff => "diff",
            BuiltIn::Effort => "effort",
            BuiltIn::Help => "help",
            BuiltIn::Init => "init",
            BuiltIn::Model => "model",
            BuiltIn::Rename => "rename",
            BuiltIn::Resume => "resume",
            BuiltIn::Status => "status",
            BuiltIn::Theme => "theme",
        }
    }

    /// What else the command is called.
    pub fn aliases(self) -> (r: Vec<&'static str>)
        ensures
            label_views(r@) == self.nicknames(),
    {
        let r: Vec<&'static str> = match self {
            BuiltIn::Clear => vec!["new", "reset"],
            BuiltIn::Resume => vec!["continue"],
            _ => Vec::new(),
        };
        assert(label_views(r@) =~= self.nicknames());
        r
    }

    /// What the command does, in words. `notes_file` is the file that a peer keeps its notes in.
    pub fn description(self, notes_file: &str) -> (r: String)
        ensures
            r@ == self.described(notes_file@),
    {
        owned(match self {
            BuiltIn::Clear => "Reset the conversation context",
            BuiltIn::Compact => "Compress conversation context into a summary",
            BuiltIn::Config => "Show resolved config",
            BuiltIn::Delete => "Delete a saved session",
            BuiltIn::Diff =>
                "Show uncommitted working-tree changes (`git diff HEAD`) and the names of any untracked files",
            BuiltIn::Effort => "Open the effort slider or switch directly with `/effort <level>`",
            BuiltIn::Help => "List the available slash commands and their usage hints",
            BuiltIn::Init => {
                return describe_init(notes_file);
            },
            BuiltIn::Model => "Switch the model",
            BuiltIn::Rename =>
                "Rename the current session — `/rename` for a modal, `/rename <title>` to apply directly",
            BuiltIn::Resume => "Resume a previous session",
            BuiltIn::Status => "Show current session info",
            BuiltIn::Theme => "Open the theme picker or switch directly with `/theme <name>`",
        })
    }

    /// What the arguments of the command look like, where it takes any.
    pub fn usage(self) -> (r: Option<&'static str>)
        ensures
            match r {
                Some(u) => self.placeholder() == Some(u@),
                None => self.placeholder() is None,
            },
    {
        match self {
            BuiltIn::Compact => Some("[<instructions>]"),
            BuiltIn::Delete => Some("<id-prefix>"),
            BuiltIn::Effort => Some("[<level>]"),
            BuiltIn::Model => Some("[<id>]"),
            BuiltIn::Rename => Some("[<title>]"),
            BuiltIn::Resume => Some("[<id-prefix>]"),
            BuiltIn::Theme => Some("[<name>]"),
            _ => None,
        }
    }

    /// The row of the command.
    pub fn row(self, notes_file: &str) -> (r: CommandRow)
        ensures
            r@ == self.row_view(notes_file@),
    {
        let aliases: Vec<&'static str> = self.aliases();
        let r: CommandRow = CommandRow {
            name: self.name(),
            aliases,
            description: self.description(notes_file),
            usage: self.usage(),
        };
        assert(r@.aliases =~= label_views(aliases@));
        r
    }

    // ── Behaviour ──

    /// Whether the command can run while the assistant is busy.
    pub open spec fn kind(self, args: Seq<char>) -> SlashKind {
        match self {
            BuiltIn::Config | BuiltIn::Diff | BuiltIn::Help | BuiltIn::Status =>
                SlashKind::ReadOnly,
            BuiltIn::Effort | BuiltIn::Theme => if trim_of(args).len() == 0 {
                SlashKind::ReadOnly
            } else {
                SlashKind::Mutating
            },
            _ => SlashKind::Mutating,
        }
    }

    /// Whether the command can run while the assistant is busy: a command that shows something
    /// can, one that changes something cannot.
    pub fn classify(self, args: &str) -> (r: SlashKind)
        ensures
            r == self.kind(args@),
            r != SlashKind::Unknown,
    {
        match self {
            BuiltIn::Config | BuiltIn::Diff | BuiltIn::Help | BuiltIn::Status =>
                SlashKind::ReadOnly,
            BuiltIn::Effort | BuiltIn::Theme => if trim(args).is_empty() {
                SlashKind::ReadOnly
            } else {
                SlashKind::Mutating
            },
            _ => SlashKind::Mutating,
        }
    }

    /// Whether the typed line is kept in the conversation.
    pub open spec fn echoes(self, args: Seq<char>) -> bool {
        match self {
            BuiltIn::Config | BuiltIn::Help | BuiltIn::Status => false,
            BuiltIn::Effort
            | BuiltIn::Model
            | BuiltIn::Rename
            | BuiltIn::Resume
            | BuiltIn::Theme => trim_of(args).len() > 0,
            _ => true,
        }
    }

    /// Whether the typed line is kept in the conversation: not where the command only opens an
    /// overlay.
    pub fn echoes_input(self, args: &str) -> (r: bool)
        ensures
            r == self.echoes(args@),
    {
        match self {
            BuiltIn::Config | BuiltIn::Help | BuiltIn::Status => false,
            BuiltIn::Effort
            | BuiltIn::Model
            | BuiltIn::Rename
            | BuiltIn::Resume
            | BuiltIn::Theme => !trim(args).is_empty(),
            _ => true,
        }
    }

    /// What the argument can be completed to.
    pub open spec fn completions(self, cat: CatalogView, typed: Seq<char>) -> Seq<
        (Seq<char>, Seq<char>),
    > {
        match self {
            BuiltIn::Model => completed(cat.listed, listed_names(cat), typed),
            BuiltIn::Theme => completed(theme_names(), theme_descriptions(), typed),
            _ => seq![],
        }
    }

    /// What the argument can be completed to; nothing where there is no list of it.
    pub fn complete_arg(self, cat: &Catalog, prefix: &str) -> (r: Vec<ArgCompletion>)
        ensures
            completion_views(r@) == self.completions(cat@, prefix@),
    {
        match self {
            BuiltIn::Model => crate::slash::model::complete_arg(cat, prefix),
            BuiltIn::Theme => crate::slash::theme::complete_arg(prefix),
            _ => {
                let r: Vec<ArgCompletion> = Vec::new();
                assert(completion_views(r@) =~= seq![]);
                r
            },
        }
    }
}

/// The rows of the commands. `notes_file` is the file that a peer keeps its notes in.
pub open spec fn rows_of(commands: Seq<BuiltIn>, notes_file: Seq<char>) -> Seq<RowView> {
    commands.map_values(|c: BuiltIn| c.row_view(notes_file))
}

/// The rows of the commands. `notes_file` is the file that a peer keeps its notes in.
pub fn rows(commands: &Vec<BuiltIn>, notes_file: &str) -> (r: Vec<CommandRow>)
    ensures
        row_views(r@) == rows_of(commands@, notes_file@),
{
    let mut out: Vec<CommandRow> = Vec::new();
    let mut i: usize = 0;
    while i < commands.len()
        invariant
            i <= commands.len(),
            row_views(out@) =~= rows_of(commands@, notes_file@).take(i as int),
        decreases commands.len() - i,
    {
        let row: CommandRow = commands[i].row(notes_file);
        let ghost before = out@;
        out.push(row);
        assert(row_views(out@) =~= row_views(before).push(row@));
        i = i + 1;
    }
    assert(rows_of(commands@, notes_file@).take(commands@.len() as int) =~= rows_of(
        commands@,
        notes_file@,
    ));
    out
}

/// The command that a name stands for. Only names and aliases are looked at, so it matters to no
/// row which notes file it tells of.
pub open spec fn command_for(commands: Seq<BuiltIn>, name: Seq<char>) -> Option<BuiltIn> {
    match looked_up(rows_of(commands, ""@), name) {
        Some(i) => Some(commands[i]),
        None => None,
    }
}

/// The command that a name stands for.
pub fn lookup(commands: &Vec<BuiltIn>, name: &str) -> (r: Option<BuiltIn>)
    ensures
        r == command_for(commands@, name@),
{
    let table: Vec<CommandRow> = rows(commands, "");
    assert(row_views(table@).len() == table@.len());
    match lookup_in(&table, name) {
        Some(i) => Some(commands[i]),
        None => None,
    }
}

// ── Outcomes ──

/// Something that has to be looked up outside before a command can go on.
#[derive(Debug, PartialEq, Eq)]
pub enum Work {
    /// The configuration files and whether they are there.
    ConfigFiles,
    /// What changed in the working tree.
    WorkTree,
    /// The sessions of the project.
    Sessions,
    /// The session that a prefix means, to be resumed.
    ResumeById { prefix: String },
    /// The session that a prefix means, to be deleted.
    DeleteById { prefix: String },
}

/// What a command leads to.
#[derive(Debug, PartialEq, Eq)]
pub enum SlashOutcome {
    /// Nothing more.
    Done,
    /// Something that the assistant is asked to do.
    Forward(UserAction),
    /// Something that has to be looked up first.
    Ask(Work),
}

/// What has to be looked up, by its characters.
#[verifier::ext_equal]
#[allow(inconsistent_fields)]
pub ghost enum WorkView {
    ConfigFiles,
    WorkTree,
    Sessions,
    ResumeById { prefix: Seq<char> },
    DeleteById { prefix: Seq<char> },
}

/// What a command leads to, by its characters.
#[verifier::ext_equal]
pub ghost enum OutcomeView {
    Done,
    Forward(ActionView),
    Ask(WorkView),
}

impl View for Work {
    type V = WorkView;

    open spec fn view(&self) -> WorkView {
        match self {
            Work::ConfigFiles => WorkView::ConfigFiles,
            Work::WorkTree => WorkView::WorkTree,
            Work::Sessions => WorkView::Sessions,
            Work::ResumeById { prefix } => WorkView::ResumeById { prefix: prefix@ },
            Work::DeleteById { prefix } => WorkView::DeleteById { prefix: prefix@ },
        }
    }
}

impl View for SlashOutcome {
    type V = OutcomeView;

    open spec fn view(&self) -> OutcomeView {
        match self {
            SlashOutcome::Done => OutcomeView::Done,
            SlashOutcome::Forward(a) => OutcomeView::Forward(a@),
            SlashOutcome::Ask(w) => OutcomeView::Ask(w@),
        }
    }
}

/// What stands above the conversation.
#[derive(Debug)]
pub enum Overlay {
    Overview(KvOverview),
    Effort(EffortSlider),
    Model(ModelEffortPicker),
    Theme(ThemePicker),
    Rename(RenameModal),
    Resume(ResumePicker),
    ConfirmDelete(ConfirmDeleteSessionModal),
}

/// What a command can see and change. At most one overlay is opened by a command.
#[derive(Debug)]
pub struct SlashContext {
    pub chat: ChatLog,
    pub info: LiveSessionInfo,
    /// The title of the session.
    pub title: Option<String>,
    pub modal: Option<Overlay>,
}

impl SlashContext {
    /// A session with no title and an empty conversation.
    pub fn new(info: LiveSessionInfo) -> (r: SlashContext)
        ensures
            r.chat@ == Seq::<crate::slash::context::ChatView>::empty(),
            r.info == info,
            r.title is None,
            r.modal is None,
    {
        SlashContext { chat: ChatLog::new(), info, title: None, modal: None }
    }

    /// A session with that title and an empty conversation.
    pub fn with_title(info: LiveSessionInfo, title: Option<String>) -> (r: SlashContext)
        ensures
            r.chat@ == Seq::<crate::slash::context::ChatView>::empty(),
            r.info == info,
            r.title == title,
            r.modal is None,
    {
        SlashContext { chat: ChatLog::new(), info, title, modal: None }
    }

    /// Opens an overlay once the command is done.
    pub fn open_modal(&mut self, modal: Overlay)
        requires
            old(self).modal is None,
        ensures
            final(self).modal == Some(modal),
            final(self).chat == old(self).chat,
            final(self).info == old(self).info,
            final(self).title == old(self).title,
    {
        self.modal = Some(modal);
    }

    /// Takes the overlay that was opened.
    pub fn take_modal(&mut self) -> (r: Option<Overlay>)
        ensures
            r == old(self).modal,
            final(self).modal is None,
            final(self).chat == old(self).chat,
            final(self).info == old(self).info,
            final(self).title == old(self).title,
    {
        self.modal.take()
    }
}

// ── Execution ──

/// What a command leads to, or why it fails.
pub open spec fn outcome_of(cmd: BuiltIn, args: Seq<char>, info: LiveSessionInfo) -> Result<
    OutcomeView,
    Seq<char>,
> {
    let arg = trim_of(args);
    let caps = info.catalog@.capabilities_of(info.config.model_id@);
    match cmd {
        BuiltIn::Clear => Ok(OutcomeView::Forward(ActionView::Clear)),
        BuiltIn::Compact => Ok(
            OutcomeView::Forward(
                ActionView::Compact {
                    instructions: if arg.len() == 0 {
                        None
                    } else {
                        Some(arg)
                    },
                },
            ),
        ),
        BuiltIn::Config => Ok(OutcomeView::Ask(WorkView::ConfigFiles)),
        BuiltIn::Delete => if arg.len() == 0 {
            Err(MISSING_ID_TEXT@)
        } else {
            Ok(OutcomeView::Ask(WorkView::DeleteById { prefix: arg }))
        },
        BuiltIn::Diff => Ok(OutcomeView::Ask(WorkView::WorkTree)),
        BuiltIn::Effort => if arg.len() == 0 {
            if caps.effort {
                Ok(OutcomeView::Done)
            } else {
                Err(no_tier_text(info.catalog@, info.config.model_id@))
            }
        } else {
            match Effort::named(lower(arg)) {
                None => Err(unknown_effort_text(arg)),
                Some(e) => if caps.effort {
                    Ok(
                        OutcomeView::Forward(
                            ActionView::SwapConfig { model: None, effort: Some(e) },
                        ),
                    )
                } else {
                    Err(no_tier_text(info.catalog@, info.config.model_id@))
                },
            }
        },
        BuiltIn::Help => Ok(OutcomeView::Done),
        BuiltIn::Init => Ok(OutcomeView::Forward(ActionView::SubmitPrompt(
                    prompt_text(info.peer.notes_file@, info.peer.name@),
                ))),
        BuiltIn::Model => if arg.len() == 0 {
            Ok(OutcomeView::Done)
        } else {
            match resolved_model(info.catalog@, arg) {
                Ok(id) => Ok(
                    OutcomeView::Forward(ActionView::SwapConfig { model: Some(id), effort: None }),
                ),
                Err(e) => Err(e),
            }
        },
        BuiltIn::Rename => if arg.len() == 0 {
            Ok(OutcomeView::Done)
        } else {
            Ok(OutcomeView::Forward(ActionView::Rename { title: arg }))
        },
        BuiltIn::Resume => if arg.len() == 0 {
            Ok(OutcomeView::Ask(WorkView::Sessions))
        } else {
            Ok(OutcomeView::Ask(WorkView::ResumeById { prefix: arg }))
        },
        BuiltIn::Status => Ok(OutcomeView::Done),
        BuiltIn::Theme => if arg.len() == 0 {
            Ok(OutcomeView::Done)
        } else if theme_names().contains(lower(arg)) {
            Ok(OutcomeView::Forward(ActionView::SwapTheme { name: lower(arg) }))
        } else {
            Err(unknown_theme_text(arg))
        },
    }
}

/// Whether the command opens an overlay by itself.
pub open spec fn opens(cmd: BuiltIn, args: Seq<char>, info: LiveSessionInfo) -> bool {
    match cmd {
        BuiltIn::Help | BuiltIn::Status => true,
        BuiltIn::Effort => trim_of(args).len() == 0 && info.catalog@.capabilities_of(
            info.config.model_id@,
        ).effort,
        BuiltIn::Model | BuiltIn::Rename | BuiltIn::Theme => trim_of(args).len() == 0,
        _ => false,
    }
}

/// Whether `overlay` is what the command opens.
pub open spec fn is_opened(
    cmd: BuiltIn,
    info: LiveSessionInfo,
    title: Option<String>,
    overlay: Overlay,
) -> bool {
    match cmd {
        BuiltIn::Help => overlay matches Overlay::Overview(o) && o@
            == crate::slash::help::help_view(rows_of(built_in_list(), info.peer.notes_file@)),
        BuiltIn::Status => overlay matches Overlay::Overview(o) && o@
            == crate::slash::status::status_view(info),
        BuiltIn::Effort => overlay matches Overlay::Effort(s) && s.is_start(info),
        BuiltIn::Model => overlay matches Overlay::Model(p) && p.is_start(info),
        BuiltIn::Theme => overlay matches Overlay::Theme(p) && p.is_start(
            info.config.theme_name@,
        ),
        BuiltIn::Rename => overlay matches Overlay::Rename(m) && m.text()
            == crate::slash::rename::starting_text(crate::session::entry::opt_view(title)),
        _ => false,
    }
}

/// Carries out a command.
pub fn execute(cmd: BuiltIn, args: &str, ctx: &mut SlashContext) -> (r: Result<
    SlashOutcome,
    String,
>)
    requires
        opens(cmd, args@, old(ctx).info) ==> old(ctx).modal is None,
    ensures
        match r {
            Ok(o) => outcome_of(cmd, args@, old(ctx).info) == Ok::<OutcomeView, Seq<char>>(o@),
            Err(e) => outcome_of(cmd, args@, old(ctx).info) == Err::<OutcomeView, Seq<char>>(e@),
        },
        final(ctx).chat == old(ctx).chat,
        final(ctx).info == old(ctx).info,
        final(ctx).title == old(ctx).title,
        if opens(cmd, args@, old(ctx).info) {
            final(ctx).modal matches Some(m) && is_opened(cmd, old(ctx).info, old(ctx).title, m)
        } else {
            final(ctx).modal == old(ctx).modal
        },
{
    let arg: &str = trim(args);
    let bare: bool = arg.is_empty();
    match cmd {
        BuiltIn::Clear => Ok(SlashOutcome::Forward(UserAction::Clear)),
        BuiltIn::Compact => {
            let instructions: Option<String> = if bare {
                None
            } else {
                Some(owned(arg))
            };
            Ok(SlashOutcome::Forward(UserAction::Compact { instructions }))
        },
        BuiltIn::Config => Ok(SlashOutcome::Ask(Work::ConfigFiles)),
        BuiltIn::Delete => {
            if bare {
                return Err(owned(MISSING_ID_TEXT));
            }
            Ok(SlashOutcome::Ask(Work::DeleteById { prefix: owned(arg) }))
        },
        BuiltIn::Diff => Ok(SlashOutcome::Ask(Work::WorkTree)),
        BuiltIn::Effort => {
            if bare {
                match EffortSlider::new(&ctx.info) {
                    None => Err(no_effort_tier_msg(
                        &ctx.info.catalog,
                        ctx.info.config.model_id.as_str(),
                    )),
                    Some(slider) => {
                        ctx.open_modal(Overlay::Effort(slider));
                        Ok(SlashOutcome::Done)
                    },
                }
            } else {
                match parse_effort_arg(arg) {
                    Err(e) => Err(e),
                    Ok(pick) => {
                        if !ctx.info.catalog.capabilities_for(
                            ctx.info.config.model_id.as_str(),
                        ).effort {
                            return Err(no_effort_tier_msg(
                        &ctx.info.catalog,
                        ctx.info.config.model_id.as_str(),
                    ));
                        }
                        Ok(
                            SlashOutcome::Forward(
                                UserAction::SwapConfig { model: None, effort: Some(pick) },
                            ),
                        )
                    },
                }
            }
        },
        BuiltIn::Help => {
            let commands: Vec<BuiltIn> = built_ins();
            let table: Vec<CommandRow> = rows(&commands, ctx.info.peer.notes_file.as_str());
            ctx.open_modal(Overlay::Overview(crate::slash::help::build_modal(&table)));
            Ok(SlashOutcome::Done)
        },
        BuiltIn::Init => Ok(SlashOutcome::Forward(UserAction::SubmitPrompt(prompt(&ctx.info.peer)))),
        BuiltIn::Model => {
            if bare {
                let picker: ModelEffortPicker = ModelEffortPicker::new(&ctx.info);
                ctx.open_modal(Overlay::Model(picker));
                return Ok(SlashOutcome::Done);
            }
            match resolve_model_arg(&ctx.info.catalog, arg) {
                Err(e) => Err(e),
                Ok(id) => Ok(
                    SlashOutcome::Forward(UserAction::SwapConfig { model: Some(id), effort: None }),
                ),
            }
        },
        BuiltIn::Rename => {
            if bare {
                let modal: RenameModal = match &ctx.title {
                    Some(t) => RenameModal::new(Some(t.as_str())),
                    None => RenameModal::new(None),
                };
                ctx.open_modal(Overlay::Rename(modal));
                return Ok(SlashOutcome::Done);
            }
            Ok(SlashOutcome::Forward(UserAction::Rename { title: owned(arg) }))
        },
        BuiltIn::Resume => {
            if bare {
                return Ok(SlashOutcome::Ask(Work::Sessions));
            }
            Ok(SlashOutcome::Ask(Work::ResumeById { prefix: owned(arg) }))
        },
        BuiltIn::Status => {
            let overview: KvOverview = crate::slash::status::build_modal(&ctx.info);
            ctx.open_modal(Overlay::Overview(overview));
            Ok(SlashOutcome::Done)
        },
        BuiltIn::Theme => {
            if bare {
                let picker: ThemePicker = ThemePicker::new(ctx.info.config.theme_name.as_str());
                ctx.open_modal(Overlay::Theme(picker));
                return Ok(SlashOutcome::Done);
            }
            match resolve_theme_arg(arg) {
                Err(e) => Err(e),
                Ok(name) => Ok(SlashOutcome::Forward(UserAction::SwapTheme { name: owned(name) })),
            }
        },
    }
}

/// A command is done at once exactly where it opens an overlay.
pub proof fn law_done_commands_open_an_overlay(cmd: BuiltIn, args: Seq<char>, info: LiveSessionInfo)
    ensures
        opens(cmd, args, info) <==> outcome_of(cmd, args, info) == Ok::<OutcomeView, Seq<char>>(
            OutcomeView::Done,
        ),
{
}

/// A command that only reads asks the assistant for nothing.
pub proof fn law_reading_commands_change_nothing(
    cmd: BuiltIn,
    args: Seq<char>,
    info: LiveSessionInfo,
)
    requires
        cmd.kind(args) == SlashKind::ReadOnly,
    ensures
        !(outcome_of(cmd, args, info) matches Ok(o) && o is Forward),
        cmd is Config || cmd is Diff || cmd is Help || cmd is Status || cmd is Effort
            || cmd is Theme,
{
}

/// The commands that only show something read, with or without arguments; the slider and the theme
/// picker read as long as nothing is given; every other use may change something.
pub proof fn law_kinds_of_commands(cmd: BuiltIn, args: Seq<char>)
    ensures
        cmd is Config || cmd is Diff || cmd is Help || cmd is Status ==> cmd.kind(args)
            == SlashKind::ReadOnly,
        cmd is Effort || cmd is Theme ==> (cmd.kind(args) == SlashKind::ReadOnly <==> is_blank(args)),
        cmd is Clear || cmd is Compact || cmd is Delete || cmd is Init || cmd is Model
            || cmd is Rename || cmd is Resume ==> cmd.kind(args) == SlashKind::Mutating,
        cmd.kind(args) != SlashKind::Unknown,
{
}

/// What was typed is shown in the conversation, except of a command that does no more than open an
/// overlay.
pub proof fn law_what_opens_an_overlay_is_not_echoed(
    cmd: BuiltIn,
    args: Seq<char>,
    info: LiveSessionInfo,
)
    ensures
        opens(cmd, args, info) ==> !cmd.echoes(args),
        !is_blank(args) && !(cmd is Config || cmd is Help || cmd is Status) ==> cmd.echoes(args),
        cmd is Clear || cmd is Compact || cmd is Delete || cmd is Diff || cmd is Init ==> cmd.echoes(
            args,
        ),
        cmd is Config || cmd is Help || cmd is Status ==> !cmd.echoes(args),
        is_blank(args) && (cmd is Effort || cmd is Model || cmd is Rename || cmd is Resume
            || cmd is Theme) ==> !cmd.echoes(args),
{
}

/// What a command asks for where it is given nothing.
pub proof fn law_bare_commands(args: Seq<char>, info: LiveSessionInfo)
    requires
        is_blank(args),
    ensures
        ({
            let told = |cmd: BuiltIn| outcome_of(cmd, args, info);
            let forward = |a: ActionView| Ok::<OutcomeView, Seq<char>>(OutcomeView::Forward(a));
            let ask = |w: WorkView| Ok::<OutcomeView, Seq<char>>(OutcomeView::Ask(w));
            &&& told(BuiltIn::Clear) == forward(ActionView::Clear)
            &&& told(BuiltIn::Compact) == forward(ActionView::Compact { instructions: None })
            &&& told(BuiltIn::Config) == ask(WorkView::ConfigFiles)
            &&& told(BuiltIn::Delete) is Err
            &&& told(BuiltIn::Diff) == ask(WorkView::WorkTree)
            &&& told(BuiltIn::Init) == forward(
                ActionView::SubmitPrompt(prompt_text(info.peer.notes_file@, info.peer.name@)),
            )
            &&& told(BuiltIn::Resume) == ask(WorkView::Sessions)
            &&& opens(BuiltIn::Help, args, info)
            &&& opens(BuiltIn::Model, args, info)
            &&& opens(BuiltIn::Rename, args, info)
            &&& opens(BuiltIn::Status, args, info)
            &&& opens(BuiltIn::Theme, args, info)
            &&& opens(BuiltIn::Effort, args, info) <==> info.catalog@.capabilities_of(
                info.config.model_id@,
            ).effort
            &&& told(BuiltIn::Effort) is Err <==> !opens(BuiltIn::Effort, args, info)
        }),
{
}

/// What a command asks for where it is given something: it uses what it is given without the white
/// space around it, and a level or a theme is told in any case of letters.
pub proof fn law_commands_use_what_they_are_given(args: Seq<char>, info: LiveSessionInfo, e: Effort)
    requires
        !is_blank(args),
    ensures
        ({
            let arg = trim_of(args);
            let told = |cmd: BuiltIn| outcome_of(cmd, args, info);
            let forward = |a: ActionView| Ok::<OutcomeView, Seq<char>>(OutcomeView::Forward(a));
            let ask = |w: WorkView| Ok::<OutcomeView, Seq<char>>(OutcomeView::Ask(w));
            let tiered = info.catalog@.capabilities_of(info.config.model_id@).effort;
            &&& told(BuiltIn::Clear) == forward(ActionView::Clear)
            &&& told(BuiltIn::Compact) == forward(ActionView::Compact { instructions: Some(arg) })
            &&& told(BuiltIn::Delete) == ask(WorkView::DeleteById { prefix: arg })
            &&& told(BuiltIn::Resume) == ask(WorkView::ResumeById { prefix: arg })
            &&& told(BuiltIn::Rename) == forward(ActionView::Rename { title: arg })
            &&& resolved_model(info.catalog@, arg) matches Ok(id) ==> told(BuiltIn::Model)
                == forward(ActionView::SwapConfig { model: Some(id), effort: None })
            &&& resolved_model(info.catalog@, arg) matches Err(t) ==> told(BuiltIn::Model) == Err::<
                OutcomeView,
                Seq<char>,
            >(t)
            &&& lower(arg) == e.label() && tiered ==> told(BuiltIn::Effort) == forward(
                ActionView::SwapConfig { model: None, effort: Some(e) },
            )
            &&& !tiered ==> told(BuiltIn::Effort) is Err
            &&& (forall|k: Effort| lower(arg) != #[trigger] k.label()) ==> told(BuiltIn::Effort)
                == Err::<OutcomeView, Seq<char>>(unknown_effort_text(arg))
            &&& theme_names().contains(lower(arg)) ==> told(BuiltIn::Theme) == forward(
                ActionView::SwapTheme { name: lower(arg) },
            )
            &&& !theme_names().contains(lower(arg)) ==> told(BuiltIn::Theme) == Err::<
                OutcomeView,
                Seq<char>,
            >(unknown_theme_text(arg))
        }),
{
    law_effort_names_read_back(e);
    let arg = lower(trim_of(args));
    if forall|k: Effort| arg != #[trigger] k.label() {
        assert(arg != Effort::Low.label());
        assert(arg != Effort::Medium.label());
        assert(arg != Effort::High.label());
        assert(arg != Effort::Xhigh.label());
        assert(arg != Effort::Max.label());
    }
}

/// An argument is completed for the model and for the theme, and for no other command.
pub proof fn law_models_and_themes_are_completed(cmd: BuiltIn, cat: CatalogView, typed: Seq<char>)
    ensures
        cmd is Model ==> cmd.completions(cat, typed) == completed(
            cat.listed,
            cat.listed.map_values(|id: Seq<char>| cat.shown_name(id)),
            typed,
        ),
        cmd is Theme ==> cmd.completions(cat, typed) == completed(
            theme_names(),
            theme_descriptions(),
            typed,
        ),
        !(cmd is Model || cmd is Theme) ==> cmd.completions(cat, typed).len() == 0,
{
    assert(listed_names(cat) =~= cat.listed.map_values(|id: Seq<char>| cat.shown_name(id)));
}

/// The overlay of a command is its own, and shows what stands now.
pub proof fn law_overlay_is_that_of_the_command(
    cmd: BuiltIn,
    info: LiveSessionInfo,
    title: Option<String>,
    overlay: Overlay,
)
    requires
        is_opened(cmd, info, title, overlay),
    ensures
        cmd is Rename ==> overlay is Rename && ({
            let text = overlay->Rename_0.text();
            &&& title is None ==> text.len() == 0
            &&& title matches Some(t) ==> (t@.len() <= 80 ==> text == t@) && (t@.len() > 80 ==> text
                == t@.take(80))
        }),
        cmd is Theme ==> overlay is Theme && overlay->Theme_0.is_start(info.config.theme_name@),
        cmd is Effort ==> overlay is Effort && overlay->Effort_0.is_start(info),
        cmd is Model ==> overlay is Model && overlay->Model_0.is_start(info),
        cmd is Help || cmd is Status ==> overlay is Overview,
        cmd is Help ==> overlay->Overview_0@ == crate::slash::help::help_view(
            rows_of(built_in_list(), info.peer.notes_file@),
        ),
        cmd is Status ==> overlay->Overview_0@ == crate::slash::status::status_view(info),
{
}

/// Each command has its row, in its order, with its name and what is told of it.
pub proof fn law_rows_are_those_of_the_commands(
    commands: Seq<BuiltIn>,
    notes_file: Seq<char>,
    i: int,
)
    requires
        0 <= i < commands.len(),
    ensures
        rows_of(commands, notes_file).len() == commands.len(),
        rows_of(commands, notes_file)[i].name == commands[i].named(),
        rows_of(commands, notes_file)[i].aliases == commands[i].nicknames(),
        rows_of(commands, notes_file)[i].description == commands[i].described(notes_file),
        rows_of(commands, notes_file)[i].usage == commands[i].placeholder(),
{
}

} // verus!
