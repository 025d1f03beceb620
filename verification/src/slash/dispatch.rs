//! From a typed command to what comes of it.

use vstd::prelude::*;
use vstd::string::*;

use crate::event::{ActionView, UserAction};
use crate::model::Catalog;
use crate::session::entry::SessionInfo;
use crate::session::state::opt_str_view;
use crate::slash::command::{
    built_in_list, built_ins, command_for, execute, is_opened, law_done_commands_open_an_overlay,
    lookup, opens, outcome_of, rows, rows_of, BuiltIn, OutcomeView, Overlay, SlashContext,
    SlashOutcome, Work, WorkView,
};
use crate::slash::config::{config_view, ConfigFile};
use crate::slash::context::{ChatLog, ChatView, LiveSessionInfo};
use crate::slash::delete::{is_question, meant_is_timed, resolve_prefix_to_info, DeleteStep};
use crate::slash::diff::{diff_entry, execute_in};
use crate::slash::matcher::{filter_and_rank, is_ranking, match_views, MatchedCommand};
use crate::slash::parser::Parsed;
use crate::slash::registry::{
    completion_views, law_lookup_is_complete, looked_up, named, nicknamed, ArgCompletion,
    CommandRow, RowView, SlashKind,
};
use crate::slash::resume::{
    all_timed, can_tell_of, load_failure, meant, resolve_prefix, session_row_views, Lookup,
    LookupView, ResumePicker,
};
use crate::text::{join, owned};

verus! {

// ── Lookups ──

/// The commands that a query finds, ranked. `notes_file` is the file that a peer keeps its notes
/// in.
pub fn filter_built_ins(query: &str, notes_file: &str) -> (r: Vec<MatchedCommand>)
    ensures
        is_ranking(query@, rows_of(built_in_list(), notes_file@), match_views(r@)),
{
    let table: Vec<CommandRow> = rows(&built_ins(), notes_file);
    filter_and_rank(query, &table)
}

/// What the argument of a command can be completed to; nothing where there is no such command.
pub fn complete_arg_for(cat: &Catalog, cmd_name: &str, prefix: &str) -> (r: Vec<ArgCompletion>)
    ensures
        completion_views(r@) == match command_for(built_in_list(), cmd_name@) {
            Some(c) => c.completions(cat@, prefix@),
            None => seq![],
        },
{
    match lookup(&built_ins(), cmd_name) {
        Some(c) => c.complete_arg(cat, prefix),
        None => {
            let r: Vec<ArgCompletion> = Vec::new();
            assert(completion_views(r@) =~= seq![]);
            r
        },
    }
}

/// What the arguments of a command look like, where there is such a command and it takes any.
pub fn arg_placeholder_for(cmd_name: &str) -> (r: Option<&'static str>)
    ensures
        match command_for(built_in_list(), cmd_name@) {
            Some(c) => opt_str_view(r) == c.placeholder(),
            None => r is None,
        },
{
    match lookup(&built_ins(), cmd_name) {
        Some(c) => c.usage(),
        None => None,
    }
}

/// Whether the typed line is kept in the conversation. One that is no command is, so that the
/// error below it can be understood.
pub fn echoes_input(parsed: &Parsed) -> (r: bool)
    ensures
        r == match command_for(built_in_list(), parsed.name@) {
            Some(c) => c.echoes(parsed.args@),
            None => true,
        },
{
    match lookup(&built_ins(), parsed.name.as_str()) {
        Some(c) => c.echoes_input(parsed.args.as_str()),
        None => true,
    }
}

/// Whether the typed command can run while the assistant is busy.
pub open spec fn kind_in(commands: Seq<BuiltIn>, name: Seq<char>, args: Seq<char>) -> SlashKind {
    match command_for(commands, name) {
        Some(c) => c.kind(args),
        None => SlashKind::Unknown,
    }
}

/// Whether the typed command can run while the assistant is busy.
pub fn classify(parsed: &Parsed) -> (r: SlashKind)
    ensures
        r == kind_in(built_in_list(), parsed.name@, parsed.args@),
{
    classify_in(&built_ins(), parsed)
}

/// Whether the typed command, one of `commands`, can run while the assistant is busy.
pub fn classify_in(commands: &Vec<BuiltIn>, parsed: &Parsed) -> (r: SlashKind)
    ensures
        r == kind_in(commands@, parsed.name@, parsed.args@),
        r == SlashKind::Unknown <==> command_for(commands@, parsed.name@) is None,
{
    match lookup(commands, parsed.name.as_str()) {
        None => SlashKind::Unknown,
        Some(c) => c.classify(parsed.args.as_str()),
    }
}

// ── Dispatch ──

/// The names of the commands, each behind a slash.
pub open spec fn slashed(commands: Seq<BuiltIn>) -> Seq<Seq<char>> {
    commands.map_values(|c: BuiltIn| "/"@ + c.named())
}

/// The names of the commands, as they are listed to the user.
pub fn format_available(commands: &Vec<BuiltIn>) -> (r: String)
    ensures
        r@ == join(slashed(commands@), ", "@),
{
    let ghost all = slashed(commands@);
    let mut out: String = String::new();
    let mut i: usize = 0;
    assert(all.take(0) =~= seq![]);
    while i < commands.len()
        invariant
            i <= commands.len(),
            all == slashed(commands@),
            out@ == join(all.take(i as int), ", "@),
        decreases commands.len() - i,
    {
        assert(all.take(i as int + 1).drop_last() =~= all.take(i as int));
        assert(all.take(i as int + 1).last() == "/"@ + commands@[i as int].named());
        if i > 0 {
            out.append(", ");
        }
        let ghost before = out@;
        out.append("/");
        out.append(commands[i].name());
        assert(out@ =~= before + ("/"@ + commands@[i as int].named()));
        i = i + 1;
    }
    assert(all.take(all.len() as int) =~= all);
    out
}

/// What is said of a name that is no command.
pub open spec fn unknown_command_text(commands: Seq<BuiltIn>, name: Seq<char>) -> Seq<char> {
    "unknown command: /"@ + name + ". Available: "@ + join(slashed(commands), ", "@) + ". Use //"@
        + name + " to send the literal text."@
}

fn unknown_command(commands: &Vec<BuiltIn>, name: &str) -> (r: String)
    ensures
        r@ == unknown_command_text(commands@, name@),
{
    let list: String = format_available(commands);
    let mut out: String = "unknown command: /".to_owned();
    out.append(name);
    out.append(". Available: ");
    out.append(list.as_str());
    out.append(". Use //");
    out.append(name);
    out.append(" to send the literal text.");
    out
}

/// What comes of a command.
#[derive(Debug, PartialEq, Eq)]
pub enum Dispatched {
    /// Nothing more.
    Nothing,
    /// Something that the assistant is asked to do.
    Action(UserAction),
    /// Something that has to be looked up first.
    Work(Work),
}

/// What comes of a command, by its characters.
#[verifier::ext_equal]
pub ghost enum DispatchedView {
    Nothing,
    Action(ActionView),
    Work(WorkView),
}

impl View for Dispatched {
    type V = DispatchedView;

    open spec fn view(&self) -> DispatchedView {
        match self {
            Dispatched::Nothing => DispatchedView::Nothing,
            Dispatched::Action(a) => DispatchedView::Action(a@),
            Dispatched::Work(w) => DispatchedView::Work(w@),
        }
    }
}

/// What comes of an outcome.
pub open spec fn settled(outcome: Result<OutcomeView, Seq<char>>) -> DispatchedView {
    match outcome {
        Ok(OutcomeView::Done) => DispatchedView::Nothing,
        Ok(OutcomeView::Forward(a)) => DispatchedView::Action(a),
        Ok(OutcomeView::Ask(w)) => DispatchedView::Work(w),
        Err(_) => DispatchedView::Nothing,
    }
}

/// The conversation after an outcome: a failure is told under the name that was typed.
pub open spec fn chat_after(
    chat: Seq<ChatView>,
    name: Seq<char>,
    outcome: Result<OutcomeView, Seq<char>>,
) -> Seq<ChatView> {
    match outcome {
        Ok(_) => chat,
        Err(e) => chat.push(ChatView::Error("/"@ + name + ": "@ + e)),
    }
}

/// An outcome by its characters.
pub open spec fn outcome_view(outcome: Result<SlashOutcome, String>) -> Result<
    OutcomeView,
    Seq<char>,
> {
    match outcome {
        Ok(o) => Ok(o@),
        Err(e) => Err(e@),
    }
}

/// Takes the outcome of a command: a failure is told under the name that was typed.
pub fn settle(name: &str, outcome: Result<SlashOutcome, String>, chat: &mut ChatLog) -> (r:
    Dispatched)
    ensures
        r@ == settled(outcome_view(outcome)),
        final(chat)@ == chat_after(old(chat)@, name@, outcome_view(outcome)),
{
    match outcome {
        Ok(SlashOutcome::Done) => Dispatched::Nothing,
        Ok(SlashOutcome::Forward(a)) => Dispatched::Action(a),
        Ok(SlashOutcome::Ask(w)) => Dispatched::Work(w),
        Err(e) => {
            let mut out: String = "/".to_owned();
            out.append(name);
            out.append(": ");
            out.append(e.as_str());
            chat.push_error(out.as_str());
            Dispatched::Nothing
        },
    }
}

/// Finds the command that was typed and carries it out.
pub fn dispatch(parsed: &Parsed, ctx: &mut SlashContext) -> (r: Dispatched)
    requires
        opens_overlay(built_in_list(), *parsed, old(ctx).info) ==> old(ctx).modal is None,
    ensures
        is_dispatched(built_in_list(), *parsed, *old(ctx), *final(ctx), r@),
{
    dispatch_with(&built_ins(), parsed, ctx)
}

/// Whether what was typed is one of `commands`, and opens an overlay by itself.
pub open spec fn opens_overlay(
    commands: Seq<BuiltIn>,
    parsed: Parsed,
    info: LiveSessionInfo,
) -> bool {
    command_for(commands, parsed.name@) matches Some(c) && opens(c, parsed.args@, info)
}

/// Whether the command, one of `commands`, was carried out: an unknown one and a failed one are
/// told, and nothing else is left in the conversation.
pub open spec fn is_dispatched(
    commands: Seq<BuiltIn>,
    parsed: Parsed,
    before: SlashContext,
    after: SlashContext,
    r: DispatchedView,
) -> bool {
    &&& after.info == before.info
    &&& after.title == before.title
    &&& match command_for(commands, parsed.name@) {
        None => {
            &&& r == DispatchedView::Nothing
            &&& after.chat@ == before.chat@.push(
                ChatView::Error(unknown_command_text(commands, parsed.name@)),
            )
            &&& after.modal == before.modal
        },
        Some(c) => {
            let outcome = outcome_of(c, parsed.args@, before.info);
            &&& r == settled(outcome)
            &&& after.chat@ == chat_after(before.chat@, parsed.name@, outcome)
            &&& if opens(c, parsed.args@, before.info) {
                after.modal matches Some(m) && is_opened(c, before.info, before.title, m)
            } else {
                after.modal == before.modal
            }
        },
    }
}

/// Finds the command that was typed among `commands` and carries it out.
pub fn dispatch_with(commands: &Vec<BuiltIn>, parsed: &Parsed, ctx: &mut SlashContext) -> (r:
    Dispatched)
    requires
        opens_overlay(commands@, *parsed, old(ctx).info) ==> old(ctx).modal is None,
    ensures
        is_dispatched(commands@, *parsed, *old(ctx), *final(ctx), r@),
{
    match lookup(commands, parsed.name.as_str()) {
        None => {
            let text: String = unknown_command(commands, parsed.name.as_str());
            ctx.chat.push_error(text.as_str());
            Dispatched::Nothing
        },
        Some(c) => {
            let outcome: Result<SlashOutcome, String> = execute(c, parsed.args.as_str(), ctx);
            settle(parsed.name.as_str(), outcome, &mut ctx.chat)
        },
    }
}

// ── After the work ──

/// Opens the overview of the configuration.
pub fn show_config(
    user: &Option<ConfigFile>,
    project: &Option<ConfigFile>,
    home: Option<&str>,
    ctx: &mut SlashContext,
)
    requires
        old(ctx).modal is None,
    ensures
        final(ctx).chat == old(ctx).chat,
        final(ctx).info == old(ctx).info,
        final(ctx).title == old(ctx).title,
        final(ctx).modal matches Some(Overlay::Overview(o)) && o@ == config_view(
            old(ctx).info,
            *user,
            *project,
            opt_str_view(home),
        ),
{
    let overview = crate::slash::config::build_modal(&ctx.info, user, project, home);
    ctx.open_modal(Overlay::Overview(overview));
}

/// Shows the diff, or tells why there is none.
pub fn show_diff(name: &str, diff: Result<String, String>, ctx: &mut SlashContext)
    ensures
        final(ctx).info == old(ctx).info,
        final(ctx).title == old(ctx).title,
        final(ctx).modal == old(ctx).modal,
        final(ctx).chat@ == match diff {
            Ok(text) => old(ctx).chat@.push(diff_entry(text@)),
            Err(e) => chat_after(
                old(ctx).chat@,
                name@,
                Err::<OutcomeView, Seq<char>>(e@),
            ),
        },
{
    match diff {
        Ok(text) => {
            execute_in(text, &mut ctx.chat);
        },
        Err(e) => {
            let _ = settle(name, Err(e), &mut ctx.chat);
        },
    }
}

/// Opens the picker over the sessions of the project, as they were listed.
pub fn show_sessions(
    listing: Result<Vec<SessionInfo>, String>,
    local_offset: i32,
    home: Option<&str>,
    ctx: &mut SlashContext,
)
    requires
        old(ctx).modal is None,
        listing matches Ok(sessions) ==> all_timed(sessions@, local_offset),
    ensures
        final(ctx).chat == old(ctx).chat,
        final(ctx).info == old(ctx).info,
        final(ctx).title == old(ctx).title,
        final(ctx).modal matches Some(Overlay::Resume(p)) && {
            &&& p.live() == old(ctx).info.session_id@
            &&& !p.is_wide()
            &&& p.typed() == Seq::<char>::empty()
            &&& p.row() == 0
            &&& session_row_views(p.rows()) == p.listed(listing, opt_str_view(home))
            &&& p.failure() == match listing {
                Ok(_) => None,
                Err(e) => Some(load_failure(e@)),
            }
        },
{
    let live: String = owned(ctx.info.session_id.as_str());
    let picker: ResumePicker = ResumePicker::new(listing, live, local_offset, home);
    ctx.open_modal(Overlay::Resume(picker));
}

/// What comes of a prefix that a session is to be resumed by.
#[derive(Debug, PartialEq, Eq)]
pub enum Found {
    /// Something that the assistant is asked to do.
    Action(UserAction),
    /// Nothing in the project; the sessions of all projects are to be listed.
    Widen,
    /// Nothing more: it was told why, or a question was put.
    Nothing,
}

/// Asks for the session that a prefix means, or tells why none can be told.
pub fn resume_by_id(
    name: &str,
    prefix: &str,
    scoped: &Result<Vec<SessionInfo>, String>,
    widened: &Option<Result<Vec<SessionInfo>, String>>,
    ctx: &mut SlashContext,
) -> (r: Found)
    requires
        can_tell_of(*scoped, *widened, prefix@, old(ctx).info.session_id@),
    ensures
        final(ctx).info == old(ctx).info,
        final(ctx).title == old(ctx).title,
        final(ctx).modal == old(ctx).modal,
        match meant(*scoped, *widened, prefix@, old(ctx).info.session_id@) {
            LookupView::Widen => r is Widen && final(ctx).chat == old(ctx).chat,
            LookupView::Failed(t) => r is Nothing && final(ctx).chat@ == chat_after(
                old(ctx).chat@,
                name@,
                Err::<OutcomeView, Seq<char>>(t),
            ),
            LookupView::Found { all, index } => {
                &&& final(ctx).chat == old(ctx).chat
                &&& r matches Found::Action(a)
                &&& a@ == ActionView::Resume {
                    session_id: (if all {
                        (widened->0)->Ok_0@[index]
                    } else {
                        scoped->Ok_0@[index]
                    }).session_id@,
                }
                &&& a@ != ActionView::Resume { session_id: old(ctx).info.session_id@ }
            },
        },
{
    match resolve_prefix(scoped, widened, prefix, ctx.info.session_id.as_str()) {
        Lookup::Widen => Found::Widen,
        Lookup::Failed(e) => {
            let _ = settle(name, Err(e), &mut ctx.chat);
            Found::Nothing
        },
        Lookup::Found { all, index } => {
            if all {
                match widened {
                    Some(Ok(sessions)) => Found::Action(
                        UserAction::Resume {
                            session_id: owned(sessions[index].session_id.as_str()),
                        },
                    ),
                    _ => Found::Widen,
                }
            } else {
                match scoped {
                    Ok(sessions) => Found::Action(
                        UserAction::Resume {
                            session_id: owned(sessions[index].session_id.as_str()),
                        },
                    ),
                    Err(_) => Found::Widen,
                }
            }
        },
    }
}

/// Puts the question about the session that a prefix means, or tells why none can be told.
pub fn delete_by_id(
    name: &str,
    prefix: &str,
    scoped: &Result<Vec<SessionInfo>, String>,
    widened: &Option<Result<Vec<SessionInfo>, String>>,
    local_offset: i32,
    home: Option<&str>,
    ctx: &mut SlashContext,
) -> (r: Found)
    requires
        meant(*scoped, *widened, prefix@, old(ctx).info.session_id@) is Found ==> old(
            ctx,
        ).modal is None,
        can_tell_of(*scoped, *widened, prefix@, old(ctx).info.session_id@),
        meant_is_timed(*scoped, *widened, prefix@, old(ctx).info.session_id@, local_offset),
    ensures
        final(ctx).info == old(ctx).info,
        final(ctx).title == old(ctx).title,
        match meant(*scoped, *widened, prefix@, old(ctx).info.session_id@) {
            LookupView::Widen => r is Widen && final(ctx).chat == old(ctx).chat && final(
                ctx).modal == old(ctx).modal,
            LookupView::Failed(t) => r is Nothing && final(ctx).modal == old(ctx).modal && final(
                ctx).chat@
                == chat_after(old(ctx).chat@, name@, Err::<OutcomeView, Seq<char>>(t)),
            LookupView::Found { all, index } => {
                &&& r is Nothing
                &&& final(ctx).chat == old(ctx).chat
                &&& final(ctx).modal matches Some(Overlay::ConfirmDelete(q))
                &&& is_question(
                    q@,
                    (if all {
                        (widened->0)->Ok_0@[index]
                    } else {
                        scoped->Ok_0@[index]
                    }),
                    old(ctx).info.session_id@,
                    local_offset,
                    opt_str_view(home),
                )
                &&& q@.session_id != old(ctx).info.session_id@
            },
        },
{
    let step: DeleteStep = resolve_prefix_to_info(
        scoped,
        widened,
        prefix,
        ctx.info.session_id.as_str(),
        local_offset,
        home,
    );
    match step {
        DeleteStep::Widen => Found::Widen,
        DeleteStep::Failed(e) => {
            let _ = settle(name, Err(e), &mut ctx.chat);
            Found::Nothing
        },
        DeleteStep::Confirm(q) => {
            ctx.open_modal(Overlay::ConfirmDelete(q));
            Found::Nothing
        },
    }
}

// ── Laws ──

/// No two commands have one name, no alias is the name of a command, and every command has a
/// name and a description.
pub proof fn law_names_are_unique(notes_file: Seq<char>)
    ensures
        forall|i: int, j: int|
            0 <= i < j < built_in_list().len() ==> (#[trigger] built_in_list()[i]).named() != (
            #[trigger] built_in_list()[j]).named(),
        forall|i: int, j: int|
            0 <= i < built_in_list().len() && 0 <= j < built_in_list().len() ==> !(
            #[trigger] built_in_list()[i]).nicknames().contains(
                (#[trigger] built_in_list()[j]).named(),
            ),
        forall|i: int|
            0 <= i < built_in_list().len() ==> (#[trigger] built_in_list()[i]).named().len() > 0
                && built_in_list()[i].described(notes_file).len() > 0,
{
    reveal_names();
    assert forall|i: int|
        0 <= i < built_in_list().len() implies (#[trigger] built_in_list()[i]).described(
        notes_file,
    ).len() > 0 by {
        reveal_strlit("Reset the conversation context");
        reveal_strlit("Compress conversation context into a summary");
        reveal_strlit("Show resolved config");
        reveal_strlit("Delete a saved session");
        reveal_strlit(
            "Show uncommitted working-tree changes (`git diff HEAD`) and the names of any untracked files",
        );
        reveal_strlit("Open the effort slider or switch directly with `/effort <level>`");
        reveal_strlit("List the available slash commands and their usage hints");
        reveal_strlit("Generate or update the project's `AGENTS.md` / `");
        reveal_strlit("Switch the model");
        reveal_strlit(
            "Rename the current session — `/rename` for a modal, `/rename <title>` to apply directly",
        );
        reveal_strlit("Resume a previous session");
        reveal_strlit("Show current session info");
        reveal_strlit("Open the theme picker or switch directly with `/theme <name>`");
    }
}

/// What sets the names and aliases apart: a length, or a character.
proof fn reveal_names()
    ensures
        forall|i: int, j: int|
            0 <= i < j < built_in_list().len() ==> (#[trigger] built_in_list()[i]).named() != (
            #[trigger] built_in_list()[j]).named(),
        forall|i: int, j: int|
            0 <= i < built_in_list().len() && 0 <= j < built_in_list().len() ==> !(
            #[trigger] built_in_list()[i]).nicknames().contains(
                (#[trigger] built_in_list()[j]).named(),
            ),
        forall|i: int|
            0 <= i < built_in_list().len() ==> (#[trigger] built_in_list()[i]).named().len() > 0,
{
    reveal_strlit("clear");
    reveal_strlit("compact");
    reveal_strlit("config");
    reveal_strlit("delete");
    reveal_strlit("diff");
    reveal_strlit("effort");
    reveal_strlit("help");
    reveal_strlit("init");
    reveal_strlit("model");
    reveal_strlit("rename");
    reveal_strlit("resume");
    reveal_strlit("status");
    reveal_strlit("theme");
    reveal_strlit("new");
    reveal_strlit("reset");
    reveal_strlit("continue");
    assert forall|i: int, j: int| 0 <= i < j < built_in_list().len() implies (
    #[trigger] built_in_list()[i]).named() != (#[trigger] built_in_list()[j]).named() by {
        let a = built_in_list()[i].named();
        let b = built_in_list()[j].named();
        assert(a.len() != b.len() || a[0] != b[0] || a[2] != b[2]);
    }
    assert forall|i: int, j: int|
        0 <= i < built_in_list().len() && 0 <= j < built_in_list().len() implies !(
    #[trigger] built_in_list()[i]).nicknames().contains(
        (#[trigger] built_in_list()[j]).named(),
    ) by {
        let b = built_in_list()[j].named();
        assert("new"@.len() == 3 && "reset"@.len() == 5 && "continue"@.len() == 8);
        assert(b.len() != 3 && b.len() != 8);
        assert(b.len() == 5 ==> b[0] != 'r');
    }
}

/// Every command is found by its name and by each of its aliases.
pub proof fn law_commands_are_found(cmd: BuiltIn)
    ensures
        command_for(built_in_list(), cmd.named()) == Some(cmd),
        forall|k: int|
            0 <= k < cmd.nicknames().len() ==> command_for(
                built_in_list(),
                #[trigger] cmd.nicknames()[k],
            ) == Some(cmd),
{
    let list = built_in_list();
    let table = rows_of(list, ""@);
    reveal_names();
    let at: int = match cmd {
        BuiltIn::Clear => 0,
        BuiltIn::Compact => 1,
        BuiltIn::Config => 2,
        BuiltIn::Delete => 3,
        BuiltIn::Diff => 4,
        BuiltIn::Effort => 5,
        BuiltIn::Help => 6,
        BuiltIn::Init => 7,
        BuiltIn::Model => 8,
        BuiltIn::Rename => 9,
        BuiltIn::Resume => 10,
        BuiltIn::Status => 11,
        BuiltIn::Theme => 12,
    };
    assert(list[at] == cmd);
    assert(table[at].name == cmd.named());
    law_lookup_is_complete(table, cmd.named());
    let k = looked_up(table, cmd.named())->0;
    assert(table[k].name == list[k].named());
    assert(k == at) by {
        if k < at {
            assert(list[k].named() != list[at].named());
        }
    }
    assert forall|n: int| 0 <= n < cmd.nicknames().len() implies command_for(
        list,
        #[trigger] cmd.nicknames()[n],
    ) == Some(cmd) by {
        let alias = cmd.nicknames()[n];
        law_lookup_is_complete(table, alias);
        assert(cmd.nicknames().contains(alias));
        assert(table[at].aliases.contains(alias));
        let m = looked_up(table, alias)->0;
        assert(table[m].name == list[m].named());
        assert(table[m].aliases == list[m].nicknames());
        assert(!cmd.nicknames().contains(list[m].named()));
        assert(list[m].nicknames().contains(alias));
        reveal_strlit("new");
        reveal_strlit("reset");
        reveal_strlit("continue");
        let other = list[m];
        let w = choose|w: int| 0 <= w < other.nicknames().len() && other.nicknames()[w] == alias;
        assert("new"@.len() == 3 && "reset"@.len() == 5 && "continue"@.len() == 8);
        assert(other == BuiltIn::Clear ==> alias.len() == 3 || alias.len() == 5);
        assert(other == BuiltIn::Resume ==> alias.len() == 8);
        assert(cmd == BuiltIn::Clear ==> alias.len() == 3 || alias.len() == 5);
        assert(cmd == BuiltIn::Resume ==> alias.len() == 8);
        assert(other == cmd);
    }
}

/// A name that no command has is told as an error that names the commands there are, and nothing
/// else comes of it.
pub proof fn law_unknown_commands_are_told(
    commands: Seq<BuiltIn>,
    parsed: Parsed,
    before: SlashContext,
    after: SlashContext,
    r: DispatchedView,
)
    requires
        is_dispatched(commands, parsed, before, after, r),
        command_for(commands, parsed.name@) is None,
    ensures
        r == DispatchedView::Nothing,
        after.modal == before.modal,
        after.info == before.info,
        after.title == before.title,
        after.chat@ == before.chat@ + seq![
            ChatView::Error(
                "unknown command: /"@ + parsed.name@ + ". Available: "@ + join(
                    commands.map_values(|c: BuiltIn| "/"@ + c.named()),
                    ", "@,
                ) + ". Use //"@ + parsed.name@ + " to send the literal text."@,
            ),
        ],
        kind_in(commands, parsed.name@, parsed.args@) == SlashKind::Unknown,
{
    assert(slashed(commands) =~= commands.map_values(|c: BuiltIn| "/"@ + c.named()));
    assert(after.chat@ =~= before.chat@ + seq![
        ChatView::Error(unknown_command_text(commands, parsed.name@)),
    ]);
}

/// What a command asks for is handed on; where it fails, that is told as an error under the name it
/// was called by, and nothing is handed on.
pub proof fn law_outcomes_are_handed_on(
    commands: Seq<BuiltIn>,
    parsed: Parsed,
    before: SlashContext,
    after: SlashContext,
    r: DispatchedView,
)
    requires
        is_dispatched(commands, parsed, before, after, r),
        command_for(commands, parsed.name@) is Some,
    ensures
        ({
            let cmd = command_for(commands, parsed.name@)->0;
            let outcome = outcome_of(cmd, parsed.args@, before.info);
            &&& after.info == before.info && after.title == before.title
            &&& outcome is Ok ==> after.chat@ == before.chat@
            &&& outcome matches Err(e) ==> after.chat@ == before.chat@ + seq![
                ChatView::Error("/"@ + parsed.name@ + ": "@ + e),
            ]
            &&& r is Action <==> (outcome matches Ok(o) && o is Forward)
            &&& r matches DispatchedView::Action(a) ==> outcome == Ok::<OutcomeView, Seq<char>>(
                OutcomeView::Forward(a),
            )
            &&& r is Work <==> (outcome matches Ok(o) && o is Ask)
            &&& r matches DispatchedView::Work(w) ==> outcome == Ok::<OutcomeView, Seq<char>>(
                OutcomeView::Ask(w),
            )
            &&& outcome != Ok::<OutcomeView, Seq<char>>(OutcomeView::Done) ==> after.modal
                == before.modal
            &&& outcome == Ok::<OutcomeView, Seq<char>>(OutcomeView::Done) ==> after.modal is Some
                && is_opened(cmd, before.info, before.title, after.modal->0)
            &&& kind_in(commands, parsed.name@, parsed.args@) == cmd.kind(parsed.args@)
        }),
{
    let cmd = command_for(commands, parsed.name@)->0;
    law_done_commands_open_an_overlay(cmd, parsed.args@, before.info);
    let outcome = outcome_of(cmd, parsed.args@, before.info);
    if let Err(e) = outcome {
        assert(after.chat@ =~= before.chat@ + seq![
            ChatView::Error("/"@ + parsed.name@ + ": "@ + e),
        ]);
    }
}

} // verus!
