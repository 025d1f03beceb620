//! `/config`: what is configured, and where it comes from.

use vstd::prelude::*;
use vstd::string::*;

use crate::config::{
    compaction_text, display_auto_compaction, display_bool, display_effort,
    display_max_tool_rounds, effort_text, rounds_text, switch_text,
};
use crate::home::{tildified, tildify};
use crate::session::state::opt_str_view;
use crate::slash::context::LiveSessionInfo;
use crate::text::{decimal, decimal_of, owned};
use crate::tui::kv_overview::{pair_views, KvOverview, KvSection, OverviewView, SectionView};

verus! {

/// A file that is read for configuration, and whether it is there.
#[derive(Debug, PartialEq, Eq)]
pub struct ConfigFile {
    pub path: String,
    pub exists: bool,
}

/// How a file is shown.
pub open spec fn file_text(file: Option<ConfigFile>, home: Option<Seq<char>>) -> Seq<char> {
    match file {
        None => "(not configured)"@,
        Some(f) => if f.exists {
            tildified(f.path@, home)
        } else {
            tildified(f.path@, home) + " (not found)"@
        },
    }
}

/// Shows a file: its path, and where it is not there, that it was not found.
pub fn display_path(file: &Option<ConfigFile>, home: Option<&str>) -> (r: String)
    ensures
        r@ == file_text(*file, opt_str_view(home)),
{
    match file {
        None => "(not configured)".to_owned(),
        Some(f) => {
            let mut out: String = tildify(f.path.as_str(), home);
            if !f.exists {
                out.append(" (not found)");
            }
            out
        },
    }
}

/// The values that are in force.
pub open spec fn resolved_rows(info: LiveSessionInfo, home: Option<Seq<char>>) -> Seq<
    (Seq<char>, Seq<char>),
> {
    seq![
        ("Model"@, info.catalog@.shown_name(info.config.model_id@)),
        ("Model ID"@, info.config.model_id@),
        ("Effort"@, effort_text(info.config.effort)),
        ("Auth"@, info.config.auth_label@),
        ("Base URL"@, info.config.base_url@),
        (
            "Extra CA Certs"@,
            match info.config.extra_ca_certs {
                None => "(none)"@,
                Some(p) => tildified(p@, home),
            },
        ),
        ("Max Tokens"@, decimal(info.config.max_tokens as nat)),
        ("Max Tool Rounds"@, rounds_text(info.config.max_tool_rounds)),
        ("Prompt Cache TTL"@, info.config.prompt_cache_ttl.label()),
        ("Auto Compaction"@, compaction_text(info.config.auto_compaction)),
        ("Show Thinking"@, switch_text(info.config.show_thinking)),
    ]
}

/// The overview of the configuration.
pub open spec fn config_view(
    info: LiveSessionInfo,
    user: Option<ConfigFile>,
    project: Option<ConfigFile>,
    home: Option<Seq<char>>,
) -> OverviewView {
    OverviewView {
        title: "Configuration"@,
        sections: seq![
            SectionView { heading: Some("Resolved"@), rows: resolved_rows(info, home) },
            SectionView {
                heading: Some("Source Files"@),
                rows: seq![
                    ("User"@, file_text(user, home)),
                    ("Project"@, file_text(project, home)),
                ],
            },
        ],
    }
}

/// The overview of the configuration: the values that are in force, and the files that were read
/// for them.
pub fn build_modal(
    info: &LiveSessionInfo,
    user: &Option<ConfigFile>,
    project: &Option<ConfigFile>,
    home: Option<&str>,
) -> (r: KvOverview)
    ensures
        r@ == config_view(*info, *user, *project, opt_str_view(home)),
{
    let certs: String = match &info.config.extra_ca_certs {
        None => "(none)".to_owned(),
        Some(p) => tildify(p.as_str(), home),
    };
    let resolved: Vec<(String, String)> = vec![
        ("Model".to_owned(), info.display_name()),
        ("Model ID".to_owned(), owned(info.config.model_id.as_str())),
        ("Effort".to_owned(), display_effort(info.config.effort)),
        ("Auth".to_owned(), owned(info.config.auth_label)),
        ("Base URL".to_owned(), owned(info.config.base_url.as_str())),
        ("Extra CA Certs".to_owned(), certs),
        ("Max Tokens".to_owned(), decimal_of(info.config.max_tokens as u64)),
        ("Max Tool Rounds".to_owned(), display_max_tool_rounds(info.config.max_tool_rounds)),
        ("Prompt Cache TTL".to_owned(), owned(info.config.prompt_cache_ttl.name())),
        ("Auto Compaction".to_owned(), display_auto_compaction(info.config.auto_compaction)),
        ("Show Thinking".to_owned(), owned(display_bool(info.config.show_thinking))),
    ];
    assert(pair_views(resolved@) =~= resolved_rows(*info, opt_str_view(home)));
    let files: Vec<(String, String)> = vec![
        ("User".to_owned(), display_path(user, home)),
        ("Project".to_owned(), display_path(project, home)),
    ];
    let ghost want = config_view(*info, *user, *project, opt_str_view(home));
    assert(pair_views(files@) =~= want.sections[1].rows);
    let sections: Vec<KvSection> = vec![
        KvSection { heading: Some("Resolved"), rows: resolved },
        KvSection { heading: Some("Source Files"), rows: files },
    ];
    assert(sections@.map_values(|s: KvSection| s@) =~= want.sections);
    KvOverview::new("Configuration", sections)
}

/// A configuration file is told by its path, with a note where it is not there; where there is no
/// place for one, that is told.
pub proof fn law_files_are_told_by_their_path(file: ConfigFile, home: Option<Seq<char>>)
    ensures
        file_text(None, home) == "(not configured)"@,
        file.exists ==> file_text(Some(file), home) == tildified(file.path@, home),
        !file.exists ==> file_text(Some(file), home) == tildified(file.path@, home)
            + " (not found)"@,
{
}

/// The configuration tells the model, by name and identifier, what was resolved for it, and the
/// files of the user and of the project.
pub proof fn law_configuration_tells_what_was_resolved(
    info: LiveSessionInfo,
    user: Option<ConfigFile>,
    project: Option<ConfigFile>,
    home: Option<Seq<char>>,
)
    ensures
        ({
            let view = config_view(info, user, project, home);
            let set = info.config;
            &&& view.title == "Configuration"@ && view.sections.len() == 2
            &&& view.sections[0].heading == Some("Resolved"@)
            &&& view.sections[1].heading == Some("Source Files"@)
            &&& view.sections[0].rows =~= seq![
                ("Model"@, info.catalog@.shown_name(set.model_id@)),
                ("Model ID"@, set.model_id@),
                ("Effort"@, effort_text(set.effort)),
                ("Auth"@, set.auth_label@),
                ("Base URL"@, set.base_url@),
                ("Extra CA Certs"@, if set.extra_ca_certs is Some {
                    tildified(set.extra_ca_certs->0@, home)
                } else {
                    "(none)"@
                }),
                ("Max Tokens"@, decimal(set.max_tokens as nat)),
                ("Max Tool Rounds"@, rounds_text(set.max_tool_rounds)),
                ("Prompt Cache TTL"@, set.prompt_cache_ttl.label()),
                ("Auto Compaction"@, compaction_text(set.auto_compaction)),
                ("Show Thinking"@, switch_text(set.show_thinking)),
            ]
            &&& view.sections[1].rows =~= seq![
                ("User"@, file_text(user, home)),
                ("Project"@, file_text(project, home)),
            ]
        }),
{
}

} // verus!
