//! `/status`: what is known of the session.

use vstd::prelude::*;
use vstd::string::*;

use crate::config::{
    compaction_text, display_auto_compaction, display_bool, display_effort, effort_text,
    switch_text,
};
use crate::slash::context::LiveSessionInfo;
use crate::text::owned;
use crate::tui::kv_overview::{pair_views, KvOverview, KvSection, OverviewView, SectionView};

verus! {

/// The rows of the overview.
pub open spec fn status_rows(info: LiveSessionInfo) -> Seq<(Seq<char>, Seq<char>)> {
    seq![
        (
            "Model"@,
            info.catalog@.shown_name(info.config.model_id@) + " ("@ + info.config.model_id@ + ")"@,
        ),
        ("Effort"@, effort_text(info.config.effort)),
        ("Working Directory"@, info.cwd@),
        ("Session"@, info.session_id@),
        ("Auth"@, info.config.auth_label@),
        ("Version"@, info.version@),
        ("Context Cache"@, info.config.prompt_cache_ttl.label()),
        ("Auto Compaction"@, compaction_text(info.config.auto_compaction)),
        ("Show Thinking"@, switch_text(info.config.show_thinking)),
        ("Show Welcome"@, switch_text(info.config.show_welcome)),
    ]
}

/// The overview of the session.
pub open spec fn status_view(info: LiveSessionInfo) -> OverviewView {
    OverviewView {
        title: "Status"@,
        sections: seq![SectionView { heading: None, rows: status_rows(info) }],
    }
}

/// The name of the model and its identifier.
fn model_text(info: &LiveSessionInfo) -> (r: String)
    ensures
        r@ == info.catalog@.shown_name(info.config.model_id@) + " ("@ + info.config.model_id@ + ")"@,
{
    let mut out: String = info.display_name();
    out.append(" (");
    out.append(info.config.model_id.as_str());
    out.append(")");
    out
}

/// The overview of the session.
pub fn build_modal(info: &LiveSessionInfo) -> (r: KvOverview)
    ensures
        r@ == status_view(*info),
{
    let rows: Vec<(String, String)> = vec![
        ("Model".to_owned(), model_text(info)),
        ("Effort".to_owned(), display_effort(info.config.effort)),
        ("Working Directory".to_owned(), owned(info.cwd.as_str())),
        ("Session".to_owned(), owned(info.session_id.as_str())),
        ("Auth".to_owned(), owned(info.config.auth_label)),
        ("Version".to_owned(), owned(info.version)),
        ("Context Cache".to_owned(), owned(info.config.prompt_cache_ttl.name())),
        ("Auto Compaction".to_owned(), display_auto_compaction(info.config.auto_compaction)),
        ("Show Thinking".to_owned(), owned(display_bool(info.config.show_thinking))),
        ("Show Welcome".to_owned(), owned(display_bool(info.config.show_welcome))),
    ];
    assert(pair_views(rows@) =~= status_rows(*info));
    let sections: Vec<KvSection> = vec![KvSection { heading: None, rows }];
    assert(sections@.map_values(|s: KvSection| s@) =~= status_view(*info).sections);
    KvOverview::new("Status", sections)
}

/// The status tells the model by name and identifier, and how the session stands.
pub proof fn law_status_tells_how_the_session_stands(info: LiveSessionInfo)
    ensures
        ({
            let view = status_view(info);
            let set = info.config;
            &&& view.title == "Status"@ && view.sections.len() == 1
            &&& view.sections[0].heading is None
            &&& view.sections[0].rows =~= seq![
                (
                    "Model"@,
                    info.catalog@.shown_name(set.model_id@) + " ("@ + set.model_id@ + ")"@,
                ),
                ("Effort"@, effort_text(set.effort)),
                ("Working Directory"@, info.cwd@),
                ("Session"@, info.session_id@),
                ("Auth"@, set.auth_label@),
                ("Version"@, info.version@),
                ("Context Cache"@, set.prompt_cache_ttl.label()),
                ("Auto Compaction"@, compaction_text(set.auto_compaction)),
                ("Show Thinking"@, switch_text(set.show_thinking)),
                ("Show Welcome"@, switch_text(set.show_welcome)),
            ]
        }),
{
}

} // verus!
