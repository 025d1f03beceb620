//! What the user asks of the assistant.

use vstd::prelude::*;
use vstd::string::*;

use crate::config::Effort;
use crate::model::ResolvedModelId;

verus! {

/// Something that the assistant is asked to do.
#[derive(Debug, PartialEq, Eq)]
pub enum UserAction {
    /// Start over with an empty conversation.
    Clear,
    /// Put a summary in place of the conversation.
    Compact { instructions: Option<String> },
    /// Send a prompt.
    SubmitPrompt(String),
    /// Change the model, the effort or both; `None` leaves as it is.
    SwapConfig { model: Option<ResolvedModelId>, effort: Option<Effort> },
    SwapTheme { name: String },
    /// Show a theme without switching to it.
    PreviewTheme { name: String },
    Rename { title: String },
    Resume { session_id: String },
}

/// An action by its characters.
#[verifier::ext_equal]
#[allow(inconsistent_fields)]
pub ghost enum ActionView {
    Clear,
    Compact { instructions: Option<Seq<char>> },
    SubmitPrompt(Seq<char>),
    SwapConfig { model: Option<Seq<char>>, effort: Option<Effort> },
    SwapTheme { name: Seq<char> },
    PreviewTheme { name: Seq<char> },
    Rename { title: Seq<char> },
    Resume { session_id: Seq<char> },
}

impl View for UserAction {
    type V = ActionView;

    open spec fn view(&self) -> ActionView {
        match self {
            UserAction::Clear => ActionView::Clear,
            UserAction::Compact { instructions } => ActionView::Compact {
                instructions: match instructions {
                    Some(s) => Some(s@),
                    None => None,
                },
            },
            UserAction::SubmitPrompt(s) => ActionView::SubmitPrompt(s@),
            UserAction::SwapConfig { model, effort } => ActionView::SwapConfig {
                model: match model {
                    Some(m) => Some(m@),
                    None => None,
                },
                effort: *effort,
            },
            UserAction::SwapTheme { name } => ActionView::SwapTheme { name: name@ },
            UserAction::PreviewTheme { name } => ActionView::PreviewTheme { name: name@ },
            UserAction::Rename { title } => ActionView::Rename { title: title@ },
            UserAction::Resume { session_id } => ActionView::Resume { session_id: session_id@ },
        }
    }
}

} // verus!
