//! What the host's own windows keep between frames.

use crate::logbook::{merged, with_names, LogBook};
use crate::text::{join_lines, joined_by_newline};
use vstd::prelude::*;
use vstd::string::*;

verus! {

/// The state of the host's windows: the log view, and which windows are open.
pub struct UiState {
    /// Every line captured since the host started, by target.
    pub logs: LogBook,
    /// Whether the log window is open.
    pub view_logs: bool,
    /// Whether the style editor is open.
    pub view_style_editor: bool,
    /// Whether the plugin manager is open.
    pub view_plugin_manager: bool,
}

impl UiState {
    /// The state at start-up: no line yet, and only the log window open.
    pub fn new() -> (state: UiState)
        ensures
            state.logs@ == Map::<Seq<char>, Seq<Seq<char>>>::empty(),
            state.logs.targets() == Seq::<Seq<char>>::empty(),
            state.view_logs,
            !state.view_style_editor,
            !state.view_plugin_manager,
    {
        UiState {
            logs: LogBook::new(),
            view_logs: true,
            view_style_editor: false,
            view_plugin_manager: false,
        }
    }

    /// Takes the lines that arrived since the last frame into the log view:
    /// they go behind the lines that the view holds for their target.
    /// Nothing else changes.
    pub fn take_in(&mut self, messages: LogBook)
        ensures
            final(self).logs@ == merged(old(self).logs@, messages@),
            final(self).logs.targets() == with_names(old(self).logs.targets(), messages.targets()),
            final(self).view_logs == old(self).view_logs,
            final(self).view_style_editor == old(self).view_style_editor,
            final(self).view_plugin_manager == old(self).view_plugin_manager,
    {
        self.logs.merge(messages);
    }
}

/// Where the log of `target` is saved.
pub open spec fn log_file_of(target: Seq<char>) -> Seq<char> {
    "logs/"@ + target + ".txt"@
}

/// The file that the log of `target` is saved to.
pub fn log_file_path(target: &str) -> (path: String)
    ensures
        path@ == log_file_of(target@),
{
    let mut path = "logs/".to_owned();
    path.append(target);
    path.append(".txt");
    path
}

/// What is written to the file of a log: its lines, one below the other.
pub fn log_file_content(messages: &Vec<String>) -> (content: String)
    ensures
        content@ == joined_by_newline(messages.deep_view()),
{
    join_lines(messages)
}

} // verus!
