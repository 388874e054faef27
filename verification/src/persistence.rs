use vstd::prelude::*;

use crate::app_core::{empty_workspace, WorkspaceState, WorkspaceStateView};
use crate::paths::{opt_path_view, EntryPath, PathSet};

verus! {

/// The part of the workspace that is saved between sessions: the root, the
/// expanded directories and the selection.
#[derive(Debug)]
pub struct PersistedState {
    pub workspace_root: Option<EntryPath>,
    pub expanded_paths: PathSet,
    pub selected_path: Option<EntryPath>,
}

impl View for PersistedState {
    type V = WorkspaceStateView;

    open spec fn view(&self) -> WorkspaceStateView {
        WorkspaceStateView {
            root: opt_path_view(self.workspace_root),
            expanded: self.expanded_paths@,
            selected: opt_path_view(self.selected_path),
        }
    }
}

impl Default for PersistedState {
    fn default() -> (r: Self)
        ensures
            r@ == empty_workspace(),
    {
        PersistedState { workspace_root: None, expanded_paths: PathSet::new(), selected_path: None }
    }
}

impl PersistedState {
    /// The saved state as the workspace state that a restore starts from.
    pub fn into_workspace_state(self) -> (r: WorkspaceState)
        ensures
            r@ == self@,
    {
        WorkspaceState {
            workspace_root: self.workspace_root,
            expanded_paths: self.expanded_paths,
            selected_path: self.selected_path,
        }
    }
}

} // verus!
