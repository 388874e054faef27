use vstd::prelude::*;

use crate::error::{CoreError, CoreErrorView, Operation};
use crate::fs_adapter::{stat_view, EntryInfo, EntryInfoView};
use crate::names::{
    ends_with_space_or_period, is_control_char, is_forbidden_char, name_verdict, nonempty_input, trim,
    validate_entry_name,
};
use crate::paths::{opt_path_view, EntryPath, PathSet, PathView};
use crate::persistence::PersistedState;
use crate::text::{decimal, push_decimal};

verus! {

/// One row of the explorer tree.
#[derive(Debug, PartialEq, Eq)]
pub struct TreeNode {
    pub path: EntryPath,
    pub name: String,
    pub depth: usize,
    pub is_dir: bool,
}

pub struct TreeNodeView {
    pub path: PathView,
    pub name: Seq<char>,
    pub depth: int,
    pub is_dir: bool,
}

impl View for TreeNode {
    type V = TreeNodeView;

    open spec fn view(&self) -> TreeNodeView {
        TreeNodeView { path: self.path@, name: self.name@, depth: self.depth as int, is_dir: self.is_dir }
    }
}

/// The workspace as the user sees it: its root, the directories shown
/// expanded, and the selected entry.
#[derive(Debug)]
pub struct WorkspaceState {
    pub workspace_root: Option<EntryPath>,
    pub expanded_paths: PathSet,
    pub selected_path: Option<EntryPath>,
}

pub struct WorkspaceStateView {
    pub root: Option<PathView>,
    pub expanded: Set<PathView>,
    pub selected: Option<PathView>,
}

impl View for WorkspaceState {
    type V = WorkspaceStateView;

    open spec fn view(&self) -> WorkspaceStateView {
        WorkspaceStateView {
            root: opt_path_view(self.workspace_root),
            expanded: self.expanded_paths@,
            selected: opt_path_view(self.selected_path),
        }
    }
}

pub open spec fn empty_workspace() -> WorkspaceStateView {
    WorkspaceStateView { root: None, expanded: Set::empty(), selected: None }
}

impl Default for WorkspaceState {
    fn default() -> (r: Self)
        ensures
            r@ == empty_workspace(),
    {
        WorkspaceState { workspace_root: None, expanded_paths: PathSet::new(), selected_path: None }
    }
}

/// What started a refresh of the workspace.
#[derive(Debug, Clone, Copy, PartialEq, Eq, Structural)]
pub enum RefreshSource {
    Manual,
    Watcher,
}

pub open spec fn spec_label(source: RefreshSource) -> Seq<char> {
    match source {
        RefreshSource::Manual => seq!['m', 'a', 'n', 'u', 'a', 'l'],
        RefreshSource::Watcher => seq!['w', 'a', 't', 'c', 'h', 'e', 'r'],
    }
}

impl RefreshSource {
    pub fn label(self) -> (r: &'static str)
        ensures
            r@ == spec_label(self),
    {
        match self {
            RefreshSource::Manual => {
                proof {
                    reveal_strlit("manual");
                }
                "manual"
            },
            RefreshSource::Watcher => {
                proof {
                    reveal_strlit("watcher");
                }
                "watcher"
            },
        }
    }
}

/// The record of the watcher and of the last refresh. A refresh time is
/// held in whole seconds since the Unix epoch.
#[derive(Debug, Clone, Copy, PartialEq, Eq)]
pub struct RefreshState {
    pub watcher_active: bool,
    pub last_refresh_at: Option<u64>,
    pub last_refresh_source: Option<RefreshSource>,
    pub last_watcher_event_count: u32,
}

pub open spec fn initial_refresh() -> RefreshState {
    RefreshState {
        watcher_active: false,
        last_refresh_at: None,
        last_refresh_source: None,
        last_watcher_event_count: 0,
    }
}

impl Default for RefreshState {
    fn default() -> (r: Self)
        ensures
            r == initial_refresh(),
    {
        RefreshState {
            watcher_active: false,
            last_refresh_at: None,
            last_refresh_source: None,
            last_watcher_event_count: 0,
        }
    }
}


/// The watcher status line:
/// `Watcher: <state>, Last Refresh: <time>, Source: <source>, Watcher Events: <count>`.
pub open spec fn spec_status_line(refresh: RefreshState) -> Seq<char> {
    "Watcher: "@ + (if refresh.watcher_active {
        "watching"@
    } else {
        "not watching"@
    }) + ", Last Refresh: "@ + (match refresh.last_refresh_at {
        Some(t) => decimal(t as nat) + "s"@,
        None => "never"@,
    }) + ", Source: "@ + (match refresh.last_refresh_source {
        Some(source) => spec_label(source),
        None => "none"@,
    }) + ", Watcher Events: "@ + decimal(refresh.last_watcher_event_count as nat)
}

/// The application core: the workspace state and the refresh record.
#[derive(Debug)]
pub struct AppCore {
    workspace_state: WorkspaceState,
    refresh_state: RefreshState,
}

pub struct AppCoreView {
    pub ws: WorkspaceStateView,
    pub refresh: RefreshState,
}

impl View for AppCore {
    type V = AppCoreView;

    closed spec fn view(&self) -> AppCoreView {
        AppCoreView { ws: self.workspace_state@, refresh: self.refresh_state }
    }
}

impl Default for AppCore {
    fn default() -> (r: Self)
        ensures
            r@.ws == empty_workspace(),
            r@.refresh == initial_refresh(),
    {
        AppCore { workspace_state: WorkspaceState::default(), refresh_state: RefreshState::default() }
    }
}

/// What the filesystem reported of a path given as the new workspace root.
#[derive(Debug)]
pub enum RootProbe {
    /// The path does not exist.
    Missing,
    /// The path exists and is not a directory.
    NotADirectory,
    /// The path is a directory that could not be canonicalized.
    CanonicalizeFailed(String),
    /// The path is a directory with this canonical form.
    Canonical(EntryPath),
}

pub enum RootProbeView {
    Missing,
    NotADirectory,
    CanonicalizeFailed(Seq<char>),
    Canonical(PathView),
}

impl View for RootProbe {
    type V = RootProbeView;

    open spec fn view(&self) -> RootProbeView {
        match self {
            RootProbe::Missing => RootProbeView::Missing,
            RootProbe::NotADirectory => RootProbeView::NotADirectory,
            RootProbe::CanonicalizeFailed(m) => RootProbeView::CanonicalizeFailed(m@),
            RootProbe::Canonical(p) => RootProbeView::Canonical(p@),
        }
    }
}

/// The value of the optional outcome of a stat.
pub open spec fn opt_stat_view(s: Option<Result<EntryInfo, String>>) -> Option<Result<EntryInfoView, Seq<char>>> {
    match s {
        Some(r) => Some(stat_view(r)),
        None => None,
    }
}

pub open spec fn opt_ref_path_view(r: Option<&EntryPath>) -> Option<PathView> {
    match r {
        Some(p) => Some(p@),
        None => None,
    }
}

/// A filesystem operation decided by the core, to be performed outside it.
/// Creation: make `target` inside `parent`.
#[derive(Debug)]
pub struct CreationRequest {
    pub root: EntryPath,
    pub parent: EntryPath,
    pub target: EntryPath,
}

/// Rename `from` to `to`.
#[derive(Debug)]
pub struct RenameRequest {
    pub root: EntryPath,
    pub from: EntryPath,
    pub to: EntryPath,
}

/// Move `target` to the trash.
#[derive(Debug)]
pub struct DeleteRequest {
    pub root: EntryPath,
    pub target: EntryPath,
}

/// Copy, move or import `source` into the directory `target_dir`.
#[derive(Debug)]
pub struct TransferRequest {
    pub root: EntryPath,
    pub source: EntryPath,
    pub target_dir: EntryPath,
}

/// The selection after a refresh or a restore: the entry that a stat of
/// the selected path reported, or else the root.
pub open spec fn restored_selection(root: PathView, stat: Option<Result<EntryInfoView, Seq<char>>>) -> PathView {
    match stat {
        Some(Ok(e)) => e.path,
        _ => root,
    }
}

/// The workspace after a restore of `saved` whose root the filesystem
/// reports as `root`, given a stat of the saved selection under it.
pub open spec fn restored_workspace(
    saved: WorkspaceStateView,
    root: PathView,
    stat: Option<Result<EntryInfoView, Seq<char>>>,
) -> WorkspaceStateView {
    WorkspaceStateView {
        root: Some(root),
        expanded: saved.expanded.insert(root),
        selected: Some(restored_selection(root, stat)),
    }
}

/// Law: a session saved and restored comes back as it was, when the root
/// is still where it was, was saved expanded, and the stat of the saved
/// selection finds it there. (A restore always expands the root.)
pub proof fn lemma_session_round_trip(saved: WorkspaceStateView, root: PathView, selected: EntryInfoView)
    requires
        saved.root == Some(root),
        saved.expanded.contains(root),
        saved.selected == Some(selected.path),
    ensures
        restored_workspace(saved, root, Some(Ok(selected))) == saved,
{
    assert(saved.expanded.insert(root) =~= saved.expanded);
}

/// The directory that receives a new entry: the selection if it is a
/// directory, else its parent, else the root.
pub open spec fn spec_insertion_parent(
    root: PathView,
    selected: Option<PathView>,
    stat: Option<Result<EntryInfoView, Seq<char>>>,
) -> Result<PathView, CoreErrorView> {
    match selected {
        None => Ok(root),
        Some(sel) => match stat {
            Some(Err(m)) => Err(CoreErrorView::Fs(m)),
            Some(Ok(e)) => if e.is_dir {
                Ok(sel)
            } else {
                match sel.parent() {
                    Some(p) => Ok(p),
                    None => Ok(root),
                }
            },
            None => Ok(root),
        },
    }
}

/// The decision on a new entry named `name`: the receiving directory and
/// the new path, or the refusal.
pub open spec fn spec_creation(
    v: AppCoreView,
    stat: Option<Result<EntryInfoView, Seq<char>>>,
    name: Seq<char>,
) -> Result<(PathView, PathView, PathView), CoreErrorView> {
    match v.ws.root {
        None => Err(CoreErrorView::RootNotSet),
        Some(root) => match spec_insertion_parent(root, v.ws.selected, stat) {
            Err(e) => Err(e),
            Ok(parent) => match name_verdict(name) {
                Some(ne) => Err(CoreErrorView::InvalidName(ne)),
                None => Ok((root, parent, parent.child(name))),
            },
        },
    }
}

/// The checks shared by the operations on the selection: a root, a
/// selection, and a selection that is not the root.
pub open spec fn spec_selection(v: AppCoreView, op: Operation) -> Result<(PathView, PathView), CoreErrorView> {
    match v.ws.root {
        None => Err(CoreErrorView::RootNotSet),
        Some(root) => match v.ws.selected {
            None => Err(CoreErrorView::NothingSelected(op)),
            Some(sel) => if sel == root {
                Err(CoreErrorView::RootProtected(op))
            } else {
                Ok((root, sel))
            },
        },
    }
}

/// The decision on renaming the selection to `new_name`: the root, the
/// selection and its new path, or the refusal.
pub open spec fn spec_rename(v: AppCoreView, new_name: Seq<char>) -> Result<(PathView, PathView, PathView), CoreErrorView> {
    match name_verdict(new_name) {
        Some(ne) => Err(CoreErrorView::InvalidName(ne)),
        None => match spec_selection(v, Operation::Rename) {
            Err(e) => Err(e),
            Ok((root, sel)) => match sel.parent() {
                None => Err(CoreErrorView::NoParent(sel)),
                Some(parent) => Ok((root, sel, parent.child(new_name))),
            },
        },
    }
}

/// The check before a rename of `from` to `to`, given what a stat of `to`
/// reported: an entry there other than `from` itself takes the name.
pub open spec fn spec_rename_target(
    from: PathView,
    to: PathView,
    stat: Result<EntryInfoView, Seq<char>>,
) -> Result<(), CoreErrorView> {
    match stat {
        Ok(e) => if e.path == from {
            Ok(())
        } else {
            Err(CoreErrorView::NameTaken(to))
        },
        Err(_) => Ok(()),
    }
}

/// The checks on a directory that receives a copy, move or import. (The
/// callers always supply the stat; its absence is never looked at.)
pub open spec fn spec_target_dir(
    stat: Option<Result<EntryInfoView, Seq<char>>>,
    op: Operation,
) -> Result<PathView, CoreErrorView> {
    match stat {
        Some(Ok(e)) => if e.is_dir {
            Ok(e.path)
        } else {
            Err(CoreErrorView::TargetNotDirectory(op, e.path))
        },
        Some(Err(m)) => Err(CoreErrorView::Fs(m)),
        None => Err(CoreErrorView::RootNotSet),
    }
}

/// The decision on copying or moving the selection into the directory that
/// a stat reported: the root, the selection and the target directory, or
/// the refusal.
pub open spec fn spec_transfer(
    v: AppCoreView,
    op: Operation,
    stat: Option<Result<EntryInfoView, Seq<char>>>,
) -> Result<(PathView, PathView, PathView), CoreErrorView> {
    match spec_selection(v, op) {
        Err(e) => Err(e),
        Ok((root, sel)) => match spec_target_dir(stat, op) {
            Err(e) => Err(e),
            Ok(dir) => Ok((root, sel, dir)),
        },
    }
}

/// The decision on importing `source` into the directory that a stat
/// reported: the root, the source and the target directory, or the refusal.
pub open spec fn spec_import(
    v: AppCoreView,
    source: PathView,
    stat: Option<Result<EntryInfoView, Seq<char>>>,
) -> Result<(PathView, PathView, PathView), CoreErrorView> {
    match v.ws.root {
        None => Err(CoreErrorView::RootNotSet),
        Some(root) => match spec_target_dir(stat, Operation::Import) {
            Err(e) => Err(e),
            Ok(dir) => Ok((root, source, dir)),
        },
    }
}

/// The expanded set after a move of `old` to `new`: every path under `old`
/// follows it, and the root stays expanded.
pub open spec fn remapped(expanded: Set<PathView>, root: Option<PathView>, old: PathView, new: PathView) -> Set<PathView> {
    let moved = expanded.map(|q: PathView| q.rebase(old, new));
    match root {
        Some(r) => moved.insert(r),
        None => moved,
    }
}

/// The expanded set with `p` collapsed if it was expanded, else expanded.
pub open spec fn toggled(expanded: Set<PathView>, p: PathView) -> Set<PathView> {
    if expanded.contains(p) {
        expanded.remove(p)
    } else {
        expanded.insert(p)
    }
}

/// Law: toggling the same directory twice leaves the expanded set as it
/// was.
pub proof fn lemma_toggle_twice(expanded: Set<PathView>, p: PathView)
    ensures
        toggled(toggled(expanded, p), p) == expanded,
{
    if expanded.contains(p) {
        assert(expanded.remove(p).insert(p) =~= expanded);
    } else {
        assert(expanded.insert(p).remove(p) =~= expanded);
    }
}

/// Law: after a move, every expanded directory that lay under the moved
/// entry lies, with the same suffix, under its new path.
pub proof fn lemma_move_carries_expansion(
    expanded: Set<PathView>,
    root: Option<PathView>,
    old: PathView,
    new: PathView,
    q: PathView,
)
    requires
        expanded.contains(q),
        q.starts_with(old),
    ensures
        remapped(expanded, root, old, new).contains(q.rebase(old, new)),
        q.rebase(old, new).starts_with(new),
{
    let f = |x: PathView| x.rebase(old, new);
    assert(expanded.map(f).contains(f(q)));
    let r = q.rebase(old, new);
    assert(r.parts.take(new.parts.len() as int) =~= new.parts);
}

/// Law: a rename keeps the entry in its directory, and a new entry lands
/// directly in the directory chosen for it.
pub proof fn lemma_new_paths_stay_in_their_directory(
    v: AppCoreView,
    stat: Option<Result<EntryInfoView, Seq<char>>>,
    name: Seq<char>,
)
    ensures
        spec_rename(v, name) matches Ok((_, from, to)) ==> to.parent() == from.parent(),
        spec_creation(v, stat, name) matches Ok((_, parent, target)) ==> target.parent() == Some(parent),
{
    if let Ok((_, from, to)) = spec_rename(v, name) {
        assert(to.parts.drop_last() =~= from.parts.drop_last());
    }
    if let Ok((_, parent, target)) = spec_creation(v, stat, name) {
        assert(target.parts.drop_last() =~= parent.parts);
    }
}

/// Law: a new or renamed entry gets the name as typed. That name does not
/// end with a space or a period, and without its surrounding whitespace it
/// is a valid Windows name: not empty, not ending with a space or a period,
/// and free of control and refused characters.
pub proof fn lemma_new_names_are_valid(
    v: AppCoreView,
    stat: Option<Result<EntryInfoView, Seq<char>>>,
    name: Seq<char>,
)
    ensures
        spec_rename(v, name) matches Ok((_, _, to)) ==> to.display_name() == name && !ends_with_space_or_period(name)
            && valid_component(trim(name)),
        spec_creation(v, stat, name) matches Ok((_, _, target)) ==> target.display_name() == name
            && !ends_with_space_or_period(name) && valid_component(trim(name)),
{
}

/// A component that the naming rules accept as it stands.
pub open spec fn valid_component(c: Seq<char>) -> bool {
    &&& c.len() > 0
    &&& !ends_with_space_or_period(c)
    &&& forall|i: int| 0 <= i < c.len() ==> !is_control_char(#[trigger] c[i]) && !is_forbidden_char(c[i])
}

/// Where the source of an import comes from: a path picked in the browser,
/// or the text typed in the source field.
#[derive(Debug, PartialEq, Eq)]
pub enum SourceChoice {
    Picked(EntryPath),
    Typed(String),
}

/// The source of an import: a picked path wins over typed text; typed text
/// counts without its surrounding whitespace, and none is chosen when
/// nothing was picked and nothing but whitespace was typed.
pub fn choose_import_source(picked: Option<EntryPath>, raw_source: &str) -> (r: Option<SourceChoice>)
    ensures
        match picked {
            Some(p) => r matches Some(SourceChoice::Picked(q)) && q@ == p@,
            None => if trim(raw_source@).len() == 0 {
                r is None
            } else {
                r matches Some(SourceChoice::Typed(t)) && t@ == trim(raw_source@)
            },
        },
{
    match picked {
        Some(p) => Some(SourceChoice::Picked(p)),
        None => match nonempty_input(raw_source) {
            Some(t) => Some(SourceChoice::Typed(t)),
            None => None,
        },
    }
}

/// The triple of request paths, as values.
pub open spec fn triple_view(a: EntryPath, b: EntryPath, c: EntryPath) -> (PathView, PathView, PathView) {
    (a@, b@, c@)
}

impl AppCore {
    pub fn workspace_state(&self) -> (r: &WorkspaceState)
        ensures
            r@ == self@.ws,
    {
        &self.workspace_state
    }

    pub fn refresh_state(&self) -> (r: &RefreshState)
        ensures
            *r == self@.refresh,
    {
        &self.refresh_state
    }

    pub fn workspace_root(&self) -> (r: Option<&EntryPath>)
        ensures
            opt_ref_path_view(r) == self@.ws.root,
    {
        self.workspace_state.workspace_root.as_ref()
    }

    pub fn selected_path(&self) -> (r: Option<&EntryPath>)
        ensures
            opt_ref_path_view(r) == self@.ws.selected,
    {
        self.workspace_state.selected_path.as_ref()
    }

    /// The state to save for the next session.
    pub fn persisted_state(&self) -> (r: PersistedState)
        ensures
            r@ == self@.ws,
    {
        PersistedState {
            workspace_root: match &self.workspace_state.workspace_root {
                Some(p) => Some(p.clone()),
                None => None,
            },
            expanded_paths: self.workspace_state.expanded_paths.clone(),
            selected_path: match &self.workspace_state.selected_path {
                Some(p) => Some(p.clone()),
                None => None,
            },
        }
    }

    pub fn expanded_paths(&self) -> (r: &PathSet)
        ensures
            r@ == self@.ws.expanded,
    {
        &self.workspace_state.expanded_paths
    }

    /// Opens a workspace root, as the filesystem reported it in `probe`: the
    /// canonical root becomes the root and the selection, and the only
    /// expanded directory.
    pub fn set_workspace_root(&mut self, path: EntryPath, probe: RootProbe) -> (r: Result<(), CoreError>)
        ensures
            match probe@ {
                RootProbeView::Missing => r matches Err(e) && e@ == CoreErrorView::PathMissing(path@)
                    && final(self)@ == old(self)@,
                RootProbeView::NotADirectory => r matches Err(e) && e@ == CoreErrorView::NotADirectory(path@)
                    && final(self)@ == old(self)@,
                RootProbeView::CanonicalizeFailed(m) => r matches Err(e) && e@
                    == CoreErrorView::CanonicalizeFailed(path@, m) && final(self)@ == old(self)@,
                RootProbeView::Canonical(root) => r is Ok && final(self)@.ws == (WorkspaceStateView {
                    root: Some(root),
                    expanded: Set::empty().insert(root),
                    selected: Some(root),
                }) && final(self)@.refresh == old(self)@.refresh,
            },
    {
        match probe {
            RootProbe::Missing => Err(CoreError::PathMissing(path)),
            RootProbe::NotADirectory => Err(CoreError::NotADirectory(path)),
            RootProbe::CanonicalizeFailed(m) => Err(CoreError::CanonicalizeFailed(path, m)),
            RootProbe::Canonical(root) => {
                let mut expanded = PathSet::new();
                expanded.insert(root.clone());
                self.workspace_state.workspace_root = Some(root.clone());
                self.workspace_state.selected_path = Some(root);
                self.workspace_state.expanded_paths = expanded;
                Ok(())
            },
        }
    }

    /// The one-line account of the watcher and of the last refresh.
    pub fn watcher_status_line(&self) -> (r: String)
        ensures
            r@ == spec_status_line(self@.refresh),
    {
        let refresh = self.refresh_state;
        let mut line = String::from_str("Watcher: ");
        if refresh.watcher_active {
            line.append("watching");
        } else {
            line.append("not watching");
        }
        line.append(", Last Refresh: ");
        match refresh.last_refresh_at {
            Some(t) => {
                push_decimal(&mut line, t);
                line.append("s");
            },
            None => line.append("never"),
        }
        line.append(", Source: ");
        match refresh.last_refresh_source {
            Some(source) => line.append(source.label()),
            None => line.append("none"),
        }
        line.append(", Watcher Events: ");
        push_decimal(&mut line, refresh.last_watcher_event_count as u64);
        proof {
            let st = if refresh.watcher_active { "watching"@ } else { "not watching"@ };
            let at = match refresh.last_refresh_at {
                Some(t) => decimal(t as nat) + "s"@,
                None => "never"@,
            };
            let src = match refresh.last_refresh_source {
                Some(source) => spec_label(source),
                None => "none"@,
            };
            assert(line@ =~= "Watcher: "@ + st + ", Last Refresh: "@ + at + ", Source: "@ + src + ", Watcher Events: "@
                + decimal(refresh.last_watcher_event_count as nat));
        }
        line
    }

    pub fn command_set_watcher_active(&mut self, watcher_active: bool)
        ensures
            final(self)@.ws == old(self)@.ws,
            final(self)@.refresh == (RefreshState { watcher_active, ..old(self)@.refresh }),
    {
        self.refresh_state.watcher_active = watcher_active;
    }

    /// Points the selection back into the workspace after the filesystem may
    /// have changed: to the entry that `selected_stat` (a stat of the
    /// selected path) reports, or else to the root. Without a root nothing
    /// changes.
    pub fn restore_selected_path(&mut self, selected_stat: Option<Result<EntryInfo, String>>)
        ensures
            final(self)@.refresh == old(self)@.refresh,
            final(self)@.ws.root == old(self)@.ws.root,
            final(self)@.ws.expanded == old(self)@.ws.expanded,
            final(self)@.ws.selected == match old(self)@.ws.root {
                None => old(self)@.ws.selected,
                Some(root) => Some(restored_selection(root, opt_stat_view(selected_stat))),
            },
    {
        let root = match &self.workspace_state.workspace_root {
            None => return,
            Some(root) => root.clone(),
        };
        if let Some(Ok(entry)) = selected_stat {
            self.workspace_state.selected_path = Some(entry.path);
            return;
        }
        self.workspace_state.selected_path = Some(root);
    }

    /// Applies a refresh. `root_accessible` tells whether the root could
    /// still be read, `selected_stat` what a stat of the selected path gave,
    /// and `now_secs` the time of the refresh. An unreachable root clears
    /// the workspace.
    pub fn command_apply_refresh(
        &mut self,
        root_accessible: bool,
        selected_stat: Option<Result<EntryInfo, String>>,
        source: RefreshSource,
        watcher_event_count: u32,
        now_secs: Option<u64>,
    ) -> (r: Result<(), CoreError>)
        ensures
            match old(self)@.ws.root {
                None => r matches Err(e) && e@ == CoreErrorView::RootNotSet && final(self)@ == old(self)@,
                Some(root) => {
                    &&& final(self)@.refresh == (RefreshState {
                        last_refresh_at: now_secs,
                        last_refresh_source: Some(source),
                        last_watcher_event_count: watcher_event_count,
                        ..old(self)@.refresh
                    })
                    &&& if root_accessible {
                        &&& r is Ok
                        &&& final(self)@.ws == (WorkspaceStateView {
                            selected: Some(restored_selection(root, opt_stat_view(selected_stat))),
                            ..old(self)@.ws
                        })
                    } else {
                        &&& r matches Err(e) && e@ == CoreErrorView::RootInaccessible
                        &&& final(self)@.ws == empty_workspace()
                    }
                },
            },
    {
        if self.workspace_state.workspace_root.is_none() {
            return Err(CoreError::RootNotSet);
        }
        if !root_accessible {
            self.workspace_state = WorkspaceState::default();
            self.refresh_state.last_refresh_at = now_secs;
            self.refresh_state.last_refresh_source = Some(source);
            self.refresh_state.last_watcher_event_count = watcher_event_count;
            return Err(CoreError::RootInaccessible);
        }
        self.restore_selected_path(selected_stat);
        self.refresh_state.last_refresh_at = now_secs;
        self.refresh_state.last_refresh_source = Some(source);
        self.refresh_state.last_watcher_event_count = watcher_event_count;
        Ok(())
    }

    /// Makes the given set the expanded set; the root, if any, stays
    /// expanded.
    pub fn replace_expanded_paths(&mut self, expanded_paths: PathSet)
        ensures
            final(self)@.refresh == old(self)@.refresh,
            final(self)@.ws.root == old(self)@.ws.root,
            final(self)@.ws.selected == old(self)@.ws.selected,
            final(self)@.ws.expanded == match old(self)@.ws.root {
                Some(root) => expanded_paths@.insert(root),
                None => expanded_paths@,
            },
    {
        let mut expanded = expanded_paths;
        if let Some(root) = &self.workspace_state.workspace_root {
            expanded.insert(root.clone());
        }
        self.workspace_state.expanded_paths = expanded;
    }

    /// Restores a saved session. `probe` is what the filesystem reported of
    /// the saved root and `selected_stat` a stat of the saved selection
    /// under the canonical root.
    pub fn command_restore_session(
        &mut self,
        workspace_state: WorkspaceState,
        probe: RootProbe,
        selected_stat: Option<Result<EntryInfo, String>>,
    ) -> (r: Result<(), CoreError>)
        ensures
            final(self)@.refresh == old(self)@.refresh,
            match workspace_state@.root {
                None => r is Ok && final(self)@.ws == empty_workspace(),
                Some(saved_root) => match probe@ {
                    RootProbeView::Canonical(root) => r is Ok && final(self)@.ws == restored_workspace(
                        workspace_state@,
                        root,
                        opt_stat_view(selected_stat),
                    ),
                    RootProbeView::Missing => r matches Err(e) && e@ == CoreErrorView::PathMissing(saved_root)
                        && final(self)@ == old(self)@,
                    RootProbeView::NotADirectory => r matches Err(e) && e@ == CoreErrorView::NotADirectory(saved_root)
                        && final(self)@ == old(self)@,
                    RootProbeView::CanonicalizeFailed(m) => r matches Err(e) && e@
                        == CoreErrorView::CanonicalizeFailed(saved_root, m) && final(self)@ == old(self)@,
                },
            },
    {
        let WorkspaceState { workspace_root, expanded_paths, selected_path: _ } = workspace_state;
        let workspace_root = match workspace_root {
            None => {
                self.workspace_state = WorkspaceState::default();
                return Ok(());
            },
            Some(root) => root,
        };
        match self.set_workspace_root(workspace_root, probe) {
            Err(e) => return Err(e),
            Ok(()) => {},
        }
        self.replace_expanded_paths(expanded_paths);
        self.restore_selected_path(selected_stat);
        Ok(())
    }

    pub fn command_select_path(&mut self, path: EntryPath)
        ensures
            final(self)@.refresh == old(self)@.refresh,
            final(self)@.ws == (WorkspaceStateView { selected: Some(path@), ..old(self)@.ws }),
    {
        self.workspace_state.selected_path = Some(path);
    }

    /// Expands a collapsed directory, or collapses an expanded one.
    pub fn command_toggle_expanded(&mut self, path: &EntryPath)
        ensures
            final(self)@.refresh == old(self)@.refresh,
            final(self)@.ws.root == old(self)@.ws.root,
            final(self)@.ws.selected == old(self)@.ws.selected,
            final(self)@.ws.expanded == toggled(old(self)@.ws.expanded, path@),
    {
        if self.workspace_state.expanded_paths.contains(path) {
            self.workspace_state.expanded_paths.remove(path);
        } else {
            self.workspace_state.expanded_paths.insert(path.clone());
        }
    }
}

impl AppCore {
    fn required_root(&self) -> (r: Result<&EntryPath, CoreError>)
        ensures
            match self@.ws.root {
                None => r matches Err(e) && e@ == CoreErrorView::RootNotSet,
                Some(root) => r matches Ok(p) && p@ == root,
            },
    {
        match &self.workspace_state.workspace_root {
            Some(root) => Ok(root),
            None => Err(CoreError::RootNotSet),
        }
    }

    fn insertion_parent(&self, selected_stat: &Option<Result<EntryInfo, String>>) -> (r: Result<EntryPath, CoreError>)
        requires
            self@.ws.root is Some,
        ensures
            result_path_view(r) == spec_insertion_parent(self@.ws.root->0, self@.ws.selected, opt_stat_view(*selected_stat)),
    {
        let root = self.required_root().unwrap();
        if let Some(selected) = &self.workspace_state.selected_path {
            match selected_stat {
                Some(Err(m)) => return Err(CoreError::Fs(m.clone())),
                Some(Ok(stat)) => {
                    if stat.is_dir {
                        return Ok(selected.clone());
                    }
                    if let Some(parent) = selected.parent() {
                        return Ok(parent);
                    }
                },
                None => {},
            }
        }
        Ok(root.clone())
    }

    /// Decides where a new entry named `name` goes. `selected_stat` is a
    /// stat of the selected path, given when there is a selection.
    pub fn creation_request(&self, selected_stat: Option<Result<EntryInfo, String>>, name: &str) -> (r: Result<
        CreationRequest,
        CoreError,
    >)
        requires
            self@.ws.selected is Some ==> selected_stat is Some,
        ensures
            match spec_creation(self@, opt_stat_view(selected_stat), name@) {
                Ok(t) => r matches Ok(q) && triple_view(q.root, q.parent, q.target) == t,
                Err(e) => r matches Err(err) && err@ == e,
            },
    {
        let root = match self.required_root() {
            Ok(root) => root,
            Err(e) => return Err(e),
        };
        let parent = match self.insertion_parent(&selected_stat) {
            Ok(p) => p,
            Err(e) => return Err(e),
        };
        match validate_entry_name(name) {
            Ok(()) => {},
            Err(e) => return Err(e),
        }
        let target = parent.child(name);
        Ok(CreationRequest { root: root.clone(), parent, target })
    }

    fn commit_creation(&mut self, request: &CreationRequest, outcome: Result<(), String>) -> (r: Result<
        EntryPath,
        CoreError,
    >)
        ensures
            final(self)@.refresh == old(self)@.refresh,
            match outcome {
                Err(m) => r matches Err(e) && e@ == CoreErrorView::Fs(m@) && final(self)@ == old(self)@,
                Ok(()) => r matches Ok(p) && p@ == request.target@ && final(self)@.ws == (WorkspaceStateView {
                    expanded: old(self)@.ws.expanded.insert(request.parent@),
                    selected: Some(request.target@),
                    ..old(self)@.ws
                }),
            },
    {
        match outcome {
            Err(m) => Err(CoreError::Fs(m)),
            Ok(()) => {
                self.workspace_state.expanded_paths.insert(request.parent.clone());
                self.workspace_state.selected_path = Some(request.target.clone());
                Ok(request.target.clone())
            },
        }
    }

    /// Records the creation of a directory as `request` decided, given the
    /// outcome of the filesystem call; a failed call changes nothing.
    pub fn create_directory(&mut self, request: &CreationRequest, outcome: Result<(), String>) -> (r: Result<
        EntryPath,
        CoreError,
    >)
        ensures
            final(self)@.refresh == old(self)@.refresh,
            match outcome {
                Err(m) => r matches Err(e) && e@ == CoreErrorView::Fs(m@) && final(self)@ == old(self)@,
                Ok(()) => r matches Ok(p) && p@ == request.target@ && final(self)@.ws == (WorkspaceStateView {
                    expanded: old(self)@.ws.expanded.insert(request.parent@),
                    selected: Some(request.target@),
                    ..old(self)@.ws
                }),
            },
    {
        self.commit_creation(request, outcome)
    }

    /// Records the creation of a file as `request` decided, given the
    /// outcome of the filesystem call; a failed call changes nothing.
    pub fn create_file(&mut self, request: &CreationRequest, outcome: Result<(), String>) -> (r: Result<
        EntryPath,
        CoreError,
    >)
        ensures
            final(self)@.refresh == old(self)@.refresh,
            match outcome {
                Err(m) => r matches Err(e) && e@ == CoreErrorView::Fs(m@) && final(self)@ == old(self)@,
                Ok(()) => r matches Ok(p) && p@ == request.target@ && final(self)@.ws == (WorkspaceStateView {
                    expanded: old(self)@.ws.expanded.insert(request.parent@),
                    selected: Some(request.target@),
                    ..old(self)@.ws
                }),
            },
    {
        self.commit_creation(request, outcome)
    }

    fn checked_selection(&self, op: Operation) -> (r: Result<(EntryPath, EntryPath), CoreError>)
        ensures
            match spec_selection(self@, op) {
                Ok((root, sel)) => r matches Ok((a, b)) && a@ == root && b@ == sel,
                Err(e) => r matches Err(err) && err@ == e,
            },
    {
        let root = match self.required_root() {
            Ok(root) => root.clone(),
            Err(e) => return Err(e),
        };
        let selected = match &self.workspace_state.selected_path {
            Some(s) => s.clone(),
            None => return Err(CoreError::NothingSelected(op)),
        };
        if selected.same_path(&root) {
            return Err(CoreError::RootProtected(op));
        }
        Ok((root, selected))
    }

    /// Decides the rename of the selection to `new_name`, inside the same
    /// directory.
    pub fn rename_request(&self, new_name: &str) -> (r: Result<RenameRequest, CoreError>)
        ensures
            match spec_rename(self@, new_name@) {
                Ok(t) => r matches Ok(q) && triple_view(q.root, q.from, q.to) == t,
                Err(e) => r matches Err(err) && err@ == e,
            },
    {
        match validate_entry_name(new_name) {
            Ok(()) => {},
            Err(e) => return Err(e),
        }
        let (root, selected) = match self.checked_selection(Operation::Rename) {
            Ok(pair) => pair,
            Err(e) => return Err(e),
        };
        let parent = match selected.parent() {
            Some(p) => p,
            None => return Err(CoreError::NoParent(selected)),
        };
        let to = parent.child(new_name);
        Ok(RenameRequest { root, from: selected, to })
    }

    /// Refuses a rename onto a name that another entry already has.
    /// `target_stat` is a stat of `request.to`: when it finds an entry other
    /// than the renamed one (a case-only rename finds the entry itself), the
    /// rename is refused; when it finds nothing, the rename may go ahead.
    pub fn check_rename_target(&self, request: &RenameRequest, target_stat: Result<EntryInfo, String>) -> (r:
        Result<(), CoreError>)
        ensures
            match spec_rename_target(request.from@, request.to@, stat_view(target_stat)) {
                Ok(()) => r is Ok,
                Err(e) => r matches Err(err) && err@ == e,
            },
    {
        match target_stat {
            Ok(existing) => {
                if existing.path.same_path(&request.from) {
                    Ok(())
                } else {
                    Err(CoreError::NameTaken(request.to.clone()))
                }
            },
            Err(_) => Ok(()),
        }
    }

    /// Records a rename as `request` decided, given the outcome of the
    /// filesystem call: an expanded directory stays expanded under its new
    /// name, and the new path is selected. A failed call changes nothing.
    pub fn rename_selected(&mut self, request: &RenameRequest, outcome: Result<(), String>) -> (r: Result<
        EntryPath,
        CoreError,
    >)
        ensures
            final(self)@.refresh == old(self)@.refresh,
            match outcome {
                Err(m) => r matches Err(e) && e@ == CoreErrorView::Fs(m@) && final(self)@ == old(self)@,
                Ok(()) => r matches Ok(p) && p@ == request.to@ && final(self)@.ws == (WorkspaceStateView {
                    expanded: if old(self)@.ws.expanded.contains(request.from@) {
                        old(self)@.ws.expanded.remove(request.from@).insert(request.to@)
                    } else {
                        old(self)@.ws.expanded
                    },
                    selected: Some(request.to@),
                    ..old(self)@.ws
                }),
            },
    {
        match outcome {
            Err(m) => Err(CoreError::Fs(m)),
            Ok(()) => {
                if self.workspace_state.expanded_paths.contains(&request.from) {
                    self.workspace_state.expanded_paths.remove(&request.from);
                    self.workspace_state.expanded_paths.insert(request.to.clone());
                }
                self.workspace_state.selected_path = Some(request.to.clone());
                Ok(request.to.clone())
            },
        }
    }

    /// Decides the deletion of the selection.
    pub fn delete_request(&self) -> (r: Result<DeleteRequest, CoreError>)
        ensures
            match spec_selection(self@, Operation::Delete) {
                Ok((root, sel)) => r matches Ok(q) && q.root@ == root && q.target@ == sel,
                Err(e) => r matches Err(err) && err@ == e,
            },
    {
        match self.checked_selection(Operation::Delete) {
            Ok((root, target)) => Ok(DeleteRequest { root, target }),
            Err(e) => Err(e),
        }
    }

    /// Records a deletion as `request` decided, given the outcome of the
    /// filesystem call: nothing under the deleted path stays expanded, and
    /// the selection moves to its parent (or to the root). A failed call
    /// changes nothing.
    pub fn delete_selected(&mut self, request: &DeleteRequest, outcome: Result<(), String>) -> (r: Result<
        EntryPath,
        CoreError,
    >)
        ensures
            final(self)@.refresh == old(self)@.refresh,
            match outcome {
                Err(m) => r matches Err(e) && e@ == CoreErrorView::Fs(m@) && final(self)@ == old(self)@,
                Ok(()) => {
                    let fallback = match request.target@.parent() {
                        Some(p) => p,
                        None => request.root@,
                    };
                    &&& r matches Ok(p) && p@ == fallback
                    &&& forall|q: PathView| final(self)@.ws.expanded.contains(q) ==> !q.starts_with(request.target@)
                    &&& final(self)@.ws == (WorkspaceStateView {
                        expanded: old(self)@.ws.expanded.filter(|q: PathView| !q.starts_with(request.target@)),
                        selected: Some(fallback),
                        ..old(self)@.ws
                    })
                },
            },
    {
        match outcome {
            Err(m) => Err(CoreError::Fs(m)),
            Ok(()) => {
                self.workspace_state.expanded_paths.retain_not_under(&request.target);
                let fallback = match request.target.parent() {
                    Some(p) => p,
                    None => request.root.clone(),
                };
                self.workspace_state.selected_path = Some(fallback.clone());
                Ok(fallback)
            },
        }
    }

    fn transfer_request(&self, op: Operation, target_stat: Option<Result<EntryInfo, String>>) -> (r: Result<
        TransferRequest,
        CoreError,
    >)
        requires
            self@.ws.root is Some ==> target_stat is Some,
        ensures
            match spec_transfer(self@, op, opt_stat_view(target_stat)) {
                Ok(t) => r matches Ok(q) && triple_view(q.root, q.source, q.target_dir) == t,
                Err(e) => r matches Err(err) && err@ == e,
            },
    {
        let (root, source) = match self.checked_selection(op) {
            Ok(pair) => pair,
            Err(e) => return Err(e),
        };
        match target_stat {
            Some(Ok(stat)) => {
                if stat.is_dir {
                    Ok(TransferRequest { root, source, target_dir: stat.path })
                } else {
                    Err(CoreError::TargetNotDirectory(op, stat.path))
                }
            },
            Some(Err(m)) => Err(CoreError::Fs(m)),
            None => Err(CoreError::RootNotSet),
        }
    }

    /// Decides the copy of the selection into the directory that
    /// `target_stat` (a stat of the chosen target) reports.
    pub fn copy_request(&self, target_stat: Option<Result<EntryInfo, String>>) -> (r: Result<
        TransferRequest,
        CoreError,
    >)
        requires
            self@.ws.root is Some ==> target_stat is Some,
        ensures
            match spec_transfer(self@, Operation::Copy, opt_stat_view(target_stat)) {
                Ok(t) => r matches Ok(q) && triple_view(q.root, q.source, q.target_dir) == t,
                Err(e) => r matches Err(err) && err@ == e,
            },
    {
        self.transfer_request(Operation::Copy, target_stat)
    }

    /// Decides the move of the selection into the directory that
    /// `target_stat` (a stat of the chosen target) reports.
    pub fn move_request(&self, target_stat: Option<Result<EntryInfo, String>>) -> (r: Result<
        TransferRequest,
        CoreError,
    >)
        requires
            self@.ws.root is Some ==> target_stat is Some,
        ensures
            match spec_transfer(self@, Operation::Move, opt_stat_view(target_stat)) {
                Ok(t) => r matches Ok(q) && triple_view(q.root, q.source, q.target_dir) == t,
                Err(e) => r matches Err(err) && err@ == e,
            },
    {
        self.transfer_request(Operation::Move, target_stat)
    }

    /// Decides the import of `source` into the directory that `target_stat`
    /// (a stat of the chosen target) reports.
    pub fn import_request(&self, source: EntryPath, target_stat: Option<Result<EntryInfo, String>>) -> (r: Result<
        TransferRequest,
        CoreError,
    >)
        requires
            self@.ws.root is Some ==> target_stat is Some,
        ensures
            match spec_import(self@, source@, opt_stat_view(target_stat)) {
                Ok(t) => r matches Ok(q) && triple_view(q.root, q.source, q.target_dir) == t,
                Err(e) => r matches Err(err) && err@ == e,
            },
    {
        let root = match self.required_root() {
            Ok(root) => root.clone(),
            Err(e) => return Err(e),
        };
        match target_stat {
            Some(Ok(stat)) => {
                if stat.is_dir {
                    Ok(TransferRequest { root, source, target_dir: stat.path })
                } else {
                    Err(CoreError::TargetNotDirectory(Operation::Import, stat.path))
                }
            },
            Some(Err(m)) => Err(CoreError::Fs(m)),
            None => Err(CoreError::RootNotSet),
        }
    }

    fn commit_arrival(&mut self, request: &TransferRequest, outcome: Result<EntryPath, String>) -> (r: Result<
        EntryPath,
        CoreError,
    >)
        ensures
            final(self)@.refresh == old(self)@.refresh,
            match outcome {
                Err(m) => r matches Err(e) && e@ == CoreErrorView::Fs(m@) && final(self)@ == old(self)@,
                Ok(placed) => r matches Ok(p) && p@ == placed@ && final(self)@.ws == (WorkspaceStateView {
                    expanded: old(self)@.ws.expanded.insert(request.target_dir@),
                    selected: Some(placed@),
                    ..old(self)@.ws
                }),
            },
    {
        match outcome {
            Err(m) => Err(CoreError::Fs(m)),
            Ok(placed) => {
                self.workspace_state.expanded_paths.insert(request.target_dir.clone());
                self.workspace_state.selected_path = Some(placed.clone());
                Ok(placed)
            },
        }
    }

    /// Records a copy as `request` decided, given the outcome of the
    /// filesystem call (the path of the copy): the target directory is
    /// expanded and the copy selected. A failed call changes nothing.
    pub fn copy_selected_to(&mut self, request: &TransferRequest, outcome: Result<EntryPath, String>) -> (r: Result<
        EntryPath,
        CoreError,
    >)
        ensures
            final(self)@.refresh == old(self)@.refresh,
            match outcome {
                Err(m) => r matches Err(e) && e@ == CoreErrorView::Fs(m@) && final(self)@ == old(self)@,
                Ok(placed) => r matches Ok(p) && p@ == placed@ && final(self)@.ws == (WorkspaceStateView {
                    expanded: old(self)@.ws.expanded.insert(request.target_dir@),
                    selected: Some(placed@),
                    ..old(self)@.ws
                }),
            },
    {
        self.commit_arrival(request, outcome)
    }

    /// Records an import as `request` decided, given the outcome of the
    /// filesystem call (the path of the imported entry): the target
    /// directory is expanded and the entry selected. A failed call changes
    /// nothing.
    pub fn import_entry_into_workspace(&mut self, request: &TransferRequest, outcome: Result<EntryPath, String>) -> (r:
        Result<EntryPath, CoreError>)
        ensures
            final(self)@.refresh == old(self)@.refresh,
            match outcome {
                Err(m) => r matches Err(e) && e@ == CoreErrorView::Fs(m@) && final(self)@ == old(self)@,
                Ok(placed) => r matches Ok(p) && p@ == placed@ && final(self)@.ws == (WorkspaceStateView {
                    expanded: old(self)@.ws.expanded.insert(request.target_dir@),
                    selected: Some(placed@),
                    ..old(self)@.ws
                }),
            },
    {
        self.commit_arrival(request, outcome)
    }

    /// Moves every expanded path under `old_prefix` to the same place under
    /// `new_prefix`; the root stays expanded.
    fn remap_expanded_prefix(&mut self, old_prefix: &EntryPath, new_prefix: &EntryPath)
        ensures
            final(self)@.refresh == old(self)@.refresh,
            final(self)@.ws == (WorkspaceStateView {
                expanded: remapped(old(self)@.ws.expanded, old(self)@.ws.root, old_prefix@, new_prefix@),
                ..old(self)@.ws
            }),
    {
        let mut moved = self.workspace_state.expanded_paths.rebased(old_prefix, new_prefix);
        if let Some(root) = &self.workspace_state.workspace_root {
            moved.insert(root.clone());
        }
        self.workspace_state.expanded_paths = moved;
    }

    /// Records a move as `request` decided, given the outcome of the
    /// filesystem call (the new path of the entry): expanded directories
    /// under the old path follow it, the target directory is expanded, and
    /// the moved entry is selected. A failed call changes nothing.
    pub fn move_selected_to(&mut self, request: &TransferRequest, outcome: Result<EntryPath, String>) -> (r: Result<
        EntryPath,
        CoreError,
    >)
        ensures
            final(self)@.refresh == old(self)@.refresh,
            match outcome {
                Err(m) => r matches Err(e) && e@ == CoreErrorView::Fs(m@) && final(self)@ == old(self)@,
                Ok(moved) => r matches Ok(p) && p@ == moved@ && final(self)@.ws == (WorkspaceStateView {
                    expanded: remapped(old(self)@.ws.expanded, old(self)@.ws.root, request.source@, moved@).insert(
                        request.target_dir@,
                    ),
                    selected: Some(moved@),
                    ..old(self)@.ws
                }),
            },
    {
        match outcome {
            Err(m) => Err(CoreError::Fs(m)),
            Ok(moved) => {
                self.remap_expanded_prefix(&request.source, &moved);
                self.workspace_state.expanded_paths.insert(request.target_dir.clone());
                self.workspace_state.selected_path = Some(moved.clone());
                Ok(moved)
            },
        }
    }

    /// The selected entry as `selected_stat` (a stat of the selected path)
    /// reports it.
    pub fn selected_entry(&self, selected_stat: Option<Result<EntryInfo, String>>) -> (r: Result<
        Option<EntryInfo>,
        CoreError,
    >)
        requires
            self@.ws.selected is Some ==> selected_stat is Some,
        ensures
            match self@.ws.root {
                None => r matches Err(e) && e@ == CoreErrorView::RootNotSet,
                Some(_) => match self@.ws.selected {
                    None => r matches Ok(None),
                    Some(_) => match opt_stat_view(selected_stat) {
                        Some(Ok(e)) => r matches Ok(Some(x)) && x@ == e,
                        Some(Err(m)) => r matches Err(e) && e@ == CoreErrorView::Fs(m),
                        None => false,
                    },
                },
            },
    {
        match self.required_root() {
            Ok(_) => {},
            Err(e) => return Err(e),
        }
        if self.workspace_state.selected_path.is_none() {
            return Ok(None);
        }
        match selected_stat {
            Some(Ok(entry)) => Ok(Some(entry)),
            Some(Err(m)) => Err(CoreError::Fs(m)),
            None => Err(CoreError::RootNotSet),
        }
    }
}

pub open spec fn result_path_view(r: Result<EntryPath, CoreError>) -> Result<PathView, CoreErrorView> {
    match r {
        Ok(p) => Ok(p@),
        Err(e) => Err(e@),
    }
}

} // verus!
