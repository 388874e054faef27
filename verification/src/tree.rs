use vstd::prelude::*;

use crate::app_core::{opt_ref_path_view, AppCore, AppCoreView, TreeNode, TreeNodeView};
use crate::error::{CoreError, CoreErrorView};
use crate::fs_adapter::{entries_view, EntryInfo, EntryInfoView};
use crate::paths::{EntryPath, PathSet, PathView};

verus! {

/// What listing a directory gave: its entries in display order, or the
/// message of the failure.
#[derive(Debug)]
pub struct DirListing {
    pub dir: EntryPath,
    pub entries: Result<Vec<EntryInfo>, String>,
}

pub struct DirListingView {
    pub dir: PathView,
    pub entries: Result<Seq<EntryInfoView>, Seq<char>>,
}

impl View for DirListing {
    type V = DirListingView;

    open spec fn view(&self) -> DirListingView {
        DirListingView {
            dir: self.dir@,
            entries: match self.entries {
                Ok(v) => Ok(entries_view(v@)),
                Err(m) => Err(m@),
            },
        }
    }
}

pub open spec fn listings_view(ls: Seq<DirListing>) -> Seq<DirListingView> {
    ls.map_values(|l: DirListing| l@)
}

pub open spec fn nodes_view(nodes: Seq<TreeNode>) -> Seq<TreeNodeView> {
    nodes.map_values(|n: TreeNode| n@)
}

/// The listing given for `dir`: the first one that names it.
pub open spec fn listing_for(ls: Seq<DirListingView>, dir: PathView) -> Option<Result<Seq<EntryInfoView>, Seq<char>>>
    decreases ls.len(),
{
    if ls.len() == 0 {
        None
    } else if ls[0].dir == dir {
        Some(ls[0].entries)
    } else {
        listing_for(ls.drop_first(), dir)
    }
}

/// How building the tree ends: with its rows, with the first error met, or
/// by running out of the given number of nested expansions.
pub enum TreeOutcome {
    Nodes(Seq<TreeNodeView>),
    Failed(CoreErrorView),
    Exhausted,
}

/// The tree row of a directory entry shown at `depth`.
pub open spec fn entry_row(e: EntryInfoView, depth: int) -> TreeNodeView {
    TreeNodeView { path: e.path, name: e.name, depth, is_dir: e.is_dir }
}

/// The rows under directory `dir`, itself shown at `depth`: nothing unless
/// it is expanded; else each entry of its listing, in order, each followed
/// by the rows under it. At most `fuel` expanded directories are entered
/// one inside another.
pub open spec fn dir_rows(
    expanded: Set<PathView>,
    ls: Seq<DirListingView>,
    dir: PathView,
    depth: int,
    fuel: nat,
) -> TreeOutcome
    decreases fuel, 0int,
{
    if !expanded.contains(dir) {
        TreeOutcome::Nodes(Seq::empty())
    } else if fuel == 0 {
        TreeOutcome::Exhausted
    } else {
        match listing_for(ls, dir) {
            None => TreeOutcome::Failed(CoreErrorView::Unlisted(dir)),
            Some(Err(m)) => TreeOutcome::Failed(CoreErrorView::Fs(m)),
            Some(Ok(children)) => entry_rows(expanded, ls, children, 0, depth, (fuel - 1) as nat),
        }
    }
}

/// The rows of the entries `children[i..]` of a directory shown at `depth`.
pub open spec fn entry_rows(
    expanded: Set<PathView>,
    ls: Seq<DirListingView>,
    children: Seq<EntryInfoView>,
    i: int,
    depth: int,
    fuel: nat,
) -> TreeOutcome
    decreases fuel, children.len() - i,
{
    if i < 0 || i >= children.len() {
        TreeOutcome::Nodes(Seq::empty())
    } else {
        let c = children[i];
        let sub = if c.is_dir {
            dir_rows(expanded, ls, c.path, depth + 1, fuel)
        } else {
            TreeOutcome::Nodes(Seq::empty())
        };
        match sub {
            TreeOutcome::Nodes(s) => match entry_rows(expanded, ls, children, i + 1, depth, fuel) {
                TreeOutcome::Nodes(rest) => TreeOutcome::Nodes(seq![entry_row(c, depth + 1)] + s + rest),
                other => other,
            },
            other => other,
        }
    }
}

/// The visible tree: the root row, then the rows under the root; empty
/// without a root.
pub open spec fn spec_visible_tree(v: AppCoreView, ls: Seq<DirListingView>, fuel: nat) -> TreeOutcome {
    match v.ws.root {
        None => TreeOutcome::Nodes(Seq::empty()),
        Some(root) => {
            let root_row = TreeNodeView { path: root, name: root.display_name(), depth: 0, is_dir: true };
            match dir_rows(v.ws.expanded, ls, root, 0, fuel) {
                TreeOutcome::Nodes(s) => TreeOutcome::Nodes(seq![root_row] + s),
                other => other,
            }
        },
    }
}

/// The visible tree with as many nested expansions as there are expanded
/// directories: enough for any tree in which no directory lies under
/// itself.
pub open spec fn visible_tree_of(v: AppCoreView, ls: Seq<DirListingView>) -> TreeOutcome {
    spec_visible_tree(v, ls, v.ws.expanded.len())
}


proof fn lemma_dir_rows_deeper(expanded: Set<PathView>, ls: Seq<DirListingView>, dir: PathView, depth: int, fuel: nat)
    ensures
        dir_rows(expanded, ls, dir, depth, fuel) matches TreeOutcome::Nodes(s) ==> forall|k: int|
            0 <= k < s.len() ==> #[trigger] s[k].depth > depth,
    decreases fuel, 0int,
{
    if expanded.contains(dir) && fuel > 0 {
        if let Some(Ok(children)) = listing_for(ls, dir) {
            lemma_entry_rows_deeper(expanded, ls, children, 0, depth, (fuel - 1) as nat);
        }
    }
}

proof fn lemma_entry_rows_deeper(
    expanded: Set<PathView>,
    ls: Seq<DirListingView>,
    children: Seq<EntryInfoView>,
    i: int,
    depth: int,
    fuel: nat,
)
    ensures
        entry_rows(expanded, ls, children, i, depth, fuel) matches TreeOutcome::Nodes(s) ==> forall|k: int|
            0 <= k < s.len() ==> #[trigger] s[k].depth > depth,
    decreases fuel, children.len() - i,
{
    if 0 <= i < children.len() {
        let c = children[i];
        if c.is_dir {
            lemma_dir_rows_deeper(expanded, ls, c.path, depth + 1, fuel);
        }
        lemma_entry_rows_deeper(expanded, ls, children, i + 1, depth, fuel);
        let sub = if c.is_dir {
            dir_rows(expanded, ls, c.path, depth + 1, fuel)
        } else {
            TreeOutcome::Nodes(Seq::empty())
        };
        if let TreeOutcome::Nodes(sv) = sub {
            if let TreeOutcome::Nodes(rest) = entry_rows(expanded, ls, children, i + 1, depth, fuel) {
                let all = seq![entry_row(c, depth + 1)] + sv + rest;
                assert forall|k: int| 0 <= k < all.len() implies #[trigger] all[k].depth > depth by {
                    if k == 0 {
                    } else if k < 1 + sv.len() {
                        assert(all[k] == sv[k - 1]);
                    } else {
                        assert(all[k] == rest[k - 1 - sv.len()]);
                    }
                }
            }
        }
    }
}

/// Law: the tree opens with the root, as a directory at depth zero, and
/// every other row lies deeper; a collapsed root shows nothing beneath it.
pub proof fn lemma_tree_starts_at_root(v: AppCoreView, ls: Seq<DirListingView>, fuel: nat)
    requires
        v.ws.root is Some,
        spec_visible_tree(v, ls, fuel) is Nodes,
    ensures
        ({
            let s = spec_visible_tree(v, ls, fuel)->Nodes_0;
            let root = v.ws.root->0;
            &&& s.len() >= 1
            &&& s[0] == (TreeNodeView { path: root, name: root.display_name(), depth: 0, is_dir: true })
            &&& forall|k: int| 1 <= k < s.len() ==> #[trigger] s[k].depth >= 1
            &&& !v.ws.expanded.contains(root) ==> s.len() == 1
        }),
{
    let root = v.ws.root->0;
    lemma_dir_rows_deeper(v.ws.expanded, ls, root, 0, fuel);
    let s = spec_visible_tree(v, ls, fuel)->Nodes_0;
    if let TreeOutcome::Nodes(below) = dir_rows(v.ws.expanded, ls, root, 0, fuel) {
        assert forall|k: int| 1 <= k < s.len() implies #[trigger] s[k].depth >= 1 by {
            assert(s[k] == below[k - 1]);
        }
    }
}


/// The step from row `k - 1` to row `k`: at most one level deeper, and one
/// level deeper only below an expanded directory.
pub open spec fn step_at(expanded: Set<PathView>, s: Seq<TreeNodeView>, k: int) -> bool {
    &&& s[k].depth <= s[k - 1].depth + 1
    &&& s[k].depth == s[k - 1].depth + 1 ==> s[k - 1].is_dir && expanded.contains(s[k - 1].path)
}

/// Every step between neighbouring rows is a [`step_at`].
pub open spec fn steps_down_one(expanded: Set<PathView>, s: Seq<TreeNodeView>) -> bool {
    forall|k: int| 1 <= k < s.len() ==> #[trigger] step_at(expanded, s, k)
}

proof fn lemma_dir_rows_steps(expanded: Set<PathView>, ls: Seq<DirListingView>, dir: PathView, depth: int, fuel: nat)
    ensures
        dir_rows(expanded, ls, dir, depth, fuel) matches TreeOutcome::Nodes(s) ==> {
            &&& steps_down_one(expanded, s)
            &&& s.len() > 0 ==> s[0].depth == depth + 1 && expanded.contains(dir)
        },
    decreases fuel, 0int,
{
    if expanded.contains(dir) && fuel > 0 {
        if let Some(Ok(children)) = listing_for(ls, dir) {
            lemma_entry_rows_steps(expanded, ls, children, 0, depth, (fuel - 1) as nat);
        }
    }
}

proof fn lemma_entry_rows_steps(
    expanded: Set<PathView>,
    ls: Seq<DirListingView>,
    children: Seq<EntryInfoView>,
    i: int,
    depth: int,
    fuel: nat,
)
    ensures
        entry_rows(expanded, ls, children, i, depth, fuel) matches TreeOutcome::Nodes(s) ==> {
            &&& steps_down_one(expanded, s)
            &&& s.len() > 0 ==> s[0].depth == depth + 1
        },
    decreases fuel, children.len() - i,
{
    if 0 <= i < children.len() {
        let c = children[i];
        if c.is_dir {
            lemma_dir_rows_steps(expanded, ls, c.path, depth + 1, fuel);
            lemma_dir_rows_deeper(expanded, ls, c.path, depth + 1, fuel);
        }
        lemma_entry_rows_steps(expanded, ls, children, i + 1, depth, fuel);
        let sub = if c.is_dir {
            dir_rows(expanded, ls, c.path, depth + 1, fuel)
        } else {
            TreeOutcome::Nodes(Seq::empty())
        };
        if let TreeOutcome::Nodes(sv) = sub {
            if let TreeOutcome::Nodes(rest) = entry_rows(expanded, ls, children, i + 1, depth, fuel) {
                let row = entry_row(c, depth + 1);
                let all = seq![row] + sv + rest;
                let n = sv.len() as int;
                assert forall|k: int| 1 <= k < all.len() implies #[trigger] step_at(expanded, all, k) by {
                    if k <= n {
                        assert(all[k] == sv[k - 1]);
                        if k == 1 {
                            assert(all[k - 1] == row);
                        } else {
                            assert(all[k - 1] == sv[k - 2]);
                            assert(step_at(expanded, sv, k - 1));
                        }
                    } else if k == n + 1 {
                        assert(all[k] == rest[0]);
                        if n > 0 {
                            assert(all[k - 1] == sv[n - 1]);
                            assert(sv[n - 1].depth > depth + 1);
                        } else {
                            assert(all[k - 1] == row);
                        }
                    } else {
                        assert(all[k] == rest[k - 1 - n]);
                        assert(all[k - 1] == rest[k - 2 - n]);
                        assert(step_at(expanded, rest, k - 1 - n));
                    }
                }
            }
        }
    }
}

/// Law: going down the tree, each row lies at most one level deeper than
/// the row before it, and a row one level deeper comes right after an
/// expanded directory.
pub proof fn lemma_tree_depth_steps(v: AppCoreView, ls: Seq<DirListingView>, fuel: nat)
    requires
        spec_visible_tree(v, ls, fuel) is Nodes,
    ensures
        steps_down_one(v.ws.expanded, spec_visible_tree(v, ls, fuel)->Nodes_0),
{
    if let Some(root) = v.ws.root {
        lemma_dir_rows_steps(v.ws.expanded, ls, root, 0, fuel);
        let s = spec_visible_tree(v, ls, fuel)->Nodes_0;
        if let TreeOutcome::Nodes(below) = dir_rows(v.ws.expanded, ls, root, 0, fuel) {
            assert forall|k: int| 1 <= k < s.len() implies #[trigger] step_at(v.ws.expanded, s, k) by {
                assert(s[k] == below[k - 1]);
                if k > 1 {
                    assert(s[k - 1] == below[k - 2]);
                    assert(step_at(v.ws.expanded, below, k - 1));
                }
            }
        }
    }
}

/// Two spaces for each level of depth.
pub open spec fn indent(depth: nat) -> Seq<char>
    decreases depth,
{
    if depth == 0 {
        Seq::empty()
    } else {
        indent((depth - 1) as nat) + "  "@
    }
}

/// The text of a tree row: the indent of its depth, `*` when it is the
/// selection (else a space), then `[-]` for an expanded directory, `[+]`
/// for a collapsed one or `[f]` for anything else, then the name.
pub open spec fn row_label(node: TreeNodeView, selected: bool, expanded: bool) -> Seq<char> {
    indent(node.depth as nat) + (if selected {
        "*"@
    } else {
        " "@
    }) + " "@ + (if !node.is_dir {
        "[f]"@
    } else if expanded {
        "[-]"@
    } else {
        "[+]"@
    }) + " "@ + node.name
}

/// The label of a tree row, given the selected path and the expanded
/// directories.
pub fn tree_row_label(node: &TreeNode, selected: Option<&EntryPath>, expanded: &PathSet) -> (r: String)
    ensures
        r@ == row_label(
            node@,
            opt_ref_path_view(selected) == Some(node.path@),
            expanded@.contains(node.path@),
        ),
{
    let mut out = String::new();
    let mut i: usize = 0;
    while i < node.depth
        invariant
            i <= node.depth,
            out@ == indent(i as nat),
        decreases node.depth - i,
    {
        out.append("  ");
        i = i + 1;
    }
    let is_selected = match selected {
        Some(p) => p.same_path(&node.path),
        None => false,
    };
    if is_selected {
        out.append("*");
    } else {
        out.append(" ");
    }
    out.append(" ");
    if !node.is_dir {
        out.append("[f]");
    } else if expanded.contains(&node.path) {
        out.append("[-]");
    } else {
        out.append("[+]");
    }
    out.append(" ");
    out.append(node.name.as_str());
    proof {
        let sel = opt_ref_path_view(selected) == Some(node.path@);
        assert(is_selected == sel);
        assert(out@ =~= row_label(node@, sel, expanded@.contains(node.path@)));
    }
    out
}

/// The rows at depth `d`, in order.
pub open spec fn rows_at_depth(s: Seq<TreeNodeView>, d: int) -> Seq<TreeNodeView> {
    s.filter(|r: TreeNodeView| r.depth == d)
}

/// The rows of the entries of a listing, shown at `depth`.
pub open spec fn entry_rows_at(children: Seq<EntryInfoView>, depth: int) -> Seq<TreeNodeView> {
    children.map_values(|c: EntryInfoView| entry_row(c, depth))
}

proof fn lemma_filter_single(row: TreeNodeView, d: int)
    ensures
        rows_at_depth(seq![row], d) == (if row.depth == d {
            seq![row]
        } else {
            Seq::<TreeNodeView>::empty()
        }),
{
    reveal(Seq::filter);
    assert(seq![row].drop_last() =~= Seq::<TreeNodeView>::empty());
    assert(Seq::<TreeNodeView>::empty().filter(|r: TreeNodeView| r.depth == d) =~= Seq::<TreeNodeView>::empty());
}

proof fn lemma_filter_none_at(s: Seq<TreeNodeView>, d: int)
    requires
        forall|k: int| 0 <= k < s.len() ==> #[trigger] s[k].depth > d,
    ensures
        rows_at_depth(s, d) == Seq::<TreeNodeView>::empty(),
{
    let f = |r: TreeNodeView| r.depth == d;
    assert(s.all(|x: TreeNodeView| !f(x)));
    s.lemma_all_neg_filter_empty(f);
    assert(s.filter(f) =~= Seq::<TreeNodeView>::empty());
}

proof fn lemma_entry_rows_next_level(
    expanded: Set<PathView>,
    ls: Seq<DirListingView>,
    children: Seq<EntryInfoView>,
    i: int,
    depth: int,
    fuel: nat,
)
    requires
        0 <= i <= children.len(),
    ensures
        entry_rows(expanded, ls, children, i, depth, fuel) matches TreeOutcome::Nodes(s) ==> rows_at_depth(s, depth + 1)
            == entry_rows_at(children.skip(i), depth + 1),
    decreases children.len() - i,
{
    if i == children.len() {
        reveal(Seq::filter);
        assert(entry_rows_at(children.skip(i), depth + 1) =~= Seq::<TreeNodeView>::empty());
    } else {
        let c = children[i];
        if c.is_dir {
            lemma_dir_rows_deeper(expanded, ls, c.path, depth + 1, fuel);
        }
        lemma_entry_rows_next_level(expanded, ls, children, i + 1, depth, fuel);
        let sub = if c.is_dir {
            dir_rows(expanded, ls, c.path, depth + 1, fuel)
        } else {
            TreeOutcome::Nodes(Seq::empty())
        };
        if let TreeOutcome::Nodes(sv) = sub {
            if let TreeOutcome::Nodes(rest) = entry_rows(expanded, ls, children, i + 1, depth, fuel) {
                let row = entry_row(c, depth + 1);
                let f = |r: TreeNodeView| r.depth == depth + 1;
                Seq::filter_distributes_over_add(seq![row] + sv, rest, f);
                Seq::filter_distributes_over_add(seq![row], sv, f);
                lemma_filter_single(row, depth + 1);
                lemma_filter_none_at(sv, depth + 1);
                assert(seq![row] + sv + rest == entry_rows(expanded, ls, children, i, depth, fuel)->Nodes_0);
                assert(entry_rows_at(children.skip(i), depth + 1) =~= seq![row] + entry_rows_at(
                    children.skip(i + 1),
                    depth + 1,
                ));
                assert(rows_at_depth(seq![row] + sv + rest, depth + 1) =~= seq![row] + Seq::<TreeNodeView>::empty()
                    + rows_at_depth(rest, depth + 1));
            }
        }
    }
}

/// Law: an expanded directory whose listing succeeded shows every entry of
/// that listing, in order, one level below it: the rows at the next level
/// beneath it are exactly its entries, and every row beneath it lies deeper
/// than it.
pub proof fn lemma_expanded_directory_shows_its_entries(
    expanded: Set<PathView>,
    ls: Seq<DirListingView>,
    dir: PathView,
    depth: int,
    fuel: nat,
    children: Seq<EntryInfoView>,
)
    requires
        dir_rows(expanded, ls, dir, depth, fuel) is Nodes,
        expanded.contains(dir),
        listing_for(ls, dir) == Some(Ok::<Seq<EntryInfoView>, Seq<char>>(children)),
    ensures
        rows_at_depth(dir_rows(expanded, ls, dir, depth, fuel)->Nodes_0, depth + 1) == entry_rows_at(children, depth + 1),
        forall|k: int|
            0 <= k < dir_rows(expanded, ls, dir, depth, fuel)->Nodes_0.len() ==> #[trigger] dir_rows(
                expanded,
                ls,
                dir,
                depth,
                fuel,
            )->Nodes_0[k].depth > depth,
{
    lemma_dir_rows_deeper(expanded, ls, dir, depth, fuel);
    lemma_entry_rows_next_level(expanded, ls, children, 0, depth, (fuel - 1) as nat);
    assert(children.skip(0) =~= children);
}

/// Whether the row at `k`, when it is an expanded directory whose listing
/// succeeded with some entries, is followed right away by the row of its
/// first entry, one level deeper.
pub open spec fn first_entry_follows(expanded: Set<PathView>, ls: Seq<DirListingView>, s: Seq<TreeNodeView>, k: int) -> bool {
    (s[k].is_dir && expanded.contains(s[k].path)) ==> match listing_for(ls, s[k].path) {
        Some(Ok(children)) => children.len() > 0 ==> k + 1 < s.len() && s[k + 1] == entry_row(
            children[0],
            s[k].depth + 1,
        ),
        _ => true,
    }
}

proof fn lemma_dir_rows_first_entries(expanded: Set<PathView>, ls: Seq<DirListingView>, dir: PathView, depth: int, fuel: nat)
    ensures
        dir_rows(expanded, ls, dir, depth, fuel) matches TreeOutcome::Nodes(s) ==> {
            &&& forall|k: int| 0 <= k < s.len() ==> #[trigger] first_entry_follows(expanded, ls, s, k)
            &&& expanded.contains(dir) ==> (listing_for(ls, dir) matches Some(Ok(ch)) ==> (ch.len() > 0 ==> s.len()
                > 0 && s[0] == entry_row(ch[0], depth + 1)))
        },
    decreases fuel, 0int,
{
    if expanded.contains(dir) && fuel > 0 {
        if let Some(Ok(children)) = listing_for(ls, dir) {
            lemma_entry_rows_first_entries(expanded, ls, children, 0, depth, (fuel - 1) as nat);
        }
    }
}

proof fn lemma_entry_rows_first_entries(
    expanded: Set<PathView>,
    ls: Seq<DirListingView>,
    children: Seq<EntryInfoView>,
    i: int,
    depth: int,
    fuel: nat,
)
    ensures
        entry_rows(expanded, ls, children, i, depth, fuel) matches TreeOutcome::Nodes(s) ==> {
            &&& forall|k: int| 0 <= k < s.len() ==> #[trigger] first_entry_follows(expanded, ls, s, k)
            &&& 0 <= i < children.len() ==> s.len() > 0 && s[0] == entry_row(children[i], depth + 1)
        },
    decreases fuel, children.len() - i,
{
    if 0 <= i < children.len() {
        let c = children[i];
        if c.is_dir {
            lemma_dir_rows_first_entries(expanded, ls, c.path, depth + 1, fuel);
        }
        lemma_entry_rows_first_entries(expanded, ls, children, i + 1, depth, fuel);
        let sub = if c.is_dir {
            dir_rows(expanded, ls, c.path, depth + 1, fuel)
        } else {
            TreeOutcome::Nodes(Seq::empty())
        };
        if let TreeOutcome::Nodes(sv) = sub {
            if let TreeOutcome::Nodes(rest) = entry_rows(expanded, ls, children, i + 1, depth, fuel) {
                let row = entry_row(c, depth + 1);
                let all = seq![row] + sv + rest;
                let n = sv.len() as int;
                assert forall|k: int| 0 <= k < all.len() implies #[trigger] first_entry_follows(expanded, ls, all, k) by {
                    if k == 0 {
                        assert(all[0] == row);
                        if n > 0 {
                            assert(all[1] == sv[0]);
                        }
                    } else if k <= n {
                        assert(all[k] == sv[k - 1]);
                        assert(first_entry_follows(expanded, ls, sv, k - 1));
                        if k < n {
                            assert(all[k + 1] == sv[k]);
                        }
                    } else {
                        assert(all[k] == rest[k - 1 - n]);
                        assert(first_entry_follows(expanded, ls, rest, k - 1 - n));
                        if k - n < rest.len() {
                            assert(all[k + 1] == rest[k - n]);
                        }
                    }
                }
            }
        }
    }
}

/// Law: in the tree, every expanded directory whose listing has entries is
/// followed right away by the row of its first entry, one level deeper; a
/// shown expanded directory never hides its contents.
pub proof fn lemma_tree_shows_first_entries(v: AppCoreView, ls: Seq<DirListingView>, fuel: nat)
    requires
        spec_visible_tree(v, ls, fuel) is Nodes,
    ensures
        forall|k: int|
            0 <= k < spec_visible_tree(v, ls, fuel)->Nodes_0.len() ==> #[trigger] first_entry_follows(
                v.ws.expanded,
                ls,
                spec_visible_tree(v, ls, fuel)->Nodes_0,
                k,
            ),
{
    if let Some(root) = v.ws.root {
        lemma_dir_rows_first_entries(v.ws.expanded, ls, root, 0, fuel);
        let s = spec_visible_tree(v, ls, fuel)->Nodes_0;
        if let TreeOutcome::Nodes(below) = dir_rows(v.ws.expanded, ls, root, 0, fuel) {
            assert forall|k: int| 0 <= k < s.len() implies #[trigger] first_entry_follows(v.ws.expanded, ls, s, k) by {
                if k == 0 {
                    if below.len() > 0 {
                        assert(s[1] == below[0]);
                    }
                } else {
                    assert(s[k] == below[k - 1]);
                    assert(first_entry_follows(v.ws.expanded, ls, below, k - 1));
                    if k < below.len() {
                        assert(s[k + 1] == below[k]);
                    }
                }
            }
        }
    }
}

/// The `j`-th entry that the listing of `dir` gave, when `dir` is expanded
/// and its listing succeeded.
pub open spec fn listed_entry(expanded: Set<PathView>, ls: Seq<DirListingView>, dir: PathView, j: int) -> Option<
    EntryInfoView,
> {
    if expanded.contains(dir) {
        match listing_for(ls, dir) {
            Some(Ok(children)) => if 0 <= j < children.len() {
                Some(children[j])
            } else {
                None
            },
            _ => None,
        }
    } else {
        None
    }
}

/// A row that shows an entry listed for an expanded directory.
pub open spec fn shows_listed_entry(expanded: Set<PathView>, ls: Seq<DirListingView>, row: TreeNodeView) -> bool {
    exists|dir: PathView, j: int|
        #[trigger] listed_entry(expanded, ls, dir, j) matches Some(e) && row == entry_row(e, row.depth)
}

proof fn lemma_dir_rows_listed(expanded: Set<PathView>, ls: Seq<DirListingView>, dir: PathView, depth: int, fuel: nat)
    ensures
        dir_rows(expanded, ls, dir, depth, fuel) matches TreeOutcome::Nodes(s) ==> forall|k: int|
            0 <= k < s.len() ==> shows_listed_entry(expanded, ls, #[trigger] s[k]),
    decreases fuel, 0int,
{
    if expanded.contains(dir) && fuel > 0 {
        if let Some(Ok(children)) = listing_for(ls, dir) {
            lemma_entry_rows_listed(expanded, ls, dir, children, 0, depth, (fuel - 1) as nat);
        }
    }
}

proof fn lemma_entry_rows_listed(
    expanded: Set<PathView>,
    ls: Seq<DirListingView>,
    dir: PathView,
    children: Seq<EntryInfoView>,
    i: int,
    depth: int,
    fuel: nat,
)
    requires
        expanded.contains(dir),
        listing_for(ls, dir) == Some(Ok::<Seq<EntryInfoView>, Seq<char>>(children)),
    ensures
        entry_rows(expanded, ls, children, i, depth, fuel) matches TreeOutcome::Nodes(s) ==> forall|k: int|
            0 <= k < s.len() ==> shows_listed_entry(expanded, ls, #[trigger] s[k]),
    decreases fuel, children.len() - i,
{
    if 0 <= i < children.len() {
        let c = children[i];
        if c.is_dir {
            lemma_dir_rows_listed(expanded, ls, c.path, depth + 1, fuel);
        }
        lemma_entry_rows_listed(expanded, ls, dir, children, i + 1, depth, fuel);
        let sub = if c.is_dir {
            dir_rows(expanded, ls, c.path, depth + 1, fuel)
        } else {
            TreeOutcome::Nodes(Seq::empty())
        };
        if let TreeOutcome::Nodes(sv) = sub {
            if let TreeOutcome::Nodes(rest) = entry_rows(expanded, ls, children, i + 1, depth, fuel) {
                let all = seq![entry_row(c, depth + 1)] + sv + rest;
                assert forall|k: int| 0 <= k < all.len() implies shows_listed_entry(expanded, ls, #[trigger] all[k]) by {
                    if k == 0 {
                        assert(listed_entry(expanded, ls, dir, i) == Some(c));
                        assert(all[0] == entry_row(c, all[0].depth));
                    } else if k < 1 + sv.len() {
                        assert(all[k] == sv[k - 1]);
                    } else {
                        assert(all[k] == rest[k - 1 - sv.len()]);
                    }
                }
            }
        }
    }
}

/// Law: below the root, the tree shows nothing but entries that the
/// listings of expanded directories gave; a collapsed directory's contents
/// never appear.
pub proof fn lemma_tree_rows_are_listed(v: AppCoreView, ls: Seq<DirListingView>, fuel: nat)
    requires
        spec_visible_tree(v, ls, fuel) is Nodes,
    ensures
        forall|k: int|
            1 <= k < spec_visible_tree(v, ls, fuel)->Nodes_0.len() ==> shows_listed_entry(
                v.ws.expanded,
                ls,
                #[trigger] spec_visible_tree(v, ls, fuel)->Nodes_0[k],
            ),
{
    if let Some(root) = v.ws.root {
        lemma_dir_rows_listed(v.ws.expanded, ls, root, 0, fuel);
        let s = spec_visible_tree(v, ls, fuel)->Nodes_0;
        if let TreeOutcome::Nodes(below) = dir_rows(v.ws.expanded, ls, root, 0, fuel) {
            assert forall|k: int| 1 <= k < s.len() implies shows_listed_entry(v.ws.expanded, ls, #[trigger] s[k]) by {
                assert(s[k] == below[k - 1]);
            }
        }
    }
}

enum TreeHalt {
    Failed(CoreError),
    Exhausted,
}

spec fn halt_matches(r: Result<(), TreeHalt>, o: TreeOutcome) -> bool {
    match o {
        TreeOutcome::Nodes(_) => r is Ok,
        TreeOutcome::Failed(e) => r matches Err(TreeHalt::Failed(x)) && x@ == e,
        TreeOutcome::Exhausted => r matches Err(TreeHalt::Exhausted),
    }
}

spec fn appended(old_nodes: Seq<TreeNode>, new_nodes: Seq<TreeNode>, o: TreeOutcome) -> bool {
    o matches TreeOutcome::Nodes(s) ==> nodes_view(new_nodes) == nodes_view(old_nodes) + s
}

/// The rows already there stay, in their places, whatever the outcome: a
/// walk only ever appends.
spec fn keeps_prefix(old_nodes: Seq<TreeNode>, new_nodes: Seq<TreeNode>) -> bool {
    &&& old_nodes.len() <= new_nodes.len()
    &&& forall|k: int| 0 <= k < old_nodes.len() ==> #[trigger] new_nodes[k] == old_nodes[k]
}

proof fn lemma_listing_found(ls: Seq<DirListingView>, dir: PathView, i: int)
    requires
        0 <= i < ls.len(),
        ls[i].dir == dir,
        forall|k: int| 0 <= k < i ==> ls[k].dir != dir,
    ensures
        listing_for(ls, dir) == Some(ls[i].entries),
    decreases i,
{
    if i > 0 {
        let t = ls.drop_first();
        assert forall|k: int| 0 <= k < i - 1 implies t[k].dir != dir by {
            assert(t[k] == ls[k + 1]);
        }
        lemma_listing_found(t, dir, i - 1);
    }
}

proof fn lemma_listing_absent(ls: Seq<DirListingView>, dir: PathView)
    requires
        forall|k: int| 0 <= k < ls.len() ==> ls[k].dir != dir,
    ensures
        listing_for(ls, dir) is None,
    decreases ls.len(),
{
    if ls.len() > 0 {
        let t = ls.drop_first();
        assert forall|k: int| 0 <= k < t.len() implies t[k].dir != dir by {
            assert(t[k] == ls[k + 1]);
        }
        lemma_listing_absent(t, dir);
    }
}

fn find_listing(listings: &Vec<DirListing>, dir: &EntryPath) -> (r: Option<usize>)
    ensures
        match r {
            Some(i) => i < listings@.len() && listing_for(listings_view(listings@), dir@) == Some(
                listings@[i as int]@.entries,
            ),
            None => listing_for(listings_view(listings@), dir@) is None,
        },
{
    let ghost lv = listings_view(listings@);
    let mut i: usize = 0;
    while i < listings.len()
        invariant
            i <= listings@.len(),
            lv == listings_view(listings@),
            forall|k: int| 0 <= k < i ==> lv[k].dir != dir@,
        decreases listings.len() - i,
    {
        if listings[i].dir.same_path(dir) {
            proof {
                lemma_listing_found(lv, dir@, i as int);
            }
            return Some(i);
        }
        i = i + 1;
    }
    proof {
        lemma_listing_absent(lv, dir@);
    }
    None
}

fn collect_dir_children(
    expanded: &PathSet,
    listings: &Vec<DirListing>,
    dir: &EntryPath,
    depth: usize,
    fuel: usize,
    nodes: &mut Vec<TreeNode>,
) -> (r: Result<(), TreeHalt>)
    requires
        depth + fuel <= usize::MAX,
    ensures
        halt_matches(r, dir_rows(expanded@, listings_view(listings@), dir@, depth as int, fuel as nat)),
        appended(old(nodes)@, final(nodes)@, dir_rows(expanded@, listings_view(listings@), dir@, depth as int, fuel as nat)),
        keeps_prefix(old(nodes)@, final(nodes)@),
    decreases fuel, 0int,
{
    if !expanded.contains(dir) {
        assert(nodes_view(nodes@) =~= nodes_view(nodes@) + Seq::<TreeNodeView>::empty());
        return Ok(());
    }
    if fuel == 0 {
        return Err(TreeHalt::Exhausted);
    }
    let idx = match find_listing(listings, dir) {
        None => return Err(TreeHalt::Failed(CoreError::Unlisted(dir.clone()))),
        Some(i) => i,
    };
    match &listings[idx].entries {
        Err(m) => Err(TreeHalt::Failed(CoreError::Fs(m.clone()))),
        Ok(children) => collect_entries(expanded, listings, children, 0, depth, fuel - 1, nodes),
    }
}

fn collect_entries(
    expanded: &PathSet,
    listings: &Vec<DirListing>,
    children: &Vec<EntryInfo>,
    i: usize,
    depth: usize,
    fuel: usize,
    nodes: &mut Vec<TreeNode>,
) -> (r: Result<(), TreeHalt>)
    requires
        depth + fuel < usize::MAX,
        i <= children@.len(),
    ensures
        halt_matches(
            r,
            entry_rows(expanded@, listings_view(listings@), entries_view(children@), i as int, depth as int, fuel as nat),
        ),
        appended(
            old(nodes)@,
            final(nodes)@,
            entry_rows(expanded@, listings_view(listings@), entries_view(children@), i as int, depth as int, fuel as nat),
        ),
        keeps_prefix(old(nodes)@, final(nodes)@),
    decreases fuel, children@.len() - i,
{
    let ghost ev = entries_view(children@);
    let ghost lv = listings_view(listings@);
    if i >= children.len() {
        assert(nodes_view(nodes@) =~= nodes_view(nodes@) + Seq::<TreeNodeView>::empty());
        return Ok(());
    }
    let child = &children[i];
    let ghost c = ev[i as int];
    assert(c == child@);
    let ghost before = nodes@;
    let row = TreeNode { path: child.path.clone(), name: child.name.clone(), depth: depth + 1, is_dir: child.is_dir };
    nodes.push(row);
    let ghost with_row = nodes@;
    proof {
        assert(nodes_view(with_row) =~= nodes_view(before).push(entry_row(c, depth + 1)));
    }
    if child.is_dir {
        match collect_dir_children(expanded, listings, &child.path, depth + 1, fuel, nodes) {
            Ok(()) => {},
            Err(h) => return Err(h),
        }
    }
    let ghost with_sub = nodes@;
    let ghost sub = if c.is_dir {
        dir_rows(expanded@, lv, c.path, depth + 1, fuel as nat)
    } else {
        TreeOutcome::Nodes(Seq::empty())
    };
    proof {
        if !c.is_dir {
            assert(nodes_view(with_sub) =~= nodes_view(with_row) + Seq::<TreeNodeView>::empty());
        }
    }
    let rest = collect_entries(expanded, listings, children, i + 1, depth, fuel, nodes);
    proof {
        if let TreeOutcome::Nodes(s) = sub {
            if let TreeOutcome::Nodes(tail) = entry_rows(expanded@, lv, ev, i + 1, depth as int, fuel as nat) {
                assert(nodes_view(nodes@) =~= nodes_view(before) + (seq![entry_row(c, depth + 1)] + s + tail));
            }
        }
    }
    rest
}

impl AppCore {
    fn build_tree(&self, listings: &Vec<DirListing>, nodes: &mut Vec<TreeNode>) -> (r: Result<(), TreeHalt>)
        requires
            old(nodes)@.len() == 0,
        ensures
            halt_matches(r, visible_tree_of(self@, listings_view(listings@))),
            visible_tree_of(self@, listings_view(listings@)) matches TreeOutcome::Nodes(s) ==> nodes_view(final(nodes)@) == s,
    {
        let root = match self.workspace_root() {
            None => {
                assert(nodes_view(nodes@) =~= Seq::<TreeNodeView>::empty());
                return Ok(());
            },
            Some(root) => root,
        };
        let expanded = self.expanded_paths();
        let fuel = expanded.len();
        nodes.push(TreeNode { path: root.clone(), name: root.display_name(), depth: 0, is_dir: true });
        let ghost first = nodes@;
        let r = collect_dir_children(expanded, listings, root, 0, fuel, nodes);
        proof {
            let root_row = TreeNodeView { path: root@, name: root@.display_name(), depth: 0, is_dir: true };
            assert(nodes_view(first) =~= seq![root_row]);
        }
        r
    }

    /// The rows of the explorer tree: the root, then, depth first, the
    /// entries of each expanded directory in listing order. `listings`
    /// holds what listing each expanded directory gave. The tree must be
    /// finite: no expanded directory may be reached from inside itself.
    pub fn visible_tree(&self, listings: &Vec<DirListing>) -> (r: Result<Vec<TreeNode>, CoreError>)
        requires
            !(visible_tree_of(self@, listings_view(listings@)) is Exhausted),
        ensures
            match visible_tree_of(self@, listings_view(listings@)) {
                TreeOutcome::Nodes(s) => r matches Ok(v) && nodes_view(v@) == s,
                TreeOutcome::Failed(e) => r matches Err(x) && x@ == e,
                TreeOutcome::Exhausted => false,
            },
    {
        let mut nodes: Vec<TreeNode> = Vec::new();
        match self.build_tree(listings, &mut nodes) {
            Ok(()) => Ok(nodes),
            Err(TreeHalt::Failed(e)) => Err(e),
            // The precondition rules this case out.
            Err(TreeHalt::Exhausted) => Err(CoreError::RootNotSet),
        }
    }

    /// Whether the tree over `listings` is finite, the condition on which
    /// [`AppCore::visible_tree`] may be called.
    pub fn tree_is_finite(&self, listings: &Vec<DirListing>) -> (r: bool)
        ensures
            r == !(visible_tree_of(self@, listings_view(listings@)) is Exhausted),
    {
        let mut nodes: Vec<TreeNode> = Vec::new();
        match self.build_tree(listings, &mut nodes) {
            Err(TreeHalt::Exhausted) => false,
            _ => true,
        }
    }
}

} // verus!
