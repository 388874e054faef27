use vstd::prelude::*;

use crate::error::{CoreError, CoreErrorView};
use crate::paths::{clone_parts, is_separator, EntryPath, PathView};

verus! {

/// What the filesystem reports of one entry.
#[derive(Debug, PartialEq, Eq)]
pub struct EntryInfo {
    pub path: EntryPath,
    pub name: String,
    pub is_dir: bool,
    pub byte_len: u64,
}

pub struct EntryInfoView {
    pub path: PathView,
    pub name: Seq<char>,
    pub is_dir: bool,
    pub byte_len: u64,
}

impl View for EntryInfo {
    type V = EntryInfoView;

    open spec fn view(&self) -> EntryInfoView {
        EntryInfoView { path: self.path@, name: self.name@, is_dir: self.is_dir, byte_len: self.byte_len }
    }
}

impl Clone for EntryInfo {
    fn clone(&self) -> (r: Self)
        ensures
            r@ == self@,
    {
        EntryInfo {
            path: self.path.clone(),
            name: self.name.clone(),
            is_dir: self.is_dir,
            byte_len: self.byte_len,
        }
    }
}

pub open spec fn entries_view(entries: Seq<EntryInfo>) -> Seq<EntryInfoView> {
    entries.map_values(|e: EntryInfo| e@)
}

/// The value of the outcome of a filesystem read: the entry, or the message
/// of the failure.
pub open spec fn stat_view(r: Result<EntryInfo, String>) -> Result<EntryInfoView, Seq<char>> {
    match r {
        Ok(e) => Ok(e@),
        Err(m) => Err(m@),
    }
}

/// The gateway through which every filesystem operation of the workspace
/// goes; the operations themselves run outside this library, which holds
/// the rules they follow.
#[derive(Debug, Clone, Copy, PartialEq, Eq, Structural)]
pub struct FileSystemAdapter;

impl FileSystemAdapter {
    pub fn new() -> (r: FileSystemAdapter)
        ensures
            r == FileSystemAdapter,
    {
        FileSystemAdapter
    }
}

/// A path inside the workspace is one under the workspace root, the root
/// itself included.
pub fn ensure_within_root(root: &EntryPath, candidate: &EntryPath) -> (r: Result<(), CoreError>)
    ensures
        r is Ok <==> candidate@.starts_with(root@),
        r matches Err(e) ==> e@ == CoreErrorView::OutsideRoot(candidate@, root@),
{
    if candidate.starts_with(root) {
        Ok(())
    } else {
        Err(CoreError::OutsideRoot(candidate.clone(), root.clone()))
    }
}

/// The guard before moving `resolved` to the trash: it must lie inside the
/// workspace and must not be the root itself.
pub fn check_trash_target(root: &EntryPath, resolved: &EntryPath) -> (r: Result<(), CoreError>)
    ensures
        !resolved@.starts_with(root@) ==> (r matches Err(e) && e@ == CoreErrorView::OutsideRoot(resolved@, root@)),
        resolved@.starts_with(root@) && resolved@ == root@ ==> (r matches Err(e) && e@ == CoreErrorView::RootTrashRefused),
        resolved@.starts_with(root@) && resolved@ != root@ ==> r is Ok,
{
    match ensure_within_root(root, resolved) {
        Err(e) => return Err(e),
        Ok(()) => {},
    }
    if resolved.same_path(root) {
        return Err(CoreError::RootTrashRefused);
    }
    Ok(())
}

/// An anchor that is a root alone, with no drive or other prefix.
pub open spec fn is_bare_root(anchor: Seq<char>) -> bool {
    anchor.len() == 1 && is_separator(anchor[0])
}

/// The prefix part of an anchor: the anchor without a final separator.
pub open spec fn anchor_prefix(anchor: Seq<char>) -> Seq<char> {
    if anchor.len() > 0 && is_separator(anchor.last()) {
        anchor.drop_last()
    } else {
        anchor
    }
}

/// The path that a request names, as `Path::join` on the workspace root
/// gives it: a relative path is taken from the root; a path with a root but
/// no prefix (`\dir` on Windows) takes the prefix of the workspace root (its
/// drive); any other absolute path stands as it is.
pub open spec fn spec_candidate_path(root: PathView, path: PathView) -> PathView {
    if !path.is_absolute() {
        root.join(path)
    } else if is_bare_root(path.anchor) {
        PathView { anchor: anchor_prefix(root.anchor) + path.anchor, parts: path.parts }
    } else {
        path
    }
}

fn char_is_separator(c: char) -> (r: bool)
    ensures
        r == is_separator(c),
{
    c == '/' || c == '\\'
}

pub fn candidate_path(root: &EntryPath, path: &EntryPath) -> (r: EntryPath)
    ensures
        r@ == spec_candidate_path(root@, path@),
{
    let n = path.anchor.as_str().unicode_len();
    if n == 0 {
        return root.join(path);
    }
    if n != 1 || !char_is_separator(path.anchor.as_str().get_char(0)) {
        return path.clone();
    }
    let root_anchor = root.anchor.as_str();
    let m = root_anchor.unicode_len();
    let keep = if m > 0 && char_is_separator(root_anchor.get_char(m - 1)) {
        m - 1
    } else {
        m
    };
    let mut anchor = String::from_str(root_anchor.substring_char(0, keep));
    anchor.append(path.anchor.as_str());
    proof {
        if keep < m {
            assert(root@.anchor.subrange(0, keep as int) =~= root@.anchor.drop_last());
        } else {
            assert(root@.anchor.subrange(0, keep as int) =~= root@.anchor);
        }
    }
    EntryPath { anchor, parts: clone_parts(&path.parts) }
}

/// The split of a path that is to be created: the directory that will hold
/// it and the name it will have there.
pub fn split_new_path(candidate: &EntryPath) -> (r: Result<(EntryPath, String), CoreError>)
    ensures
        match r {
            Ok((parent, name)) => candidate@.parent() == Some(parent@) && name@ == candidate@.parts.last(),
            Err(e) => candidate@.parent() is None && e@ == CoreErrorView::NoParentForNewPath(candidate@),
        },
{
    match candidate.parent() {
        None => Err(CoreError::NoParentForNewPath(candidate.clone())),
        Some(parent) => {
            let name = candidate.display_name();
            Ok((parent, name))
        },
    }
}


/// The lower-case form that `str::to_lowercase` gives of a text: a function
/// of the text alone, by the Unicode case tables.
pub uninterp spec fn lowercase_of(s: Seq<char>) -> Seq<char>;

/// `str::to_lowercase`; its result is named by [`lowercase_of`].
#[verifier::external_body]
fn to_lowercase(s: &str) -> (r: String)
    ensures
        r@ == lowercase_of(s@),
{
    s.to_lowercase()
}

/// The order of `str`'s `Ord`: lexicographic by character.
pub open spec fn text_lt(a: Seq<char>, b: Seq<char>) -> bool
    decreases a.len(),
{
    if a.len() == 0 {
        b.len() > 0
    } else if b.len() == 0 {
        false
    } else if a[0] != b[0] {
        (a[0] as int) < (b[0] as int)
    } else {
        text_lt(a.drop_first(), b.drop_first())
    }
}

/// The listing order: directories before files, then by lower-cased name.
pub open spec fn listed_before(a: EntryInfoView, b: EntryInfoView) -> bool {
    ||| (a.is_dir && !b.is_dir)
    ||| (a.is_dir == b.is_dir && text_lt(lowercase_of(a.name), lowercase_of(b.name)))
}

/// Where `x` goes among sorted entries: before the first one it precedes,
/// after all those it does not.
pub open spec fn insertion_point(s: Seq<EntryInfoView>, x: EntryInfoView) -> int
    decreases s.len(),
{
    if s.len() == 0 {
        0
    } else if listed_before(x, s[0]) {
        0
    } else {
        1 + insertion_point(s.drop_first(), x)
    }
}

/// The entries in listing order, stably: entries that neither precedes
/// keep the order they came in.
pub open spec fn listing_order(s: Seq<EntryInfoView>) -> Seq<EntryInfoView>
    decreases s.len(),
{
    if s.len() == 0 {
        s
    } else {
        let sorted = listing_order(s.drop_last());
        sorted.insert(insertion_point(sorted, s.last()), s.last())
    }
}

proof fn lemma_text_lt_skip(a: Seq<char>, b: Seq<char>, i: int)
    requires
        0 <= i <= a.len(),
        i <= b.len(),
        forall|k: int| 0 <= k < i ==> a[k] == b[k],
    ensures
        text_lt(a, b) == text_lt(a.skip(i), b.skip(i)),
    decreases i,
{
    if i > 0 {
        lemma_text_lt_skip(a.drop_first(), b.drop_first(), i - 1);
        assert(a.drop_first().skip(i - 1) =~= a.skip(i));
        assert(b.drop_first().skip(i - 1) =~= b.skip(i));
    } else {
        assert(a.skip(0) =~= a);
        assert(b.skip(0) =~= b);
    }
}

fn text_less(a: &str, b: &str) -> (r: bool)
    ensures
        r == text_lt(a@, b@),
{
    let la = a.unicode_len();
    let lb = b.unicode_len();
    let mut i: usize = 0;
    while i < la && i < lb && a.get_char(i) == b.get_char(i)
        invariant
            la == a@.len(),
            lb == b@.len(),
            i <= la,
            i <= lb,
            forall|k: int| 0 <= k < i ==> a@[k] == b@[k],
        decreases la - i,
    {
        i = i + 1;
    }
    proof {
        lemma_text_lt_skip(a@, b@, i as int);
    }
    if i < la && i < lb {
        let ca = a.get_char(i);
        let cb = b.get_char(i);
        assert(a@.skip(i as int)[0] == ca);
        assert(b@.skip(i as int)[0] == cb);
        (ca as u32) < (cb as u32)
    } else {
        i == la && i < lb
    }
}

fn before_in_listing(a_dir: bool, a_key: &String, b_dir: bool, b_key: &String) -> (r: bool)
    ensures
        r == ((a_dir && !b_dir) || (a_dir == b_dir && text_lt(a_key@, b_key@))),
{
    if a_dir && !b_dir {
        return true;
    }
    a_dir == b_dir && text_less(a_key.as_str(), b_key.as_str())
}

proof fn lemma_insertion_point(s: Seq<EntryInfoView>, x: EntryInfoView, p: int)
    requires
        0 <= p <= s.len(),
        forall|j: int| 0 <= j < p ==> !listed_before(x, #[trigger] s[j]),
        p == s.len() || listed_before(x, s[p]),
    ensures
        insertion_point(s, x) == p,
    decreases p,
{
    if p > 0 {
        let t = s.drop_first();
        assert forall|j: int| 0 <= j < p - 1 implies !listed_before(x, #[trigger] t[j]) by {
            assert(t[j] == s[j + 1]);
        }
        if p < s.len() {
            assert(t[p - 1] == s[p]);
        }
        assert(!listed_before(x, s[0]));
        lemma_insertion_point(t, x, p - 1);
    }
}


proof fn lemma_insertion_point_props(s: Seq<EntryInfoView>, x: EntryInfoView)
    ensures
        0 <= insertion_point(s, x) <= s.len(),
        forall|j: int| 0 <= j < insertion_point(s, x) ==> !listed_before(x, #[trigger] s[j]),
        insertion_point(s, x) < s.len() ==> listed_before(x, s[insertion_point(s, x)]),
    decreases s.len(),
{
    if s.len() > 0 && !listed_before(x, s[0]) {
        let t = s.drop_first();
        lemma_insertion_point_props(t, x);
        let p = insertion_point(s, x);
        assert forall|j: int| 0 <= j < p implies !listed_before(x, #[trigger] s[j]) by {
            if j > 0 {
                assert(s[j] == t[j - 1]);
            }
        }
        if p < s.len() {
            assert(s[p] == t[p - 1]);
        }
    }
}

/// Law: the listing order keeps every entry, as often as it came, and puts
/// every directory before every file.
pub proof fn lemma_listing_order(s: Seq<EntryInfoView>)
    ensures
        listing_order(s).to_multiset() == s.to_multiset(),
        forall|i: int, j: int|
            0 <= i < j < listing_order(s).len() && (#[trigger] listing_order(s)[j]).is_dir ==> (
            #[trigger] listing_order(s)[i]).is_dir,
    decreases s.len(),
{
    broadcast use vstd::seq_lib::group_to_multiset_ensures;

    if s.len() > 0 {
        let rest = s.drop_last();
        let x = s.last();
        lemma_listing_order(rest);
        let sorted = listing_order(rest);
        lemma_insertion_point_props(sorted, x);
        let p = insertion_point(sorted, x);
        let ins = sorted.insert(p, x);
        assert(ins == listing_order(s));
        assert(ins.remove(p) =~= sorted);
        assert(ins[p] == x);
        assert(ins.to_multiset().count(x) >= 1) by {
            assert(ins.contains(x));
        }
        assert(ins.to_multiset() =~= sorted.to_multiset().insert(x)) by {
            assert(ins.remove(p).to_multiset() =~= ins.to_multiset().remove(x));
        }
        assert(rest.push(x) =~= s);
        assert forall|i: int, j: int| 0 <= i < j < ins.len() && (#[trigger] ins[j]).is_dir implies (
        #[trigger] ins[i]).is_dir by {
            let si = if i < p { i } else { i - 1 };
            let sj = if j < p { j } else { j - 1 };
            if i == p {
                if j > p && ins[j].is_dir && !x.is_dir {
                    assert(ins[j] == sorted[sj]);
                    assert(listed_before(x, sorted[p]));
                    assert(sorted[p].is_dir) by {
                        if p < sj {
                            assert(sorted[sj].is_dir);
                        }
                    }
                }
            } else if j == p {
                assert(ins[i] == sorted[si]);
                assert(!listed_before(x, sorted[si]));
            } else {
                assert(ins[i] == sorted[si]);
                assert(ins[j] == sorted[sj]);
            }
        }
    }
}

proof fn lemma_text_lt_irreflexive(a: Seq<char>)
    ensures
        !text_lt(a, a),
    decreases a.len(),
{
    if a.len() > 0 {
        lemma_text_lt_irreflexive(a.drop_first());
    }
}

proof fn lemma_text_lt_transitive(a: Seq<char>, b: Seq<char>, c: Seq<char>)
    requires
        text_lt(a, b),
        text_lt(b, c),
    ensures
        text_lt(a, c),
    decreases a.len(),
{
    if a.len() > 0 && b.len() > 0 && c.len() > 0 && a[0] == b[0] && b[0] == c[0] {
        lemma_text_lt_transitive(a.drop_first(), b.drop_first(), c.drop_first());
    }
}

proof fn lemma_listed_before_strict(a: EntryInfoView, b: EntryInfoView, c: EntryInfoView)
    ensures
        !listed_before(a, a),
        listed_before(a, b) && listed_before(b, c) ==> listed_before(a, c),
{
    lemma_text_lt_irreflexive(lowercase_of(a.name));
    if listed_before(a, b) && listed_before(b, c) && a.is_dir == b.is_dir && b.is_dir == c.is_dir {
        lemma_text_lt_transitive(lowercase_of(a.name), lowercase_of(b.name), lowercase_of(c.name));
    }
}

/// Law: the name order is `str`'s order. A proper prefix comes before every
/// longer text that extends it; past a common prefix, the first differing
/// character decides; two different texts are always ordered one way, and
/// never both ways.
pub proof fn lemma_text_order(a: Seq<char>, b: Seq<char>, x: Seq<char>, i: int)
    ensures
        x.len() > 0 ==> text_lt(a, a + x) && !text_lt(a + x, a),
        0 <= i < a.len() && i < b.len() && a.take(i) == b.take(i) && (a[i] as int) < (b[i] as int) ==> text_lt(a, b)
            && !text_lt(b, a),
        a != b ==> text_lt(a, b) || text_lt(b, a),
        !(text_lt(a, b) && text_lt(b, a)),
{
    lemma_text_lt_prefix(a, x);
    if 0 <= i < a.len() && i < b.len() && a.take(i) == b.take(i) && (a[i] as int) < (b[i] as int) {
        assert forall|k: int| 0 <= k < i implies a[k] == b[k] by {
            assert(a.take(i)[k] == b.take(i)[k]);
        }
        lemma_text_lt_skip(a, b, i);
        lemma_text_lt_skip(b, a, i);
    }
    lemma_text_lt_total(a, b);
    if text_lt(a, b) && text_lt(b, a) {
        lemma_text_lt_transitive(a, b, a);
        lemma_text_lt_irreflexive(a);
    }
}

proof fn lemma_text_lt_prefix(a: Seq<char>, x: Seq<char>)
    ensures
        x.len() > 0 ==> text_lt(a, a + x) && !text_lt(a + x, a),
    decreases a.len(),
{
    if x.len() > 0 && a.len() > 0 {
        lemma_text_lt_prefix(a.drop_first(), x);
        assert((a + x).drop_first() =~= a.drop_first() + x);
        assert((a + x)[0] == a[0]);
    }
}

proof fn lemma_text_lt_total(a: Seq<char>, b: Seq<char>)
    ensures
        a != b ==> text_lt(a, b) || text_lt(b, a),
    decreases a.len(),
{
    if a.len() > 0 && b.len() > 0 && a[0] == b[0] {
        lemma_text_lt_total(a.drop_first(), b.drop_first());
        if a.drop_first() == b.drop_first() {
            assert(a =~= seq![a[0]] + a.drop_first());
            assert(b =~= seq![b[0]] + b.drop_first());
        }
    } else if a.len() == 0 && b.len() == 0 {
        assert(a =~= b);
    }
}

/// Law: the listing is sorted: no entry is listed before one that comes
/// ahead of it. So directories come first, and within each kind the
/// lower-cased names ascend.
pub proof fn lemma_listing_order_sorted(s: Seq<EntryInfoView>)
    ensures
        forall|i: int, j: int|
            0 <= i < j < listing_order(s).len() ==> !listed_before(
                #[trigger] listing_order(s)[j],
                #[trigger] listing_order(s)[i],
            ),
    decreases s.len(),
{
    if s.len() > 0 {
        let rest = s.drop_last();
        let x = s.last();
        lemma_listing_order_sorted(rest);
        let sorted = listing_order(rest);
        lemma_insertion_point_props(sorted, x);
        let p = insertion_point(sorted, x);
        let ins = sorted.insert(p, x);
        assert(ins == listing_order(s));
        assert forall|i: int, j: int| 0 <= i < j < ins.len() implies !listed_before(
            #[trigger] ins[j],
            #[trigger] ins[i],
        ) by {
            let si = if i < p { i } else { i - 1 };
            let sj = if j < p { j } else { j - 1 };
            if i == p {
                assert(ins[j] == sorted[sj]);
                assert(listed_before(x, sorted[p]));
                lemma_listed_before_strict(sorted[sj], x, sorted[p]);
                if sj > p {
                    assert(!listed_before(sorted[sj], sorted[p]));
                }
            } else if j == p {
                assert(ins[i] == sorted[si]);
            } else {
                assert(ins[i] == sorted[si]);
                assert(ins[j] == sorted[sj]);
            }
        }
    }
}

/// Law: within each kind, the listing ascends by lower-cased name in
/// `str`'s order (equal names may stand side by side).
pub proof fn lemma_listing_ascends_by_name(s: Seq<EntryInfoView>)
    ensures
        forall|i: int, j: int|
            0 <= i < j < listing_order(s).len() && (#[trigger] listing_order(s)[i]).is_dir == (
            #[trigger] listing_order(s)[j]).is_dir ==> lowercase_of(listing_order(s)[i].name) == lowercase_of(
                listing_order(s)[j].name,
            ) || text_lt(lowercase_of(listing_order(s)[i].name), lowercase_of(listing_order(s)[j].name)),
{
    lemma_listing_order_sorted(s);
    let o = listing_order(s);
    assert forall|i: int, j: int|
        0 <= i < j < o.len() && (#[trigger] o[i]).is_dir == (#[trigger] o[j]).is_dir implies lowercase_of(o[i].name)
        == lowercase_of(o[j].name) || text_lt(lowercase_of(o[i].name), lowercase_of(o[j].name)) by {
        lemma_text_lt_total(lowercase_of(o[i].name), lowercase_of(o[j].name));
        assert(!listed_before(o[j], o[i]));
    }
}

/// Puts the entries of a directory in listing order: directories first,
/// then by lower-cased name, ties in the order given.
pub fn order_entries(entries: &Vec<EntryInfo>) -> (r: Vec<EntryInfo>)
    ensures
        entries_view(r@) == listing_order(entries_view(entries@)),
{
    let ghost all = entries_view(entries@);
    let mut out: Vec<EntryInfo> = Vec::new();
    let mut keys: Vec<String> = Vec::new();
    let mut i: usize = 0;
    assert(all.take(0) =~= Seq::<EntryInfoView>::empty());
    while i < entries.len()
        invariant
            i <= entries@.len(),
            all == entries_view(entries@),
            keys@.len() == out@.len(),
            forall|k: int| 0 <= k < out@.len() ==> #[trigger] keys@[k]@ == lowercase_of(out@[k].name@),
            entries_view(out@) == listing_order(all.take(i as int)),
        decreases entries.len() - i,
    {
        let e = entries[i].clone();
        let key = to_lowercase(e.name.as_str());
        let ghost sorted = entries_view(out@);
        let mut p: usize = 0;
        while p < out.len() && !before_in_listing(e.is_dir, &key, out[p].is_dir, &keys[p])
            invariant
                p <= out@.len(),
                keys@.len() == out@.len(),
                sorted == entries_view(out@),
                key@ == lowercase_of(e.name@),
                forall|k: int| 0 <= k < out@.len() ==> #[trigger] keys@[k]@ == lowercase_of(out@[k].name@),
                forall|j: int| 0 <= j < p ==> !listed_before(e@, #[trigger] sorted[j]),
            decreases out@.len() - p,
        {
            assert(sorted[p as int] == out@[p as int]@);
            p = p + 1;
        }
        proof {
            if p < out@.len() {
                assert(sorted[p as int] == out@[p as int]@);
            }
            lemma_insertion_point(sorted, e@, p as int);
        }
        let ghost old_keys = keys@;
        let ghost old_out = out@;
        out.insert(p, e);
        keys.insert(p, key);
        proof {
            let next = all.take(i + 1);
            assert(next.drop_last() =~= all.take(i as int));
            assert(next.last() == entries@[i as int]@);
            assert(entries_view(out@) =~= sorted.insert(p as int, entries@[i as int]@));
            assert forall|k: int| 0 <= k < out@.len() implies #[trigger] keys@[k]@ == lowercase_of(out@[k].name@) by {
                if k < p {
                    assert(keys@[k] == old_keys[k] && out@[k] == old_out[k]);
                } else if k > p {
                    assert(keys@[k] == old_keys[k - 1] && out@[k] == old_out[k - 1]);
                }
            }
        }
        i = i + 1;
    }
    assert(all.take(entries@.len() as int) =~= all);
    out
}

/// The name that a stat reports for a path: its last component, or the
/// whole path when it has none.
pub fn entry_name(path: &EntryPath) -> (r: String)
    ensures
        r@ == path@.display_name(),
{
    path.display_name()
}

} // verus!
