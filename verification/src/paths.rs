use vstd::prelude::*;

verus! {

/// A filesystem path held as plain values: the anchor (the prefix and root
/// text, such as `/` or `C:\`, empty for a relative path) and the sequence of
/// its name components.
#[derive(Debug, PartialEq, Eq)]
pub struct EntryPath {
    pub anchor: String,
    pub parts: Vec<String>,
}

/// The mathematical value of an [`EntryPath`].
pub struct PathView {
    pub anchor: Seq<char>,
    pub parts: Seq<Seq<char>>,
}

pub open spec fn parts_view(parts: Seq<String>) -> Seq<Seq<char>> {
    parts.map_values(|s: String| s@)
}

impl View for EntryPath {
    type V = PathView;

    open spec fn view(&self) -> PathView {
        PathView { anchor: self.anchor@, parts: parts_view(self.parts@) }
    }
}

pub open spec fn opt_path_view(p: Option<EntryPath>) -> Option<PathView> {
    match p {
        Some(q) => Some(q@),
        None => None,
    }
}

impl PathView {
    /// A path is absolute when it carries an anchor.
    pub open spec fn is_absolute(self) -> bool {
        self.anchor.len() > 0
    }

    /// Component-wise prefix test, as `Path::starts_with`.
    pub open spec fn starts_with(self, base: PathView) -> bool {
        &&& self.anchor == base.anchor
        &&& base.parts.len() <= self.parts.len()
        &&& self.parts.take(base.parts.len() as int) == base.parts
    }

    /// The path without its last component; none for a bare anchor.
    pub open spec fn parent(self) -> Option<PathView> {
        if self.parts.len() == 0 {
            None
        } else {
            Some(PathView { anchor: self.anchor, parts: self.parts.drop_last() })
        }
    }

    /// The path with one more component.
    pub open spec fn child(self, name: Seq<char>) -> PathView {
        PathView { anchor: self.anchor, parts: self.parts.push(name) }
    }

    /// The path with the components of a relative path appended.
    pub open spec fn join(self, rel: PathView) -> PathView {
        PathView { anchor: self.anchor, parts: self.parts + rel.parts }
    }

    /// A path under `old` moved under `new`, keeping its suffix; any other
    /// path is left as it is.
    pub open spec fn rebase(self, old: PathView, new: PathView) -> PathView {
        if self.starts_with(old) {
            PathView { anchor: new.anchor, parts: new.parts + self.parts.skip(old.parts.len() as int) }
        } else {
            self
        }
    }

    /// The last component, or the anchor text for a path that has none.
    pub open spec fn display_name(self) -> Seq<char> {
        if self.parts.len() == 0 {
            self.anchor
        } else {
            self.parts.last()
        }
    }
}

/// Whether a character separates path components (`/`, or `\\` on Windows).
pub open spec fn is_separator(c: char) -> bool {
    c == '/' || c == '\\'
}

/// The components written one after the other, with `sep` between them.
pub open spec fn joined_parts(parts: Seq<Seq<char>>, sep: Seq<char>) -> Seq<char>
    decreases parts.len(),
{
    if parts.len() == 0 {
        Seq::empty()
    } else if parts.len() == 1 {
        parts[0]
    } else {
        joined_parts(parts.drop_last(), sep) + sep + parts.last()
    }
}

/// The text of a path, as `PathBuf::push` builds it from the anchor and the
/// components and `display` shows it: a separator goes between the anchor
/// and the first component unless the anchor already ends with one or is a
/// bare drive (`C:`).
pub open spec fn path_text(p: PathView, sep: Seq<char>) -> Seq<char> {
    let glue = if p.anchor.len() > 0 && p.parts.len() > 0 && !is_separator(p.anchor.last()) && p.anchor.last()
        != ':' {
        sep
    } else {
        Seq::empty()
    };
    p.anchor + glue + joined_parts(p.parts, sep)
}

/// Law: moving a path from under `old` to under `new` keeps its whole
/// suffix: the result is `new` followed by every component after `old`,
/// lies under `new`, and moving it back gives the path again.
pub proof fn lemma_rebase_keeps_suffix(q: PathView, old: PathView, new: PathView)
    requires
        q.starts_with(old),
    ensures
        q.rebase(old, new).anchor == new.anchor,
        q.rebase(old, new).parts.len() == new.parts.len() + q.parts.len() - old.parts.len(),
        forall|i: int|
            0 <= i < q.parts.len() - old.parts.len() ==> #[trigger] q.rebase(old, new).parts[new.parts.len() + i]
                == q.parts[old.parts.len() + i],
        forall|i: int| 0 <= i < new.parts.len() ==> #[trigger] q.rebase(old, new).parts[i] == new.parts[i],
        q.rebase(old, new).starts_with(new),
        q.rebase(old, new).rebase(new, old) == q,
{
    let r = q.rebase(old, new);
    let n = new.parts.len() as int;
    assert(r.parts.take(n) =~= new.parts);
    let back = r.rebase(new, old);
    assert(r.parts.skip(n) =~= q.parts.skip(old.parts.len() as int));
    assert(back.parts =~= q.parts) by {
        assert(q.parts.take(old.parts.len() as int) == old.parts);
        assert(q.parts =~= old.parts + q.parts.skip(old.parts.len() as int));
    }
}

pub fn clone_parts(parts: &Vec<String>) -> (r: Vec<String>)
    ensures
        parts_view(r@) == parts_view(parts@),
{
    let mut out: Vec<String> = Vec::new();
    let mut i: usize = 0;
    while i < parts.len()
        invariant
            i <= parts.len(),
            out@.len() == i,
            forall|k: int| 0 <= k < i ==> out@[k]@ == parts@[k]@,
        decreases parts.len() - i,
    {
        out.push(parts[i].clone());
        i = i + 1;
    }
    assert(parts_view(out@) =~= parts_view(parts@));
    out
}

impl Clone for EntryPath {
    fn clone(&self) -> (r: Self)
        ensures
            r@ == self@,
    {
        EntryPath { anchor: self.anchor.clone(), parts: clone_parts(&self.parts) }
    }
}

impl EntryPath {
    /// Whether two component lists are equal.
    fn same_parts(a: &Vec<String>, b: &Vec<String>) -> (r: bool)
        ensures
            r == (parts_view(a@) == parts_view(b@)),
    {
        if a.len() != b.len() {
            assert(parts_view(a@).len() != parts_view(b@).len());
            return false;
        }
        let mut i: usize = 0;
        while i < a.len()
            invariant
                a.len() == b.len(),
                i <= a.len(),
                forall|k: int| 0 <= k < i ==> a@[k]@ == b@[k]@,
            decreases a.len() - i,
        {
            if a[i] != b[i] {
                assert(parts_view(a@)[i as int] != parts_view(b@)[i as int]);
                return false;
            }
            i = i + 1;
        }
        assert(parts_view(a@) =~= parts_view(b@));
        true
    }

    /// Path equality, component by component.
    pub fn same_path(&self, other: &EntryPath) -> (r: bool)
        ensures
            r == (self@ == other@),
    {
        if self.anchor != other.anchor {
            return false;
        }
        Self::same_parts(&self.parts, &other.parts)
    }

    /// `Path::starts_with`: whether `base` is a component-wise prefix.
    pub fn starts_with(&self, base: &EntryPath) -> (r: bool)
        ensures
            r == self@.starts_with(base@),
    {
        if self.anchor != base.anchor {
            return false;
        }
        if base.parts.len() > self.parts.len() {
            return false;
        }
        let mut i: usize = 0;
        while i < base.parts.len()
            invariant
                base.parts.len() <= self.parts.len(),
                i <= base.parts.len(),
                forall|k: int| 0 <= k < i ==> self.parts@[k]@ == base.parts@[k]@,
            decreases base.parts.len() - i,
        {
            if self.parts[i] != base.parts[i] {
                assert(self@.parts.take(base@.parts.len() as int)[i as int] != base@.parts[i as int]);
                return false;
            }
            i = i + 1;
        }
        assert(self@.parts.take(base@.parts.len() as int) =~= base@.parts);
        true
    }

    /// `Path::parent`: the path without its last component.
    pub fn parent(&self) -> (r: Option<EntryPath>)
        ensures
            opt_path_view(r) == self@.parent(),
    {
        let n = self.parts.len();
        if n == 0 {
            return None;
        }
        let mut parts: Vec<String> = Vec::new();
        let mut i: usize = 0;
        while i + 1 < n
            invariant
                n == self.parts.len(),
                n > 0,
                i + 1 <= n,
                parts@.len() == i,
                forall|k: int| 0 <= k < i ==> parts@[k]@ == self.parts@[k]@,
            decreases n - i,
        {
            parts.push(self.parts[i].clone());
            i = i + 1;
        }
        let r = EntryPath { anchor: self.anchor.clone(), parts };
        assert(r@.parts =~= self@.parts.drop_last());
        Some(r)
    }

    /// `Path::join` with a single name component.
    pub fn child(&self, name: &str) -> (r: EntryPath)
        ensures
            r@ == self@.child(name@),
    {
        let mut parts = clone_parts(&self.parts);
        parts.push(name.to_string());
        proof {
            vstd::string::to_string_from_display_ensures_for_str(name, parts@.last());
        }
        let r = EntryPath { anchor: self.anchor.clone(), parts };
        assert(r@.parts =~= self@.parts.push(name@));
        r
    }

    /// `Path::join` with a relative path: its components are appended.
    pub fn join(&self, rel: &EntryPath) -> (r: EntryPath)
        ensures
            r@ == self@.join(rel@),
    {
        let mut parts = clone_parts(&self.parts);
        let ghost start = parts@;
        let mut i: usize = 0;
        while i < rel.parts.len()
            invariant
                i <= rel.parts.len(),
                parts@.len() == start.len() + i,
                parts_view(start) == parts_view(self.parts@),
                forall|k: int| 0 <= k < start.len() ==> parts@[k] == start[k],
                forall|k: int| 0 <= k < i ==> parts@[start.len() + k]@ == rel.parts@[k]@,
            decreases rel.parts.len() - i,
        {
            parts.push(rel.parts[i].clone());
            i = i + 1;
        }
        let r = EntryPath { anchor: self.anchor.clone(), parts };
        assert(r@.parts =~= self@.parts + rel@.parts) by {
            assert forall|k: int| 0 <= k < start.len() implies r@.parts[k] == self@.parts[k] by {
                assert(parts_view(start)[k] == parts_view(self.parts@)[k]);
            }
        }
        r
    }

    /// The path moved from under `old` to under `new`, keeping its suffix;
    /// a path not under `old` is returned as it is.
    pub fn rebase(&self, old: &EntryPath, new: &EntryPath) -> (r: EntryPath)
        ensures
            r@ == self@.rebase(old@, new@),
    {
        if !self.starts_with(old) {
            return self.clone();
        }
        let mut parts = clone_parts(&new.parts);
        let ghost start = parts@;
        let skip = old.parts.len();
        let mut i: usize = skip;
        while i < self.parts.len()
            invariant
                skip <= i <= self.parts.len(),
                skip == old.parts.len(),
                parts@.len() == start.len() + (i - skip),
                parts_view(start) == parts_view(new.parts@),
                forall|k: int| 0 <= k < start.len() ==> parts@[k] == start[k],
                forall|k: int| skip <= k < i ==> parts@[start.len() + k - skip]@ == #[trigger] self.parts@[k]@,
            decreases self.parts.len() - i,
        {
            parts.push(self.parts[i].clone());
            i = i + 1;
        }
        let r = EntryPath { anchor: new.anchor.clone(), parts };
        assert(r@.parts =~= new@.parts + self@.parts.skip(old@.parts.len() as int)) by {
            assert forall|k: int| 0 <= k < start.len() implies r@.parts[k] == new@.parts[k] by {
                assert(parts_view(start)[k] == parts_view(new.parts@)[k]);
            }
        }
        r
    }

    /// The last component, or the anchor for a path without components:
    /// `file_name()` with `display()` as the fallback.
    pub fn display_name(&self) -> (r: String)
        ensures
            r@ == self@.display_name(),
    {
        let n = self.parts.len();
        if n == 0 {
            self.anchor.clone()
        } else {
            self.parts[n - 1].clone()
        }
    }
}

impl EntryPath {
    /// The text of the path, with `separator` between components.
    pub fn text(&self, separator: &str) -> (r: String)
        ensures
            r@ == path_text(self@, separator@),
    {
        let anchor = self.anchor.as_str();
        let n = anchor.unicode_len();
        let np = self.parts.len();
        let mut out = String::from_str(anchor);
        if n > 0 && np > 0 {
            let last = anchor.get_char(n - 1);
            if !(last == '/' || last == '\\' || last == ':') {
                out.append(separator);
            }
        }
        let ghost head = out@;
        let ghost ps = parts_view(self.parts@);
        proof {
            assert(ps.take(0) =~= Seq::<Seq<char>>::empty());
            assert(head =~= head + joined_parts(ps.take(0), separator@));
        }
        let mut i: usize = 0;
        while i < np
            invariant
                np == self.parts@.len(),
                ps == parts_view(self.parts@),
                i <= np,
                out@ == head + joined_parts(ps.take(i as int), separator@),
            decreases np - i,
        {
            let ghost before = out@;
            if i > 0 {
                out.append(separator);
            }
            out.append(self.parts[i].as_str());
            proof {
                let t = ps.take(i + 1);
                assert(t.drop_last() =~= ps.take(i as int));
                assert(t.last() == self.parts@[i as int]@);
                if i == 0 {
                    assert(joined_parts(t, separator@) == t[0]);
                    assert(joined_parts(ps.take(0), separator@) == Seq::<char>::empty());
                }
                assert(out@ =~= head + joined_parts(t, separator@));
            }
            i = i + 1;
        }
        proof {
            assert(ps.take(np as int) =~= ps);
        }
        out
    }
}

pub open spec fn paths_view(items: Seq<EntryPath>) -> Seq<PathView> {
    items.map_values(|p: EntryPath| p@)
}

/// A set of paths, each held once; its value is a `Set` of path values.
#[derive(Debug)]
pub struct PathSet {
    items: Vec<EntryPath>,
}

impl View for PathSet {
    type V = Set<PathView>;

    closed spec fn view(&self) -> Set<PathView> {
        paths_view(self.items@).to_set()
    }
}

impl Clone for PathSet {
    fn clone(&self) -> (r: Self)
        ensures
            r@ == self@,
    {
        proof {
            use_type_invariant(self);
        }
        let items = self.items.clone();
        proof {
            assert(paths_view(items@) =~= paths_view(self.items@)) by {
                assert forall|k: int| 0 <= k < items@.len() implies items@[k]@ == self.items@[k]@ by {
                    assert(cloned::<EntryPath>(self.items@[k], items@[k]));
                }
            }
        }
        PathSet { items }
    }
}

impl PathSet {
    #[verifier::type_invariant]
    closed spec fn distinct(self) -> bool {
        paths_view(self.items@).no_duplicates()
    }

    /// The number of paths held.
    pub closed spec fn count(self) -> nat {
        self.items@.len()
    }

    /// The empty set.
    pub fn new() -> (r: PathSet)
        ensures
            r@ == Set::<PathView>::empty(),
    {
        let r = PathSet { items: Vec::new() };
        assert(paths_view(r.items@).to_set() =~= Set::<PathView>::empty());
        r
    }

    /// The number of paths held.
    pub fn len(&self) -> (r: usize)
        ensures
            r == self.count(),
            r == self@.len(),
    {
        proof {
            use_type_invariant(self);
            paths_view(self.items@).unique_seq_to_set();
        }
        self.items.len()
    }

    /// The paths held, each once, in no particular order.
    pub fn paths(&self) -> (r: &Vec<EntryPath>)
        ensures
            paths_view(r@).to_set() == self@,
            paths_view(r@).no_duplicates(),
            r@.len() == self.count(),
    {
        proof {
            use_type_invariant(self);
        }
        &self.items
    }

    fn index_of(&self, p: &EntryPath) -> (r: Option<usize>)
        ensures
            match r {
                Some(i) => i < self.items@.len() && self.items@[i as int]@ == p@,
                None => !self@.contains(p@),
            },
    {
        let mut i: usize = 0;
        while i < self.items.len()
            invariant
                i <= self.items@.len(),
                forall|k: int| 0 <= k < i ==> self.items@[k]@ != p@,
            decreases self.items.len() - i,
        {
            if self.items[i].same_path(p) {
                return Some(i);
            }
            i = i + 1;
        }
        proof {
            if self@.contains(p@) {
                let k = choose|k: int| 0 <= k < paths_view(self.items@).len() && paths_view(self.items@)[k] == p@;
                assert(self.items@[k]@ == p@);
            }
        }
        None
    }

    /// Membership.
    pub fn contains(&self, p: &EntryPath) -> (r: bool)
        ensures
            r == self@.contains(p@),
    {
        match self.index_of(p) {
            Some(i) => {
                assert(paths_view(self.items@)[i as int] == p@);
                true
            },
            None => false,
        }
    }

    /// Adds a path; a path already held is not added twice.
    pub fn insert(&mut self, p: EntryPath)
        ensures
            final(self)@ == old(self)@.insert(p@),
    {
        proof {
            use_type_invariant(&*self);
        }
        if self.contains(&p) {
            assert(self@.insert(p@) =~= self@);
            return;
        }
        let ghost old_items = self.items@;
        let mut items: Vec<EntryPath> = Vec::new();
        std::mem::swap(&mut items, &mut self.items);
        items.push(p);
        proof {
            let ov = paths_view(old_items);
            let nv = paths_view(items@);
            assert(nv =~= ov.push(p@));
            assert forall|a: int, b: int| 0 <= a < b < nv.len() implies nv[a] != nv[b] by {
                if b == nv.len() - 1 {
                    assert(ov[a] == nv[a]);
                    assert(ov.contains(nv[a]));
                }
            }
        }
        self.items = items;
        proof {
            assert(paths_view(self.items@) =~= paths_view(old_items).push(p@));
            paths_view(old_items).lemma_push_to_set_commute(p@);
        }
    }

    /// Removes a path, if held.
    pub fn remove(&mut self, p: &EntryPath)
        ensures
            final(self)@ == old(self)@.remove(p@),
    {
        proof {
            use_type_invariant(&*self);
        }
        match self.index_of(p) {
            None => {
                assert(self@.remove(p@) =~= self@);
            },
            Some(i) => {
                let ghost old_items = self.items@;
                let ghost ov = paths_view(old_items);
                let mut items: Vec<EntryPath> = Vec::new();
                std::mem::swap(&mut items, &mut self.items);
                items.remove(i);
                proof {
                    let nv = paths_view(items@);
                    assert(nv =~= ov.remove(i as int));
                    assert forall|a: int, b: int| 0 <= a < b < nv.len() implies nv[a] != nv[b] by {
                        let oa = if a < i { a } else { a + 1 };
                        let ob = if b < i { b } else { b + 1 };
                        assert(nv[a] == ov[oa]);
                        assert(nv[b] == ov[ob]);
                    }
                }
                self.items = items;
                proof {
                    let nv = paths_view(self.items@);
                    assert(nv =~= ov.remove(i as int));
                    assert forall|a: int, b: int| 0 <= a < b < nv.len() implies nv[a] != nv[b] by {
                        let oa = if a < i { a } else { a + 1 };
                        let ob = if b < i { b } else { b + 1 };
                        assert(nv[a] == ov[oa]);
                        assert(nv[b] == ov[ob]);
                    }
                    assert(ov[i as int] == p@);
                    assert forall|q: PathView| nv.to_set().contains(q) <==> ov.to_set().remove(p@).contains(q) by {
                        if nv.to_set().contains(q) {
                            let k = choose|k: int| 0 <= k < nv.len() && nv[k] == q;
                            let ok = if k < i { k } else { k + 1 };
                            assert(ov[ok] == q);
                            assert(ok != i);
                        }
                        if ov.to_set().remove(p@).contains(q) {
                            let k = choose|k: int| 0 <= k < ov.len() && ov[k] == q;
                            assert(k != i);
                            let nk = if k < i { k } else { k - 1 };
                            assert(nv[nk] == q);
                        }
                    }
                    assert(nv.to_set() =~= ov.to_set().remove(p@));
                }
            },
        }
    }


    /// Keeps only the paths that are not `prefix` nor under it.
    pub fn retain_not_under(&mut self, prefix: &EntryPath)
        ensures
            final(self)@ == old(self)@.filter(|q: PathView| !q.starts_with(prefix@)),
    {
        proof {
            use_type_invariant(&*self);
        }
        let ghost ov = paths_view(self.items@);
        let mut kept: Vec<EntryPath> = Vec::new();
        let mut i: usize = 0;
        while i < self.items.len()
            invariant
                i <= self.items@.len(),
                ov == paths_view(self.items@),
                ov.no_duplicates(),
                paths_view(kept@).no_duplicates(),
                forall|q: PathView| paths_view(kept@).contains(q) <==> (exists|j: int|
                    0 <= j < i && ov[j] == q && !q.starts_with(prefix@)),
            decreases self.items.len() - i,
        {
            if !self.items[i].starts_with(prefix) {
                let ghost before = kept@;
                let c = self.items[i].clone();
                kept.push(c);
                proof {
                    let kv = paths_view(kept@);
                    assert(kv =~= paths_view(before).push(ov[i as int]));
                    assert forall|a: int, b: int| 0 <= a < b < kv.len() implies kv[a] != kv[b] by {
                        if b == kv.len() - 1 {
                            assert(paths_view(before)[a] == kv[a]);
                            assert(paths_view(before).contains(kv[a]));
                            let j = choose|j: int| 0 <= j < i && ov[j] == kv[a] && !kv[a].starts_with(prefix@);
                            assert(ov[j] != ov[i as int]);
                        } else {
                            assert(paths_view(before)[a] == kv[a]);
                            assert(paths_view(before)[b] == kv[b]);
                        }
                    }
                    assert forall|q: PathView| kv.contains(q) <==> (exists|j: int|
                        0 <= j < i + 1 && ov[j] == q && !q.starts_with(prefix@)) by {
                        if kv.contains(q) {
                            let a = choose|a: int| 0 <= a < kv.len() && kv[a] == q;
                            if a < before.len() {
                                assert(paths_view(before)[a] == q);
                                assert(paths_view(before).contains(q));
                            } else {
                                assert(ov[i as int] == q);
                            }
                        }
                        if exists|j: int| 0 <= j < i + 1 && ov[j] == q && !q.starts_with(prefix@) {
                            let j = choose|j: int| 0 <= j < i + 1 && ov[j] == q && !q.starts_with(prefix@);
                            if j < i {
                                assert(0 <= j < i && ov[j] == q && !q.starts_with(prefix@));
                                assert(paths_view(before).contains(q));
                                let a = choose|a: int| 0 <= a < paths_view(before).len() && paths_view(before)[a] == q;
                                assert(kv[a] == q);
                            } else {
                                assert(kv[kv.len() - 1] == q);
                            }
                        }
                    }
                }
            } else {
                proof {
                    assert forall|q: PathView| paths_view(kept@).contains(q) <==> (exists|j: int|
                        0 <= j < i + 1 && ov[j] == q && !q.starts_with(prefix@)) by {
                        if exists|j: int| 0 <= j < i + 1 && ov[j] == q && !q.starts_with(prefix@) {
                            let j = choose|j: int| 0 <= j < i + 1 && ov[j] == q && !q.starts_with(prefix@);
                            assert(j != i);
                        }
                    }
                }
            }
            i = i + 1;
        }
        proof {
            let target = ov.to_set().filter(|q: PathView| !q.starts_with(prefix@));
            assert forall|q: PathView| paths_view(kept@).to_set().contains(q) <==> target.contains(q) by {
                if target.contains(q) {
                    let j = choose|j: int| 0 <= j < ov.len() && ov[j] == q;
                }
            }
            assert(paths_view(kept@).to_set() =~= target);
        }
        self.items = kept;
    }

    /// The set of the images of the held paths under `rebase(old, new)`.
    pub fn rebased(&self, old: &EntryPath, new: &EntryPath) -> (r: PathSet)
        ensures
            r@ == self@.map(|q: PathView| q.rebase(old@, new@)),
    {
        let ghost ov = paths_view(self.items@);
        let mut r = PathSet::new();
        let mut i: usize = 0;
        while i < self.items.len()
            invariant
                i <= self.items@.len(),
                ov == paths_view(self.items@),
                forall|q: PathView| r@.contains(q) <==> (exists|j: int|
                    0 <= j < i && #[trigger] ov[j].rebase(old@, new@) == q),
            decreases self.items.len() - i,
        {
            let moved = self.items[i].rebase(old, new);
            r.insert(moved);
            proof {
                assert(ov[i as int] == self.items@[i as int]@);
                assert forall|q: PathView| r@.contains(q) <==> (exists|j: int|
                    0 <= j < i + 1 && #[trigger] ov[j].rebase(old@, new@) == q) by {
                    if q == ov[i as int].rebase(old@, new@) {
                        assert(0 <= i < i + 1);
                    }
                }
            }
            i = i + 1;
        }
        proof {
            let target = self@.map(|q: PathView| q.rebase(old@, new@));
            assert forall|q: PathView| r@.contains(q) <==> target.contains(q) by {
                if r@.contains(q) {
                    let j = choose|j: int| 0 <= j < ov.len() && #[trigger] ov[j].rebase(old@, new@) == q;
                    assert(ov.contains(ov[j]));
                    assert(self@.contains(ov[j]));
                }
                if target.contains(q) {
                    let x = choose|x: PathView| self@.contains(x) && x.rebase(old@, new@) == q;
                    let j = choose|j: int| 0 <= j < ov.len() && ov[j] == x;
                    assert(ov[j].rebase(old@, new@) == q);
                }
            }
            assert(r@ =~= target);
        }
        r
    }

    /// A set holding the given paths.
    pub fn from_paths(paths: Vec<EntryPath>) -> (r: PathSet)
        ensures
            r@ == paths_view(paths@).to_set(),
    {
        let mut r = PathSet::new();
        let mut paths = paths;
        let ghost all = paths@;
        // Consume from the back to move each path out without cloning it.
        while paths.len() > 0
            invariant
                paths@.len() <= all.len(),
                forall|k: int| 0 <= k < paths@.len() ==> paths@[k] == all[k],
                r@ == paths_view(all.skip(paths@.len() as int)).to_set(),
            decreases paths.len(),
        {
            let ghost before: int = paths@.len() as int;
            let p = paths.pop().unwrap();
            r.insert(p);
            proof {
                let k = before - 1;
                assert(all.skip(k) =~= seq![all[k]] + all.skip(before));
                assert(paths_view(all.skip(k)).to_set() =~= paths_view(all.skip(before)).to_set().insert(all[k]@)) by {
                    assert(paths_view(all.skip(k)) =~= seq![all[k]@] + paths_view(all.skip(before)));
                    assert forall|q: PathView| paths_view(all.skip(k)).to_set().contains(q) <==>
                        paths_view(all.skip(before)).to_set().insert(all[k]@).contains(q) by {
                        let s = paths_view(all.skip(k));
                        let t = paths_view(all.skip(before));
                        if s.contains(q) {
                            let j = choose|j: int| 0 <= j < s.len() && s[j] == q;
                            if j > 0 {
                                assert(t[j - 1] == q);
                            }
                        }
                        if t.contains(q) {
                            let j = choose|j: int| 0 <= j < t.len() && t[j] == q;
                            assert(s[j + 1] == q);
                        }
                        if q == all[k]@ {
                            assert(s[0] == q);
                        }
                    }
                }
            }
        }
        assert(all.skip(0) =~= all);
        r
    }
}

} // verus!
