use vstd::prelude::*;

use crate::text::{decimal, digit_char, push_decimal};

verus! {

/// The index of the last occurrence of `c` in `s`, or -1.
pub open spec fn last_index_of(s: Seq<char>, c: char) -> int
    decreases s.len(),
{
    if s.len() == 0 {
        -1
    } else if s.last() == c {
        s.len() - 1
    } else {
        last_index_of(s.drop_last(), c)
    }
}

/// How a copied entry's name is split to make room for a conflict marker:
/// a directory, `..`, a name without a period and a name whose only period
/// leads it keep their whole name as base; any other file name is split
/// before its last period (as `Path::file_stem` and `Path::extension` do),
/// the period going with the extension.
pub open spec fn spec_split_name(name: Seq<char>, is_dir: bool) -> (Seq<char>, Seq<char>) {
    let k = last_index_of(name, '.');
    if is_dir || name == seq!['.', '.'] || k <= 0 {
        (name, Seq::empty())
    } else {
        (name.take(k), name.skip(k))
    }
}

/// The candidate name for the `attempt`-th try:
/// `base ext`, `base (copy)ext`, then `base (copy N)ext`.
pub open spec fn conflict_name(base: Seq<char>, ext: Seq<char>, attempt: nat) -> Seq<char> {
    if attempt == 0 {
        base + ext
    } else if attempt == 1 {
        base + " (copy)"@ + ext
    } else {
        base + " (copy "@ + decimal(attempt) + ")"@ + ext
    }
}

/// The largest attempt number tried before giving up.
pub const MAX_CONFLICT_ATTEMPT: usize = 10000;

/// The next move in the search for a free name.
#[derive(Debug, Clone, Copy, PartialEq, Eq, Structural)]
pub enum ConflictStep {
    /// The candidate of this attempt is free: use it.
    Use(usize),
    /// Try this attempt next.
    Next(usize),
    /// Every attempt up to the limit was taken.
    GiveUp,
}

proof fn lemma_last_index(s: Seq<char>, c: char, k: int)
    requires
        -1 <= k < s.len(),
        k >= 0 ==> s[k] == c,
        forall|i: int| k < i < s.len() ==> #[trigger] s[i] != c,
    ensures
        last_index_of(s, c) == k,
    decreases s.len(),
{
    if s.len() > 0 && k < s.len() - 1 {
        let t = s.drop_last();
        assert forall|i: int| k < i < t.len() implies #[trigger] t[i] != c by {
            assert(t[i] == s[i]);
        }
        if k >= 0 {
            assert(t[k] == s[k]);
        }
        lemma_last_index(t, c, k);
    }
}

proof fn lemma_last_index_bounds(s: Seq<char>, c: char)
    ensures
        -1 <= last_index_of(s, c) < s.len(),
    decreases s.len(),
{
    if s.len() > 0 && s.last() != c {
        lemma_last_index_bounds(s.drop_last(), c);
    }
}

/// Splits a name into base and extension for conflict naming.
pub fn split_name_for_conflict(source_name: &str, is_dir: bool) -> (r: (String, String))
    ensures
        (r.0@, r.1@) == spec_split_name(source_name@, is_dir),
{
    let n = source_name.unicode_len();
    let ghost s = source_name@;
    let mut k: usize = n;
    while k > 0 && source_name.get_char(k - 1) != '.'
        invariant
            s == source_name@,
            n == s.len(),
            k <= n,
            forall|i: int| k <= i < n ==> #[trigger] s[i] != '.',
        decreases k,
    {
        k = k - 1;
    }
    proof {
        if k > 0 {
            lemma_last_index(s, '.', k - 1);
        } else {
            lemma_last_index(s, '.', -1);
        }
    }
    let is_dot_dot = n == 2 && source_name.get_char(0) == '.' && source_name.get_char(1) == '.';
    proof {
        if n == 2 {
            assert(is_dot_dot == (s =~= seq!['.', '.']));
        } else {
            assert(s.len() != seq!['.', '.'].len());
        }
    }
    if is_dir || is_dot_dot || k <= 1 {
        return (String::from_str(source_name), String::new());
    }
    let dot = k - 1;
    let base = String::from_str(source_name.substring_char(0, dot));
    let ext = String::from_str(source_name.substring_char(dot, n));
    assert(s.subrange(0, dot as int) =~= s.take(dot as int));
    assert(s.subrange(dot as int, n as int) =~= s.skip(dot as int));
    (base, ext)
}

/// The candidate name for the `attempt`-th try at a free name.
pub fn format_conflict_name(base_name: &str, extension: &str, attempt: usize) -> (r: String)
    ensures
        r@ == conflict_name(base_name@, extension@, attempt as nat),
{
    let mut name = String::from_str(base_name);
    if attempt == 1 {
        name.append(" (copy)");
    } else if attempt >= 2 {
        name.append(" (copy ");
        push_decimal(&mut name, attempt as u64);
        name.append(")");
    }
    name.append(extension);
    proof {
        if attempt == 0 {
            assert(name@ =~= base_name@ + extension@);
        } else if attempt == 1 {
            assert(name@ =~= base_name@ + " (copy)"@ + extension@);
        } else {
            assert(name@ =~= base_name@ + " (copy "@ + decimal(attempt as nat) + ")"@ + extension@);
        }
    }
    name
}

/// One step of the search for a free name: the candidate of `attempt` is
/// used when it does not exist; else the next attempt follows, up to the
/// limit.
pub fn conflict_search_step(attempt: usize, candidate_exists: bool) -> (r: ConflictStep)
    requires
        attempt <= MAX_CONFLICT_ATTEMPT,
    ensures
        !candidate_exists ==> r == ConflictStep::Use(attempt),
        candidate_exists && attempt < MAX_CONFLICT_ATTEMPT ==> r == ConflictStep::Next((attempt + 1) as usize),
        candidate_exists && attempt == MAX_CONFLICT_ATTEMPT ==> r == ConflictStep::GiveUp,
{
    if !candidate_exists {
        return ConflictStep::Use(attempt);
    }
    if attempt + 1 > MAX_CONFLICT_ATTEMPT {
        ConflictStep::GiveUp
    } else {
        ConflictStep::Next(attempt + 1)
    }
}


/// The type of an entry met while copying or removing, as the filesystem
/// reports it without following links.
#[derive(Debug, Clone, Copy, PartialEq, Eq, Structural)]
pub enum EntryKind {
    File,
    Directory,
    Symlink,
    Other,
}

/// What to do with an entry of a copied tree.
#[derive(Debug, Clone, Copy, PartialEq, Eq, Structural)]
pub enum CopyAction {
    /// Copy the file's contents.
    CopyFile,
    /// Create the directory, then go on with what it holds.
    CreateDirectory,
    /// Refuse: symbolic links are not copied.
    RefuseSymlink,
    /// Refuse: an entry that is neither file nor directory.
    RefuseUnsupported,
}

/// What to do with the source of a move once it was copied.
#[derive(Debug, Clone, Copy, PartialEq, Eq, Structural)]
pub enum RemoveAction {
    RemoveFile,
    RemoveDirectoryTree,
    RefuseUnsupported,
}

/// Files are copied, directories recreated; links and other entries stop
/// the copy.
pub fn copy_action(kind: EntryKind) -> (r: CopyAction)
    ensures
        r == match kind {
            EntryKind::File => CopyAction::CopyFile,
            EntryKind::Directory => CopyAction::CreateDirectory,
            EntryKind::Symlink => CopyAction::RefuseSymlink,
            EntryKind::Other => CopyAction::RefuseUnsupported,
        },
{
    match kind {
        EntryKind::File => CopyAction::CopyFile,
        EntryKind::Directory => CopyAction::CreateDirectory,
        EntryKind::Symlink => CopyAction::RefuseSymlink,
        EntryKind::Other => CopyAction::RefuseUnsupported,
    }
}

/// A moved file is removed, a moved directory removed with all it holds;
/// anything else is refused.
pub fn remove_action(kind: EntryKind) -> (r: RemoveAction)
    ensures
        r == match kind {
            EntryKind::File => RemoveAction::RemoveFile,
            EntryKind::Directory => RemoveAction::RemoveDirectoryTree,
            _ => RemoveAction::RefuseUnsupported,
        },
{
    match kind {
        EntryKind::File => RemoveAction::RemoveFile,
        EntryKind::Directory => RemoveAction::RemoveDirectoryTree,
        _ => RemoveAction::RefuseUnsupported,
    }
}

/// The numeric value of a digit text.
pub open spec fn digits_value(s: Seq<char>) -> int
    decreases s.len(),
{
    if s.len() == 0 {
        0
    } else {
        digits_value(s.drop_last()) * 10 + (s.last() as int - '0' as int)
    }
}

proof fn lemma_digit_char(d: nat)
    requires
        d < 10,
    ensures
        digit_char(d) as int - '0' as int == d,
{
    let ds = seq!['0', '1', '2', '3', '4', '5', '6', '7', '8', '9'];
    assert(digit_char(d) == ds[d as int]);
    if d == 0 { assert(ds[0] == '0'); }
    else if d == 1 { assert(ds[1] == '1'); }
    else if d == 2 { assert(ds[2] == '2'); }
    else if d == 3 { assert(ds[3] == '3'); }
    else if d == 4 { assert(ds[4] == '4'); }
    else if d == 5 { assert(ds[5] == '5'); }
    else if d == 6 { assert(ds[6] == '6'); }
    else if d == 7 { assert(ds[7] == '7'); }
    else if d == 8 { assert(ds[8] == '8'); }
    else { assert(ds[9] == '9'); }
}

proof fn lemma_decimal_value(n: nat)
    ensures
        digits_value(decimal(n)) == n,
        decimal(n).len() >= 1,
    decreases n,
{
    if n < 10 {
        lemma_digit_char(n);
        let d = seq![digit_char(n)];
        assert(d.drop_last() =~= Seq::<char>::empty());
        assert(digits_value(Seq::<char>::empty()) == 0);
        assert(digits_value(d) == digits_value(d.drop_last()) * 10 + (d.last() as int - '0' as int));
    } else {
        lemma_decimal_value(n / 10);
        lemma_digit_char(n % 10);
        let d = decimal(n);
        assert(d.drop_last() =~= decimal(n / 10));
        assert(d.last() == digit_char(n % 10));
        assert(digits_value(d) == digits_value(d.drop_last()) * 10 + (d.last() as int - '0' as int));
        assert(n == (n / 10) * 10 + n % 10) by (nonlinear_arith);
    }
}

/// Distinct numbers have distinct decimal texts.
pub proof fn lemma_decimal_injective(a: nat, b: nat)
    requires
        decimal(a) == decimal(b),
    ensures
        a == b,
{
    lemma_decimal_value(a);
    lemma_decimal_value(b);
}

/// Law: the attempts of the search name distinct candidates, so each
/// attempt tries a name that no earlier attempt tried.
pub proof fn lemma_conflict_names_distinct(base: Seq<char>, ext: Seq<char>, i: nat, j: nat)
    requires
        i != j,
    ensures
        conflict_name(base, ext, i) != conflict_name(base, ext, j),
{
    reveal_strlit(" (copy)");
    reveal_strlit(" (copy ");
    reveal_strlit(")");
    lemma_decimal_value(i);
    lemma_decimal_value(j);
    let ni = conflict_name(base, ext, i);
    let nj = conflict_name(base, ext, j);
    if ni == nj {
        if i >= 2 && j >= 2 {
            let di = decimal(i);
            let dj = decimal(j);
            assert(di.len() == dj.len()) by {
                assert(ni.len() == base.len() + 7 + di.len() + 1 + ext.len());
                assert(nj.len() == base.len() + 7 + dj.len() + 1 + ext.len());
            }
            assert forall|k: int| 0 <= k < di.len() implies di[k] == dj[k] by {
                assert(ni[base.len() + 7 + k] == di[k]);
                assert(nj[base.len() + 7 + k] == dj[k]);
            }
            assert(di =~= dj);
            lemma_decimal_injective(i, j);
        } else if i == 1 && j >= 2 {
            assert(ni.len() != nj.len());
        } else if j == 1 && i >= 2 {
            assert(ni.len() != nj.len());
        } else {
            assert(ni.len() != nj.len());
        }
    }
}

/// Law: the first candidate of a split name is the name itself.
pub proof fn lemma_first_candidate_is_name(name: Seq<char>, is_dir: bool)
    ensures
        conflict_name(spec_split_name(name, is_dir).0, spec_split_name(name, is_dir).1, 0) == name,
{
    let k = last_index_of(name, '.');
    lemma_last_index_bounds(name, '.');
    if !(is_dir || name == seq!['.', '.'] || k <= 0) {
        assert(name.take(k) + name.skip(k) =~= name);
    } else {
        assert(name + Seq::<char>::empty() =~= name);
    }
}

/// Law: a file name whose last period stands at `k > 0` (other than `..`)
/// splits there, whatever its first character: the base is the text before
/// that period and the extension the period with the rest, as
/// `Path::file_stem` and `Path::extension` give them.
pub proof fn lemma_split_at_last_period(name: Seq<char>, k: int)
    requires
        0 < k < name.len(),
        name[k] == '.',
        forall|j: int| k < j < name.len() ==> #[trigger] name[j] != '.',
        name != seq!['.', '.'],
    ensures
        spec_split_name(name, false) == (name.take(k), name.skip(k)),
        spec_split_name(name, false).0 + spec_split_name(name, false).1 == name,
        spec_split_name(name, false).1[0] == '.',
{
    lemma_last_index(name, '.', k);
    assert(name.take(k) + name.skip(k) =~= name);
}

/// Law: a directory, and a file name with no period after its first
/// character, keep the whole name as base with no extension.
pub proof fn lemma_split_keeps_whole_name(name: Seq<char>, is_dir: bool)
    requires
        is_dir || forall|j: int| 0 < j < name.len() ==> #[trigger] name[j] != '.',
    ensures
        spec_split_name(name, is_dir) == (name, Seq::<char>::empty()),
{
    if !is_dir {
        if name.len() > 0 && name[0] == '.' {
            lemma_last_index(name, '.', 0);
        } else {
            lemma_last_index(name, '.', -1);
        }
    }
}

} // verus!
