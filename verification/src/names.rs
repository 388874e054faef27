use vstd::prelude::*;

use crate::error::{CoreError, CoreErrorView, NameError};

verus! {

/// `char::is_whitespace`: the Unicode `White_Space` property.
pub open spec fn is_whitespace_char(c: char) -> bool {
    let u = c as int;
    ||| 0x9 <= u <= 0xd
    ||| u == 0x20
    ||| u == 0x85
    ||| u == 0xa0
    ||| u == 0x1680
    ||| 0x2000 <= u <= 0x200a
    ||| u == 0x2028
    ||| u == 0x2029
    ||| u == 0x202f
    ||| u == 0x205f
    ||| u == 0x3000
}

/// `char::is_control`: the Unicode general category `Cc`.
pub open spec fn is_control_char(c: char) -> bool {
    let u = c as int;
    u <= 0x1f || (0x7f <= u <= 0x9f)
}

/// The characters that Windows refuses in a file name.
pub open spec fn is_forbidden_char(c: char) -> bool {
    c == '<' || c == '>' || c == ':' || c == '"' || c == '/' || c == '\\' || c == '|' || c == '?' || c == '*'
}

pub open spec fn trim_start(s: Seq<char>) -> Seq<char>
    decreases s.len(),
{
    if s.len() > 0 && is_whitespace_char(s[0]) {
        trim_start(s.drop_first())
    } else {
        s
    }
}

pub open spec fn trim_end(s: Seq<char>) -> Seq<char>
    decreases s.len(),
{
    if s.len() > 0 && is_whitespace_char(s.last()) {
        trim_end(s.drop_last())
    } else {
        s
    }
}

/// `str::trim`: the text without its leading and trailing whitespace.
pub open spec fn trim(s: Seq<char>) -> Seq<char> {
    trim_end(trim_start(s))
}

/// The text before the first period, or all of it when there is none.
pub open spec fn first_segment(s: Seq<char>) -> Seq<char>
    decreases s.len(),
{
    if s.len() == 0 {
        s
    } else if s[0] == '.' {
        Seq::empty()
    } else {
        seq![s[0]] + first_segment(s.drop_first())
    }
}

/// The code of a character under `char::to_ascii_uppercase`.
pub open spec fn ascii_upper_code(c: char) -> int {
    let u = c as int;
    if 0x61 <= u <= 0x7a {
        u - 0x20
    } else {
        u
    }
}

pub open spec fn upper_is(s: Seq<char>, word: Seq<char>) -> bool {
    &&& s.len() == word.len()
    &&& forall|i: int| 0 <= i < s.len() ==> ascii_upper_code(#[trigger] s[i]) == word[i] as int
}

/// Whether the text, upper-cased, is one of the device names that Windows
/// reserves: CON, PRN, AUX, NUL, COM1 to COM9, LPT1 to LPT9.
pub open spec fn is_reserved_device_name(s: Seq<char>) -> bool {
    ||| upper_is(s, seq!['C', 'O', 'N'])
    ||| upper_is(s, seq!['P', 'R', 'N'])
    ||| upper_is(s, seq!['A', 'U', 'X'])
    ||| upper_is(s, seq!['N', 'U', 'L'])
    ||| (s.len() == 4 && upper_is(s.take(3), seq!['C', 'O', 'M']) && '1' as int <= s[3] as int <= '9' as int)
    ||| (s.len() == 4 && upper_is(s.take(3), seq!['L', 'P', 'T']) && '1' as int <= s[3] as int <= '9' as int)
}

/// Whether a text ends with a space or a period.
pub open spec fn ends_with_space_or_period(s: Seq<char>) -> bool {
    s.len() > 0 && (s.last() == ' ' || s.last() == '.')
}

/// The verdict on an entry name: none when it is accepted, else the first
/// rule that refuses it. The rules look at the trimmed name; a name that,
/// as typed, ends with a space or a period is refused too.
pub open spec fn name_verdict(name: Seq<char>) -> Option<NameError> {
    let t = trim(name);
    if t.len() == 0 {
        Some(NameError::Empty)
    } else if ends_with_space_or_period(name) || ends_with_space_or_period(t) {
        Some(NameError::TrailingSpaceOrPeriod)
    } else if exists|i: int| 0 <= i < t.len() && (is_control_char(#[trigger] t[i]) || is_forbidden_char(t[i])) {
        Some(NameError::InvalidCharacters)
    } else if is_reserved_device_name(first_segment(t)) {
        Some(NameError::ReservedDeviceName)
    } else {
        None
    }
}

proof fn lemma_trim_start(s: Seq<char>, k: int)
    requires
        0 <= k <= s.len(),
        forall|i: int| 0 <= i < k ==> is_whitespace_char(#[trigger] s[i]),
        k == s.len() || !is_whitespace_char(s[k]),
    ensures
        trim_start(s) == s.skip(k),
    decreases k,
{
    if k == 0 {
        assert(s.skip(0) =~= s);
    } else {
        let t = s.drop_first();
        assert forall|i: int| 0 <= i < k - 1 implies is_whitespace_char(#[trigger] t[i]) by {
            assert(t[i] == s[i + 1]);
        }
        if k - 1 < t.len() {
            assert(t[k - 1] == s[k]);
        }
        lemma_trim_start(t, k - 1);
        assert(t.skip(k - 1) =~= s.skip(k));
    }
}

proof fn lemma_trim_end(s: Seq<char>, k: int)
    requires
        0 <= k <= s.len(),
        forall|i: int| k <= i < s.len() ==> is_whitespace_char(#[trigger] s[i]),
        k == 0 || !is_whitespace_char(s[k - 1]),
    ensures
        trim_end(s) == s.take(k),
    decreases s.len() - k,
{
    if k == s.len() {
        assert(s.take(k) =~= s);
    } else {
        let t = s.drop_last();
        assert forall|i: int| k <= i < t.len() implies is_whitespace_char(#[trigger] t[i]) by {
            assert(t[i] == s[i]);
        }
        if k > 0 {
            assert(t[k - 1] == s[k - 1]);
        }
        lemma_trim_end(t, k);
        assert(t.take(k) =~= s.take(k));
    }
}

proof fn lemma_first_segment(s: Seq<char>, k: int)
    requires
        0 <= k <= s.len(),
        forall|i: int| 0 <= i < k ==> #[trigger] s[i] != '.',
        k == s.len() || s[k] == '.',
    ensures
        first_segment(s) == s.take(k),
    decreases k,
{
    if s.len() == 0 {
        assert(s.take(k) =~= s);
    } else if k == 0 {
        assert(s.take(0) =~= Seq::<char>::empty());
    } else {
        let t = s.drop_first();
        assert forall|i: int| 0 <= i < k - 1 implies #[trigger] t[i] != '.' by {
            assert(t[i] == s[i + 1]);
        }
        if k - 1 < t.len() {
            assert(t[k - 1] == s[k]);
        }
        lemma_first_segment(t, k - 1);
        assert(seq![s[0]] + t.take(k - 1) =~= s.take(k));
    }
}


proof fn lemma_trim_start_shape(s: Seq<char>) -> (k: int)
    ensures
        0 <= k <= s.len(),
        trim_start(s) == s.skip(k),
        forall|i: int| 0 <= i < k ==> is_whitespace_char(#[trigger] s[i]),
        k == s.len() || !is_whitespace_char(s[k]),
    decreases s.len(),
{
    if s.len() > 0 && is_whitespace_char(s[0]) {
        let t = s.drop_first();
        let k1 = lemma_trim_start_shape(t);
        assert(t.skip(k1) =~= s.skip(k1 + 1));
        if k1 < t.len() {
            assert(t[k1] == s[k1 + 1]);
        }
        assert forall|i: int| 0 <= i < k1 + 1 implies is_whitespace_char(#[trigger] s[i]) by {
            if i > 0 {
                assert(s[i] == t[i - 1]);
            }
        }
        k1 + 1
    } else {
        assert(s.skip(0) =~= s);
        0
    }
}

proof fn lemma_trim_end_shape(s: Seq<char>) -> (m: int)
    ensures
        0 <= m <= s.len(),
        trim_end(s) == s.take(m),
        forall|i: int| m <= i < s.len() ==> is_whitespace_char(#[trigger] s[i]),
    decreases s.len(),
{
    if s.len() > 0 && is_whitespace_char(s.last()) {
        let t = s.drop_last();
        let m1 = lemma_trim_end_shape(t);
        assert(t.take(m1) =~= s.take(m1));
        assert forall|i: int| m1 <= i < s.len() implies is_whitespace_char(#[trigger] s[i]) by {
            if i < t.len() {
                assert(s[i] == t[i]);
            }
        }
        m1
    } else {
        assert(s.take(s.len() as int) =~= s);
        s.len() as int
    }
}

/// Law: an accepted name is one path component with visible content: it
/// holds no separator nor any other refused character, and something other
/// than whitespace.
pub proof fn lemma_accepted_name_is_one_component(name: Seq<char>)
    requires
        name_verdict(name) is None,
    ensures
        forall|i: int| 0 <= i < name.len() ==> !is_forbidden_char(#[trigger] name[i]),
        exists|i: int| 0 <= i < name.len() && !is_whitespace_char(#[trigger] name[i]),
{
    let k = lemma_trim_start_shape(name);
    let left = name.skip(k);
    let m = lemma_trim_end_shape(left);
    let t = trim(name);
    assert(t == left.take(m));
    assert forall|i: int| 0 <= i < name.len() implies !is_forbidden_char(#[trigger] name[i]) by {
        if i < k {
            assert(is_whitespace_char(name[i]));
        } else if i < k + m {
            assert(t[i - k] == name[i]);
            if is_forbidden_char(name[i]) {
                assert(is_control_char(t[i - k]) || is_forbidden_char(t[i - k]));
            }
        } else {
            assert(left[i - k] == name[i]);
            assert(is_whitespace_char(left[i - k]));
        }
    }
    assert(t.len() > 0);
    assert(k < name.len());
    assert(!is_whitespace_char(name[k]));
}

/// Law: trimming removes exactly the whitespace at both ends: the trimmed
/// text is the part `name[lo..hi]` with whitespace only before `lo` and
/// after `hi`, and it neither starts nor ends with whitespace.
pub proof fn lemma_trim_removes_outer_whitespace(name: Seq<char>)
    ensures
        exists|lo: int, hi: int|
            {
                &&& 0 <= lo <= hi <= name.len()
                &&& #[trigger] name.subrange(lo, hi) == trim(name)
                &&& forall|i: int| 0 <= i < lo ==> is_whitespace_char(#[trigger] name[i])
                &&& forall|i: int| hi <= i < name.len() ==> is_whitespace_char(#[trigger] name[i])
                &&& lo < hi ==> !is_whitespace_char(name[lo]) && !is_whitespace_char(name[hi - 1])
            },
{
    let k = lemma_trim_start_shape(name);
    let left = name.skip(k);
    let m = lemma_trim_end_shape(left);
    assert(left.take(m) =~= name.subrange(k, k + m));
    assert forall|i: int| k + m <= i < name.len() implies is_whitespace_char(#[trigger] name[i]) by {
        assert(left[i - k] == name[i]);
    }
    if m > 0 {
        assert(left[0] == name[k]);
        assert(left[m - 1] == name[k + m - 1]);
        if m < left.len() {
        }
        lemma_trim_end_last(left, m);
    }
    assert(name.subrange(k, k + m) == trim(name));
}

proof fn lemma_trim_end_last(s: Seq<char>, m: int)
    requires
        0 < m <= s.len(),
        trim_end(s) == s.take(m),
    ensures
        !is_whitespace_char(s[m - 1]),
    decreases s.len(),
{
    if s.len() > 0 && is_whitespace_char(s.last()) {
        let t = s.drop_last();
        assert(trim_end(s) == trim_end(t));
        assert(t.take(m) =~= s.take(m)) by {
            if m > t.len() {
                assert(trim_end(t).len() <= t.len()) by {
                    lemma_trim_end_len(t);
                }
            }
        }
        lemma_trim_end_len(t);
        lemma_trim_end_last(t, m);
    } else {
        assert(s.take(m).len() == s.len());
    }
}

proof fn lemma_trim_end_len(s: Seq<char>)
    ensures
        trim_end(s).len() <= s.len(),
    decreases s.len(),
{
    if s.len() > 0 && is_whitespace_char(s.last()) {
        lemma_trim_end_len(s.drop_last());
    }
}

/// Law: a reserved device name is three or four characters long, all of
/// them ASCII letters or, last, a digit from 1 to 9.
pub proof fn lemma_reserved_names_are_short(s: Seq<char>)
    requires
        is_reserved_device_name(s),
    ensures
        s.len() == 3 || s.len() == 4,
        forall|i: int| 0 <= i < 3 ==> {
            let u = #[trigger] s[i] as int;
            (0x41 <= u <= 0x5a) || (0x61 <= u <= 0x7a)
        },
        s.len() == 4 ==> '1' as int <= s[3] as int <= '9' as int,
{
    let h = if s.len() == 4 { s.take(3) } else { s };
    assert forall|i: int| 0 <= i < 3 implies {
        let u = #[trigger] s[i] as int;
        (0x41 <= u <= 0x5a) || (0x61 <= u <= 0x7a)
    } by {
        assert(h[i] == s[i]);
        let w = if upper_is(h, seq!['C', 'O', 'N']) {
            seq!['C', 'O', 'N']
        } else if upper_is(h, seq!['P', 'R', 'N']) {
            seq!['P', 'R', 'N']
        } else if upper_is(h, seq!['A', 'U', 'X']) {
            seq!['A', 'U', 'X']
        } else if upper_is(h, seq!['N', 'U', 'L']) {
            seq!['N', 'U', 'L']
        } else if upper_is(h, seq!['C', 'O', 'M']) {
            seq!['C', 'O', 'M']
        } else {
            seq!['L', 'P', 'T']
        };
        assert(upper_is(h, w));
        assert(ascii_upper_code(h[i]) == w[i] as int);
        assert(0x41 <= w[i] as int <= 0x5a);
    }
}

/// Law: every name that breaks none of the rules is accepted. A name is
/// accepted when, without its surrounding whitespace, it is not empty; it
/// ends with neither a space nor a period, as typed or trimmed; it holds no
/// control character (U+0000 to U+001F, U+007F to U+009F) and none of
/// `< > : " / \ | ? *`; and its part before the first period is not a
/// reserved device name. Any other character, `&` or `#` say, is allowed.
pub proof fn lemma_rule_abiding_name_is_accepted(name: Seq<char>)
    requires
        trim(name).len() > 0,
        name.last() != ' ' && name.last() != '.',
        trim(name).last() != ' ' && trim(name).last() != '.',
        forall|i: int|
            0 <= i < trim(name).len() ==> {
                let c = #[trigger] trim(name)[i];
                &&& !(c as int <= 0x1f || (0x7f <= c as int <= 0x9f))
                &&& c != '<' && c != '>' && c != ':' && c != '"' && c != '/'
                &&& c != '\\' && c != '|' && c != '?' && c != '*'
            },
        !is_reserved_device_name(first_segment(trim(name))),
    ensures
        name_verdict(name) is None,
{
    let t = trim(name);
    assert(name.len() > 0) by {
        if name.len() == 0 {
            assert(trim_start(name) == name);
            assert(trim_end(name) == name);
        }
    }
    assert(!exists|i: int| 0 <= i < t.len() && (is_control_char(#[trigger] t[i]) || is_forbidden_char(t[i])));
}

fn char_is_whitespace(c: char) -> (r: bool)
    ensures
        r == is_whitespace_char(c),
{
    let u = c as u32;
    (0x9 <= u && u <= 0xd) || u == 0x20 || u == 0x85 || u == 0xa0 || u == 0x1680 || (0x2000 <= u && u
        <= 0x200a) || u == 0x2028 || u == 0x2029 || u == 0x202f || u == 0x205f || u == 0x3000
}

fn char_is_refused(c: char) -> (r: bool)
    ensures
        r == (is_control_char(c) || is_forbidden_char(c)),
{
    let u = c as u32;
    u <= 0x1f || (0x7f <= u && u <= 0x9f) || c == '<' || c == '>' || c == ':' || c == '"' || c == '/'
        || c == '\\' || c == '|' || c == '?' || c == '*'
}

fn upper_code(c: char) -> (r: u32)
    ensures
        r as int == ascii_upper_code(c),
{
    let u = c as u32;
    if 0x61 <= u && u <= 0x7a {
        u - 0x20
    } else {
        u
    }
}

/// Whether the characters `s[lo..hi]`, upper-cased, are the text of `word`.
fn upper_matches(s: &str, lo: usize, hi: usize, word: &str) -> (r: bool)
    requires
        lo <= hi <= s@.len(),
    ensures
        r == upper_is(s@.subrange(lo as int, hi as int), word@),
{
    let ghost seg = s@.subrange(lo as int, hi as int);
    let n = word.unicode_len();
    if hi - lo != n {
        return false;
    }
    let mut i: usize = 0;
    while i < n
        invariant
            n == word@.len(),
            hi - lo == n,
            lo <= hi <= s@.len(),
            seg == s@.subrange(lo as int, hi as int),
            i <= n,
            forall|k: int| 0 <= k < i ==> ascii_upper_code(#[trigger] seg[k]) == word@[k] as int,
        decreases n - i,
    {
        let c = s.get_char(lo + i);
        let w = word.get_char(i);
        assert(seg[i as int] == c);
        if upper_code(c) != w as u32 {
            return false;
        }
        i = i + 1;
    }
    true
}

fn is_digit_one_to_nine(c: char) -> (r: bool)
    ensures
        r == ('1' as int <= c as int <= '9' as int),
{
    '1' <= c && c <= '9'
}

/// Whether `s[lo..hi]` is a reserved device name.
fn reserved_device_name(s: &str, lo: usize, hi: usize) -> (r: bool)
    requires
        lo <= hi <= s@.len(),
    ensures
        r == is_reserved_device_name(s@.subrange(lo as int, hi as int)),
{
    let ghost seg = s@.subrange(lo as int, hi as int);
    proof {
        reveal_strlit("CON");
        reveal_strlit("PRN");
        reveal_strlit("AUX");
        reveal_strlit("NUL");
        reveal_strlit("COM");
        reveal_strlit("LPT");
        assert("CON"@ =~= seq!['C', 'O', 'N']);
        assert("PRN"@ =~= seq!['P', 'R', 'N']);
        assert("AUX"@ =~= seq!['A', 'U', 'X']);
        assert("NUL"@ =~= seq!['N', 'U', 'L']);
        assert("COM"@ =~= seq!['C', 'O', 'M']);
        assert("LPT"@ =~= seq!['L', 'P', 'T']);
    }
    if upper_matches(s, lo, hi, "CON") || upper_matches(s, lo, hi, "PRN") || upper_matches(s, lo, hi, "AUX")
        || upper_matches(s, lo, hi, "NUL") {
        return true;
    }
    if hi - lo != 4 {
        return false;
    }
    assert(seg.take(3) =~= s@.subrange(lo as int, lo + 3));
    let last = s.get_char(lo + 3);
    assert(seg[3] == last);
    (upper_matches(s, lo, lo + 3, "COM") || upper_matches(s, lo, lo + 3, "LPT")) && is_digit_one_to_nine(last)
}

/// The bounds of the trimmed part of a name: `trim(name)` is
/// `name[lo..hi]`.
fn trim_bounds(name: &str) -> (r: (usize, usize))
    ensures
        r.0 <= r.1 <= name@.len(),
        trim(name@) == name@.subrange(r.0 as int, r.1 as int),
{
    let n = name.unicode_len();
    let ghost s = name@;
    let mut lo: usize = 0;
    while lo < n && char_is_whitespace(name.get_char(lo))
        invariant
            n == s.len(),
            s == name@,
            lo <= n,
            forall|i: int| 0 <= i < lo ==> is_whitespace_char(#[trigger] s[i]),
        decreases n - lo,
    {
        lo = lo + 1;
    }
    proof {
        lemma_trim_start(s, lo as int);
    }
    let ghost left = s.skip(lo as int);
    let mut hi: usize = n;
    while hi > lo && char_is_whitespace(name.get_char(hi - 1))
        invariant
            n == s.len(),
            s == name@,
            lo <= hi <= n,
            forall|i: int| hi <= i < n ==> is_whitespace_char(#[trigger] s[i]),
        decreases hi,
    {
        hi = hi - 1;
    }
    let ghost t = s.subrange(lo as int, hi as int);
    proof {
        assert forall|i: int| hi - lo <= i < left.len() implies is_whitespace_char(#[trigger] left[i]) by {
            assert(left[i] == s[lo + i]);
        }
        if hi > lo {
            assert(left[hi - lo - 1] == s[hi - 1]);
        }
        lemma_trim_end(left, hi - lo);
        assert(left.take(hi - lo) =~= t);
        assert(trim(s) == t);
    }
    (lo, hi)
}

/// The name without its leading and trailing whitespace, as `str::trim`
/// gives it.
pub fn trimmed_text(name: &str) -> (r: String)
    ensures
        r@ == trim(name@),
{
    let (lo, hi) = trim_bounds(name);
    String::from_str(name.substring_char(lo, hi))
}

/// The trimmed text of an input field, or none when nothing but whitespace
/// was typed.
pub fn nonempty_input(raw: &str) -> (r: Option<String>)
    ensures
        trim(raw@).len() == 0 ==> r is None,
        trim(raw@).len() > 0 ==> (r matches Some(t) && t@ == trim(raw@)),
{
    let t = trimmed_text(raw);
    if t.as_str().is_empty() {
        None
    } else {
        Some(t)
    }
}

/// Checks a name for a new or renamed entry against the Windows naming
/// rules. The rules look at the name without its surrounding whitespace;
/// a name typed with a trailing space or period is refused as well.
pub fn validate_entry_name(name: &str) -> (r: Result<(), CoreError>)
    ensures
        match name_verdict(name@) {
            None => r is Ok,
            Some(e) => r matches Err(err) && err@ == CoreErrorView::InvalidName(e),
        },
{
    let n = name.unicode_len();
    let ghost s = name@;
    let (lo, hi) = trim_bounds(name);
    let ghost t = s.subrange(lo as int, hi as int);
    if hi == lo {
        return Err(CoreError::InvalidName(NameError::Empty));
    }
    let last = name.get_char(hi - 1);
    assert(t.last() == last);
    let typed_last = name.get_char(n - 1);
    if last == ' ' || last == '.' || typed_last == ' ' || typed_last == '.' {
        return Err(CoreError::InvalidName(NameError::TrailingSpaceOrPeriod));
    }
    let mut i: usize = lo;
    while i < hi
        invariant
            s == name@,
            lo <= i <= hi <= n,
            n == s.len(),
            t == s.subrange(lo as int, hi as int),
            trim(s) == t,
            t.len() > 0,
            t.last() != ' ' && t.last() != '.',
            !ends_with_space_or_period(s),
            forall|k: int| 0 <= k < i - lo ==> !(is_control_char(#[trigger] t[k]) || is_forbidden_char(t[k])),
        decreases hi - i,
    {
        let c = name.get_char(i);
        assert(t[i - lo] == c);
        if char_is_refused(c) {
            assert(is_control_char(t[i - lo]) || is_forbidden_char(t[i - lo]));
            return Err(CoreError::InvalidName(NameError::InvalidCharacters));
        }
        i = i + 1;
    }
    let mut dot: usize = lo;
    while dot < hi && name.get_char(dot) != '.'
        invariant
            s == name@,
            lo <= dot <= hi <= n,
            n == s.len(),
            t == s.subrange(lo as int, hi as int),
            trim(s) == t,
            forall|k: int| 0 <= k < dot - lo ==> #[trigger] t[k] != '.',
        decreases hi - dot,
    {
        assert(t[dot - lo] == s[dot as int]);
        dot = dot + 1;
    }
    proof {
        if dot < hi {
            assert(t[dot - lo] == s[dot as int]);
        }
        lemma_first_segment(t, dot - lo);
        assert(t.take(dot - lo) =~= s.subrange(lo as int, dot as int));
    }
    if reserved_device_name(name, lo, dot) {
        return Err(CoreError::InvalidName(NameError::ReservedDeviceName));
    }
    Ok(())
}

} // verus!
