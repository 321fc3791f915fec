//! String primitives shared by the codec, the header extractor and the
//! index: first/last occurrence of a character, whitespace trimming, and
//! splitting a text into newline-separated lines.

use vstd::prelude::*;
use vstd::string::StrSliceExecFns;
use vstd::string::StringExecFns;

verus! {

/// The character sequences of a list of strings.
pub open spec fn strs_abs(v: Seq<String>) -> Seq<Seq<char>> {
    v.map_values(|s: String| s@)
}

/// ASCII whitespace, the character set the tool trims around values.
pub open spec fn is_ws(c: char) -> bool {
    c == ' ' || c == '\t' || c == '\n' || c == '\r'
}

/// Index of the first occurrence of `c` in `s`, or `s.len()` if absent.
pub open spec fn find_at(s: Seq<char>, c: char) -> int
    decreases s.len(),
{
    if s.len() == 0 {
        0
    } else if s[0] == c {
        0
    } else {
        1 + find_at(s.drop_first(), c)
    }
}

pub proof fn lemma_find_props(s: Seq<char>, c: char)
    ensures
        0 <= find_at(s, c) <= s.len(),
        find_at(s, c) < s.len() ==> s[find_at(s, c)] == c,
        forall|j: int| 0 <= j < find_at(s, c) ==> s[j] != c,
    decreases s.len(),
{
    if s.len() == 0 {
    } else if s[0] == c {
    } else {
        let d = s.drop_first();
        lemma_find_props(d, c);
        let f = find_at(s, c);
        if f < s.len() {
            assert(s[f] == d[f - 1]);
        }
        assert forall|j: int| 0 <= j < f implies s[j] != c by {
            if j > 0 {
                assert(s[j] == d[j - 1]);
            }
        }
    }
}

/// `find_at` is pinned down by the first-occurrence properties.
pub proof fn lemma_find_at_is(s: Seq<char>, c: char, i: int)
    requires
        0 <= i <= s.len(),
        forall|j: int| 0 <= j < i ==> s[j] != c,
        i < s.len() ==> s[i] == c,
    ensures
        find_at(s, c) == i,
{
    lemma_find_props(s, c);
    let f = find_at(s, c);
    if f < i {
        assert(s[f] == c);
        assert(false);
    } else if f > i {
        assert(s[i] != c);
        assert(false);
    }
}

/// Index of the last occurrence of `c` in `s`, or `-1` if absent.
pub open spec fn rfind_at(s: Seq<char>, c: char) -> int
    decreases s.len(),
{
    if s.len() == 0 {
        -1
    } else if s[s.len() - 1] == c {
        s.len() - 1
    } else {
        rfind_at(s.drop_last(), c)
    }
}

pub proof fn lemma_rfind_props(s: Seq<char>, c: char)
    ensures
        -1 <= rfind_at(s, c) < s.len(),
        rfind_at(s, c) >= 0 ==> s[rfind_at(s, c)] == c,
        forall|j: int| rfind_at(s, c) < j < s.len() ==> s[j] != c,
    decreases s.len(),
{
    if s.len() == 0 {
    } else if s[s.len() - 1] == c {
    } else {
        let d = s.drop_last();
        lemma_rfind_props(d, c);
        let f = rfind_at(s, c);
        if f >= 0 {
            assert(s[f] == d[f]);
        }
        assert forall|j: int| f < j < s.len() implies s[j] != c by {
            if j < s.len() - 1 {
                assert(s[j] == d[j]);
            }
        }
    }
}

/// `rfind_at` is pinned down by the last-occurrence properties.
pub proof fn lemma_rfind_at_is(s: Seq<char>, c: char, i: int)
    requires
        -1 <= i < s.len(),
        forall|j: int| i < j < s.len() ==> s[j] != c,
        i >= 0 ==> s[i] == c,
    ensures
        rfind_at(s, c) == i,
{
    lemma_rfind_props(s, c);
    let f = rfind_at(s, c);
    if f < i {
        assert(s[i] != c);
        assert(false);
    } else if f > i {
        assert(s[f] == c);
        assert(false);
    }
}

/// `s` with leading ASCII whitespace removed.
pub open spec fn ltrim_s(s: Seq<char>) -> Seq<char>
    decreases s.len(),
{
    if s.len() > 0 && is_ws(s[0]) {
        ltrim_s(s.drop_first())
    } else {
        s
    }
}

/// `s` with trailing ASCII whitespace removed.
pub open spec fn rtrim_s(s: Seq<char>) -> Seq<char>
    decreases s.len(),
{
    if s.len() > 0 && is_ws(s[s.len() - 1]) {
        rtrim_s(s.drop_last())
    } else {
        s
    }
}

/// `s` with whitespace removed at both ends.
pub open spec fn trim_s(s: Seq<char>) -> Seq<char> {
    rtrim_s(ltrim_s(s))
}

pub proof fn lemma_ltrim_skip(s: Seq<char>, k: int)
    requires
        0 <= k <= s.len(),
        forall|j: int| 0 <= j < k ==> is_ws(s[j]),
        k < s.len() ==> !is_ws(s[k]),
    ensures
        ltrim_s(s) == s.skip(k),
    decreases k,
{
    if k == 0 {
        assert(s.skip(0) =~= s);
    } else {
        let d = s.drop_first();
        assert(is_ws(s[0]));
        assert forall|j: int| 0 <= j < k - 1 implies is_ws(d[j]) by {
            assert(d[j] == s[j + 1]);
        }
        if k - 1 < d.len() {
            assert(d[k - 1] == s[k]);
        }
        lemma_ltrim_skip(d, k - 1);
        assert(d.skip(k - 1) =~= s.skip(k));
    }
}

pub proof fn lemma_rtrim_take(s: Seq<char>, k: int)
    requires
        0 <= k <= s.len(),
        forall|j: int| k <= j < s.len() ==> is_ws(s[j]),
        k > 0 ==> !is_ws(s[k - 1]),
    ensures
        rtrim_s(s) == s.take(k),
    decreases s.len() - k,
{
    if k == s.len() {
        assert(s.take(k) =~= s);
    } else {
        let d = s.drop_last();
        assert(is_ws(s[s.len() - 1]));
        assert forall|j: int| k <= j < d.len() implies is_ws(d[j]) by {
            assert(d[j] == s[j]);
        }
        if k > 0 {
            assert(d[k - 1] == s[k - 1]);
        }
        lemma_rtrim_take(d, k);
        assert(d.take(k) =~= s.take(k));
    }
}

/// Lines of a text, split on `'\n'`: a text with n newlines yields n + 1
/// pieces.
pub open spec fn split_nl(t: Seq<char>) -> Seq<Seq<char>>
    decreases t.len(),
{
    if t.len() == 0 {
        seq![Seq::<char>::empty()]
    } else if t[0] == '\n' {
        seq![Seq::<char>::empty()] + split_nl(t.drop_first())
    } else {
        let rest = split_nl(t.drop_first());
        seq![seq![t[0]] + rest[0]] + rest.drop_first()
    }
}

pub proof fn lemma_split_nl_len(t: Seq<char>)
    ensures
        split_nl(t).len() >= 1,
    decreases t.len(),
{
    if t.len() == 0 {
    } else {
        lemma_split_nl_len(t.drop_first());
    }
}

/// `split_nl` unfolded at the first newline: no newline means one piece,
/// otherwise the head line followed by the split of the remainder.
pub proof fn lemma_split_nl_at(t: Seq<char>)
    ensures
        find_at(t, '\n') == t.len() ==> split_nl(t) == seq![t],
        find_at(t, '\n') < t.len() ==> split_nl(t) == seq![t.take(find_at(t, '\n'))] + split_nl(
            t.skip(find_at(t, '\n') + 1),
        ),
    decreases t.len(),
{
    lemma_find_props(t, '\n');
    let i = find_at(t, '\n');
    if t.len() == 0 {
        assert(t =~= Seq::<char>::empty());
        assert(split_nl(t) =~~= seq![t]);
    } else if t[0] == '\n' {
        assert(i == 0);
        assert(t.take(0) =~= Seq::<char>::empty());
        assert(t.skip(1) =~= t.drop_first());
        assert(split_nl(t) =~~= seq![t.take(i)] + split_nl(t.skip(i + 1)));
    } else {
        let d = t.drop_first();
        lemma_split_nl_at(d);
        lemma_split_nl_len(d);
        lemma_find_props(d, '\n');
        let id = find_at(d, '\n');
        assert(i == 1 + id);
        let rest = split_nl(d);
        if id == d.len() {
            assert(rest == seq![d]);
            assert(rest[0] == d);
            assert(seq![t[0]] + d =~= t);
            assert(rest.drop_first() =~~= Seq::<Seq<char>>::empty());
            assert(split_nl(t) =~~= seq![t]);
        } else {
            assert(rest == seq![d.take(id)] + split_nl(d.skip(id + 1)));
            assert(rest[0] == d.take(id));
            assert(seq![t[0]] + d.take(id) =~= t.take(i));
            assert(rest.drop_first() =~~= split_nl(d.skip(id + 1)));
            assert(d.skip(id + 1) =~= t.skip(i + 1));
            assert(split_nl(t) =~~= seq![t.take(i)] + split_nl(t.skip(i + 1)));
        }
    }
}

/// Splitting `line + '\n' + rest` yields `line` followed by the split of
/// `rest`, provided `line` holds no newline.
pub proof fn lemma_split_nl_line(line: Seq<char>, rest: Seq<char>)
    requires
        !line.contains('\n'),
    ensures
        split_nl(line + seq!['\n'] + rest) == seq![line] + split_nl(rest),
{
    let t = line + seq!['\n'] + rest;
    assert forall|j: int| 0 <= j < line.len() implies t[j] != '\n' by {
        assert(t[j] == line[j]);
        if line[j] == '\n' {
            assert(line.contains('\n'));
        }
    }
    assert(t[line.len() as int] == '\n');
    lemma_find_at_is(t, '\n', line.len() as int);
    lemma_split_nl_at(t);
    assert(t.take(line.len() as int) =~= line);
    assert(t.skip(line.len() as int + 1) =~= rest);
}

/// First index of `c` in `s`, or the length of `s` if `c` is absent.
pub fn find_char(s: &str, c: char) -> (r: usize)
    ensures
        r as int == find_at(s@, c),
        r <= s@.len(),
{
    let n = s.unicode_len();
    let mut i: usize = 0;
    while i < n
        invariant
            0 <= i <= n,
            n == s@.len(),
            forall|j: int| 0 <= j < i ==> s@[j] != c,
        decreases n - i,
    {
        if s.get_char(i) == c {
            proof {
                lemma_find_at_is(s@, c, i as int);
            }
            return i;
        }
        i += 1;
    }
    proof {
        lemma_find_at_is(s@, c, n as int);
    }
    n
}

/// Last index of `c` in `s`, or `None` if `c` is absent.
pub fn rfind_char(s: &str, c: char) -> (r: Option<usize>)
    ensures
        match r {
            Some(i) => i as int == rfind_at(s@, c) && i < s@.len(),
            None => rfind_at(s@, c) == -1,
        },
{
    let n = s.unicode_len();
    let mut i: usize = n;
    while i > 0
        invariant
            0 <= i <= n,
            n == s@.len(),
            forall|j: int| i <= j < n ==> s@[j] != c,
        decreases i,
    {
        i -= 1;
        if s.get_char(i) == c {
            proof {
                lemma_rfind_at_is(s@, c, i as int);
            }
            return Some(i);
        }
    }
    proof {
        lemma_rfind_at_is(s@, c, -1);
    }
    None
}

/// Character-for-character string equality.
pub fn str_eq(a: &str, b: &str) -> (r: bool)
    ensures
        r == (a@ == b@),
{
    let na = a.unicode_len();
    let nb = b.unicode_len();
    if na != nb {
        return false;
    }
    let mut i: usize = 0;
    while i < na
        invariant
            0 <= i <= na,
            na == a@.len(),
            nb == b@.len(),
            na == nb,
            forall|j: int| 0 <= j < i ==> a@[j] == b@[j],
        decreases na - i,
    {
        if a.get_char(i) != b.get_char(i) {
            return false;
        }
        i += 1;
    }
    proof {
        assert(a@ =~= b@);
    }
    true
}

/// An owned copy of the character range `from..to` of `s`.
pub fn substr_copy(s: &str, from: usize, to: usize) -> (r: String)
    requires
        from <= to <= s@.len(),
    ensures
        r@ == s@.subrange(from as int, to as int),
{
    String::from_str(s.substring_char(from, to))
}

/// Whether `c` is ASCII whitespace.
pub fn is_ws_char(c: char) -> (r: bool)
    ensures
        r == is_ws(c),
{
    c == ' ' || c == '\t' || c == '\n' || c == '\r'
}

/// An owned copy of `s` with whitespace removed at both ends.
pub fn trim_of(s: &str) -> (r: String)
    ensures
        r@ == trim_s(s@),
{
    let n = s.unicode_len();
    let mut lo: usize = 0;
    while lo < n && is_ws_char(s.get_char(lo))
        invariant
            0 <= lo <= n,
            n == s@.len(),
            forall|j: int| 0 <= j < lo ==> is_ws(s@[j]),
        decreases n - lo,
    {
        lo += 1;
    }
    let mut hi: usize = n;
    while hi > lo && is_ws_char(s.get_char(hi - 1))
        invariant
            lo <= hi <= n,
            n == s@.len(),
            forall|j: int| 0 <= j < lo ==> is_ws(s@[j]),
            forall|j: int| hi <= j < n ==> is_ws(s@[j]),
        decreases hi,
    {
        hi -= 1;
    }
    proof {
        lemma_ltrim_skip(s@, lo as int);
        let t = s@.skip(lo as int);
        assert forall|j: int| hi - lo <= j < t.len() implies is_ws(t[j]) by {
            assert(t[j] == s@[j + lo]);
        }
        if hi > lo {
            assert(t[hi - lo - 1] == s@[hi - 1]);
        }
        lemma_rtrim_take(t, hi - lo as int);
        assert(t.take(hi - lo as int) =~= s@.subrange(lo as int, hi as int));
    }
    substr_copy(s, lo, hi)
}

/// Whether some element of `v` has the same characters as `s`.
pub fn contains_string(v: &Vec<String>, s: &String) -> (r: bool)
    ensures
        r == exists|i: int| 0 <= i < v@.len() && (#[trigger] v@[i])@ == s@,
{
    let n = v.len();
    let mut i: usize = 0;
    while i < n
        invariant
            0 <= i <= n,
            n == v@.len(),
            forall|j: int| 0 <= j < i ==> (#[trigger] v@[j])@ != s@,
        decreases n - i,
    {
        if str_eq(v[i].as_str(), s.as_str()) {
            return true;
        }
        i += 1;
    }
    false
}

} // verus!
