//! Character-level utilities on strings: searching for characters and
//! substrings, prefix/suffix tests, and whitespace trimming.  Everything
//! here is specified over the `Seq<char>` view of a string.

use vstd::prelude::*;

verus! {

/// First index of `c` in `s` at or after `from`, or `s.len()` if `c`
/// does not occur there.
pub open spec fn spec_find_char(s: Seq<char>, c: char, from: int) -> int
    decreases s.len() - from
        when 0 <= from <= s.len()
{
    if from >= s.len() {
        s.len() as int
    } else if s[from] == c {
        from
    } else {
        spec_find_char(s, c, from + 1)
    }
}

pub proof fn lemma_find_char_props(s: Seq<char>, c: char, from: int)
    requires
        0 <= from <= s.len(),
    ensures
        from <= spec_find_char(s, c, from) <= s.len(),
        spec_find_char(s, c, from) < s.len() ==> s[spec_find_char(s, c, from)] == c,
        forall|j: int| from <= j < spec_find_char(s, c, from) ==> s[j] != c,
    decreases s.len() - from,
{
    if from < s.len() && s[from] != c {
        lemma_find_char_props(s, c, from + 1);
    }
}

/// Finds the first occurrence of `c` in `s` at or after `from`.
pub fn find_char(s: &str, c: char, from: usize) -> (r: usize)
    requires
        from <= s@.len(),
    ensures
        r == spec_find_char(s@, c, from as int),
        from <= r <= s@.len(),
        r < s@.len() ==> s@[r as int] == c,
        forall|j: int| from <= j < r ==> s@[j] != c,
{
    let n = s.unicode_len();
    let mut i = from;
    while i < n
        invariant
            from <= i <= n,
            n == s@.len(),
            spec_find_char(s@, c, from as int) == spec_find_char(s@, c, i as int),
        decreases n - i,
    {
        if s.get_char(i) == c {
            proof {
                lemma_find_char_props(s@, c, from as int);
            }
            return i;
        }
        i = i + 1;
    }
    proof {
        lemma_find_char_props(s@, c, from as int);
    }
    i
}

/// Compares two string slices character by character.
pub fn str_eq(a: &str, b: &str) -> (r: bool)
    ensures
        r == (a@ == b@),
{
    let na = a.unicode_len();
    let nb = b.unicode_len();
    if na != nb {
        assert(a@ =~= b@ ==> a@.len() == b@.len());
        return false;
    }
    let mut i: usize = 0;
    while i < na
        invariant
            0 <= i <= na,
            na == a@.len(),
            na == b@.len(),
            forall|j: int| 0 <= j < i ==> a@[j] == b@[j],
        decreases na - i,
    {
        if a.get_char(i) != b.get_char(i) {
            assert(a@ != b@);
            return false;
        }
        i = i + 1;
    }
    assert(a@ =~= b@);
    true
}

/// Whitespace as far as trimming and trailer values are concerned.
pub open spec fn is_space(c: char) -> bool {
    c == ' ' || c == '\t' || c == '\r' || c == '\n'
}

/// `pat` occurs in `s` starting exactly at index `i`.
pub open spec fn spec_contains_at(s: Seq<char>, pat: Seq<char>, i: int) -> bool {
    0 <= i && i + pat.len() <= s.len() && s.subrange(i, i + pat.len()) == pat
}

/// `pat` occurs somewhere in `s`.
pub open spec fn spec_contains(s: Seq<char>, pat: Seq<char>) -> bool {
    exists|i: int| spec_contains_at(s, pat, i)
}

/// `s` ends with `suffix`.
pub open spec fn spec_ends_with(s: Seq<char>, suffix: Seq<char>) -> bool {
    s.len() >= suffix.len() && s.subrange(s.len() - suffix.len(), s.len() as int) == suffix
}

/// Tests whether `pat` occurs in `s` starting exactly at `at`.
pub fn starts_with_at(s: &str, pat: &str, at: usize) -> (r: bool)
    ensures
        r == spec_contains_at(s@, pat@, at as int),
{
    let n = s.unicode_len();
    let m = pat.unicode_len();
    if m > n || at > n - m {
        assert(!spec_contains_at(s@, pat@, at as int));
        return false;
    }
    let mut k: usize = 0;
    while k < m
        invariant
            0 <= k <= m,
            n == s@.len(),
            m == pat@.len(),
            at + m <= n,
            forall|j: int| 0 <= j < k ==> s@[at + j] == pat@[j],
        decreases m - k,
    {
        if s.get_char(at + k) != pat.get_char(k) {
            assert(s@.subrange(at as int, at + m)[k as int] == s@[at + k]);
            assert(s@.subrange(at as int, at + m) != pat@);
            return false;
        }
        k = k + 1;
    }
    assert(s@.subrange(at as int, at + m) =~= pat@);
    true
}

/// First index at or after `from` where `pat` occurs in `s`, or
/// `s.len()` if it occurs nowhere there.
pub open spec fn spec_find_sub(s: Seq<char>, pat: Seq<char>, from: int) -> int
    decreases s.len() - from
        when 0 <= from <= s.len()
{
    if from >= s.len() {
        s.len() as int
    } else if spec_contains_at(s, pat, from) {
        from
    } else {
        spec_find_sub(s, pat, from + 1)
    }
}

pub proof fn lemma_find_sub_props(s: Seq<char>, pat: Seq<char>, from: int)
    requires
        0 <= from <= s.len(),
    ensures
        from <= spec_find_sub(s, pat, from) <= s.len(),
        spec_find_sub(s, pat, from) < s.len() ==> spec_contains_at(
            s,
            pat,
            spec_find_sub(s, pat, from),
        ),
        forall|j: int| from <= j < spec_find_sub(s, pat, from) ==> !spec_contains_at(s, pat, j),
    decreases s.len() - from,
{
    if from < s.len() && !spec_contains_at(s, pat, from) {
        lemma_find_sub_props(s, pat, from + 1);
    }
}

/// Finds the first occurrence of `pat` in `s`, if any.
pub fn find_sub(s: &str, pat: &str) -> (r: Option<usize>)
    ensures
        match r {
            Some(i) => spec_contains_at(s@, pat@, i as int) && i == spec_find_sub(s@, pat@, 0)
                && forall|j: int| 0 <= j < i ==> !spec_contains_at(s@, pat@, j),
            None => !spec_contains(s@, pat@),
        },
{
    let n = s.unicode_len();
    let m = pat.unicode_len();
    if m > n {
        assert(forall|i: int| !spec_contains_at(s@, pat@, i));
        return None;
    }
    if m == 0 {
        assert(s@.subrange(0, 0) =~= pat@);
        proof {
            lemma_find_sub_props(s@, pat@, 0);
        }
        return Some(0);
    }
    let mut i: usize = 0;
    while i <= n - m
        invariant
            0 <= i <= n - m + 1,
            1 <= m <= n,
            n == s@.len(),
            m == pat@.len(),
            forall|j: int| 0 <= j < i ==> !spec_contains_at(s@, pat@, j),
        decreases n - i,
    {
        if starts_with_at(s, pat, i) {
            proof {
                lemma_find_sub_props(s@, pat@, 0);
            }
            return Some(i);
        }
        i = i + 1;
    }
    assert(forall|j: int| j > n - m ==> !spec_contains_at(s@, pat@, j));
    None
}

/// Tests whether `pat` occurs anywhere in `s`.
pub fn contains_sub(s: &str, pat: &str) -> (r: bool)
    ensures
        r == spec_contains(s@, pat@),
{
    match find_sub(s, pat) {
        Some(_) => true,
        None => false,
    }
}

/// Tests whether `s` ends with `suffix`.
pub fn ends_with(s: &str, suffix: &str) -> (r: bool)
    ensures
        r == spec_ends_with(s@, suffix@),
{
    let n = s.unicode_len();
    let m = suffix.unicode_len();
    if m > n {
        return false;
    }
    starts_with_at(s, suffix, n - m)
}

/// First index at or after `from` holding a non-whitespace character,
/// or `s.len()` if there is none.
pub open spec fn spec_skip_spaces(s: Seq<char>, from: int) -> int
    decreases s.len() - from
        when 0 <= from <= s.len()
{
    if from >= s.len() {
        s.len() as int
    } else if is_space(s[from]) {
        spec_skip_spaces(s, from + 1)
    } else {
        from
    }
}

/// Exclusive end of `s` once trailing whitespace before `to` is dropped.
pub open spec fn spec_trim_end(s: Seq<char>, to: int) -> int
    decreases to
        when 0 <= to <= s.len()
{
    if to <= 0 {
        0
    } else if is_space(s[to - 1]) {
        spec_trim_end(s, to - 1)
    } else {
        to
    }
}

/// `s` with leading and trailing whitespace removed.
pub open spec fn spec_trim(s: Seq<char>) -> Seq<char> {
    let a = spec_skip_spaces(s, 0);
    let b = spec_trim_end(s, s.len() as int);
    if a < b {
        s.subrange(a, b)
    } else {
        Seq::empty()
    }
}

proof fn lemma_skip_spaces_props(s: Seq<char>, from: int)
    requires
        0 <= from <= s.len(),
    ensures
        from <= spec_skip_spaces(s, from) <= s.len(),
        spec_skip_spaces(s, from) < s.len() ==> !is_space(s[spec_skip_spaces(s, from)]),
    decreases s.len() - from,
{
    if from < s.len() && is_space(s[from]) {
        lemma_skip_spaces_props(s, from + 1);
    }
}

proof fn lemma_trim_end_props(s: Seq<char>, to: int)
    requires
        0 <= to <= s.len(),
    ensures
        0 <= spec_trim_end(s, to) <= to,
        spec_trim_end(s, to) > 0 ==> !is_space(s[spec_trim_end(s, to) - 1]),
    decreases to,
{
    if to > 0 && is_space(s[to - 1]) {
        lemma_trim_end_props(s, to - 1);
    }
}

/// Tests a single character for whitespace.
pub fn is_space_char(c: char) -> (r: bool)
    ensures
        r == is_space(c),
{
    c == ' ' || c == '\t' || c == '\r' || c == '\n'
}

/// `s` with leading and trailing whitespace removed.
pub fn trimmed<'a>(s: &'a str) -> (r: &'a str)
    ensures
        r@ == spec_trim(s@),
{
    let n = s.unicode_len();
    let mut a: usize = 0;
    while a < n && is_space_char(s.get_char(a))
        invariant
            0 <= a <= n,
            n == s@.len(),
            spec_skip_spaces(s@, 0) == spec_skip_spaces(s@, a as int),
        decreases n - a,
    {
        a = a + 1;
    }
    assert(spec_skip_spaces(s@, a as int) == a);
    let mut b: usize = n;
    while b > 0 && is_space_char(s.get_char(b - 1))
        invariant
            0 <= b <= n,
            n == s@.len(),
            spec_trim_end(s@, n as int) == spec_trim_end(s@, b as int),
        decreases b,
    {
        b = b - 1;
    }
    assert(spec_trim_end(s@, b as int) == b);
    if a < b {
        s.substring_char(a, b)
    } else {
        let r = s.substring_char(0, 0);
        assert(r@ =~= spec_trim(s@));
        r
    }
}

} // verus!
