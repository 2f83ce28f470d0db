//! Character-level string helpers shared by the rest of the library.
use vstd::prelude::*;
use vstd::std_specs::iter::IteratorSpec;

verus! {

/// Does `s` start with the character `c`?
pub open spec fn starts_with_char(s: Seq<char>, c: char) -> bool {
    s.len() > 0 && s[0] == c
}

/// Does `s` end with the character `c`?
pub open spec fn ends_with_char(s: Seq<char>, c: char) -> bool {
    s.len() > 0 && s[s.len() - 1] == c
}

/// Appends one character (`String::push`).
#[verifier::external_body]
pub fn push_char(s: &mut String, c: char)
    ensures
        final(s)@ == old(s)@.push(c),
{
    s.push(c);
}

/// First character of `s`, if any.
pub fn first_char(s: &str) -> (r: Option<char>)
    ensures
        r == (if s@.len() > 0 { Some(s@[0]) } else { None::<char> }),
{
    if s.is_empty() {
        None
    } else {
        Some(s.get_char(0))
    }
}

/// The characters of `s`, in order.
pub fn chars_of(s: &str) -> (v: Vec<char>)
    ensures
        v@ == s@,
{
    broadcast use vstd::string::group_string_axioms;
    let mut v: Vec<char> = Vec::new();
    let mut it = s.chars();
    loop
        invariant
            v@ + it.remaining() == s@,
            it.decrease() is Some,
        decreases it.decrease()->0,
    {
        match it.next() {
            Some(c) => {
                v.push(c);
            },
            None => {
                assert(v@ =~= s@);
                return v;
            },
        }
    }
}

/// A `String` holding exactly the characters of `v`.
pub fn string_of(v: &[char]) -> (s: String)
    ensures
        s@ == v@,
{
    let mut s = String::new();
    let mut i: usize = 0;
    while i < v.len()
        invariant
            i <= v@.len(),
            s@ == v@.take(i as int),
        decreases v@.len() - i,
    {
        push_char(&mut s, v[i]);
        i = i + 1;
        assert(v@.take(i as int) =~= v@.take((i - 1) as int).push(v@[i - 1]));
    }
    assert(v@.take(v@.len() as int) =~= v@);
    s
}

/// Element-wise equality of two character slices.
pub fn chars_eq(a: &[char], b: &[char]) -> (r: bool)
    ensures
        r == (a@ == b@),
{
    if a.len() != b.len() {
        return false;
    }
    let mut i: usize = 0;
    while i < a.len()
        invariant
            a@.len() == b@.len(),
            i <= a@.len(),
            forall|j: int| 0 <= j < i ==> a@[j] == b@[j],
        decreases a@.len() - i,
    {
        if a[i] != b[i] {
            return false;
        }
        i = i + 1;
    }
    assert(a@ =~= b@);
    true
}

/// Is `a` exactly the text `lit`?
pub fn chars_eq_str(a: &[char], lit: &str) -> (r: bool)
    ensures
        r == (a@ == lit@),
{
    let l = chars_of(lit);
    chars_eq(a, l.as_slice())
}

/// Exact equality of two string slices.
pub fn str_eq(a: &str, b: &str) -> (r: bool)
    ensures
        r == (a@ == b@),
{
    let sa = String::from_str(a);
    let sb = String::from_str(b);
    sa == sb
}

/// `s` with every leading `c` removed (`trim_start_matches(c)`).
pub open spec fn trim_start_char(s: Seq<char>, c: char) -> Seq<char>
    decreases s.len(),
{
    if s.len() > 0 && s[0] == c {
        trim_start_char(s.drop_first(), c)
    } else {
        s
    }
}

/// `s` with every trailing `c` removed (`trim_end_matches(c)`).
pub open spec fn trim_end_char(s: Seq<char>, c: char) -> Seq<char>
    decreases s.len(),
{
    if s.len() > 0 && s[s.len() - 1] == c {
        trim_end_char(s.drop_last(), c)
    } else {
        s
    }
}

/// Number of leading characters equal to `c`.
pub fn count_leading(v: &[char], c: char) -> (n: usize)
    ensures
        n <= v@.len(),
        trim_start_char(v@, c) == v@.skip(n as int),
{
    let mut i: usize = 0;
    assert(v@.skip(0) =~= v@);
    while i < v.len() && v[i] == c
        invariant
            i <= v@.len(),
            trim_start_char(v@, c) == trim_start_char(v@.skip(i as int), c),
        decreases v@.len() - i,
    {
        assert(v@.skip(i as int).drop_first() =~= v@.skip(i + 1));
        i = i + 1;
    }
    proof { n_skip_stop(v@, c, i as int); }
    i
}

proof fn n_skip_stop(s: Seq<char>, c: char, i: int)
    requires
        0 <= i <= s.len(),
        i == s.len() || s[i] != c,
    ensures
        trim_start_char(s.skip(i), c) == s.skip(i),
{
}

/// Length of `v` once every trailing `c` is removed.
pub fn len_without_trailing(v: &[char], c: char) -> (n: usize)
    ensures
        n <= v@.len(),
        trim_end_char(v@, c) == v@.take(n as int),
{
    let mut i: usize = v.len();
    assert(v@.take(v@.len() as int) =~= v@);
    while i > 0 && v[i - 1] == c
        invariant
            i <= v@.len(),
            trim_end_char(v@, c) == trim_end_char(v@.take(i as int), c),
        decreases i,
    {
        assert(v@.take(i as int).drop_last() =~= v@.take(i - 1));
        i = i - 1;
    }
    i
}

/// Does `pat` occur in `s` at position `i`?
pub open spec fn matches_at(s: Seq<char>, pat: Seq<char>, i: int) -> bool {
    0 <= i && i + pat.len() <= s.len() && s.subrange(i, i + pat.len()) == pat
}

/// First position at or after `start` where `pat` occurs in `s`.
pub open spec fn find_from(s: Seq<char>, pat: Seq<char>, start: int) -> Option<int>
    decreases s.len() + 1 - start,
{
    if start < 0 || start + pat.len() > s.len() {
        None
    } else if matches_at(s, pat, start) {
        Some(start)
    } else {
        find_from(s, pat, start + 1)
    }
}

/// A found occurrence is at or after `start`, inside `s`, and matches.
pub proof fn lemma_find_from_bounds(s: Seq<char>, pat: Seq<char>, start: int)
    ensures
        find_from(s, pat, start) matches Some(p) ==> start <= p && p + pat.len() <= s.len() && matches_at(s, pat, p),
    decreases s.len() + 1 - start,
{
    if !(start < 0 || start + pat.len() > s.len()) && !matches_at(s, pat, start) {
        lemma_find_from_bounds(s, pat, start + 1);
    }
}

/// Does `pat` occur anywhere in `s`?
pub open spec fn contains_seq(s: Seq<char>, pat: Seq<char>) -> bool {
    find_from(s, pat, 0) is Some
}

/// Does `pat` occur at position `i` of `v`?
pub fn matches_at_exec(v: &[char], pat: &[char], i: usize) -> (r: bool)
    ensures
        r == matches_at(v@, pat@, i as int),
{
    if i > v.len() || pat.len() > v.len() - i {
        return false;
    }
    let mut j: usize = 0;
    while j < pat.len()
        invariant
            i + pat@.len() <= v@.len(),
            j <= pat@.len(),
            forall|k: int| 0 <= k < j ==> v@[i + k] == pat@[k],
        decreases pat@.len() - j,
    {
        assert(i + j < v.len());
        if v[i + j] != pat[j] {
            assert(v@.subrange(i as int, i + pat@.len())[j as int] != pat@[j as int]);
            return false;
        }
        j = j + 1;
    }
    assert(v@.subrange(i as int, i + pat@.len()) =~= pat@);
    true
}

/// First occurrence of `pat` in `v` at or after `start`.
pub fn find_exec(v: &[char], pat: &[char], start: usize) -> (r: Option<usize>)
    ensures
        match r {
            Some(i) => find_from(v@, pat@, start as int) == Some(i as int),
            None => find_from(v@, pat@, start as int) is None,
        },
{
    if start > v.len() || pat.len() > v.len() - start {
        return None;
    }
    if pat.len() == 0 {
        assert(v@.subrange(start as int, start as int) =~= pat@);
        return Some(start);
    }
    let mut i: usize = start;
    while pat.len() <= v.len() - i
        invariant
            start <= i <= v@.len(),
            pat@.len() > 0,
            find_from(v@, pat@, start as int) == find_from(v@, pat@, i as int),
        decreases v@.len() - i,
    {
        if matches_at_exec(v, pat, i) {
            return Some(i);
        }
        i = i + 1;
    }
    None
}

/// Does `lit` occur anywhere in `v`?
pub fn contains_str(v: &[char], lit: &str) -> (r: bool)
    ensures
        r == contains_seq(v@, lit@),
{
    let p = chars_of(lit);
    find_exec(v, p.as_slice(), 0).is_some()
}

/// Copy of `v[from..to]`.
pub fn slice_to_vec(v: &[char], from: usize, to: usize) -> (r: Vec<char>)
    requires
        from <= to <= v@.len(),
    ensures
        r@ == v@.subrange(from as int, to as int),
{
    let mut r: Vec<char> = Vec::new();
    let mut i: usize = from;
    while i < to
        invariant
            from <= i <= to,
            to <= v@.len(),
            r@ == v@.subrange(from as int, i as int),
        decreases to - i,
    {
        r.push(v[i]);
        i = i + 1;
        assert(r@ =~= v@.subrange(from as int, i as int));
    }
    r
}

} // verus!
