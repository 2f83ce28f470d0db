//! Rename: every occurrence of a symbol replaced by a new name in the source.
use vstd::prelude::*;
use crate::analysis::{
    char_width, char_width_exec, is_valid_ident, lemma_utf8_len_encode, lemma_utf8_len_take, lemma_utf8_len_take_le,
    offset_at_position,
    spec_offset_at_position, spec_valid_ident, utf8_len, DocumentAnalysis, Symbol,
};
use crate::span::{Position, Span};
use crate::text::{chars_of, slice_to_vec, string_of};

verus! {

/// The byte offset of a 1-based span position in `s` (the 0-based position
/// one line and one column earlier).
pub open spec fn pos_offset(s: Seq<char>, p: Position) -> Option<nat> {
    spec_offset_at_position(s, (p.line - 1) as u32, (p.column - 1) as u32)
}

/// The byte range a span covers in `s`, when both ends are positions of `s`.
pub open spec fn span_edit(s: Seq<char>, sp: Span) -> Option<(nat, nat)> {
    match (pos_offset(s, sp.start), pos_offset(s, sp.end)) {
        (Some(a), Some(b)) => Some((a, b)),
        _ => None,
    }
}

/// The byte ranges of `spans` in `s`, skipping spans outside it.
pub open spec fn rename_edits(s: Seq<char>, spans: Seq<Span>) -> Seq<(nat, nat)> {
    spans.filter_map(|sp: Span| span_edit(s, sp))
}

/// `x` inserted after the last range of `s` that starts no earlier.
pub open spec fn insert_desc(s: Seq<(nat, nat)>, x: (nat, nat)) -> Seq<(nat, nat)>
    decreases s.len(),
{
    if s.len() == 0 {
        seq![x]
    } else if s.last().0 >= x.0 {
        s.push(x)
    } else {
        insert_desc(s.drop_last(), x).push(s.last())
    }
}

/// Ranges ordered by start, last first, equal starts in their order (a
/// stable sort).
pub open spec fn sort_desc(s: Seq<(nat, nat)>) -> Seq<(nat, nat)>
    decreases s.len(),
{
    if s.len() == 0 {
        seq![]
    } else {
        insert_desc(sort_desc(s.drop_last()), s.last())
    }
}

/// The character index at which byte offset `b` falls between characters of
/// `s` (searching from index `k`).
pub open spec fn boundary_from(s: Seq<char>, b: nat, k: nat) -> Option<nat>
    decreases s.len() + 1 - k,
{
    if k > s.len() {
        None
    } else if utf8_len(s.take(k as int)) == b {
        Some(k)
    } else if utf8_len(s.take(k as int)) > b {
        None
    } else {
        boundary_from(s, b, k + 1)
    }
}

/// The character index at byte offset `b` of `s`, when `b` is a character boundary.
pub open spec fn byte_boundary(s: Seq<char>, b: nat) -> Option<nat> {
    boundary_from(s, b, 0)
}

/// The byte range `e` applies to `s`: it is inside `s` and not empty.
pub open spec fn edit_applies(s: Seq<char>, e: (nat, nat)) -> bool {
    e.0 <= utf8_len(s) && e.1 <= utf8_len(s) && e.0 < e.1
}

/// Replacing the byte range `e` of `s` by `new` when it applies (both ends on
/// character boundaries); `s` when it does not apply.
pub open spec fn apply_edit(s: Seq<char>, e: (nat, nat), new: Seq<char>) -> Seq<char> {
    if edit_applies(s, e) {
        match (byte_boundary(s, e.0), byte_boundary(s, e.1)) {
            (Some(i), Some(j)) => s.take(i as int) + new + s.skip(j as int),
            _ => s,
        }
    } else {
        s
    }
}

/// `es` applied to `s` in order.
pub open spec fn apply_edits(s: Seq<char>, es: Seq<(nat, nat)>, new: Seq<char>) -> Seq<char>
    decreases es.len(),
{
    if es.len() == 0 {
        s
    } else {
        apply_edits(apply_edit(s, es[0], new), es.drop_first(), new)
    }
}

/// Each range of `es` that applies, applied in order, has both ends on
/// character boundaries (a replacement with an end inside a character panics).
pub open spec fn edits_on_boundaries(s: Seq<char>, es: Seq<(nat, nat)>, new: Seq<char>) -> bool
    decreases es.len(),
{
    es.len() == 0 || ((edit_applies(s, es[0]) ==> byte_boundary(s, es[0].0) is Some && byte_boundary(s, es[0].1) is Some)
        && edits_on_boundaries(apply_edit(s, es[0], new), es.drop_first(), new))
}

/// Every span starts and ends at a line and column of at least 1.
pub open spec fn spans_positioned(spans: Seq<Span>) -> bool {
    forall|i: int| 0 <= i < spans.len() ==> {
        let sp = #[trigger] spans[i];
        sp.start.line >= 1 && sp.start.column >= 1 && sp.end.line >= 1 && sp.end.column >= 1
    }
}

/// Renaming `symbol` to `new_name` in `source` (whose analysis is `a`): when
/// `new_name` is a valid identifier and the symbol has occurrences, each
/// occurrence's byte range, last first, replaced by `new_name`; otherwise
/// `source` unchanged.
pub open spec fn spec_apply_rename(source: Seq<char>, a: &DocumentAnalysis, symbol: &Symbol, new_name: Seq<char>) -> Seq<char> {
    let ranges = a.spec_rename_ranges(symbol);
    if new_name.len() == 0 || !spec_valid_ident(new_name) || ranges.len() == 0 {
        source
    } else {
        apply_edits(source, sort_desc(rename_edits(source, ranges)), new_name)
    }
}

/// The renaming can be carried out: the occurrences have positions, and no
/// replacement would split a character.
pub open spec fn rename_applies(source: Seq<char>, a: &DocumentAnalysis, symbol: &Symbol, new_name: Seq<char>) -> bool {
    let ranges = a.spec_rename_ranges(symbol);
    new_name.len() == 0 || !spec_valid_ident(new_name) || ranges.len() == 0 || (spans_positioned(ranges)
        && edits_on_boundaries(source, sort_desc(rename_edits(source, ranges)), new_name))
}

/// The ranges as mathematical pairs.
pub open spec fn nat_pairs(v: Seq<(usize, usize)>) -> Seq<(nat, nat)> {
    v.map_values(|p: (usize, usize)| (p.0 as nat, p.1 as nat))
}

/// Number of UTF-8 bytes of `v`.
fn byte_len(v: &Vec<char>) -> (r: usize)
    ensures
        r == utf8_len(v@),
{
    let st = string_of(v.as_slice());
    proof {
        lemma_utf8_len_encode(v@);
    }
    st.as_str().as_bytes().len()
}

/// The character index at byte offset `b` of `v` (see [`byte_boundary`]).
fn find_boundary(v: &Vec<char>, b: usize, total: usize) -> (r: Option<usize>)
    requires
        total == utf8_len(v@),
    ensures
        match r {
            Some(k) => byte_boundary(v@, b as nat) == Some(k as nat),
            None => byte_boundary(v@, b as nat) is None,
        },
{
    let ghost s = v@;
    let mut k: usize = 0;
    let mut i: usize = 0;
    assert(s.take(0) =~= Seq::<char>::empty());
    while k < v.len()
        invariant
            s == v@,
            total == utf8_len(s),
            k <= s.len(),
            i == utf8_len(s.take(k as int)),
            i <= total,
            byte_boundary(s, b as nat) == boundary_from(s, b as nat, k as nat),
        decreases s.len() - k,
    {
        if i == b {
            return Some(k);
        }
        if i > b {
            return None;
        }
        proof {
            lemma_utf8_len_take(s, k as int);
            lemma_utf8_len_take_le(s, k as int + 1);
        }
        i = i + char_width_exec(v[k]);
        k = k + 1;
    }
    proof {
        assert(s.take(k as int) =~= s);
    }
    if i == b {
        Some(k)
    } else {
        assert(boundary_from(s, b as nat, (k + 1) as nat) is None);
        None
    }
}

/// [`apply_edit`] on a character vector.
fn apply_one(out: Vec<char>, e: (usize, usize), new: &Vec<char>) -> (r: Vec<char>)
    requires
        edit_applies(out@, (e.0 as nat, e.1 as nat)) ==> byte_boundary(out@, e.0 as nat) is Some && byte_boundary(
            out@,
            e.1 as nat,
        ) is Some,
    ensures
        r@ == apply_edit(out@, (e.0 as nat, e.1 as nat), new@),
{
    let total = byte_len(&out);
    if e.0 <= total && e.1 <= total && e.0 < e.1 {
        let i = find_boundary(&out, e.0, total);
        let j = find_boundary(&out, e.1, total);
        match (i, j) {
            (Some(i), Some(j)) => {
                proof {
                    lemma_boundary_le(out@, e.0 as nat, 0);
                    lemma_boundary_le(out@, e.1 as nat, 0);
                }
                let mut r = slice_to_vec(out.as_slice(), 0, i);
                let mut k: usize = 0;
                while k < new.len()
                    invariant
                        i <= out@.len(),
                        r@ == out@.take(i as int) + new@.take(k as int),
                        k <= new@.len(),
                    decreases new@.len() - k,
                {
                    r.push(new[k]);
                    proof {
                        assert(new@.take(k + 1) =~= new@.take(k as int).push(new@[k as int]));
                        assert(r@ =~= out@.take(i as int) + new@.take(k + 1));
                    }
                    k = k + 1;
                }
                let tail = slice_to_vec(out.as_slice(), j, out.len());
                let mut m: usize = 0;
                let ghost head = r@;
                while m < tail.len()
                    invariant
                        r@ == head + tail@.take(m as int),
                        m <= tail@.len(),
                    decreases tail@.len() - m,
                {
                    r.push(tail[m]);
                    proof {
                        assert(tail@.take(m + 1) =~= tail@.take(m as int).push(tail@[m as int]));
                    }
                    m = m + 1;
                }
                proof {
                    assert(new@.take(new@.len() as int) =~= new@);
                    assert(tail@.take(tail@.len() as int) =~= tail@);
                    assert(tail@ =~= out@.skip(j as int));
                    assert(r@ =~= out@.take(i as int) + new@ + out@.skip(j as int));
                }
                r
            },
            _ => out,
        }
    } else {
        out
    }
}

proof fn lemma_boundary_le(s: Seq<char>, b: nat, k: nat)
    ensures
        boundary_from(s, b, k) matches Some(x) ==> x <= s.len(),
    decreases s.len() + 1 - k,
{
    if k <= s.len() && utf8_len(s.take(k as int)) < b {
        lemma_boundary_le(s, b, k + 1);
    }
}

proof fn lemma_insert_desc_split(s: Seq<(nat, nat)>, x: (nat, nat), j: int)
    requires
        0 <= j <= s.len(),
        forall|k: int| j <= k < s.len() ==> (#[trigger] s[k]).0 < x.0,
    ensures
        insert_desc(s, x) == insert_desc(s.take(j), x) + s.skip(j),
    decreases s.len() - j,
{
    if j < s.len() {
        lemma_insert_desc_split(s.drop_last(), x, j);
        assert(s.drop_last().take(j) =~= s.take(j));
        assert(insert_desc(s.take(j), x) + s.skip(j) =~= (insert_desc(s.take(j), x) + s.drop_last().skip(j)).push(s.last()));
    } else {
        assert(s.take(j) =~= s);
        assert(s.skip(j) =~= Seq::<(nat, nat)>::empty());
    }
}

/// The ranges ordered by start, last first (see [`sort_desc`]).
fn sort_edits(v: &Vec<(usize, usize)>) -> (r: Vec<(usize, usize)>)
    ensures
        nat_pairs(r@) == sort_desc(nat_pairs(v@)),
{
    let ghost es = nat_pairs(v@);
    let mut sorted: Vec<(usize, usize)> = Vec::new();
    let mut i: usize = 0;
    while i < v.len()
        invariant
            es == nat_pairs(v@),
            i <= v@.len(),
            nat_pairs(sorted@) == sort_desc(es.take(i as int)),
        decreases v@.len() - i,
    {
        let x = v[i];
        let ghost w = nat_pairs(sorted@);
        let ghost xn = (x.0 as nat, x.1 as nat);
        let mut j: usize = sorted.len();
        while j > 0 && sorted[j - 1].0 < x.0
            invariant
                w == nat_pairs(sorted@),
                xn == (x.0 as nat, x.1 as nat),
                j <= sorted@.len(),
                forall|k: int| j <= k < w.len() ==> (#[trigger] w[k]).0 < xn.0,
            decreases j,
        {
            assert(w[j - 1] == (sorted@[j - 1].0 as nat, sorted@[j - 1].1 as nat));
            j = j - 1;
        }
        proof {
            if j > 0 {
                assert(w[j - 1] == (sorted@[j - 1].0 as nat, sorted@[j - 1].1 as nat));
            }
            lemma_insert_desc_split(w, xn, j as int);
            if j > 0 {
                assert(w.take(j as int).last() == w[j - 1]);
                assert(insert_desc(w.take(j as int), xn) =~= w.take(j as int).push(xn));
            } else {
                assert(insert_desc(w.take(0), xn) =~= seq![xn]);
            }
            assert(es.take(i + 1).drop_last() =~= es.take(i as int));
            assert(es.take(i + 1).last() == xn);
        }
        sorted.insert(j, x);
        proof {
            assert(nat_pairs(sorted@) =~= w.take(j as int).push(xn) + w.skip(j as int));
        }
        i = i + 1;
    }
    proof {
        assert(es.take(es.len() as int) =~= es);
    }
    sorted
}

/// The byte range of a span in `source` (see [`span_edit`]).
fn edit_of_span(source: &str, sp: &Span) -> (r: Option<(usize, usize)>)
    requires
        sp.start.line >= 1 && sp.start.column >= 1 && sp.end.line >= 1 && sp.end.column >= 1,
    ensures
        match r {
            Some(p) => span_edit(source@, *sp) == Some((p.0 as nat, p.1 as nat)),
            None => span_edit(source@, *sp) is None,
        },
{
    let a = offset_at_position(source, (sp.start.line - 1) as u32, (sp.start.column - 1) as u32);
    let b = offset_at_position(source, (sp.end.line - 1) as u32, (sp.end.column - 1) as u32);
    match (a, b) {
        (Some(a), Some(b)) => Some((a, b)),
        _ => None,
    }
}

/// `source` with every occurrence of `symbol` (as `analysis` finds them)
/// replaced by `new_name` (see [`spec_apply_rename`]); unchanged when
/// `new_name` is not a valid identifier or the symbol has no occurrences.
pub fn apply_rename(source: &str, analysis: &DocumentAnalysis, symbol: &Symbol, new_name: &str) -> (r: String)
    requires
        rename_applies(source@, analysis, symbol, new_name@),
    ensures
        r@ == spec_apply_rename(source@, analysis, symbol, new_name@),
{
    let new_chars = chars_of(new_name);
    if new_chars.len() == 0 || !is_valid_ident(new_name) {
        return String::from_str(source);
    }
    let ranges = analysis.rename_ranges(symbol);
    if ranges.len() == 0 {
        return String::from_str(source);
    }
    let ghost f = |sp: Span| span_edit(source@, sp);
    let mut edits: Vec<(usize, usize)> = Vec::new();
    let mut i: usize = 0;
    while i < ranges.len()
        invariant
            spans_positioned(ranges@),
            i <= ranges@.len(),
            nat_pairs(edits@) == ranges@.take(i as int).filter_map(f),
            f == (|sp: Span| span_edit(source@, sp)),
        decreases ranges@.len() - i,
    {
        proof {
            ranges@.lemma_filter_map_take_succ(f, i as int);
            let sp = ranges@[i as int];
            assert(sp.start.line >= 1 && sp.start.column >= 1 && sp.end.line >= 1 && sp.end.column >= 1);
        }
        let ghost before = nat_pairs(edits@);
        match edit_of_span(source, &ranges[i]) {
            Some(p) => {
                edits.push(p);
                proof {
                    assert(nat_pairs(edits@) =~= before.push((p.0 as nat, p.1 as nat)));
                }
            },
            None => {},
        }
        proof {
            assert(nat_pairs(edits@) =~= ranges@.take(i + 1).filter_map(f));
        }
        i = i + 1;
    }
    proof {
        assert(ranges@.take(ranges@.len() as int) =~= ranges@);
    }
    let sorted = sort_edits(&edits);
    let mut out = chars_of(source);
    let ghost es = nat_pairs(sorted@);
    let mut k: usize = 0;
    proof {
        assert(es.skip(0) =~= es);
    }
    while k < sorted.len()
        invariant
            es == nat_pairs(sorted@),
            es == sort_desc(rename_edits(source@, ranges@)),
            new_chars@ == new_name@,
            k <= sorted@.len(),
            apply_edits(source@, es, new_name@) == apply_edits(out@, es.skip(k as int), new_name@),
            edits_on_boundaries(out@, es.skip(k as int), new_name@),
        decreases sorted@.len() - k,
    {
        let ghost rest = es.skip(k as int);
        assert(rest[0] == (sorted@[k as int].0 as nat, sorted@[k as int].1 as nat));
        assert(rest.drop_first() =~= es.skip(k + 1));
        out = apply_one(out, sorted[k], &new_chars);
        k = k + 1;
    }
    proof {
        assert(es.skip(k as int) =~= Seq::<(nat, nat)>::empty());
    }
    string_of(out.as_slice())
}

/// Ranges in descending order of start.
pub open spec fn starts_descending(s: Seq<(nat, nat)>) -> bool {
    forall|i: int, j: int| 0 <= i < j < s.len() ==> (#[trigger] s[i]).0 >= (#[trigger] s[j]).0
}

proof fn lemma_insert_desc_keeps(s: Seq<(nat, nat)>, x: (nat, nat))
    requires
        starts_descending(s),
    ensures
        starts_descending(insert_desc(s, x)),
        insert_desc(s, x).len() == s.len() + 1,
        insert_desc(s, x).to_multiset() == s.to_multiset().insert(x),
    decreases s.len(),
{
    broadcast use vstd::seq_lib::group_to_multiset_ensures;
    if s.len() > 0 && s.last().0 < x.0 {
        let p = s.drop_last();
        assert(starts_descending(p));
        lemma_insert_desc_keeps(p, x);
        let q = insert_desc(p, x);
        assert(s =~= p.push(s.last()));
        assert forall|i: int, j: int| 0 <= i < j < q.len() + 1 implies (#[trigger] q.push(s.last())[i]).0 >= (
        #[trigger] q.push(s.last())[j]).0 by {
            if j == q.len() {
                assert(q.contains(q[i]));
                assert(q.to_multiset().count(q[i]) > 0);
                if q[i] == x {
                } else {
                    assert(p.to_multiset().count(q[i]) > 0);
                    assert(p.contains(q[i]));
                    let k = choose|k: int| 0 <= k < p.len() && p[k] == q[i];
                    assert(s[k] == p[k]);
                }
            }
        }
    }
}

/// The ranges are applied from the last start to the first: sorting keeps
/// every range and orders them by descending start.
pub proof fn lemma_edits_last_first(s: Seq<(nat, nat)>)
    ensures
        starts_descending(sort_desc(s)),
        sort_desc(s).to_multiset() == s.to_multiset(),
    decreases s.len(),
{
    broadcast use vstd::seq_lib::group_to_multiset_ensures;
    if s.len() > 0 {
        lemma_edits_last_first(s.drop_last());
        lemma_insert_desc_keeps(sort_desc(s.drop_last()), s.last());
        assert(s =~= s.drop_last().push(s.last()));
    }
}

} // verus!
