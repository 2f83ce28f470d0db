//! Code-generation bookkeeping and LLVM IR text post-processing.
use vstd::prelude::*;
use crate::analysis::{nth_line, starts_with, starts_with_exec};
use crate::ast::Program;
use crate::inspect::{join, join_exec};
use crate::names::{texts, NameSet};
use crate::num::{decimal_of, decimal_string};
use crate::text::{chars_eq, chars_of, contains_seq, ends_with_char, find_exec, find_from, slice_to_vec, string_of, str_eq};

verus! {

/// Per-function state of code generation: moved bindings and counters for
/// the names of spawned tasks, parallel regions and closures.
pub struct DropState {
    pub func: String,
    pub moved: NameSet,
    pub spawn_id: usize,
    pub par_id: usize,
    pub closure_id: usize,
}

impl DropState {
    pub fn new(func: &str) -> (r: DropState)
        ensures
            r.func@ == func@,
            r.moved.wf(),
            r.moved@ == Set::<Seq<char>>::empty(),
            r.spawn_id == 0,
            r.par_id == 0,
            r.closure_id == 0,
    {
        DropState { func: String::from_str(func), moved: NameSet::new(), spawn_id: 0, par_id: 0, closure_id: 0 }
    }

    pub fn mark_moved(&mut self, name: &str)
        requires
            old(self).moved.wf(),
        ensures
            final(self).moved.wf(),
            final(self).moved@ == old(self).moved@.insert(name@),
            final(self).func == old(self).func,
            final(self).spawn_id == old(self).spawn_id,
            final(self).par_id == old(self).par_id,
            final(self).closure_id == old(self).closure_id,
    {
        self.moved.insert(name);
    }

    /// `<func>__spawn_<n>` for the next spawned task.
    pub fn next_spawn_key(&mut self) -> (r: String)
        requires
            old(self).spawn_id < usize::MAX,
        ensures
            r@ == old(self).func@ + "__spawn_"@ + decimal_string(old(self).spawn_id as nat),
            final(self).spawn_id == old(self).spawn_id + 1,
            final(self).func == old(self).func,
            final(self).moved == old(self).moved,
            final(self).par_id == old(self).par_id,
            final(self).closure_id == old(self).closure_id,
    {
        let key = self.func.clone().concat("__spawn_").concat(decimal_of(self.spawn_id as u64).as_str());
        self.spawn_id = self.spawn_id + 1;
        key
    }

    /// Index of the next parallel region.
    pub fn next_par_idx(&mut self) -> (r: usize)
        requires
            old(self).par_id < usize::MAX,
        ensures
            r == old(self).par_id,
            final(self).par_id == old(self).par_id + 1,
            final(self).func == old(self).func,
            final(self).moved == old(self).moved,
            final(self).spawn_id == old(self).spawn_id,
            final(self).closure_id == old(self).closure_id,
    {
        let id = self.par_id;
        self.par_id = self.par_id + 1;
        id
    }

    /// Index of the next closure.
    pub fn next_closure_idx(&mut self) -> (r: usize)
        requires
            old(self).closure_id < usize::MAX,
        ensures
            r == old(self).closure_id,
            final(self).closure_id == old(self).closure_id + 1,
            final(self).func == old(self).func,
            final(self).moved == old(self).moved,
            final(self).spawn_id == old(self).spawn_id,
            final(self).par_id == old(self).par_id,
    {
        let id = self.closure_id;
        self.closure_id = self.closure_id + 1;
        id
    }
}

/// Unicode `White_Space` (`char::is_whitespace`).
pub open spec fn is_white(c: char) -> bool {
    let u = c as u32;
    (0x9 <= u <= 0xD) || u == 0x20 || u == 0x85 || u == 0xA0 || u == 0x1680 || (0x2000 <= u <= 0x200A)
        || u == 0x2028 || u == 0x2029 || u == 0x202F || u == 0x205F || u == 0x3000
}

fn is_white_exec(c: char) -> (r: bool)
    ensures
        r == is_white(c),
{
    let u = c as u32;
    (0x9 <= u && u <= 0xD) || u == 0x20 || u == 0x85 || u == 0xA0 || u == 0x1680 || (0x2000 <= u && u
        <= 0x200A) || u == 0x2028 || u == 0x2029 || u == 0x202F || u == 0x205F || u == 0x3000
}

/// Index of the first non-white character at or after `i` (or the length).
pub open spec fn skip_white(s: Seq<char>, i: int) -> int
    decreases s.len() - i,
{
    if 0 <= i < s.len() && is_white(s[i]) {
        skip_white(s, i + 1)
    } else {
        i
    }
}

/// End after dropping trailing white characters before `j`.
pub open spec fn back_white(s: Seq<char>, lo: int, j: int) -> int
    decreases j - lo,
{
    if lo < j && j <= s.len() && is_white(s[j - 1]) {
        back_white(s, lo, j - 1)
    } else {
        j
    }
}

/// `s` without leading and trailing white space (`str::trim`).
pub open spec fn trim_white(s: Seq<char>) -> Seq<char> {
    let a = skip_white(s, 0);
    s.subrange(a, back_white(s, a, s.len() as int))
}

proof fn lemma_skip_white_bounds(s: Seq<char>, i: int)
    requires
        0 <= i <= s.len(),
    ensures
        i <= skip_white(s, i) <= s.len(),
    decreases s.len() - i,
{
    if i < s.len() && is_white(s[i]) {
        lemma_skip_white_bounds(s, i + 1);
    }
}

proof fn lemma_back_white_bounds(s: Seq<char>, lo: int, j: int)
    requires
        0 <= lo <= j <= s.len(),
    ensures
        lo <= back_white(s, lo, j) <= j,
    decreases j - lo,
{
    if lo < j && is_white(s[j - 1]) {
        lemma_back_white_bounds(s, lo, j - 1);
    }
}

fn trim_white_exec(v: &[char]) -> (r: Vec<char>)
    ensures
        r@ == trim_white(v@),
{
    let mut a: usize = 0;
    while a < v.len() && is_white_exec(v[a])
        invariant
            a <= v@.len(),
            skip_white(v@, 0) == skip_white(v@, a as int),
        decreases v@.len() - a,
    {
        a = a + 1;
    }
    let mut b: usize = v.len();
    while b > a && is_white_exec(v[b - 1])
        invariant
            a <= b <= v@.len(),
            skip_white(v@, 0) == a,
            back_white(v@, a as int, v@.len() as int) == back_white(v@, a as int, b as int),
        decreases b,
    {
        b = b - 1;
    }
    slice_to_vec(v, a, b)
}

/// The lines of `s`, as `str::lines` yields them.
pub open spec fn split_lines(s: Seq<char>) -> Seq<Seq<char>>
    decreases s.len(),
{
    if s.len() == 0 {
        seq![]
    } else {
        match find_from(s, seq!['\n'], 0) {
            Some(e) => {
                let piece = s.take(e);
                let line = if piece.len() > 0 && piece.last() == '\r' { piece.drop_last() } else { piece };
                if 0 <= e < s.len() {
                    seq![line] + split_lines(s.skip(e + 1))
                } else {
                    seq![line]
                }
            },
            None => seq![s],
        }
    }
}

proof fn lemma_find_nl(s: Seq<char>, start: int)
    ensures
        find_from(s, seq!['\n'], start) matches Some(e) ==> start <= e < s.len() && s[e] == '\n',
    decreases s.len() + 1 - start,
{
    crate::text::lemma_find_from_bounds(s, seq!['\n'], start);
    if let Some(e) = find_from(s, seq!['\n'], start) {
        assert(s.subrange(e, e + 1)[0] == s[e]);
    }
}

/// The lines of `v` (`str::lines`).
pub fn lines_of(v: &[char]) -> (r: Vec<Vec<char>>)
    ensures
        r@.map_values(|l: Vec<char>| l@) == split_lines(v@),
{
    let mut out: Vec<Vec<char>> = Vec::new();
    let mut start: usize = 0;
    let nl = vec!['\n'];
    proof {
        assert(v@.skip(0) =~= v@);
    }
    while start < v.len()
        invariant
            nl@ == seq!['\n'],
            start <= v@.len(),
            out@.map_values(|l: Vec<char>| l@) + split_lines(v@.skip(start as int)) == split_lines(v@),
        decreases v@.len() - start,
    {
        let ghost rest = v@.skip(start as int);
        let found = find_exec(v, nl.as_slice(), start);
        proof {
            lemma_find_nl(v@, start as int);
            lemma_find_nl(rest, 0);
        }
        match found {
            Some(e) => {
                proof {
                    lemma_find_shift(v@, seq!['\n'], start as int);
                }
                let mut end = e;
                if end > start && v[end - 1] == '\r' {
                    end = end - 1;
                }
                let line = slice_to_vec(v, start, end);
                let ghost old_out = out@.map_values(|l: Vec<char>| l@);
                out.push(line);
                proof {
                    let piece = rest.take(e - start);
                    assert(piece =~= v@.subrange(start as int, e as int));
                    if end < e {
                        assert(line@ =~= piece.drop_last());
                    } else {
                        assert(line@ =~= piece);
                    }
                    assert(rest.skip(e - start + 1) =~= v@.skip(e + 1));
                    assert(out@.map_values(|l: Vec<char>| l@) =~= old_out.push(line@));
                    assert(split_lines(rest) == seq![line@] + split_lines(v@.skip(e + 1)));
                    assert(out@.map_values(|l: Vec<char>| l@) + split_lines(v@.skip(e + 1)) =~= old_out + split_lines(rest));
                }
                start = e + 1;
            },
            None => {
                proof {
                    lemma_find_shift(v@, seq!['\n'], start as int);
                }
                let line = slice_to_vec(v, start, v.len());
                let ghost old_out = out@.map_values(|l: Vec<char>| l@);
                out.push(line);
                proof {
                    assert(line@ =~= rest);
                    assert(split_lines(rest) == seq![rest]);
                    assert(v@.skip(v@.len() as int) =~= Seq::<char>::empty());
                    assert(out@.map_values(|l: Vec<char>| l@) + split_lines(v@.skip(v@.len() as int)) =~= old_out + split_lines(rest));
                }
                start = v.len();
            },
        }
    }
    proof {
        assert(v@.skip(start as int) =~= Seq::<char>::empty());
        assert(out@.map_values(|l: Vec<char>| l@) + split_lines(v@.skip(start as int)) =~= out@.map_values(|l: Vec<char>| l@));
    }
    out
}

proof fn lemma_find_shift(s: Seq<char>, pat: Seq<char>, start: int)
    requires
        0 <= start <= s.len(),
        pat.len() > 0,
    ensures
        match find_from(s, pat, start) {
            Some(e) => find_from(s.skip(start), pat, 0) == Some(e - start),
            None => find_from(s.skip(start), pat, 0) is None,
        },
{
    lemma_find_shift_from(s, pat, start, start);
}

proof fn lemma_find_shift_from(s: Seq<char>, pat: Seq<char>, start: int, i: int)
    requires
        0 <= start <= i,
        start <= s.len(),
        pat.len() > 0,
    ensures
        match find_from(s, pat, i) {
            Some(e) => find_from(s.skip(start), pat, i - start) == Some(e - start),
            None => find_from(s.skip(start), pat, i - start) is None,
        },
    decreases s.len() + 1 - i,
{
    let t = s.skip(start);
    if i + pat.len() <= s.len() {
        assert(t.subrange(i - start, i - start + pat.len()) =~= s.subrange(i, i + pat.len()));
        lemma_find_shift_from(s, pat, start, i + 1);
    }
}


/// Is `line` a named-type definition (`%T = type { ... }`)?
pub open spec fn is_type_def_line(line: Seq<char>) -> bool {
    let t = trim_white(line);
    t.len() > 0 && t[0] == '%' && contains_seq(t, "= type {"@)
}

/// The lines of `v` that `keep` selects, in order.
pub open spec fn lines_where(v: Seq<Seq<char>>, keep: spec_fn(Seq<char>) -> bool) -> Seq<Seq<char>>
    decreases v.len(),
{
    if v.len() == 0 {
        seq![]
    } else if keep(v.last()) {
        lines_where(v.drop_last(), keep).push(v.last())
    } else {
        lines_where(v.drop_last(), keep)
    }
}

fn is_type_def_line_exec(line: &Vec<char>) -> (r: bool)
    ensures
        r == is_type_def_line(line@),
{
    let t = trim_white_exec(line.as_slice());
    let pat = chars_of("= type {");
    t.len() > 0 && t[0] == '%' && find_exec(t.as_slice(), pat.as_slice(), 0).is_some()
}

/// Splits LLVM IR into its named-type definitions and everything else, each
/// part joined back with newlines.
pub fn hoist_llvm_type_defs(ir: &str) -> (r: (String, String))
    ensures
        r.0@ == join(lines_where(split_lines(ir@), |l: Seq<char>| is_type_def_line(l)), "\n"@),
        r.1@ == join(lines_where(split_lines(ir@), |l: Seq<char>| !is_type_def_line(l)), "\n"@),
{
    let cs = chars_of(ir);
    let lines = lines_of(cs.as_slice());
    let ghost ls = lines@.map_values(|l: Vec<char>| l@);
    let mut type_lines: Vec<String> = Vec::new();
    let mut rest_lines: Vec<String> = Vec::new();
    let mut i: usize = 0;
    while i < lines.len()
        invariant
            ls == lines@.map_values(|l: Vec<char>| l@),
            ls == split_lines(ir@),
            i <= ls.len(),
            texts(type_lines@) == lines_where(ls.take(i as int), |l: Seq<char>| is_type_def_line(l)),
            texts(rest_lines@) == lines_where(ls.take(i as int), |l: Seq<char>| !is_type_def_line(l)),
        decreases ls.len() - i,
    {
        let line = &lines[i];
        let text = string_of(line.as_slice());
        proof {
            assert(ls.take(i + 1).drop_last() =~= ls.take(i as int));
            assert(ls.take(i + 1).last() == line@);
        }
        if is_type_def_line_exec(line) {
            let ghost before = type_lines@;
            type_lines.push(text);
            proof {
                assert(texts(type_lines@) =~= texts(before).push(line@));
            }
        } else {
            let ghost before = rest_lines@;
            rest_lines.push(text);
            proof {
                assert(texts(rest_lines@) =~= texts(before).push(line@));
            }
        }
        i = i + 1;
    }
    proof {
        assert(ls.take(ls.len() as int) =~= ls);
    }
    (join_exec(type_lines.as_slice(), "\n"), join_exec(rest_lines.as_slice(), "\n"))
}

/// First index of `c` in `s` at or after `i`, if any.
pub open spec fn index_of_from(s: Seq<char>, c: char, i: int) -> Option<int>
    decreases s.len() - i,
{
    if i < 0 || i >= s.len() {
        None
    } else if s[i] == c {
        Some(i)
    } else {
        index_of_from(s, c, i + 1)
    }
}

/// The function name in a `define` / `declare` line after its keyword: the text
/// after the first `@`, up to the next `@` and then up to the first `(`.
pub open spec fn ir_fn_name(rest: Seq<char>) -> Option<Seq<char>> {
    match index_of_from(rest, '@', 0) {
        Some(a) => {
            let seg_end = match index_of_from(rest, '@', a + 1) {
                Some(b) => b,
                None => rest.len() as int,
            };
            let seg = rest.subrange(a + 1, seg_end);
            Some(match index_of_from(seg, '(', 0) {
                Some(p) => seg.take(p),
                None => seg,
            })
        },
        None => None,
    }
}

proof fn lemma_index_of_bounds(s: Seq<char>, c: char, i: int)
    ensures
        index_of_from(s, c, i) matches Some(k) ==> i <= k < s.len() && s[k] == c,
    decreases s.len() - i,
{
    if !(i < 0 || i >= s.len()) && s[i] != c {
        lemma_index_of_bounds(s, c, i + 1);
    }
}

fn index_of_from_exec(s: &[char], c: char, i: usize) -> (r: Option<usize>)
    ensures
        match r {
            Some(k) => index_of_from(s@, c, i as int) == Some(k as int),
            None => index_of_from(s@, c, i as int) is None,
        },
{
    let mut k = i;
    while k < s.len()
        invariant
            i <= k,
            index_of_from(s@, c, i as int) == index_of_from(s@, c, k as int),
        decreases s@.len() - k,
    {
        if s[k] == c {
            return Some(k);
        }
        k = k + 1;
    }
    None
}

fn ir_fn_name_exec(rest: &[char]) -> (r: Option<Vec<char>>)
    ensures
        match r {
            Some(n) => ir_fn_name(rest@) == Some(n@),
            None => ir_fn_name(rest@) is None,
        },
{
    let a = match index_of_from_exec(rest, '@', 0) {
        Some(a) => a,
        None => {
            return None;
        },
    };
    proof {
        lemma_index_of_bounds(rest@, '@', 0);
        lemma_index_of_bounds(rest@, '@', a + 1);
    }
    let len = rest.len();
    assert(a < len);
    let seg_end = match index_of_from_exec(rest, '@', a + 1) {
        Some(b) => b,
        None => len,
    };
    let seg = slice_to_vec(rest, a + 1, seg_end);
    proof {
        lemma_index_of_bounds(seg@, '(', 0);
    }
    match index_of_from_exec(seg.as_slice(), '(', 0) {
        Some(p) => {
            let n = slice_to_vec(seg.as_slice(), 0, p);
            assert(n@ =~= seg@.take(p as int));
            Some(n)
        },
        None => Some(seg),
    }
}

/// The text after `kw` when the trimmed line starts with it.
pub open spec fn after_keyword(line: Seq<char>, kw: Seq<char>) -> Option<Seq<char>> {
    let t = trim_white(line);
    if starts_with(t, kw) {
        Some(t.skip(kw.len() as int))
    } else {
        None
    }
}

/// Name a line defines, when it is a `define` line with a name.
pub open spec fn defined_name(line: Seq<char>) -> Option<Seq<char>> {
    match after_keyword(line, "define "@) {
        Some(rest) => ir_fn_name(rest),
        None => None,
    }
}

/// Names of the functions the lines define.
pub open spec fn defined_names(ls: Seq<Seq<char>>) -> Set<Seq<char>> {
    Set::new(|n: Seq<char>| exists|i: int| 0 <= i < ls.len() && defined_name(#[trigger] ls[i]) == Some(n))
}

/// Is `line` a `declare` of one of `defined`?
pub open spec fn redundant_declare(line: Seq<char>, defined: Set<Seq<char>>) -> bool {
    match after_keyword(line, "declare "@) {
        Some(rest) => match ir_fn_name(rest) {
            Some(n) => defined.contains(n),
            None => false,
        },
        None => false,
    }
}

fn after_keyword_exec(line: &Vec<char>, kw: &str) -> (r: Option<Vec<char>>)
    ensures
        match r {
            Some(v) => after_keyword(line@, kw@) == Some(v@),
            None => after_keyword(line@, kw@) is None,
        },
{
    let t = trim_white_exec(line.as_slice());
    let k = chars_of(kw);
    if t.len() >= k.len() {
        let head = slice_to_vec(t.as_slice(), 0, k.len());
        assert(head@ =~= t@.take(k@.len() as int));
        if crate::text::chars_eq(head.as_slice(), k.as_slice()) {
            let rest = slice_to_vec(t.as_slice(), k.len(), t.len());
            assert(rest@ =~= t@.skip(k@.len() as int));
            return Some(rest);
        }
    }
    None
}

/// Removes the `declare` lines of functions that the same IR also defines;
/// the kept lines are joined with newlines.
pub fn drop_declares_for_defined_functions(ir: &str) -> (r: String)
    ensures
        r@ == join(
            lines_where(split_lines(ir@), |l: Seq<char>| !redundant_declare(l, defined_names(split_lines(ir@)))),
            "\n"@,
        ),
{
    let cs = chars_of(ir);
    let lines = lines_of(cs.as_slice());
    let ghost ls = lines@.map_values(|l: Vec<char>| l@);
    let mut defined = NameSet::new();
    let mut i: usize = 0;
    while i < lines.len()
        invariant
            ls == lines@.map_values(|l: Vec<char>| l@),
            i <= ls.len(),
            defined.wf(),
            defined@ == defined_names(ls.take(i as int)),
        decreases ls.len() - i,
    {
        let ghost before = defined@;
        if let Some(rest) = after_keyword_exec(&lines[i], "define ") {
            if let Some(name) = ir_fn_name_exec(rest.as_slice()) {
                let n = string_of(name.as_slice());
                defined.insert(n.as_str());
            }
        }
        proof {
            let pre = ls.take(i as int);
            let post = ls.take(i + 1);
            assert(post[i as int] == ls[i as int]);
            assert forall|n: Seq<char>| defined@.contains(n) <==> defined_names(post).contains(n) by {
                if defined_names(post).contains(n) {
                    let k = choose|k: int| 0 <= k < post.len() && defined_name(#[trigger] post[k]) == Some(n);
                    if k < i {
                        assert(pre[k] == post[k]);
                    }
                }
                if defined_names(pre).contains(n) {
                    let k = choose|k: int| 0 <= k < pre.len() && defined_name(#[trigger] pre[k]) == Some(n);
                    assert(pre[k] == post[k]);
                }
            }
            assert(defined@ =~= defined_names(post));
        }
        i = i + 1;
    }
    proof {
        assert(ls.take(ls.len() as int) =~= ls);
    }
    let ghost d = defined@;
    let mut kept: Vec<String> = Vec::new();
    let mut i: usize = 0;
    while i < lines.len()
        invariant
            ls == lines@.map_values(|l: Vec<char>| l@),
            ls == split_lines(ir@),
            d == defined@,
            d == defined_names(ls),
            defined.wf(),
            i <= ls.len(),
            texts(kept@) == lines_where(ls.take(i as int), |l: Seq<char>| !redundant_declare(l, d)),
        decreases ls.len() - i,
    {
        let line = &lines[i];
        let mut drop = false;
        if let Some(rest) = after_keyword_exec(line, "declare ") {
            if let Some(name) = ir_fn_name_exec(rest.as_slice()) {
                let n = string_of(name.as_slice());
                drop = defined.contains(n.as_str());
            }
        }
        proof {
            assert(ls.take(i + 1).drop_last() =~= ls.take(i as int));
            assert(ls.take(i + 1).last() == line@);
        }
        if !drop {
            let ghost before = kept@;
            kept.push(string_of(line.as_slice()));
            proof {
                assert(texts(kept@) =~= texts(before).push(line@));
            }
        }
        i = i + 1;
    }
    proof {
        assert(ls.take(ls.len() as int) =~= ls);
    }
    join_exec(kept.as_slice(), "\n")
}


/// Law: hoisting sends every line of the IR to exactly one of the two parts.
pub proof fn lemma_hoist_partitions_lines(v: Seq<Seq<char>>)
    ensures
        lines_where(v, |l: Seq<char>| is_type_def_line(l)).len()
            + lines_where(v, |l: Seq<char>| !is_type_def_line(l)).len() == v.len(),
    decreases v.len(),
{
    if v.len() > 0 {
        lemma_hoist_partitions_lines(v.drop_last());
    }
}

/// Law: dropping declarations never drops a line that defines a function.
pub proof fn lemma_definitions_are_kept(line: Seq<char>, defined: Set<Seq<char>>)
    requires
        after_keyword(line, "define "@) is Some,
    ensures
        !redundant_declare(line, defined),
{
    reveal_strlit("declare ");
    reveal_strlit("define ");
    let t = trim_white(line);
    if starts_with(t, "declare "@) {
        assert(t.take(8)[2] == 'c');
        assert(t.take(7)[2] == 'f');
    }
}

/// Number of runtime functions generated code may call.
pub const RUNTIME_DECL_COUNT: usize = 112;

/// Runtime function `i` that generated code may call, with its LLVM
/// declaration; declarations are emitted in this order.
pub open spec fn runtime_decl(i: usize) -> (Seq<char>, Seq<char>) {
    match i {
        0 => ("str_len"@, "declare i32 @str_len(ptr)"@),
        1 => ("char_at"@, "declare i32 @char_at(ptr, i32)"@),
        2 => ("str_cat"@, "declare ptr @str_cat(ptr, ptr)"@),
        3 => ("str_clone"@, "declare ptr @str_clone(ptr)"@),
        4 => ("substring"@, "declare ptr @substring(ptr, i32, i32)"@),
        5 => ("i32_to_string"@, "declare ptr @i32_to_string(i32)"@),
        6 => ("i64_to_string"@, "declare ptr @i64_to_string(i64)"@),
        7 => ("str_cmp"@, "declare i32 @str_cmp(ptr, ptr)"@),
        8 => ("str_to_upper"@, "declare ptr @str_to_upper(ptr)"@),
        9 => ("str_to_lower"@, "declare ptr @str_to_lower(ptr)"@),
        10 => ("str_trim"@, "declare ptr @str_trim(ptr)"@),
        11 => ("str_contains"@, "declare i32 @str_contains(ptr, ptr)"@),
        12 => ("str_starts_with"@, "declare i32 @str_starts_with(ptr, ptr)"@),
        13 => ("str_ends_with"@, "declare i32 @str_ends_with(ptr, ptr)"@),
        14 => ("str_replace"@, "declare ptr @str_replace(ptr, ptr, ptr)"@),
        15 => ("str_replacen"@, "declare ptr @str_replacen(ptr, ptr, ptr, i32)"@),
        16 => ("str_split"@, "declare ptr @str_split(ptr, ptr)"@),
        17 => ("array_i32_sort_copy"@, "declare void @array_i32_sort_copy(i32*, i32*, i32)"@),
        18 => ("array_f64_sort_copy"@, "declare void @array_f64_sort_copy(double*, double*, i32)"@),
        19 => ("array_i32_debug_string"@, "declare ptr @array_i32_debug_string(i32*, i32)"@),
        20 => ("array_f64_debug_string"@, "declare ptr @array_f64_debug_string(double*, i32)"@),
        21 => ("array_f32_debug_string"@, "declare ptr @array_f32_debug_string(float*, i32)"@),
        22 => ("array_bool_debug_string"@, "declare ptr @array_bool_debug_string(i8*, i32)"@),
        23 => ("array_str_debug_string"@, "declare ptr @array_str_debug_string(ptr, i32)"@),
        24 => ("bounds_assert_i32"@, "declare void @bounds_assert_i32(i32)"@),
        25 => ("vec_str_len"@, "declare i32 @vec_str_len(ptr)"@),
        26 => ("vec_str_get"@, "declare ptr @vec_str_get(ptr, i32)"@),
        27 => ("vec_str_free"@, "declare void @vec_str_free(ptr)"@),
        28 => ("read_file"@, "declare ptr @read_file(ptr)"@),
        29 => ("read_file_limit"@, "declare ptr @read_file_limit(ptr, i32)"@),
        30 => ("write_file"@, "declare i32 @write_file(ptr, ptr)"@),
        31 => ("file_size"@, "declare i64 @file_size(ptr)"@),
        32 => ("copy_file"@, "declare i64 @copy_file(ptr, ptr)"@),
        33 => ("list_dir"@, "declare ptr @list_dir(ptr)"@),
        34 => ("path_is_dir"@, "declare i32 @path_is_dir(ptr)"@),
        35 => ("rt_args_init"@, "declare void @rt_args_init(i32, ptr)"@),
        36 => ("os_arg_count"@, "declare i32 @os_arg_count()"@),
        37 => ("os_arg_at"@, "declare ptr @os_arg_at(i32)"@),
        38 => ("heap_free"@, "declare void @heap_free(ptr)"@),
        39 => ("spawn_capture"@, "declare ptr @spawn_capture(ptr, ptr, i64)"@),
        40 => ("spawn_join"@, "declare i32 @spawn_join(ptr)"@),
        41 => ("spawn_handle_drop"@, "declare void @spawn_handle_drop(ptr)"@),
        42 => ("spawn_task_capture"@, "declare ptr @spawn_task_capture(ptr, ptr, i64)"@),
        43 => ("spawn_task_join"@, "declare i32 @spawn_task_join(ptr)"@),
        44 => ("spawn_task_handle_drop"@, "declare void @spawn_task_handle_drop(ptr)"@),
        45 => ("parallel_for_range"@, "declare void @parallel_for_range(i32, i32, ptr, ptr, i32, i32, i32, i32, i32)"@),
        46 => ("cpu_count"@, "declare i32 @cpu_count()"@),
        47 => ("progress_update"@, "declare void @progress_update(i32, i32, ptr)"@),
        48 => ("progress_finish"@, "declare void @progress_finish()"@),
        49 => ("benchmark_begin"@, "declare void @benchmark_begin()"@),
        50 => ("benchmark_end"@, "declare void @benchmark_end()"@),
        51 => ("async_await"@, "declare i32 @async_await(i32)"@),
        52 => ("async_await_bool"@, "declare i32 @async_await_bool(i32)"@),
        53 => ("async_await_ptr"@, "declare ptr @async_await_ptr(i32)"@),
        54 => ("async_run"@, "declare i32 @async_run(i32)"@),
        55 => ("async_promise_new"@, "declare i32 @async_promise_new()"@),
        56 => ("async_promise_complete"@, "declare void @async_promise_complete(i32, i32)"@),
        57 => ("async_promise_complete_bool"@, "declare void @async_promise_complete_bool(i32, i32)"@),
        58 => ("async_promise_complete_ptr"@, "declare void @async_promise_complete_ptr(i32, ptr)"@),
        59 => ("async_poll"@, "declare i32 @async_poll(i32)"@),
        60 => ("async_poll_bool"@, "declare i32 @async_poll_bool(i32)"@),
        61 => ("async_future_done"@, "declare i32 @async_future_done(i32)"@),
        62 => ("async_future_ptr_value"@, "declare ptr @async_future_ptr_value(i32)"@),
        63 => ("runtime_run"@, "declare void @runtime_run()"@),
        64 => ("io_register"@, "declare i32 @io_register(i32, i32)"@),
        65 => ("io_wait_once"@, "declare i32 @io_wait_once(i32)"@),
        66 => ("channel_new"@, "declare ptr @channel_new()"@),
        67 => ("channel_send"@, "declare void @channel_send(ptr, i32)"@),
        68 => ("channel_recv"@, "declare i32 @channel_recv(ptr)"@),
        69 => ("channel_free"@, "declare void @channel_free(ptr)"@),
        70 => ("time_start"@, "declare void @time_start(ptr)"@),
        71 => ("time_end"@, "declare void @time_end(ptr)"@),
        72 => ("date_now"@, "declare void @date_now(ptr)"@),
        73 => ("mem_start"@, "declare void @mem_start(ptr)"@),
        74 => ("mem_end"@, "declare void @mem_end(ptr)"@),
        75 => ("stdout_write_str"@, "declare void @stdout_write_str(ptr)"@),
        76 => ("stdout_writeln_str"@, "declare void @stdout_writeln_str(ptr)"@),
        77 => ("stdout_write_i32"@, "declare void @stdout_write_i32(i32)"@),
        78 => ("stdout_writeln_i32"@, "declare void @stdout_writeln_i32(i32)"@),
        79 => ("stdout_flush"@, "declare void @stdout_flush()"@),
        80 => ("stdin_read_line"@, "declare ptr @stdin_read_line(ptr)"@),
        81 => ("process_exit"@, "declare void @process_exit(i32)"@),
        82 => ("vec_str_from_argv"@, "declare ptr @vec_str_from_argv(i32)"@),
        83 => ("bytes_read_file"@, "declare ptr @bytes_read_file(ptr)"@),
        84 => ("bytes_len"@, "declare i64 @bytes_len(ptr)"@),
        85 => ("byte_at"@, "declare i32 @byte_at(ptr, i64)"@),
        86 => ("bytes_to_string"@, "declare ptr @bytes_to_string(ptr)"@),
        87 => ("bytes_from_string"@, "declare ptr @bytes_from_string(ptr)"@),
        88 => ("bytes_free"@, "declare void @bytes_free(ptr)"@),
        89 => ("bytes_write_file"@, "declare i32 @bytes_write_file(ptr, ptr)"@),
        90 => ("stdin_read_bytes"@, "declare ptr @stdin_read_bytes(i32)"@),
        91 => ("stdout_write_bytes"@, "declare void @stdout_write_bytes(ptr)"@),
        92 => ("regex_compile"@, "declare ptr @regex_compile(ptr)"@),
        93 => ("regex_is_match"@, "declare i32 @regex_is_match(ptr, ptr)"@),
        94 => ("tar_create"@, "declare i32 @tar_create(ptr, ptr)"@),
        95 => ("tar_extract"@, "declare i32 @tar_extract(ptr, ptr)"@),
        96 => ("gzip_file"@, "declare i32 @gzip_file(ptr, ptr)"@),
        97 => ("gunzip_file"@, "declare i32 @gunzip_file(ptr, ptr)"@),
        98 => ("println"@, "declare i32 @println(ptr)"@),
        99 => ("color_ansi"@, "declare ptr @color_ansi(ptr)"@),
        100 => ("ansi_reset"@, "declare ptr @ansi_reset()"@),
        101 => ("blackbox_i32"@, "declare i32 @blackbox_i32(i32)"@),
        102 => ("rand_i32"@, "declare i32 @rand_i32()"@),
        103 => ("rand_range"@, "declare i32 @rand_range(i32, i32)"@),
        104 => ("rand_i64"@, "declare i64 @rand_i64()"@),
        105 => ("rand_range_i64"@, "declare i64 @rand_range_i64(i64, i64)"@),
        106 => ("rand_u32"@, "declare i32 @rand_u32()"@),
        107 => ("rand_range_u32"@, "declare i32 @rand_range_u32(i32, i32)"@),
        108 => ("rand_u64"@, "declare i64 @rand_u64()"@),
        109 => ("rand_range_u64"@, "declare i64 @rand_range_u64(i64, i64)"@),
        110 => ("rand_f64"@, "declare double @rand_f64()"@),
        111 => ("rand_f64_range"@, "declare double @rand_f64_range(double, double)"@),
        _ => (Seq::empty(), Seq::empty()),
    }
}

/// All runtime functions, in emission order.
pub open spec fn runtime_decl_table() -> Seq<(Seq<char>, Seq<char>)> {
    Seq::new(RUNTIME_DECL_COUNT as nat, |i: int| runtime_decl(i as usize))
}

fn runtime_decl_at(i: usize) -> (r: (&'static str, &'static str))
    requires
        i < RUNTIME_DECL_COUNT,
    ensures
        (r.0@, r.1@) == runtime_decl(i),
{
    match i {
        0 => ("str_len", "declare i32 @str_len(ptr)"),
        1 => ("char_at", "declare i32 @char_at(ptr, i32)"),
        2 => ("str_cat", "declare ptr @str_cat(ptr, ptr)"),
        3 => ("str_clone", "declare ptr @str_clone(ptr)"),
        4 => ("substring", "declare ptr @substring(ptr, i32, i32)"),
        5 => ("i32_to_string", "declare ptr @i32_to_string(i32)"),
        6 => ("i64_to_string", "declare ptr @i64_to_string(i64)"),
        7 => ("str_cmp", "declare i32 @str_cmp(ptr, ptr)"),
        8 => ("str_to_upper", "declare ptr @str_to_upper(ptr)"),
        9 => ("str_to_lower", "declare ptr @str_to_lower(ptr)"),
        10 => ("str_trim", "declare ptr @str_trim(ptr)"),
        11 => ("str_contains", "declare i32 @str_contains(ptr, ptr)"),
        12 => ("str_starts_with", "declare i32 @str_starts_with(ptr, ptr)"),
        13 => ("str_ends_with", "declare i32 @str_ends_with(ptr, ptr)"),
        14 => ("str_replace", "declare ptr @str_replace(ptr, ptr, ptr)"),
        15 => ("str_replacen", "declare ptr @str_replacen(ptr, ptr, ptr, i32)"),
        16 => ("str_split", "declare ptr @str_split(ptr, ptr)"),
        17 => ("array_i32_sort_copy", "declare void @array_i32_sort_copy(i32*, i32*, i32)"),
        18 => ("array_f64_sort_copy", "declare void @array_f64_sort_copy(double*, double*, i32)"),
        19 => ("array_i32_debug_string", "declare ptr @array_i32_debug_string(i32*, i32)"),
        20 => ("array_f64_debug_string", "declare ptr @array_f64_debug_string(double*, i32)"),
        21 => ("array_f32_debug_string", "declare ptr @array_f32_debug_string(float*, i32)"),
        22 => ("array_bool_debug_string", "declare ptr @array_bool_debug_string(i8*, i32)"),
        23 => ("array_str_debug_string", "declare ptr @array_str_debug_string(ptr, i32)"),
        24 => ("bounds_assert_i32", "declare void @bounds_assert_i32(i32)"),
        25 => ("vec_str_len", "declare i32 @vec_str_len(ptr)"),
        26 => ("vec_str_get", "declare ptr @vec_str_get(ptr, i32)"),
        27 => ("vec_str_free", "declare void @vec_str_free(ptr)"),
        28 => ("read_file", "declare ptr @read_file(ptr)"),
        29 => ("read_file_limit", "declare ptr @read_file_limit(ptr, i32)"),
        30 => ("write_file", "declare i32 @write_file(ptr, ptr)"),
        31 => ("file_size", "declare i64 @file_size(ptr)"),
        32 => ("copy_file", "declare i64 @copy_file(ptr, ptr)"),
        33 => ("list_dir", "declare ptr @list_dir(ptr)"),
        34 => ("path_is_dir", "declare i32 @path_is_dir(ptr)"),
        35 => ("rt_args_init", "declare void @rt_args_init(i32, ptr)"),
        36 => ("os_arg_count", "declare i32 @os_arg_count()"),
        37 => ("os_arg_at", "declare ptr @os_arg_at(i32)"),
        38 => ("heap_free", "declare void @heap_free(ptr)"),
        39 => ("spawn_capture", "declare ptr @spawn_capture(ptr, ptr, i64)"),
        40 => ("spawn_join", "declare i32 @spawn_join(ptr)"),
        41 => ("spawn_handle_drop", "declare void @spawn_handle_drop(ptr)"),
        42 => ("spawn_task_capture", "declare ptr @spawn_task_capture(ptr, ptr, i64)"),
        43 => ("spawn_task_join", "declare i32 @spawn_task_join(ptr)"),
        44 => ("spawn_task_handle_drop", "declare void @spawn_task_handle_drop(ptr)"),
        45 => ("parallel_for_range", "declare void @parallel_for_range(i32, i32, ptr, ptr, i32, i32, i32, i32, i32)"),
        46 => ("cpu_count", "declare i32 @cpu_count()"),
        47 => ("progress_update", "declare void @progress_update(i32, i32, ptr)"),
        48 => ("progress_finish", "declare void @progress_finish()"),
        49 => ("benchmark_begin", "declare void @benchmark_begin()"),
        50 => ("benchmark_end", "declare void @benchmark_end()"),
        51 => ("async_await", "declare i32 @async_await(i32)"),
        52 => ("async_await_bool", "declare i32 @async_await_bool(i32)"),
        53 => ("async_await_ptr", "declare ptr @async_await_ptr(i32)"),
        54 => ("async_run", "declare i32 @async_run(i32)"),
        55 => ("async_promise_new", "declare i32 @async_promise_new()"),
        56 => ("async_promise_complete", "declare void @async_promise_complete(i32, i32)"),
        57 => ("async_promise_complete_bool", "declare void @async_promise_complete_bool(i32, i32)"),
        58 => ("async_promise_complete_ptr", "declare void @async_promise_complete_ptr(i32, ptr)"),
        59 => ("async_poll", "declare i32 @async_poll(i32)"),
        60 => ("async_poll_bool", "declare i32 @async_poll_bool(i32)"),
        61 => ("async_future_done", "declare i32 @async_future_done(i32)"),
        62 => ("async_future_ptr_value", "declare ptr @async_future_ptr_value(i32)"),
        63 => ("runtime_run", "declare void @runtime_run()"),
        64 => ("io_register", "declare i32 @io_register(i32, i32)"),
        65 => ("io_wait_once", "declare i32 @io_wait_once(i32)"),
        66 => ("channel_new", "declare ptr @channel_new()"),
        67 => ("channel_send", "declare void @channel_send(ptr, i32)"),
        68 => ("channel_recv", "declare i32 @channel_recv(ptr)"),
        69 => ("channel_free", "declare void @channel_free(ptr)"),
        70 => ("time_start", "declare void @time_start(ptr)"),
        71 => ("time_end", "declare void @time_end(ptr)"),
        72 => ("date_now", "declare void @date_now(ptr)"),
        73 => ("mem_start", "declare void @mem_start(ptr)"),
        74 => ("mem_end", "declare void @mem_end(ptr)"),
        75 => ("stdout_write_str", "declare void @stdout_write_str(ptr)"),
        76 => ("stdout_writeln_str", "declare void @stdout_writeln_str(ptr)"),
        77 => ("stdout_write_i32", "declare void @stdout_write_i32(i32)"),
        78 => ("stdout_writeln_i32", "declare void @stdout_writeln_i32(i32)"),
        79 => ("stdout_flush", "declare void @stdout_flush()"),
        80 => ("stdin_read_line", "declare ptr @stdin_read_line(ptr)"),
        81 => ("process_exit", "declare void @process_exit(i32)"),
        82 => ("vec_str_from_argv", "declare ptr @vec_str_from_argv(i32)"),
        83 => ("bytes_read_file", "declare ptr @bytes_read_file(ptr)"),
        84 => ("bytes_len", "declare i64 @bytes_len(ptr)"),
        85 => ("byte_at", "declare i32 @byte_at(ptr, i64)"),
        86 => ("bytes_to_string", "declare ptr @bytes_to_string(ptr)"),
        87 => ("bytes_from_string", "declare ptr @bytes_from_string(ptr)"),
        88 => ("bytes_free", "declare void @bytes_free(ptr)"),
        89 => ("bytes_write_file", "declare i32 @bytes_write_file(ptr, ptr)"),
        90 => ("stdin_read_bytes", "declare ptr @stdin_read_bytes(i32)"),
        91 => ("stdout_write_bytes", "declare void @stdout_write_bytes(ptr)"),
        92 => ("regex_compile", "declare ptr @regex_compile(ptr)"),
        93 => ("regex_is_match", "declare i32 @regex_is_match(ptr, ptr)"),
        94 => ("tar_create", "declare i32 @tar_create(ptr, ptr)"),
        95 => ("tar_extract", "declare i32 @tar_extract(ptr, ptr)"),
        96 => ("gzip_file", "declare i32 @gzip_file(ptr, ptr)"),
        97 => ("gunzip_file", "declare i32 @gunzip_file(ptr, ptr)"),
        98 => ("println", "declare i32 @println(ptr)"),
        99 => ("color_ansi", "declare ptr @color_ansi(ptr)"),
        100 => ("ansi_reset", "declare ptr @ansi_reset()"),
        101 => ("blackbox_i32", "declare i32 @blackbox_i32(i32)"),
        102 => ("rand_i32", "declare i32 @rand_i32()"),
        103 => ("rand_range", "declare i32 @rand_range(i32, i32)"),
        104 => ("rand_i64", "declare i64 @rand_i64()"),
        105 => ("rand_range_i64", "declare i64 @rand_range_i64(i64, i64)"),
        106 => ("rand_u32", "declare i32 @rand_u32()"),
        107 => ("rand_range_u32", "declare i32 @rand_range_u32(i32, i32)"),
        108 => ("rand_u64", "declare i64 @rand_u64()"),
        109 => ("rand_range_u64", "declare i64 @rand_range_u64(i64, i64)"),
        110 => ("rand_f64", "declare double @rand_f64()"),
        111 => ("rand_f64_range", "declare double @rand_f64_range(double, double)"),
        _ => ("", ""),
    }
}

/// The declarations of the runtime functions in `used` that are neither
/// skipped nor already declared, in table order.
pub open spec fn runtime_decl_lines(used: Set<Seq<char>>, skip: Set<Seq<char>>, declared: Set<Seq<char>>) -> Seq<Seq<char>> {
    runtime_decl_table().filter_map(
        |p: (Seq<char>, Seq<char>)| if used.contains(p.0) && !skip.contains(p.0) && !declared.contains(p.0) {
            Some(p.1)
        } else {
            None
        },
    )
}

/// Appends to `out` the declarations of the runtime functions the program
/// uses (see [`runtime_decl_lines`]).
pub fn emit_runtime_decls(used: &NameSet, skip: &NameSet, declared: &NameSet, out: &mut Vec<String>)
    ensures
        texts(final(out)@) == texts(old(out)@) + runtime_decl_lines(used@, skip@, declared@),
{
    let ghost t = runtime_decl_table();
    let ghost f = |p: (Seq<char>, Seq<char>)| if used@.contains(p.0) && !skip@.contains(p.0) && !declared@.contains(p.0) {
        Some(p.1)
    } else {
        None
    };
    let ghost o0 = texts(out@);
    let mut i: usize = 0;
    proof {
        assert(t.take(0).filter_map(f) =~= Seq::<Seq<char>>::empty());
        assert(texts(out@) =~= o0 + Seq::<Seq<char>>::empty());
    }
    while i < RUNTIME_DECL_COUNT
        invariant
            i <= RUNTIME_DECL_COUNT,
            t == runtime_decl_table(),
            texts(out@) == o0 + t.take(i as int).filter_map(f),
            f == (|p: (Seq<char>, Seq<char>)| if used@.contains(p.0) && !skip@.contains(p.0) && !declared@.contains(p.0) {
                Some(p.1)
            } else {
                None
            }),
        decreases RUNTIME_DECL_COUNT - i,
    {
        let (name, line) = runtime_decl_at(i);
        proof {
            t.lemma_filter_map_take_succ(f, i as int);
        }
        if used.contains(name) && !skip.contains(name) && !declared.contains(name) {
            let ghost before = texts(out@);
            out.push(String::from_str(line));
            proof {
                assert(texts(out@) =~= before.push(line@));
            }
        }
        proof {
            assert(texts(out@) =~= o0 + t.take(i + 1).filter_map(f));
        }
        i = i + 1;
    }
    proof {
        assert(t.take(t.len() as int) =~= t);
    }
}

/// Does a (trimmed) line end its block: a branch, return, switch or
/// `unreachable`?
pub open spec fn is_terminator_line(t: Seq<char>) -> bool {
    starts_with(t, "br "@) || starts_with(t, "ret "@) || starts_with(t, "switch "@) || t == "unreachable"@
}

/// The last line of `body` that reads `label_line` once trimmed.
pub open spec fn last_label_line(body: Seq<Seq<char>>, label_line: Seq<char>) -> Option<int>
    decreases body.len(),
{
    if body.len() == 0 {
        None
    } else if trim_white(body.last()) == label_line {
        Some(body.len() - 1)
    } else {
        last_label_line(body.drop_last(), label_line)
    }
}

/// From line `i` on, the first line that is not blank is a terminator (and
/// not the next label).
pub open spec fn terminated_from(body: Seq<Seq<char>>, i: int) -> bool
    decreases body.len() - i,
{
    if i < 0 || i >= body.len() {
        false
    } else {
        let t = trim_white(body[i]);
        if t.len() == 0 {
            terminated_from(body, i + 1)
        } else if ends_with_char(t, ':') && !t.contains('=') {
            false
        } else {
            is_terminator_line(t)
        }
    }
}

/// Has the block being emitted already been terminated: no block is open (an
/// empty or `__terminated_` name), or after the last line of its label the
/// first non-blank line is a terminator?
pub open spec fn spec_block_terminated(current: Seq<char>, body: Seq<Seq<char>>) -> bool {
    if current.len() == 0 || starts_with(current, "__terminated_"@) {
        true
    } else {
        match last_label_line(body, current + ":"@) {
            Some(start) => terminated_from(body, start + 1),
            None => false,
        }
    }
}

fn line_trimmed(line: &String) -> (r: Vec<char>)
    ensures
        r@ == trim_white(line@),
{
    let v = chars_of(line.as_str());
    trim_white_exec(v.as_slice())
}

fn has_char(v: &[char], c: char) -> (r: bool)
    ensures
        r == v@.contains(c),
{
    let mut i: usize = 0;
    while i < v.len()
        invariant
            i <= v@.len(),
            forall|k: int| 0 <= k < i ==> v@[k] != c,
        decreases v@.len() - i,
    {
        if v[i] == c {
            assert(v@[i as int] == c);
            return true;
        }
        i = i + 1;
    }
    false
}

/// Whether the block being emitted has been terminated (see
/// `spec_block_terminated`); `body` is the function body emitted so far.
pub fn current_block_has_terminator(current_block: &str, body: &[String]) -> (r: bool)
    ensures
        r == spec_block_terminated(current_block@, texts(body@)),
{
    let cur = chars_of(current_block);
    let marker = chars_of("__terminated_");
    if cur.len() == 0 || starts_with_exec(cur.as_slice(), marker.as_slice()) {
        return true;
    }
    let label = chars_of(String::from_str(current_block).concat(":").as_str());
    let ghost lines = texts(body@);
    let mut start: Option<usize> = None;
    let mut i: usize = 0;
    while i < body.len()
        invariant
            i <= body@.len(),
            lines == texts(body@),
            label@ == current_block@ + ":"@,
            match start {
                Some(s) => s < i && last_label_line(lines.take(i as int), label@) == Some(s as int),
                None => last_label_line(lines.take(i as int), label@) is None,
            },
        decreases body@.len() - i,
    {
        let t = line_trimmed(&body[i]);
        assert(lines.take(i + 1).drop_last() =~= lines.take(i as int));
        if chars_eq(t.as_slice(), label.as_slice()) {
            start = Some(i);
        }
        i = i + 1;
    }
    assert(lines.take(body@.len() as int) =~= lines);
    let s = match start {
        Some(s) => s,
        None => {
            return false;
        },
    };
    assert(spec_block_terminated(current_block@, lines) == terminated_from(lines, s + 1));
    let mut j: usize = s + 1;
    while j < body.len()
        invariant
            s < j <= body@.len(),
            lines == texts(body@),
            spec_block_terminated(current_block@, lines) == terminated_from(lines, s + 1),
            terminated_from(lines, s + 1) == terminated_from(lines, j as int),
        decreases body@.len() - j,
    {
        let t = line_trimmed(&body[j]);
        assert(lines[j as int] == body@[j as int]@);
        if t.len() == 0 {
            j = j + 1;
        } else {
            let n = t.len();
            if t[n - 1] == ':' && !has_char(t.as_slice(), '=') {
                return false;
            }
            let br = chars_of("br ");
            let ret = chars_of("ret ");
            let sw = chars_of("switch ");
            let un = chars_of("unreachable");
            return starts_with_exec(t.as_slice(), br.as_slice()) || starts_with_exec(t.as_slice(), ret.as_slice())
                || starts_with_exec(t.as_slice(), sw.as_slice()) || chars_eq(t.as_slice(), un.as_slice());
        }
    }
    false
}

} // verus!
