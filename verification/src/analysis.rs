//! IDE-oriented document queries: positions, words, symbols and hover text.
use vstd::prelude::*;
use vstd::string::StringSliceAdditionalSpecFns;
use crate::span::{Position, Span};
use crate::inlay::InlayHintInfo;
use crate::ast::{EnumDef, Param, StructDef};
use crate::inspect::{join, join_exec};
use crate::names::texts;
use crate::text::{chars_of, find_from, lemma_find_from_bounds, matches_at, slice_to_vec, string_of, str_eq};

verus! {

/// Number of UTF-8 bytes of one character.
pub open spec fn char_width(c: char) -> nat {
    if (c as u32) <= 0x7F {
        1
    } else if (c as u32) <= 0x7FF {
        2
    } else if (c as u32) <= 0xFFFF {
        3
    } else {
        4
    }
}

/// Number of UTF-8 bytes of a character sequence.
pub open spec fn utf8_len(s: Seq<char>) -> nat
    decreases s.len(),
{
    if s.len() == 0 {
        0
    } else {
        char_width(s[0]) + utf8_len(s.drop_first())
    }
}

pub proof fn lemma_utf8_len_encode(s: Seq<char>)
    ensures
        utf8_len(s) == vstd::utf8::encode_utf8(s).len(),
    decreases s.len(),
{
    if s.len() > 0 {
        lemma_utf8_len_encode(s.drop_first());
        vstd::utf8::char_is_scalar(s[0]);
    }
}

pub proof fn lemma_utf8_len_concat(a: Seq<char>, b: Seq<char>)
    ensures
        utf8_len(a + b) == utf8_len(a) + utf8_len(b),
    decreases a.len(),
{
    if a.len() > 0 {
        assert((a + b).drop_first() =~= a.drop_first() + b);
        lemma_utf8_len_concat(a.drop_first(), b);
    } else {
        assert(a + b =~= b);
    }
}

pub proof fn lemma_utf8_len_take(s: Seq<char>, k: int)
    requires
        0 <= k < s.len(),
    ensures
        utf8_len(s.take(k + 1)) == utf8_len(s.take(k)) + char_width(s[k]),
        utf8_len(s.take(k)) <= utf8_len(s),
{
    let one = seq![s[k]];
    assert(s.take(k + 1) =~= s.take(k) + one);
    lemma_utf8_len_concat(s.take(k), one);
    assert(one.drop_first() =~= Seq::<char>::empty());
    assert(utf8_len(Seq::<char>::empty()) == 0);
    assert(utf8_len(one) == char_width(s[k]) + utf8_len(one.drop_first()));
    assert(s =~= s.take(k) + s.skip(k));
    lemma_utf8_len_concat(s.take(k), s.skip(k));
}

pub proof fn lemma_utf8_len_take_le(s: Seq<char>, k: int)
    requires
        0 <= k <= s.len(),
    ensures
        utf8_len(s.take(k)) <= utf8_len(s),
{
    assert(s =~= s.take(k) + s.skip(k));
    lemma_utf8_len_concat(s.take(k), s.skip(k));
}

pub fn char_width_exec(c: char) -> (r: usize)
    ensures
        r == char_width(c),
{
    let v = c as u32;
    if v <= 0x7F {
        1
    } else if v <= 0x7FF {
        2
    } else if v <= 0xFFFF {
        3
    } else {
        4
    }
}

/// 1-based `(line, column)` of the position just before character `k`.
pub open spec fn line_col(s: Seq<char>, k: nat) -> (int, int)
    decreases k,
{
    if k == 0 {
        (1, 1)
    } else {
        let p = line_col(s, (k - 1) as nat);
        if s[k - 1] == '\n' {
            (p.0 + 1, 1)
        } else {
            (p.0, p.1 + 1)
        }
    }
}

/// First character index at or after `k` whose position is `target`.
pub open spec fn first_at(s: Seq<char>, target: (int, int), k: nat) -> Option<nat>
    decreases s.len() + 1 - k,
{
    if k > s.len() {
        None
    } else if line_col(s, k) == target {
        Some(k)
    } else {
        first_at(s, target, k + 1)
    }
}

/// Byte offset of the 0-based `line` / `character` position in `s`.
pub open spec fn spec_offset_at_position(s: Seq<char>, line: u32, character: u32) -> Option<nat> {
    match first_at(s, (line + 1, character + 1), 0) {
        Some(k) => Some(utf8_len(s.take(k as int))),
        None => None,
    }
}

proof fn lemma_line_col_bounds(s: Seq<char>, k: nat)
    ensures
        1 <= line_col(s, k).0 <= k + 1,
        1 <= line_col(s, k).1 <= k + 1,
    decreases k,
{
    if k > 0 {
        lemma_line_col_bounds(s, (k - 1) as nat);
    }
}

/// Byte offset of a 0-based LSP position (line, character counted in chars).
pub fn offset_at_position(source: &str, line: u32, character: u32) -> (r: Option<usize>)
    ensures
        match r {
            Some(o) => spec_offset_at_position(source@, line, character) == Some(o as nat),
            None => spec_offset_at_position(source@, line, character) is None,
        },
{
    let cs = chars_of(source);
    let ghost s = source@;
    proof {
        lemma_utf8_len_encode(s);
        assert(s.take(s.len() as int) =~= s);
        assert(s.take(0) =~= Seq::<char>::empty());
    }
    let total = source.as_bytes().len();
    let tl: usize = line as usize;
    let tc: usize = character as usize;
    let mut line0: usize = 0;
    let mut col0: usize = 0;
    let mut i: usize = 0;
    let mut k: usize = 0;
    while k < cs.len()
        invariant
            s == source@,
            cs@ == s,
            total == utf8_len(s),
            k <= s.len(),
            i == utf8_len(s.take(k as int)),
            i <= total,
            (line0 + 1, col0 + 1) == line_col(s, k as nat),
            first_at(s, (line + 1, character + 1), 0) == first_at(s, (line + 1, character + 1), k as nat),
            tl == line,
            tc == character,
        decreases s.len() - k,
    {
        if line0 == tl && col0 == tc {
            assert(first_at(s, (line + 1, character + 1), k as nat) == Some(k as nat));
            return Some(i);
        }
        proof {
            lemma_utf8_len_take(s, k as int);
            lemma_line_col_bounds(s, k as nat);
            lemma_utf8_len_take_le(s, k as int + 1);
        }
        let ch = cs[k];
        if ch == '\n' {
            line0 = line0 + 1;
            col0 = 0;
        } else {
            col0 = col0 + 1;
        }
        i = i + char_width_exec(ch);
        k = k + 1;
    }
    if line0 == tl && col0 == tc {
        assert(first_at(s, (line + 1, character + 1), k as nat) == Some(k as nat));
        assert(s.take(k as int) =~= s);
        Some(total)
    } else {
        assert(first_at(s, (line + 1, character + 1), (k + 1) as nat) is None);
        None
    }
}


/// End of the line that starts at `st`: the index of the next `'\n'`, or the length.
pub open spec fn line_end(s: Seq<char>, st: int) -> int
    decreases s.len() - st,
{
    if st >= s.len() || st < 0 {
        s.len() as int
    } else if s[st] == '\n' {
        st
    } else {
        line_end(s, st + 1)
    }
}

/// Start index of line `n` (lines are split at `'\n'`).
pub open spec fn line_start(s: Seq<char>, n: nat) -> int
    decreases n,
{
    if n == 0 {
        0
    } else {
        line_end(s, line_start(s, (n - 1) as nat)) + 1
    }
}

/// Line `n` of `s` as `str::lines` yields it: split at `'\n'`, a `'\r'` before
/// the `'\n'` removed, and no empty line after a final `'\n'`.
pub open spec fn nth_line(s: Seq<char>, n: nat) -> Option<Seq<char>> {
    let st = line_start(s, n);
    if 0 <= st < s.len() {
        let e = line_end(s, st);
        let piece = s.subrange(st, e);
        if e < s.len() && piece.len() > 0 && piece[piece.len() - 1] == '\r' {
            Some(piece.drop_last())
        } else {
            Some(piece)
        }
    } else {
        None
    }
}

proof fn lemma_line_end_bounds(s: Seq<char>, st: int)
    ensures
        0 <= st <= s.len() ==> st <= line_end(s, st) <= s.len(),
        0 <= line_end(s, st) <= s.len(),
        0 <= st ==> forall|j: int| st <= j < line_end(s, st) ==> s[j] != '\n',
    decreases s.len() - st,
{
    if !(st >= s.len() || st < 0) && s[st] != '\n' {
        lemma_line_end_bounds(s, st + 1);
    }
}

proof fn lemma_line_start_mono(s: Seq<char>, n: nat)
    ensures
        0 <= line_start(s, n) <= s.len() + 1,
        line_start(s, n) >= s.len() ==> line_start(s, n + 1) >= s.len(),
    decreases n,
{
    if n > 0 {
        lemma_line_start_mono(s, (n - 1) as nat);
        lemma_line_end_bounds(s, line_start(s, (n - 1) as nat));
    }
    lemma_line_end_bounds(s, line_start(s, n));
}

proof fn lemma_line_start_beyond(s: Seq<char>, m: nat, n: nat)
    requires
        m <= n,
        line_start(s, m) >= s.len(),
    ensures
        line_start(s, n) >= s.len(),
    decreases n - m,
{
    if m < n {
        lemma_line_start_mono(s, m);
        lemma_line_start_beyond(s, m + 1, n);
    }
}

/// Line `n` of `source` (`source.lines().nth(n)`), as characters.
pub fn nth_line_chars(cs: &Vec<char>, n: usize) -> (r: Option<Vec<char>>)
    ensures
        match r {
            Some(v) => nth_line(cs@, n as nat) == Some(v@),
            None => nth_line(cs@, n as nat) is None,
        },
{
    let ghost s = cs@;
    let mut idx: usize = 0;
    let mut st: usize = 0;
    let mut i: usize = 0;
    while i < cs.len()
        invariant
            s == cs@,
            idx <= n,
            st <= i <= s.len(),
            st as int == line_start(s, idx as nat),
            line_end(s, st as int) == line_end(s, i as int),
        decreases s.len() - i,
    {
        if cs[i] == '\n' {
            proof {
                lemma_line_end_bounds(s, st as int);
            }
            if idx == n {
                let mut e: usize = i;
                if e > st && cs[e - 1] == '\r' {
                    e = e - 1;
                }
                let v = slice_to_vec(cs.as_slice(), st, e);
                proof {
                    assert(line_end(s, st as int) == i);
                    if e < i {
                        assert(s.subrange(st as int, e as int) =~= s.subrange(st as int, i as int).drop_last());
                    }
                }
                return Some(v);
            }
            proof {
                assert(line_end(s, st as int) == i);
                assert(line_start(s, (idx + 1) as nat) == i + 1);
            }
            idx = idx + 1;
            st = i + 1;
        }
        i = i + 1;
    }
    proof {
        lemma_line_end_bounds(s, st as int);
    }
    if idx == n && st < cs.len() {
        let v = slice_to_vec(cs.as_slice(), st, cs.len());
        Some(v)
    } else {
        proof {
            if st < s.len() {
                assert(idx < n);
                assert(line_start(s, (idx + 1) as nat) == s.len() + 1);
                lemma_line_start_beyond(s, (idx + 1) as nat, n as nat);
            } else {
                lemma_line_start_beyond(s, idx as nat, n as nat);
            }
        }
        None
    }
}


/// ASCII letter, digit or `_`.
pub open spec fn is_word_char(c: char) -> bool {
    ('a' <= c && c <= 'z') || ('A' <= c && c <= 'Z') || ('0' <= c && c <= '9') || c == '_'
}

fn is_word_char_exec(c: char) -> (r: bool)
    ensures
        r == is_word_char(c),
{
    ('a' <= c && c <= 'z') || ('A' <= c && c <= 'Z') || ('0' <= c && c <= '9') || c == '_'
}

/// Index of the character of `t` that holds byte column `col` (the last
/// character when `col` is the line's byte length).
pub open spec fn pick_from(t: Seq<char>, col: nat, i: int) -> int
    decreases t.len() - i,
{
    if 0 <= i && i + 1 < t.len() && utf8_len(t.take(i + 1)) <= col {
        pick_from(t, col, i + 1)
    } else {
        i
    }
}

/// Leftmost start reached from `i` by stepping over word characters.
pub open spec fn extend_left(t: Seq<char>, i: int) -> int
    decreases i,
{
    if 0 < i <= t.len() && is_word_char(t[i - 1]) {
        extend_left(t, i - 1)
    } else {
        i
    }
}

/// Rightmost end reached from `e` by stepping over word characters.
pub open spec fn extend_right(t: Seq<char>, e: int) -> int
    decreases t.len() - e,
{
    if 0 <= e && e + 1 < t.len() && is_word_char(t[e + 1]) {
        extend_right(t, e + 1)
    } else {
        e
    }
}

/// The word around byte column `col` of line `t`.
pub open spec fn word_in_line(t: Seq<char>, col: nat) -> Option<Seq<char>> {
    if col > utf8_len(t) || t.len() == 0 {
        None
    } else {
        let i = pick_from(t, col, 0);
        let a = extend_left(t, i);
        let b = extend_right(t, i);
        if is_word_char(t[a]) {
            Some(t.subrange(a, b + 1))
        } else {
            None
        }
    }
}

/// The identifier-like word at 0-based `line` and byte column `character`.
pub open spec fn spec_word_at(s: Seq<char>, line: u32, character: u32) -> Option<Seq<char>> {
    match nth_line(s, line as nat) {
        Some(t) => word_in_line(t, character as nat),
        None => None,
    }
}

proof fn lemma_utf8_len_subrange(s: Seq<char>, a: int, b: int)
    requires
        0 <= a <= b <= s.len(),
    ensures
        utf8_len(s.subrange(a, b)) <= utf8_len(s),
{
    assert(s =~= s.take(a) + (s.subrange(a, b) + s.skip(b)));
    lemma_utf8_len_concat(s.take(a), s.subrange(a, b) + s.skip(b));
    lemma_utf8_len_concat(s.subrange(a, b), s.skip(b));
}

proof fn lemma_nth_line_len(s: Seq<char>, n: nat)
    requires
        nth_line(s, n) is Some,
    ensures
        utf8_len(nth_line(s, n)->0) <= utf8_len(s),
{
    let st = line_start(s, n);
    lemma_line_end_bounds(s, st);
    let e = line_end(s, st);
    let piece = s.subrange(st, e);
    lemma_utf8_len_subrange(s, st, e);
    if e < s.len() && piece.len() > 0 && piece[piece.len() - 1] == '\r' {
        assert(piece =~= piece.drop_last() + seq![piece[piece.len() - 1]]);
        lemma_utf8_len_concat(piece.drop_last(), seq![piece[piece.len() - 1]]);
    }
}

proof fn lemma_pick_bounds(t: Seq<char>, col: nat, i: int)
    requires
        0 <= i < t.len(),
    ensures
        i <= pick_from(t, col, i) < t.len(),
    decreases t.len() - i,
{
    if i + 1 < t.len() && utf8_len(t.take(i + 1)) <= col {
        lemma_pick_bounds(t, col, i + 1);
    }
}

proof fn lemma_extend_left_bounds(t: Seq<char>, i: int)
    requires
        0 <= i <= t.len(),
    ensures
        0 <= extend_left(t, i) <= i,
    decreases i,
{
    if 0 < i && is_word_char(t[i - 1]) {
        lemma_extend_left_bounds(t, i - 1);
    }
}

proof fn lemma_extend_right_bounds(t: Seq<char>, e: int)
    requires
        0 <= e < t.len(),
    ensures
        e <= extend_right(t, e) < t.len(),
    decreases t.len() - e,
{
    if e + 1 < t.len() && is_word_char(t[e + 1]) {
        lemma_extend_right_bounds(t, e + 1);
    }
}

/// The word under the cursor: the run of ASCII letters, digits and `_`
/// around byte column `character` of line `line` (both 0-based).
pub fn word_at(source: &str, line: u32, character: u32) -> (r: Option<String>)
    ensures
        match r {
            Some(w) => spec_word_at(source@, line, character) == Some(w@),
            None => spec_word_at(source@, line, character) is None,
        },
{
    let cs = chars_of(source);
    let total = source.as_bytes().len();
    proof {
        lemma_utf8_len_encode(source@);
    }
    let t = match nth_line_chars(&cs, line as usize) {
        Some(t) => t,
        None => {
            return None;
        },
    };
    let ghost tv = t@;
    proof {
        lemma_nth_line_len(source@, line as nat);
    }
    let col = character as usize;
    if t.len() == 0 {
        return None;
    }
    // byte length of the line
    let mut tb: usize = 0;
    let mut k: usize = 0;
    while k < t.len()
        invariant
            tv == t@,
            k <= tv.len(),
            tb == utf8_len(tv.take(k as int)),
            utf8_len(tv) <= total,
        decreases tv.len() - k,
    {
        proof {
            lemma_utf8_len_take(tv, k as int);
            lemma_utf8_len_take_le(tv, k as int + 1);
        }
        tb = tb + char_width_exec(t[k]);
        k = k + 1;
    }
    proof {
        assert(tv.take(tv.len() as int) =~= tv);
    }
    if col > tb {
        return None;
    }
    let mut i: usize = 0;
    proof {
        lemma_utf8_len_take(tv, 0);
        assert(tv.take(0) =~= Seq::<char>::empty());
        lemma_utf8_len_take_le(tv, 1);
    }
    let mut bnext: usize = char_width_exec(t[0]);
    while i < t.len() - 1 && bnext <= col
        invariant
            tv == t@,
            i < tv.len(),
            utf8_len(tv) <= usize::MAX,
            bnext == utf8_len(tv.take(i + 1)),
            bnext <= utf8_len(tv),
            pick_from(tv, col as nat, 0) == pick_from(tv, col as nat, i as int),
        decreases tv.len() - i,
    {
        i = i + 1;
        proof {
            lemma_utf8_len_take(tv, i as int);
            lemma_utf8_len_take_le(tv, i as int + 1);
        }
        bnext = bnext + char_width_exec(t[i]);
    }
    let mut a: usize = i;
    while a > 0 && is_word_char_exec(t[a - 1])
        invariant
            tv == t@,
            a <= i < tv.len(),
            extend_left(tv, i as int) == extend_left(tv, a as int),
        decreases a,
    {
        a = a - 1;
    }
    let mut b: usize = i;
    while b < t.len() - 1 && is_word_char_exec(t[b + 1])
        invariant
            tv == t@,
            i <= b < tv.len(),
            extend_right(tv, i as int) == extend_right(tv, b as int),
        decreases tv.len() - b,
    {
        b = b + 1;
    }
    if !is_word_char_exec(t[a]) {
        return None;
    }
    let w = slice_to_vec(t.as_slice(), a, b + 1);
    Some(string_of(w.as_slice()))
}


/// Kind of a document symbol.
#[derive(Debug, Clone, Copy, PartialEq, Eq, Structural)]
pub enum SymbolKind {
    Function,
    Parameter,
    Variable,
    Constant,
    Struct,
    Enum,
    Field,
    Method,
    Extern,
    Module,
    Keyword,
}

/// A named thing in a document, with where it is and what to show for it.
#[derive(Debug)]
pub struct Symbol {
    pub name: String,
    pub kind: SymbolKind,
    pub span: Span,
    pub detail: Option<String>,
    pub renameable: bool,
}

fn clone_opt_string(o: &Option<String>) -> (r: Option<String>)
    ensures
        r == *o,
{
    match o {
        Some(x) => Some(x.clone()),
        None => None,
    }
}

impl Clone for Symbol {
    fn clone(&self) -> (r: Self)
        ensures
            r == *self,
    {
        Symbol {
            name: self.name.clone(),
            kind: self.kind,
            span: self.span.clone(),
            detail: clone_opt_string(&self.detail),
            renameable: self.renameable,
        }
    }
}

/// Symbols, parse / type-check status and inlay hints of one document.
#[derive(Debug)]
pub struct DocumentAnalysis {
    pub symbols: Vec<Symbol>,
    pub parse_ok: bool,
    pub typecheck_ok: bool,
    pub inlay_hints: Vec<InlayHintInfo>,
}

/// The language's keywords, in the order completion lists them.
pub open spec fn spec_keywords() -> Seq<Seq<char>> {
    seq![
        "fn"@, "let"@, "mut"@, "const"@, "if"@, "else"@, "while"@, "for"@, "return"@,
        "struct"@, "enum"@, "match"@, "impl"@, "import"@, "module"@, "extern"@, "export"@,
        "spawn"@, "print"@, "in"@, "trait"@, "async"@, "await"@, "defer"@, "unsafe"@, "asm"@,
        "test"@, "no_std"@, "true"@, "false"@, "void"@,
    ]
}

/// The keyword list.
pub fn keywords() -> (r: Vec<&'static str>)
    ensures
        r@.len() == spec_keywords().len(),
        forall|i: int| 0 <= i < r@.len() ==> r@[i]@ == spec_keywords()[i],
{
    let r = vec![
        "fn", "let", "mut", "const", "if", "else", "while", "for", "return", "struct", "enum",
        "match", "impl", "import", "module", "extern", "export", "spawn", "print", "in",
        "trait", "async", "await", "defer", "unsafe", "asm", "test", "no_std", "true", "false",
        "void",
    ];
    r
}

/// Is `sym` the keyword symbol for `kw`?
pub open spec fn is_keyword_symbol(sym: Symbol, kw: Seq<char>) -> bool {
    &&& sym.name@ == kw
    &&& sym.kind == SymbolKind::Keyword
    &&& sym.span.is_default()
    &&& sym.detail matches Some(d) && d@ == "keyword"@
    &&& !sym.renameable
}

/// One keyword symbol per keyword, in keyword order.
pub fn keyword_symbols() -> (r: Vec<Symbol>)
    ensures
        r@.len() == spec_keywords().len(),
        forall|i: int| 0 <= i < r@.len() ==> is_keyword_symbol(#[trigger] r@[i], spec_keywords()[i]),
{
    let kws = keywords();
    let mut out: Vec<Symbol> = Vec::new();
    let mut i: usize = 0;
    while i < kws.len()
        invariant
            i <= kws@.len(),
            kws@.len() == spec_keywords().len(),
            forall|j: int| 0 <= j < kws@.len() ==> kws@[j]@ == spec_keywords()[j],
            out@.len() == i,
            forall|j: int| 0 <= j < i ==> is_keyword_symbol(#[trigger] out@[j], spec_keywords()[j]),
        decreases kws@.len() - i,
    {
        let sym = Symbol {
            name: String::from_str(kws[i]),
            kind: SymbolKind::Keyword,
            span: Span::none(),
            detail: Some(String::from_str("keyword")),
            renameable: false,
        };
        out.push(sym);
        i = i + 1;
    }
    out
}

/// Is the 1-based (`line`, `column`) inside `span`? A span at line 0 is no location.
pub open spec fn in_span(line: int, column: int, span: Span) -> bool {
    &&& !(span.start.line == 0 && span.end.line == 0)
    &&& span.start.line <= line <= span.end.line
    &&& !(line == span.start.line && column < span.start.column)
    &&& !(line == span.end.line && column > span.end.column)
}

/// Is the 1-based (`line`, `column`) inside `span`?
pub fn position_in_span(line: usize, column: usize, span: &Span) -> (r: bool)
    ensures
        r == in_span(line as int, column as int, *span),
{
    if span.start.line == 0 && span.end.line == 0 {
        return false;
    }
    let start = span.start;
    let end = span.end;
    if line < start.line || line > end.line {
        return false;
    }
    if line == start.line && column < start.column {
        return false;
    }
    if line == end.line && column > end.column {
        return false;
    }
    true
}

/// `position_in_span` for a 0-based position given as `u32`s.
fn position_in_span_0(line: u32, character: u32, span: &Span) -> (r: bool)
    ensures
        r == in_span(line + 1, character + 1, *span),
{
    let l: u64 = line as u64 + 1;
    let c: u64 = character as u64 + 1;
    let sl: u64 = span.start.line as u64;
    let sc: u64 = span.start.column as u64;
    let el: u64 = span.end.line as u64;
    let ec: u64 = span.end.column as u64;
    if sl == 0 && el == 0 {
        return false;
    }
    if l < sl || l > el {
        return false;
    }
    if l == sl && c < sc {
        return false;
    }
    if l == el && c > ec {
        return false;
    }
    true
}

/// Is `s` a non-keyword symbol whose span holds the 0-based position?
pub open spec fn covers(s: Symbol, line: u32, character: u32) -> bool {
    s.kind != SymbolKind::Keyword && in_span(line + 1, character + 1, s.span)
}

/// Index of the first non-keyword symbol whose span holds the position.
pub open spec fn first_covering(syms: Seq<Symbol>, line: u32, character: u32, i: int) -> Option<int>
    decreases syms.len() - i,
{
    if i < 0 || i >= syms.len() {
        None
    } else if covers(syms[i], line, character) {
        Some(i)
    } else {
        first_covering(syms, line, character, i + 1)
    }
}

/// Hover priority of a symbol kind when several share the word.
pub open spec fn kind_priority(k: SymbolKind) -> int {
    match k {
        SymbolKind::Function | SymbolKind::Variable | SymbolKind::Parameter => 3,
        SymbolKind::Struct | SymbolKind::Enum => 2,
        _ => 1,
    }
}

fn kind_priority_exec(k: SymbolKind) -> (r: u8)
    ensures
        r == kind_priority(k),
{
    match k {
        SymbolKind::Function | SymbolKind::Variable | SymbolKind::Parameter => 3,
        SymbolKind::Struct | SymbolKind::Enum => 2,
        _ => 1,
    }
}

/// Is `s` a non-keyword symbol named `w`?
pub open spec fn named(s: Symbol, w: Seq<char>) -> bool {
    s.kind != SymbolKind::Keyword && s.name@ == w
}

/// Among the first `n` symbols named `w`, the last one of highest priority.
pub open spec fn best_named(syms: Seq<Symbol>, w: Seq<char>, n: int) -> Option<int>
    decreases n,
{
    if n <= 0 || n > syms.len() {
        None
    } else {
        let prev = best_named(syms, w, n - 1);
        if named(syms[n - 1], w) {
            match prev {
                Some(p) => if kind_priority(syms[n - 1].kind) >= kind_priority(syms[p].kind) {
                    Some(n - 1)
                } else {
                    prev
                },
                None => Some(n - 1),
            }
        } else {
            prev
        }
    }
}

/// The symbol that hover and go-to-definition use at a position: the first one
/// whose span holds it, else the best one named like the word there.
pub open spec fn spec_symbol_at_position(syms: Seq<Symbol>, source: Seq<char>, line: u32, character: u32) -> Option<int> {
    match first_covering(syms, line, character, 0) {
        Some(i) => Some(i),
        None => match spec_word_at(source, line, character) {
            Some(w) => best_named(syms, w, syms.len() as int),
            None => None,
        },
    }
}

impl DocumentAnalysis {
    /// The analysis of a document that did not parse: keywords only.
    pub fn keywords_only() -> (r: Self)
        ensures
            !r.parse_ok,
            !r.typecheck_ok,
            r.inlay_hints@.len() == 0,
            r.symbols@.len() == spec_keywords().len(),
            forall|i: int| 0 <= i < r.symbols@.len() ==> is_keyword_symbol(#[trigger] r.symbols@[i], spec_keywords()[i]),
    {
        DocumentAnalysis {
            symbols: keyword_symbols(),
            parse_ok: false,
            typecheck_ok: false,
            inlay_hints: Vec::new(),
        }
    }

    /// The first non-keyword symbol whose span holds the 0-based position.
    pub fn symbol_at(&self, line: u32, character: u32) -> (r: Option<&Symbol>)
        ensures
            match first_covering(self.symbols@, line, character, 0) {
                Some(i) => r == Some(&self.symbols@[i]),
                None => r is None,
            },
    {
        let mut i: usize = 0;
        while i < self.symbols.len()
            invariant
                i <= self.symbols@.len(),
                first_covering(self.symbols@, line, character, 0) == first_covering(self.symbols@, line, character, i as int),
            decreases self.symbols@.len() - i,
        {
            let s = &self.symbols[i];
            if s.kind != SymbolKind::Keyword && position_in_span_0(line, character, &s.span) {
                return Some(s);
            }
            i = i + 1;
        }
        None
    }

    /// The symbol under the cursor: by span, else by the word there.
    pub fn symbol_at_position(&self, source: &str, line: u32, character: u32) -> (r: Option<&Symbol>)
        ensures
            match spec_symbol_at_position(self.symbols@, source@, line, character) {
                Some(i) => r == Some(&self.symbols@[i]),
                None => r is None,
            },
    {
        if let Some(sym) = self.symbol_at(line, character) {
            return Some(sym);
        }
        let word = match word_at(source, line, character) {
            Some(w) => w,
            None => {
                return None;
            },
        };
        let mut best: Option<usize> = None;
        let mut i: usize = 0;
        while i < self.symbols.len()
            invariant
                i <= self.symbols@.len(),
                match best {
                    Some(b) => best_named(self.symbols@, word@, i as int) == Some(b as int) && b < i,
                    None => best_named(self.symbols@, word@, i as int) is None,
                },
            decreases self.symbols@.len() - i,
        {
            let s = &self.symbols[i];
            if s.kind != SymbolKind::Keyword && str_eq(s.name.as_str(), word.as_str()) {
                match best {
                    Some(b) => {
                        if kind_priority_exec(s.kind) >= kind_priority_exec(self.symbols[b].kind) {
                            best = Some(i);
                        }
                    },
                    None => {
                        best = Some(i);
                    },
                }
            }
            i = i + 1;
        }
        match best {
            Some(b) => Some(&self.symbols[b]),
            None => None,
        }
    }

    /// Spans of every symbol with `symbol`'s name and kind, when it may be renamed.
    pub open spec fn spec_rename_ranges(&self, symbol: &Symbol) -> Seq<Span> {
        if symbol.renameable {
            self.symbols@.filter_map(|s: Symbol| if s.name@ == symbol.name@ && s.kind == symbol.kind {
                Some(s.span)
            } else {
                None
            })
        } else {
            Seq::<Span>::empty()
        }
    }

    /// Spans of every symbol with `symbol`'s name and kind, when it may be renamed.
    pub fn rename_ranges(&self, symbol: &Symbol) -> (r: Vec<Span>)
        ensures
            r@ == self.spec_rename_ranges(symbol),
    {
        let mut out: Vec<Span> = Vec::new();
        if !symbol.renameable {
            return out;
        }
        let ghost f = |s: Symbol| if s.name@ == symbol.name@ && s.kind == symbol.kind {
            Some(s.span)
        } else {
            None
        };
        let mut i: usize = 0;
        while i < self.symbols.len()
            invariant
                i <= self.symbols@.len(),
                out@ == self.symbols@.take(i as int).filter_map(f),
                f == (|s: Symbol| if s.name@ == symbol.name@ && s.kind == symbol.kind {
                    Some(s.span)
                } else {
                    None
                }),
            decreases self.symbols@.len() - i,
        {
            let s = &self.symbols[i];
            proof {
                assert(self.symbols@.take(i + 1).drop_last() =~= self.symbols@.take(i as int));
            }
            if str_eq(s.name.as_str(), symbol.name.as_str()) && s.kind == symbol.kind {
                out.push(s.span.clone());
            }
            i = i + 1;
        }
        proof {
            assert(self.symbols@.take(self.symbols@.len() as int) =~= self.symbols@);
        }
        out
    }
}


/// `name: type` for each pair.
pub open spec fn typed_entries(names: Seq<Seq<char>>, tys: Seq<Seq<char>>) -> Seq<Seq<char>> {
    Seq::new(names.len(), |i: int| names[i] + ": "@ + tys[i])
}

fn typed_entries_exec(names: Vec<&str>, tys: &[String]) -> (r: Vec<String>)
    requires
        names@.len() == tys@.len(),
    ensures
        texts(r@) == typed_entries(names@.map_values(|n: &str| n@), texts(tys@)),
{
    let mut out: Vec<String> = Vec::new();
    let mut i: usize = 0;
    while i < names.len()
        invariant
            names@.len() == tys@.len(),
            i <= names@.len(),
            out@.len() == i,
            forall|j: int| 0 <= j < i ==> (#[trigger] out@[j])@ == names@[j]@ + ": "@ + tys@[j]@,
        decreases names@.len() - i,
    {
        let e = String::from_str(names[i]).concat(": ").concat(tys[i].as_str());
        out.push(e);
        i = i + 1;
    }
    assert(texts(out@) =~= typed_entries(names@.map_values(|n: &str| n@), texts(tys@)));
    out
}

/// Detail text of a function signature: `fn(a: T, b: U) -> R` (`void` without a return type),
/// given each parameter's type as text.
pub open spec fn spec_fn_sig_detail(names: Seq<Seq<char>>, tys: Seq<Seq<char>>, ret: Option<Seq<char>>) -> Seq<char> {
    "fn("@ + join(typed_entries(names, tys), ", "@) + ") -> "@ + match ret {
        Some(r) => r,
        None => "void"@,
    }
}

/// Names of parameters.
pub open spec fn param_names_of(params: Seq<Param>) -> Seq<Seq<char>> {
    params.map_values(|p: Param| p.name@)
}

pub fn fn_sig_detail(params: &[Param], type_texts: &[String], ret: Option<&str>) -> (r: String)
    requires
        params@.len() == type_texts@.len(),
    ensures
        r@ == spec_fn_sig_detail(param_names_of(params@), texts(type_texts@), match ret {
            Some(t) => Some(t@),
            None => None,
        }),
{
    let mut names: Vec<&str> = Vec::new();
    let mut i: usize = 0;
    while i < params.len()
        invariant
            i <= params@.len(),
            names@.len() == i,
            forall|j: int| 0 <= j < i ==> (#[trigger] names@[j])@ == params@[j].name@,
        decreases params@.len() - i,
    {
        names.push(params[i].name.as_str());
        i = i + 1;
    }
    assert(names@.map_values(|n: &str| n@) =~= param_names_of(params@));
    let entries = typed_entries_exec(names, type_texts);
    let ret_s = match ret {
        Some(t) => t,
        None => "void",
    };
    String::from_str("fn(").concat(join_exec(entries.as_slice(), ", ").as_str()).concat(") -> ").concat(ret_s)
}

/// Detail text of a struct: `struct S { a: T, b: U }`, given each field's type as text.
pub open spec fn spec_struct_detail(name: Seq<char>, fields: Seq<Seq<char>>, tys: Seq<Seq<char>>) -> Seq<char> {
    "struct "@ + name + " { "@ + join(typed_entries(fields, tys), ", "@) + " }"@
}

pub fn struct_detail(s: &StructDef, field_types: &[String]) -> (r: String)
    requires
        s.fields@.len() == field_types@.len(),
    ensures
        r@ == spec_struct_detail(s.name@, s.fields@.map_values(|f: crate::ast::StructField| f.name@), texts(field_types@)),
{
    let mut names: Vec<&str> = Vec::new();
    let mut i: usize = 0;
    while i < s.fields.len()
        invariant
            i <= s.fields@.len(),
            names@.len() == i,
            forall|j: int| 0 <= j < i ==> (#[trigger] names@[j])@ == s.fields@[j].name@,
        decreases s.fields@.len() - i,
    {
        names.push(s.fields[i].name.as_str());
        i = i + 1;
    }
    assert(names@.map_values(|n: &str| n@) =~= s.fields@.map_values(|f: crate::ast::StructField| f.name@));
    let entries = typed_entries_exec(names, field_types);
    String::from_str("struct ").concat(s.name.as_str()).concat(" { ").concat(join_exec(entries.as_slice(), ", ").as_str()).concat(" }")
}

/// One variant in an enum's detail text: the name, then its field types in brackets.
pub open spec fn variant_text(name: Seq<char>, tys: Seq<Seq<char>>) -> Seq<char> {
    if tys.len() == 0 {
        name
    } else {
        name + "("@ + join(tys, ", "@) + ")"@
    }
}

/// Detail text of an enum: `enum E { A, B(T, U) }`, given each variant's field types as text.
pub open spec fn spec_enum_detail(name: Seq<char>, variants: Seq<Seq<char>>, tys: Seq<Seq<Seq<char>>>) -> Seq<char> {
    "enum "@ + name + " { "@ + join(Seq::new(variants.len(), |i: int| variant_text(variants[i], tys[i])), ", "@) + " }"@
}

pub fn enum_detail(e: &EnumDef, field_types: &[Vec<String>]) -> (r: String)
    requires
        e.variants@.len() == field_types@.len(),
        forall|i: int| 0 <= i < e.variants@.len() ==> (#[trigger] e.variants@[i]).fields@.len() == field_types@[i]@.len(),
    ensures
        r@ == spec_enum_detail(
            e.name@,
            e.variants@.map_values(|v: crate::ast::EnumVariantDef| v.name@),
            field_types@.map_values(|v: Vec<String>| texts(v@)),
        ),
{
    let mut parts: Vec<String> = Vec::new();
    let mut i: usize = 0;
    while i < e.variants.len()
        invariant
            e.variants@.len() == field_types@.len(),
            forall|k: int| 0 <= k < e.variants@.len() ==> (#[trigger] e.variants@[k]).fields@.len() == field_types@[k]@.len(),
            i <= e.variants@.len(),
            parts@.len() == i,
            forall|j: int| 0 <= j < i ==> (#[trigger] parts@[j])@ == variant_text(e.variants@[j].name@, texts(field_types@[j]@)),
        decreases e.variants@.len() - i,
    {
        let v = &e.variants[i];
        let p = if v.fields.len() == 0 {
            proof {
                assert(texts(field_types@[i as int]@).len() == 0);
            }
            v.name.clone()
        } else {
            v.name.clone().concat("(").concat(join_exec(field_types[i].as_slice(), ", ").as_str()).concat(")")
        };
        parts.push(p);
        i = i + 1;
    }
    let ghost vn = e.variants@.map_values(|v: crate::ast::EnumVariantDef| v.name@);
    let ghost ft = field_types@.map_values(|v: Vec<String>| texts(v@));
    assert(texts(parts@) =~= Seq::new(vn.len(), |k: int| variant_text(vn[k], ft[k])));
    String::from_str("enum ").concat(e.name.as_str()).concat(" { ").concat(join_exec(parts.as_slice(), ", ").as_str()).concat(" }")
}


/// How hover names a symbol kind.
pub open spec fn kind_text(k: SymbolKind) -> Seq<char> {
    match k {
        SymbolKind::Function => "function"@,
        SymbolKind::Parameter => "parameter"@,
        SymbolKind::Variable => "variable"@,
        SymbolKind::Constant => "constant"@,
        SymbolKind::Struct => "struct"@,
        SymbolKind::Enum => "enum"@,
        SymbolKind::Field => "field"@,
        SymbolKind::Method => "method"@,
        SymbolKind::Extern => "extern fn"@,
        SymbolKind::Module => "module"@,
        SymbolKind::Keyword => "keyword"@,
    }
}

fn kind_text_exec(k: SymbolKind) -> (r: &'static str)
    ensures
        r@ == kind_text(k),
{
    match k {
        SymbolKind::Function => "function",
        SymbolKind::Parameter => "parameter",
        SymbolKind::Variable => "variable",
        SymbolKind::Constant => "constant",
        SymbolKind::Struct => "struct",
        SymbolKind::Enum => "enum",
        SymbolKind::Field => "field",
        SymbolKind::Method => "method",
        SymbolKind::Extern => "extern fn",
        SymbolKind::Module => "module",
        SymbolKind::Keyword => "keyword",
    }
}

/// Does `v` end with `suf`?
pub open spec fn ends_with(v: Seq<char>, suf: Seq<char>) -> bool {
    v.len() >= suf.len() && v.subrange(v.len() - suf.len(), v.len() as int) == suf
}

fn ends_with_exec(v: &[char], suf: &[char]) -> (r: bool)
    ensures
        r == ends_with(v@, suf@),
{
    if v.len() < suf.len() {
        return false;
    }
    let tail = slice_to_vec(v, v.len() - suf.len(), v.len());
    crate::text::chars_eq(tail.as_slice(), suf)
}

/// Hover text for the compiler-generated JSON helpers of a struct.
pub open spec fn synthesized_hover(w: Seq<char>) -> Option<Seq<char>> {
    if ends_with(w, "_json_encode"@) {
        Some("**synthesized** `"@ + w + "`\n\nJSON encode for struct `"@ + w.take(w.len() - 12)
            + "` (compiler-generated when fields are `string` / `i32` / `bool` / nested structs)."@)
    } else if ends_with(w, "_json_decode"@) {
        Some("**synthesized** `"@ + w + "`\n\nJSON decode for struct `"@ + w.take(w.len() - 12)
            + "` (compiler-generated)."@)
    } else {
        None
    }
}

/// Hover text of a symbol: kind and name, then the detail in a code block.
pub open spec fn symbol_hover(sym: Symbol) -> Seq<char> {
    match sym.detail {
        Some(d) => "**"@ + kind_text(sym.kind) + "** `"@ + sym.name@ + "`\n\n```ny\n"@ + d@ + "\n```"@,
        None => "**"@ + kind_text(sym.kind) + "** `"@ + sym.name@ + "`"@,
    }
}

/// Hover text at a 0-based position.
pub open spec fn spec_hover(syms: Seq<Symbol>, source: Seq<char>, line: u32, character: u32) -> Option<Seq<char>> {
    let synth = match spec_word_at(source, line, character) {
        Some(w) => synthesized_hover(w),
        None => None,
    };
    if synth is Some {
        synth
    } else {
        match spec_symbol_at_position(syms, source, line, character) {
            Some(i) => Some(symbol_hover(syms[i])),
            None => None,
        }
    }
}

/// Markdown hover text at a 0-based position of an analysed document.
pub fn hover_at(analysis: &DocumentAnalysis, source: &str, line: u32, character: u32) -> (r: Option<String>)
    ensures
        match r {
            Some(h) => spec_hover(analysis.symbols@, source@, line, character) == Some(h@),
            None => spec_hover(analysis.symbols@, source@, line, character) is None,
        },
{
    proof {
        reveal_strlit("_json_encode");
        reveal_strlit("_json_decode");
    }
    if let Some(w) = word_at(source, line, character) {
        let wc = chars_of(w.as_str());
        let enc = chars_of("_json_encode");
        let dec = chars_of("_json_decode");
        if ends_with_exec(wc.as_slice(), enc.as_slice()) {
            let stem = string_of(slice_to_vec(wc.as_slice(), 0, wc.len() - 12).as_slice());
            proof {
                assert(stem@ =~= w@.take(w@.len() - 12));
            }
            return Some(String::from_str("**synthesized** `").concat(w.as_str()).concat(
                "`\n\nJSON encode for struct `",
            ).concat(stem.as_str()).concat(
                "` (compiler-generated when fields are `string` / `i32` / `bool` / nested structs).",
            ));
        }
        if ends_with_exec(wc.as_slice(), dec.as_slice()) {
            let stem = string_of(slice_to_vec(wc.as_slice(), 0, wc.len() - 12).as_slice());
            proof {
                assert(stem@ =~= w@.take(w@.len() - 12));
            }
            return Some(String::from_str("**synthesized** `").concat(w.as_str()).concat(
                "`\n\nJSON decode for struct `",
            ).concat(stem.as_str()).concat("` (compiler-generated)."));
        }
    }
    let sym = match analysis.symbol_at_position(source, line, character) {
        Some(s) => s,
        None => {
            return None;
        },
    };
    let kind = kind_text_exec(sym.kind);
    match &sym.detail {
        Some(detail) => Some(String::from_str("**").concat(kind).concat("** `").concat(sym.name.as_str()).concat(
            "`\n\n```ny\n",
        ).concat(detail.as_str()).concat("\n```")),
        None => Some(String::from_str("**").concat(kind).concat("** `").concat(sym.name.as_str()).concat("`")),
    }
}


/// ASCII letter, digit or `_`, as a byte.
pub open spec fn is_ident_byte(b: u8) -> bool {
    (0x61 <= b <= 0x7a) || (0x41 <= b <= 0x5a) || (0x30 <= b <= 0x39) || b == 0x5f
}

pub fn is_ident_char(b: u8) -> (r: bool)
    ensures
        r == is_ident_byte(b),
{
    (b >= 0x61 && b <= 0x7a) || (b >= 0x41 && b <= 0x5a) || (b >= 0x30 && b <= 0x39) || b == 0x5f
}

/// A valid identifier: an ASCII letter or `_`, then ASCII letters, digits or `_`.
pub open spec fn spec_valid_ident(s: Seq<char>) -> bool {
    &&& s.len() > 0
    &&& (('a' <= s[0] && s[0] <= 'z') || ('A' <= s[0] && s[0] <= 'Z') || s[0] == '_')
    &&& forall|i: int| 1 <= i < s.len() ==> is_word_char(#[trigger] s[i])
}

pub fn is_valid_ident(name: &str) -> (r: bool)
    ensures
        r == spec_valid_ident(name@),
{
    let cs = chars_of(name);
    if cs.len() == 0 {
        return false;
    }
    let first = cs[0];
    if !(('a' <= first && first <= 'z') || ('A' <= first && first <= 'Z') || first == '_') {
        return false;
    }
    let mut i: usize = 1;
    while i < cs.len()
        invariant
            cs@ == name@,
            1 <= i <= cs@.len(),
            forall|j: int| 1 <= j < i ==> is_word_char(#[trigger] cs@[j]),
        decreases cs@.len() - i,
    {
        if !is_word_char_exec(cs[i]) {
            return false;
        }
        i = i + 1;
    }
    true
}

/// Is the occurrence at `p` of length `n` a whole word of `t`?
pub open spec fn whole_word_at(t: Seq<char>, p: int, n: int) -> bool {
    (p == 0 || !is_word_char(t[p - 1])) && (p + n >= t.len() || !is_word_char(t[p + n]))
}

/// Start indices of the whole-word, non-overlapping occurrences of `name` in `t`
/// found scanning from `start`.
pub open spec fn word_hits(t: Seq<char>, name: Seq<char>, start: int) -> Seq<int>
    decreases t.len() + 1 - start,
{
    if name.len() == 0 || start < 0 {
        seq![]
    } else {
        match find_from(t, name, start) {
            Some(p) => {
                proof {
                    lemma_find_from_bounds(t, name, start);
                }
                let rest = word_hits(t, name, p + name.len());
                if whole_word_at(t, p, name.len() as int) {
                    seq![p].add(rest)
                } else {
                    rest
                }
            },
            None => seq![],
        }
    }
}

/// The span of an occurrence at character `p` of length `n` on 0-based line `k`
/// (columns count bytes, 1-based).
pub open spec fn hit_span(file: Seq<char>, t: Seq<char>, k: nat, p: int, n: int) -> (Seq<char>, Position, Position) {
    (
        file,
        Position { line: (k + 1) as usize, column: (utf8_len(t.take(p)) + 1) as usize },
        Position { line: (k + 1) as usize, column: (utf8_len(t.take(p + n)) + 1) as usize },
    )
}

/// Spans of the whole-word occurrences on line `k` (text `t`).
pub open spec fn line_hits(file: Seq<char>, t: Seq<char>, name: Seq<char>, k: nat) -> Seq<(Seq<char>, Position, Position)> {
    word_hits(t, name, 0).map_values(|p: int| hit_span(file, t, k, p, name.len() as int))
}

/// Spans of the whole-word occurrences on lines `k`, `k + 1`, ...
pub open spec fn hits_from_line(s: Seq<char>, file: Seq<char>, name: Seq<char>, k: nat) -> Seq<(Seq<char>, Position, Position)>
    decreases s.len() + 1 - k,
{
    if k > s.len() {
        seq![]
    } else {
        match nth_line(s, k) {
            Some(t) => line_hits(file, t, name, k) + hits_from_line(s, file, name, k + 1),
            None => seq![],
        }
    }
}

/// Spans as their file texts and positions.
pub open spec fn span_list(v: Seq<Span>) -> Seq<(Seq<char>, Position, Position)> {
    v.map_values(|sp: Span| span_parts(sp))
}

proof fn lemma_utf8_len_ge_len(s: Seq<char>)
    ensures
        utf8_len(s) >= s.len(),
    decreases s.len(),
{
    if s.len() > 0 {
        lemma_utf8_len_ge_len(s.drop_first());
    }
}

/// A span as its file text and two positions.
pub open spec fn span_parts(sp: Span) -> (Seq<char>, Position, Position) {
    (sp.file@, sp.start, sp.end)
}

proof fn lemma_line_exists_index(s: Seq<char>, k: nat)
    ensures
        line_start(s, k) < s.len() ==> line_start(s, k) >= k,
    decreases k,
{
    if k > 0 {
        lemma_line_exists_index(s, (k - 1) as nat);
        lemma_line_end_bounds(s, line_start(s, (k - 1) as nat));
        lemma_line_start_mono(s, (k - 1) as nat);
    }
}

fn utf8_prefix_len(t: &Vec<char>, p: usize, Ghost(bound): Ghost<nat>) -> (r: usize)
    requires
        p <= t@.len(),
        utf8_len(t@) <= bound,
        bound <= usize::MAX,
    ensures
        r == utf8_len(t@.take(p as int)),
{
    let mut b: usize = 0;
    let mut k: usize = 0;
    while k < p
        invariant
            p <= t@.len(),
            k <= p,
            b == utf8_len(t@.take(k as int)),
            utf8_len(t@) <= bound,
            bound <= usize::MAX,
        decreases p - k,
    {
        proof {
            lemma_utf8_len_take(t@, k as int);
            lemma_utf8_len_take_le(t@, k as int + 1);
        }
        b = b + char_width_exec(t[k]);
        k = k + 1;
    }
    b
}

/// Spans of every whole-word occurrence of `name` in `source`, line by line
/// (1-based lines, 1-based byte columns).
pub fn find_name_occurrences(source: &str, file: &str, name: &str) -> (r: Vec<Span>)
    requires
        vstd::utf8::encode_utf8(source@).len() < usize::MAX,
    ensures
        span_list(r@) == hits_from_line(source@, file@, name@, 0),
{
    let ghost s = source@;
    let ghost nm = name@;
    proof {
        lemma_utf8_len_encode(s);
        lemma_utf8_len_ge_len(s);
    }
    let mut out: Vec<Span> = Vec::new();
    let cs = chars_of(source);
    let pat = chars_of(name);
    if pat.len() == 0 {
        proof {
            reveal_with_fuel(hits_from_line, 2);
            if s.len() > 0 {
                assert(nth_line(s, 0) is Some);
                assert(line_hits(file@, nth_line(s, 0)->0, nm, 0) =~= seq![]);
                lemma_hits_empty_name(s, file@, nm, 0);
            }
        }
        assert(span_list(out@) =~= hits_from_line(s, file@, nm, 0));
        return out;
    }
    let mut k: usize = 0;
    loop
        invariant
            s == source@,
            cs@ == s,
            pat@ == nm,
            nm == name@,
            nm.len() > 0,
            k <= s.len(),
            s.len() <= utf8_len(s),
            utf8_len(s) < usize::MAX,
            span_list(out@) + hits_from_line(s, file@, nm, k as nat)
                == hits_from_line(s, file@, nm, 0),
        decreases s.len() + 1 - k,
    {
        let t = match nth_line_chars(&cs, k) {
            Some(t) => t,
            None => {
                assert(hits_from_line(s, file@, nm, k as nat) =~= seq![]);
                assert(span_list(out@) + hits_from_line(s, file@, nm, k as nat) =~= span_list(out@));
                return out;
            },
        };
        proof {
            lemma_nth_line_len(s, k as nat);
            lemma_line_exists_index(s, k as nat);
        }
        let ghost tv = t@;
        let ghost line_seq = line_hits(file@, tv, nm, k as nat);
        let ghost before = span_list(out@);
        let mut start: usize = 0;
        while start <= t.len()
            invariant_except_break
                start <= tv.len() + 1,
            invariant
                s == source@,
                tv == t@,
                pat@ == nm,
                nm.len() > 0,
                k < s.len(),
                s.len() <= utf8_len(s),
                utf8_len(tv) <= utf8_len(s),
                utf8_len(s) < usize::MAX,
                before + hits_from_line(s, file@, nm, k as nat) == hits_from_line(s, file@, nm, 0),
                hits_from_line(s, file@, nm, k as nat) == line_seq + hits_from_line(s, file@, nm, (k + 1) as nat),
                line_seq == line_hits(file@, tv, nm, k as nat),
                span_list(out@) + word_hits(tv, nm, start as int).map_values(
                    |p: int| hit_span(file@, tv, k as nat, p, nm.len() as int),
                ) == before + line_seq,
            ensures
                word_hits(tv, nm, start as int) =~= seq![],
            decreases tv.len() + 1 - start,
        {
            let found = crate::text::find_exec(t.as_slice(), pat.as_slice(), start);
            let p = match found {
                Some(p) => p,
                None => {
                    assert(word_hits(tv, nm, start as int) =~= seq![]);
                    break;
                },
            };
            proof {
                lemma_find_from_bounds(tv, nm, start as int);
            }
            let n = pat.len();
            let col_end = p + n;
            let before_ok = p == 0 || !is_word_char_exec(t[p - 1]);
            let after_ok = col_end >= t.len() || !is_word_char_exec(t[col_end]);
            let ghost old_out = span_list(out@);
            if before_ok && after_ok {
                let b0 = utf8_prefix_len(&t, p, Ghost(utf8_len(s)));
                let b1 = utf8_prefix_len(&t, col_end, Ghost(utf8_len(s)));
                proof {
                    lemma_utf8_len_take_le(tv, col_end as int);
                    lemma_utf8_len_take_le(tv, p as int);
                }
                let sp = Span {
                    file: String::from_str(file),
                    start: Position { line: k + 1, column: b0 + 1 },
                    end: Position { line: k + 1, column: b1 + 1 },
                };
                out.push(sp);
                proof {
                    assert(span_list(out@) =~= old_out.push(
                        hit_span(file@, tv, k as nat, p as int, nm.len() as int),
                    ));
                    let ws = word_hits(tv, nm, start as int);
                    assert(ws =~= seq![p as int].add(word_hits(tv, nm, (p + n) as int)));
                }
            } else {
                proof {
                    assert(span_list(out@) =~= old_out);
                }
            }
            start = col_end;
        }
        proof {
            assert(word_hits(tv, nm, start as int).map_values(
                |p: int| hit_span(file@, tv, k as nat, p, nm.len() as int),
            ) =~= seq![]);
            assert(span_list(out@) + seq![] =~= span_list(out@));
        }
        k = k + 1;
    }
}

proof fn lemma_hits_empty_name(s: Seq<char>, file: Seq<char>, name: Seq<char>, k: nat)
    requires
        name.len() == 0,
    ensures
        hits_from_line(s, file, name, k) =~= seq![],
    decreases s.len() + 1 - k,
{
    if k <= s.len() {
        lemma_hits_empty_name(s, file, name, k + 1);
        if nth_line(s, k) is Some {
            assert(line_hits(file, nth_line(s, k)->0, name, k) =~= seq![]);
        }
    }
}


/// `str::to_lowercase` of a text (full Unicode lower-casing).
pub uninterp spec fn lowercase(s: Seq<char>) -> Seq<char>;

/// Lower-cases `s` (`str::to_lowercase`).
#[verifier::external_body]
fn to_lower(s: &str) -> (r: String)
    ensures
        r@ == lowercase(s@),
{
    s.to_lowercase()
}

/// Does `s` start with `p`?
pub open spec fn starts_with(s: Seq<char>, p: Seq<char>) -> bool {
    s.len() >= p.len() && s.take(p.len() as int) == p
}

pub fn starts_with_exec(s: &[char], p: &[char]) -> (r: bool)
    ensures
        r == starts_with(s@, p@),
{
    if s.len() < p.len() {
        return false;
    }
    let head = slice_to_vec(s, 0, p.len());
    proof {
        assert(s@.subrange(0, p@.len() as int) =~= s@.take(p@.len() as int));
    }
    crate::text::chars_eq(head.as_slice(), p)
}

/// Byte-wise (code point) lexicographic order of texts, as `String`'s `Ord`.
pub open spec fn lex_lt(a: Seq<char>, b: Seq<char>) -> bool
    decreases a.len(),
{
    if a.len() == 0 {
        b.len() > 0
    } else if b.len() == 0 {
        false
    } else if a[0] != b[0] {
        (a[0] as u32) < (b[0] as u32)
    } else {
        lex_lt(a.drop_first(), b.drop_first())
    }
}

pub proof fn lemma_lex_total(a: Seq<char>, b: Seq<char>)
    ensures
        lex_lt(a, b) || lex_lt(b, a) || a == b,
        !(lex_lt(a, b) && lex_lt(b, a)),
        !lex_lt(a, a),
    decreases a.len(),
{
    lemma_lex_irrefl(a);
    if a.len() > 0 && b.len() > 0 {
        lemma_lex_total(a.drop_first(), b.drop_first());
        if a[0] == b[0] && a.drop_first() == b.drop_first() {
            assert(a =~= seq![a[0]] + a.drop_first());
            assert(b =~= seq![b[0]] + b.drop_first());
        }
        vstd::utf8::char_u32_cast(a[0], a[0] as u32);
        vstd::utf8::char_u32_cast(b[0], b[0] as u32);
    } else if a.len() == 0 && b.len() == 0 {
        assert(a =~= b);
    }
}

pub proof fn lemma_lex_irrefl(a: Seq<char>)
    ensures
        !lex_lt(a, a),
    decreases a.len(),
{
    if a.len() > 0 {
        lemma_lex_irrefl(a.drop_first());
    }
}

pub proof fn lemma_lex_trans(a: Seq<char>, b: Seq<char>, c: Seq<char>)
    requires
        lex_lt(a, b),
        lex_lt(b, c),
    ensures
        lex_lt(a, c),
    decreases a.len(),
{
    if a.len() > 0 && b.len() > 0 && c.len() > 0 {
        vstd::utf8::char_u32_cast(a[0], a[0] as u32);
        vstd::utf8::char_u32_cast(b[0], b[0] as u32);
        vstd::utf8::char_u32_cast(c[0], c[0] as u32);
        if a[0] == b[0] && b[0] == c[0] {
            lemma_lex_trans(a.drop_first(), b.drop_first(), c.drop_first());
        }
    }
}

pub fn lex_lt_exec(a: &[char], b: &[char]) -> (r: bool)
    ensures
        r == lex_lt(a@, b@),
{
    let mut i: usize = 0;
    proof {
        assert(a@.skip(0) =~= a@);
        assert(b@.skip(0) =~= b@);
    }
    while i < a.len() && i < b.len()
        invariant
            i <= a@.len(),
            i <= b@.len(),
            lex_lt(a@, b@) == lex_lt(a@.skip(i as int), b@.skip(i as int)),
        decreases a@.len() - i,
    {
        if a[i] != b[i] {
            return (a[i] as u32) < (b[i] as u32);
        }
        proof {
            assert(a@.skip(i as int).drop_first() =~= a@.skip(i + 1));
            assert(b@.skip(i as int).drop_first() =~= b@.skip(i + 1));
        }
        i = i + 1;
    }
    i == a.len() && i < b.len()
}

/// Does symbol `sym` complete `prefix` (case-insensitively)?
pub open spec fn completes(sym: Symbol, prefix: Seq<char>) -> bool {
    starts_with(lowercase(sym.name@), lowercase(prefix))
}

/// Strictly increasing in `lex_lt`: sorted and without repeats.
pub open spec fn strictly_sorted(v: Seq<Seq<char>>) -> bool {
    forall|i: int, j: int| 0 <= i < j < v.len() ==> lex_lt(#[trigger] v[i], #[trigger] v[j])
}

/// Insert `x` into the strictly sorted `v` unless it is there already.
fn insert_sorted(v: &mut Vec<String>, x: String)
    requires
        strictly_sorted(texts(old(v)@)),
    ensures
        strictly_sorted(texts(final(v)@)),
        forall|t: Seq<char>| texts(final(v)@).contains(t) <==> (texts(old(v)@).contains(t) || t == x@),
{
    let xc = chars_of(x.as_str());
    let mut j: usize = 0;
    while j < v.len()
        invariant
            v@ == old(v)@,
            xc@ == x@,
            j <= v@.len(),
            strictly_sorted(texts(v@)),
            forall|k: int| 0 <= k < j ==> lex_lt(#[trigger] texts(v@)[k], x@),
        ensures
            j < v@.len() ==> !lex_lt(texts(v@)[j as int], x@),
        decreases v@.len() - j,
    {
        let vc = chars_of(v[j].as_str());
        if !lex_lt_exec(vc.as_slice(), xc.as_slice()) {
            break;
        }
        j = j + 1;
    }
    let ghost tv = texts(v@);
    if j < v.len() {
        let vc = chars_of(v[j].as_str());
        if crate::text::chars_eq(vc.as_slice(), xc.as_slice()) {
            proof {
                assert(tv[j as int] == x@);
                assert forall|t: Seq<char>| texts(v@).contains(t) <==> (tv.contains(t) || t == x@) by {
                    if t == x@ {
                        assert(tv[j as int] == t);
                    }
                }
            }
            return;
        }
        proof {
            lemma_lex_total(tv[j as int], x@);
        }
    }
    v.insert(j, x);
    proof {
        let nv = texts(v@);
        assert(nv =~= tv.insert(j as int, x@));
        assert forall|a: int, b: int| 0 <= a < b < nv.len() implies lex_lt(#[trigger] nv[a], #[trigger] nv[b]) by {
            if b > j {
                if b - 1 > j {
                    lemma_lex_trans(x@, tv[j as int], tv[b - 1]);
                }
                assert(lex_lt(x@, tv[b - 1]));
            }
            if a < j && b > j {
                lemma_lex_trans(tv[a], x@, tv[b - 1]);
            }
        }
        assert forall|t: Seq<char>| nv.contains(t) <==> (tv.contains(t) || t == x@) by {
            if nv.contains(t) {
                let k = choose|k: int| 0 <= k < nv.len() && nv[k] == t;
                if k < j {
                    assert(tv[k] == t);
                } else if k > j {
                    assert(tv[k - 1] == t);
                }
            }
            if tv.contains(t) {
                let k = choose|k: int| 0 <= k < tv.len() && tv[k] == t;
                if k < j {
                    assert(nv[k] == t);
                } else {
                    assert(nv[k + 1] == t);
                }
            }
            if t == x@ {
                assert(nv[j as int] == t);
            }
        }
    }
}

impl DocumentAnalysis {
    /// Names of symbols that start with `prefix` ignoring case, sorted and
    /// without repeats.
    pub fn completions(&self, prefix: &str) -> (r: Vec<String>)
        ensures
            strictly_sorted(texts(r@)),
            forall|t: Seq<char>| texts(r@).contains(t) <==> exists|i: int|
                0 <= i < self.symbols@.len() && #[trigger] self.symbols@[i].name@ == t
                    && completes(self.symbols@[i], prefix@),
    {
        let pfx = to_lower(prefix);
        let pc = chars_of(pfx.as_str());
        let mut out: Vec<String> = Vec::new();
        let mut i: usize = 0;
        while i < self.symbols.len()
            invariant
                i <= self.symbols@.len(),
                pc@ == lowercase(prefix@),
                strictly_sorted(texts(out@)),
                forall|t: Seq<char>| texts(out@).contains(t) <==> exists|k: int|
                    0 <= k < i && #[trigger] self.symbols@[k].name@ == t
                        && completes(self.symbols@[k], prefix@),
            decreases self.symbols@.len() - i,
        {
            let s = &self.symbols[i];
            let lc = chars_of(to_lower(s.name.as_str()).as_str());
            let ghost old_out = texts(out@);
            if starts_with_exec(lc.as_slice(), pc.as_slice()) {
                insert_sorted(&mut out, s.name.clone());
            }
            proof {
                assert forall|t: Seq<char>| texts(out@).contains(t) <==> exists|k: int|
                    0 <= k < i + 1 && #[trigger] self.symbols@[k].name@ == t
                        && completes(self.symbols@[k], prefix@) by {
                    if exists|k: int| 0 <= k < i + 1 && #[trigger] self.symbols@[k].name@ == t
                        && completes(self.symbols@[k], prefix@) {
                        let k = choose|k: int| 0 <= k < i + 1 && #[trigger] self.symbols@[k].name@ == t
                            && completes(self.symbols@[k], prefix@);
                        if k < i {
                            assert(old_out.contains(t));
                        }
                    }
                    if old_out.contains(t) {
                        let k = choose|k: int| 0 <= k < i && #[trigger] self.symbols@[k].name@ == t
                            && completes(self.symbols@[k], prefix@);
                        assert(0 <= k < i + 1);
                    }
                }
            }
            i = i + 1;
        }
        out
    }
}


/// Law: `symbol_at` gives the first symbol that holds the position: it holds
/// it, and no symbol before it does; when there is none, no symbol holds it.
pub proof fn lemma_symbol_at_is_first(syms: Seq<Symbol>, line: u32, character: u32)
    ensures
        match first_covering(syms, line, character, 0) {
            Some(i) => 0 <= i < syms.len() && covers(syms[i], line, character)
                && forall|j: int| 0 <= j < i ==> !covers(#[trigger] syms[j], line, character),
            None => forall|j: int| 0 <= j < syms.len() ==> !covers(#[trigger] syms[j], line, character),
        },
{
    lemma_first_covering_from(syms, line, character, 0);
}

proof fn lemma_first_covering_from(syms: Seq<Symbol>, line: u32, character: u32, k: int)
    requires
        0 <= k,
    ensures
        match first_covering(syms, line, character, k) {
            Some(i) => k <= i < syms.len() && covers(syms[i], line, character)
                && forall|j: int| k <= j < i ==> !covers(#[trigger] syms[j], line, character),
            None => forall|j: int| k <= j < syms.len() ==> !covers(#[trigger] syms[j], line, character),
        },
    decreases syms.len() - k,
{
    if k < syms.len() && !covers(syms[k], line, character) {
        lemma_first_covering_from(syms, line, character, k + 1);
    }
}

/// Law: when several symbols carry the word under the cursor, the one chosen
/// has the highest priority, and no later symbol has that priority.
pub proof fn lemma_best_named_is_best(syms: Seq<Symbol>, w: Seq<char>, n: int)
    requires
        0 <= n <= syms.len(),
    ensures
        match best_named(syms, w, n) {
            Some(i) => 0 <= i < n && named(syms[i], w)
                && forall|j: int| 0 <= j < n && named(#[trigger] syms[j], w) ==>
                    kind_priority(syms[j].kind) <= kind_priority(syms[i].kind)
                    && (j > i ==> kind_priority(syms[j].kind) < kind_priority(syms[i].kind)),
            None => forall|j: int| 0 <= j < n ==> !named(#[trigger] syms[j], w),
        },
    decreases n,
{
    if n > 0 {
        lemma_best_named_is_best(syms, w, n - 1);
    }
}

/// Law: a word found under the cursor is non-empty and starts with an ASCII
/// letter, digit or `_`.
pub proof fn lemma_word_is_word(s: Seq<char>, line: u32, character: u32)
    ensures
        spec_word_at(s, line, character) matches Some(w) ==> w.len() > 0 && is_word_char(w[0]),
{
    if let Some(t) = nth_line(s, line as nat) {
        if !(character as nat > utf8_len(t) || t.len() == 0) {
            let i = pick_from(t, character as nat, 0);
            lemma_pick_bounds(t, character as nat, 0);
            lemma_extend_left_bounds(t, i);
            lemma_extend_right_bounds(t, i);
        }
    }
}

/// Law: every occurrence `find_name_occurrences` reports on a line is the name
/// itself, standing as a whole word.
pub proof fn lemma_word_hits_are_whole_words(t: Seq<char>, name: Seq<char>, start: int)
    ensures
        forall|k: int| 0 <= k < word_hits(t, name, start).len() ==> {
            let p = #[trigger] word_hits(t, name, start)[k];
            matches_at(t, name, p) && whole_word_at(t, p, name.len() as int)
        },
    decreases t.len() + 1 - start,
{
    if name.len() > 0 && start >= 0 {
        lemma_find_from_bounds(t, name, start);
        if let Some(p) = find_from(t, name, start) {
            lemma_word_hits_are_whole_words(t, name, p + name.len());
            let rest = word_hits(t, name, p + name.len());
            if whole_word_at(t, p, name.len() as int) {
                assert forall|k: int| 0 <= k < word_hits(t, name, start).len() implies {
                    let q = #[trigger] word_hits(t, name, start)[k];
                    matches_at(t, name, q) && whole_word_at(t, q, name.len() as int)
                } by {
                    if k > 0 {
                        assert(word_hits(t, name, start)[k] == rest[k - 1]);
                    }
                }
            }
        }
    }
}


/// Length and first two characters of the word for a kind.
spec fn kind_word_sig(k: SymbolKind) -> (nat, char, char) {
    match k {
        SymbolKind::Function => (8, 'f', 'u'),
        SymbolKind::Parameter => (9, 'p', 'a'),
        SymbolKind::Variable => (8, 'v', 'a'),
        SymbolKind::Constant => (8, 'c', 'o'),
        SymbolKind::Struct => (6, 's', 't'),
        SymbolKind::Enum => (4, 'e', 'n'),
        SymbolKind::Field => (5, 'f', 'i'),
        SymbolKind::Method => (6, 'm', 'e'),
        SymbolKind::Extern => (9, 'e', 'x'),
        SymbolKind::Module => (6, 'm', 'o'),
        SymbolKind::Keyword => (7, 'k', 'e'),
    }
}

proof fn lemma_kind_word_sig(k: SymbolKind)
    ensures
        kind_text(k).len() == kind_word_sig(k).0,
        kind_text(k)[0] == kind_word_sig(k).1,
        kind_text(k)[1] == kind_word_sig(k).2,
{
    reveal_strlit("function");
    reveal_strlit("parameter");
    reveal_strlit("variable");
    reveal_strlit("constant");
    reveal_strlit("struct");
    reveal_strlit("enum");
    reveal_strlit("field");
    reveal_strlit("method");
    reveal_strlit("extern fn");
    reveal_strlit("module");
    reveal_strlit("keyword");
}

/// Hover text names each kind of symbol by a word of its own: two symbols of
/// different kinds are never described alike (a variable is never called a
/// parameter), and no kind goes without a word.
pub proof fn law_kind_words_distinct(k1: SymbolKind, k2: SymbolKind)
    ensures
        kind_text(k1).len() > 0,
        kind_text(k1) == kind_text(k2) ==> k1 == k2,
{
    lemma_kind_word_sig(k1);
    lemma_kind_word_sig(k2);
}

} // verus!
