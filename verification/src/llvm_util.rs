//! Pure helpers on LLVM IR type and register text.
use vstd::prelude::*;
use vstd::string::StringSliceAdditionalSpecFns;
use crate::num::{parse_usize, parse_usize_spec, parse_i64, parse_i64_spec};
use crate::ast::{spec_int_kind_of_name, Block, Expression, IntKind, Statement, TypeAnnotation};
use crate::names::NameSet;
use crate::text::{
    chars_of, chars_eq_str, count_leading, find_exec, find_from, lemma_find_from_bounds, len_without_trailing,
    slice_to_vec, string_of, starts_with_char, ends_with_char, trim_end_char, trim_start_char,
    contains_seq, contains_str, str_eq, first_char,
};

verus! {

/// The separator between count and element in `[N x T]` / `<N x T>`.
pub open spec fn sep_x() -> Seq<char> {
    seq![' ', 'x', ' ']
}

/// First piece of `s.split(pat)`.
pub open spec fn split_first(s: Seq<char>, pat: Seq<char>) -> Seq<char> {
    match find_from(s, pat, 0) {
        Some(i) => s.take(i),
        None => s,
    }
}

/// Second piece of `s.split(pat)`, when there is one.
pub open spec fn split_second(s: Seq<char>, pat: Seq<char>) -> Option<Seq<char>> {
    match find_from(s, pat, 0) {
        Some(i) => Some(split_first(s.skip(i + pat.len()), pat)),
        None => None,
    }
}

/// Text after the leading `[` of an array type.
pub open spec fn array_inner(ty: Seq<char>) -> Option<Seq<char>> {
    if starts_with_char(ty, '[') {
        Some(ty.drop_first())
    } else {
        None
    }
}

/// Element count of an array type `[N x elem]`.
pub open spec fn spec_array_len(ty: Seq<char>) -> Option<usize> {
    match array_inner(ty) {
        Some(inner) => parse_usize_spec(split_first(inner, sep_x())),
        None => None,
    }
}

/// Everything after the first `pat` in `s`, when `s` holds one.
pub open spec fn after_first(s: Seq<char>, pat: Seq<char>) -> Option<Seq<char>> {
    match find_from(s, pat, 0) {
        Some(i) => Some(s.skip(i + pat.len())),
        None => None,
    }
}

/// `s` without its closing `]`, when it ends with one.
pub open spec fn without_closing_bracket(s: Seq<char>) -> Seq<char> {
    if ends_with_char(s, ']') {
        s.drop_last()
    } else {
        s
    }
}

/// Element type of an array type `[N x elem]`: everything after the first
/// ` x `, without the closing `]` (so `[2 x [3 x i8]]` has element `[3 x i8]`).
pub open spec fn spec_array_elem(ty: Seq<char>) -> Option<Seq<char>> {
    match array_inner(ty) {
        Some(inner) => match after_first(inner, sep_x()) {
            Some(rest) => Some(without_closing_bracket(rest)),
            None => None,
        },
        None => None,
    }
}

pub proof fn lemma_trim_end_len(s: Seq<char>, c: char)
    ensures
        trim_end_char(s, c).len() <= s.len(),
    decreases s.len(),
{
    if s.len() > 0 && s[s.len() - 1] == c {
        lemma_trim_end_len(s.drop_last(), c);
    }
}

pub proof fn lemma_trim_start_len(s: Seq<char>, c: char)
    ensures
        trim_start_char(s, c).len() <= s.len(),
    decreases s.len(),
{
    if s.len() > 0 && s[0] == c {
        lemma_trim_start_len(s.drop_first(), c);
    }
}

pub proof fn lemma_split_second_len(s: Seq<char>, pat: Seq<char>)
    ensures
        split_second(s, pat) matches Some(p) ==> p.len() + pat.len() <= s.len(),
{
    lemma_find_from_bounds(s, pat, 0);
    if let Some(i) = find_from(s, pat, 0) {
        let rest = s.skip(i + pat.len());
        lemma_find_from_bounds(rest, pat, 0);
    }
}

pub proof fn lemma_array_elem_shorter(ty: Seq<char>)
    ensures
        spec_array_elem(ty) matches Some(e) ==> e.len() < ty.len(),
{
    if let Some(inner) = array_inner(ty) {
        lemma_find_from_bounds(inner, sep_x(), 0);
    }
}

/// `split(pat).next()` as a copy of the characters.
fn split_first_exec(v: &[char], pat: &[char]) -> (r: Vec<char>)
    ensures
        r@ == split_first(v@, pat@),
{
    proof { lemma_find_from_bounds(v@, pat@, 0); }
    match find_exec(v, pat, 0) {
        Some(i) => slice_to_vec(v, 0, i),
        None => slice_to_vec(v, 0, v.len()),
    }
}

/// `split(pat).nth(1)` as a copy of the characters.
fn split_second_exec(v: &[char], pat: &[char]) -> (r: Option<Vec<char>>)
    ensures
        match r {
            Some(p) => split_second(v@, pat@) == Some(p@),
            None => split_second(v@, pat@) is None,
        },
{
    proof { lemma_find_from_bounds(v@, pat@, 0); }
    match find_exec(v, pat, 0) {
        Some(i) => {
            assert(i + pat@.len() <= v@.len());
            assert(v@.len() == v.len());
            let rest = slice_to_vec(v, i + pat.len(), v.len());
            assert(rest@ =~= v@.skip(i + pat@.len()));
            Some(split_first_exec(rest.as_slice(), pat))
        },
        None => None,
    }
}

fn sep_x_exec() -> (r: Vec<char>)
    ensures
        r@ == sep_x(),
{
    let mut r: Vec<char> = Vec::new();
    r.push(' ');
    r.push('x');
    r.push(' ');
    assert(r@ =~= sep_x());
    r
}

fn array_len_chars(ty: &[char]) -> (r: Option<usize>)
    ensures
        r == spec_array_len(ty@),
{
    if ty.len() == 0 || ty[0] != '[' {
        return None;
    }
    let inner = slice_to_vec(ty, 1, ty.len());
    assert(inner@ =~= ty@.drop_first());
    let sep = sep_x_exec();
    let n = split_first_exec(inner.as_slice(), sep.as_slice());
    parse_usize(n.as_slice())
}

fn array_elem_chars(ty: &[char]) -> (r: Option<Vec<char>>)
    ensures
        match r {
            Some(e) => spec_array_elem(ty@) == Some(e@),
            None => spec_array_elem(ty@) is None,
        },
{
    if ty.len() == 0 || ty[0] != '[' {
        return None;
    }
    let inner = slice_to_vec(ty, 1, ty.len());
    assert(inner@ =~= ty@.drop_first());
    let sep = sep_x_exec();
    proof { lemma_find_from_bounds(inner@, sep@, 0); }
    match find_exec(inner.as_slice(), sep.as_slice(), 0) {
        Some(i) => {
            assert(inner@.len() == inner.len());
            let start = i + sep.len();
            let end = if inner.len() > start && inner[inner.len() - 1] == ']' {
                inner.len() - 1
            } else {
                inner.len()
            };
            let rest = slice_to_vec(inner.as_slice(), start, end);
            proof {
                let r = inner@.skip(start as int);
                if ends_with_char(r, ']') {
                    assert(r[r.len() - 1] == inner@[inner@.len() - 1]);
                    assert(rest@ =~= r.drop_last());
                } else {
                    assert(rest@ =~= r);
                }
            }
            Some(rest)
        },
        None => None,
    }
}

/// Element count of an LLVM array type `[N x elem]`.
pub fn array_len_from_ty(ty: &str) -> (r: Option<usize>)
    ensures
        r == spec_array_len(ty@),
{
    let v = chars_of(ty);
    array_len_chars(v.as_slice())
}

/// Element type of an LLVM array type `[N x elem]`.
pub fn array_elem_from_ty(ty: &str) -> (r: Option<String>)
    ensures
        match r {
            Some(e) => spec_array_elem(ty@) == Some(e@),
            None => spec_array_elem(ty@) is None,
        },
{
    let v = chars_of(ty);
    match array_elem_chars(v.as_slice()) {
        Some(e) => Some(string_of(e.as_slice())),
        None => None,
    }
}

/// Size and alignment of a non-array LLVM field type, as `(align, size)`:
/// pointers 8, each integer type `iN` N/8 bytes (`i1` one byte), `double` 8,
/// `float` 4, a struct by value 8 (pointer alignment, conservatively), and 4
/// for anything else.
pub open spec fn base_field_size_align(ty: Seq<char>) -> (int, int) {
    if ty == "ptr"@ || ends_with_char(ty, '*') {
        (8, 8)
    } else if ty == "i1"@ {
        (1, 1)
    } else if ty == "i8"@ {
        (1, 1)
    } else if ty == "i16"@ {
        (2, 2)
    } else if ty == "i32"@ {
        (4, 4)
    } else if ty == "i64"@ {
        (8, 8)
    } else if ty == "i128"@ {
        (16, 16)
    } else if ty == "double"@ || ty == "f64"@ {
        (8, 8)
    } else if ty == "float"@ || ty == "f32"@ {
        (4, 4)
    } else if starts_with_char(ty, '%') {
        (8, 8)
    } else {
        (4, 4)
    }
}

/// `(align, size)` of one LLVM field type, arrays included.
pub open spec fn spec_field_size_align(ty: Seq<char>) -> (int, int)
    decreases ty.len(),
{
    match (spec_array_len(ty), spec_array_elem(ty)) {
        (Some(len), Some(elem)) => {
            proof {
                lemma_array_elem_shorter(ty);
            }
            let p = spec_field_size_align(elem);
            (p.0, len * p.1)
        },
        _ => base_field_size_align(ty),
    }
}

/// Every array size computed while laying out `ty` fits in `i64`.
pub open spec fn field_layout_fits(ty: Seq<char>) -> bool
    decreases ty.len(),
{
    match (spec_array_len(ty), spec_array_elem(ty)) {
        (Some(len), Some(elem)) => {
            proof {
                lemma_array_elem_shorter(ty);
            }
            &&& field_layout_fits(elem)
            &&& len <= i64::MAX
            &&& len * spec_field_size_align(elem).1 <= i64::MAX
        },
        _ => true,
    }
}

pub proof fn lemma_field_size_align_bounds(ty: Seq<char>)
    ensures
        1 <= spec_field_size_align(ty).0 <= 16,
        0 <= spec_field_size_align(ty).1,
    decreases ty.len(),
{
    if let (Some(len), Some(elem)) = (spec_array_len(ty), spec_array_elem(ty)) {
        lemma_array_elem_shorter(ty);
        lemma_field_size_align_bounds(elem);
        let p = spec_field_size_align(elem);
        assert(len * p.1 >= 0) by (nonlinear_arith)
            requires
                len >= 0,
                p.1 >= 0,
        ;
    }
}

fn base_field_size_align_exec(ty: &[char]) -> (r: (i64, i64))
    ensures
        r.0 as int == base_field_size_align(ty@).0,
        r.1 as int == base_field_size_align(ty@).1,
{
    let n = ty.len();
    if chars_eq_str(ty, "ptr") || (n > 0 && ty[n - 1] == '*') {
        (8, 8)
    } else if chars_eq_str(ty, "i1") {
        (1, 1)
    } else if chars_eq_str(ty, "i8") {
        (1, 1)
    } else if chars_eq_str(ty, "i16") {
        (2, 2)
    } else if chars_eq_str(ty, "i32") {
        (4, 4)
    } else if chars_eq_str(ty, "i64") {
        (8, 8)
    } else if chars_eq_str(ty, "i128") {
        (16, 16)
    } else if chars_eq_str(ty, "double") || chars_eq_str(ty, "f64") {
        (8, 8)
    } else if chars_eq_str(ty, "float") || chars_eq_str(ty, "f32") {
        (4, 4)
    } else if n > 0 && ty[0] == '%' {
        (8, 8)
    } else {
        (4, 4)
    }
}

fn field_size_align_chars(ty: &[char]) -> (r: (i64, i64))
    requires
        field_layout_fits(ty@),
    ensures
        r.0 as int == spec_field_size_align(ty@).0,
        r.1 as int == spec_field_size_align(ty@).1,
    decreases ty@.len(),
{
    let len = array_len_chars(ty);
    let elem = array_elem_chars(ty);
    match (len, elem) {
        (Some(len), Some(elem)) => {
            proof {
                lemma_array_elem_shorter(ty@);
                lemma_field_size_align_bounds(elem@);
            }
            let (elem_align, elem_sz) = field_size_align_chars(elem.as_slice());
            let l = len as i64;
            assert(l * elem_sz >= 0) by (nonlinear_arith)
                requires
                    l >= 0,
                    elem_sz >= 0,
            ;
            (elem_align, l * elem_sz)
        },
        _ => base_field_size_align_exec(ty),
    }
}

/// `(align, size)` of one LLVM field type for capture/struct layout.
pub fn llvm_field_size_align(ty: &str) -> (r: (i64, i64))
    requires
        field_layout_fits(ty@),
    ensures
        r.0 as int == spec_field_size_align(ty@).0,
        r.1 as int == spec_field_size_align(ty@).1,
{
    let v = chars_of(ty);
    field_size_align_chars(v.as_slice())
}

/// Alignment in bytes of an LLVM type: vectors are 16-byte aligned.
pub open spec fn spec_type_align(ty: Seq<char>) -> int {
    if starts_with_char(ty, '<') {
        16
    } else {
        spec_field_size_align(ty).0
    }
}

pub fn llvm_type_align_bytes(ty: &str) -> (r: i64)
    requires
        field_layout_fits(ty@),
    ensures
        r as int == spec_type_align(ty@),
{
    let v = chars_of(ty);
    if v.len() > 0 && v[0] == '<' {
        return 16;
    }
    field_size_align_chars(v.as_slice()).0
}

/// Text after the leading `<`s of a vector type.
pub open spec fn vector_body(ty: Seq<char>) -> Seq<char> {
    trim_start_char(ty, '<')
}

/// Element type of a vector type `<N x elem>`, when it has one.
pub open spec fn spec_vector_elem(ty: Seq<char>) -> Option<Seq<char>> {
    if starts_with_char(ty, '<') && contains_seq(ty, sep_x()) {
        match split_second(vector_body(ty), sep_x()) {
            Some(piece) => Some(trim_end_char(piece, '>')),
            None => None,
        }
    } else {
        None
    }
}

/// Lane count of a vector type `<N x elem>`, when it parses as `i64`.
pub open spec fn spec_vector_lanes(ty: Seq<char>) -> Option<i64> {
    parse_i64_spec(split_first(vector_body(ty), sep_x()))
}

pub proof fn lemma_vector_elem_shorter(ty: Seq<char>)
    ensures
        spec_vector_elem(ty) matches Some(e) ==> e.len() < ty.len(),
{
    lemma_trim_start_len(ty, '<');
    lemma_split_second_len(vector_body(ty), sep_x());
    if let Some(piece) = split_second(vector_body(ty), sep_x()) {
        lemma_trim_end_len(piece, '>');
    }
}

/// Size in bytes of an LLVM type: arrays and vectors multiply out, everything
/// else takes its field size.
pub open spec fn spec_type_size(ty: Seq<char>) -> int
    decreases ty.len(),
{
    match (spec_array_len(ty), spec_array_elem(ty)) {
        (Some(len), Some(elem)) => {
            proof {
                lemma_array_elem_shorter(ty);
            }
            len * spec_type_size(elem)
        },
        _ => match (spec_vector_elem(ty), spec_vector_lanes(ty)) {
            (Some(inner), Some(lanes)) => {
                proof {
                    lemma_vector_elem_shorter(ty);
                }
                lanes * spec_type_size(inner)
            },
            _ => spec_field_size_align(ty).1,
        },
    }
}

/// Every size computed while sizing `ty` fits in `i64`.
pub open spec fn type_size_fits(ty: Seq<char>) -> bool
    decreases ty.len(),
{
    match (spec_array_len(ty), spec_array_elem(ty)) {
        (Some(len), Some(elem)) => {
            proof {
                lemma_array_elem_shorter(ty);
            }
            &&& type_size_fits(elem)
            &&& len <= i64::MAX
            &&& i64::MIN <= len * spec_type_size(elem) <= i64::MAX
        },
        _ => match (spec_vector_elem(ty), spec_vector_lanes(ty)) {
            (Some(inner), Some(lanes)) => {
                proof {
                    lemma_vector_elem_shorter(ty);
                }
                &&& type_size_fits(inner)
                &&& i64::MIN <= lanes * spec_type_size(inner) <= i64::MAX
            },
            _ => field_layout_fits(ty),
        },
    }
}

fn vector_parts(ty: &[char]) -> (r: (Option<Vec<char>>, Option<i64>))
    ensures
        match r.0 {
            Some(e) => spec_vector_elem(ty@) == Some(e@),
            None => spec_vector_elem(ty@) is None,
        },
        r.1 == spec_vector_lanes(ty@),
{
    let sep = sep_x_exec();
    let k = count_leading(ty, '<');
    let body = slice_to_vec(ty, k, ty.len());
    assert(body@ =~= vector_body(ty@));
    let first = split_first_exec(body.as_slice(), sep.as_slice());
    let lanes = parse_i64(first.as_slice());
    let is_vec = ty.len() > 0 && ty[0] == '<' && find_exec(ty, sep.as_slice(), 0).is_some();
    if !is_vec {
        return (None, lanes);
    }
    match split_second_exec(body.as_slice(), sep.as_slice()) {
        Some(piece) => {
            let n = len_without_trailing(piece.as_slice(), '>');
            (Some(slice_to_vec(piece.as_slice(), 0, n)), lanes)
        },
        None => (None, lanes),
    }
}

fn type_size_chars(ty: &[char]) -> (r: i64)
    requires
        type_size_fits(ty@),
    ensures
        r as int == spec_type_size(ty@),
    decreases ty@.len(),
{
    let len = array_len_chars(ty);
    let elem = array_elem_chars(ty);
    if let (Some(len), Some(elem)) = (len, elem) {
        proof {
            lemma_array_elem_shorter(ty@);
        }
        let s = type_size_chars(elem.as_slice());
        return (len as i64) * s;
    }
    let (inner, lanes) = vector_parts(ty);
    if let (Some(inner), Some(lanes)) = (inner, lanes) {
        proof {
            lemma_vector_elem_shorter(ty@);
        }
        let s = type_size_chars(inner.as_slice());
        return lanes * s;
    }
    field_size_align_chars(ty).1
}

/// Size in bytes of an LLVM type (`[N x T]`, `<N x T>` or a scalar/struct field).
pub fn llvm_type_size_bytes(ty: &str) -> (r: i64)
    requires
        type_size_fits(ty@),
    ensures
        r as int == spec_type_size(ty@),
{
    let v = chars_of(ty);
    type_size_chars(v.as_slice())
}

/// `x` rounded up to a multiple of `a`.
pub open spec fn round_up(x: int, a: int) -> int {
    (x + a - 1) / a * a
}

/// Running size of a struct laid out field by field (before the final
/// 8-byte rounding).
pub open spec fn struct_fields_size(fs: Seq<Seq<char>>) -> int
    decreases fs.len(),
{
    if fs.len() == 0 {
        0
    } else {
        let p = spec_field_size_align(fs.last());
        round_up(struct_fields_size(fs.drop_last()), p.0) + p.1
    }
}

/// Size in bytes of a struct with the given LLVM field types, padded to 8.
pub open spec fn spec_struct_size(fs: Seq<Seq<char>>) -> int {
    round_up(struct_fields_size(fs), 8)
}

/// Every running size computed while laying out `fs` fits in `i64`.
pub open spec fn struct_prefix_fits(fs: Seq<Seq<char>>) -> bool
    decreases fs.len(),
{
    if fs.len() == 0 {
        true
    } else {
        let p = spec_field_size_align(fs.last());
        let prev = struct_fields_size(fs.drop_last());
        &&& struct_prefix_fits(fs.drop_last())
        &&& field_layout_fits(fs.last())
        &&& prev + p.0 <= i64::MAX
        &&& round_up(prev, p.0) + p.1 <= i64::MAX
    }
}

/// The whole layout of `fs`, final padding included, fits in `i64`.
pub open spec fn struct_layout_fits(fs: Seq<Seq<char>>) -> bool {
    struct_prefix_fits(fs) && struct_fields_size(fs) + 7 <= i64::MAX
}

/// The texts of a list of strings.
pub open spec fn string_views(fields: Seq<String>) -> Seq<Seq<char>> {
    fields.map_values(|f: String| f@)
}

proof fn lemma_round_up_ge(x: int, a: int)
    requires
        x >= 0,
        a >= 1,
    ensures
        round_up(x, a) >= x,
{
    assert((x + a - 1) / a * a >= x) by (nonlinear_arith)
        requires
            x >= 0,
            a >= 1,
    ;
}

proof fn lemma_struct_fields_size_nonneg(fs: Seq<Seq<char>>)
    ensures
        struct_fields_size(fs) >= 0,
    decreases fs.len(),
{
    if fs.len() > 0 {
        lemma_struct_fields_size_nonneg(fs.drop_last());
        lemma_field_size_align_bounds(fs.last());
        lemma_round_up_ge(struct_fields_size(fs.drop_last()), spec_field_size_align(fs.last()).0);
    }
}

/// Size in bytes of a struct whose fields have the given LLVM types.
pub fn llvm_struct_size_bytes(fields: &[String]) -> (r: i64)
    requires
        struct_layout_fits(string_views(fields@)),
    ensures
        r as int == spec_struct_size(string_views(fields@)),
{
    let ghost fs = string_views(fields@);
    let mut size: i64 = 0;
    let mut i: usize = 0;
    while i < fields.len()
        invariant
            i <= fields@.len(),
            fs == string_views(fields@),
            struct_prefix_fits(fs),
            size as int == struct_fields_size(fs.take(i as int)),
        decreases fields@.len() - i,
    {
        let ghost pre = fs.take(i as int);
        assert(fs.take(i + 1).drop_last() =~= pre);
        assert(fs.take(i + 1).last() == fields@[i as int]@);
        proof {
            lemma_prefix_fits(fs, i + 1);
            lemma_field_size_align_bounds(fields@[i as int]@);
            lemma_struct_fields_size_nonneg(pre);
            lemma_round_up_ge(size as int, spec_field_size_align(fields@[i as int]@).0);
        }
        let ghost fsi = fs.take(i + 1);
        assert(struct_prefix_fits(fsi));
        assert(fsi.last() == fields@[i as int]@);
        assert(struct_fields_size(fsi.drop_last()) == size as int);
        let (align, sz) = llvm_field_size_align(fields[i].as_str());
        assert(size + align <= i64::MAX);
        size = (size + align - 1) / align * align;
        size = size + sz;
        i = i + 1;
    }
    assert(fs.take(fields@.len() as int) =~= fs);
    assert(size as int == struct_fields_size(fs));
    proof { lemma_struct_fields_size_nonneg(fs); }
    let r = (size + 7) / 8 * 8;
    assert(r as int == round_up(size as int, 8));
    r
}

proof fn lemma_prefix_fits(fs: Seq<Seq<char>>, k: int)
    requires
        struct_prefix_fits(fs),
        0 <= k <= fs.len(),
    ensures
        struct_prefix_fits(fs.take(k)),
    decreases fs.len() - k,
{
    if k < fs.len() {
        assert(fs.drop_last().take(k) =~= fs.take(k));
        lemma_prefix_fits(fs.drop_last(), k);
    } else {
        assert(fs.take(k) =~= fs);
    }
}

/// Length of the LLVM global that stores `s` with its trailing NUL byte.
pub fn llvm_string_len(s: &str) -> (r: usize)
    requires
        s.spec_bytes().len() < usize::MAX,
    ensures
        r == s.spec_bytes().len() + 1,
{
    s.len() + 1
}

/// Register text as a pointer operand: `%`-prefixed unless it already names a
/// local (`%`), a global (`@`) or is `null`.
pub open spec fn spec_llvm_ptr_reg(reg: Seq<char>) -> Seq<char> {
    if starts_with_char(reg, '%') || starts_with_char(reg, '@') || reg == "null"@ {
        reg
    } else {
        seq!['%'] + reg
    }
}

pub fn llvm_ptr_reg(reg: &str) -> (r: String)
    ensures
        r@ == spec_llvm_ptr_reg(reg@),
{
    let c = first_char(reg);
    if c == Some('%') || c == Some('@') || str_eq(reg, "null") {
        String::from_str(reg)
    } else {
        let p = String::from_str("%");
        proof { reveal_strlit("%"); }
        p.concat(reg)
    }
}

/// Uppercase hexadecimal digit for `n < 16`.
pub open spec fn hex_digit(n: nat) -> char {
    if n < 10 {
        ((n + ('0' as u32)) as u32) as char
    } else {
        ((n - 10 + ('A' as u32)) as u32) as char
    }
}

/// LLVM string-constant escape of one byte.
pub open spec fn escape_byte(b: u8) -> Seq<char> {
    if b == 92 {
        seq!['\\', '\\']
    } else if b == 34 {
        seq!['\\', '2', '2']
    } else if b == 10 {
        seq!['\\', '0', 'A']
    } else if b == 13 {
        seq!['\\', '0', 'D']
    } else if b < 128 {
        seq![(b as u32) as char]
    } else {
        seq!['\\', hex_digit((b / 16) as nat), hex_digit((b % 16) as nat)]
    }
}

/// LLVM string-constant escape of a byte sequence.
pub open spec fn escape_bytes(bs: Seq<u8>) -> Seq<char>
    decreases bs.len(),
{
    if bs.len() == 0 {
        seq![]
    } else {
        escape_bytes(bs.drop_last()) + escape_byte(bs.last())
    }
}

fn hex_digit_exec(n: u8) -> (c: char)
    requires
        n < 16,
    ensures
        c == hex_digit(n as nat),
{
    if n < 10 {
        ((n as u32) + ('0' as u32)) as u8 as char
    } else {
        ((n as u32) - 10 + ('A' as u32)) as u8 as char
    }
}

/// Escapes the UTF-8 bytes of `s` for an LLVM `c"..."` constant: `\`, `"`,
/// newline and carriage return become escapes, other ASCII stays, and every
/// non-ASCII byte becomes `\XX`.
pub fn escape_string(s: &str) -> (r: String)
    ensures
        r@ == escape_bytes(s.spec_bytes()),
{
    let bytes = s.as_bytes();
    let mut out: Vec<char> = Vec::new();
    let mut i: usize = 0;
    while i < bytes.len()
        invariant
            i <= bytes@.len(),
            bytes@ == s.spec_bytes(),
            out@ == escape_bytes(bytes@.take(i as int)),
        decreases bytes@.len() - i,
    {
        let b = bytes[i];
        let ghost before = out@;
        if b == 92 {
            out.push('\\');
            out.push('\\');
        } else if b == 34 {
            out.push('\\');
            out.push('2');
            out.push('2');
        } else if b == 10 {
            out.push('\\');
            out.push('0');
            out.push('A');
        } else if b == 13 {
            out.push('\\');
            out.push('0');
            out.push('D');
        } else if b < 128 {
            out.push(b as char);
        } else {
            out.push('\\');
            out.push(hex_digit_exec(b / 16));
            out.push(hex_digit_exec(b % 16));
        }
        assert(out@ =~= before + escape_byte(b));
        assert(bytes@.take(i + 1).drop_last() =~= bytes@.take(i as int));
        i = i + 1;
    }
    assert(bytes@.take(bytes@.len() as int) =~= bytes@);
    string_of(out.as_slice())
}

/// Field-name aliases of the builtin `Date` struct.
pub open spec fn spec_resolve_struct_field_name(struct_name: Seq<char>, field: Seq<char>) -> Seq<char> {
    if struct_name == "Date"@ {
        if field == "minutes"@ {
            "minute"@
        } else if field == "seconds"@ {
            "second"@
        } else if field == "weekday"@ {
            "week"@
        } else {
            field
        }
    } else {
        field
    }
}

pub fn resolve_struct_field_name<'a>(struct_name: &str, field: &'a str) -> (r: &'a str)
    ensures
        r@ == spec_resolve_struct_field_name(struct_name@, field@),
{
    if str_eq(struct_name, "Date") {
        if str_eq(field, "minutes") {
            "minute"
        } else if str_eq(field, "seconds") {
            "second"
        } else if str_eq(field, "weekday") {
            "week"
        } else {
            field
        }
    } else {
        field
    }
}

/// The string methods lowered to runtime string builtins.
pub open spec fn spec_is_string_builtin_method(m: Seq<char>) -> bool {
    m == "split"@ || m == "trim"@ || m == "contains"@ || m == "starts_with"@
        || m == "ends_with"@ || m == "replace"@ || m == "replacen"@ || m == "to_upper"@
        || m == "to_lower"@ || m == "strip_suffix"@ || m == "to_snake_case"@
        || m == "to_lowercase"@ || m == "to_titlecase"@ || m == "to_capitalize"@
        || m == "to_camel_case"@ || m == "to_kebab_case"@ || m == "to_pascal_case"@
        || m == "to_screaming_snake_case"@ || m == "to_train_case"@ || m == "to_dot_case"@
}

pub fn is_string_builtin_method(method: &str) -> (r: bool)
    ensures
        r == spec_is_string_builtin_method(method@),
{
    str_eq(method, "split") || str_eq(method, "trim") || str_eq(method, "contains")
        || str_eq(method, "starts_with") || str_eq(method, "ends_with") || str_eq(
        method,
        "replace",
    ) || str_eq(method, "replacen") || str_eq(method, "to_upper") || str_eq(method, "to_lower")
        || str_eq(method, "strip_suffix") || str_eq(method, "to_snake_case") || str_eq(
        method,
        "to_lowercase",
    ) || str_eq(method, "to_titlecase") || str_eq(method, "to_capitalize") || str_eq(
        method,
        "to_camel_case",
    ) || str_eq(method, "to_kebab_case") || str_eq(method, "to_pascal_case") || str_eq(
        method,
        "to_screaming_snake_case",
    ) || str_eq(method, "to_train_case") || str_eq(method, "to_dot_case")
}

/// Is `c` a character of a numeric literal operand (digit, `-` or `.`)?
pub open spec fn is_numeric_operand_char(c: char) -> bool {
    ('0' <= c && c <= '9') || c == '-' || c == '.'
}

/// Operand text for typed LLVM instructions: registers and numeric literals
/// stay, bare SSA names get a `%`.
pub open spec fn spec_llvm_value_operand(reg: Seq<char>) -> Seq<char> {
    if starts_with_char(reg, '%') || starts_with_char(reg, '@') {
        reg
    } else if forall|i: int| 0 <= i < reg.len() ==> is_numeric_operand_char(#[trigger] reg[i]) {
        reg
    } else {
        seq!['%'] + reg
    }
}

pub fn llvm_value_operand(reg: &str) -> (r: String)
    ensures
        r@ == spec_llvm_value_operand(reg@),
{
    let v = chars_of(reg);
    if v.len() > 0 && (v[0] == '%' || v[0] == '@') {
        return String::from_str(reg);
    }
    let mut i: usize = 0;
    let mut numeric = true;
    while i < v.len()
        invariant
            i <= v@.len(),
            numeric == (forall|j: int| 0 <= j < i ==> is_numeric_operand_char(#[trigger] v@[j])),
        decreases v@.len() - i,
    {
        let c = v[i];
        if !(('0' <= c && c <= '9') || c == '-' || c == '.') {
            numeric = false;
        }
        i = i + 1;
    }
    if numeric {
        String::from_str(reg)
    } else {
        let p = String::from_str("%");
        proof { reveal_strlit("%"); }
        p.concat(reg)
    }
}

/// ASCII lowercase of one character.
pub open spec fn ascii_lower(c: char) -> char {
    if 'A' <= c && c <= 'Z' {
        ((c as u32) + 32) as char
    } else {
        c
    }
}

/// ASCII lowercase of a text.
pub open spec fn ascii_lowercase(s: Seq<char>) -> Seq<char> {
    s.map_values(|c: char| ascii_lower(c))
}

/// Nyra function names that collide with C runtime globals on Windows.
pub open spec fn is_windows_crt_collision(name: Seq<char>) -> bool {
    name == "atoi"@ || name == "atof"@ || name == "atol"@ || name == "atoll"@
}

/// Link symbol of a Nyra function: `nyra_`-prefixed when it would collide
/// with a Windows C runtime global.
pub open spec fn spec_llvm_fn_link_name(name: Seq<char>, triple: Seq<char>) -> Seq<char> {
    if contains_seq(ascii_lowercase(triple), "windows"@) && is_windows_crt_collision(name) {
        "nyra_"@ + name
    } else {
        name
    }
}

fn ascii_lowercase_exec(v: &[char]) -> (r: Vec<char>)
    ensures
        r@ == ascii_lowercase(v@),
{
    let mut r: Vec<char> = Vec::new();
    let mut i: usize = 0;
    while i < v.len()
        invariant
            i <= v@.len(),
            r@ == ascii_lowercase(v@.take(i as int)),
        decreases v@.len() - i,
    {
        let c = v[i];
        let l = if 'A' <= c && c <= 'Z' {
            ((c as u32) + 32) as u8 as char
        } else {
            c
        };
        r.push(l);
        i = i + 1;
        assert(r@ =~= ascii_lowercase(v@.take(i as int)));
    }
    assert(v@.take(v@.len() as int) =~= v@);
    r
}

pub fn llvm_fn_link_name(name: &str, target_triple: &str) -> (r: String)
    ensures
        r@ == spec_llvm_fn_link_name(name@, target_triple@),
{
    let t = chars_of(target_triple);
    let lower = ascii_lowercase_exec(t.as_slice());
    let windows = contains_str(lower.as_slice(), "windows");
    let collides = str_eq(name, "atoi") || str_eq(name, "atof") || str_eq(name, "atol")
        || str_eq(name, "atoll");
    if windows && collides {
        let p = String::from_str("nyra_");
        p.concat(name)
    } else {
        String::from_str(name)
    }
}

/// Normalised architecture name for a target triple.
pub open spec fn spec_triple_arch(arch: Seq<char>) -> Seq<char> {
    if arch == "x86_64"@ || arch == "amd64"@ {
        "x86_64"@
    } else if arch == "aarch64"@ || arch == "arm64"@ {
        "aarch64"@
    } else {
        arch
    }
}

/// Target triple for a host architecture and operating system name.
pub open spec fn spec_target_triple_for(arch: Seq<char>, os: Seq<char>) -> Seq<char> {
    let a = spec_triple_arch(arch);
    if os == "macos"@ {
        if a == "aarch64"@ {
            "arm64-apple-darwin"@
        } else {
            a + "-apple-darwin"@
        }
    } else if os == "windows"@ {
        a + "-pc-windows-gnu"@
    } else {
        a + "-unknown-linux-gnu"@
    }
}

/// Target triple for the host described by `arch` and `os`
/// (`std::env::consts::ARCH` / `OS`).
pub fn target_triple_for(arch: &str, os: &str) -> (r: String)
    ensures
        r@ == spec_target_triple_for(arch@, os@),
{
    let a: &str = if str_eq(arch, "x86_64") || str_eq(arch, "amd64") {
        "x86_64"
    } else if str_eq(arch, "aarch64") || str_eq(arch, "arm64") {
        "aarch64"
    } else {
        arch
    };
    if str_eq(os, "macos") {
        if str_eq(a, "aarch64") {
            String::from_str("arm64-apple-darwin")
        } else {
            String::from_str(a).concat("-apple-darwin")
        }
    } else if str_eq(os, "windows") {
        String::from_str(a).concat("-pc-windows-gnu")
    } else {
        String::from_str(a).concat("-unknown-linux-gnu")
    }
}

/// Is `ty` an LLVM array type (`[...]`)?
pub fn is_array_ty(ty: &str) -> (r: bool)
    ensures
        r == starts_with_char(ty@, '['),
{
    first_char(ty) == Some('[')
}

/// Storage type of a Nyra value: `char` is `i32`, heap handles are `ptr`.
pub open spec fn spec_llvm_storage_ty(ty: Seq<char>) -> Seq<char> {
    if ty == "char"@ {
        "i32"@
    } else if ty == "string"@ || ty == "vec_str"@ || ty == "bytes"@ || ty == "join_handle"@ {
        "ptr"@
    } else {
        ty
    }
}

pub fn llvm_storage_ty(ty: &str) -> (r: &str)
    ensures
        r@ == spec_llvm_storage_ty(ty@),
{
    if str_eq(ty, "char") {
        "i32"
    } else if str_eq(ty, "string") || str_eq(ty, "vec_str") || str_eq(ty, "bytes") || str_eq(
        ty,
        "join_handle",
    ) {
        "ptr"
    } else {
        ty
    }
}

/// Is `ty` one of the LLVM/Nyra floating-point type names?
pub open spec fn spec_is_float_llvm_ty(ty: Seq<char>) -> bool {
    ty == "float"@ || ty == "double"@ || ty == "f32"@ || ty == "f64"@
}

pub fn is_float_llvm_ty(ty: &str) -> (r: bool)
    ensures
        r == spec_is_float_llvm_ty(ty@),
{
    str_eq(ty, "float") || str_eq(ty, "double") || str_eq(ty, "f32") || str_eq(ty, "f64")
}

/// LLVM float storage name (`f32` → `float`, `f64` → `double`).
pub open spec fn spec_llvm_float_storage_ty(ty: Seq<char>) -> Seq<char> {
    if ty == "float"@ || ty == "f32"@ {
        "float"@
    } else if ty == "double"@ || ty == "f64"@ {
        "double"@
    } else {
        ty
    }
}

pub fn llvm_float_storage_ty(ty: &str) -> (r: &str)
    ensures
        r@ == spec_llvm_float_storage_ty(ty@),
{
    if str_eq(ty, "float") || str_eq(ty, "f32") {
        "float"
    } else if str_eq(ty, "double") || str_eq(ty, "f64") {
        "double"
    } else {
        ty
    }
}

/// Typed zero used to materialise literal SSA bindings.
pub fn llvm_typed_zero(storage_ty: &str) -> (r: &'static str)
    ensures
        r@ == (if spec_is_float_llvm_ty(storage_ty@) { "0.0"@ } else { "0"@ }),
{
    if is_float_llvm_ty(storage_ty) {
        "0.0"
    } else {
        "0"
    }
}

/// `fadd` for floating storage, `add` otherwise.
pub fn llvm_scalar_materialize_op(storage_ty: &str) -> (r: &'static str)
    ensures
        r@ == (if spec_is_float_llvm_ty(storage_ty@) { "fadd"@ } else { "add"@ }),
{
    if is_float_llvm_ty(storage_ty) {
        "fadd"
    } else {
        "add"
    }
}

/// Operand of a binary instruction: the register or literal text unchanged.
pub fn llvm_binop_operand(reg: &str) -> (r: String)
    ensures
        r@ == reg@,
{
    String::from_str(reg)
}

/// Operand of a comparison: same as a binary-instruction operand.
pub fn llvm_cmp_operand(reg: &str) -> (r: String)
    ensures
        r@ == reg@,
{
    llvm_binop_operand(reg)
}

/// `"{storage} {left}, {right}"` for an arithmetic instruction.
pub open spec fn spec_llvm_arith_rhs(ty: Seq<char>, left: Seq<char>, right: Seq<char>) -> Seq<char> {
    let storage = if ty == "double"@ { "double"@ } else { spec_llvm_storage_ty(ty) };
    storage + " "@ + left + ", "@ + right
}

pub fn llvm_arith_rhs(ty: &str, left: &str, right: &str) -> (r: String)
    ensures
        r@ == spec_llvm_arith_rhs(ty@, left@, right@),
{
    let storage: &str = if str_eq(ty, "double") { "double" } else { llvm_storage_ty(ty) };
    let l = llvm_binop_operand(left);
    let rr = llvm_binop_operand(right);
    String::from_str(storage).concat(" ").concat(l.as_str()).concat(", ").concat(rr.as_str())
}

/// Pointer type to a value of type `ty`.
pub open spec fn spec_llvm_ptr(ty: Seq<char>) -> Seq<char> {
    let storage = spec_llvm_storage_ty(ty);
    if storage == "ptr"@ {
        "ptr"@
    } else {
        storage + "*"@
    }
}

pub fn llvm_ptr(ty: &str) -> (r: String)
    ensures
        r@ == spec_llvm_ptr(ty@),
{
    let storage = llvm_storage_ty(ty);
    if str_eq(storage, "ptr") {
        String::from_str("ptr")
    } else {
        String::from_str(storage).concat("*")
    }
}

/// Element type loaded through a pointer type (`i32*` → `i32`, `ptr` → `i32`).
pub open spec fn spec_llvm_pointee_ty(ty: Seq<char>) -> Seq<char> {
    let t = trim_start_char(ty, '%');
    if t == "ptr"@ || t == "i8*"@ {
        "i32"@
    } else if ends_with_char(t, '*') && t.len() > 1 {
        t.drop_last()
    } else {
        t
    }
}

pub fn llvm_pointee_ty(ty: &str) -> (r: String)
    ensures
        r@ == spec_llvm_pointee_ty(ty@),
{
    let v = chars_of(ty);
    let k = count_leading(v.as_slice(), '%');
    let t = slice_to_vec(v.as_slice(), k, v.len());
    assert(t@ =~= v@.skip(k as int));
    if chars_eq_str(t.as_slice(), "ptr") || chars_eq_str(t.as_slice(), "i8*") {
        return String::from_str("i32");
    }
    let n = t.len();
    if n > 1 && t[n - 1] == '*' {
        let base = slice_to_vec(t.as_slice(), 0, n - 1);
        assert(base@ =~= t@.drop_last());
        return string_of(base.as_slice());
    }
    string_of(t.as_slice())
}

/// Struct value type behind a struct pointer type (`%S*` → `%S`).
pub open spec fn spec_struct_value_type(ty: Seq<char>) -> Seq<char> {
    if starts_with_char(ty, '%') && ends_with_char(ty, '*') {
        trim_end_char(ty, '*')
    } else {
        ty
    }
}

pub fn struct_value_type(ty: &str) -> (r: String)
    ensures
        r@ == spec_struct_value_type(ty@),
{
    let v = chars_of(ty);
    let n = v.len();
    if n > 0 && v[0] == '%' && v[n - 1] == '*' {
        let k = len_without_trailing(v.as_slice(), '*');
        let t = slice_to_vec(v.as_slice(), 0, k);
        string_of(t.as_slice())
    } else {
        String::from_str(ty)
    }
}

/// Is `ty` a pointer to a named struct (`%S*`)?
pub fn is_struct_pointer_type(ty: &str) -> (r: bool)
    ensures
        r == (starts_with_char(ty@, '%') && ends_with_char(ty@, '*')),
{
    let v = chars_of(ty);
    let n = v.len();
    n > 0 && v[0] == '%' && v[n - 1] == '*'
}

/// Pointer type to the struct `struct_ty` (with or without its `%`).
pub open spec fn spec_struct_ptr_type(struct_ty: Seq<char>) -> Seq<char> {
    if starts_with_char(struct_ty, '%') {
        struct_ty + "*"@
    } else {
        "%"@ + struct_ty + "*"@
    }
}

pub fn struct_ptr_type(struct_ty: &str) -> (r: String)
    ensures
        r@ == spec_struct_ptr_type(struct_ty@),
{
    if first_char(struct_ty) == Some('%') {
        String::from_str(struct_ty).concat("*")
    } else {
        String::from_str("%").concat(struct_ty).concat("*")
    }
}

/// Struct name named by an LLVM struct or struct-pointer type.
pub open spec fn spec_struct_name_from_llvm_ty(ty: Seq<char>) -> Option<Seq<char>> {
    if ends_with_char(ty, '*') {
        Some(trim_end_char(trim_start_char(ty, '%'), '*'))
    } else if starts_with_char(ty, '%') {
        Some(trim_start_char(ty, '%'))
    } else {
        None
    }
}

pub fn struct_name_from_llvm_ty(ty: &str) -> (r: Option<String>)
    ensures
        match r {
            Some(n) => spec_struct_name_from_llvm_ty(ty@) == Some(n@),
            None => spec_struct_name_from_llvm_ty(ty@) is None,
        },
{
    let v = chars_of(ty);
    let n = v.len();
    let k = count_leading(v.as_slice(), '%');
    let t = slice_to_vec(v.as_slice(), k, n);
    assert(t@ =~= v@.skip(k as int));
    if n > 0 && v[n - 1] == '*' {
        let e = len_without_trailing(t.as_slice(), '*');
        let u = slice_to_vec(t.as_slice(), 0, e);
        Some(string_of(u.as_slice()))
    } else if n > 0 && v[0] == '%' {
        Some(string_of(t.as_slice()))
    } else {
        None
    }
}


/// The type annotation an LLVM type name stands for (`i32` for anything unknown).
pub open spec fn spec_llvm_ty_to_ann(ty: Seq<char>) -> TypeAnnotation {
    match spec_int_kind_of_name(ty) {
        Some(k) => TypeAnnotation::Integer(k),
        None => if ty == "float"@ {
            TypeAnnotation::F32
        } else if ty == "double"@ {
            TypeAnnotation::F64
        } else if ty == "char"@ {
            TypeAnnotation::Char
        } else if ty == "i1"@ {
            TypeAnnotation::Bool
        } else if ty == "ptr"@ {
            TypeAnnotation::String
        } else {
            TypeAnnotation::Integer(IntKind::I32)
        },
    }
}

/// Does `ann` stand for the LLVM type `ty`? (For a struct, its name is `ty`
/// without its leading `%`s.)
pub open spec fn ann_of_llvm_ty(ann: TypeAnnotation, ty: Seq<char>) -> bool {
    if spec_int_kind_of_name(ty) is None && !(ty == "float"@ || ty == "double"@ || ty == "char"@
        || ty == "i1"@ || ty == "ptr"@) && starts_with_char(ty, '%') {
        ann matches TypeAnnotation::Struct(n) && n@ == trim_start_char(ty, '%')
    } else {
        ann == spec_llvm_ty_to_ann(ty)
    }
}

pub fn llvm_ty_to_ann(ty: &str) -> (r: TypeAnnotation)
    ensures
        ann_of_llvm_ty(r, ty@),
{
    if let Some(k) = IntKind::parse_name(ty) {
        return TypeAnnotation::Integer(k);
    }
    if str_eq(ty, "float") {
        TypeAnnotation::F32
    } else if str_eq(ty, "double") {
        TypeAnnotation::F64
    } else if str_eq(ty, "char") {
        TypeAnnotation::Char
    } else if str_eq(ty, "i1") {
        TypeAnnotation::Bool
    } else if str_eq(ty, "ptr") {
        TypeAnnotation::String
    } else {
        let v = chars_of(ty);
        if v.len() > 0 && v[0] == '%' {
            let k = count_leading(v.as_slice(), '%');
            let t = slice_to_vec(v.as_slice(), k, v.len());
            assert(t@ =~= v@.skip(k as int));
            TypeAnnotation::Struct(string_of(t.as_slice()))
        } else {
            TypeAnnotation::Integer(IntKind::I32)
        }
    }
}

/// The variable an assignment target names, when it is a plain variable.
pub open spec fn spec_assign_target_name(e: &Expression) -> Option<Seq<char>> {
    match e {
        Expression::Variable { name, .. } => Some(name@),
        _ => None,
    }
}

pub fn assign_target_name(e: &Expression) -> (r: Option<&str>)
    ensures
        match r {
            Some(n) => spec_assign_target_name(e) == Some(n@),
            None => spec_assign_target_name(e) is None,
        },
{
    match e {
        Expression::Variable { name, .. } => Some(name.as_str()),
        _ => None,
    }
}

/// Variables assigned directly in `s` or in the branches of its `if`s, but not
/// inside loops (the bindings a loop carries from one iteration to the next).
pub open spec fn loop_carried(s: Seq<Statement>) -> Set<Seq<char>>
    decreases s,
{
    if s.len() == 0 {
        Set::empty()
    } else {
        loop_carried(s.subrange(0, s.len() - 1)).union(
            match &s[s.len() - 1] {
                Statement::Assign(a) => match spec_assign_target_name(&a.target) {
                    Some(n) => set![n],
                    None => Set::empty(),
                },
                Statement::If(i) => loop_carried(i.then_block.statements@).union(
                    match &i.else_block {
                        Some(el) => loop_carried(el.statements@),
                        None => Set::empty(),
                    },
                ),
                _ => Set::empty(),
            },
        )
    }
}

/// Variables assigned anywhere in `s`, nested blocks included.
pub open spec fn assigned_anywhere(s: Seq<Statement>) -> Set<Seq<char>>
    decreases s,
{
    if s.len() == 0 {
        Set::empty()
    } else {
        assigned_anywhere(s.subrange(0, s.len() - 1)).union(
            match &s[s.len() - 1] {
                Statement::Assign(a) => match spec_assign_target_name(&a.target) {
                    Some(n) => set![n],
                    None => Set::empty(),
                },
                Statement::If(i) => assigned_anywhere(i.then_block.statements@).union(
                    match &i.else_block {
                        Some(el) => assigned_anywhere(el.statements@),
                        None => Set::empty(),
                    },
                ),
                Statement::While(w) => assigned_anywhere(w.body.statements@),
                Statement::For(f) => assigned_anywhere(f.body.statements@),
                _ => Set::empty(),
            },
        )
    }
}

fn add_all(out: &mut NameSet, other: &NameSet)
    requires
        old(out).wf(),
        other.wf(),
    ensures
        final(out).wf(),
        final(out)@ == old(out)@.union(other@),
{
    let mut i: usize = 0;
    while i < other.names.len()
        invariant
            other.wf(),
            out.wf(),
            i <= other.names@.len(),
            out@ == old(out)@.union(Set::new(|n: Seq<char>| exists|j: int| 0 <= j < i && #[trigger] other.names@[j]@ == n)),
        decreases other.names@.len() - i,
    {
        out.insert(other.names[i].as_str());
        proof {
            let ghost nn = other.names@[i as int]@;
            assert(out@ =~= old(out)@.union(Set::new(|n: Seq<char>| exists|j: int| 0 <= j < i + 1 && #[trigger] other.names@[j]@ == n))) by {
                assert(other.names@[i as int]@ == nn);
            }
        }
        i = i + 1;
    }
    assert(out@ =~= old(out)@.union(other@));
}

fn loop_carried_in(v: &Vec<Statement>) -> (r: NameSet)
    ensures
        r.wf(),
        r@ == loop_carried(v@),
    decreases v,
{
    let mut out = NameSet::new();
    let mut i: usize = 0;
    proof {
        assert(v@.take(0) =~= Seq::<Statement>::empty());
    }
    while i < v.len()
        invariant
            i <= v@.len(),
            out.wf(),
            out@ == loop_carried(v@.take(i as int)),
        decreases v@.len() - i,
    {
        let ghost o = out@;
        match &v[i] {
            Statement::Assign(a) => {
                if let Some(n) = assign_target_name(&a.target) {
                    out.insert(n);
                }
            },
            Statement::If(ifs) => {
                let t = loop_carried_in(&ifs.then_block.statements);
                add_all(&mut out, &t);
                if let Some(el) = &ifs.else_block {
                    let e = loop_carried_in(&el.statements);
                    add_all(&mut out, &e);
                }
            },
            _ => {},
        }
        proof {
            assert(v@.take(i + 1).subrange(0, i as int) =~= v@.take(i as int));
            assert(out@ =~= loop_carried(v@.take(i + 1)));
        }
        i = i + 1;
    }
    proof {
        assert(v@.take(v@.len() as int) =~= v@);
    }
    out
}

/// Variables assigned in `block` at its own loop level: directly or in the
/// branches of its `if`s, not inside nested loops.
pub fn collect_loop_carried_in_block(block: &Block) -> (r: NameSet)
    ensures
        r.wf(),
        r@ == loop_carried(block.statements@),
{
    loop_carried_in(&block.statements)
}

fn assigned_in(v: &Vec<Statement>) -> (r: NameSet)
    ensures
        r.wf(),
        r@ == assigned_anywhere(v@),
    decreases v,
{
    let mut out = NameSet::new();
    let mut i: usize = 0;
    proof {
        assert(v@.take(0) =~= Seq::<Statement>::empty());
    }
    while i < v.len()
        invariant
            i <= v@.len(),
            out.wf(),
            out@ == assigned_anywhere(v@.take(i as int)),
        decreases v@.len() - i,
    {
        match &v[i] {
            Statement::Assign(a) => {
                if let Some(n) = assign_target_name(&a.target) {
                    out.insert(n);
                }
            },
            Statement::If(ifs) => {
                let t = assigned_in(&ifs.then_block.statements);
                add_all(&mut out, &t);
                if let Some(el) = &ifs.else_block {
                    let e = assigned_in(&el.statements);
                    add_all(&mut out, &e);
                }
            },
            Statement::While(w) => {
                let t = assigned_in(&w.body.statements);
                add_all(&mut out, &t);
            },
            Statement::For(f) => {
                let t = assigned_in(&f.body.statements);
                add_all(&mut out, &t);
            },
            _ => {},
        }
        proof {
            assert(v@.take(i + 1).subrange(0, i as int) =~= v@.take(i as int));
            assert(out@ =~= assigned_anywhere(v@.take(i + 1)));
        }
        i = i + 1;
    }
    proof {
        assert(v@.take(v@.len() as int) =~= v@);
    }
    out
}

/// Variables assigned anywhere in `block`, nested `if`/`while`/`for` included.
pub fn collect_assigned_in_block(block: &Block) -> (r: NameSet)
    ensures
        r.wf(),
        r@ == assigned_anywhere(block.statements@),
{
    assigned_in(&block.statements)
}


/// How a scalar literal is written into IR of a storage type.
#[derive(Debug, PartialEq, Eq, Copy, Clone, Structural)]
pub enum LiteralForm {
    /// The literal text as written.
    Verbatim,
    /// Parsed and printed as a `double` constant.
    Double,
    /// Parsed and printed as a `float` constant.
    Single,
}

/// Literals in exponent notation, and literals of non-float storage, stay as
/// written; other float literals are re-printed at their width.
pub open spec fn spec_literal_form(storage_ty: Seq<char>, raw: Seq<char>) -> LiteralForm {
    let exp = raw.contains('e') || raw.contains('E');
    if spec_llvm_float_storage_ty(storage_ty) == "double"@ {
        if exp { LiteralForm::Verbatim } else { LiteralForm::Double }
    } else if spec_llvm_float_storage_ty(storage_ty) == "float"@ {
        if exp { LiteralForm::Verbatim } else { LiteralForm::Single }
    } else {
        LiteralForm::Verbatim
    }
}

fn has_exponent(raw: &str) -> (r: bool)
    ensures
        r == (raw@.contains('e') || raw@.contains('E')),
{
    let cs = chars_of(raw);
    let mut i: usize = 0;
    while i < cs.len()
        invariant
            cs@ == raw@,
            i <= cs@.len(),
            forall|k: int| 0 <= k < i ==> cs@[k] != 'e' && cs@[k] != 'E',
        decreases cs@.len() - i,
    {
        if cs[i] == 'e' || cs[i] == 'E' {
            assert(raw@[i as int] == cs@[i as int]);
            return true;
        }
        i = i + 1;
    }
    false
}

pub fn literal_form(storage_ty: &str, raw: &str) -> (r: LiteralForm)
    ensures
        r == spec_literal_form(storage_ty@, raw@),
{
    let st = llvm_float_storage_ty(storage_ty);
    let exp = has_exponent(raw);
    if str_eq(st, "double") {
        if exp { LiteralForm::Verbatim } else { LiteralForm::Double }
    } else if str_eq(st, "float") {
        if exp { LiteralForm::Verbatim } else { LiteralForm::Single }
    } else {
        LiteralForm::Verbatim
    }
}

} // verus!
