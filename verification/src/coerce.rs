//! Coercing a lowered value to another LLVM type: the conversion instruction
//! (`fptosi`, `trunc`, `zext`, `sext`, `sitofp`) when one is needed, and
//! spilling a struct value to a stack slot when a pointer is wanted. Each
//! function takes the next temporary number and returns the lines to emit.
use vstd::prelude::*;
use crate::intrinsics::temp_name;
use crate::llvm_util::{
    is_array_ty, llvm_ptr, llvm_ptr_reg, llvm_storage_ty, spec_llvm_ptr, spec_llvm_ptr_reg, spec_llvm_storage_ty,
    spec_struct_ptr_type, struct_ptr_type,
};
use crate::names::NameSet;
use crate::lowering::ExprValue;
use crate::num::decimal_of;
use crate::text::{
    chars_of, count_leading, ends_with_char, first_char, len_without_trailing, slice_to_vec, starts_with_char, str_eq,
    string_of, trim_end_char, trim_start_char,
};
use crate::types_map::{llvm_int_bits, spec_llvm_int_bits};

verus! {

/// The conversion from `from_ty` to `to_ty`, as (instruction, temporary
/// prefix), after mapping both to their storage types: none between equal
/// types; `fptosi` from `double` to an integer (none to anything else);
/// between integers of different widths `trunc` when narrowing, `zext` when
/// widening from `i8` or `i16` and `sext` otherwise; `sitofp` from `i32` to
/// `double` or `float`; none otherwise.
pub open spec fn spec_coercion(from_ty: Seq<char>, to_ty: Seq<char>) -> Option<(Seq<char>, Seq<char>)> {
    let from = spec_llvm_storage_ty(from_ty);
    let to = spec_llvm_storage_ty(to_ty);
    if from_ty == to_ty || from == to {
        None
    } else if from == "double"@ {
        if spec_llvm_int_bits(to) is Some {
            Some(("fptosi"@, "cast"@))
        } else {
            None
        }
    } else if spec_llvm_int_bits(from) is Some && spec_llvm_int_bits(to) is Some {
        let fb = spec_llvm_int_bits(from)->0;
        let tb = spec_llvm_int_bits(to)->0;
        if fb == tb {
            None
        } else if fb > tb {
            Some(("trunc"@, "cast"@))
        } else if from == "i8"@ || from == "i16"@ {
            Some(("zext"@, "cast"@))
        } else {
            Some(("sext"@, "cast"@))
        }
    } else if from == "i32"@ && (to == "double"@ || to == "float"@) {
        Some(("sitofp"@, "sitofp"@))
    } else {
        None
    }
}

/// The operand and the line (if any) of coercing operand `reg` from
/// `from_ty` to `to_ty` with temporary number `n`: the operand unchanged when
/// no conversion applies, else `%prefix.n` defined by
/// `%prefix.n = op FROM reg to TO` (storage types).
pub open spec fn spec_coerce_reg(reg: Seq<char>, from_ty: Seq<char>, to_ty: Seq<char>, n: nat) -> (Seq<char>, Option<Seq<char>>) {
    match spec_coercion(from_ty, to_ty) {
        None => (reg, None),
        Some((op, prefix)) => {
            let t = temp_name(prefix, n);
            (
                "%"@ + t,
                Some(
                    "  %"@ + t + " = "@ + op + " "@ + spec_llvm_storage_ty(from_ty) + " "@ + reg + " to "@
                        + spec_llvm_storage_ty(to_ty),
                ),
            )
        },
    }
}

fn coercion(from_ty: &str, to_ty: &str) -> (r: Option<(&'static str, &'static str)>)
    ensures
        match r {
            Some((op, prefix)) => spec_coercion(from_ty@, to_ty@) == Some((op@, prefix@)),
            None => spec_coercion(from_ty@, to_ty@) is None,
        },
{
    if str_eq(from_ty, to_ty) {
        return None;
    }
    let from = llvm_storage_ty(from_ty);
    let to = llvm_storage_ty(to_ty);
    if str_eq(from, to) {
        return None;
    }
    if str_eq(from, "double") {
        return if llvm_int_bits(to).is_some() {
            Some(("fptosi", "cast"))
        } else {
            None
        };
    }
    match (llvm_int_bits(from), llvm_int_bits(to)) {
        (Some(fb), Some(tb)) => {
            if fb == tb {
                None
            } else if fb > tb {
                Some(("trunc", "cast"))
            } else if str_eq(from, "i8") || str_eq(from, "i16") {
                Some(("zext", "cast"))
            } else {
                Some(("sext", "cast"))
            }
        },
        _ => {
            if str_eq(from, "i32") && (str_eq(to, "double") || str_eq(to, "float")) {
                Some(("sitofp", "sitofp"))
            } else {
                None
            }
        },
    }
}

/// Coerces operand `reg` from `from_ty` to `to_ty`, numbering the temporary
/// `temp`: the resulting operand and the line to emit, if any (see
/// `spec_coerce_reg`; a line uses the one temporary).
pub fn coerce_value_reg_to_type(reg: &str, from_ty: &str, to_ty: &str, temp: u64) -> (r: (String, Option<String>))
    ensures
        (r.0@, match r.1 {
            Some(l) => Some(l@),
            None => None,
        }) == spec_coerce_reg(reg@, from_ty@, to_ty@, temp as nat),
{
    match coercion(from_ty, to_ty) {
        None => (String::from_str(reg), None),
        Some((op, prefix)) => {
            let t = String::from_str(prefix).concat(".").concat(decimal_of(temp).as_str());
            let line = String::from_str("  %").concat(t.as_str()).concat(" = ").concat(op).concat(" ").concat(
                llvm_storage_ty(from_ty),
            ).concat(" ").concat(reg).concat(" to ").concat(llvm_storage_ty(to_ty));
            (String::from_str("%").concat(t.as_str()), Some(line))
        },
    }
}

/// Spilling a struct value to a new stack slot `arg.tmp.n`: the slot's name
/// and the `alloca` and `store` lines.
pub open spec fn spec_struct_slot(reg: Seq<char>, ty: Seq<char>, n: nat) -> (Seq<char>, Seq<Seq<char>>) {
    let slot = temp_name("arg.tmp"@, n);
    (
        slot,
        seq![
            "  %"@ + slot + " = alloca "@ + ty,
            "  store "@ + ty + " "@ + reg + ", "@ + spec_llvm_ptr(ty) + " %"@ + slot,
        ],
    )
}

/// The texts of a list of lines.
pub open spec fn line_texts(v: Seq<String>) -> Seq<Seq<char>> {
    v.map_values(|l: String| l@)
}

/// Spills `val` to a new stack slot numbered `temp` (see `spec_struct_slot`).
pub fn materialize_struct_ssa_slot(val: &ExprValue, temp: u64) -> (r: (String, Vec<String>))
    ensures
        (r.0@, line_texts(r.1@)) == spec_struct_slot(val.reg@, val.ty@, temp as nat),
{
    let slot = String::from_str("arg.tmp").concat(".").concat(decimal_of(temp).as_str());
    let mut lines: Vec<String> = Vec::new();
    lines.push(String::from_str("  %").concat(slot.as_str()).concat(" = alloca ").concat(val.ty.as_str()));
    lines.push(
        String::from_str("  store ").concat(val.ty.as_str()).concat(" ").concat(val.reg.as_str()).concat(", ").concat(
            llvm_ptr(val.ty.as_str()).as_str(),
        ).concat(" %").concat(slot.as_str()),
    );
    assert(line_texts(lines@) =~= spec_struct_slot(val.reg@, val.ty@, temp as nat).1);
    (slot, lines)
}

/// `reg` as a register operand: kept when it starts with `%` (or, when
/// `numbers` is set, when it is made only of digits, `-` and `.`), else `%`
/// before it.
pub open spec fn operand_of(reg: Seq<char>, numbers: bool) -> Seq<char> {
    if starts_with_char(reg, '%') || (numbers && forall|i: int| 0 <= i < reg.len() ==> is_number_char(#[trigger] reg[i])) {
        reg
    } else {
        "%"@ + trim_start_char(reg, '%')
    }
}

/// A character of a numeric literal operand.
pub open spec fn is_number_char(c: char) -> bool {
    ('0' <= c && c <= '9') || c == '-' || c == '.'
}

fn operand_exec(reg: &str, numbers: bool) -> (r: String)
    ensures
        r@ == operand_of(reg@, numbers),
{
    let v = chars_of(reg);
    if first_char(reg) == Some('%') {
        return String::from_str(reg);
    }
    if numbers {
        let mut i: usize = 0;
        let mut all = true;
        while i < v.len()
            invariant
                v@ == reg@,
                i <= v@.len(),
                all == forall|j: int| 0 <= j < i ==> is_number_char(#[trigger] v@[j]),
            decreases v@.len() - i,
        {
            let c = v[i];
            let ok = ('0' <= c && c <= '9') || c == '-' || c == '.';
            if !ok {
                assert(!is_number_char(v@[i as int]));
            }
            all = all && ok;
            i = i + 1;
        }
        if all {
            return String::from_str(reg);
        }
    }
    let k = count_leading(v.as_slice(), '%');
    let rest = slice_to_vec(v.as_slice(), k, v.len());
    assert(rest@ =~= v@.skip(k as int));
    String::from_str("%").concat(string_of(rest.as_slice()).as_str())
}

/// Coercing a lowered value (operand `reg`, type `ty`) to `to_ty` with
/// temporary number `n`: the resulting operand and type, and the lines to
/// emit. The value is kept as it is when it already has that type; a struct
/// value wanted as `ptr` is spilled to a slot; values involving structs,
/// arrays or pointers are kept; `i32` to `double` or `float` converts;
/// other values involving `double` are kept; any other pair goes through
/// `spec_coerce_reg` on the register operand, keeping the value when that
/// yields the operand unchanged.
pub open spec fn spec_coerce_expr(reg: Seq<char>, ty: Seq<char>, to_ty: Seq<char>, n: nat) -> (Seq<char>, Seq<char>, Seq<Seq<char>>) {
    if ty == to_ty {
        (reg, ty, seq![])
    } else if to_ty == "ptr"@ && starts_with_char(ty, '%') && !ends_with_char(ty, '*') {
        let (slot, lines) = spec_struct_slot(reg, ty, n);
        (slot, spec_struct_ptr_type(ty), lines)
    } else if starts_with_char(ty, '%') || starts_with_char(to_ty, '%') || starts_with_char(ty, '[') || starts_with_char(
        to_ty,
        '[',
    ) || ty == "ptr"@ || to_ty == "ptr"@ {
        (reg, ty, seq![])
    } else if ty == "i32"@ && (to_ty == "double"@ || to_ty == "float"@) {
        let (c, line) = spec_coerce_reg(operand_of(reg, false), ty, to_ty, n);
        (c, to_ty, match line {
            Some(l) => seq![l],
            None => seq![],
        })
    } else if ty == "double"@ || to_ty == "double"@ {
        (reg, ty, seq![])
    } else {
        let op = operand_of(reg, true);
        let (c, line) = spec_coerce_reg(op, ty, to_ty, n);
        let lines = match line {
            Some(l) => seq![l],
            None => seq![],
        };
        if c == op {
            (reg, ty, lines)
        } else {
            (c, to_ty, lines)
        }
    }
}

fn no_lines() -> (r: Vec<String>)
    ensures
        line_texts(r@) == Seq::<Seq<char>>::empty(),
{
    let v: Vec<String> = Vec::new();
    assert(line_texts(v@) =~= Seq::<Seq<char>>::empty());
    v
}

fn lines_of_line(line: Option<String>) -> (r: Vec<String>)
    ensures
        line_texts(r@) == match line {
            Some(l) => seq![l@],
            None => Seq::<Seq<char>>::empty(),
        },
{
    let mut v: Vec<String> = Vec::new();
    match line {
        Some(l) => v.push(l),
        None => {},
    }
    assert(line_texts(v@) =~= match line {
        Some(l) => seq![l@],
        None => Seq::<Seq<char>>::empty(),
    });
    v
}

/// Coerces `val` to LLVM type `to_ty`, numbering any temporary `temp` (see
/// `spec_coerce_expr`; emitted lines use that one temporary).
pub fn coerce_expr_to_llvm_type(val: ExprValue, to_ty: &str, temp: u64) -> (r: (ExprValue, Vec<String>))
    ensures
        (r.0.reg@, r.0.ty@, line_texts(r.1@)) == spec_coerce_expr(val.reg@, val.ty@, to_ty@, temp as nat),
{
    if str_eq(val.ty.as_str(), to_ty) {
        return (val, no_lines());
    }
    let tv = chars_of(val.ty.as_str());
    let struct_value = tv.len() > 0 && tv[0] == '%' && tv[tv.len() - 1] != '*';
    if str_eq(to_ty, "ptr") && struct_value {
        let (slot, lines) = materialize_struct_ssa_slot(&val, temp);
        return (ExprValue { reg: slot, ty: struct_ptr_type(val.ty.as_str()) }, lines);
    }
    if first_char(val.ty.as_str()) == Some('%') || first_char(to_ty) == Some('%') || is_array_ty(val.ty.as_str())
        || is_array_ty(to_ty) || str_eq(val.ty.as_str(), "ptr") || str_eq(to_ty, "ptr") {
        return (val, no_lines());
    }
    if str_eq(val.ty.as_str(), "i32") && (str_eq(to_ty, "double") || str_eq(to_ty, "float")) {
        let op = operand_exec(val.reg.as_str(), false);
        let (c, line) = coerce_value_reg_to_type(op.as_str(), val.ty.as_str(), to_ty, temp);
        return (ExprValue { reg: c, ty: String::from_str(to_ty) }, lines_of_line(line));
    }
    if str_eq(val.ty.as_str(), "double") || str_eq(to_ty, "double") {
        return (val, no_lines());
    }
    let op = operand_exec(val.reg.as_str(), true);
    let (c, line) = coerce_value_reg_to_type(op.as_str(), val.ty.as_str(), to_ty, temp);
    let lines = lines_of_line(line);
    if str_eq(c.as_str(), op.as_str()) {
        (val, lines)
    } else {
        (ExprValue { reg: c, ty: String::from_str(to_ty) }, lines)
    }
}

/// A pointer operand for `reg`: a global `@name` that is not a function gets
/// a `getelementptr` to its first byte in temporary `str.n`; a function or
/// anything else is its pointer operand.
pub open spec fn spec_materialize_ptr(functions: Set<Seq<char>>, reg: Seq<char>, n: nat) -> (Seq<char>, Seq<Seq<char>>) {
    if starts_with_char(reg, '@') && !functions.contains(trim_start_char(reg, '@')) {
        let t = temp_name("str"@, n);
        ("%"@ + t, seq!["  %"@ + t + " = getelementptr inbounds i8, ptr "@ + reg + ", i64 0"@])
    } else if starts_with_char(reg, '@') {
        (reg, seq![])
    } else {
        (spec_llvm_ptr_reg(reg), seq![])
    }
}

fn trim_at(s: &str) -> (r: String)
    ensures
        r@ == trim_start_char(s@, '@'),
{
    let v = chars_of(s);
    let k = count_leading(v.as_slice(), '@');
    let rest = slice_to_vec(v.as_slice(), k, v.len());
    assert(rest@ =~= v@.skip(k as int));
    string_of(rest.as_slice())
}

/// A pointer operand for `reg` with temporary number `temp` (see
/// `spec_materialize_ptr`).
pub fn materialize_ptr_reg(functions: &NameSet, reg: &str, temp: u64) -> (r: (String, Vec<String>))
    requires
        functions.wf(),
    ensures
        (r.0@, line_texts(r.1@)) == spec_materialize_ptr(functions@, reg@, temp as nat),
{
    if first_char(reg) == Some('@') {
        let name = trim_at(reg);
        if functions.contains(name.as_str()) {
            return (String::from_str(reg), no_lines());
        }
        let t = String::from_str("str").concat(".").concat(decimal_of(temp).as_str());
        let line = String::from_str("  %").concat(t.as_str()).concat(" = getelementptr inbounds i8, ptr ").concat(
            reg,
        ).concat(", i64 0");
        let lines = lines_of_line(Some(line));
        (String::from_str("%").concat(t.as_str()), lines)
    } else {
        (llvm_ptr_reg(reg), no_lines())
    }
}

/// Lowering `value as T` once the value is lowered (operand `reg`, type
/// `from`) and `T`'s LLVM type `to` is known, temporaries numbered from `n`
/// (`cast.n` is always taken): the resulting operand and type, the lines, and
/// the number of temporaries used. `i32`/`i64` to `ptr` is `inttoptr`, `ptr`
/// to `i32`/`i64` is `ptrtoint` of the pointer operand, equal types keep the
/// value, and any other pair converts (see `spec_coerce_reg`) or else is a
/// `bitcast`.
pub open spec fn spec_lower_cast(functions: Set<Seq<char>>, reg: Seq<char>, from: Seq<char>, to: Seq<char>, n: nat) -> (
    Seq<char>,
    Seq<char>,
    Seq<Seq<char>>,
    nat,
) {
    let c = temp_name("cast"@, n);
    if (from == "i32"@ || from == "i64"@) && to == "ptr"@ {
        ("%"@ + c, to, seq!["  %"@ + c + " = inttoptr "@ + from + " "@ + reg + " to ptr"@], 1)
    } else if from == "ptr"@ && (to == "i32"@ || to == "i64"@) {
        let (p, pl) = spec_materialize_ptr(functions, reg, n + 1);
        ("%"@ + c, to, pl.push("  %"@ + c + " = ptrtoint ptr "@ + p + " to "@ + to), 1 + pl.len())
    } else if from == to {
        (reg, from, seq![], 1)
    } else {
        let (k, line) = spec_coerce_reg(reg, from, to, n + 1);
        let cl = match line {
            Some(l) => seq![l],
            None => seq![],
        };
        if k != reg {
            (k, to, cl, 1 + cl.len())
        } else {
            ("%"@ + c, to, cl.push("  %"@ + c + " = bitcast "@ + from + " "@ + reg + " to "@ + to), 1 + cl.len())
        }
    }
}

/// Lowers a cast of the lowered value `inner` to LLVM type `target`,
/// numbering temporaries from `temp` (see `spec_lower_cast`).
pub fn lower_cast(functions: &NameSet, inner: ExprValue, target: &str, temp: u64) -> (r: (ExprValue, Vec<String>, u64))
    requires
        functions.wf(),
        temp < u64::MAX,
    ensures
        (r.0.reg@, r.0.ty@, line_texts(r.1@), r.2 as nat) == spec_lower_cast(
            functions@,
            inner.reg@,
            inner.ty@,
            target@,
            temp as nat,
        ),
{
    let c = String::from_str("cast").concat(".").concat(decimal_of(temp).as_str());
    let from = inner.ty.as_str();
    if (str_eq(from, "i32") || str_eq(from, "i64")) && str_eq(target, "ptr") {
        let line = String::from_str("  %").concat(c.as_str()).concat(" = inttoptr ").concat(
            if str_eq(from, "i64") {
                "i64"
            } else {
                "i32"
            },
        ).concat(" ").concat(inner.reg.as_str()).concat(" to ptr");
        let lines = lines_of_line(Some(line));
        return (ExprValue { reg: String::from_str("%").concat(c.as_str()), ty: String::from_str(target) }, lines, 1);
    }
    if str_eq(from, "ptr") && (str_eq(target, "i32") || str_eq(target, "i64")) {
        let (p, mut lines) = materialize_ptr_reg(functions, inner.reg.as_str(), temp + 1);
        let used: u64 = 1 + lines.len() as u64;
        let ghost before = line_texts(lines@);
        let line = String::from_str("  %").concat(c.as_str()).concat(" = ptrtoint ptr ").concat(p.as_str()).concat(
            " to ",
        ).concat(target);
        lines.push(line);
        assert(line_texts(lines@) =~= before.push(line@));
        return (ExprValue { reg: String::from_str("%").concat(c.as_str()), ty: String::from_str(target) }, lines, used);
    }
    if str_eq(from, target) {
        return (inner, no_lines(), 1);
    }
    let (k, line) = coerce_value_reg_to_type(inner.reg.as_str(), from, target, temp + 1);
    let mut lines = lines_of_line(line);
    let used: u64 = 1 + lines.len() as u64;
    if !str_eq(k.as_str(), inner.reg.as_str()) {
        return (ExprValue { reg: k, ty: String::from_str(target) }, lines, used);
    }
    let ghost before = line_texts(lines@);
    let bit = String::from_str("  %").concat(c.as_str()).concat(" = bitcast ").concat(from).concat(" ").concat(
        inner.reg.as_str(),
    ).concat(" to ").concat(target);
    lines.push(bit);
    assert(line_texts(lines@) =~= before.push(bit@));
    (ExprValue { reg: String::from_str("%").concat(c.as_str()), ty: String::from_str(target) }, lines, used)
}

/// Passing a lowered value to a comparison callback whose parameter has type
/// `param_ty`: a struct value where a pointer to that struct is expected is
/// spilled to the slot `cmp.arg.n` (`alloca`, then `store`); anything else is
/// passed as it is. Gives the operand, its type and the lines.
pub open spec fn spec_compare_operand(reg: Seq<char>, ty: Seq<char>, param_ty: Seq<char>, n: nat) -> (Seq<char>, Seq<char>, Seq<Seq<char>>) {
    let st = trim_end_char(param_ty, '*');
    if ends_with_char(param_ty, '*') && ty == st {
        let slot = temp_name("cmp.arg"@, n);
        (
            "%"@ + slot,
            param_ty,
            seq!["  %"@ + slot + " = alloca "@ + st, "  store "@ + st + " "@ + reg + ", "@ + st + "* %"@ + slot],
        )
    } else {
        (reg, param_ty, seq![])
    }
}

/// The operand passed for `val` to a comparison callback (see
/// `spec_compare_operand`), numbering the slot `temp`.
pub fn emit_compare_call_operand(val: &ExprValue, param_ty: &str, temp: u64) -> (r: (String, String, Vec<String>))
    ensures
        (r.0@, r.1@, line_texts(r.2@)) == spec_compare_operand(val.reg@, val.ty@, param_ty@, temp as nat),
{
    let pv = chars_of(param_ty);
    let n = len_without_trailing(pv.as_slice(), '*');
    let st = string_of(slice_to_vec(pv.as_slice(), 0, n).as_slice());
    assert(pv@.subrange(0, n as int) =~= pv@.take(n as int));
    if pv.len() > 0 && pv[pv.len() - 1] == '*' && str_eq(val.ty.as_str(), st.as_str()) {
        let slot = String::from_str("cmp.arg").concat(".").concat(decimal_of(temp).as_str());
        let mut lines: Vec<String> = Vec::new();
        lines.push(String::from_str("  %").concat(slot.as_str()).concat(" = alloca ").concat(st.as_str()));
        lines.push(
            String::from_str("  store ").concat(st.as_str()).concat(" ").concat(val.reg.as_str()).concat(", ").concat(
                st.as_str(),
            ).concat("* %").concat(slot.as_str()),
        );
        assert(line_texts(lines@) =~= spec_compare_operand(val.reg@, val.ty@, param_ty@, temp as nat).2);
        return (String::from_str("%").concat(slot.as_str()), String::from_str(param_ty), lines);
    }
    (val.reg.clone(), String::from_str(param_ty), no_lines())
}

} // verus!
