//! String methods (`s.trim()`, `s.split(sep)`, `s.pad_end(n, fill)`, ...):
//! the runtime function each one calls, how its arguments are passed, and the
//! call that lowers it once the receiver and the arguments are lowered.
use vstd::prelude::*;
use crate::intrinsics::temp_name;
use crate::llvm_util::{llvm_ptr_reg, llvm_value_operand, spec_llvm_ptr_reg, spec_llvm_value_operand};
use crate::lowering::ExprValue;
use crate::num::decimal_of;
use crate::text::str_eq;

verus! {

/// Number of string methods with a runtime lowering.
pub const STRING_METHOD_COUNT: usize = 55;

/// Entry `i` of the string-method table: the method, the runtime function it
/// calls, the prefix of its result temporary, the LLVM return type of the
/// call, how each argument after the receiver is passed (`p` a pointer, `i`
/// an `i32`), and the type of the resulting value.
pub open spec fn string_method(i: usize) -> (Seq<char>, Seq<char>, Seq<char>, Seq<char>, Seq<char>, Seq<char>) {
    match i {
        0 => ("split"@, "str_split"@, "split"@, "ptr"@, "p"@, "vec_str"@),
        1 => ("trim"@, "str_trim"@, "trim"@, "ptr"@, ""@, "ptr"@),
        2 => ("to_upper"@, "str_to_upper"@, "upper"@, "ptr"@, ""@, "ptr"@),
        3 => ("to_lower"@, "str_to_lower"@, "lower"@, "ptr"@, ""@, "ptr"@),
        4 => ("contains"@, "str_contains"@, "contains"@, "i32"@, "p"@, "i32"@),
        5 => ("starts_with"@, "str_starts_with"@, "starts_with"@, "i32"@, "p"@, "i32"@),
        6 => ("ends_with"@, "str_ends_with"@, "ends_with"@, "i32"@, "p"@, "i32"@),
        7 => ("replace"@, "str_replace"@, "replace"@, "ptr"@, "pp"@, "ptr"@),
        8 => ("replacen"@, "str_replacen"@, "replacen"@, "ptr"@, "ppi"@, "ptr"@),
        9 => ("strip_suffix"@, "str_strip_suffix"@, "strip_suffix"@, "ptr"@, "p"@, "ptr"@),
        10 => ("to_snake_case"@, "str_to_snake_case"@, "to_snake_case"@, "ptr"@, ""@, "ptr"@),
        11 => ("to_lowercase"@, "str_to_lowercase"@, "to_lowercase"@, "ptr"@, ""@, "ptr"@),
        12 => ("to_titlecase"@, "str_to_titlecase"@, "to_titlecase"@, "ptr"@, ""@, "ptr"@),
        13 => ("to_capitalize"@, "str_to_capitalize"@, "to_capitalize"@, "ptr"@, ""@, "ptr"@),
        14 => ("to_camel_case"@, "str_to_camel_case"@, "to_camel_case"@, "ptr"@, ""@, "ptr"@),
        15 => ("to_kebab_case"@, "str_to_kebab_case"@, "to_kebab_case"@, "ptr"@, ""@, "ptr"@),
        16 => ("to_pascal_case"@, "str_to_pascal_case"@, "to_pascal_case"@, "ptr"@, ""@, "ptr"@),
        17 => ("to_screaming_snake_case"@, "str_to_screaming_snake_case"@, "to_screaming_snake_case"@, "ptr"@, ""@, "ptr"@),
        18 => ("to_train_case"@, "str_to_train_case"@, "to_train_case"@, "ptr"@, ""@, "ptr"@),
        19 => ("to_dot_case"@, "str_to_dot_case"@, "to_dot_case"@, "ptr"@, ""@, "ptr"@),
        20 => ("strip_prefix"@, "str_strip_prefix"@, "strip_prefix"@, "ptr"@, "p"@, "ptr"@),
        21 => ("index"@, "str_index"@, "index"@, "i32"@, "p"@, "i32"@),
        22 => ("is_empty"@, "str_is_empty"@, "is_empty"@, "i32"@, ""@, "i32"@),
        23 => ("last_index"@, "str_last_index"@, "last_index"@, "i32"@, "p"@, "i32"@),
        24 => ("repeat"@, "str_repeat"@, "repeat"@, "ptr"@, "i"@, "ptr"@),
        25 => ("trim_end"@, "str_trim_end"@, "trim_end"@, "ptr"@, ""@, "ptr"@),
        26 => ("trim_start"@, "str_trim_start"@, "trim_start"@, "ptr"@, ""@, "ptr"@),
        27 => ("splitn"@, "str_splitn"@, "splitn"@, "ptr"@, "pi"@, "vec_str"@),
        28 => ("count"@, "str_count"@, "count"@, "i32"@, "p"@, "i32"@),
        29 => ("fields"@, "str_fields"@, "fields"@, "ptr"@, ""@, "vec_str"@),
        30 => ("pad_end"@, "str_pad_end"@, "pad_end"@, "ptr"@, "ip"@, "ptr"@),
        31 => ("pad_start"@, "str_pad_start"@, "pad_start"@, "ptr"@, "ip"@, "ptr"@),
        32 => ("split_once"@, "str_before_sep"@, "split_once"@, "ptr"@, "p"@, "ptr"@),
        33 => ("compare"@, "str_compare"@, "compare"@, "i32"@, "p"@, "i32"@),
        34 => ("equal_fold"@, "str_equal_fold"@, "equal_fold"@, "i32"@, "p"@, "i32"@),
        35 => ("index_byte"@, "str_index_byte"@, "index_byte"@, "i32"@, "i"@, "i32"@),
        36 => ("last_index_byte"@, "str_last_index_byte"@, "last_index_byte"@, "i32"@, "i"@, "i32"@),
        37 => ("after_sep"@, "str_after_sep"@, "after_sep"@, "ptr"@, "p"@, "ptr"@),
        38 => ("char_at"@, "char_at"@, "char_at"@, "i32"@, "i"@, "i32"@),
        39 => ("pop"@, "str_pop"@, "pop"@, "ptr"@, ""@, "ptr"@),
        40 => ("push_char"@, "str_push_char"@, "push_char"@, "ptr"@, "i"@, "ptr"@),
        41 => ("strip_ansi"@, "str_strip_ansi"@, "strip_ansi"@, "ptr"@, ""@, "ptr"@),
        42 => ("substring"@, "substring"@, "substring"@, "ptr"@, "ii"@, "ptr"@),
        43 => ("before_sep"@, "str_before_sep"@, "before_sep"@, "ptr"@, "p"@, "ptr"@),
        44 => ("collapse_ws"@, "str_collapse_ws"@, "collapse_ws"@, "ptr"@, ""@, "ptr"@),
        45 => ("is_ascii"@, "str_is_ascii"@, "is_ascii"@, "i32"@, ""@, "i32"@),
        46 => ("common_prefix_len"@, "str_common_prefix_len"@, "common_prefix_len"@, "i32"@, "p"@, "i32"@),
        47 => ("is_alnum"@, "str_is_alnum"@, "is_alnum"@, "i32"@, ""@, "i32"@),
        48 => ("is_alpha"@, "str_is_alpha"@, "is_alpha"@, "i32"@, ""@, "i32"@),
        49 => ("is_digit"@, "str_is_digit"@, "is_digit"@, "i32"@, ""@, "i32"@),
        50 => ("pad_center"@, "str_pad_center"@, "pad_center"@, "ptr"@, "ip"@, "ptr"@),
        51 => ("reverse"@, "str_reverse"@, "reverse"@, "ptr"@, ""@, "ptr"@),
        52 => ("escape_json"@, "str_escape_json"@, "escape_json"@, "ptr"@, ""@, "ptr"@),
        53 => ("split_after"@, "str_split_after"@, "split_after"@, "ptr"@, "p"@, "ptr"@),
        54 => ("truncate"@, "str_truncate"@, "truncate"@, "ptr"@, "i"@, "ptr"@),
        _ => (Seq::empty(), Seq::empty(), Seq::empty(), Seq::empty(), Seq::empty(), Seq::empty()),
    }
}

fn string_method_at(i: usize) -> (r: (&'static str, &'static str, &'static str, &'static str, &'static str, &'static str))
    requires
        i < STRING_METHOD_COUNT,
    ensures
        (r.0@, r.1@, r.2@, r.3@, r.4@, r.5@) == string_method(i),
{
    match i {
        0 => ("split", "str_split", "split", "ptr", "p", "vec_str"),
        1 => ("trim", "str_trim", "trim", "ptr", "", "ptr"),
        2 => ("to_upper", "str_to_upper", "upper", "ptr", "", "ptr"),
        3 => ("to_lower", "str_to_lower", "lower", "ptr", "", "ptr"),
        4 => ("contains", "str_contains", "contains", "i32", "p", "i32"),
        5 => ("starts_with", "str_starts_with", "starts_with", "i32", "p", "i32"),
        6 => ("ends_with", "str_ends_with", "ends_with", "i32", "p", "i32"),
        7 => ("replace", "str_replace", "replace", "ptr", "pp", "ptr"),
        8 => ("replacen", "str_replacen", "replacen", "ptr", "ppi", "ptr"),
        9 => ("strip_suffix", "str_strip_suffix", "strip_suffix", "ptr", "p", "ptr"),
        10 => ("to_snake_case", "str_to_snake_case", "to_snake_case", "ptr", "", "ptr"),
        11 => ("to_lowercase", "str_to_lowercase", "to_lowercase", "ptr", "", "ptr"),
        12 => ("to_titlecase", "str_to_titlecase", "to_titlecase", "ptr", "", "ptr"),
        13 => ("to_capitalize", "str_to_capitalize", "to_capitalize", "ptr", "", "ptr"),
        14 => ("to_camel_case", "str_to_camel_case", "to_camel_case", "ptr", "", "ptr"),
        15 => ("to_kebab_case", "str_to_kebab_case", "to_kebab_case", "ptr", "", "ptr"),
        16 => ("to_pascal_case", "str_to_pascal_case", "to_pascal_case", "ptr", "", "ptr"),
        17 => ("to_screaming_snake_case", "str_to_screaming_snake_case", "to_screaming_snake_case", "ptr", "", "ptr"),
        18 => ("to_train_case", "str_to_train_case", "to_train_case", "ptr", "", "ptr"),
        19 => ("to_dot_case", "str_to_dot_case", "to_dot_case", "ptr", "", "ptr"),
        20 => ("strip_prefix", "str_strip_prefix", "strip_prefix", "ptr", "p", "ptr"),
        21 => ("index", "str_index", "index", "i32", "p", "i32"),
        22 => ("is_empty", "str_is_empty", "is_empty", "i32", "", "i32"),
        23 => ("last_index", "str_last_index", "last_index", "i32", "p", "i32"),
        24 => ("repeat", "str_repeat", "repeat", "ptr", "i", "ptr"),
        25 => ("trim_end", "str_trim_end", "trim_end", "ptr", "", "ptr"),
        26 => ("trim_start", "str_trim_start", "trim_start", "ptr", "", "ptr"),
        27 => ("splitn", "str_splitn", "splitn", "ptr", "pi", "vec_str"),
        28 => ("count", "str_count", "count", "i32", "p", "i32"),
        29 => ("fields", "str_fields", "fields", "ptr", "", "vec_str"),
        30 => ("pad_end", "str_pad_end", "pad_end", "ptr", "ip", "ptr"),
        31 => ("pad_start", "str_pad_start", "pad_start", "ptr", "ip", "ptr"),
        32 => ("split_once", "str_before_sep", "split_once", "ptr", "p", "ptr"),
        33 => ("compare", "str_compare", "compare", "i32", "p", "i32"),
        34 => ("equal_fold", "str_equal_fold", "equal_fold", "i32", "p", "i32"),
        35 => ("index_byte", "str_index_byte", "index_byte", "i32", "i", "i32"),
        36 => ("last_index_byte", "str_last_index_byte", "last_index_byte", "i32", "i", "i32"),
        37 => ("after_sep", "str_after_sep", "after_sep", "ptr", "p", "ptr"),
        38 => ("char_at", "char_at", "char_at", "i32", "i", "i32"),
        39 => ("pop", "str_pop", "pop", "ptr", "", "ptr"),
        40 => ("push_char", "str_push_char", "push_char", "ptr", "i", "ptr"),
        41 => ("strip_ansi", "str_strip_ansi", "strip_ansi", "ptr", "", "ptr"),
        42 => ("substring", "substring", "substring", "ptr", "ii", "ptr"),
        43 => ("before_sep", "str_before_sep", "before_sep", "ptr", "p", "ptr"),
        44 => ("collapse_ws", "str_collapse_ws", "collapse_ws", "ptr", "", "ptr"),
        45 => ("is_ascii", "str_is_ascii", "is_ascii", "i32", "", "i32"),
        46 => ("common_prefix_len", "str_common_prefix_len", "common_prefix_len", "i32", "p", "i32"),
        47 => ("is_alnum", "str_is_alnum", "is_alnum", "i32", "", "i32"),
        48 => ("is_alpha", "str_is_alpha", "is_alpha", "i32", "", "i32"),
        49 => ("is_digit", "str_is_digit", "is_digit", "i32", "", "i32"),
        50 => ("pad_center", "str_pad_center", "pad_center", "ptr", "ip", "ptr"),
        51 => ("reverse", "str_reverse", "reverse", "ptr", "", "ptr"),
        52 => ("escape_json", "str_escape_json", "escape_json", "ptr", "", "ptr"),
        53 => ("split_after", "str_split_after", "split_after", "ptr", "p", "ptr"),
        54 => ("truncate", "str_truncate", "truncate", "ptr", "i", "ptr"),
        _ => ("", "", "", "", "", ""),
    }
}

/// The first entry at or after `i` for method `m`.
pub open spec fn method_index_from(m: Seq<char>, i: nat) -> Option<nat>
    decreases STRING_METHOD_COUNT - i,
{
    if i >= STRING_METHOD_COUNT {
        None
    } else if string_method(i as usize).0 == m {
        Some(i)
    } else {
        method_index_from(m, i + 1)
    }
}

/// The table entry of method `m`, if it has one.
pub open spec fn method_index(m: Seq<char>) -> Option<nat> {
    method_index_from(m, 0)
}

fn find_method(method: &str) -> (r: Option<usize>)
    ensures
        match r {
            Some(i) => method_index(method@) == Some(i as nat) && i < STRING_METHOD_COUNT,
            None => method_index(method@) is None,
        },
{
    let mut i: usize = 0;
    while i < STRING_METHOD_COUNT
        invariant
            i <= STRING_METHOD_COUNT,
            method_index(method@) == method_index_from(method@, i as nat),
        decreases STRING_METHOD_COUNT - i,
    {
        let e = string_method_at(i);
        if str_eq(e.0, method) {
            return Some(i);
        }
        i = i + 1;
    }
    None
}

/// Number of arguments string method `m` reads (0 for a method without a
/// runtime lowering).
pub open spec fn spec_string_method_arity(m: Seq<char>) -> nat {
    match method_index(m) {
        Some(i) => string_method(i as usize).4.len(),
        None => 0,
    }
}

/// Number of arguments string method `method` reads: the caller lowers that
/// many arguments, in order, before the call.
pub fn string_method_arity(method: &str) -> (r: usize)
    ensures
        r == spec_string_method_arity(method@),
{
    match find_method(method) {
        Some(i) => string_method_at(i).4.unicode_len(),
        None => 0,
    }
}

/// One argument as the call passes it.
pub open spec fn arg_text(pass: char, reg: Seq<char>) -> Seq<char> {
    if pass == 'p' {
        "ptr "@ + spec_llvm_ptr_reg(reg)
    } else {
        "i32 "@ + spec_llvm_value_operand(reg)
    }
}

/// The arguments after the receiver, each preceded by `, `.
pub open spec fn call_args_text(passes: Seq<char>, regs: Seq<Seq<char>>) -> Seq<char>
    decreases passes.len(),
{
    if passes.len() == 0 {
        Seq::empty()
    } else {
        call_args_text(passes.drop_last(), regs) + ", "@ + arg_text(passes.last(), regs[passes.len() - 1])
    }
}

/// The call line of entry `e` on receiver operand `obj`, arguments `regs`,
/// result temporary `t`.
pub open spec fn call_line(
    e: (Seq<char>, Seq<char>, Seq<char>, Seq<char>, Seq<char>, Seq<char>),
    obj: Seq<char>,
    regs: Seq<Seq<char>>,
    t: Seq<char>,
) -> Seq<char> {
    "  %"@ + t + " = call "@ + e.3 + " @"@ + e.1 + "(ptr "@ + spec_llvm_ptr_reg(obj) + call_args_text(e.4, regs) + ")"@
}

/// What lowering a string-method call gives: the runtime function and the
/// call line when the method has a lowering, and the resulting value
/// (`0: i32` for a method without one).
pub struct StringMethodLowering {
    pub call: Option<(String, String)>,
    pub value: ExprValue,
}

/// The operands of lowered values.
pub open spec fn operand_regs(args: Seq<ExprValue>) -> Seq<Seq<char>> {
    args.map_values(|v: ExprValue| v.reg@)
}

/// Lowers `obj.method(args)` with its result temporary numbered `temp`:
/// `args` are the lowered arguments (at least the method's arity; any more
/// are not read).
pub fn lower_string_method(method: &str, obj_reg: &str, args: &[ExprValue], temp: u64) -> (r: StringMethodLowering)
    requires
        args@.len() >= spec_string_method_arity(method@),
    ensures
        match method_index(method@) {
            Some(i) => {
                let e = string_method(i as usize);
                let t = temp_name(e.2, temp as nat);
                &&& r.call matches Some((f, line)) && f@ == e.1 && line@ == call_line(
                    e,
                    obj_reg@,
                    operand_regs(args@),
                    t,
                )
                &&& r.value.reg@ == "%"@ + t
                &&& r.value.ty@ == e.5
            },
            None => r.call is None && r.value.reg@ == "0"@ && r.value.ty@ == "i32"@,
        },
{
    let i = match find_method(method) {
        Some(i) => i,
        None => {
            return StringMethodLowering {
                call: None,
                value: ExprValue { reg: String::from_str("0"), ty: String::from_str("i32") },
            };
        },
    };
    let e = string_method_at(i);
    let ghost es = string_method(i);
    let ghost regs = operand_regs(args@);
    let passes = crate::text::chars_of(e.4);
    let t = String::from_str(e.2).concat(".").concat(decimal_of(temp).as_str());
    let mut list = String::new();
    let mut k: usize = 0;
    while k < passes.len()
        invariant
            k <= passes@.len(),
            passes@ == es.4,
            args@.len() >= es.4.len(),
            regs == operand_regs(args@),
            list@ == call_args_text(passes@.take(k as int), regs),
        decreases passes@.len() - k,
    {
        let arg = if passes[k] == 'p' {
            String::from_str("ptr ").concat(llvm_ptr_reg(args[k].reg.as_str()).as_str())
        } else {
            String::from_str("i32 ").concat(llvm_value_operand(args[k].reg.as_str()).as_str())
        };
        proof {
            assert(passes@.take(k + 1).drop_last() =~= passes@.take(k as int));
            assert(regs[k as int] == args@[k as int].reg@);
        }
        list = list.concat(", ").concat(arg.as_str());
        k = k + 1;
    }
    assert(passes@.take(passes@.len() as int) =~= passes@);
    let line = String::from_str("  %").concat(t.as_str()).concat(" = call ").concat(e.3).concat(" @").concat(e.1).concat(
        "(ptr ",
    ).concat(llvm_ptr_reg(obj_reg).as_str()).concat(list.as_str()).concat(")");
    StringMethodLowering {
        call: Some((String::from_str(e.1), line)),
        value: ExprValue { reg: String::from_str("%").concat(t.as_str()), ty: String::from_str(e.5) },
    }
}

/// The runtime function that string method `m` lowers to: `str_` followed
/// by the method's own name, except for `split_once` (the text before the
/// separator, `str_before_sep`) and the two methods whose runtime function
/// carries their own name (`char_at`, `substring`).
pub open spec fn runtime_named_after(m: Seq<char>, f: Seq<char>) -> bool {
    ||| f == "str_"@ + m
    ||| (f == m && (m == "char_at"@ || m == "substring"@))
    ||| (m == "split_once"@ && f == "str_before_sep"@)
}

/// Every string method lowers to the runtime function named after it (see
/// `runtime_named_after`): `s.to_lower()` calls `str_to_lower`, never another
/// method's function.
pub proof fn law_string_method_runtime_named_after(i: usize)
    requires
        i < STRING_METHOD_COUNT,
    ensures
        runtime_named_after(string_method(i).0, string_method(i).1),
{
    reveal_strlit("str_");
    reveal_strlit("char_at");
    reveal_strlit("substring");
    reveal_strlit("split_once");
    reveal_strlit("str_before_sep");
    match i {
        0 => {
            reveal_strlit("split");
            reveal_strlit("str_split");
            assert("str_split"@ =~= "str_"@ + "split"@);
        },
        1 => {
            reveal_strlit("trim");
            reveal_strlit("str_trim");
            assert("str_trim"@ =~= "str_"@ + "trim"@);
        },
        2 => {
            reveal_strlit("to_upper");
            reveal_strlit("str_to_upper");
            assert("str_to_upper"@ =~= "str_"@ + "to_upper"@);
        },
        3 => {
            reveal_strlit("to_lower");
            reveal_strlit("str_to_lower");
            assert("str_to_lower"@ =~= "str_"@ + "to_lower"@);
        },
        4 => {
            reveal_strlit("contains");
            reveal_strlit("str_contains");
            assert("str_contains"@ =~= "str_"@ + "contains"@);
        },
        5 => {
            reveal_strlit("starts_with");
            reveal_strlit("str_starts_with");
            assert("str_starts_with"@ =~= "str_"@ + "starts_with"@);
        },
        6 => {
            reveal_strlit("ends_with");
            reveal_strlit("str_ends_with");
            assert("str_ends_with"@ =~= "str_"@ + "ends_with"@);
        },
        7 => {
            reveal_strlit("replace");
            reveal_strlit("str_replace");
            assert("str_replace"@ =~= "str_"@ + "replace"@);
        },
        8 => {
            reveal_strlit("replacen");
            reveal_strlit("str_replacen");
            assert("str_replacen"@ =~= "str_"@ + "replacen"@);
        },
        9 => {
            reveal_strlit("strip_suffix");
            reveal_strlit("str_strip_suffix");
            assert("str_strip_suffix"@ =~= "str_"@ + "strip_suffix"@);
        },
        10 => {
            reveal_strlit("to_snake_case");
            reveal_strlit("str_to_snake_case");
            assert("str_to_snake_case"@ =~= "str_"@ + "to_snake_case"@);
        },
        11 => {
            reveal_strlit("to_lowercase");
            reveal_strlit("str_to_lowercase");
            assert("str_to_lowercase"@ =~= "str_"@ + "to_lowercase"@);
        },
        12 => {
            reveal_strlit("to_titlecase");
            reveal_strlit("str_to_titlecase");
            assert("str_to_titlecase"@ =~= "str_"@ + "to_titlecase"@);
        },
        13 => {
            reveal_strlit("to_capitalize");
            reveal_strlit("str_to_capitalize");
            assert("str_to_capitalize"@ =~= "str_"@ + "to_capitalize"@);
        },
        14 => {
            reveal_strlit("to_camel_case");
            reveal_strlit("str_to_camel_case");
            assert("str_to_camel_case"@ =~= "str_"@ + "to_camel_case"@);
        },
        15 => {
            reveal_strlit("to_kebab_case");
            reveal_strlit("str_to_kebab_case");
            assert("str_to_kebab_case"@ =~= "str_"@ + "to_kebab_case"@);
        },
        16 => {
            reveal_strlit("to_pascal_case");
            reveal_strlit("str_to_pascal_case");
            assert("str_to_pascal_case"@ =~= "str_"@ + "to_pascal_case"@);
        },
        17 => {
            reveal_strlit("to_screaming_snake_case");
            reveal_strlit("str_to_screaming_snake_case");
            assert("str_to_screaming_snake_case"@ =~= "str_"@ + "to_screaming_snake_case"@);
        },
        18 => {
            reveal_strlit("to_train_case");
            reveal_strlit("str_to_train_case");
            assert("str_to_train_case"@ =~= "str_"@ + "to_train_case"@);
        },
        19 => {
            reveal_strlit("to_dot_case");
            reveal_strlit("str_to_dot_case");
            assert("str_to_dot_case"@ =~= "str_"@ + "to_dot_case"@);
        },
        20 => {
            reveal_strlit("strip_prefix");
            reveal_strlit("str_strip_prefix");
            assert("str_strip_prefix"@ =~= "str_"@ + "strip_prefix"@);
        },
        21 => {
            reveal_strlit("index");
            reveal_strlit("str_index");
            assert("str_index"@ =~= "str_"@ + "index"@);
        },
        22 => {
            reveal_strlit("is_empty");
            reveal_strlit("str_is_empty");
            assert("str_is_empty"@ =~= "str_"@ + "is_empty"@);
        },
        23 => {
            reveal_strlit("last_index");
            reveal_strlit("str_last_index");
            assert("str_last_index"@ =~= "str_"@ + "last_index"@);
        },
        24 => {
            reveal_strlit("repeat");
            reveal_strlit("str_repeat");
            assert("str_repeat"@ =~= "str_"@ + "repeat"@);
        },
        25 => {
            reveal_strlit("trim_end");
            reveal_strlit("str_trim_end");
            assert("str_trim_end"@ =~= "str_"@ + "trim_end"@);
        },
        26 => {
            reveal_strlit("trim_start");
            reveal_strlit("str_trim_start");
            assert("str_trim_start"@ =~= "str_"@ + "trim_start"@);
        },
        27 => {
            reveal_strlit("splitn");
            reveal_strlit("str_splitn");
            assert("str_splitn"@ =~= "str_"@ + "splitn"@);
        },
        28 => {
            reveal_strlit("count");
            reveal_strlit("str_count");
            assert("str_count"@ =~= "str_"@ + "count"@);
        },
        29 => {
            reveal_strlit("fields");
            reveal_strlit("str_fields");
            assert("str_fields"@ =~= "str_"@ + "fields"@);
        },
        30 => {
            reveal_strlit("pad_end");
            reveal_strlit("str_pad_end");
            assert("str_pad_end"@ =~= "str_"@ + "pad_end"@);
        },
        31 => {
            reveal_strlit("pad_start");
            reveal_strlit("str_pad_start");
            assert("str_pad_start"@ =~= "str_"@ + "pad_start"@);
        },
        32 => {
            reveal_strlit("split_once");
            reveal_strlit("str_before_sep");
        },
        33 => {
            reveal_strlit("compare");
            reveal_strlit("str_compare");
            assert("str_compare"@ =~= "str_"@ + "compare"@);
        },
        34 => {
            reveal_strlit("equal_fold");
            reveal_strlit("str_equal_fold");
            assert("str_equal_fold"@ =~= "str_"@ + "equal_fold"@);
        },
        35 => {
            reveal_strlit("index_byte");
            reveal_strlit("str_index_byte");
            assert("str_index_byte"@ =~= "str_"@ + "index_byte"@);
        },
        36 => {
            reveal_strlit("last_index_byte");
            reveal_strlit("str_last_index_byte");
            assert("str_last_index_byte"@ =~= "str_"@ + "last_index_byte"@);
        },
        37 => {
            reveal_strlit("after_sep");
            reveal_strlit("str_after_sep");
            assert("str_after_sep"@ =~= "str_"@ + "after_sep"@);
        },
        38 => {
            reveal_strlit("char_at");
            reveal_strlit("char_at");
        },
        39 => {
            reveal_strlit("pop");
            reveal_strlit("str_pop");
            assert("str_pop"@ =~= "str_"@ + "pop"@);
        },
        40 => {
            reveal_strlit("push_char");
            reveal_strlit("str_push_char");
            assert("str_push_char"@ =~= "str_"@ + "push_char"@);
        },
        41 => {
            reveal_strlit("strip_ansi");
            reveal_strlit("str_strip_ansi");
            assert("str_strip_ansi"@ =~= "str_"@ + "strip_ansi"@);
        },
        42 => {
            reveal_strlit("substring");
            reveal_strlit("substring");
        },
        43 => {
            reveal_strlit("before_sep");
            reveal_strlit("str_before_sep");
            assert("str_before_sep"@ =~= "str_"@ + "before_sep"@);
        },
        44 => {
            reveal_strlit("collapse_ws");
            reveal_strlit("str_collapse_ws");
            assert("str_collapse_ws"@ =~= "str_"@ + "collapse_ws"@);
        },
        45 => {
            reveal_strlit("is_ascii");
            reveal_strlit("str_is_ascii");
            assert("str_is_ascii"@ =~= "str_"@ + "is_ascii"@);
        },
        46 => {
            reveal_strlit("common_prefix_len");
            reveal_strlit("str_common_prefix_len");
            assert("str_common_prefix_len"@ =~= "str_"@ + "common_prefix_len"@);
        },
        47 => {
            reveal_strlit("is_alnum");
            reveal_strlit("str_is_alnum");
            assert("str_is_alnum"@ =~= "str_"@ + "is_alnum"@);
        },
        48 => {
            reveal_strlit("is_alpha");
            reveal_strlit("str_is_alpha");
            assert("str_is_alpha"@ =~= "str_"@ + "is_alpha"@);
        },
        49 => {
            reveal_strlit("is_digit");
            reveal_strlit("str_is_digit");
            assert("str_is_digit"@ =~= "str_"@ + "is_digit"@);
        },
        50 => {
            reveal_strlit("pad_center");
            reveal_strlit("str_pad_center");
            assert("str_pad_center"@ =~= "str_"@ + "pad_center"@);
        },
        51 => {
            reveal_strlit("reverse");
            reveal_strlit("str_reverse");
            assert("str_reverse"@ =~= "str_"@ + "reverse"@);
        },
        52 => {
            reveal_strlit("escape_json");
            reveal_strlit("str_escape_json");
            assert("str_escape_json"@ =~= "str_"@ + "escape_json"@);
        },
        53 => {
            reveal_strlit("split_after");
            reveal_strlit("str_split_after");
            assert("str_split_after"@ =~= "str_"@ + "split_after"@);
        },
        54 => {
            reveal_strlit("truncate");
            reveal_strlit("str_truncate");
            assert("str_truncate"@ =~= "str_"@ + "truncate"@);
        },
        _ => {},
    }
}

proof fn lemma_method_index_from_names(m: Seq<char>, i: nat)
    ensures
        method_index_from(m, i) matches Some(j) ==> j < STRING_METHOD_COUNT && string_method(j as usize).0 == m,
    decreases STRING_METHOD_COUNT - i,
{
    if i < STRING_METHOD_COUNT && string_method(i as usize).0 != m {
        lemma_method_index_from_names(m, i + 1);
    }
}

/// Lowering `s.m(..)` (see `lower_string_method`) for a method `m` with a
/// runtime lowering calls the runtime function named after `m` (see
/// `runtime_named_after`).
pub proof fn law_lowered_call_named_after_method(m: Seq<char>)
    requires
        method_index(m) is Some,
    ensures
        runtime_named_after(m, string_method(method_index(m)->0 as usize).1),
{
    lemma_method_index_from_names(m, 0);
    law_string_method_runtime_named_after((method_index(m)->0) as usize);
}

} // verus!
