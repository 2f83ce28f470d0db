//! Small decisions of LLVM lowering: operand texts, scalar and Copy
//! classification, the runtime entry points of `random`, function attribute
//! groups, and how a local is bound while its function is lowered.
use vstd::prelude::*;
use crate::ast::{BinaryOp, Block, Expression, FloatKind, Function, IntKind, Literal, Statement, TypeAnnotation, UnaryOp};
use crate::analysis::{lemma_lex_total, lemma_lex_trans, lex_lt, lex_lt_exec, starts_with, starts_with_exec};
use crate::inspect::{join, join_exec};
use crate::llvm_util::{
    llvm_ptr, llvm_ptr_reg, llvm_storage_ty, spec_llvm_ptr, spec_llvm_ptr_reg, spec_llvm_storage_ty, spec_struct_name_from_llvm_ty,
    spec_struct_ptr_type, struct_name_from_llvm_ty, struct_ptr_type, assigned_anywhere, collect_assigned_in_block,
};
use crate::names::{texts, NameMap, NameSet};
use crate::num::{decimal_of, decimal_string};
use crate::text::{chars_of, first_char, slice_to_vec, starts_with_char, str_eq, string_of, trim_end_char};

verus! {

/// Is every character of `s` a digit or `-` (an integer literal)?
pub open spec fn is_int_literal_text(s: Seq<char>) -> bool {
    forall|i: int| 0 <= i < s.len() ==> ('0' <= #[trigger] s[i] && s[i] <= '9') || s[i] == '-'
}

fn int_literal_text(s: &str) -> (r: bool)
    ensures
        r == is_int_literal_text(s@),
{
    let v = chars_of(s);
    let mut i: usize = 0;
    while i < v.len()
        invariant
            v@ == s@,
            i <= v@.len(),
            forall|j: int| 0 <= j < i ==> ('0' <= #[trigger] v@[j] && v@[j] <= '9') || v@[j] == '-',
        decreases v@.len() - i,
    {
        let c = v[i];
        if !(('0' <= c && c <= '9') || c == '-') {
            return false;
        }
        i = i + 1;
    }
    true
}

/// Is `reg` used as it is in an operand: an integer literal or a `%` register?
pub open spec fn is_direct_operand(reg: Seq<char>) -> bool {
    is_int_literal_text(reg) || starts_with_char(reg, '%')
}

fn direct_operand(reg: &str) -> (r: bool)
    ensures
        r == is_direct_operand(reg@),
{
    int_literal_text(reg) || first_char(reg) == Some('%')
}

/// `i32 <reg>`, with `%` before a bare SSA name.
pub open spec fn spec_llvm_i32_operand(reg: Seq<char>) -> Seq<char> {
    if is_direct_operand(reg) {
        "i32 "@ + reg
    } else {
        "i32 %"@ + reg
    }
}

/// A typed `i32` operand for `reg` (see [`spec_llvm_i32_operand`]).
pub fn llvm_i32_operand(reg: &str) -> (r: String)
    ensures
        r@ == spec_llvm_i32_operand(reg@),
{
    if direct_operand(reg) {
        String::from_str("i32 ").concat(reg)
    } else {
        String::from_str("i32 %").concat(reg)
    }
}

/// `reg` as an untyped operand, with `%` before a bare SSA name.
pub open spec fn spec_i32_operand(reg: Seq<char>) -> Seq<char> {
    if is_direct_operand(reg) {
        reg
    } else {
        "%"@ + reg
    }
}

/// An untyped operand for `reg` (see [`spec_i32_operand`]).
pub fn i32_operand(reg: &str) -> (r: String)
    ensures
        r@ == spec_i32_operand(reg@),
{
    if direct_operand(reg) {
        String::from_str(reg)
    } else {
        String::from_str("%").concat(reg)
    }
}

/// Scalar types kept in SSA registers rather than stack slots.
pub open spec fn spec_is_scalar_ssa_ty(ty: Seq<char>) -> bool {
    let s = spec_llvm_storage_ty(ty);
    s == "i32"@ || s == "i64"@ || s == "u32"@ || s == "f64"@ || s == "f32"@ || s == "i1"@
}

/// Is `ty` (after storage mapping) a scalar kept in SSA registers?
pub fn is_scalar_ssa_ty(ty: &str) -> (r: bool)
    ensures
        r == spec_is_scalar_ssa_ty(ty@),
{
    let s = llvm_storage_ty(ty);
    str_eq(s, "i32") || str_eq(s, "i64") || str_eq(s, "u32") || str_eq(s, "f64") || str_eq(s, "f32") || str_eq(
        s,
        "i1",
    )
}

/// The integer kind of an LLVM integer type, `i32` when it is none.
pub open spec fn spec_int_kind_of_llvm_ty(ty: Seq<char>) -> IntKind {
    if ty == "i8"@ {
        IntKind::I8
    } else if ty == "i16"@ {
        IntKind::I16
    } else if ty == "i64"@ {
        IntKind::I64
    } else if ty == "i128"@ {
        IntKind::I128
    } else {
        IntKind::I32
    }
}

/// Signed integer kind of an LLVM integer type (`i32` for any other type).
pub fn int_kind_from_llvm_ty_default_signed(ty: &str) -> (r: IntKind)
    ensures
        r == spec_int_kind_of_llvm_ty(ty@),
{
    proof {
        reveal_strlit("i8");
        reveal_strlit("i16");
        reveal_strlit("i64");
        reveal_strlit("i128");
    }
    if str_eq(ty, "i8") {
        IntKind::I8
    } else if str_eq(ty, "i16") {
        IntKind::I16
    } else if str_eq(ty, "i64") {
        IntKind::I64
    } else if str_eq(ty, "i128") {
        IntKind::I128
    } else {
        IntKind::I32
    }
}

/// For `random` of an integer kind: the LLVM result type, the runtime function
/// without bounds and its declaration, the ranged runtime function and its
/// declaration.
pub open spec fn spec_random_int_runtime(kind: IntKind) -> (Seq<char>, Seq<char>, Seq<char>, Seq<char>, Seq<char>) {
    match kind {
        IntKind::U8 | IntKind::U16 | IntKind::U32 => (
            "i32"@,
            "rand_u32"@,
            "declare i32 @rand_u32()"@,
            "rand_range_u32"@,
            "declare i32 @rand_range_u32(i32, i32)"@,
        ),
        IntKind::U64 | IntKind::Usize | IntKind::U128 => (
            "i64"@,
            "rand_u64"@,
            "declare i64 @rand_u64()"@,
            "rand_range_u64"@,
            "declare i64 @rand_range_u64(i64, i64)"@,
        ),
        IntKind::I64 | IntKind::Isize | IntKind::I128 => (
            "i64"@,
            "rand_i64"@,
            "declare i64 @rand_i64()"@,
            "rand_range_i64"@,
            "declare i64 @rand_range_i64(i64, i64)"@,
        ),
        _ => ("i32"@, "rand_i32"@, "declare i32 @rand_i32()"@, "rand_range"@, "declare i32 @rand_range(i32, i32)"@),
    }
}

/// The runtime entry points of `random` for `kind` (see [`spec_random_int_runtime`]).
pub fn random_int_runtime(kind: IntKind) -> (r: (&'static str, &'static str, &'static str, &'static str, &'static str))
    ensures
        (r.0@, r.1@, r.2@, r.3@, r.4@) == spec_random_int_runtime(kind),
{
    match kind {
        IntKind::U8 | IntKind::U16 | IntKind::U32 => (
            "i32",
            "rand_u32",
            "declare i32 @rand_u32()",
            "rand_range_u32",
            "declare i32 @rand_range_u32(i32, i32)",
        ),
        IntKind::U64 | IntKind::Usize | IntKind::U128 => (
            "i64",
            "rand_u64",
            "declare i64 @rand_u64()",
            "rand_range_u64",
            "declare i64 @rand_range_u64(i64, i64)",
        ),
        IntKind::I64 | IntKind::Isize | IntKind::I128 => (
            "i64",
            "rand_i64",
            "declare i64 @rand_i64()",
            "rand_range_i64",
            "declare i64 @rand_range_i64(i64, i64)",
        ),
        _ => ("i32", "rand_i32", "declare i32 @rand_i32()", "rand_range", "declare i32 @rand_range(i32, i32)"),
    }
}

/// Does `e` call `callee`?
pub open spec fn calls(e: Expression, callee: Seq<char>) -> bool {
    e matches Expression::Call(c) && c.callee@ == callee
}

/// Does `expr` create a channel: a call of `channel_new` / `Channel_i32_new`,
/// or a struct literal with a field set by `channel_new()`?
pub open spec fn spec_is_channel_origin(expr: &Expression) -> bool {
    match expr {
        Expression::Call(c) => c.callee@ == "channel_new"@ || c.callee@ == "Channel_i32_new"@,
        Expression::StructLiteral(s) => exists|i: int| 0 <= i < s.fields@.len() && calls(#[trigger] s.fields@[i].1, "channel_new"@),
        _ => false,
    }
}

/// Does `expr` create a channel (see [`spec_is_channel_origin`])?
pub fn is_channel_origin_expr(expr: &Expression) -> (r: bool)
    ensures
        r == spec_is_channel_origin(expr),
{
    match expr {
        Expression::Call(c) => {
            let a = str_eq(c.callee.as_str(), "channel_new");
            let b = str_eq(c.callee.as_str(), "Channel_i32_new");
            a || b
        },
        Expression::StructLiteral(s) => {
            let mut i: usize = 0;
            while i < s.fields.len()
                invariant
                    *expr == Expression::StructLiteral(*s),
                    i <= s.fields@.len(),
                    forall|j: int| 0 <= j < i ==> !calls(#[trigger] s.fields@[j].1, "channel_new"@),
                decreases s.fields@.len() - i,
            {
                if let Expression::Call(c) = &s.fields[i].1 {
                    if str_eq(c.callee.as_str(), "channel_new") {
                        assert(calls(s.fields@[i as int].1, "channel_new"@));
                        assert(exists|k: int| 0 <= k < s.fields@.len() && calls(#[trigger] s.fields@[k].1, "channel_new"@));
                        assert(expr matches Expression::StructLiteral(t) && t == *s);
                        assert(spec_is_channel_origin(expr));
                        return true;
                    }
                }
                i = i + 1;
            }
            false
        },
        _ => false,
    }
}

/// Is a value of type `ann` a Copy scalar: an integer, `bool`, `char`, a float,
/// or an enum of the program without payloads?
pub open spec fn spec_copy_scalar(ann: TypeAnnotation, enums: Set<Seq<char>>, has_payload: Map<Seq<char>, bool>) -> bool {
    match ann {
        TypeAnnotation::Integer(_) | TypeAnnotation::Bool | TypeAnnotation::Char | TypeAnnotation::F32
        | TypeAnnotation::F64 => true,
        TypeAnnotation::Enum(n) => enums.contains(n@) && !(has_payload.contains_key(n@) && has_payload[n@]),
        _ => false,
    }
}

/// Is `ann` a Copy scalar (see [`spec_copy_scalar`])?
pub fn type_ann_is_copy_scalar(ann: &TypeAnnotation, enum_names: &NameSet, enum_has_payload: &NameMap<bool>) -> (r: bool)
    requires
        enum_has_payload.wf(),
    ensures
        r == spec_copy_scalar(*ann, enum_names@, enum_has_payload@),
{
    match ann {
        TypeAnnotation::Integer(_) | TypeAnnotation::Bool | TypeAnnotation::Char | TypeAnnotation::F32
        | TypeAnnotation::F64 => true,
        TypeAnnotation::Enum(n) => {
            let payload = match enum_has_payload.get(n.as_str()) {
                Some(b) => *b,
                None => false,
            };
            enum_names.contains(n.as_str()) && !payload
        },
        _ => false,
    }
}

/// Is `name` a struct of the program all of whose fields are Copy scalars?
pub open spec fn spec_struct_all_copy_scalars(
    fields: Map<Seq<char>, Vec<(String, TypeAnnotation)>>,
    enums: Set<Seq<char>>,
    has_payload: Map<Seq<char>, bool>,
    name: Seq<char>,
) -> bool {
    fields.contains_key(name) && forall|i: int| 0 <= i < fields[name]@.len() ==> spec_copy_scalar(
        (#[trigger] fields[name]@[i]).1,
        enums,
        has_payload,
    )
}

/// Are all fields of struct `name` Copy scalars (false for an unknown struct)?
pub fn struct_all_copy_scalars(
    struct_fields: &NameMap<Vec<(String, TypeAnnotation)>>,
    enum_names: &NameSet,
    enum_has_payload: &NameMap<bool>,
    name: &str,
) -> (r: bool)
    requires
        struct_fields.wf(),
        enum_has_payload.wf(),
    ensures
        r == spec_struct_all_copy_scalars(struct_fields@, enum_names@, enum_has_payload@, name@),
{
    let fields = match struct_fields.get(name) {
        Some(f) => f,
        None => {
            return false;
        },
    };
    let mut i: usize = 0;
    while i < fields.len()
        invariant
            enum_has_payload.wf(),
            struct_fields@.contains_key(name@),
            struct_fields@[name@] == *fields,
            i <= fields@.len(),
            forall|j: int| 0 <= j < i ==> spec_copy_scalar((#[trigger] fields@[j]).1, enum_names@, enum_has_payload@),
        decreases fields@.len() - i,
    {
        if !type_ann_is_copy_scalar(&fields[i].1, enum_names, enum_has_payload) {
            return false;
        }
        i = i + 1;
    }
    true
}

/// The LLVM attributes a function's `#[inline]` / `#[hot]` / `#[cold]` ask for.
pub open spec fn fn_attr_parts(func: &Function) -> Seq<Seq<char>> {
    (if func.inline { seq!["alwaysinline"@] } else { seq![] }) + (if func.hot { seq!["inlinehint"@] } else { seq![] })
        + (if func.cold { seq!["cold"@] } else { seq![] })
}

/// The attribute group declared for group number `idx` with attributes `parts`.
pub open spec fn attr_group_line(idx: nat, parts: Seq<Seq<char>>) -> Seq<char> {
    "attributes #"@ + decimal_string(idx) + " = { "@ + join(parts, ", "@) + " }"@
}

/// The reference ` #<n>` to a new attribute group for `func`'s attributes,
/// declared at the end of `attr_sets`; nothing (and no group) when it has none.
pub fn fn_attr_ref(attr_sets: &mut Vec<String>, func: &Function) -> (r: String)
    requires
        old(attr_sets)@.len() < u64::MAX,
    ensures
        fn_attr_parts(func).len() == 0 ==> r@ == Seq::<char>::empty() && final(attr_sets)@ == old(attr_sets)@,
        fn_attr_parts(func).len() > 0 ==> {
            let idx = old(attr_sets)@.len();
            &&& r@ == " #"@ + decimal_string(idx)
            &&& final(attr_sets)@.len() == idx + 1
            &&& final(attr_sets)@.take(idx as int) == old(attr_sets)@
            &&& final(attr_sets)@[idx as int]@ == attr_group_line(idx, fn_attr_parts(func))
        },
{
    let mut parts: Vec<String> = Vec::new();
    if func.inline {
        parts.push(String::from_str("alwaysinline"));
    }
    if func.hot {
        parts.push(String::from_str("inlinehint"));
    }
    if func.cold {
        parts.push(String::from_str("cold"));
    }
    assert(crate::names::texts(parts@) =~= fn_attr_parts(func));
    if parts.len() == 0 {
        return String::new();
    }
    let idx = attr_sets.len();
    let n = decimal_of(idx as u64);
    let line = String::from_str("attributes #").concat(n.as_str()).concat(" = { ").concat(
        join_exec(parts.as_slice(), ", ").as_str(),
    ).concat(" }");
    let ghost before = attr_sets@;
    attr_sets.push(line);
    assert(attr_sets@.take(idx as int) =~= before);
    String::from_str(" #").concat(n.as_str())
}

/// Where a capturing closure's environment lives.
#[derive(Debug, PartialEq)]
pub enum EnvKind {
    Stack { alloca: String },
    Heap { global: String },
}

/// The symbols and types of a capturing closure.
#[derive(Debug, PartialEq)]
pub struct ClosureMeta {
    pub body_symbol: String,
    pub wrap_symbol: String,
    pub invoke_slot: String,
    pub env_kind: EnvKind,
    pub heap_owned: bool,
    pub param_tys: Vec<String>,
    pub ret_ty: String,
}

/// How a local is held while its function is lowered.
#[derive(Debug)]
pub enum Binding {
    /// Function parameter (`%0`, `%1`, ...).
    Param { index: usize, ty: String },
    /// SSA register name without the leading `%`.
    Reg { reg: String, ty: String },
    /// Stack slot (for `let mut` and owned values that need a drop).
    Stack { slot: String, ty: String },
    /// A struct kept as one SSA register per field.
    PromotedStruct { struct_name: String, value_ty: String, fields: NameMap<(String, String)> },
    /// A capturing closure `{ fn, env }` on the stack.
    Closure(ClosureMeta),
    /// A single-thread channel ring buffer on the stack.
    LocalChannel { slot: String },
}

/// The LLVM type of a binding's value.
pub open spec fn spec_binding_ty(b: &Binding) -> Seq<char> {
    match b {
        Binding::Param { ty, .. } => ty@,
        Binding::Reg { ty, .. } => ty@,
        Binding::Stack { ty, .. } => ty@,
        Binding::Closure(_) => "ptr"@,
        Binding::PromotedStruct { value_ty, .. } => value_ty@,
        Binding::LocalChannel { .. } => "ptr"@,
    }
}

/// The LLVM type of a binding's value (see [`spec_binding_ty`]).
pub fn binding_ty(binding: &Binding) -> (r: &str)
    ensures
        r@ == spec_binding_ty(binding),
{
    match binding {
        Binding::Param { ty, .. } => ty.as_str(),
        Binding::Reg { ty, .. } => ty.as_str(),
        Binding::Stack { ty, .. } => ty.as_str(),
        Binding::Closure(_) => "ptr",
        Binding::PromotedStruct { value_ty, .. } => value_ty.as_str(),
        Binding::LocalChannel { .. } => "ptr",
    }
}

/// The operand text of a register or pointer parameter binding: a `ptr`
/// register as a pointer operand, another register with `%` unless it is a
/// literal or already has one, a `ptr` parameter as `%<index>`, else `0`.
pub open spec fn spec_reg_operand(b: &Binding) -> Seq<char> {
    match b {
        Binding::Reg { reg, ty } => if ty@ == "ptr"@ {
            spec_llvm_ptr_reg(reg@)
        } else if is_direct_operand(reg@) {
            reg@
        } else {
            "%"@ + reg@
        },
        Binding::Param { index, ty } => if ty@ == "ptr"@ {
            "%"@ + decimal_string(*index as nat)
        } else {
            "0"@
        },
        _ => "0"@,
    }
}

/// The operand text of a binding (see [`spec_reg_operand`]).
pub fn reg_operand_from_binding(binding: &Binding) -> (r: String)
    ensures
        r@ == spec_reg_operand(binding),
{
    match binding {
        Binding::Reg { reg, ty } => {
            if str_eq(ty.as_str(), "ptr") {
                llvm_ptr_reg(reg.as_str())
            } else if direct_operand(reg.as_str()) {
                reg.clone()
            } else {
                String::from_str("%").concat(reg.as_str())
            }
        },
        Binding::Param { index, ty } => {
            if str_eq(ty.as_str(), "ptr") {
                String::from_str("%").concat(decimal_of(*index as u64).as_str())
            } else {
                String::from_str("0")
            }
        },
        _ => String::from_str("0"),
    }
}

/// The LLVM type names the type system gives the integer and float kinds.
pub struct KindNames {
    pub i8: String,
    pub i16: String,
    pub i32: String,
    pub i64: String,
    pub i128: String,
    pub isize: String,
    pub u8: String,
    pub u16: String,
    pub u32: String,
    pub u64: String,
    pub u128: String,
    pub usize: String,
    pub float32: String,
    pub float64: String,
}

impl KindNames {
    /// The LLVM type of integer kind `k`.
    pub open spec fn int_name(&self, k: IntKind) -> Seq<char> {
        match k {
            IntKind::I8 => self.i8@,
            IntKind::I16 => self.i16@,
            IntKind::I32 => self.i32@,
            IntKind::I64 => self.i64@,
            IntKind::I128 => self.i128@,
            IntKind::Isize => self.isize@,
            IntKind::U8 => self.u8@,
            IntKind::U16 => self.u16@,
            IntKind::U32 => self.u32@,
            IntKind::U64 => self.u64@,
            IntKind::U128 => self.u128@,
            IntKind::Usize => self.usize@,
        }
    }

    /// The LLVM type of float kind `k`.
    pub open spec fn float_name(&self, k: FloatKind) -> Seq<char> {
        match k {
            FloatKind::F32 => self.float32@,
            FloatKind::F64 => self.float64@,
        }
    }

    /// The LLVM type of integer kind `k`.
    pub fn int_llvm(&self, k: IntKind) -> (r: &str)
        ensures
            r@ == self.int_name(k),
    {
        match k {
            IntKind::I8 => self.i8.as_str(),
            IntKind::I16 => self.i16.as_str(),
            IntKind::I32 => self.i32.as_str(),
            IntKind::I64 => self.i64.as_str(),
            IntKind::I128 => self.i128.as_str(),
            IntKind::Isize => self.isize.as_str(),
            IntKind::U8 => self.u8.as_str(),
            IntKind::U16 => self.u16.as_str(),
            IntKind::U32 => self.u32.as_str(),
            IntKind::U64 => self.u64.as_str(),
            IntKind::U128 => self.u128.as_str(),
            IntKind::Usize => self.usize.as_str(),
        }
    }

    /// The LLVM type of float kind `k`.
    pub fn float_llvm(&self, k: FloatKind) -> (r: &str)
        ensures
            r@ == self.float_name(k),
    {
        match k {
            FloatKind::F32 => self.float32.as_str(),
            FloatKind::F64 => self.float64.as_str(),
        }
    }
}

/// What the LLVM type inference of expressions reads: the bindings in scope,
/// the return types of functions, which enums carry payloads, and the kind names.
pub struct TypeScope {
    pub env: NameMap<Binding>,
    pub call_returns: NameMap<String>,
    pub enum_has_payload: NameMap<bool>,
    pub names: KindNames,
    /// Field names and types of each struct.
    pub struct_fields: NameMap<Vec<(String, TypeAnnotation)>>,
    /// Parameters and locals of the current function that hold function pointers.
    pub fn_ptrs: NameSet,
}

impl TypeScope {
    pub open spec fn wf(&self) -> bool {
        self.env.wf() && self.call_returns.wf() && self.enum_has_payload.wf() && self.struct_fields.wf()
    }
}

/// The LLVM type of the value of `expr`, without lowering it: literal types,
/// a call's recorded return type (`i32` when unknown), `%Name` for a struct
/// literal, a pointer to an enum with payloads, a binding's type, the type of
/// the `then` block of an `if`, of the first arm of a `match`, a pointer for
/// `&x`; `i32` otherwise.
pub open spec fn spec_expr_llvm_ty(sc: &TypeScope, expr: &Expression) -> Seq<char>
    decreases expr, 0nat,
{
    match expr {
        Expression::Literal(Literal::Int(_)) => "i32"@,
        Expression::Literal(Literal::IntKind(_, k)) => sc.names.int_name(*k),
        Expression::Literal(Literal::Float(_, k)) => sc.names.float_name(*k),
        Expression::Literal(Literal::Char(_)) => "i32"@,
        Expression::Literal(Literal::Bool(_)) => "i1"@,
        Expression::Literal(Literal::String(_)) => "ptr"@,
        Expression::Call(c) => if sc.call_returns@.contains_key(c.callee@) {
            sc.call_returns@[c.callee@]@
        } else {
            "i32"@
        },
        Expression::StructLiteral(sl) => "%"@ + sl.name@,
        Expression::EnumVariant(ev) => match &ev.enum_name {
            Some(en) => if sc.enum_has_payload@.contains_key(en@) && sc.enum_has_payload@[en@] {
                spec_struct_ptr_type(en@)
            } else {
                "i32"@
            },
            None => "i32"@,
        },
        Expression::Variable { name, .. } => if sc.env@.contains_key(name@) {
            match sc.env@[name@] {
                Binding::Reg { ty, .. } => ty@,
                Binding::Param { ty, .. } => ty@,
                Binding::Stack { ty, .. } => ty@,
                _ => "i32"@,
            }
        } else {
            "i32"@
        },
        Expression::Grouped(inner) => spec_expr_llvm_ty(sc, inner),
        Expression::If(i) => spec_block_llvm_ty(sc, &i.then_block),
        Expression::Match(m) => if m.arms@.len() > 0 {
            spec_block_llvm_ty(sc, &m.arms@[0].body)
        } else {
            "i32"@
        },
        Expression::Binary(_) => "i32"@,
        Expression::Unary(u) => if u.op == UnaryOp::Ref || u.op == UnaryOp::RefMut {
            spec_llvm_ptr(spec_expr_llvm_ty(sc, &u.operand))
        } else {
            spec_expr_llvm_ty(sc, &u.operand)
        },
        _ => "i32"@,
    }
}

/// The LLVM type of a block's value: found from its last statement back, the
/// first `return` (its value's type, `void` without one), expression
/// statement, or `if` with an `else` (its `then` block's type); `i32` if none.
pub open spec fn spec_block_llvm_ty(sc: &TypeScope, b: &Block) -> Seq<char>
    decreases b, 2nat,
{
    spec_stmts_llvm_ty(sc, b.statements@)
}

/// [`spec_block_llvm_ty`] of a sequence of statements.
pub open spec fn spec_stmts_llvm_ty(sc: &TypeScope, s: Seq<Statement>) -> Seq<char>
    decreases s, 1nat,
{
    if s.len() == 0 {
        "i32"@
    } else {
        match &s.last() {
            Statement::Return(r) => match &r.value {
                Some(v) => spec_expr_llvm_ty(sc, v),
                None => "void"@,
            },
            Statement::Expression(e) => spec_expr_llvm_ty(sc, e),
            Statement::If(i) => if i.else_block is Some {
                spec_block_llvm_ty(sc, &i.then_block)
            } else {
                spec_stmts_llvm_ty(sc, s.drop_last())
            },
            _ => spec_stmts_llvm_ty(sc, s.drop_last()),
        }
    }
}

/// The LLVM type of the value of `expr` (see [`spec_expr_llvm_ty`]).
pub fn infer_expr_llvm_ty(sc: &TypeScope, expr: &Expression) -> (r: String)
    requires
        sc.wf(),
    ensures
        r@ == spec_expr_llvm_ty(sc, expr),
    decreases expr, 0nat,
{
    match expr {
        Expression::Literal(Literal::Int(_)) => String::from_str("i32"),
        Expression::Literal(Literal::IntKind(_, k)) => String::from_str(sc.names.int_llvm(*k)),
        Expression::Literal(Literal::Float(_, k)) => String::from_str(sc.names.float_llvm(*k)),
        Expression::Literal(Literal::Char(_)) => String::from_str("i32"),
        Expression::Literal(Literal::Bool(_)) => String::from_str("i1"),
        Expression::Literal(Literal::String(_)) => String::from_str("ptr"),
        Expression::Call(c) => match sc.call_returns.get(c.callee.as_str()) {
            Some(t) => t.clone(),
            None => String::from_str("i32"),
        },
        Expression::StructLiteral(sl) => String::from_str("%").concat(sl.name.as_str()),
        Expression::EnumVariant(ev) => {
            if let Some(en) = &ev.enum_name {
                let payload = match sc.enum_has_payload.get(en.as_str()) {
                    Some(b) => *b,
                    None => false,
                };
                if payload {
                    return struct_ptr_type(en.as_str());
                }
            }
            String::from_str("i32")
        },
        Expression::Variable { name, .. } => match sc.env.get(name.as_str()) {
            Some(b) => match b {
                Binding::Reg { ty, .. } => ty.clone(),
                Binding::Param { ty, .. } => ty.clone(),
                Binding::Stack { ty, .. } => ty.clone(),
                _ => String::from_str("i32"),
            },
            None => String::from_str("i32"),
        },
        Expression::Grouped(inner) => infer_expr_llvm_ty(sc, inner),
        Expression::If(i) => infer_block_expr_llvm_ty(sc, &i.then_block),
        Expression::Match(m) => {
            if m.arms.len() > 0 {
                infer_block_expr_llvm_ty(sc, &m.arms[0].body)
            } else {
                String::from_str("i32")
            }
        },
        Expression::Binary(_) => String::from_str("i32"),
        Expression::Unary(u) => {
            if u.op == UnaryOp::Ref || u.op == UnaryOp::RefMut {
                let inner = infer_expr_llvm_ty(sc, &u.operand);
                llvm_ptr(inner.as_str())
            } else {
                infer_expr_llvm_ty(sc, &u.operand)
            }
        },
        _ => String::from_str("i32"),
    }
}

/// The LLVM type of a block's value (see [`spec_block_llvm_ty`]).
pub fn infer_block_expr_llvm_ty(sc: &TypeScope, block: &Block) -> (r: String)
    requires
        sc.wf(),
    ensures
        r@ == spec_block_llvm_ty(sc, block),
    decreases block, 2nat,
{
    let stmts = &block.statements;
    let mut k: usize = stmts.len();
    assert(stmts@.take(k as int) =~= stmts@);
    while k > 0
        invariant
            stmts == &block.statements,
            sc.wf(),
            k <= stmts@.len(),
            spec_stmts_llvm_ty(sc, stmts@) == spec_stmts_llvm_ty(sc, stmts@.take(k as int)),
        decreases k,
    {
        let ghost pre = stmts@.take(k as int);
        assert(pre.last() == stmts@[k - 1]);
        assert(pre.drop_last() =~= stmts@.take(k - 1));
        match &stmts[k - 1] {
            Statement::Return(r) => {
                return match &r.value {
                    Some(v) => infer_expr_llvm_ty(sc, v),
                    None => String::from_str("void"),
                };
            },
            Statement::Expression(e) => {
                return infer_expr_llvm_ty(sc, e);
            },
            Statement::If(i) => {
                if i.else_block.is_some() {
                    return infer_block_expr_llvm_ty(sc, &i.then_block);
                }
            },
            _ => {},
        }
        k = k - 1;
    }
    String::from_str("i32")
}

/// The first field of `fields` named `name`, if any.
pub open spec fn field_named(fields: Seq<(String, TypeAnnotation)>, name: Seq<char>) -> Option<TypeAnnotation>
    decreases fields.len(),
{
    if fields.len() == 0 {
        None
    } else if fields[0].0@ == name {
        Some(fields[0].1)
    } else {
        field_named(fields.drop_first(), name)
    }
}

fn find_field<'a>(fields: &'a Vec<(String, TypeAnnotation)>, name: &str) -> (r: Option<&'a TypeAnnotation>)
    ensures
        match r {
            Some(t) => field_named(fields@, name@) == Some(*t),
            None => field_named(fields@, name@) is None,
        },
{
    let mut i: usize = 0;
    assert(fields@.skip(0) =~= fields@);
    while i < fields.len()
        invariant
            i <= fields@.len(),
            field_named(fields@, name@) == field_named(fields@.skip(i as int), name@),
        decreases fields@.len() - i,
    {
        assert(fields@.skip(i as int).drop_first() =~= fields@.skip(i + 1));
        if str_eq(fields[i].0.as_str(), name) {
            return Some(&fields[i].1);
        }
        i = i + 1;
    }
    None
}

/// The struct a method receiver (or field access) refers to: the struct type
/// of a binding, the struct a call returns, the receiver of a method call, the
/// struct type of a field of a struct receiver, the struct literal's struct.
pub open spec fn spec_receiver_struct(sc: &TypeScope, expr: &Expression) -> Option<Seq<char>>
    decreases expr,
{
    match expr {
        Expression::Variable { name, .. } => if sc.env@.contains_key(name@) {
            spec_struct_name_from_llvm_ty(spec_binding_ty(&sc.env@[name@]))
        } else {
            None
        },
        Expression::Call(c) => if sc.call_returns@.contains_key(c.callee@) && starts_with_char(
            sc.call_returns@[c.callee@]@,
            '%',
        ) {
            spec_struct_name_from_llvm_ty(sc.call_returns@[c.callee@]@)
        } else {
            None
        },
        Expression::MethodCall(mc) => spec_receiver_struct(sc, &mc.object),
        Expression::FieldAccess(fa) => match spec_receiver_struct(sc, &fa.object) {
            Some(sn) => if sc.struct_fields@.contains_key(sn) {
                match field_named(sc.struct_fields@[sn]@, fa.field@) {
                    Some(TypeAnnotation::Struct(n)) => Some(n@),
                    _ => None,
                }
            } else {
                None
            },
            None => None,
        },
        Expression::StructLiteral(sl) => Some(sl.name@),
        Expression::Grouped(inner) => spec_receiver_struct(sc, inner),
        _ => None,
    }
}

/// The struct a receiver refers to (see [`spec_receiver_struct`]).
pub fn expr_receiver_struct_name(sc: &TypeScope, expr: &Expression) -> (r: Option<String>)
    requires
        sc.wf(),
    ensures
        match r {
            Some(n) => spec_receiver_struct(sc, expr) == Some(n@),
            None => spec_receiver_struct(sc, expr) is None,
        },
    decreases expr,
{
    match expr {
        Expression::Variable { name, .. } => match sc.env.get(name.as_str()) {
            Some(b) => struct_name_from_llvm_ty(binding_ty(b)),
            None => None,
        },
        Expression::Call(c) => match sc.call_returns.get(c.callee.as_str()) {
            Some(ret) => {
                if first_char(ret.as_str()) == Some('%') {
                    struct_name_from_llvm_ty(ret.as_str())
                } else {
                    None
                }
            },
            None => None,
        },
        Expression::MethodCall(mc) => expr_receiver_struct_name(sc, &mc.object),
        Expression::FieldAccess(fa) => {
            let sn = match expr_receiver_struct_name(sc, &fa.object) {
                Some(n) => n,
                None => {
                    return None;
                },
            };
            let fields = match sc.struct_fields.get(sn.as_str()) {
                Some(f) => f,
                None => {
                    return None;
                },
            };
            match find_field(fields, fa.field.as_str()) {
                Some(TypeAnnotation::Struct(n)) => Some(n.clone()),
                _ => None,
            }
        },
        Expression::StructLiteral(sl) => Some(sl.name.clone()),
        Expression::Grouped(inner) => expr_receiver_struct_name(sc, inner),
        _ => None,
    }
}

/// Does `expr` name a function pointer (through parentheses and casts)?
pub open spec fn spec_is_fn_pointer_operand(sc: &TypeScope, expr: &Expression) -> bool
    decreases expr,
{
    match expr {
        Expression::Variable { name, .. } => sc.fn_ptrs@.contains(name@),
        Expression::Grouped(inner) => spec_is_fn_pointer_operand(sc, inner),
        Expression::Cast(c) => spec_is_fn_pointer_operand(sc, &c.expr),
        _ => false,
    }
}

/// Does `expr` name a function pointer (see [`spec_is_fn_pointer_operand`])?
pub fn expr_is_fn_pointer_operand(sc: &TypeScope, expr: &Expression) -> (r: bool)
    ensures
        r == spec_is_fn_pointer_operand(sc, expr),
    decreases expr,
{
    match expr {
        Expression::Variable { name, .. } => sc.fn_ptrs.contains(name.as_str()),
        Expression::Grouped(inner) => expr_is_fn_pointer_operand(sc, inner),
        Expression::Cast(c) => expr_is_fn_pointer_operand(sc, &c.expr),
        _ => false,
    }
}

/// Is `expr` a string: a string literal or template, a `+` with a string
/// side, a `ptr` binding that is not a function pointer, a cast of a string,
/// a `str_cat`/`strcat` call or a call returning `ptr` or `string`.
pub open spec fn spec_is_string_operand(sc: &TypeScope, expr: &Expression) -> bool
    decreases expr,
{
    match expr {
        Expression::Literal(Literal::String(_)) => true,
        Expression::TemplateLiteral(_) => true,
        Expression::Binary(b) => b.op == BinaryOp::Add && (spec_is_string_operand(sc, &b.left) || spec_is_string_operand(
            sc,
            &b.right,
        )),
        Expression::Variable { name, .. } => sc.env@.contains_key(name@) && spec_binding_ty(&sc.env@[name@]) == "ptr"@
            && !sc.fn_ptrs@.contains(name@),
        Expression::Grouped(inner) => spec_is_string_operand(sc, inner),
        Expression::Cast(c) => spec_is_string_operand(sc, &c.expr),
        Expression::Call(c) => c.callee@ == "str_cat"@ || c.callee@ == "strcat"@ || (sc.call_returns@.contains_key(
            c.callee@,
        ) && (sc.call_returns@[c.callee@]@ == "ptr"@ || sc.call_returns@[c.callee@]@ == "string"@)),
        _ => false,
    }
}

/// Is `expr` a string (see [`spec_is_string_operand`])?
pub fn expr_is_string_operand(sc: &TypeScope, expr: &Expression) -> (r: bool)
    requires
        sc.wf(),
    ensures
        r == spec_is_string_operand(sc, expr),
    decreases expr,
{
    match expr {
        Expression::Literal(Literal::String(_)) => true,
        Expression::TemplateLiteral(_) => true,
        Expression::Binary(b) => {
            if b.op == BinaryOp::Add {
                expr_is_string_operand(sc, &b.left) || expr_is_string_operand(sc, &b.right)
            } else {
                false
            }
        },
        Expression::Variable { name, .. } => match sc.env.get(name.as_str()) {
            Some(b) => str_eq(binding_ty(b), "ptr") && !sc.fn_ptrs.contains(name.as_str()),
            None => false,
        },
        Expression::Grouped(inner) => expr_is_string_operand(sc, inner),
        Expression::Cast(c) => expr_is_string_operand(sc, &c.expr),
        Expression::Call(c) => {
            if str_eq(c.callee.as_str(), "str_cat") || str_eq(c.callee.as_str(), "strcat") {
                return true;
            }
            match sc.call_returns.get(c.callee.as_str()) {
                Some(ty) => str_eq(ty.as_str(), "ptr") || str_eq(ty.as_str(), "string"),
                None => false,
            }
        },
        _ => false,
    }
}

/// `s` with every leading copy of `p` removed (`trim_start_matches(p)`).
pub open spec fn trim_start_str(s: Seq<char>, p: Seq<char>) -> Seq<char>
    decreases s.len(),
{
    if p.len() > 0 && starts_with(s, p) {
        trim_start_str(s.skip(p.len() as int), p)
    } else {
        s
    }
}

fn trim_start_str_exec(s: &str, p: &str) -> (r: String)
    ensures
        r@ == trim_start_str(s@, p@),
{
    let v = chars_of(s);
    let pv = chars_of(p);
    let mut k: usize = 0;
    let mut done = pv.len() == 0;
    assert(v@.skip(0) =~= v@);
    while !done
        invariant
            v@ == s@,
            pv@ == p@,
            k <= v@.len(),
            trim_start_str(s@, p@) == trim_start_str(v@.skip(k as int), p@),
            done ==> trim_start_str(v@.skip(k as int), p@) == v@.skip(k as int),
            !done ==> pv@.len() > 0,
        decreases v@.len() - k, (if done { 0int } else { 1int }),
    {
        let rest = slice_to_vec(v.as_slice(), k, v.len());
        assert(rest@ =~= v@.skip(k as int));
        if starts_with_exec(rest.as_slice(), pv.as_slice()) {
            assert(v@.skip(k as int).skip(pv@.len() as int) =~= v@.skip(k + pv@.len()));
            k = k + pv.len();
        } else {
            done = true;
        }
    }
    let rest = slice_to_vec(v.as_slice(), k, v.len());
    assert(rest@ =~= v@.skip(k as int));
    string_of(rest.as_slice())
}

fn trim_end_char_exec(s: &str, c: char) -> (r: String)
    ensures
        r@ == trim_end_char(s@, c),
{
    let v = chars_of(s);
    let mut n: usize = v.len();
    assert(v@.take(n as int) =~= v@);
    while n > 0 && v[n - 1] == c
        invariant
            v@ == s@,
            n <= v@.len(),
            trim_end_char(s@, c) == trim_end_char(v@.take(n as int), c),
        decreases n,
    {
        assert(v@.take(n as int).drop_last() =~= v@.take(n - 1));
        n = n - 1;
    }
    let t = slice_to_vec(v.as_slice(), 0, n);
    assert(t@ =~= v@.take(n as int));
    string_of(t.as_slice())
}

/// What resolving a method call reads besides types: the custom `drop`
/// function of each struct that has one, static trait dispatch (struct, then
/// method, to the implementing function), and the program's function names.
pub struct MethodScope {
    pub custom_drop_fns: NameMap<String>,
    pub trait_method_callees: NameMap<NameMap<String>>,
    pub functions: NameSet,
}

impl MethodScope {
    pub open spec fn wf(&self) -> bool {
        &&& self.custom_drop_fns.wf()
        &&& self.trait_method_callees.wf()
        &&& forall|k: Seq<char>| #[trigger] self.trait_method_callees@.contains_key(k) ==> self.trait_method_callees@[k].wf()
    }
}

/// The trait object type behind a binding, for `x.method()` on `x: dyn Trait`.
pub open spec fn dyn_trait_of(sc: &TypeScope, object: &Expression) -> Option<Seq<char>> {
    match object {
        Expression::Variable { name, .. } => if sc.env@.contains_key(name@) && starts_with(
            spec_binding_ty(&sc.env@[name@]),
            "%Dyn_"@,
        ) {
            Some(trim_end_char(trim_start_str(spec_binding_ty(&sc.env@[name@]), "%Dyn_"@), '*'))
        } else {
            None
        },
        _ => None,
    }
}

/// The function a method call `object.method()` calls: the dispatch function
/// of a trait object, the struct's custom `drop`, the static trait impl, or
/// `Struct_method`; for a non-struct receiver `String_method` when that
/// function exists, else `method`.
pub open spec fn spec_method_callee(sc: &TypeScope, ms: &MethodScope, object: &Expression, method: Seq<char>) -> Seq<char> {
    match dyn_trait_of(sc, object) {
        Some(t) => "__dyn_"@ + t + "_"@ + method,
        None => match spec_receiver_struct(sc, object) {
            Some(sn) => if method == "drop"@ && ms.custom_drop_fns@.contains_key(sn) {
                ms.custom_drop_fns@[sn]@
            } else if ms.trait_method_callees@.contains_key(sn) && ms.trait_method_callees@[sn]@.contains_key(method) {
                ms.trait_method_callees@[sn]@[method]@
            } else {
                sn + "_"@ + method
            },
            None => if ms.functions@.contains("String_"@ + method) {
                "String_"@ + method
            } else {
                method
            },
        },
    }
}

/// The function a method call calls (see [`spec_method_callee`]).
pub fn method_callee_name(sc: &TypeScope, ms: &MethodScope, object: &Expression, method: &str) -> (r: String)
    requires
        sc.wf(),
        ms.wf(),
    ensures
        r@ == spec_method_callee(sc, ms, object, method@),
{
    if let Expression::Variable { name, .. } = object {
        if let Some(binding) = sc.env.get(name.as_str()) {
            let ty = binding_ty(binding);
            let tv = chars_of(ty);
            let pre = chars_of("%Dyn_");
            if starts_with_exec(tv.as_slice(), pre.as_slice()) {
                let trait_name = trim_end_char_exec(trim_start_str_exec(ty, "%Dyn_").as_str(), '*');
                return String::from_str("__dyn_").concat(trait_name.as_str()).concat("_").concat(method);
            }
        }
    }
    if let Some(struct_name) = expr_receiver_struct_name(sc, object) {
        if str_eq(method, "drop") {
            if let Some(callee) = ms.custom_drop_fns.get(struct_name.as_str()) {
                return callee.clone();
            }
        }
        if let Some(by_method) = ms.trait_method_callees.get(struct_name.as_str()) {
            if let Some(callee) = by_method.get(method) {
                return callee.clone();
            }
        }
        return struct_name.concat("_").concat(method);
    }
    let prefixed = String::from_str("String_").concat(method);
    if ms.functions.contains(prefixed.as_str()) {
        return prefixed;
    }
    String::from_str(method)
}

/// Index of the first of `vs` equal to `v`.
pub open spec fn first_index(vs: Seq<Seq<char>>, v: Seq<char>) -> Option<nat>
    decreases vs.len(),
{
    if vs.len() == 0 {
        None
    } else if vs[0] == v {
        Some(0)
    } else {
        match first_index(vs.drop_first(), v) {
            Some(i) => Some(i + 1),
            None => None,
        }
    }
}

/// The tag of `variant` in enum `enum_name`: its position among the enum's
/// variants, 0 when the enum or variant is unknown.
pub open spec fn spec_variant_tag(variants: Map<Seq<char>, Vec<String>>, enum_name: Seq<char>, variant: Seq<char>) -> i64 {
    if variants.contains_key(enum_name) {
        match first_index(crate::names::texts(variants[enum_name]@), variant) {
            Some(i) => i as i64,
            None => 0,
        }
    } else {
        0
    }
}

/// The tag of an enum variant (see [`spec_variant_tag`]).
pub fn variant_tag(enum_variants: &NameMap<Vec<String>>, enum_name: &str, variant: &str) -> (r: i64)
    requires
        enum_variants.wf(),
    ensures
        r == spec_variant_tag(enum_variants@, enum_name@, variant@),
{
    let vars = match enum_variants.get(enum_name) {
        Some(v) => v,
        None => {
            return 0;
        },
    };
    let ghost t = crate::names::texts(vars@);
    let mut i: usize = 0;
    assert(t.skip(0) =~= t);
    while i < vars.len()
        invariant
            t == crate::names::texts(vars@),
            enum_variants@.contains_key(enum_name@),
            enum_variants@[enum_name@] == *vars,
            i <= vars@.len(),
            forall|j: int| 0 <= j < i ==> t[j] != variant@,
            first_index(t, variant@) == (match first_index(t.skip(i as int), variant@) {
                Some(x) => Some((x + i) as nat),
                None => None,
            }),
        decreases vars@.len() - i,
    {
        assert(t.skip(i as int).drop_first() =~= t.skip(i + 1));
        assert(t.skip(i as int)[0] == vars@[i as int]@);
        if str_eq(vars[i].as_str(), variant) {
            assert(first_index(t.skip(i as int), variant@) == Some(0nat));
            return i as i64;
        }
        i = i + 1;
    }
    0
}

/// The enum a `match` scrutinee has: the recorded enum of a local, else the
/// enum named by a parameter's, register's or slot's type, else by the type of
/// the scrutinee's value `val_ty`.
pub open spec fn spec_scrutinee_enum(
    enum_locals: Map<Seq<char>, String>,
    enum_names: Set<Seq<char>>,
    env: Map<Seq<char>, Binding>,
    expr: &Expression,
    val_ty: Seq<char>,
) -> Option<Seq<char>> {
    let by_value = match spec_struct_name_from_llvm_ty(val_ty) {
        Some(n) => if enum_names.contains(n) { Some(n) } else { None },
        None => None,
    };
    match expr {
        Expression::Variable { name, .. } => if enum_locals.contains_key(name@) {
            Some(enum_locals[name@]@)
        } else if env.contains_key(name@) {
            match env[name@] {
                Binding::Param { ty, .. } | Binding::Reg { ty, .. } | Binding::Stack { ty, .. } => match spec_struct_name_from_llvm_ty(ty@) {
                    Some(n) => if enum_names.contains(n) { Some(n) } else { by_value },
                    None => by_value,
                },
                _ => None,
            }
        } else {
            by_value
        },
        _ => by_value,
    }
}

/// The enum a `match` scrutinee has (see [`spec_scrutinee_enum`]).
pub fn match_scrutinee_enum(
    enum_locals: &NameMap<String>,
    enum_names: &NameSet,
    env: &NameMap<Binding>,
    expr: &Expression,
    val_ty: &str,
) -> (r: Option<String>)
    requires
        enum_locals.wf(),
        env.wf(),
    ensures
        match r {
            Some(n) => spec_scrutinee_enum(enum_locals@, enum_names@, env@, expr, val_ty@) == Some(n@),
            None => spec_scrutinee_enum(enum_locals@, enum_names@, env@, expr, val_ty@) is None,
        },
{
    if let Expression::Variable { name, .. } = expr {
        if let Some(en) = enum_locals.get(name.as_str()) {
            return Some(en.clone());
        }
        if let Some(binding) = env.get(name.as_str()) {
            let ty = match binding {
                Binding::Param { ty, .. } => ty.as_str(),
                Binding::Reg { ty, .. } => ty.as_str(),
                Binding::Stack { ty, .. } => ty.as_str(),
                _ => {
                    return None;
                },
            };
            if let Some(n) = struct_name_from_llvm_ty(ty) {
                if enum_names.contains(n.as_str()) {
                    return Some(n);
                }
            }
        }
    }
    if let Some(n) = struct_name_from_llvm_ty(val_ty) {
        if enum_names.contains(n.as_str()) {
            return Some(n);
        }
    }
    None
}

/// A lowered value: its register or constant operand, and its LLVM type.
pub struct ExprValue {
    pub reg: String,
    pub ty: String,
}

/// The enum a `match` pattern is about: the pattern's own enum name when it
/// has one, else the struct named by the scrutinee's LLVM type (empty when
/// that type names none).
pub open spec fn spec_pattern_enum_name(val_ty: Seq<char>, pattern_enum: Seq<char>) -> Seq<char> {
    if pattern_enum.len() > 0 {
        pattern_enum
    } else {
        match spec_struct_name_from_llvm_ty(val_ty) {
            Some(n) => n,
            None => Seq::empty(),
        }
    }
}

/// The enum a `match` pattern is about (see `spec_pattern_enum_name`).
pub fn resolve_pattern_enum_name(val: &ExprValue, pattern_enum: &str) -> (r: String)
    ensures
        r@ == spec_pattern_enum_name(val.ty@, pattern_enum@),
{
    if pattern_enum.unicode_len() > 0 {
        return String::from_str(pattern_enum);
    }
    match struct_name_from_llvm_ty(val.ty.as_str()) {
        Some(n) => n,
        None => String::new(),
    }
}

/// Are two `ptr` operands compared as strings: both are pointers and
/// neither names a function pointer?
pub open spec fn spec_compare_ptr_as_string(
    sc: &TypeScope,
    left: &Expression,
    right: &Expression,
    left_ty: Seq<char>,
    right_ty: Seq<char>,
) -> bool {
    &&& left_ty == "ptr"@
    &&& right_ty == "ptr"@
    &&& !spec_is_fn_pointer_operand(sc, left)
    &&& !spec_is_fn_pointer_operand(sc, right)
}

/// Whether `left == right` on two pointers compares string contents (see
/// `spec_compare_ptr_as_string`).
pub fn should_compare_ptr_as_string(
    sc: &TypeScope,
    left: &Expression,
    right: &Expression,
    left_val: &ExprValue,
    right_val: &ExprValue,
) -> (r: bool)
    ensures
        r == spec_compare_ptr_as_string(sc, left, right, left_val.ty@, right_val.ty@),
{
    str_eq(left_val.ty.as_str(), "ptr") && str_eq(right_val.ty.as_str(), "ptr") && !expr_is_fn_pointer_operand(
        sc,
        left,
        ) && !expr_is_fn_pointer_operand(sc, right)
}

/// The integer kind of the bound given to `random`: a typed literal's kind,
/// `i32` for a plain literal, a local's tracked kind, else the kind of its
/// binding's LLVM type, looking through parentheses; `i32` otherwise.
pub open spec fn spec_random_int_kind(
    local_int_kinds: Map<Seq<char>, IntKind>,
    env: Map<Seq<char>, Binding>,
    expr: &Expression,
) -> IntKind
    decreases expr,
{
    match expr {
        Expression::Literal(Literal::IntKind(_, k)) => *k,
        Expression::Literal(Literal::Int(_)) => IntKind::I32,
        Expression::Variable { name, .. } => if local_int_kinds.contains_key(name@) {
            local_int_kinds[name@]
        } else if env.contains_key(name@) {
            spec_int_kind_of_llvm_ty(spec_binding_ty(&env[name@]))
        } else {
            IntKind::I32
        },
        Expression::Grouped(inner) => spec_random_int_kind(local_int_kinds, env, inner),
        _ => IntKind::I32,
    }
}

/// The integer kind of a `random` bound (see `spec_random_int_kind`).
pub fn infer_random_int_kind(local_int_kinds: &NameMap<IntKind>, env: &NameMap<Binding>, expr: &Expression) -> (r: IntKind)
    requires
        local_int_kinds.wf(),
        env.wf(),
    ensures
        r == spec_random_int_kind(local_int_kinds@, env@, expr),
    decreases expr,
{
    match expr {
        Expression::Literal(Literal::IntKind(_, k)) => *k,
        Expression::Literal(Literal::Int(_)) => IntKind::I32,
        Expression::Variable { name, .. } => match local_int_kinds.get(name.as_str()) {
            Some(k) => *k,
            None => match env.get(name.as_str()) {
                Some(b) => int_kind_from_llvm_ty_default_signed(binding_ty(b)),
                None => IntKind::I32,
            },
        },
        Expression::Grouped(inner) => infer_random_int_kind(local_int_kinds, env, inner),
        _ => IntKind::I32,
    }
}

/// Names in strictly increasing order.
pub open spec fn sorted_names(s: Seq<Seq<char>>) -> bool {
    forall|i: int, j: int| 0 <= i < j < s.len() ==> lex_lt(#[trigger] s[i], #[trigger] s[j])
}

/// Inserts `name`, absent from `v`, keeping `v` in increasing order.
fn insert_sorted(v: &mut Vec<String>, name: String)
    requires
        sorted_names(texts(old(v)@)),
        !texts(old(v)@).contains(name@),
    ensures
        sorted_names(texts(final(v)@)),
        texts(final(v)@).to_set() == texts(old(v)@).to_set().insert(name@),
{
    let nc = chars_of(name.as_str());
    let mut p: usize = 0;
    while p < v.len()
        invariant
            p <= v@.len(),
            nc@ == name@,
            forall|k: int| 0 <= k < p ==> !lex_lt(name@, #[trigger] v@[k]@),
        ensures
            p <= v@.len(),
            forall|k: int| 0 <= k < p ==> !lex_lt(name@, #[trigger] v@[k]@),
            p < v@.len() ==> lex_lt(name@, v@[p as int]@),
        decreases v@.len() - p,
    {
        let vc = chars_of(v[p].as_str());
        if lex_lt_exec(nc.as_slice(), vc.as_slice()) {
            break;
        }
        p = p + 1;
    }
    let ghost before = texts(v@);
    proof {
        assert forall|k: int| 0 <= k < p implies lex_lt(#[trigger] before[k], name@) by {
            lemma_lex_total(before[k], name@);
            assert(before[k] != name@) by {
                assert(before.contains(before[k]));
            }
        }
        if p < before.len() {
            assert forall|k: int| p <= k < before.len() implies lex_lt(name@, #[trigger] before[k]) by {
                if k > p {
                    lemma_lex_trans(name@, before[p as int], before[k]);
                }
            }
        }
    }
    v.insert(p, name);
    proof {
        let after = texts(v@);
        assert(after =~= before.insert(p as int, name@));
        assert forall|i: int, j: int| 0 <= i < j < after.len() implies lex_lt(#[trigger] after[i], #[trigger] after[j]) by {
            if j < p {
            } else if j == p {
            } else if i < p {
                lemma_lex_trans(after[i], name@, after[j]);
            } else if i == p {
            } else {
            }
        }
        assert forall|m: Seq<char>| #[trigger] after.to_set().contains(m) <==> before.to_set().insert(name@).contains(m) by {
            if after.contains(m) {
                let k = choose|k: int| 0 <= k < after.len() && after[k] == m;
                if k < p {
                    assert(before[k] == m);
                } else if k > p {
                    assert(before[k - 1] == m);
                }
            }
            if before.contains(m) {
                let k = choose|k: int| 0 <= k < before.len() && before[k] == m;
                if k < p {
                    assert(after[k] == m);
                } else {
                    assert(after[k + 1] == m);
                }
            }
            if m == name@ {
                assert(after[p as int] == m);
            }
        }
        assert(after.to_set() =~= before.to_set().insert(name@));
    }
}

/// The mutable SSA locals in scope that a loop body assigns (anywhere, nested
/// blocks included), in increasing order: the values a loop carries.
pub open spec fn spec_loop_carried(mut_ssa_locals: Set<Seq<char>>, env: Map<Seq<char>, Binding>, body: &Block) -> Set<Seq<char>> {
    assigned_anywhere(body.statements@).filter(|n: Seq<char>| mut_ssa_locals.contains(n) && env.contains_key(n))
}

/// The values a loop body carries (see `spec_loop_carried`), sorted.
pub fn loop_carried_ssa_in_body(mut_ssa_locals: &NameSet, env: &NameMap<Binding>, body: &Block) -> (r: Vec<String>)
    requires
        mut_ssa_locals.wf(),
        env.wf(),
    ensures
        sorted_names(texts(r@)),
        texts(r@).to_set() == spec_loop_carried(mut_ssa_locals@, env@, body),
{
    let assigned = collect_assigned_in_block(body);
    let mut out: Vec<String> = Vec::new();
    let mut i: usize = 0;
    while i < assigned.names.len()
        invariant
            mut_ssa_locals.wf(),
            env.wf(),
            assigned.wf(),
            assigned@ == assigned_anywhere(body.statements@),
            i <= assigned.names@.len(),
            sorted_names(texts(out@)),
            forall|n: Seq<char>| #[trigger] texts(out@).contains(n) <==> exists|k: int|
                0 <= k < i && assigned.names@[k]@ == n && mut_ssa_locals@.contains(n) && env@.contains_key(n),
        decreases assigned.names@.len() - i,
    {
        let n = &assigned.names[i];
        if mut_ssa_locals.contains(n.as_str()) && env.contains_key(n.as_str()) {
            proof {
                if texts(out@).contains(n@) {
                    let k = choose|k: int| 0 <= k < i && assigned.names@[k]@ == n@ && mut_ssa_locals@.contains(n@) && env@.contains_key(n@);
                    assert(assigned.names@[k]@ != assigned.names@[i as int]@);
                }
            }
            let ghost before = texts(out@);
            insert_sorted(&mut out, n.clone());
            proof {
                assert forall|m: Seq<char>| #[trigger] texts(out@).contains(m) <==> exists|k: int|
                    0 <= k < i + 1 && assigned.names@[k]@ == m && mut_ssa_locals@.contains(m) && env@.contains_key(m) by {
                    assert(texts(out@).to_set().contains(m) == texts(out@).contains(m));
                    assert(before.to_set().contains(m) == before.contains(m));
                    if m == n@ {
                        assert(assigned.names@[i as int]@ == m);
                    }
                }
            }
        } else {
            proof {
                assert forall|m: Seq<char>| #[trigger] texts(out@).contains(m) <==> exists|k: int|
                    0 <= k < i + 1 && assigned.names@[k]@ == m && mut_ssa_locals@.contains(m) && env@.contains_key(m) by {
                    if exists|k: int| 0 <= k < i + 1 && assigned.names@[k]@ == m && mut_ssa_locals@.contains(m) && env@.contains_key(m) {
                        let k = choose|k: int| 0 <= k < i + 1 && assigned.names@[k]@ == m && mut_ssa_locals@.contains(m) && env@.contains_key(m);
                        assert(k != i);
                    }
                }
            }
        }
        i = i + 1;
    }
    proof {
        assert forall|m: Seq<char>| #[trigger] texts(out@).to_set().contains(m) <==> spec_loop_carried(mut_ssa_locals@, env@, body).contains(m) by {
            assert(texts(out@).to_set().contains(m) == texts(out@).contains(m));
            if assigned@.contains(m) {
                let k = choose|k: int| 0 <= k < assigned.names@.len() && #[trigger] assigned.names@[k]@ == m;
            }
        }
        assert(texts(out@).to_set() =~= spec_loop_carried(mut_ssa_locals@, env@, body));
    }
    out
}

} // verus!
