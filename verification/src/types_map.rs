//! LLVM types of Nyra type annotations: the type of a value, of a parameter
//! (structs, trait objects and enums with payloads passed by pointer) and of a
//! return value, with enums lowered to an `i32` tag or to a tagged struct.
use vstd::prelude::*;
use crate::ast::TypeAnnotation;
use crate::inspect::{join, join_exec};
use crate::lowering::{KindNames, TypeScope};
use crate::names::{texts, NameSet};
use crate::num::{decimal_of, decimal_string};
use crate::llvm_util::{llvm_storage_ty, spec_llvm_storage_ty};
use crate::text::{chars_of, count_leading, slice_to_vec, str_eq, string_of, trim_start_char};

verus! {

/// `inst` names every instance of a generic type (its base and its type
/// arguments), and always the same way.
pub open spec fn names_instances<F: Fn(&String, &Vec<TypeAnnotation>) -> String>(inst: F) -> bool {
    &&& forall|b: &String, a: &Vec<TypeAnnotation>| #[trigger] call_requires(inst, (b, a))
    &&& forall|b: &String, a: &Vec<TypeAnnotation>, x: String, y: String|
        #[trigger] call_ensures(inst, (b, a), x) && #[trigger] call_ensures(inst, (b, a), y) ==> x@ == y@
}

/// The name `inst` gives the instance of `base` at `args`.
pub open spec fn instance_text<F: Fn(&String, &Vec<TypeAnnotation>) -> String>(
    inst: F,
    base: String,
    args: Vec<TypeAnnotation>,
) -> Seq<char> {
    (choose|s: String| call_ensures(inst, (&base, &args), s))@
}

fn instance_name<F: Fn(&String, &Vec<TypeAnnotation>) -> String>(
    inst: &F,
    base: &String,
    args: &Vec<TypeAnnotation>,
) -> (r: String)
    requires
        names_instances(*inst),
    ensures
        r@ == instance_text(*inst, *base, *args),
{
    let r = inst(base, args);
    proof {
        let c = choose|s: String| call_ensures(*inst, (base, args), s);
        assert(call_ensures(*inst, (base, args), c));
    }
    r
}

/// `s` with every `*` replaced by `p`.
pub open spec fn stars_to_p(s: Seq<char>) -> Seq<char> {
    s.map_values(|c: char| if c == '*' { 'p' } else { c })
}

fn stars_to_p_exec(s: &str) -> (r: String)
    ensures
        r@ == stars_to_p(s@),
{
    let v = chars_of(s);
    let mut out: Vec<char> = Vec::new();
    let mut i: usize = 0;
    while i < v.len()
        invariant
            v@ == s@,
            i <= v@.len(),
            out@ == stars_to_p(v@.take(i as int)),
        decreases v@.len() - i,
    {
        if v[i] == '*' {
            out.push('p');
        } else {
            out.push(v[i]);
        }
        i = i + 1;
        assert(out@ =~= stars_to_p(v@.take(i as int)));
    }
    assert(v@.take(v@.len() as int) =~= v@);
    string_of(out.as_slice())
}

/// The LLVM type of a type annotation on its own: the kind names for
/// integers, `float`/`double`, `i32` for chars, enums and generics, `i1`,
/// `ptr` for strings, pointers and function pointers, `void`, `%Name` for a
/// struct, `[n x T]` for an array (`0` when its length is open), `%TupleN_...`
/// for a tuple (element types joined by `_`, `*` written `p`), the inner type of
/// a reference or binder, `i8` for a lifetime, `%Dyn_Trait` for a trait object
/// and `%` before the instance name of a generic application.
pub open spec fn spec_llvm_type_ann<F: Fn(&String, &Vec<TypeAnnotation>) -> String>(
    names: KindNames,
    enums: Set<Seq<char>>,
    inst: F,
    ty: TypeAnnotation,
) -> Seq<char>
    decreases ty,
{
    match ty {
        TypeAnnotation::Integer(k) => names.int_name(k),
        TypeAnnotation::F32 => "float"@,
        TypeAnnotation::F64 => "double"@,
        TypeAnnotation::Char => "i32"@,
        TypeAnnotation::Bool => "i1"@,
        TypeAnnotation::String => "ptr"@,
        TypeAnnotation::VecStr => "ptr"@,
        TypeAnnotation::Ptr => "ptr"@,
        TypeAnnotation::RawPtr { .. } => "ptr"@,
        TypeAnnotation::Void => "void"@,
        TypeAnnotation::Struct(n) => if enums.contains(n@) {
            "i32"@
        } else {
            "%"@ + n@
        },
        TypeAnnotation::Enum(_) => "i32"@,
        TypeAnnotation::Array { elem, len } => "["@ + decimal_string(
            match len {
                Some(n) => n as nat,
                None => 0,
            },
        ) + " x "@ + spec_llvm_type_ann(names, enums, inst, *elem) + "]"@,
        TypeAnnotation::Tuple(elems) => "%Tuple"@ + decimal_string(elems@.len()) + "_"@ + stars_to_p(
            join(spec_llvm_types(names, enums, inst, elems@), "_"@),
        ),
        TypeAnnotation::Ref { inner, .. } => spec_llvm_type_ann(names, enums, inst, *inner),
        TypeAnnotation::Generic(_) => "i32"@,
        TypeAnnotation::Lifetime(_) => "i8"@,
        TypeAnnotation::ForAll { inner, .. } => spec_llvm_type_ann(names, enums, inst, *inner),
        TypeAnnotation::FnPtr { .. } => "ptr"@,
        TypeAnnotation::DynTrait { trait_name, .. } => "%Dyn_"@ + trait_name@,
        TypeAnnotation::Applied { base, args } => "%"@ + instance_text(inst, base, args),
    }
}

/// The LLVM types of a list of type annotations, in order.
pub open spec fn spec_llvm_types<F: Fn(&String, &Vec<TypeAnnotation>) -> String>(
    names: KindNames,
    enums: Set<Seq<char>>,
    inst: F,
    s: Seq<TypeAnnotation>,
) -> Seq<Seq<char>>
    decreases s,
{
    if s.len() == 0 {
        seq![]
    } else {
        spec_llvm_types(names, enums, inst, s.subrange(0, s.len() - 1)).push(
            spec_llvm_type_ann(names, enums, inst, s[s.len() - 1]),
        )
    }
}

/// The LLVM type of `ty` on its own (enums named in `enum_names` are `i32`
/// tags); `inst` names the instances of generic types.
pub fn llvm_type_ann_resolved<F: Fn(&String, &Vec<TypeAnnotation>) -> String>(
    ty: &TypeAnnotation,
    enum_names: &NameSet,
    names: &KindNames,
    inst: &F,
) -> (r: String)
    requires
        enum_names.wf(),
        names_instances(*inst),
    ensures
        r@ == spec_llvm_type_ann(*names, enum_names@, *inst, *ty),
    decreases ty,
{
    match ty {
        TypeAnnotation::Integer(k) => String::from_str(names.int_llvm(*k)),
        TypeAnnotation::F32 => String::from_str("float"),
        TypeAnnotation::F64 => String::from_str("double"),
        TypeAnnotation::Char => String::from_str("i32"),
        TypeAnnotation::Bool => String::from_str("i1"),
        TypeAnnotation::String => String::from_str("ptr"),
        TypeAnnotation::VecStr => String::from_str("ptr"),
        TypeAnnotation::Ptr => String::from_str("ptr"),
        TypeAnnotation::RawPtr { .. } => String::from_str("ptr"),
        TypeAnnotation::Void => String::from_str("void"),
        TypeAnnotation::Struct(n) => {
            if enum_names.contains(n.as_str()) {
                String::from_str("i32")
            } else {
                String::from_str("%").concat(n.as_str())
            }
        },
        TypeAnnotation::Enum(_) => String::from_str("i32"),
        TypeAnnotation::Array { elem, len } => {
            let inner = llvm_type_ann_resolved(elem, enum_names, names, inst);
            let n: usize = match len {
                Some(n) => *n,
                None => 0,
            };
            let count = decimal_of(n as u64);
            String::from_str("[").concat(count.as_str()).concat(" x ").concat(inner.as_str()).concat("]")
        },
        TypeAnnotation::Tuple(elems) => {
            let inner = llvm_types_of(elems, enum_names, names, inst);
            let joined = join_exec(inner.as_slice(), "_");
            let count = decimal_of(elems.len() as u64);
            String::from_str("%Tuple").concat(count.as_str()).concat("_").concat(
                stars_to_p_exec(joined.as_str()).as_str(),
            )
        },
        TypeAnnotation::Ref { inner, .. } => llvm_type_ann_resolved(inner, enum_names, names, inst),
        TypeAnnotation::Generic(_) => String::from_str("i32"),
        TypeAnnotation::Lifetime(_) => String::from_str("i8"),
        TypeAnnotation::ForAll { inner, .. } => llvm_type_ann_resolved(inner, enum_names, names, inst),
        TypeAnnotation::FnPtr { .. } => String::from_str("ptr"),
        TypeAnnotation::DynTrait { trait_name, .. } => String::from_str("%Dyn_").concat(trait_name.as_str()),
        TypeAnnotation::Applied { base, args } => {
            let name = instance_name(inst, base, args);
            String::from_str("%").concat(name.as_str())
        },
    }
}

fn llvm_types_of<F: Fn(&String, &Vec<TypeAnnotation>) -> String>(
    v: &Vec<TypeAnnotation>,
    enum_names: &NameSet,
    names: &KindNames,
    inst: &F,
) -> (r: Vec<String>)
    requires
        enum_names.wf(),
        names_instances(*inst),
    ensures
        texts(r@) == spec_llvm_types(*names, enum_names@, *inst, v@),
    decreases v,
{
    let mut out: Vec<String> = Vec::new();
    let mut i: usize = 0;
    while i < v.len()
        invariant
            enum_names.wf(),
            names_instances(*inst),
            i <= v@.len(),
            texts(out@) == spec_llvm_types(*names, enum_names@, *inst, v@.take(i as int)),
        decreases v@.len() - i,
    {
        let t = llvm_type_ann_resolved(&v[i], enum_names, names, inst);
        let ghost before = out@;
        out.push(t);
        proof {
            assert(v@.take(i + 1).subrange(0, i as int) =~= v@.take(i as int));
            assert(texts(out@) =~= texts(before).push(t@));
        }
        i = i + 1;
    }
    assert(v@.take(v@.len() as int) =~= v@);
    out
}

/// Does enum `name` carry payloads (unknown enums do not)?
pub open spec fn has_payload(sc: &TypeScope, name: Seq<char>) -> bool {
    sc.enum_has_payload@.contains_key(name) && sc.enum_has_payload@[name]
}

fn payload_of(sc: &TypeScope, name: &str) -> (r: bool)
    requires
        sc.wf(),
    ensures
        r == has_payload(sc, name@),
{
    match sc.enum_has_payload.get(name) {
        Some(b) => *b,
        None => false,
    }
}

/// The enum a type annotation names: a struct or enum name listed in `enums`,
/// or the mangled instance `Base__T1_T2` of a generic application, its
/// arguments written as their LLVM types without the leading `%`, when that
/// instance is listed.
pub open spec fn spec_resolved_enum_name<F: Fn(&String, &Vec<TypeAnnotation>) -> String>(
    sc: &TypeScope,
    enums: Set<Seq<char>>,
    inst: F,
    ty: TypeAnnotation,
) -> Option<Seq<char>>
    decreases ty, 0nat,
{
    match ty {
        TypeAnnotation::Struct(n) => if enums.contains(n@) {
            Some(n@)
        } else {
            None
        },
        TypeAnnotation::Enum(n) => if enums.contains(n@) {
            Some(n@)
        } else {
            None
        },
        TypeAnnotation::Applied { base, args } => {
            let mangled = base@ + "__"@ + join(spec_arg_suffixes(sc, enums, inst, args@), "_"@);
            if enums.contains(mangled) {
                Some(mangled)
            } else {
                None
            }
        },
        _ => None,
    }
}

/// The LLVM types of generic arguments without their leading `%`.
pub open spec fn spec_arg_suffixes<F: Fn(&String, &Vec<TypeAnnotation>) -> String>(
    sc: &TypeScope,
    enums: Set<Seq<char>>,
    inst: F,
    s: Seq<TypeAnnotation>,
) -> Seq<Seq<char>>
    decreases s, 0nat,
{
    if s.len() == 0 {
        seq![]
    } else {
        spec_arg_suffixes(sc, enums, inst, s.subrange(0, s.len() - 1)).push(
            trim_start_char(spec_llvm_type_of(sc, enums, inst, s[s.len() - 1]), '%'),
        )
    }
}

/// The LLVM value type of `ty`: an enum is its tagged struct `%Name` when it
/// carries payloads and an `i32` tag otherwise; any other type is its type
/// on its own.
pub open spec fn spec_llvm_type_of<F: Fn(&String, &Vec<TypeAnnotation>) -> String>(
    sc: &TypeScope,
    enums: Set<Seq<char>>,
    inst: F,
    ty: TypeAnnotation,
) -> Seq<char>
    decreases ty, 1nat,
{
    match spec_resolved_enum_name(sc, enums, inst, ty) {
        Some(name) => if has_payload(sc, name) {
            "%"@ + name
        } else {
            "i32"@
        },
        None => spec_llvm_type_ann(sc.names, enums, inst, ty),
    }
}

/// The enum `ty` names, if any (see `spec_resolved_enum_name`).
pub fn resolved_enum_name<F: Fn(&String, &Vec<TypeAnnotation>) -> String>(
    sc: &TypeScope,
    enum_names: &NameSet,
    inst: &F,
    ty: &TypeAnnotation,
) -> (r: Option<String>)
    requires
        sc.wf(),
        enum_names.wf(),
        names_instances(*inst),
    ensures
        r.is_some() == spec_resolved_enum_name(sc, enum_names@, *inst, *ty).is_some(),
        r matches Some(n) ==> spec_resolved_enum_name(sc, enum_names@, *inst, *ty) == Some(n@),
    decreases ty, 0nat,
{
    match ty {
        TypeAnnotation::Struct(n) => {
            if enum_names.contains(n.as_str()) {
                Some(n.clone())
            } else {
                None
            }
        },
        TypeAnnotation::Enum(n) => {
            if enum_names.contains(n.as_str()) {
                Some(n.clone())
            } else {
                None
            }
        },
        TypeAnnotation::Applied { base, args } => {
            let suffixes = arg_suffixes(sc, enum_names, inst, args);
            let joined = join_exec(suffixes.as_slice(), "_");
            let mangled = base.clone().concat("__").concat(joined.as_str());
            if enum_names.contains(mangled.as_str()) {
                Some(mangled)
            } else {
                None
            }
        },
        _ => None,
    }
}

fn arg_suffixes<F: Fn(&String, &Vec<TypeAnnotation>) -> String>(
    sc: &TypeScope,
    enum_names: &NameSet,
    inst: &F,
    v: &Vec<TypeAnnotation>,
) -> (r: Vec<String>)
    requires
        sc.wf(),
        enum_names.wf(),
        names_instances(*inst),
    ensures
        texts(r@) == spec_arg_suffixes(sc, enum_names@, *inst, v@),
    decreases v, 0nat,
{
    let mut out: Vec<String> = Vec::new();
    let mut i: usize = 0;
    while i < v.len()
        invariant
            sc.wf(),
            enum_names.wf(),
            names_instances(*inst),
            i <= v@.len(),
            texts(out@) == spec_arg_suffixes(sc, enum_names@, *inst, v@.take(i as int)),
        decreases v@.len() - i,
    {
        let t = llvm_type_of(sc, enum_names, inst, &v[i]);
        let chars = chars_of(t.as_str());
        let k = count_leading(chars.as_slice(), '%');
        let rest = slice_to_vec(chars.as_slice(), k, chars.len());
        let s = string_of(rest.as_slice());
        let ghost before = out@;
        out.push(s);
        proof {
            assert(rest@ =~= chars@.skip(k as int));
            assert(v@.take(i + 1).subrange(0, i as int) =~= v@.take(i as int));
            assert(texts(out@) =~= texts(before).push(s@));
        }
        i = i + 1;
    }
    assert(v@.take(v@.len() as int) =~= v@);
    out
}

/// The LLVM value type of `ty` (see `spec_llvm_type_of`).
pub fn llvm_type_of<F: Fn(&String, &Vec<TypeAnnotation>) -> String>(
    sc: &TypeScope,
    enum_names: &NameSet,
    inst: &F,
    ty: &TypeAnnotation,
) -> (r: String)
    requires
        sc.wf(),
        enum_names.wf(),
        names_instances(*inst),
    ensures
        r@ == spec_llvm_type_of(sc, enum_names@, *inst, *ty),
    decreases ty, 1nat,
{
    match resolved_enum_name(sc, enum_names, inst, ty) {
        Some(name) => {
            if payload_of(sc, name.as_str()) {
                String::from_str("%").concat(name.as_str())
            } else {
                String::from_str("i32")
            }
        },
        None => llvm_type_ann_resolved(ty, enum_names, &sc.names, inst),
    }
}

/// How a value of enum `name` is held: its tagged struct when it carries
/// payloads, an `i32` tag otherwise.
pub open spec fn spec_enum_value_type(sc: &TypeScope, name: Seq<char>) -> Seq<char> {
    if has_payload(sc, name) {
        "%"@ + name
    } else {
        "i32"@
    }
}

/// How a value of enum `name` is held (see `spec_enum_value_type`).
pub fn enum_llvm_value_type(sc: &TypeScope, name: &str) -> (r: String)
    requires
        sc.wf(),
    ensures
        r@ == spec_enum_value_type(sc, name@),
{
    if payload_of(sc, name) {
        String::from_str("%").concat(name)
    } else {
        String::from_str("i32")
    }
}

/// The LLVM return type of a function returning `ty`: the value type of the
/// enum it names, else its value type.
pub open spec fn spec_llvm_return_type_of<F: Fn(&String, &Vec<TypeAnnotation>) -> String>(
    sc: &TypeScope,
    enums: Set<Seq<char>>,
    inst: F,
    ty: TypeAnnotation,
) -> Seq<char> {
    match spec_resolved_enum_name(sc, enums, inst, ty) {
        Some(name) => spec_enum_value_type(sc, name),
        None => spec_llvm_type_of(sc, enums, inst, ty),
    }
}

/// The LLVM return type of `ty` (see `spec_llvm_return_type_of`).
pub fn llvm_return_type_of<F: Fn(&String, &Vec<TypeAnnotation>) -> String>(
    sc: &TypeScope,
    enum_names: &NameSet,
    inst: &F,
    ty: &TypeAnnotation,
) -> (r: String)
    requires
        sc.wf(),
        enum_names.wf(),
        names_instances(*inst),
    ensures
        r@ == spec_llvm_return_type_of(sc, enum_names@, *inst, *ty),
{
    match resolved_enum_name(sc, enum_names, inst, ty) {
        Some(name) => enum_llvm_value_type(sc, name.as_str()),
        None => llvm_type_of(sc, enum_names, inst, ty),
    }
}

/// The LLVM type of a parameter of type `ty`: a pointer to the tagged struct
/// of an enum with payloads (an `i32` tag for other enums), a pointer to a
/// trait object or to a struct, else the value type.
pub open spec fn spec_llvm_param_type_of<F: Fn(&String, &Vec<TypeAnnotation>) -> String>(
    sc: &TypeScope,
    enums: Set<Seq<char>>,
    inst: F,
    ty: TypeAnnotation,
) -> Seq<char> {
    match spec_resolved_enum_name(sc, enums, inst, ty) {
        Some(name) => if has_payload(sc, name) {
            "%"@ + name + "*"@
        } else {
            "i32"@
        },
        None => match ty {
            TypeAnnotation::DynTrait { trait_name, .. } => "%Dyn_"@ + trait_name@ + "*"@,
            TypeAnnotation::Struct(n) => "%"@ + n@ + "*"@,
            _ => spec_llvm_type_of(sc, enums, inst, ty),
        },
    }
}

/// The LLVM parameter type of `ty` (see `spec_llvm_param_type_of`).
pub fn llvm_param_type_of<F: Fn(&String, &Vec<TypeAnnotation>) -> String>(
    sc: &TypeScope,
    enum_names: &NameSet,
    inst: &F,
    ty: &TypeAnnotation,
) -> (r: String)
    requires
        sc.wf(),
        enum_names.wf(),
        names_instances(*inst),
    ensures
        r@ == spec_llvm_param_type_of(sc, enum_names@, *inst, *ty),
{
    match resolved_enum_name(sc, enum_names, inst, ty) {
        Some(name) => {
            if payload_of(sc, name.as_str()) {
                String::from_str("%").concat(name.as_str()).concat("*")
            } else {
                String::from_str("i32")
            }
        },
        None => match ty {
            TypeAnnotation::DynTrait { trait_name, .. } => String::from_str("%Dyn_").concat(
                trait_name.as_str(),
            ).concat("*"),
            TypeAnnotation::Struct(n) => String::from_str("%").concat(n.as_str()).concat("*"),
            _ => llvm_type_of(sc, enum_names, inst, ty),
        },
    }
}

/// Is a value of type `ty` passed to a function by pointer: a struct, a trait
/// object, or an enum with payloads?
pub open spec fn passed_by_pointer<F: Fn(&String, &Vec<TypeAnnotation>) -> String>(
    sc: &TypeScope,
    enums: Set<Seq<char>>,
    inst: F,
    ty: TypeAnnotation,
) -> bool {
    match spec_resolved_enum_name(sc, enums, inst, ty) {
        Some(name) => has_payload(sc, name),
        None => ty is DynTrait || ty is Struct,
    }
}

/// A function returns a value of its declared type in that type's LLVM value
/// type, and takes a parameter in that value type, behind one pointer exactly
/// when the value is a struct, a trait object or an enum with payloads.
pub proof fn lemma_param_and_return_types<F: Fn(&String, &Vec<TypeAnnotation>) -> String>(
    sc: &TypeScope,
    enums: Set<Seq<char>>,
    inst: F,
    ty: TypeAnnotation,
)
    ensures
        spec_llvm_return_type_of(sc, enums, inst, ty) == spec_llvm_type_of(sc, enums, inst, ty),
        spec_llvm_param_type_of(sc, enums, inst, ty) == if passed_by_pointer(sc, enums, inst, ty) {
            spec_llvm_type_of(sc, enums, inst, ty) + "*"@
        } else {
            spec_llvm_type_of(sc, enums, inst, ty)
        },
{
    match spec_resolved_enum_name(sc, enums, inst, ty) {
        Some(name) => {
            assert(("%"@ + name) + "*"@ =~= "%"@ + name + "*"@);
        },
        None => {
            match ty {
                TypeAnnotation::DynTrait { trait_name, .. } => {
                    assert(("%Dyn_"@ + trait_name@) + "*"@ =~= "%Dyn_"@ + trait_name@ + "*"@);
                },
                TypeAnnotation::Struct(n) => {
                    assert(!enums.contains(n@));
                },
                _ => {},
            }
        },
    }
}

/// Width in bits of an integer LLVM type (after the storage mapping of
/// `char`), `None` for other types.
pub open spec fn spec_llvm_int_bits(ty: Seq<char>) -> Option<u16> {
    let stored = spec_llvm_storage_ty(ty);
    if stored == "i8"@ {
        Some(8)
    } else if stored == "i16"@ {
        Some(16)
    } else if stored == "i32"@ {
        Some(32)
    } else if stored == "i64"@ {
        Some(64)
    } else if stored == "i128"@ {
        Some(128)
    } else {
        None
    }
}

/// Width in bits of an integer LLVM type (see `spec_llvm_int_bits`).
pub fn llvm_int_bits(ty: &str) -> (r: Option<u16>)
    ensures
        r == spec_llvm_int_bits(ty@),
{
    let stored = llvm_storage_ty(ty);
    if str_eq(stored, "i8") {
        Some(8)
    } else if str_eq(stored, "i16") {
        Some(16)
    } else if str_eq(stored, "i32") {
        Some(32)
    } else if str_eq(stored, "i64") {
        Some(64)
    } else if str_eq(stored, "i128") {
        Some(128)
    } else {
        None
    }
}

/// The LLVM value types of a list of type annotations.
pub open spec fn value_types<F: Fn(&String, &Vec<TypeAnnotation>) -> String>(
    sc: &TypeScope,
    enums: Set<Seq<char>>,
    inst: F,
    tys: Seq<TypeAnnotation>,
) -> Seq<Seq<char>> {
    tys.map_values(|t: TypeAnnotation| spec_llvm_type_of(sc, enums, inst, t))
}

/// The call signature of a function-pointer type: its parameters' value types
/// and its return value type (`void` when it returns nothing); `None` for any
/// other type.
pub open spec fn spec_fn_ptr_sig<F: Fn(&String, &Vec<TypeAnnotation>) -> String>(
    sc: &TypeScope,
    enums: Set<Seq<char>>,
    inst: F,
    ann: TypeAnnotation,
) -> Option<(Seq<Seq<char>>, Seq<char>)> {
    match ann {
        TypeAnnotation::FnPtr { params, return_type, .. } => Some(
            (
                value_types(sc, enums, inst, params@),
                match return_type {
                    Some(t) => spec_llvm_type_of(sc, enums, inst, *t),
                    None => "void"@,
                },
            ),
        ),
        _ => None,
    }
}

/// The call signature of a function-pointer type (see `spec_fn_ptr_sig`).
pub fn fn_ptr_sig_from_ann<F: Fn(&String, &Vec<TypeAnnotation>) -> String>(
    sc: &TypeScope,
    enum_names: &NameSet,
    inst: &F,
    ann: &TypeAnnotation,
) -> (r: Option<(Vec<String>, String)>)
    requires
        sc.wf(),
        enum_names.wf(),
        names_instances(*inst),
    ensures
        match r {
            Some((ps, ret)) => spec_fn_ptr_sig(sc, enum_names@, *inst, *ann) == Some((texts(ps@), ret@)),
            None => spec_fn_ptr_sig(sc, enum_names@, *inst, *ann) is None,
        },
{
    match ann {
        TypeAnnotation::FnPtr { params, return_type, .. } => {
            let mut ps: Vec<String> = Vec::new();
            let mut i: usize = 0;
            while i < params.len()
                invariant
                    sc.wf(),
                    enum_names.wf(),
                    names_instances(*inst),
                    i <= params@.len(),
                    ps@.len() == i,
                    forall|j: int| 0 <= j < i ==> (#[trigger] ps@[j])@ == spec_llvm_type_of(sc, enum_names@, *inst, params@[j]),
                decreases params@.len() - i,
            {
                ps.push(llvm_type_of(sc, enum_names, inst, &params[i]));
                i = i + 1;
            }
            assert(texts(ps@) =~= value_types(sc, enum_names@, *inst, params@));
            let ret = match return_type {
                Some(t) => llvm_type_of(sc, enum_names, inst, t),
                None => String::from_str("void"),
            };
            Some((ps, ret))
        },
        _ => None,
    }
}

} // verus!
