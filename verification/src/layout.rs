//! Struct layout questions asked while lowering: byte sizes of structs and
//! array elements, the index of a named field, and whether a struct holds
//! heap data (directly or through structs it holds by value).
use vstd::prelude::*;
use crate::ast::TypeAnnotation;
use crate::llvm_util::{
    llvm_struct_size_bytes, resolve_struct_field_name, spec_resolve_struct_field_name, spec_struct_size,
    string_views, struct_layout_fits,
};
use crate::lowering::{first_index, TypeScope};
use crate::names::{NameMap, NameSet};
use crate::num::{parse_usize, parse_usize_spec};
use crate::text::{
    chars_of, count_leading, ends_with_char, first_char, slice_to_vec, starts_with_char, str_eq, string_of,
    trim_start_char,
};
use crate::types_map::{
    llvm_type_ann_resolved, llvm_type_of, names_instances, spec_llvm_type_ann, spec_llvm_type_of,
};

verus! {

/// The LLVM types of the fields of a struct, each type on its own.
pub open spec fn field_ann_types<F: Fn(&String, &Vec<TypeAnnotation>) -> String>(
    sc: &TypeScope,
    enums: Set<Seq<char>>,
    inst: F,
    fields: Seq<(String, TypeAnnotation)>,
) -> Seq<Seq<char>> {
    fields.map_values(|f: (String, TypeAnnotation)| spec_llvm_type_ann(sc.names, enums, inst, f.1))
}

/// The LLVM value types of the fields of a struct.
pub open spec fn field_value_types<F: Fn(&String, &Vec<TypeAnnotation>) -> String>(
    sc: &TypeScope,
    enums: Set<Seq<char>>,
    inst: F,
    fields: Seq<(String, TypeAnnotation)>,
) -> Seq<Seq<char>> {
    fields.map_values(|f: (String, TypeAnnotation)| spec_llvm_type_of(sc, enums, inst, f.1))
}

/// Size in bytes of struct `name` laid out from the types of its fields
/// (see `spec_struct_size`); 0 for an unknown struct.
pub open spec fn spec_struct_byte_size<F: Fn(&String, &Vec<TypeAnnotation>) -> String>(
    sc: &TypeScope,
    enums: Set<Seq<char>>,
    inst: F,
    name: Seq<char>,
) -> int {
    if sc.struct_fields@.contains_key(name) {
        spec_struct_size(field_ann_types(sc, enums, inst, sc.struct_fields@[name]@))
    } else {
        0
    }
}

fn ann_types_of<F: Fn(&String, &Vec<TypeAnnotation>) -> String>(
    sc: &TypeScope,
    enum_names: &NameSet,
    inst: &F,
    fields: &Vec<(String, TypeAnnotation)>,
) -> (r: Vec<String>)
    requires
        enum_names.wf(),
        names_instances(*inst),
    ensures
        string_views(r@) == field_ann_types(sc, enum_names@, *inst, fields@),
{
    let mut out: Vec<String> = Vec::new();
    let mut i: usize = 0;
    while i < fields.len()
        invariant
            enum_names.wf(),
            names_instances(*inst),
            i <= fields@.len(),
            out@.len() == i,
            forall|j: int| 0 <= j < i ==> (#[trigger] out@[j])@ == spec_llvm_type_ann(sc.names, enum_names@, *inst, fields@[j].1),
        decreases fields@.len() - i,
    {
        out.push(llvm_type_ann_resolved(&fields[i].1, enum_names, &sc.names, inst));
        i = i + 1;
    }
    assert(string_views(out@) =~= field_ann_types(sc, enum_names@, *inst, fields@));
    out
}

fn value_types_of<F: Fn(&String, &Vec<TypeAnnotation>) -> String>(
    sc: &TypeScope,
    enum_names: &NameSet,
    inst: &F,
    fields: &Vec<(String, TypeAnnotation)>,
) -> (r: Vec<String>)
    requires
        sc.wf(),
        enum_names.wf(),
        names_instances(*inst),
    ensures
        string_views(r@) == field_value_types(sc, enum_names@, *inst, fields@),
{
    let mut out: Vec<String> = Vec::new();
    let mut i: usize = 0;
    while i < fields.len()
        invariant
            sc.wf(),
            enum_names.wf(),
            names_instances(*inst),
            i <= fields@.len(),
            out@.len() == i,
            forall|j: int| 0 <= j < i ==> (#[trigger] out@[j])@ == spec_llvm_type_of(sc, enum_names@, *inst, fields@[j].1),
        decreases fields@.len() - i,
    {
        out.push(llvm_type_of(sc, enum_names, inst, &fields[i].1));
        i = i + 1;
    }
    assert(string_views(out@) =~= field_value_types(sc, enum_names@, *inst, fields@));
    out
}

/// Size in bytes of struct `name` (see `spec_struct_byte_size`).
pub fn struct_byte_size<F: Fn(&String, &Vec<TypeAnnotation>) -> String>(
    sc: &TypeScope,
    enum_names: &NameSet,
    inst: &F,
    name: &str,
) -> (r: i64)
    requires
        sc.wf(),
        enum_names.wf(),
        names_instances(*inst),
        sc.struct_fields@.contains_key(name@) ==> struct_layout_fits(
            field_ann_types(sc, enum_names@, *inst, sc.struct_fields@[name@]@),
        ),
    ensures
        r as int == spec_struct_byte_size(sc, enum_names@, *inst, name@),
{
    match sc.struct_fields.get(name) {
        Some(fields) => {
            let tys = ann_types_of(sc, enum_names, inst, fields);
            llvm_struct_size_bytes(tys.as_slice())
        },
        None => 0,
    }
}

/// Size in bytes of an array element of LLVM type `elem`: 4 for `i32` and
/// `i1`, the laid-out size of a known struct `%Name` (its fields' value
/// types), and 8 otherwise.
pub open spec fn spec_elem_byte_size<F: Fn(&String, &Vec<TypeAnnotation>) -> String>(
    sc: &TypeScope,
    enums: Set<Seq<char>>,
    inst: F,
    elem: Seq<char>,
) -> int {
    if elem == "i32"@ || elem == "i1"@ {
        4
    } else if elem == "double"@ {
        8
    } else if starts_with_char(elem, '%') && sc.struct_fields@.contains_key(trim_start_char(elem, '%')) {
        spec_struct_size(field_value_types(sc, enums, inst, sc.struct_fields@[trim_start_char(elem, '%')]@))
    } else {
        8
    }
}

fn trim_percent(s: &str) -> (r: String)
    ensures
        r@ == trim_start_char(s@, '%'),
{
    let v = chars_of(s);
    let k = count_leading(v.as_slice(), '%');
    let rest = slice_to_vec(v.as_slice(), k, v.len());
    assert(rest@ =~= v@.skip(k as int));
    string_of(rest.as_slice())
}

/// Size in bytes of an array element (see `spec_elem_byte_size`).
pub fn llvm_elem_byte_size<F: Fn(&String, &Vec<TypeAnnotation>) -> String>(
    sc: &TypeScope,
    enum_names: &NameSet,
    inst: &F,
    elem: &str,
) -> (r: i64)
    requires
        sc.wf(),
        enum_names.wf(),
        names_instances(*inst),
        starts_with_char(elem@, '%') && sc.struct_fields@.contains_key(trim_start_char(elem@, '%'))
            ==> struct_layout_fits(
            field_value_types(sc, enum_names@, *inst, sc.struct_fields@[trim_start_char(elem@, '%')]@),
        ),
    ensures
        r as int == spec_elem_byte_size(sc, enum_names@, *inst, elem@),
{
    if str_eq(elem, "i32") || str_eq(elem, "i1") {
        4
    } else if str_eq(elem, "double") {
        8
    } else if first_char(elem) == Some('%') {
        let name = trim_percent(elem);
        match sc.struct_fields.get(name.as_str()) {
            Some(fields) => {
                let tys = value_types_of(sc, enum_names, inst, fields);
                llvm_struct_size_bytes(tys.as_slice())
            },
            None => 8,
        }
    } else {
        8
    }
}

/// The names of a list of fields.
pub open spec fn field_names<T>(fields: Seq<(String, T)>) -> Seq<Seq<char>> {
    fields.map_values(|f: (String, T)| f.0@)
}

fn position_of<T>(fields: &Vec<(String, T)>, name: &str) -> (r: Option<usize>)
    ensures
        match r {
            Some(i) => first_index(field_names(fields@), name@) == Some(i as nat),
            None => first_index(field_names(fields@), name@) is None,
        },
{
    let mut i: usize = 0;
    assert(field_names(fields@).skip(0) =~= field_names(fields@));
    while i < fields.len()
        invariant
            i <= fields@.len(),
            first_index(field_names(fields@), name@) == match first_index(field_names(fields@).skip(i as int), name@) {
                Some(k) => Some((k + i) as nat),
                None => None,
            },
        decreases fields@.len() - i,
    {
        let ghost rest = field_names(fields@).skip(i as int);
        if str_eq(fields[i].0.as_str(), name) {
            return Some(i);
        }
        assert(rest.drop_first() =~= field_names(fields@).skip(i + 1));
        i = i + 1;
    }
    None
}

/// Index of field `field` of struct `struct_name` (after the `Date` field
/// aliases): for a tuple struct the field read as a number below its arity,
/// for a union or a struct the position of the first field of that name.
pub open spec fn spec_field_index(
    tuple_fields: Map<Seq<char>, Vec<TypeAnnotation>>,
    union_fields: Map<Seq<char>, Vec<(String, TypeAnnotation)>>,
    struct_fields: Map<Seq<char>, Vec<(String, TypeAnnotation)>>,
    struct_name: Seq<char>,
    field: Seq<char>,
) -> Option<nat> {
    let f = spec_resolve_struct_field_name(struct_name, field);
    if tuple_fields.contains_key(struct_name) {
        match parse_usize_spec(f) {
            Some(i) => if i < tuple_fields[struct_name]@.len() {
                Some(i as nat)
            } else {
                None
            },
            None => None,
        }
    } else if union_fields.contains_key(struct_name) {
        first_index(field_names(union_fields[struct_name]@), f)
    } else if struct_fields.contains_key(struct_name) {
        first_index(field_names(struct_fields[struct_name]@), f)
    } else {
        None
    }
}

/// Index of a field of a tuple struct, union or struct (see `spec_field_index`).
pub fn field_index(
    tuple_fields: &NameMap<Vec<TypeAnnotation>>,
    union_fields: &NameMap<Vec<(String, TypeAnnotation)>>,
    struct_fields: &NameMap<Vec<(String, TypeAnnotation)>>,
    struct_name: &str,
    field: &str,
) -> (r: Option<usize>)
    requires
        tuple_fields.wf(),
        union_fields.wf(),
        struct_fields.wf(),
    ensures
        match r {
            Some(i) => spec_field_index(tuple_fields@, union_fields@, struct_fields@, struct_name@, field@) == Some(i as nat),
            None => spec_field_index(tuple_fields@, union_fields@, struct_fields@, struct_name@, field@) is None,
        },
{
    let field = resolve_struct_field_name(struct_name, field);
    if let Some(fields) = tuple_fields.get(struct_name) {
        let chars = chars_of(field);
        return match parse_usize(chars.as_slice()) {
            Some(i) => if i < fields.len() {
                Some(i)
            } else {
                None
            },
            None => None,
        };
    }
    if let Some(fields) = union_fields.get(struct_name) {
        return position_of(fields, field);
    }
    match struct_fields.get(struct_name) {
        Some(fields) => position_of(fields, field),
        None => None,
    }
}

/// Whether struct `name` holds heap data, following structs held by value at
/// most `fuel` levels deep: a field whose value type is `ptr`, or a field held
/// by value (`%Name`, not a pointer) whose struct holds heap data; fields are
/// looked at in order and the first that holds heap data decides. `None` when
/// the by-value nesting goes deeper than `fuel`.
pub open spec fn heap_fields_within<F: Fn(&String, &Vec<TypeAnnotation>) -> String>(
    sc: &TypeScope,
    enums: Set<Seq<char>>,
    inst: F,
    name: Seq<char>,
    fuel: nat,
) -> Option<bool>
    decreases fuel, 1nat, 0nat,
{
    if sc.struct_fields@.contains_key(name) {
        fields_heap_within(sc, enums, inst, sc.struct_fields@[name]@, fuel)
    } else {
        Some(false)
    }
}

/// Whether one of `fs` holds heap data (see `heap_fields_within`).
pub open spec fn fields_heap_within<F: Fn(&String, &Vec<TypeAnnotation>) -> String>(
    sc: &TypeScope,
    enums: Set<Seq<char>>,
    inst: F,
    fs: Seq<(String, TypeAnnotation)>,
    fuel: nat,
) -> Option<bool>
    decreases fuel, 0nat, fs.len(),
{
    if fs.len() == 0 {
        Some(false)
    } else {
        let ty = spec_llvm_type_of(sc, enums, inst, fs[0].1);
        if ty == "ptr"@ {
            Some(true)
        } else if starts_with_char(ty, '%') && !ends_with_char(ty, '*') {
            if fuel == 0 {
                None
            } else {
                match heap_fields_within(sc, enums, inst, trim_start_char(ty, '%'), (fuel - 1) as nat) {
                    Some(true) => Some(true),
                    Some(false) => fields_heap_within(sc, enums, inst, fs.drop_first(), fuel),
                    None => None,
                }
            }
        } else {
            fields_heap_within(sc, enums, inst, fs.drop_first(), fuel)
        }
    }
}

fn heap_within<F: Fn(&String, &Vec<TypeAnnotation>) -> String>(
    sc: &TypeScope,
    enum_names: &NameSet,
    inst: &F,
    name: &str,
    fuel: usize,
) -> (r: bool)
    requires
        sc.wf(),
        enum_names.wf(),
        names_instances(*inst),
        heap_fields_within(sc, enum_names@, *inst, name@, fuel as nat) is Some,
    ensures
        heap_fields_within(sc, enum_names@, *inst, name@, fuel as nat) == Some(r),
    decreases fuel, 1nat,
{
    match sc.struct_fields.get(name) {
        Some(fields) => fields_within(sc, enum_names, inst, fields, fuel),
        None => false,
    }
}

fn fields_within<F: Fn(&String, &Vec<TypeAnnotation>) -> String>(
    sc: &TypeScope,
    enum_names: &NameSet,
    inst: &F,
    fields: &Vec<(String, TypeAnnotation)>,
    fuel: usize,
) -> (r: bool)
    requires
        sc.wf(),
        enum_names.wf(),
        names_instances(*inst),
        fields_heap_within(sc, enum_names@, *inst, fields@, fuel as nat) is Some,
    ensures
        fields_heap_within(sc, enum_names@, *inst, fields@, fuel as nat) == Some(r),
    decreases fuel, 0nat,
{
    let ghost whole = fields@;
    let mut i: usize = 0;
    assert(whole.skip(0) =~= whole);
    while i < fields.len()
        invariant
            sc.wf(),
            enum_names.wf(),
            names_instances(*inst),
            whole == fields@,
            i <= whole.len(),
            fields_heap_within(sc, enum_names@, *inst, whole, fuel as nat) == fields_heap_within(
                sc,
                enum_names@,
                *inst,
                whole.skip(i as int),
                fuel as nat,
            ),
            fields_heap_within(sc, enum_names@, *inst, whole, fuel as nat) is Some,
        decreases whole.len() - i,
    {
        let ghost rest = whole.skip(i as int);
        assert(rest[0] == whole[i as int]);
        assert(rest.drop_first() =~= whole.skip(i + 1));
        let ty = llvm_type_of(sc, enum_names, inst, &fields[i].1);
        if str_eq(ty.as_str(), "ptr") {
            return true;
        }
        let chars = chars_of(ty.as_str());
        let by_value = chars.len() > 0 && chars[0] == '%' && chars[chars.len() - 1] != '*';
        if by_value {
            let name = trim_percent(ty.as_str());
            if heap_within(sc, enum_names, inst, name.as_str(), fuel - 1) {
                return true;
            }
        }
        i = i + 1;
    }
    false
}

/// Whether struct `name` holds heap data (see `heap_fields_within`). The
/// nesting of structs held by value must end within as many levels as there
/// are structs; past that a struct would hold itself by value.
pub fn struct_has_heap_fields<F: Fn(&String, &Vec<TypeAnnotation>) -> String>(
    sc: &TypeScope,
    enum_names: &NameSet,
    inst: &F,
    name: &str,
) -> (r: bool)
    requires
        sc.wf(),
        enum_names.wf(),
        names_instances(*inst),
        heap_fields_within(sc, enum_names@, *inst, name@, sc.struct_fields.entries@.len()) is Some,
    ensures
        heap_fields_within(sc, enum_names@, *inst, name@, sc.struct_fields.entries@.len()) == Some(r),
{
    heap_within(sc, enum_names, inst, name, sc.struct_fields.len())
}

} // verus!
