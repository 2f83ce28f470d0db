use nyra::ast::{AssignStmt, Block, Expression, IfStmt, IntKind, Literal, Statement, TypeAnnotation, WhileStmt};
use nyra::codegen::current_block_has_terminator;
use nyra::layout::{field_index, llvm_elem_byte_size, struct_byte_size, struct_has_heap_fields};
use nyra::lowering::{
    infer_random_int_kind, loop_carried_ssa_in_body, resolve_pattern_enum_name, should_compare_ptr_as_string,
    Binding, ExprValue, KindNames, TypeScope,
};
use nyra::names::{NameMap, NameSet};
use nyra::span::Span;
use nyra::types_map::{fn_ptr_sig_from_ann, llvm_int_bits};

fn word(s: &str) -> String {
    s.to_string()
}

fn llvm_kind_names() -> KindNames {
    KindNames {
        i8: word("i8"),
        i16: word("i16"),
        i32: word("i32"),
        i64: word("i64"),
        i128: word("i128"),
        isize: word("i64"),
        u8: word("i8"),
        u16: word("i16"),
        u32: word("i32"),
        u64: word("i64"),
        u128: word("i128"),
        usize: word("i64"),
        float32: word("float"),
        float64: word("double"),
    }
}

fn set_of(v: &[&str]) -> NameSet {
    let mut s = NameSet::new();
    for n in v {
        s.insert(n);
    }
    s
}

fn no_instances(base: &String, _: &Vec<TypeAnnotation>) -> String {
    base.clone()
}

fn fields(v: Vec<(&str, TypeAnnotation)>) -> Vec<(String, TypeAnnotation)> {
    v.into_iter().map(|(n, t)| (n.to_string(), t)).collect()
}

fn i32_ty() -> TypeAnnotation {
    TypeAnnotation::Integer(IntKind::I32)
}

fn struct_ty(n: &str) -> TypeAnnotation {
    TypeAnnotation::Struct(n.to_string())
}

fn layout_scope() -> (TypeScope, NameSet) {
    let mut struct_fields = NameMap::new();
    struct_fields.insert("Point", fields(vec![("x", i32_ty()), ("y", i32_ty())]));
    struct_fields.insert(
        "Mixed",
        fields(vec![("flag", TypeAnnotation::Bool), ("name", TypeAnnotation::String), ("d", TypeAnnotation::F64)]),
    );
    struct_fields.insert("Holder", fields(vec![("a", i32_ty()), ("s", struct_ty("Shape")), ("b", i32_ty())]));
    struct_fields.insert("Named", fields(vec![("id", i32_ty()), ("name", TypeAnnotation::String)]));
    struct_fields.insert("Outer", fields(vec![("p", struct_ty("Point")), ("inner", struct_ty("Named"))]));
    struct_fields.insert(
        "Raw",
        fields(vec![("p", TypeAnnotation::RawPtr { inner: Box::new(i32_ty()) })]),
    );
    struct_fields.insert("Date", fields(vec![("year", i32_ty()), ("minute", i32_ty()), ("second", i32_ty())]));
    let mut payload = NameMap::new();
    payload.insert("Shape", true);
    let sc = TypeScope {
        env: NameMap::new(),
        call_returns: NameMap::new(),
        enum_has_payload: payload,
        names: llvm_kind_names(),
        struct_fields,
        fn_ptrs: NameSet::new(),
    };
    (sc, set_of(&["Shape"]))
}

#[test]
fn struct_sizes_follow_field_alignment() {
    let (sc, enums) = layout_scope();
    let size = |n: &str| struct_byte_size(&sc, &enums, &no_instances, n);
    assert_eq!(size("Point"), 8);
    assert_eq!(size("Mixed"), 24);
    assert_eq!(size("Holder"), 16);
    assert_eq!(size("Nothing"), 0);
}

#[test]
fn array_element_sizes() {
    let (sc, enums) = layout_scope();
    let size = |e: &str| llvm_elem_byte_size(&sc, &enums, &no_instances, e);
    assert_eq!(size("i32"), 4);
    assert_eq!(size("i1"), 4);
    assert_eq!(size("double"), 8);
    assert_eq!(size("i64"), 8);
    assert_eq!(size("%Point"), 8);
    assert_eq!(size("%Holder"), 24);
    assert_eq!(size("%Unknown"), 8);
}

#[test]
fn field_indices_of_tuples_unions_and_structs() {
    let (sc, _) = layout_scope();
    let mut tuples = NameMap::new();
    tuples.insert("Pair", vec![i32_ty(), TypeAnnotation::Bool]);
    let mut unions = NameMap::new();
    unions.insert("Bits", fields(vec![("a", i32_ty()), ("b", TypeAnnotation::F32)]));
    let idx = |s: &str, f: &str| field_index(&tuples, &unions, &sc.struct_fields, s, f);
    assert_eq!(idx("Pair", "1"), Some(1));
    assert_eq!(idx("Pair", "+0"), Some(0));
    assert_eq!(idx("Pair", "2"), None);
    assert_eq!(idx("Pair", "x"), None);
    assert_eq!(idx("Bits", "b"), Some(1));
    assert_eq!(idx("Point", "y"), Some(1));
    assert_eq!(idx("Point", "z"), None);
    assert_eq!(idx("Date", "seconds"), Some(2));
    assert_eq!(idx("Nowhere", "x"), None);
}

#[test]
fn heap_fields_are_found_through_nested_structs() {
    let (sc, enums) = layout_scope();
    let heap = |n: &str| struct_has_heap_fields(&sc, &enums, &no_instances, n);
    assert!(!heap("Point"));
    assert!(heap("Named"));
    assert!(heap("Outer"));
    assert!(heap("Raw"));
    assert!(!heap("Holder"));
    assert!(!heap("Nothing"));
}

#[test]
fn function_pointer_signatures_and_int_widths() {
    let (sc, enums) = layout_scope();
    let fp = TypeAnnotation::FnPtr {
        lifetime_params: vec![],
        params: vec![i32_ty(), struct_ty("Point"), struct_ty("Shape")],
        return_type: Some(Box::new(TypeAnnotation::Bool)),
    };
    assert_eq!(
        fn_ptr_sig_from_ann(&sc, &enums, &no_instances, &fp),
        Some((vec![word("i32"), word("%Point"), word("%Shape")], word("i1")))
    );
    let no_ret = TypeAnnotation::FnPtr { lifetime_params: vec![], params: vec![], return_type: None };
    assert_eq!(fn_ptr_sig_from_ann(&sc, &enums, &no_instances, &no_ret), Some((vec![], word("void"))));
    assert_eq!(fn_ptr_sig_from_ann(&sc, &enums, &no_instances, &i32_ty()), None);
    assert_eq!(llvm_int_bits("i8"), Some(8));
    assert_eq!(llvm_int_bits("char"), Some(32));
    assert_eq!(llvm_int_bits("i128"), Some(128));
    assert_eq!(llvm_int_bits("double"), None);
}

fn var_expr(n: &str) -> Expression {
    Expression::Variable { name: n.to_string(), span: Span::default() }
}

#[test]
fn pattern_enums_and_string_comparisons() {
    let val = |t: &str| ExprValue { reg: word("%r"), ty: word(t) };
    assert_eq!(resolve_pattern_enum_name(&val("%Shape*"), ""), "Shape");
    assert_eq!(resolve_pattern_enum_name(&val("%Shape*"), "Color"), "Color");
    assert_eq!(resolve_pattern_enum_name(&val("i32"), ""), "");
    let (mut sc, _) = layout_scope();
    sc.fn_ptrs = set_of(&["f"]);
    let cmp = |l: &str, r: &str, lt: &str, rt: &str| {
        should_compare_ptr_as_string(&sc, &var_expr(l), &var_expr(r), &val(lt), &val(rt))
    };
    assert!(cmp("s", "t", "ptr", "ptr"));
    assert!(!cmp("f", "t", "ptr", "ptr"));
    assert!(!cmp("s", "f", "ptr", "ptr"));
    assert!(!cmp("s", "t", "i32", "ptr"));
}

#[test]
fn random_bounds_take_their_integer_kind() {
    let mut kinds = NameMap::new();
    kinds.insert("small", IntKind::U8);
    let mut env = NameMap::new();
    env.insert("big", Binding::Reg { reg: word("b"), ty: word("i64") });
    let kind = |e: &Expression| infer_random_int_kind(&kinds, &env, e);
    assert_eq!(kind(&Expression::Literal(Literal::IntKind(5, IntKind::U16))), IntKind::U16);
    assert_eq!(kind(&Expression::Literal(Literal::Int(5))), IntKind::I32);
    assert_eq!(kind(&var_expr("small")), IntKind::U8);
    assert_eq!(kind(&var_expr("big")), IntKind::I64);
    assert_eq!(kind(&Expression::Grouped(Box::new(var_expr("big")))), IntKind::I64);
    assert_eq!(kind(&var_expr("unknown")), IntKind::I32);
    assert_eq!(kind(&Expression::Literal(Literal::Bool(true))), IntKind::I32);
}

fn assign_to(n: &str) -> Statement {
    Statement::Assign(AssignStmt { target: var_expr(n), span: Span::default(), value: Expression::Literal(Literal::Int(0)) })
}

#[test]
fn loop_carried_values_are_sorted() {
    let body = Block {
        statements: vec![
            assign_to("z"),
            Statement::If(IfStmt {
                condition: var_expr("c"),
                then_block: Block { statements: vec![assign_to("b")] },
                else_block: None,
            }),
            Statement::While(WhileStmt { condition: var_expr("c"), body: Block { statements: vec![assign_to("a")] } }),
            assign_to("q"),
            assign_to("n"),
        ],
    };
    let mut env = NameMap::new();
    for n in ["a", "b", "z", "n"] {
        env.insert(n, Binding::Reg { reg: word(n), ty: word("i32") });
    }
    let mut_ssa = set_of(&["z", "b", "a", "q"]);
    assert_eq!(loop_carried_ssa_in_body(&mut_ssa, &env, &body), vec![word("a"), word("b"), word("z")]);
    assert!(loop_carried_ssa_in_body(&NameSet::new(), &env, &body).is_empty());
}

#[test]
fn block_termination_reads_the_last_label() {
    let lines: Vec<String> = ["entry:", "  %x = add i32 1, 2", "  br label %next", "next:", "  %y = add i32 1, 2"]
        .iter()
        .map(|s| word(s))
        .collect();
    assert!(current_block_has_terminator("", &lines));
    assert!(current_block_has_terminator("__terminated_3", &lines));
    assert!(!current_block_has_terminator("entry", &lines));
    assert!(!current_block_has_terminator("next", &lines));
    assert!(!current_block_has_terminator("loop", &lines));
    let ret: Vec<String> = ["done:", "", "  ret i32 0"].iter().map(|s| word(s)).collect();
    assert!(current_block_has_terminator("done", &ret));
    let relabel: Vec<String> = ["a:", "  br label %b", "a:", "b:"].iter().map(|s| word(s)).collect();
    assert!(!current_block_has_terminator("a", &relabel));
    let unreachable: Vec<String> = ["x:", "  unreachable"].iter().map(|s| word(s)).collect();
    assert!(current_block_has_terminator("x", &unreachable));
    let switch: Vec<String> = ["s:", "  switch i32 %t, label %d []"].iter().map(|s| word(s)).collect();
    assert!(current_block_has_terminator("s", &switch));
}
