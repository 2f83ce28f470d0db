use nyra::ast::{
    Block, CallExpr, CastExpr, Expression, IntKind, LetStmt, Literal, Program, Statement,
    TypeAnnotation, UnaryExpr, UnaryOp, BinaryExpr, BinaryOp, AssignStmt, IfStmt, WhileStmt,
    Function,
};
use nyra::codegen::{drop_declares_for_defined_functions, hoist_llvm_type_defs, lines_of, DropState};
use nyra::combos::{collect_dyn_trait_combos, collect_from_type, insert_combo, ComboSet};
use nyra::llvm_util::{collect_assigned_in_block, collect_loop_carried_in_block, llvm_ty_to_ann};
use nyra::span::Span;

fn strings(v: &[&str]) -> Vec<String> {
    v.iter().map(|s| s.to_string()).collect()
}

fn var(n: &str) -> Expression {
    Expression::Variable { name: n.to_string(), span: Span::default() }
}

fn dyn_ty(t: &str, bounds: &[&str]) -> TypeAnnotation {
    TypeAnnotation::DynTrait { trait_name: t.to_string(), bounds: strings(bounds) }
}

fn empty_program() -> Program {
    Program {
        module: None,
        no_std: false,
        comptime: false,
        allow_extended: false,
        imports: vec![],
        consts: vec![],
        structs: vec![],
        enums: vec![],
        traits: vec![],
        trait_impls: vec![],
        macros: vec![],
        impls: vec![],
        externs: vec![],
        functions: vec![],
        export_instances: vec![],
    }
}

fn function(name: &str, body: Vec<Statement>) -> Function {
    Function {
        name: name.to_string(),
        is_test: false,
        ignore_test: false,
        should_fail_test: false,
        is_async: false,
        exported: false,
        public: true,
        span: Span::default(),
        type_params: vec![],
        type_param_bounds: vec![],
        lifetime_params: vec![],
        params: vec![],
        return_type: None,
        body: Block { statements: body },
        inline: false,
        hot: false,
        cold: false,
        comptime: false,
        doc: None,
    }
}

#[test]
fn drop_state_counters_and_keys() {
    let mut d = DropState::new("main");
    assert_eq!(d.next_spawn_key(), "main__spawn_0");
    assert_eq!(d.next_spawn_key(), "main__spawn_1");
    assert_eq!(d.next_par_idx(), 0);
    assert_eq!(d.next_par_idx(), 1);
    assert_eq!(d.next_closure_idx(), 0);
    d.mark_moved("x");
    assert!(d.moved.contains("x"));
    assert!(!d.moved.contains("y"));
}

#[test]
fn lines_follow_str_lines() {
    let v: Vec<char> = "a\r\nb\n\nc\n".chars().collect();
    let ls: Vec<String> = lines_of(&v).into_iter().map(|l| l.into_iter().collect()).collect();
    let expect: Vec<String> = "a\r\nb\n\nc\n".lines().map(|s| s.to_string()).collect();
    assert_eq!(ls, expect);
    let v2: Vec<char> = "x\ry".chars().collect();
    assert_eq!(lines_of(&v2).len(), 1);
}

#[test]
fn hoists_type_definitions() {
    let ir = "%Point = type { i32, i32 }\ndefine i32 @main() {\n  ret i32 0\n}\n  %Pair = type { i8 }";
    let (types, rest) = hoist_llvm_type_defs(ir);
    assert_eq!(types, "%Point = type { i32, i32 }\n  %Pair = type { i8 }");
    assert_eq!(rest, "define i32 @main() {\n  ret i32 0\n}");
}

#[test]
fn drops_declares_of_defined_functions() {
    let ir = "declare i32 @foo(i32)\ndeclare i32 @bar(i32)\ndefine i32 @foo(i32 %x) {\n}";
    assert_eq!(
        drop_declares_for_defined_functions(ir),
        "declare i32 @bar(i32)\ndefine i32 @foo(i32 %x) {\n}"
    );
    assert_eq!(drop_declares_for_defined_functions("declare void @f()"), "declare void @f()");
}

#[test]
fn combos_skip_markers_and_singletons() {
    let mut set = ComboSet::new();
    insert_combo(&mut set, strings(&["Show", "Drop"]));
    assert!(set.items.is_empty());
    insert_combo(&mut set, strings(&["Show", "Clone", "Eq"]));
    insert_combo(&mut set, strings(&["Show", "Eq"]));
    insert_combo(&mut set, strings(&["A", "B"]));
    assert_eq!(set.items, vec![strings(&["A", "B"]), strings(&["Show", "Eq"])]);
    let ty = TypeAnnotation::Array {
        elem: Box::new(dyn_ty("Draw", &["Send"])),
        len: None,
    };
    collect_from_type(&ty, &mut set);
    assert_eq!(set.items[1], strings(&["Draw", "Send"]));
}

#[test]
fn program_combos_come_from_casts_and_lets() {
    let mut p = empty_program();
    let cast = Expression::Cast(Box::new(CastExpr {
        expr: var("x"),
        target_type: dyn_ty("Show", &["Debug"]),
        span: Span::default(),
    }));
    let let_stmt = Statement::Let(LetStmt {
        mutable: false,
        name: "y".to_string(),
        destructure: vec![],
        span: Span::default(),
        ty: Some(dyn_ty("Read", &["Write"])),
        value: cast,
    });
    p.functions.push(function("main", vec![let_stmt]));
    let combos = collect_dyn_trait_combos(&p);
    assert_eq!(combos.items, vec![strings(&["Read", "Write"]), strings(&["Show", "Debug"])]);
}

#[test]
fn llvm_types_back_to_annotations() {
    assert_eq!(llvm_ty_to_ann("i64"), TypeAnnotation::Integer(IntKind::I64));
    assert_eq!(llvm_ty_to_ann("double"), TypeAnnotation::F64);
    assert_eq!(llvm_ty_to_ann("i1"), TypeAnnotation::Bool);
    assert_eq!(llvm_ty_to_ann("ptr"), TypeAnnotation::String);
    assert_eq!(llvm_ty_to_ann("%%Point"), TypeAnnotation::Struct("Point".to_string()));
    assert_eq!(llvm_ty_to_ann("weird"), TypeAnnotation::Integer(IntKind::I32));
}

fn assign(n: &str) -> Statement {
    Statement::Assign(AssignStmt {
        target: var(n),
        span: Span::default(),
        value: Expression::Literal(Literal::Int(1)),
    })
}

#[test]
fn assigned_names_with_and_without_loops() {
    let body = Block {
        statements: vec![
            assign("a"),
            Statement::If(IfStmt {
                condition: var("c"),
                then_block: Block { statements: vec![assign("b")] },
                else_block: Some(Block { statements: vec![assign("c")] }),
            }),
            Statement::While(WhileStmt {
                condition: var("c"),
                body: Block { statements: vec![assign("d")] },
            }),
        ],
    };
    let carried = collect_loop_carried_in_block(&body);
    assert!(carried.contains("a") && carried.contains("b") && carried.contains("c"));
    assert!(!carried.contains("d"));
    let all = collect_assigned_in_block(&body);
    assert!(all.contains("d"));
    assert_eq!(all.len(), 4);
}

#[allow(dead_code)]
fn unused_exprs() -> Vec<Expression> {
    vec![
        Expression::Unary(Box::new(UnaryExpr { op: UnaryOp::Ref, operand: var("x"), span: Span::default() })),
        Expression::Binary(Box::new(BinaryExpr {
            left: var("a"),
            op: BinaryOp::Add,
            right: var("b"),
            span: Span::default(),
        })),
        Expression::Call(CallExpr { callee: "f".to_string(), type_args: vec![], args: vec![], span: Span::default() }),
    ]
}

use nyra::llvm_util::{literal_form, LiteralForm};

#[test]
fn literal_forms_by_storage_type() {
    assert_eq!(literal_form("double", "1.5"), LiteralForm::Double);
    assert_eq!(literal_form("f64", "2.0e3"), LiteralForm::Verbatim);
    assert_eq!(literal_form("float", "0.25"), LiteralForm::Single);
    assert_eq!(literal_form("f32", "1E2"), LiteralForm::Verbatim);
    assert_eq!(literal_form("i32", "7"), LiteralForm::Verbatim);
}

use nyra::ast::{TraitDef, TraitImpl, TraitMethodSig};
use nyra::combos::{combo_methods, type_implements_all_traits};

fn sig(name: &str) -> TraitMethodSig {
    TraitMethodSig { name: name.to_string(), params: vec![], return_type: None }
}

#[test]
fn combo_vtables_and_impl_checks() {
    let mut p = empty_program();
    p.traits.push(TraitDef { name: "Show".to_string(), methods: vec![sig("show"), sig("name")] });
    p.traits.push(TraitDef { name: "Debug".to_string(), methods: vec![sig("name"), sig("dbg")] });
    p.trait_impls.push(TraitImpl { self_type: "P".to_string(), trait_name: "Show".to_string(), methods: vec![] });
    p.trait_impls.push(TraitImpl { self_type: "P".to_string(), trait_name: "Debug".to_string(), methods: vec![] });
    p.trait_impls.push(TraitImpl { self_type: "Q".to_string(), trait_name: "Show".to_string(), methods: vec![] });
    let both = strings(&["Show", "Debug"]);
    assert!(type_implements_all_traits(&p, "P", &both));
    assert!(!type_implements_all_traits(&p, "Q", &both));
    assert!(type_implements_all_traits(&p, "Q", &[]));
    let ms = combo_methods(&p, &both);
    let names: Vec<(&str, &str)> = ms.iter().map(|m| (m.trait_name.as_str(), m.method.name.as_str())).collect();
    // a method name already provided by an earlier trait is not repeated
    assert_eq!(names, vec![("Show", "show"), ("Show", "name"), ("Debug", "dbg")]);
    assert!(combo_methods(&p, &strings(&["Missing"])).is_empty());
}

use nyra::codegen::emit_runtime_decls;
use nyra::names::NameSet;

fn name_set(v: &[&str]) -> NameSet {
    let mut s = NameSet::new();
    for n in v {
        s.insert(n);
    }
    s
}

#[test]
fn runtime_declarations_follow_use_in_table_order() {
    let used = name_set(&["rand_f64", "str_len", "heap_free", "str_cat"]);
    let skip = name_set(&["heap_free"]);
    let declared = name_set(&["str_cat"]);
    let mut out = vec!["; header".to_string()];
    emit_runtime_decls(&used, &skip, &declared, &mut out);
    assert_eq!(out, strings(&["; header", "declare i32 @str_len(ptr)", "declare double @rand_f64()"]));
}

use nyra::ast::StructLiteralExpr;
use nyra::lowering::{
    binding_ty, fn_attr_ref, i32_operand, int_kind_from_llvm_ty_default_signed, is_channel_origin_expr,
    is_scalar_ssa_ty, llvm_i32_operand, random_int_runtime, reg_operand_from_binding, struct_all_copy_scalars,
    type_ann_is_copy_scalar, Binding,
};
use nyra::names::NameMap;

#[test]
fn operand_texts() {
    assert_eq!(llvm_i32_operand("5"), "i32 5");
    assert_eq!(llvm_i32_operand("-1"), "i32 -1");
    assert_eq!(llvm_i32_operand("%x"), "i32 %x");
    assert_eq!(llvm_i32_operand("add.3"), "i32 %add.3");
    assert_eq!(i32_operand("add.3"), "%add.3");
    assert_eq!(i32_operand("7"), "7");
}

#[test]
fn scalar_and_int_kinds() {
    assert!(is_scalar_ssa_ty("char"));
    assert!(is_scalar_ssa_ty("i1"));
    assert!(!is_scalar_ssa_ty("string"));
    assert_eq!(int_kind_from_llvm_ty_default_signed("i16"), IntKind::I16);
    assert_eq!(int_kind_from_llvm_ty_default_signed("i32"), IntKind::I32);
    assert_eq!(int_kind_from_llvm_ty_default_signed("ptr"), IntKind::I32);
    assert_eq!(random_int_runtime(IntKind::U8).1, "rand_u32");
    assert_eq!(random_int_runtime(IntKind::Usize).0, "i64");
    assert_eq!(random_int_runtime(IntKind::I128).3, "rand_range_i64");
    let r = random_int_runtime(IntKind::I32);
    assert_eq!((r.1, r.3, r.4), ("rand_i32", "rand_range", "declare i32 @rand_range(i32, i32)"));
}

#[test]
fn channel_origins() {
    let call = |n: &str| {
        Expression::Call(CallExpr { callee: n.to_string(), type_args: vec![], args: vec![], span: Span::default() })
    };
    assert!(is_channel_origin_expr(&call("channel_new")));
    assert!(is_channel_origin_expr(&call("Channel_i32_new")));
    assert!(!is_channel_origin_expr(&call("other")));
    let lit = Expression::StructLiteral(StructLiteralExpr {
        name: "Pipe".to_string(),
        spreads: vec![],
        fields: vec![("n".to_string(), var("x")), ("ch".to_string(), call("channel_new"))],
        span: Span::default(),
    });
    assert!(is_channel_origin_expr(&lit));
}

#[test]
fn copy_scalar_types() {
    let enums = name_set(&["Color", "Shape"]);
    let mut payload = NameMap::new();
    payload.insert("Shape", true);
    assert!(type_ann_is_copy_scalar(&TypeAnnotation::Integer(IntKind::U8), &enums, &payload));
    assert!(type_ann_is_copy_scalar(&TypeAnnotation::Enum("Color".to_string()), &enums, &payload));
    assert!(!type_ann_is_copy_scalar(&TypeAnnotation::Enum("Shape".to_string()), &enums, &payload));
    assert!(!type_ann_is_copy_scalar(&TypeAnnotation::String, &enums, &payload));
    let mut fields = NameMap::new();
    fields.insert("P", vec![("x".to_string(), TypeAnnotation::Integer(IntKind::I32)), ("c".to_string(), TypeAnnotation::Bool)]);
    fields.insert("Q", vec![("s".to_string(), TypeAnnotation::String)]);
    assert!(struct_all_copy_scalars(&fields, &enums, &payload, "P"));
    assert!(!struct_all_copy_scalars(&fields, &enums, &payload, "Q"));
    assert!(!struct_all_copy_scalars(&fields, &enums, &payload, "R"));
}

#[test]
fn function_attribute_groups() {
    let mut sets: Vec<String> = Vec::new();
    let mut f = function("f", vec![]);
    assert_eq!(fn_attr_ref(&mut sets, &f), "");
    assert!(sets.is_empty());
    f.inline = true;
    f.cold = true;
    assert_eq!(fn_attr_ref(&mut sets, &f), " #0");
    let mut g = function("g", vec![]);
    g.hot = true;
    assert_eq!(fn_attr_ref(&mut sets, &g), " #1");
    assert_eq!(sets, strings(&["attributes #0 = { alwaysinline, cold }", "attributes #1 = { inlinehint }"]));
}

#[test]
fn binding_operands() {
    let reg = |r: &str, t: &str| Binding::Reg { reg: r.to_string(), ty: t.to_string() };
    assert_eq!(reg_operand_from_binding(&reg("str.0", "ptr")), "%str.0");
    assert_eq!(reg_operand_from_binding(&reg("null", "ptr")), "null");
    assert_eq!(reg_operand_from_binding(&reg("add.3", "i32")), "%add.3");
    assert_eq!(reg_operand_from_binding(&reg("%x", "i32")), "%x");
    assert_eq!(reg_operand_from_binding(&reg("42", "i32")), "42");
    assert_eq!(reg_operand_from_binding(&Binding::Param { index: 2, ty: "ptr".to_string() }), "%2");
    assert_eq!(reg_operand_from_binding(&Binding::Param { index: 1, ty: "i32".to_string() }), "0");
    let slot = Binding::Stack { slot: "s".to_string(), ty: "i64".to_string() };
    assert_eq!(reg_operand_from_binding(&slot), "0");
    assert_eq!(binding_ty(&slot), "i64");
    assert_eq!(binding_ty(&Binding::LocalChannel { slot: "c".to_string() }), "ptr");
}

use nyra::ast::{EnumVariantExpr, FloatKind, IfExpr, ReturnStmt};
use nyra::lowering::{infer_block_expr_llvm_ty, infer_expr_llvm_ty, KindNames, TypeScope};

fn kind_names() -> KindNames {
    let s = |x: &str| x.to_string();
    KindNames {
        i8: s("i8"),
        i16: s("i16"),
        i32: s("i32"),
        i64: s("i64"),
        i128: s("i128"),
        isize: s("i64"),
        u8: s("i8"),
        u16: s("i16"),
        u32: s("i32"),
        u64: s("i64"),
        u128: s("i128"),
        usize: s("i64"),
        float32: s("float"),
        float64: s("double"),
    }
}

#[test]
fn expression_llvm_types() {
    let mut env = NameMap::new();
    env.insert("x", Binding::Reg { reg: "x.1".to_string(), ty: "i64".to_string() });
    let mut call_returns = NameMap::new();
    call_returns.insert("make", "%Point".to_string());
    let mut payload = NameMap::new();
    payload.insert("Shape", true);
    let sc = TypeScope {
        env,
        call_returns,
        enum_has_payload: payload,
        names: kind_names(),
        struct_fields: NameMap::new(),
        fn_ptrs: NameSet::new(),
    };
    let ty = |e: &Expression| infer_expr_llvm_ty(&sc, e);
    assert_eq!(ty(&Expression::Literal(Literal::Int(1))), "i32");
    assert_eq!(ty(&Expression::Literal(Literal::IntKind(1, IntKind::U8))), "i8");
    assert_eq!(ty(&Expression::Literal(Literal::Float(0, FloatKind::F64))), "double");
    let call = |n: &str| Expression::Call(CallExpr { callee: n.to_string(), type_args: vec![], args: vec![], span: Span::default() });
    assert_eq!(ty(&call("make")), "%Point");
    assert_eq!(ty(&call("other")), "i32");
    let variant = |e: &str| {
        Expression::EnumVariant(EnumVariantExpr {
            enum_name: Some(e.to_string()),
            variant: "A".to_string(),
            args: vec![],
            span: Span::default(),
        })
    };
    assert_eq!(ty(&variant("Shape")), "%Shape*");
    assert_eq!(ty(&variant("Color")), "i32");
    assert_eq!(ty(&var("x")), "i64");
    assert_eq!(ty(&var("y")), "i32");
    let refer = |e: Expression| Expression::Unary(Box::new(UnaryExpr { op: UnaryOp::Ref, operand: e, span: Span::default() }));
    assert_eq!(ty(&refer(var("x"))), "i64*");
    assert_eq!(ty(&refer(Expression::Literal(Literal::String("s".to_string())))), "ptr");
    let block = |stmts: Vec<Statement>| Block { statements: stmts };
    let if_expr = Expression::If(Box::new(IfExpr {
        condition: var("c"),
        then_block: block(vec![Statement::Expression(Expression::Literal(Literal::Bool(true)))]),
        else_block: block(vec![]),
        span: Span::default(),
    }));
    assert_eq!(ty(&if_expr), "i1");
    let ends_in_return = block(vec![Statement::Expression(var("x")), Statement::Return(ReturnStmt { value: None })]);
    assert_eq!(infer_block_expr_llvm_ty(&sc, &ends_in_return), "void");
    let value_then_assign = block(vec![Statement::Expression(var("x")), assign("z")]);
    assert_eq!(infer_block_expr_llvm_ty(&sc, &value_then_assign), "i64");
    assert_eq!(infer_block_expr_llvm_ty(&sc, &block(vec![assign("z")])), "i32");
}

use nyra::ast::{FieldAccessExpr, MethodCallExpr};
use nyra::lowering::{
    expr_is_fn_pointer_operand, expr_is_string_operand, expr_receiver_struct_name, method_callee_name,
    variant_tag, MethodScope,
};

fn scope() -> TypeScope {
    let reg = |t: &str| Binding::Reg { reg: "r".to_string(), ty: t.to_string() };
    let mut env = NameMap::new();
    env.insert("p", reg("%Point*"));
    env.insert("s", reg("ptr"));
    env.insert("f", reg("ptr"));
    env.insert("d", reg("%Dyn_Shape*"));
    env.insert("n", reg("i32"));
    let mut call_returns = NameMap::new();
    call_returns.insert("make_point", "%Point".to_string());
    call_returns.insert("greet", "string".to_string());
    let mut struct_fields = NameMap::new();
    struct_fields.insert(
        "Point",
        vec![
            ("x".to_string(), TypeAnnotation::Integer(IntKind::I32)),
            ("origin".to_string(), TypeAnnotation::Struct("Origin".to_string())),
        ],
    );
    TypeScope {
        env,
        call_returns,
        enum_has_payload: NameMap::new(),
        names: kind_names(),
        struct_fields,
        fn_ptrs: name_set(&["f"]),
    }
}

fn call_of(n: &str) -> Expression {
    Expression::Call(CallExpr { callee: n.to_string(), type_args: vec![], args: vec![], span: Span::default() })
}

fn field_of(e: Expression, f: &str) -> Expression {
    Expression::FieldAccess(Box::new(FieldAccessExpr { object: e, field: f.to_string(), optional: false, span: Span::default() }))
}

#[test]
fn receivers_and_string_operands() {
    let sc = scope();
    assert_eq!(expr_receiver_struct_name(&sc, &var("p")).as_deref(), Some("Point"));
    assert_eq!(expr_receiver_struct_name(&sc, &call_of("make_point")).as_deref(), Some("Point"));
    assert_eq!(expr_receiver_struct_name(&sc, &call_of("greet")), None);
    assert_eq!(expr_receiver_struct_name(&sc, &field_of(var("p"), "origin")).as_deref(), Some("Origin"));
    assert_eq!(expr_receiver_struct_name(&sc, &field_of(var("p"), "x")), None);
    assert_eq!(expr_receiver_struct_name(&sc, &var("n")), None);
    assert!(expr_is_string_operand(&sc, &var("s")));
    assert!(!expr_is_string_operand(&sc, &var("f")));
    assert!(expr_is_fn_pointer_operand(&sc, &var("f")));
    assert!(expr_is_string_operand(&sc, &call_of("greet")));
    assert!(expr_is_string_operand(&sc, &call_of("str_cat")));
    let plus = Expression::Binary(Box::new(BinaryExpr { left: var("n"), op: BinaryOp::Add, right: var("s"), span: Span::default() }));
    assert!(expr_is_string_operand(&sc, &plus));
    let minus = Expression::Binary(Box::new(BinaryExpr { left: var("s"), op: BinaryOp::Sub, right: var("s"), span: Span::default() }));
    assert!(!expr_is_string_operand(&sc, &minus));
}

#[test]
fn method_call_targets() {
    let sc = scope();
    let mut custom = NameMap::new();
    custom.insert("Point", "Point_release".to_string());
    let mut by_method = NameMap::new();
    by_method.insert("add", "Add_Point_add".to_string());
    let mut tmc = NameMap::new();
    tmc.insert("Point", by_method);
    let ms = MethodScope { custom_drop_fns: custom, trait_method_callees: tmc, functions: name_set(&["String_toUpperCase"]) };
    assert_eq!(method_callee_name(&sc, &ms, &var("d"), "area"), "__dyn_Shape_area");
    assert_eq!(method_callee_name(&sc, &ms, &var("p"), "drop"), "Point_release");
    assert_eq!(method_callee_name(&sc, &ms, &var("p"), "add"), "Add_Point_add");
    assert_eq!(method_callee_name(&sc, &ms, &var("p"), "norm"), "Point_norm");
    assert_eq!(method_callee_name(&sc, &ms, &var("s"), "toUpperCase"), "String_toUpperCase");
    assert_eq!(method_callee_name(&sc, &ms, &var("s"), "trim"), "trim");
    let mc = Expression::MethodCall(Box::new(MethodCallExpr {
        object: var("p"),
        method: "copy".to_string(),
        span: Span::default(),
        args: vec![],
        optional: false,
    }));
    assert_eq!(expr_receiver_struct_name(&sc, &mc).as_deref(), Some("Point"));
}

#[test]
fn variant_tags() {
    let mut variants = NameMap::new();
    variants.insert("Color", strings(&["Red", "Green", "Blue"]));
    assert_eq!(variant_tag(&variants, "Color", "Blue"), 2);
    assert_eq!(variant_tag(&variants, "Color", "Pink"), 0);
    assert_eq!(variant_tag(&variants, "Shape", "Red"), 0);
}

use nyra::lowering::match_scrutinee_enum;

#[test]
fn scrutinee_enums() {
    let mut locals = NameMap::new();
    locals.insert("c", "Color".to_string());
    let enums = name_set(&["Color", "Shape"]);
    let mut env = NameMap::new();
    env.insert("s", Binding::Reg { reg: "s".to_string(), ty: "%Shape*".to_string() });
    env.insert("q", Binding::Reg { reg: "q".to_string(), ty: "%Point*".to_string() });
    env.insert("k", Binding::LocalChannel { slot: "k".to_string() });
    assert_eq!(match_scrutinee_enum(&locals, &enums, &env, &var("c"), "i32").as_deref(), Some("Color"));
    assert_eq!(match_scrutinee_enum(&locals, &enums, &env, &var("s"), "i32").as_deref(), Some("Shape"));
    assert_eq!(match_scrutinee_enum(&locals, &enums, &env, &var("q"), "%Color").as_deref(), Some("Color"));
    assert_eq!(match_scrutinee_enum(&locals, &enums, &env, &var("k"), "%Color"), None);
    assert_eq!(match_scrutinee_enum(&locals, &enums, &env, &var("q"), "i32"), None);
    assert_eq!(match_scrutinee_enum(&locals, &enums, &env, &call_of("f"), "%Shape*").as_deref(), Some("Shape"));
}

use nyra::types_map::{
    enum_llvm_value_type, llvm_param_type_of, llvm_return_type_of, llvm_type_ann_resolved, llvm_type_of,
    resolved_enum_name,
};

fn instance_of(base: &String, args: &Vec<TypeAnnotation>) -> String {
    format!("{}__inst{}", base, args.len())
}

fn applied(base: &str, args: Vec<TypeAnnotation>) -> TypeAnnotation {
    TypeAnnotation::Applied { base: base.to_string(), args }
}

fn enum_scope() -> (TypeScope, NameSet) {
    let mut payload = NameMap::new();
    payload.insert("Shape", true);
    payload.insert("Color", false);
    payload.insert("Result__Point_i32", true);
    let sc = TypeScope {
        env: NameMap::new(),
        call_returns: NameMap::new(),
        enum_has_payload: payload,
        names: kind_names(),
        struct_fields: NameMap::new(),
        fn_ptrs: NameSet::new(),
    };
    (sc, name_set(&["Shape", "Color", "Option__i32", "Result__Point_i32"]))
}

#[test]
fn type_annotations_lower_on_their_own() {
    let enums = name_set(&["Color"]);
    let names = kind_names();
    let ty = |t: TypeAnnotation| llvm_type_ann_resolved(&t, &enums, &names, &instance_of);
    assert_eq!(ty(TypeAnnotation::Integer(IntKind::U64)), "i64");
    assert_eq!(ty(TypeAnnotation::F32), "float");
    assert_eq!(ty(TypeAnnotation::F64), "double");
    assert_eq!(ty(TypeAnnotation::Char), "i32");
    assert_eq!(ty(TypeAnnotation::Bool), "i1");
    assert_eq!(ty(TypeAnnotation::String), "ptr");
    assert_eq!(ty(TypeAnnotation::Void), "void");
    assert_eq!(ty(TypeAnnotation::Struct("Point".to_string())), "%Point");
    assert_eq!(ty(TypeAnnotation::Struct("Color".to_string())), "i32");
    assert_eq!(ty(TypeAnnotation::Enum("Anything".to_string())), "i32");
    let arr = |len| TypeAnnotation::Array { elem: Box::new(TypeAnnotation::Bool), len };
    assert_eq!(ty(arr(Some(4))), "[4 x i1]");
    assert_eq!(ty(arr(None)), "[0 x i1]");
    let tuple = TypeAnnotation::Tuple(vec![
        TypeAnnotation::Integer(IntKind::I32),
        TypeAnnotation::Struct("Point".to_string()),
        applied("Vec", vec![TypeAnnotation::Bool]),
    ]);
    assert_eq!(ty(tuple), "%Tuple3_i32_%Point_%Vec__inst1");
    let reference = TypeAnnotation::Ref { inner: Box::new(TypeAnnotation::F64), mutable: false, lifetime: None };
    assert_eq!(ty(reference), "double");
    assert_eq!(ty(TypeAnnotation::Generic("T".to_string())), "i32");
    assert_eq!(ty(TypeAnnotation::Lifetime("a".to_string())), "i8");
    assert_eq!(ty(dyn_ty("Draw", &["Send"])), "%Dyn_Draw");
    assert_eq!(ty(applied("Map", vec![TypeAnnotation::Bool, TypeAnnotation::Char])), "%Map__inst2");
}

#[test]
fn tuple_type_names_spell_pointers_with_p() {
    let enums = NameSet::new();
    let names = kind_names();
    let starred = |_: &String, _: &Vec<TypeAnnotation>| "Node*".to_string();
    let tuple = TypeAnnotation::Tuple(vec![applied("Box", vec![]), TypeAnnotation::Bool]);
    assert_eq!(llvm_type_ann_resolved(&tuple, &enums, &names, &starred), "%Tuple2_%Nodep_i1");
}

#[test]
fn enums_resolve_by_name_and_by_instance() {
    let (sc, enums) = enum_scope();
    let resolve = |t: TypeAnnotation| resolved_enum_name(&sc, &enums, &instance_of, &t);
    assert_eq!(resolve(TypeAnnotation::Struct("Shape".to_string())).as_deref(), Some("Shape"));
    assert_eq!(resolve(TypeAnnotation::Enum("Color".to_string())).as_deref(), Some("Color"));
    assert_eq!(resolve(TypeAnnotation::Struct("Point".to_string())), None);
    assert_eq!(resolve(applied("Option", vec![TypeAnnotation::Integer(IntKind::I32)])).as_deref(), Some("Option__i32"));
    let result = applied("Result", vec![TypeAnnotation::Struct("Point".to_string()), TypeAnnotation::Integer(IntKind::I32)]);
    assert_eq!(resolve(result).as_deref(), Some("Result__Point_i32"));
    assert_eq!(resolve(applied("Option", vec![TypeAnnotation::Bool])), None);
    assert_eq!(resolve(TypeAnnotation::Bool), None);
}

#[test]
fn value_param_and_return_types() {
    let (sc, enums) = enum_scope();
    let shape = TypeAnnotation::Struct("Shape".to_string());
    let color = TypeAnnotation::Enum("Color".to_string());
    let point = TypeAnnotation::Struct("Point".to_string());
    let option = applied("Option", vec![TypeAnnotation::Integer(IntKind::I32)]);
    let vec_ty = applied("Vec", vec![TypeAnnotation::Integer(IntKind::I32)]);
    let value = |t: &TypeAnnotation| llvm_type_of(&sc, &enums, &instance_of, t);
    let param = |t: &TypeAnnotation| llvm_param_type_of(&sc, &enums, &instance_of, t);
    let ret = |t: &TypeAnnotation| llvm_return_type_of(&sc, &enums, &instance_of, t);
    assert_eq!(value(&shape), "%Shape");
    assert_eq!(value(&color), "i32");
    assert_eq!(value(&point), "%Point");
    assert_eq!(value(&option), "i32");
    assert_eq!(value(&vec_ty), "%Vec__inst1");
    assert_eq!(param(&shape), "%Shape*");
    assert_eq!(param(&color), "i32");
    assert_eq!(param(&point), "%Point*");
    assert_eq!(param(&dyn_ty("Draw", &[])), "%Dyn_Draw*");
    assert_eq!(param(&vec_ty), "%Vec__inst1");
    assert_eq!(param(&TypeAnnotation::Bool), "i1");
    for t in [&shape, &color, &point, &option, &vec_ty, &TypeAnnotation::Bool] {
        assert_eq!(ret(t), value(t));
    }
    assert_eq!(enum_llvm_value_type(&sc, "Shape"), "%Shape");
    assert_eq!(enum_llvm_value_type(&sc, "Color"), "i32");
    assert_eq!(enum_llvm_value_type(&sc, "Unknown"), "i32");
}
