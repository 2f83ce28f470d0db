use nyra::analysis::{DocumentAnalysis, SymbolKind};
use nyra::ast::{
    Block, CallExpr, Expression, ForKind, ForStmt, Function, IntKind, LetStmt, Literal, Param,
    Program, Statement, StructAttrs, StructDef, StructField, TypeAnnotation,
};
use nyra::inlay::{collect_inlay_hints, collect_parameter_hints, type_hints, InferredBinding, InlayHintKind};
use nyra::span::{Position, Span};
use nyra::symbols::collect_symbols;

fn fmt(t: &TypeAnnotation) -> String {
    match t {
        TypeAnnotation::Integer(IntKind::I32) => "i32".to_string(),
        TypeAnnotation::String => "string".to_string(),
        _ => "?".to_string(),
    }
}

fn at(line: usize, col: usize) -> Span {
    Span {
        file: "t.ny".to_string(),
        start: Position { line, column: col },
        end: Position { line, column: col + 1 },
    }
}

fn var(n: &str, sp: Span) -> Expression {
    Expression::Variable { name: n.to_string(), span: sp }
}

fn param(name: &str) -> Param {
    Param {
        name: name.to_string(),
        ty: TypeAnnotation::Integer(IntKind::I32),
        destructure: vec![],
        no_escape: false,
        mutable: false,
    }
}

fn function(name: &str, params: Vec<Param>, body: Vec<Statement>, sp: Span) -> Function {
    Function {
        name: name.to_string(),
        is_test: false,
        ignore_test: false,
        should_fail_test: false,
        is_async: false,
        exported: false,
        public: true,
        span: sp,
        type_params: vec![],
        type_param_bounds: vec![],
        lifetime_params: vec![],
        params,
        return_type: Some(TypeAnnotation::Integer(IntKind::I32)),
        body: Block { statements: body },
        inline: false,
        hot: false,
        cold: false,
        comptime: false,
        doc: None,
    }
}

fn program(functions: Vec<Function>, structs: Vec<StructDef>) -> Program {
    Program {
        module: None,
        no_std: false,
        comptime: false,
        allow_extended: false,
        imports: vec![],
        consts: vec![],
        structs,
        enums: vec![],
        traits: vec![],
        trait_impls: vec![],
        macros: vec![],
        impls: vec![],
        externs: vec![],
        functions,
        export_instances: vec![],
    }
}

fn sample() -> Program {
    // fn add(a: i32, b: i32) -> i32 { }
    // fn main() -> i32 { let x = 1; add(x, 2); for i in 0..x { } }
    let add = function("add", vec![param("a"), param("b")], vec![], at(1, 1));
    let call = Expression::Call(CallExpr {
        callee: "add".to_string(),
        type_args: vec![],
        args: vec![var("x", at(3, 9)), Expression::Literal(Literal::Int(2))],
        span: at(3, 5),
    });
    let body = vec![
        Statement::Let(LetStmt {
            mutable: false,
            name: "x".to_string(),
            destructure: vec![],
            span: at(2, 5),
            ty: None,
            value: Expression::Literal(Literal::Int(1)),
        }),
        Statement::Expression(call),
        Statement::For(ForStmt {
            var: "i".to_string(),
            kind: ForKind::Range { start: Expression::Literal(Literal::Int(0)), end: var("x", at(4, 15)) },
            body: Block { statements: vec![] },
            parallel: None,
            progress: None,
        }),
    ];
    let main = function("main", vec![], body, at(1, 20));
    let point = StructDef {
        name: "Point".to_string(),
        type_params: vec![],
        attrs: StructAttrs::default(),
        fields: vec![StructField { name: "x".to_string(), ty: TypeAnnotation::Integer(IntKind::I32) }],
        doc: None,
        public: true,
    };
    program(vec![add, main], vec![point])
}

#[test]
fn symbols_of_a_program() {
    let p = sample();
    let syms = collect_symbols(&fmt, &p);
    let names: Vec<&str> = syms.iter().map(|s| s.name.as_str()).collect();
    assert_eq!(
        names,
        vec![
            "Point", "x", "Point_json_encode", "Point_json_decode", "add", "a", "b", "main", "x",
            "add", "x", "x", "i"
        ]
    );
    assert_eq!(syms[0].detail.as_deref(), Some("struct Point { x: i32 }"));
    assert_eq!(syms[1].detail.as_deref(), Some("Point: i32"));
    assert_eq!(
        syms[2].detail.as_deref(),
        Some("fn Point_json_encode(self: Point) -> string  // synthesized JSON encode")
    );
    assert_eq!(
        syms[3].detail.as_deref(),
        Some("fn Point_json_decode(json: string) -> Point  // synthesized JSON decode")
    );
    assert_eq!(syms[4].detail.as_deref(), Some("fn(a: i32, b: i32) -> i32"));
    assert_eq!(syms[5].kind, SymbolKind::Parameter);
    assert_eq!(syms[5].detail.as_deref(), Some("i32"));
    assert_eq!(syms[8].kind, SymbolKind::Variable);
    assert!(syms[8].renameable);
    assert_eq!(syms[9].kind, SymbolKind::Function);
    assert!(!syms[9].renameable);
    assert_eq!(syms[12].detail.as_deref(), Some("i32"));
}

#[test]
fn analysis_orders_symbols_by_position() {
    let p = sample();
    let a = DocumentAnalysis::from_program(&p, &fmt, true, &[]);
    assert!(a.parse_ok && a.typecheck_ok);
    // keywords and other located-nowhere symbols come first, in order
    assert_eq!(a.symbols[0].name, "Point");
    let located: Vec<(usize, usize)> = a
        .symbols
        .iter()
        .filter(|s| s.span.start.line > 0)
        .map(|s| (s.span.start.line, s.span.start.column))
        .collect();
    let mut sorted = located.clone();
    sorted.sort();
    assert_eq!(located, sorted);
    assert!(a.symbols.iter().any(|s| s.name == "fn" && s.kind == SymbolKind::Keyword));
    assert_eq!(a.completions("ad"), vec!["add".to_string()]);
}

#[test]
fn parameter_hints_name_the_arguments() {
    let p = sample();
    let hints = collect_parameter_hints(&p);
    // `add(x, 2)`: `x` gets the hint `a:`; the literal has no location
    assert_eq!(hints.len(), 1);
    assert_eq!(hints[0].label, "a:");
    assert_eq!((hints[0].line, hints[0].character), (2, 8));
    assert_eq!(hints[0].kind, InlayHintKind::Parameter);
}

#[test]
fn inlay_hints_are_sorted_with_parameters_first() {
    let p = sample();
    let types = vec![inferred(3, 5, 3, 9, "i32", true), inferred(2, 5, 2, 10, "i32", true)];
    let all = collect_inlay_hints(&types, &p);
    let labels: Vec<&str> = all.iter().map(|h| h.label.as_str()).collect();
    assert_eq!(labels, vec![": i32", "a:", ": i32"]);
    assert_eq!(all[0].line, 1);
    assert_eq!(all[1].kind, InlayHintKind::Parameter);
}

fn inferred(l0: usize, c0: usize, l1: usize, c1: usize, ty: &str, known: bool) -> InferredBinding {
    InferredBinding {
        span: Span {
            file: "t.ny".to_string(),
            start: Position { line: l0, column: c0 },
            end: Position { line: l1, column: c1 },
        },
        ty: ty.to_string(),
        known,
    }
}

#[test]
fn type_hints_follow_known_inferred_bindings() {
    let hints = type_hints(&[
        inferred(2, 9, 2, 10, "i32", true),
        inferred(3, 9, 3, 14, "_", false),
        inferred(0, 0, 0, 0, "string", true),
    ]);
    assert_eq!(hints.len(), 2);
    assert_eq!((hints[0].line, hints[0].character, hints[0].label.as_str()), (1, 9, ": i32"));
    assert_eq!(hints[0].kind, InlayHintKind::Type);
    assert_eq!((hints[1].line, hints[1].character, hints[1].label.as_str()), (0, 0, ": string"));
    let p = sample();
    let a = DocumentAnalysis::from_program(&p, &fmt, true, &[inferred(2, 9, 2, 10, "i32", true)]);
    assert!(a.inlay_hints.iter().any(|h| h.label.contains("i32") && h.kind == InlayHintKind::Type));
}

use nyra::ast::{block_trailing_expression, ArrayLiteralExpr, ReturnStmt};

#[test]
fn trailing_expression_of_blocks() {
    let b = Block {
        statements: vec![
            Statement::Expression(var("a", at(1, 1))),
            Statement::Let(LetStmt {
                mutable: false,
                name: "y".to_string(),
                destructure: vec![],
                span: at(2, 1),
                ty: None,
                value: Expression::Literal(Literal::Int(1)),
            }),
        ],
    };
    assert!(matches!(block_trailing_expression(&b), Some(Expression::Variable { name, .. }) if name == "a"));
    let r = Block { statements: vec![Statement::Expression(var("a", at(1, 1))), Statement::Return(ReturnStmt { value: None })] };
    assert!(block_trailing_expression(&r).is_none());
    assert!(block_trailing_expression(&Block { statements: vec![] }).is_none());
    let arr = ArrayLiteralExpr { spreads: vec![var("s", at(1, 1))], elems: vec![var("e", at(1, 5))], span: at(1, 1) };
    let all = arr.all_exprs();
    assert_eq!(all.len(), 2);
    assert!(matches!(all[1], Expression::Variable { name, .. } if name == "e"));
}
