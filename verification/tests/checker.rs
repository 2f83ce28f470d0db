use nyra::ast::{
    ArrowBody, ArrowFnExpr, AssignStmt, BinaryExpr, BinaryOp, Block, CallExpr, Expression, Function,
    IfStmt, IntKind, LetStmt, Literal, PrintStmt, Program, ReturnStmt, Statement, TypeAnnotation, UnaryExpr, UnaryOp,
    WhileStmt,
};
use nyra::borrow::{BorrowError, BorrowSite, OwnershipKind, VarInfo};
use nyra::checker::{analyze_ownership_verbose, check_program, check_program_inspect, inspect_binding, OwnershipFacts};
use nyra::inspect::{BindingStatus, InspectQuery, InspectRole};
use nyra::names::{NameMap, NameSet};
use nyra::span::{Position, Span};

/// Ownership facts of a small test world: strings are Move, integers Copy,
/// references Copy; closures capture what `captures` lists.
struct TestFacts {
    captures: Vec<String>,
}

fn facts() -> TestFacts {
    TestFacts { captures: vec![] }
}

fn info(label: &str, kind: OwnershipKind) -> VarInfo {
    VarInfo { label: label.to_string(), kind, is_ref: false }
}

fn names_in_expr(e: &Expression, out: &mut Vec<String>) {
    match e {
        Expression::Variable { name, .. } => out.push(name.clone()),
        Expression::Unary(u) => names_in_expr(&u.operand, out),
        Expression::Binary(b) => {
            names_in_expr(&b.left, out);
            names_in_expr(&b.right, out);
        }
        Expression::Call(c) => c.args.iter().for_each(|a| names_in_expr(a, out)),
        Expression::Grouped(g) => names_in_expr(g, out),
        _ => {}
    }
}

fn names_in_stmt(s: &Statement, out: &mut Vec<String>) {
    match s {
        Statement::Let(l) | Statement::Const(l) => names_in_expr(&l.value, out),
        Statement::Assign(a) => {
            names_in_expr(&a.target, out);
            names_in_expr(&a.value, out);
        }
        Statement::Print(p) => p.args.iter().for_each(|a| names_in_expr(a, out)),
        Statement::Expression(e) | Statement::Defer(e) => names_in_expr(e, out),
        Statement::If(i) => {
            names_in_expr(&i.condition, out);
            i.then_block.statements.iter().for_each(|s| names_in_stmt(s, out));
            if let Some(b) = &i.else_block {
                b.statements.iter().for_each(|s| names_in_stmt(s, out));
            }
        }
        Statement::While(w) => {
            names_in_expr(&w.condition, out);
            w.body.statements.iter().for_each(|s| names_in_stmt(s, out));
        }
        Statement::Unsafe(b) | Statement::Spawn(b) | Statement::Benchmark(b) => {
            b.statements.iter().for_each(|s| names_in_stmt(s, out))
        }
        _ => {}
    }
}

impl OwnershipFacts for TestFacts {
    fn annotation_info(&self, ty: &TypeAnnotation) -> VarInfo {
        match ty {
            TypeAnnotation::String => info("string", OwnershipKind::Move),
            TypeAnnotation::Integer(_) => info("i32", OwnershipKind::Copy),
            _ => info("_", OwnershipKind::Copy),
        }
    }

    fn expr_info(&self, expr: &Expression) -> VarInfo {
        match expr {
            Expression::Literal(Literal::String(_)) => info("string", OwnershipKind::Move),
            Expression::Literal(Literal::Int(_)) => info("i32", OwnershipKind::Copy),
            Expression::Binary(_) => info("i32", OwnershipKind::Copy),
            _ => info("_", OwnershipKind::Copy),
        }
    }

    fn ref_kind(&self, _inner: &VarInfo, _mutable: bool) -> OwnershipKind {
        OwnershipKind::Copy
    }

    fn unknown_kind(&self) -> OwnershipKind {
        OwnershipKind::Copy
    }

    fn callee_returns_owned(&self, callee: &str) -> bool {
        callee == "make_string"
    }

    fn field_kind(&self, _base: &VarInfo, _field: &str) -> Option<OwnershipKind> {
        None
    }

    fn last_uses(&self, block: &Block) -> NameMap<usize> {
        let mut m = NameMap::new();
        for (i, s) in block.statements.iter().enumerate() {
            let mut names = Vec::new();
            names_in_stmt(s, &mut names);
            for n in names {
                m.insert(&n, i);
            }
        }
        m
    }

    fn arrow_has_captures(&self, _arrow: &ArrowFnExpr) -> bool {
        !self.captures.is_empty()
    }

    fn arrow_captures(&self, _arrow: &ArrowFnExpr, outer: &NameSet) -> Vec<String> {
        self.captures.iter().filter(|c| outer.contains(c)).cloned().collect()
    }

    fn block_captures(&self, _body: &Block, outer: &NameSet) -> Vec<String> {
        self.captures.iter().filter(|c| outer.contains(c)).cloned().collect()
    }

    fn closure_capture_problems(&self, _arrow: &ArrowFnExpr, _outer: &NameMap<VarInfo>) -> Vec<String> {
        vec![]
    }

    fn spawn_capture_problems(&self, _body: &Block, _outer: &NameMap<VarInfo>) -> Vec<String> {
        vec![]
    }

    fn parallel_capture_problems(&self, _body: &Block, _outer: &NameMap<VarInfo>) -> Vec<String> {
        vec![]
    }

    fn program_problems(&self, _program: &Program) -> Vec<String> {
        vec![]
    }
}

fn sp(line: usize) -> Span {
    Span {
        file: "test.ny".to_string(),
        start: Position { line, column: 5 },
        end: Position { line, column: 30 },
    }
}

fn var(n: &str, line: usize) -> Expression {
    Expression::Variable { name: n.to_string(), span: sp(line) }
}

fn text(s: &str) -> Expression {
    Expression::Literal(Literal::String(s.to_string()))
}

fn int_lit(v: i64) -> Expression {
    Expression::Literal(Literal::Int(v))
}

fn unary(op: UnaryOp, operand: Expression, line: usize) -> Expression {
    Expression::Unary(Box::new(UnaryExpr { op, operand, span: sp(line) }))
}

fn refer(n: &str, line: usize) -> Expression {
    unary(UnaryOp::Ref, var(n, line), line)
}

fn let_stmt(name: &str, mutable: bool, value: Expression, line: usize) -> Statement {
    Statement::Let(LetStmt {
        mutable,
        name: name.to_string(),
        destructure: vec![],
        span: sp(line),
        ty: None,
        value,
    })
}

fn assign(name: &str, value: Expression, line: usize) -> Statement {
    Statement::Assign(AssignStmt { target: var(name, line), span: sp(line), value })
}

fn print(arg: Expression) -> Statement {
    Statement::Print(PrintStmt { args: vec![arg], color: None })
}

fn main_fn(body: Vec<Statement>) -> Function {
    Function {
        name: "main".to_string(),
        is_test: false,
        ignore_test: false,
        should_fail_test: false,
        is_async: false,
        exported: false,
        public: true,
        span: sp(1),
        type_params: vec![],
        type_param_bounds: vec![],
        lifetime_params: vec![],
        params: vec![],
        return_type: None,
        body: Block { statements: body },
        inline: false,
        hot: false,
        cold: false,
        comptime: false,
        doc: None,
    }
}

fn program(body: Vec<Statement>) -> Program {
    Program {
        module: None,
        no_std: false,
        comptime: false,
        allow_extended: false,
        imports: vec![],
        consts: vec![],
        structs: vec![],
        enums: vec![],
        traits: vec![],
        trait_impls: vec![],
        macros: vec![],
        impls: vec![],
        externs: vec![],
        functions: vec![main_fn(body)],
        export_instances: vec![],
    }
}

fn borrow_errors(body: Vec<Statement>) -> Vec<BorrowError> {
    let p = program(body);
    let mut errors = Vec::new();
    check_program(&p, &facts(), &mut errors);
    errors
}

fn query(line: usize, name: &str) -> InspectQuery {
    InspectQuery { file: "test.ny".into(), line, name: name.into() }
}

fn strings(v: &[&str]) -> Vec<String> {
    v.iter().map(|s| s.to_string()).collect()
}

/// fn main() {
///     let name = "Nyra"
///     let myname = name
///     let myname2 = myname
///     print(myname2)
/// }
fn move_chain(first_line: usize) -> Vec<Statement> {
    vec![
        let_stmt("name", false, text("Nyra"), first_line),
        let_stmt("myname", false, var("name", first_line + 1), first_line + 1),
        let_stmt("myname2", false, var("myname", first_line + 2), first_line + 2),
        print(var("myname2", first_line + 3)),
    ]
}

/// fn main() {
///     let name = "Nyra"
///     let myname = &name
///     let myname2 = &myname
///     print(&myname2)
/// }
fn borrow_chain(first_line: usize) -> Vec<Statement> {
    vec![
        let_stmt("name", false, text("Nyra"), first_line),
        let_stmt("myname", false, refer("name", first_line + 1), first_line + 1),
        let_stmt("myname2", false, refer("myname", first_line + 2), first_line + 2),
        print(refer("myname2", first_line + 3)),
    ]
}

#[test]
fn inspect_reports_borrow_at_line() {
    let p = program(vec![
        let_stmt("name", false, text("Ada"), 2),
        let_stmt("r", false, refer("name", 3), 3),
        print(var("r", 4)),
    ]);
    let report = inspect_binding(&p, &facts(), &query(4, "name")).unwrap();
    assert_eq!(report.name, "name");
    assert_eq!(report.binding_status, BindingStatus::Valid);
    assert!(!report.borrowed_by.is_empty());
}

#[test]
fn inspect_shows_ownership_chain() {
    let p = program(move_chain(2));
    let report = inspect_binding(&p, &facts(), &query(5, "myname2")).unwrap();
    assert_eq!(report.ownership_chain, strings(&["name", "myname", "myname2"]));
    assert_eq!(report.current_owner, "myname2");
    assert_eq!(report.ty, "string");
    assert_eq!(report.kind, OwnershipKind::Move);

    let report_name = inspect_binding(&p, &facts(), &query(5, "name")).unwrap();
    assert_eq!(report_name.current_owner, "myname2");
    assert!(matches!(report_name.role, InspectRole::MovedAway));
}

#[test]
fn inspect_shows_borrow_chain() {
    let p = program(borrow_chain(2));
    let report = inspect_binding(&p, &facts(), &query(4, "myname2")).unwrap();
    assert_eq!(report.ty, "&&string");
    assert_eq!(report.borrow_chain, strings(&["name", "myname", "myname2"]));
    assert_eq!(report.heap_owner, "name");
    assert_eq!(report.current_owner, "name");
    assert_eq!(report.role, InspectRole::Borrower);
    assert!(report.moved_from.is_none());
    assert!(report.ownership_chain.is_empty());
}

#[test]
fn inspect_borrow_chain_survives_shadowed_names() {
    let mut body = move_chain(2);
    body.extend(borrow_chain(7));
    let p = program(body);
    let report = inspect_binding(&p, &facts(), &query(9, "myname2")).unwrap();
    assert_eq!(report.heap_owner, "name");
    assert_eq!(report.borrow_chain, strings(&["name", "myname", "myname2"]));
    assert!(report.moved_from.is_none());
    assert_eq!(report.role, InspectRole::Borrower);
}

#[test]
fn rejects_use_after_move_string() {
    let errs = borrow_errors(vec![
        let_stmt("a", false, text("hello"), 2),
        let_stmt("b", false, var("a", 3), 3),
        print(var("a", 4)),
    ]);
    assert!(errs.iter().any(|e| e.message().contains("moved")));
}

#[test]
fn allows_copy_i32_after_assign() {
    let errs = borrow_errors(vec![
        let_stmt("b", false, int_lit(1), 2),
        let_stmt("a", false, var("b", 3), 3),
        print(var("a", 4)),
        print(var("b", 5)),
    ]);
    assert!(!errs.iter().any(|e| e.message().contains("moved")));
}

#[test]
fn rejects_assign_while_imm_borrowed() {
    let minus = Expression::Binary(Box::new(BinaryExpr {
        left: var("score", 4),
        op: BinaryOp::Sub,
        right: int_lit(10),
        span: sp(4),
    }));
    let errs = borrow_errors(vec![
        let_stmt("score", true, int_lit(100), 2),
        let_stmt("r", false, refer("score", 3), 3),
        assign("score", minus, 4),
        print(var("r", 5)),
    ]);
    assert!(errs.iter().any(|e| e.code() == Some("E010")), "{:?}", errs);
}

fn mut_ref_program(assign_first: bool) -> Vec<BorrowError> {
    let use_r = print(unary(UnaryOp::Deref, var("r", 4), 4));
    let set_x = assign("x", int_lit(2), 4);
    let (third, fourth) = if assign_first { (set_x, use_r) } else { (use_r, set_x) };
    borrow_errors(vec![
        let_stmt("x", true, int_lit(1), 2),
        let_stmt("r", false, unary(UnaryOp::RefMut, var("x", 3), 3), 3),
        third,
        fourth,
    ])
}

#[test]
fn rejects_mut_borrow_conflict() {
    let errs = mut_ref_program(true);
    assert!(errs.iter().any(|e| e.message().contains("borrowed")));
}

#[test]
fn nll_allows_use_after_ref_expires() {
    let errs = mut_ref_program(false);
    assert!(!errs.iter().any(|e| e.message().contains("borrowed")), "{:?}", errs);
}

#[test]
fn nll_rejects_use_while_ref_alive() {
    let errs = mut_ref_program(true);
    assert!(errs.iter().any(|e| e.message().contains("borrowed")));
}

#[test]
fn use_after_move_names_the_callee() {
    let call = Expression::Call(CallExpr {
        callee: "consume".to_string(),
        type_args: vec![],
        args: vec![var("s", 3)],
        span: sp(3),
    });
    let errs = borrow_errors(vec![
        let_stmt("s", false, text("x"), 2),
        Statement::Expression(call),
        print(var("s", 4)),
    ]);
    assert_eq!(errs.len(), 1);
    assert_eq!(errs[0].message(), "`s` was moved into `consume()`");
    assert_eq!(errs[0].code(), Some("E012"));
}

#[test]
fn unsafe_blocks_only_declare() {
    let errs = borrow_errors(vec![
        let_stmt("a", false, text("x"), 2),
        let_stmt("b", false, var("a", 3), 3),
        Statement::Unsafe(Block { statements: vec![print(var("a", 5)), let_stmt("c", false, var("a", 6), 6)] }),
    ]);
    assert!(errs.is_empty(), "{:?}", errs);
}

#[test]
fn moves_in_a_loop_body_stay_in_the_loop() {
    let body = Block { statements: vec![let_stmt("b", false, var("a", 4), 4)] };
    let errs = borrow_errors(vec![
        let_stmt("a", false, text("x"), 2),
        Statement::While(WhileStmt { condition: Expression::Literal(Literal::Bool(true)), body }),
        print(var("a", 6)),
    ]);
    assert!(errs.is_empty(), "{:?}", errs);
}

#[test]
fn a_move_on_both_branches_is_a_move() {
    let branch = |line: usize| Block { statements: vec![let_stmt("b", false, var("a", line), line)] };
    let both = borrow_errors(vec![
        let_stmt("a", false, text("x"), 2),
        Statement::If(IfStmt {
            condition: Expression::Literal(Literal::Bool(true)),
            then_block: branch(4),
            else_block: Some(branch(6)),
        }),
        print(var("a", 8)),
    ]);
    assert_eq!(both.len(), 1);
    let one = borrow_errors(vec![
        let_stmt("a", false, text("x"), 2),
        Statement::If(IfStmt {
            condition: Expression::Literal(Literal::Bool(true)),
            then_block: branch(4),
            else_block: None,
        }),
        print(var("a", 8)),
    ]);
    assert!(one.is_empty(), "{:?}", one);
}

#[test]
fn capturing_closure_while_borrowed_is_refused() {
    let arrow = Expression::ArrowFn(Box::new(ArrowFnExpr {
        params: vec![],
        body: ArrowBody::Expr(var("t", 4)),
        span: sp(4),
    }));
    let p = program(vec![
        let_stmt("s", false, text("x"), 2),
        let_stmt("r", false, refer("s", 3), 3),
        let_stmt("f", false, arrow, 4),
        print(var("r", 5)),
        print(var("s", 6)),
    ]);
    let mut errors = Vec::new();
    check_program(&p, &TestFacts { captures: vec!["s".to_string()] }, &mut errors);
    assert_eq!(errors[0], BorrowError::BorrowsActiveAt { site: BorrowSite::Closure });
    assert_eq!(errors[0].message(), "closure while references are active");
    assert!(errors.iter().any(|e| matches!(e, BorrowError::UseAfterMove { name, .. } if name == "s")));
}

#[test]
fn inspection_helpers() {
    let p = program(move_chain(2));
    let mut errors = Vec::new();
    assert!(check_program_inspect(&p, &facts(), &mut errors, None).is_none());
    let missing = inspect_binding(&p, &facts(), &query(42, "zz")).unwrap_err();
    assert_eq!(missing, "binding `zz` not in scope at test.ny:42");
    let plan = analyze_ownership_verbose(&p, &facts());
    assert_eq!(plan.entries.len(), 3);
    assert_eq!(
        plan.report_lines(),
        strings(&[
            "ownership: 3 binding(s) at function exit",
            "  ownership: main::myname → Move (moved)",
            "  ownership: main::myname2 → Move (valid)",
            "  ownership: main::name → Move (moved)",
        ])
    );
    let _ = TypeAnnotation::Integer(IntKind::I32);
}

#[test]
fn borrow_errors_carry_their_help_note_and_label() {
    let assign = BorrowError::AssignWhileBorrowed { name: "score".to_string(), mutably: false };
    assert_eq!(assign.code(), Some("E010"));
    assert_eq!(
        assign.help().as_deref(),
        Some("drop the borrow before assigning, or clone the value: `let copy = clone score`")
    );
    assert_eq!(assign.label().as_deref(), Some("`score` is immutably borrowed here"));
    let assign_mut = BorrowError::AssignWhileBorrowed { name: "x".to_string(), mutably: true };
    assert_eq!(assign_mut.label().as_deref(), Some("`x` is mutably borrowed here"));
    let moved = BorrowError::MoveWhileBorrowed { name: "s".to_string() };
    assert_eq!(moved.help().as_deref(), Some("drop the borrow before moving, or clone: `clone s`"));
    let used = BorrowError::UseWhileMutBorrowed { name: "x".to_string() };
    assert_eq!(used.help().as_deref(), Some("finish using the mutable borrow before reading this value again"));
    let freed = BorrowError::ManualFreeOfOwned { name: "s".to_string() };
    assert_eq!(freed.note().as_deref(), Some("remove `free` unless this is FFI escape hatch code"));
    assert!(freed.help().is_none());
    let spawn = BorrowError::BorrowsActiveAt { site: BorrowSite::Spawn };
    assert_eq!(spawn.note().as_deref(), Some("finish using borrows before spawn"));
    let after_move = BorrowError::UseAfterMove { name: "a".to_string(), callee: None };
    assert!(after_move.help().is_none() && after_move.note().is_none() && after_move.label().is_none());
}

#[test]
fn return_of_moved_value_is_reported() {
    let errs = borrow_errors(vec![
        let_stmt("a", false, text("hello"), 2),
        let_stmt("b", false, var("a", 3), 3),
        Statement::Return(ReturnStmt { value: Some(var("a", 4)) }),
    ]);
    assert_eq!(errs.len(), 1);
    assert!(matches!(&errs[0], BorrowError::UseAfterMove { name, .. } if name == "a"));
}

#[test]
fn return_of_owned_value_moves_it_without_error() {
    let errs = borrow_errors(vec![
        let_stmt("a", false, text("hello"), 2),
        Statement::Return(ReturnStmt { value: Some(var("a", 3)) }),
    ]);
    assert!(errs.is_empty());
}
