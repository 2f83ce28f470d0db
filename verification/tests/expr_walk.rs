use nyra::ast::{
    AssignStmt, Block, Expression, ForKind, ForStmt, IfStmt, LetStmt, Literal, ParallelConfig, ParallelMode,
    ParallelThreads, PrintStmt, ProgressConfig, ReturnStmt, Statement, WhileStmt,
};
use nyra::expr_walk::{for_each_expr_in_block, for_each_expr_in_block_mut};
use nyra::span::Span;

fn name(n: &str) -> Expression {
    Expression::Variable { name: n.to_string(), span: Span::default() }
}

fn num(n: i64) -> Expression {
    Expression::Literal(Literal::Int(n))
}

fn let_of(n: &str, value: Expression) -> Statement {
    Statement::Let(LetStmt {
        mutable: false,
        name: n.to_string(),
        destructure: vec![],
        span: Span::default(),
        ty: None,
        value,
    })
}

fn sample_block() -> Block {
    let inner = Block { statements: vec![Statement::Expression(name("in_then"))] };
    Block {
        statements: vec![
            let_of("a", name("init")),
            Statement::Assign(AssignStmt { target: name("t"), span: Span::default(), value: name("v") }),
            Statement::If(IfStmt {
                condition: name("cond"),
                then_block: inner,
                else_block: Some(Block { statements: vec![Statement::Return(ReturnStmt { value: Some(name("ret")) })] }),
            }),
            Statement::While(WhileStmt { condition: name("w"), body: Block { statements: vec![Statement::Defer(name("d"))] } }),
            Statement::For(ForStmt {
                var: "i".to_string(),
                kind: ForKind::Range { start: name("lo"), end: name("hi") },
                body: Block { statements: vec![Statement::Break { span: Span::default() }] },
                parallel: Some(ParallelConfig { mode: ParallelMode::Auto, threads: ParallelThreads::Exact(name("threads")) }),
                progress: None,
            }),
            Statement::Print(PrintStmt { args: vec![name("p1"), name("p2")], color: Some(name("color")) }),
            Statement::Unsafe(Block { statements: vec![Statement::Expression(name("u"))] }),
            Statement::Import("m".to_string()),
        ],
    }
}

fn names_of(exprs: &[&Expression]) -> Vec<String> {
    exprs
        .iter()
        .map(|e| match e {
            Expression::Variable { name, .. } => name.clone(),
            other => format!("{:?}", other),
        })
        .collect()
}

#[test]
fn block_expressions_come_in_source_order() {
    let b = sample_block();
    let seen = for_each_expr_in_block(&b);
    assert_eq!(
        names_of(&seen),
        vec!["init", "t", "v", "cond", "in_then", "ret", "w", "d", "lo", "hi", "p1", "p2", "color", "u"]
    );
}

#[test]
fn block_walk_skips_loop_configuration_and_empty_blocks() {
    let b = Block { statements: vec![] };
    assert!(for_each_expr_in_block(&b).is_empty());
    let only_config = Block {
        statements: vec![Statement::For(ForStmt {
            var: "i".to_string(),
            kind: ForKind::Iterable { iterable: name("xs") },
            body: Block { statements: vec![] },
            parallel: Some(ParallelConfig { mode: ParallelMode::Balanced, threads: ParallelThreads::Max(name("n")) }),
            progress: Some(ProgressConfig { label: Some(name("label")) }),
        })],
    };
    assert_eq!(names_of(&for_each_expr_in_block(&only_config)), vec!["xs"]);
}

fn renamed(e: Expression) -> Expression {
    match e {
        Expression::Variable { name, span } => Expression::Variable { name: format!("{}_2", name), span },
        other => other,
    }
}

#[test]
fn block_walk_maps_each_expression_in_place() {
    let mut b = sample_block();
    for_each_expr_in_block_mut(&mut b, &renamed);
    assert_eq!(
        names_of(&for_each_expr_in_block(&b)),
        vec![
            "init_2", "t_2", "v_2", "cond_2", "in_then_2", "ret_2", "w_2", "d_2", "lo_2", "hi_2", "p1_2", "p2_2",
            "color_2", "u_2",
        ]
    );
    match &b.statements[4] {
        Statement::For(f) => {
            assert_eq!(f.var, "i");
            assert_eq!(f.parallel, Some(ParallelConfig { mode: ParallelMode::Auto, threads: ParallelThreads::Exact(name("threads")) }));
        }
        other => panic!("unexpected statement {:?}", other),
    }
    match &b.statements[0] {
        Statement::Let(l) => assert_eq!(l.name, "a"),
        other => panic!("unexpected statement {:?}", other),
    }
    assert_eq!(b.statements[7], Statement::Import("m".to_string()));
}

#[test]
fn for_header_maps_bounds_threads_and_label() {
    let mut f = ForStmt {
        var: "i".to_string(),
        kind: ForKind::Range { start: num(0), end: name("n") },
        body: Block { statements: vec![Statement::Expression(name("body"))] },
        parallel: Some(ParallelConfig { mode: ParallelMode::Background, threads: ParallelThreads::CpuPercent(name("pct")) }),
        progress: Some(ProgressConfig { label: Some(name("label")) }),
    };
    f.map_exprs_mut(renamed);
    assert_eq!(f.kind, ForKind::Range { start: num(0), end: name("n_2") });
    assert_eq!(
        f.parallel,
        Some(ParallelConfig { mode: ParallelMode::Background, threads: ParallelThreads::CpuPercent(name("pct_2")) })
    );
    assert_eq!(f.progress, Some(ProgressConfig { label: Some(name("label_2")) }));
    assert_eq!(f.body, Block { statements: vec![Statement::Expression(name("body"))] });

    let mut auto = ParallelThreads::Auto;
    auto.map_expr_mut(&renamed);
    assert_eq!(auto, ParallelThreads::Auto);
    let mut cfg = ParallelConfig { mode: ParallelMode::MaxPerformance, threads: ParallelThreads::Max(name("m")) };
    cfg.map_exprs_mut(&renamed);
    assert_eq!(cfg, ParallelConfig { mode: ParallelMode::MaxPerformance, threads: ParallelThreads::Max(name("m_2")) });
    let mut none = ProgressConfig { label: None };
    none.map_exprs_mut(renamed);
    assert_eq!(none, ProgressConfig { label: None });
}
