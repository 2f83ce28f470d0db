use nyra::ast::{
    ArrowBody, ArrowFnExpr, BinaryExpr, BinaryOp, Block, CallExpr, Expression, MethodCallExpr,
    ReturnStmt, Statement, UnaryExpr, UnaryOp,
};
use nyra::borrow::{record_move_origin, BorrowError, BorrowState, OwnershipKind};
use nyra::moves::{builtin_method_borrows_receiver, uses_moved};
use nyra::span::Span;

fn var(n: &str) -> Expression {
    Expression::Variable { name: n.to_string(), span: Span::default() }
}

fn moved_state(names: &[&str]) -> BorrowState {
    let mut st = BorrowState::new(OwnershipKind::Move);
    for n in names {
        st.mark_moved(n, record_move_origin(None, Span::default()));
    }
    st
}

#[test]
fn receiver_borrowing_methods() {
    assert!(builtin_method_borrows_receiver("String_toUpperCase"));
    assert!(builtin_method_borrows_receiver("len"));
    assert!(builtin_method_borrows_receiver("truncate"));
    assert!(builtin_method_borrows_receiver("to_screaming_snake_case"));
    assert!(!builtin_method_borrows_receiver("push"));
    assert!(!builtin_method_borrows_receiver("join"));
    assert!(!builtin_method_borrows_receiver("String"));
}

#[test]
fn reading_a_moved_binding_is_reported() {
    let st = moved_state(&["s"]);
    let e = Expression::Binary(Box::new(BinaryExpr {
        left: var("s"),
        op: BinaryOp::Add,
        right: var("t"),
        span: Span::default(),
    }));
    let mut errors = Vec::new();
    assert!(uses_moved(&e, &st, &mut errors));
    assert_eq!(errors.len(), 1);
    assert!(matches!(&errors[0], BorrowError::UseAfterMove { name, .. } if name == "s"));
}

#[test]
fn references_are_not_reads() {
    let st = moved_state(&["s"]);
    let e = Expression::Unary(Box::new(UnaryExpr { op: UnaryOp::Ref, operand: var("s"), span: Span::default() }));
    let mut errors = Vec::new();
    assert!(!uses_moved(&e, &st, &mut errors));
    assert!(errors.is_empty());
}

#[test]
fn borrowed_reads_and_closure_bodies() {
    let mut st = BorrowState::new(OwnershipKind::Move);
    st.add_borrow("b", true, 3, None);
    st.add_borrow("c", false, 3, None);
    let call = Expression::Call(CallExpr {
        callee: "f".to_string(),
        type_args: vec![],
        args: vec![var("b"), var("c"), var("ok")],
        span: Span::default(),
    });
    let mut errors = Vec::new();
    assert!(uses_moved(&call, &st, &mut errors));
    assert_eq!(errors.len(), 2);
    assert!(matches!(&errors[0], BorrowError::UseWhileMutBorrowed { name } if name == "b"));
    assert!(matches!(&errors[1], BorrowError::UseWhileBorrowed { name } if name == "c"));

    let arrow = Expression::ArrowFn(Box::new(ArrowFnExpr {
        params: vec![],
        body: ArrowBody::Block(Block {
            statements: vec![Statement::Return(ReturnStmt { value: Some(var("b")) })],
        }),
        span: Span::default(),
    }));
    let mut errs2 = Vec::new();
    assert!(uses_moved(&arrow, &st, &mut errs2));
    assert_eq!(errs2.len(), 1);

    let m = Expression::MethodCall(Box::new(MethodCallExpr {
        object: var("ok"),
        method: "len".to_string(),
        span: Span::default(),
        args: vec![],
        optional: false,
    }));
    let mut errs3 = Vec::new();
    assert!(!uses_moved(&m, &st, &mut errs3));
}

use nyra::moves::{check_nyra_free_call, move_candidate, register_borrows_from_expr, register_ref_binding_borrow};
use nyra::names::NameMap;

fn refer(n: &str, mutable: bool) -> Expression {
    Expression::Unary(Box::new(UnaryExpr {
        op: if mutable { UnaryOp::RefMut } else { UnaryOp::Ref },
        operand: var(n),
        span: Span::default(),
    }))
}

#[test]
fn borrows_in_expressions_are_registered() {
    let mut st = BorrowState::new(OwnershipKind::Move);
    let mut errors = Vec::new();
    let call = Expression::Call(CallExpr {
        callee: "f".to_string(),
        type_args: vec![],
        args: vec![refer("a", false), refer("b", true)],
        span: Span::default(),
    });
    register_borrows_from_expr(&call, 4, &mut st, &mut errors);
    assert!(errors.is_empty());
    assert!(st.borrowed_imm.contains("a"));
    assert!(st.borrowed_mut.contains("b"));
    assert_eq!(st.active_borrows.len(), 2);
    assert_eq!(st.active_borrows[0].expires_after, 4);
    // a second mutable borrow of `b` is refused
    let again = refer("b", false);
    register_borrows_from_expr(&again, 4, &mut st, &mut errors);
    assert_eq!(errors.len(), 1);
    assert!(matches!(&errors[0], BorrowError::CannotBorrowWhileMutBorrowed { name } if name == "b"));
}

#[test]
fn logical_operators_end_temporary_borrows() {
    let mut st = BorrowState::new(OwnershipKind::Move);
    let mut errors = Vec::new();
    let e = Expression::Binary(Box::new(BinaryExpr {
        left: refer("a", true),
        op: BinaryOp::And,
        right: refer("a", true),
        span: Span::default(),
    }));
    register_borrows_from_expr(&e, 2, &mut st, &mut errors);
    assert!(errors.is_empty());
    let e2 = Expression::Binary(Box::new(BinaryExpr {
        left: refer("c", true),
        op: BinaryOp::Add,
        right: refer("c", true),
        span: Span::default(),
    }));
    register_borrows_from_expr(&e2, 2, &mut st, &mut errors);
    assert_eq!(errors.len(), 1);
    assert!(matches!(&errors[0], BorrowError::CannotBorrowMutAlias { name } if name == "c"));
}

#[test]
fn borrowing_a_moved_value_is_refused() {
    let mut st = moved_state(&["m"]);
    let mut errors = Vec::new();
    register_borrows_from_expr(&refer("m", false), 0, &mut st, &mut errors);
    assert!(matches!(&errors[0], BorrowError::CannotBorrowMoved { name } if name == "m"));
    assert!(st.active_borrows.is_empty());
}

#[test]
fn move_candidates() {
    assert_eq!(move_candidate(&var("x")), Some(("x", false)));
    let mv = Expression::Unary(Box::new(UnaryExpr { op: UnaryOp::Move, operand: var("y"), span: Span::default() }));
    assert_eq!(move_candidate(&mv), Some(("y", true)));
    assert_eq!(move_candidate(&refer("z", false)), None);
}

#[test]
fn free_of_owned_value_warns() {
    let mut st = BorrowState::new(OwnershipKind::Move);
    let mut errors = Vec::new();
    let call = CallExpr { callee: "free".to_string(), type_args: vec![], args: vec![var("p")], span: Span::default() };
    check_nyra_free_call(&call, &mut st, &mut errors);
    assert!(st.manually_freed.contains("p"));
    assert!(matches!(&errors[0], BorrowError::ManualFreeOfOwned { name } if name == "p"));
    let mut copy_state = BorrowState::new(OwnershipKind::Copy);
    let mut none = Vec::new();
    check_nyra_free_call(&call, &mut copy_state, &mut none);
    assert!(none.is_empty());
}

#[test]
fn reference_bindings_borrow_until_last_use() {
    let mut st = BorrowState::new(OwnershipKind::Move);
    let mut last = NameMap::new();
    last.insert("r", 7usize);
    register_ref_binding_borrow("r", &refer("s", true), &last, 9, &mut st);
    assert_eq!(st.active_borrows.len(), 1);
    assert_eq!(st.active_borrows[0].expires_after, 7);
    assert_eq!(st.active_borrows[0].borrower.as_deref(), Some("r"));
    assert_eq!(st.ref_sources.get("r").map(|s| s.as_str()), Some("s"));
    register_ref_binding_borrow("q", &refer("t", false), &last, 9, &mut st);
    assert_eq!(st.active_borrows[1].expires_after, 9);
    register_ref_binding_borrow("z", &var("t"), &last, 9, &mut st);
    assert_eq!(st.active_borrows.len(), 2);
}
