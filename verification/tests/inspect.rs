use nyra::ast::{AssignStmt, Block, Expression, Literal, Statement};
use nyra::borrow::{record_move_origin, BorrowState, OwnershipKind, VarInfo};
use nyra::inspect::{
    block_line_map, borrow_chain_hops_from, build_report, chain_hops_from, file_matches,
    format_borrow_chain_diagram, format_chain_diagram, kind_label, status_label, BindingStatus,
    BlockLines, ChainHop, InspectCollector, InspectQuery, InspectRole, OwnershipVerbosePlan,
    VerboseEntry,
};
use nyra::span::{Position, Span};

fn strings(v: &[&str]) -> Vec<String> {
    v.iter().map(|s| s.to_string()).collect()
}

fn info(label: &str, kind: OwnershipKind, is_ref: bool) -> VarInfo {
    VarInfo { label: label.to_string(), kind, is_ref }
}

fn span_at(file: &str, line: usize, end_line: usize) -> Span {
    Span {
        file: file.to_string(),
        start: Position { line, column: 1 },
        end: Position { line: end_line, column: 10 },
    }
}

fn assign_at(name: &str, file: &str, line: usize) -> Statement {
    Statement::Assign(AssignStmt {
        target: Expression::Variable { name: name.to_string(), span: Span::default() },
        span: span_at(file, line, line),
        value: Expression::Literal(Literal::Int(1)),
    })
}

/// `let a: String = ...; let b = a;` in one function.
fn moved_pair() -> BorrowState {
    let mut st = BorrowState::new(OwnershipKind::Move);
    st.declare_var("a", info("String", OwnershipKind::Move, false), false);
    st.declare_var("b", info("String", OwnershipKind::Move, false), false);
    st.mark_moved("a", record_move_origin(None, Span::default()));
    st.record_let_move("b", "a");
    st
}

#[test]
fn chain_hops_pair_consecutive_names() {
    let hops = chain_hops_from(&strings(&["a", "b", "c"]));
    assert_eq!(
        hops,
        vec![
            ChainHop { from: "a".to_string(), to: "b".to_string() },
            ChainHop { from: "b".to_string(), to: "c".to_string() },
        ]
    );
    assert!(chain_hops_from(&strings(&["a"])).is_empty());
    assert!(chain_hops_from(&[]).is_empty());
    let b = borrow_chain_hops_from(&strings(&["x", "y"]));
    assert_eq!(b.len(), 1);
    assert_eq!(b[0].from, "x");
    assert_eq!(b[0].to, "y");
}

#[test]
fn chain_diagrams() {
    assert_eq!(format_chain_diagram(&[]), "(none)");
    assert_eq!(format_chain_diagram(&strings(&["a"])), "a");
    assert_eq!(format_chain_diagram(&strings(&["a", "b", "c"])), "a ──move──► b ──move──► c");
    assert_eq!(format_borrow_chain_diagram(&[]), "(none)");
    assert_eq!(format_borrow_chain_diagram(&strings(&["s", "r"])), "s ◄──borrow── r");
}

#[test]
fn labels() {
    assert_eq!(kind_label(OwnershipKind::Copy), "Copy");
    assert_eq!(kind_label(OwnershipKind::Move), "Move");
    assert_eq!(status_label(BindingStatus::Valid), "valid");
    assert_eq!(status_label(BindingStatus::Moved), "moved");
    assert_eq!(status_label(BindingStatus::NotInScope), "not in scope");
}

#[test]
fn files_match_by_path_or_file_name() {
    assert!(file_matches("src/main.ny", "src/main.ny"));
    assert!(file_matches("/home/u/proj/src/main.ny", "main.ny"));
    assert!(file_matches("main.ny", "other/dir/main.ny"));
    assert!(!file_matches("src/main.ny", "src/lib.ny"));
}

#[test]
fn block_lines_follow_statement_spans() {
    let block = Block { statements: vec![assign_at("x", "m.ny", 3), assign_at("y", "m.ny", 5)] };
    let bl = block_line_map(&block);
    assert_eq!(bl.lines, vec![3, 5]);
    assert_eq!(bl.scope_exit_line, 5);
    let empty = block_line_map(&Block { statements: vec![] });
    assert!(empty.lines.is_empty());
    assert_eq!(empty.scope_exit_line, 1);
}

#[test]
fn report_for_moved_binding() {
    let st = moved_pair();
    let bl = BlockLines { lines: vec![1, 2, 3], scope_exit_line: 9 };
    let rep = build_report("a", "main", "src/main.ny", 3, &st, &bl);
    assert_eq!(rep.binding_status, BindingStatus::Moved);
    assert_eq!(rep.role, InspectRole::MovedAway);
    assert_eq!(rep.ownership_chain, strings(&["a", "b"]));
    assert_eq!(rep.current_owner, "b");
    assert_eq!(rep.moved_to.as_deref(), Some("b"));
    assert!(rep.drop.is_none());
    assert_eq!(
        rep.format_lines(),
        strings(&[
            "a (String) @ main.ny:3 in main:",
            "  ownership chain:",
            "    a ──move──► b",
            "  you inspect: `a`",
            "  current owner: `b` (`a` no longer owns — follow chain above)",
            "  kind: Move",
            "  binding: moved (invalid)",
            "  moved to: `b`",
            "  borrowed by: (none)",
        ])
    );
}

#[test]
fn report_for_owner_with_borrower() {
    let mut st = moved_pair();
    st.declare_var("r", info("&String", OwnershipKind::Copy, true), false);
    st.add_borrow("b", false, 1, Some("r"));
    let bl = BlockLines { lines: vec![1, 2, 4], scope_exit_line: 9 };
    let rep = build_report("b", "main", "main.ny", 2, &st, &bl);
    assert_eq!(rep.role, InspectRole::Owner);
    assert_eq!(rep.moved_from.as_deref(), Some("a"));
    assert_eq!(rep.borrowed_by.len(), 1);
    assert_eq!(rep.borrowed_by[0].expires_after_line, 2);
    assert_eq!(
        rep.format_lines(),
        strings(&[
            "b (String) @ main.ny:2 in main:",
            "  ownership chain:",
            "    a ──move──► b",
            "  you inspect: `b`",
            "  current owner: `b` (this binding owns the value)",
            "  kind: Move",
            "  binding: owned (valid)",
            "  moved: no",
            "  moved from: `a`",
            "  borrowed by: `r` (&&String), expires after line 2",
            "  drop: auto-drop at scope exit (line 9)",
        ])
    );
}

#[test]
fn report_for_copy_and_unknown_bindings() {
    let mut st = BorrowState::new(OwnershipKind::Move);
    st.declare_var("n", info("i32", OwnershipKind::Copy, false), false);
    let bl = BlockLines { lines: vec![], scope_exit_line: 4 };
    let rep = build_report("n", "f", "x.ny", 1, &st, &bl);
    assert_eq!(rep.role, InspectRole::CopyBinding);
    assert!(rep.ownership_chain.is_empty());
    assert_eq!(rep.current_owner, "n");
    assert_eq!(
        rep.format_lines(),
        strings(&[
            "n (i32) @ x.ny:1 in f:",
            "  you inspect: `n`",
            "  current owner: `n` (Copy — independent value)",
            "  kind: Copy",
            "  binding: valid (Copy)",
            "  moved: no",
            "  borrowed by: (none)",
        ])
    );
    let missing = build_report("zz", "f", "x.ny", 1, &st, &bl);
    assert_eq!(missing.binding_status, BindingStatus::NotInScope);
    assert_eq!(missing.role, InspectRole::NotInScope);
    assert_eq!(missing.ty, "unknown");
}

#[test]
fn report_for_reference_binding() {
    let mut st = BorrowState::new(OwnershipKind::Move);
    st.declare_var("s", info("String", OwnershipKind::Move, false), false);
    st.declare_var("r", info("&String", OwnershipKind::Copy, true), false);
    st.ref_sources.insert("r", "s".to_string());
    st.add_borrow("s", false, 0, Some("r"));
    let bl = BlockLines { lines: vec![2], scope_exit_line: 6 };
    let rep = build_report("r", "g", "y.ny", 2, &st, &bl);
    assert_eq!(rep.role, InspectRole::Borrower);
    assert_eq!(rep.borrow_chain, strings(&["s", "r"]));
    assert_eq!(rep.heap_owner, "s");
    let lines = rep.format_lines();
    assert_eq!(lines[1], "  you inspect: `r` (borrower — does not own heap value)");
    assert_eq!(lines[2], "  heap owner: `s` (owns the Move value on the heap)");
    assert_eq!(lines[3], "  borrow chain:");
    assert_eq!(lines[4], "    s ◄──borrow── r");
    assert_eq!(lines[5], "  kind: Copy (reference)");
    assert_eq!(lines[6], "  binding: valid (borrow)");
    assert!(lines.contains(&"  borrows from: `s` (&)".to_string()));
}

fn entry(func: &str, name: &str, kind: OwnershipKind, status: BindingStatus) -> VerboseEntry {
    VerboseEntry { func: func.to_string(), name: name.to_string(), ty: "T".to_string(), kind, status }
}

#[test]
fn verbose_summary_groups_by_function_then_name() {
    let empty = OwnershipVerbosePlan { entries: vec![] };
    assert_eq!(empty.report_lines(), strings(&["ownership: no bindings tracked"]));
    let plan = OwnershipVerbosePlan {
        entries: vec![
            entry("main", "z", OwnershipKind::Move, BindingStatus::Valid),
            entry("helper", "b", OwnershipKind::Copy, BindingStatus::Valid),
            entry("main", "a", OwnershipKind::Move, BindingStatus::Moved),
        ],
    };
    assert_eq!(
        plan.report_lines(),
        strings(&[
            "ownership: 3 binding(s) at function exit",
            "  ownership: helper::b → Copy (valid)",
            "  ownership: main::a → Move (moved)",
            "  ownership: main::z → Move (valid)",
        ])
    );
}

#[test]
fn collector_answers_query_at_matching_line() {
    let st = moved_pair();
    let block = Block { statements: vec![assign_at("x", "dir/q.ny", 3), assign_at("y", "dir/q.ny", 7)] };
    let mut c = InspectCollector::for_query(InspectQuery {
        file: "q.ny".to_string(),
        line: 7,
        name: "b".to_string(),
    });
    c.set_func("main");
    c.on_after_stmt(&block.statements[0], &block, &st);
    assert!(c.query_result.is_none());
    c.on_after_stmt(&block.statements[1], &block, &st);
    let rep = c.query_result.as_ref().unwrap();
    assert_eq!(rep.func, "main");
    assert_eq!(rep.line, 7);
    assert_eq!(rep.file, "dir/q.ny");
    assert_eq!(rep.drop.as_ref().unwrap().at_scope_exit_line, 7);
}

#[test]
fn collector_records_bindings_at_block_exit() {
    let st = moved_pair();
    let mut c = InspectCollector::verbose();
    c.set_func("main");
    c.on_block_exit(&st);
    let plan = c.into_verbose_plan();
    assert_eq!(plan.entries.len(), 2);
    assert_eq!(plan.entries[0].name, "a");
    assert_eq!(plan.entries[0].status, BindingStatus::Moved);
    assert_eq!(plan.entries[1].name, "b");
    assert_eq!(plan.entries[1].status, BindingStatus::Valid);
    let mut q = InspectCollector::for_query(InspectQuery { file: "f".to_string(), line: 1, name: "a".to_string() });
    q.on_block_exit(&st);
    assert!(q.verbose_entries.is_empty());
}

#[test]
fn borrow_state_chains_and_provenance() {
    let mut st = moved_pair();
    st.declare_var("c", info("String", OwnershipKind::Move, false), false);
    st.mark_moved("b", record_move_origin(Some("take"), Span::default()));
    st.record_let_move("c", "b");
    assert_eq!(st.current_owner_of("a"), "c");
    assert_eq!(st.ownership_chain_for("b"), strings(&["a", "b", "c"]));
    st.clear_provenance_for("b");
    assert!(st.move_from.get("b").is_none());
    assert!(st.move_to.get("b").is_none());
    // the edge into `b` goes too, so `a` is its own owner again
    assert!(st.move_to.get("a").is_none());
    assert_eq!(st.current_owner_of("a"), "a");
}

#[test]
fn borrow_state_borrows_expire_and_merge() {
    let mut st = BorrowState::new(OwnershipKind::Move);
    st.add_borrow("x", true, 2, None);
    st.add_borrow("y", false, 5, None);
    assert!(st.borrowed_mut.contains("x"));
    assert!(st.borrowed_imm.contains("y"));
    // a new borrow of the same source replaces the old one
    st.add_borrow("x", false, 4, None);
    assert_eq!(st.active_borrows.len(), 2);
    assert!(!st.borrowed_mut.contains("x"));
    st.expire_borrows_before(5);
    assert_eq!(st.active_borrows.len(), 1);
    assert_eq!(st.active_borrows[0].source, "y");
    st.clear_borrows();
    assert!(st.active_borrows.is_empty());
    assert!(!st.borrowed_imm.contains("y"));

    let mut base = BorrowState::new(OwnershipKind::Move);
    let mut a = BorrowState::new(OwnershipKind::Move);
    let mut b = BorrowState::new(OwnershipKind::Move);
    a.mark_moved("p", record_move_origin(None, Span::default()));
    a.mark_moved("q", record_move_origin(None, Span::default()));
    b.mark_moved("p", record_move_origin(None, Span::default()));
    base.merge_branches(&a, &b);
    assert!(base.moved.contains_key("p"));
    assert!(!base.moved.contains_key("q"));
}
