//! Use-after-move and use-while-borrowed detection over expressions and statements.
use vstd::prelude::*;
use crate::ast::{
    ArrowBody, Block, Expression, ForKind, ForStmt, MatchArm, ParallelThreads, Statement,
    TemplatePart, UnaryOp,
};
use crate::borrow::{
    borrowed_sources, live_at, without_source, ActiveBorrow, BorrowError, BorrowState,
};
use crate::ast::{binding_name, spec_binding_name, variable_name, BinaryOp, CallExpr};
use crate::borrow::OwnershipKind;
use crate::names::NameMap;

verus! {

/// Variables an expression reads, in visiting order. References (`&x`,
/// `&mut x`) are not reads; `match` guards are not visited; arrow bodies are.
pub open spec fn used_expr(e: &Expression) -> Seq<Seq<char>>
    decreases e,
{
    match e {
        Expression::Variable { name, .. } => seq![name@],
        Expression::Unary(u) => if u.op == UnaryOp::Ref || u.op == UnaryOp::RefMut {
            seq![]
        } else {
            used_expr(&u.operand)
        },
        Expression::Binary(b) => used_expr(&b.left) + used_expr(&b.right),
        Expression::Call(c) => used_exprs(c.args@),
        Expression::FieldAccess(f) => used_expr(&f.object),
        Expression::StructLiteral(sl) => used_exprs(sl.spreads@) + used_fields(sl.fields@),
        Expression::Grouped(g) => used_expr(g),
        Expression::Match(m) => used_expr(&m.scrutinee) + used_arms(m.arms@),
        Expression::If(i) => used_expr(&i.condition) + used_block(&i.then_block) + used_block(&i.else_block),
        Expression::Index(ix) => used_expr(&ix.object) + used_expr(&ix.index),
        Expression::ArrayLiteral(al) => used_exprs(al.spreads@) + used_exprs(al.elems@),
        Expression::ArrayRepeat { element, .. } => used_expr(element),
        Expression::MethodCall(mc) => used_expr(&mc.object) + used_exprs(mc.args@),
        Expression::TemplateLiteral(t) => used_parts(t.parts@),
        Expression::ArrowFn(a) => match &a.body {
            ArrowBody::Expr(x) => used_expr(x),
            ArrowBody::Block(b) => used_stmts_moved(b.statements@),
        },
        _ => seq![],
    }
}

pub open spec fn used_exprs(s: Seq<Expression>) -> Seq<Seq<char>>
    decreases s,
{
    if s.len() == 0 {
        seq![]
    } else {
        used_exprs(s.subrange(0, s.len() - 1)) + used_expr(&s[s.len() - 1])
    }
}

pub open spec fn used_fields(s: Seq<(String, Expression)>) -> Seq<Seq<char>>
    decreases s,
{
    if s.len() == 0 {
        seq![]
    } else {
        used_fields(s.subrange(0, s.len() - 1)) + used_expr(&s[s.len() - 1].1)
    }
}

pub open spec fn used_arms(s: Seq<MatchArm>) -> Seq<Seq<char>>
    decreases s,
{
    if s.len() == 0 {
        seq![]
    } else {
        used_arms(s.subrange(0, s.len() - 1)) + used_block(&s[s.len() - 1].body)
    }
}

pub open spec fn used_parts(s: Seq<TemplatePart>) -> Seq<Seq<char>>
    decreases s,
{
    if s.len() == 0 {
        seq![]
    } else {
        used_parts(s.subrange(0, s.len() - 1)) + match &s[s.len() - 1] {
            TemplatePart::Interpolation(x) => used_expr(x),
            TemplatePart::Static(_) => seq![],
        }
    }
}

/// Reads by the expressions of a block, statement by statement.
pub open spec fn used_block(b: &Block) -> Seq<Seq<char>>
    decreases b,
{
    used_stmts(b.statements@)
}

pub open spec fn used_stmts(s: Seq<Statement>) -> Seq<Seq<char>>
    decreases s,
{
    if s.len() == 0 {
        seq![]
    } else {
        used_stmts(s.subrange(0, s.len() - 1)) + used_stmt(&s[s.len() - 1])
    }
}

/// Reads by the expressions of a statement and of its nested blocks.
pub open spec fn used_stmt(st: &Statement) -> Seq<Seq<char>>
    decreases st,
{
    match st {
        Statement::Let(l) => used_expr(&l.value),
        Statement::Const(l) => used_expr(&l.value),
        Statement::Assign(a) => used_expr(&a.target) + used_expr(&a.value),
        Statement::Return(r) => match &r.value {
            Some(v) => used_expr(v),
            None => seq![],
        },
        Statement::If(i) => used_expr(&i.condition) + used_block(&i.then_block) + match &i.else_block {
            Some(el) => used_block(el),
            None => seq![],
        },
        Statement::While(w) => used_expr(&w.condition) + used_block(&w.body),
        Statement::For(fo) => (match &fo.kind {
            ForKind::Range { start, end } => used_expr(start) + used_expr(end),
            ForKind::Iterable { iterable } => used_expr(iterable),
        }) + used_block(&fo.body),
        Statement::Expression(x) => used_expr(x),
        Statement::Defer(x) => used_expr(x),
        Statement::Print(p) => used_exprs(p.args@) + match &p.color {
            Some(c) => used_expr(c),
            None => seq![],
        },
        Statement::Spawn(b) => used_block(b),
        Statement::Unsafe(b) => used_block(b),
        Statement::Benchmark(b) => used_block(b),
        _ => seq![],
    }
}

/// Reads of the expressions a `for` header holds: the range or iterable, the
/// thread count of `parallel(...)` and the label of `progress(...)`.
pub open spec fn used_for_header(fo: &ForStmt) -> Seq<Seq<char>>
    decreases fo,
{
    (match &fo.kind {
        ForKind::Range { start, end } => used_expr(start) + used_expr(end),
        ForKind::Iterable { iterable } => used_expr(iterable),
    }) + (match &fo.parallel {
        Some(cfg) => match &cfg.threads {
            ParallelThreads::Auto => seq![],
            ParallelThreads::Max(x) => used_expr(x),
            ParallelThreads::Exact(x) => used_expr(x),
            ParallelThreads::CpuPercent(x) => used_expr(x),
        },
        None => seq![],
    }) + match &fo.progress {
        Some(pc) => match &pc.label {
            Some(l) => used_expr(l),
            None => seq![],
        },
        None => seq![],
    }
}

pub open spec fn used_stmts_moved(s: Seq<Statement>) -> Seq<Seq<char>>
    decreases s,
{
    if s.len() == 0 {
        seq![]
    } else {
        used_stmts_moved(s.subrange(0, s.len() - 1)) + used_stmt_moved(&s[s.len() - 1])
    }
}

/// Reads that the move check visits in a statement of a closure body.
pub open spec fn used_stmt_moved(st: &Statement) -> Seq<Seq<char>>
    decreases st,
{
    match st {
        Statement::Let(l) => used_expr(&l.value),
        Statement::Const(l) => used_expr(&l.value),
        Statement::Assign(a) => used_expr(&a.target) + used_expr(&a.value),
        Statement::Return(r) => match &r.value {
            Some(v) => used_expr(v),
            None => seq![],
        },
        Statement::Expression(x) => used_expr(x),
        Statement::Defer(x) => used_expr(x),
        Statement::Print(p) => used_exprs(p.args@) + match &p.color {
            Some(c) => used_expr(c),
            None => seq![],
        },
        Statement::If(i) => used_expr(&i.condition) + used_stmts_moved(i.then_block.statements@) + match &i.else_block {
            Some(el) => used_stmts_moved(el.statements@),
            None => seq![],
        },
        Statement::While(w) => used_expr(&w.condition) + used_stmts_moved(w.body.statements@),
        Statement::For(fo) => used_for_header(fo) + used_stmts_moved(fo.body.statements@),
        _ => seq![],
    }
}

/// Does reading `n` in state `st` conflict (moved or borrowed)?
pub open spec fn use_conflicts(st: &BorrowState, n: Seq<char>) -> bool {
    st.moved.view().contains_key(n) || st.is_borrowed(n)
}

/// The reads among `names` that conflict, in order.
pub open spec fn conflicted(st: &BorrowState, names: Seq<Seq<char>>) -> Seq<Seq<char>>
    decreases names.len(),
{
    if names.len() == 0 {
        seq![]
    } else if use_conflicts(st, names.last()) {
        conflicted(st, names.drop_last()).push(names.last())
    } else {
        conflicted(st, names.drop_last())
    }
}

pub proof fn lemma_conflicted_concat(st: &BorrowState, a: Seq<Seq<char>>, b: Seq<Seq<char>>)
    ensures
        conflicted(st, a + b) == conflicted(st, a) + conflicted(st, b),
    decreases b.len(),
{
    if b.len() == 0 {
        assert(a + b =~= a);
        assert(conflicted(st, a) + conflicted(st, b) =~= conflicted(st, a));
    } else {
        assert((a + b).drop_last() =~= a + b.drop_last());
        assert((a + b).last() == b.last());
        lemma_conflicted_concat(st, a, b.drop_last());
        if use_conflicts(st, b.last()) {
            assert(conflicted(st, a) + conflicted(st, b) =~= (conflicted(st, a) + conflicted(st, b.drop_last())).push(b.last()));
        } else {
            assert(conflicted(st, a) + conflicted(st, b) =~= conflicted(st, a) + conflicted(st, b.drop_last()));
        }
    }
}

/// The error `use_conflict` reports for reading `n`.
pub open spec fn use_error_for(e: BorrowError, st: &BorrowState, n: Seq<char>) -> bool {
    match e {
        BorrowError::UseAfterMove { name, callee } => name@ == n && st.moved.view().contains_key(n)
            && callee == st.moved.view()[n].callee,
        BorrowError::UseWhileMutBorrowed { name } => name@ == n && !st.moved.view().contains_key(n)
            && st.borrowed_mut.view().contains(n),
        BorrowError::UseWhileBorrowed { name } => name@ == n && !st.moved.view().contains_key(n)
            && !st.borrowed_mut.view().contains(n) && st.borrowed_imm.view().contains(n),
        _ => false,
    }
}

/// `new` is `old` followed by one use error per conflicting read of `names`.
pub open spec fn reported(st: &BorrowState, old: Seq<BorrowError>, new: Seq<BorrowError>, names: Seq<Seq<char>>) -> bool {
    let c = conflicted(st, names);
    &&& new.len() == old.len() + c.len()
    &&& new.take(old.len() as int) == old
    &&& forall|i: int| 0 <= i < c.len() ==> use_error_for(#[trigger] new[old.len() + i], st, c[i])
}

proof fn lemma_reported_trans(
    st: &BorrowState,
    e0: Seq<BorrowError>,
    e1: Seq<BorrowError>,
    e2: Seq<BorrowError>,
    a: Seq<Seq<char>>,
    b: Seq<Seq<char>>,
)
    requires
        reported(st, e0, e1, a),
        reported(st, e1, e2, b),
    ensures
        reported(st, e0, e2, a + b),
        conflicted(st, a + b).len() == conflicted(st, a).len() + conflicted(st, b).len(),
{
    lemma_conflicted_concat(st, a, b);
    let ca = conflicted(st, a);
    let cb = conflicted(st, b);
    assert(e2.take(e0.len() as int) =~= e0) by {
        assert forall|i: int| 0 <= i < e0.len() implies e2[i] == e0[i] by {
            assert(e2.take(e1.len() as int)[i] == e1[i]);
            assert(e1.take(e0.len() as int)[i] == e0[i]);
        }
    }
    assert forall|i: int| 0 <= i < ca.len() + cb.len() implies use_error_for(#[trigger] e2[e0.len() + i], st, (ca + cb)[i]) by {
        if i < ca.len() {
            assert(e2.take(e1.len() as int)[e0.len() + i] == e1[e0.len() + i]);
            assert(use_error_for(e1[e0.len() + i], st, ca[i]));
        } else {
            let j = i - ca.len();
            assert(use_error_for(e2[e1.len() + j], st, cb[j]));
        }
    }
}

proof fn lemma_reported_refl(st: &BorrowState, e: Seq<BorrowError>)
    ensures
        reported(st, e, e, seq![]),
{
    assert(e.take(e.len() as int) =~= e);
}

/// Reports the read of `name`: pushes the use error when it conflicts.
fn visit_var(name: &str, state: &BorrowState, errors: &mut Vec<BorrowError>, found: &mut bool)
    requires
        state.wf(),
    ensures
        reported(state, old(errors)@, final(errors)@, seq![name@]),
        *final(found) == (*old(found) || conflicted(state, seq![name@]).len() > 0),
{
    let ghost e0 = errors@;
    proof {
        assert(seq![name@].drop_last() =~= Seq::<Seq<char>>::empty());
        assert(seq![name@].last() == name@);
        assert(conflicted(state, Seq::<Seq<char>>::empty()) =~= Seq::<Seq<char>>::empty());
    }
    match state.use_conflict(name) {
        Some(err) => {
            errors.push(err);
            *found = true;
            proof {
                assert(errors@.take(e0.len() as int) =~= e0);
                assert(conflicted(state, seq![name@]) =~= seq![name@]);
            }
        },
        None => {
            proof {
                assert(errors@.take(e0.len() as int) =~= e0);
            }
        },
    }
}


/// Checks the reads of an expression against `state`: pushes one use error per
/// read of a moved or borrowed binding, and sets `found` when there is one.
pub fn visit_expr(e: &Expression, state: &BorrowState, errors: &mut Vec<BorrowError>, found: &mut bool)
    requires
        state.wf(),
    ensures
        reported(state, old(errors)@, final(errors)@, used_expr(e)),
        *final(found) == (*old(found) || conflicted(state, used_expr(e)).len() > 0),
    decreases e,
{
    let ghost e0 = errors@;
    match e {
        Expression::Variable { name, .. } => visit_var(name.as_str(), state, errors, found),
        Expression::Unary(u) => {
            if u.op == UnaryOp::Ref || u.op == UnaryOp::RefMut {
                proof {
                    lemma_reported_refl(state, errors@);
                }
            } else {
                visit_expr(&u.operand, state, errors, found);
            }
        },
        Expression::Binary(b) => {
            visit_expr(&b.left, state, errors, found);
            let ghost e1 = errors@;
            visit_expr(&b.right, state, errors, found);
            proof {
                lemma_reported_trans(state, e0, e1, errors@, used_expr(&b.left), used_expr(&b.right));
            }
        },
        Expression::Call(c) => visit_exprs(&c.args, state, errors, found),
        Expression::FieldAccess(f) => visit_expr(&f.object, state, errors, found),
        Expression::StructLiteral(sl) => {
            visit_exprs(&sl.spreads, state, errors, found);
            let ghost e1 = errors@;
            visit_fields(&sl.fields, state, errors, found);
            proof {
                lemma_reported_trans(state, e0, e1, errors@, used_exprs(sl.spreads@), used_fields(sl.fields@));
            }
        },
        Expression::Grouped(g) => visit_expr(g, state, errors, found),
        Expression::Match(m) => {
            visit_expr(&m.scrutinee, state, errors, found);
            let ghost e1 = errors@;
            visit_arms(&m.arms, state, errors, found);
            proof {
                lemma_reported_trans(state, e0, e1, errors@, used_expr(&m.scrutinee), used_arms(m.arms@));
            }
        },
        Expression::If(i) => {
            visit_expr(&i.condition, state, errors, found);
            let ghost e1 = errors@;
            visit_block(&i.then_block, state, errors, found);
            let ghost e2 = errors@;
            proof {
                lemma_reported_trans(state, e0, e1, e2, used_expr(&i.condition), used_block(&i.then_block));
            }
            visit_block(&i.else_block, state, errors, found);
            proof {
                lemma_reported_trans(
                    state,
                    e0,
                    e2,
                    errors@,
                    used_expr(&i.condition) + used_block(&i.then_block),
                    used_block(&i.else_block),
                );
            }
        },
        Expression::Index(ix) => {
            visit_expr(&ix.object, state, errors, found);
            let ghost e1 = errors@;
            visit_expr(&ix.index, state, errors, found);
            proof {
                lemma_reported_trans(state, e0, e1, errors@, used_expr(&ix.object), used_expr(&ix.index));
            }
        },
        Expression::ArrayLiteral(al) => {
            visit_exprs(&al.spreads, state, errors, found);
            let ghost e1 = errors@;
            visit_exprs(&al.elems, state, errors, found);
            proof {
                lemma_reported_trans(state, e0, e1, errors@, used_exprs(al.spreads@), used_exprs(al.elems@));
            }
        },
        Expression::ArrayRepeat { element, .. } => visit_expr(element, state, errors, found),
        Expression::MethodCall(mc) => {
            visit_expr(&mc.object, state, errors, found);
            let ghost e1 = errors@;
            visit_exprs(&mc.args, state, errors, found);
            proof {
                lemma_reported_trans(state, e0, e1, errors@, used_expr(&mc.object), used_exprs(mc.args@));
            }
        },
        Expression::TemplateLiteral(t) => visit_parts(&t.parts, state, errors, found),
        Expression::ArrowFn(a) => match &a.body {
            ArrowBody::Expr(x) => visit_expr(x, state, errors, found),
            ArrowBody::Block(b) => visit_stmts_moved(&b.statements, state, errors, found),
        },
        _ => {
            proof {
                lemma_reported_refl(state, errors@);
            }
        },
    }
}

fn visit_exprs(v: &Vec<Expression>, state: &BorrowState, errors: &mut Vec<BorrowError>, found: &mut bool)
    requires
        state.wf(),
    ensures
        reported(state, old(errors)@, final(errors)@, used_exprs(v@)),
        *final(found) == (*old(found) || conflicted(state, used_exprs(v@)).len() > 0),
    decreases v,
{
    let ghost e0 = errors@;
    let ghost f0 = *found;
    let mut i: usize = 0;
    proof {
        lemma_reported_refl(state, errors@);
        assert(v@.take(0) =~= Seq::<Expression>::empty());
    }
    while i < v.len()
        invariant
            state.wf(),
            i <= v@.len(),
            reported(state, e0, errors@, used_exprs(v@.take(i as int))),
            *found == (f0 || conflicted(state, used_exprs(v@.take(i as int))).len() > 0),
        decreases v@.len() - i,
    {
        let ghost e1 = errors@;
        visit_expr(&v[i], state, errors, found);
        proof {
            assert(v@.take(i + 1).subrange(0, i as int) =~= v@.take(i as int));
            lemma_reported_trans(state, e0, e1, errors@, used_exprs(v@.take(i as int)), used_expr(&v@[i as int]));
        }
        i = i + 1;
    }
    proof {
        assert(v@.take(v@.len() as int) =~= v@);
    }
}

fn visit_fields(v: &Vec<(String, Expression)>, state: &BorrowState, errors: &mut Vec<BorrowError>, found: &mut bool)
    requires
        state.wf(),
    ensures
        reported(state, old(errors)@, final(errors)@, used_fields(v@)),
        *final(found) == (*old(found) || conflicted(state, used_fields(v@)).len() > 0),
    decreases v,
{
    let ghost e0 = errors@;
    let ghost f0 = *found;
    let mut i: usize = 0;
    proof {
        lemma_reported_refl(state, errors@);
        assert(v@.take(0) =~= Seq::<(String, Expression)>::empty());
    }
    while i < v.len()
        invariant
            state.wf(),
            i <= v@.len(),
            reported(state, e0, errors@, used_fields(v@.take(i as int))),
            *found == (f0 || conflicted(state, used_fields(v@.take(i as int))).len() > 0),
        decreases v@.len() - i,
    {
        let ghost e1 = errors@;
        visit_expr(&v[i].1, state, errors, found);
        proof {
            assert(v@.take(i + 1).subrange(0, i as int) =~= v@.take(i as int));
            lemma_reported_trans(state, e0, e1, errors@, used_fields(v@.take(i as int)), used_expr(&v@[i as int].1));
        }
        i = i + 1;
    }
    proof {
        assert(v@.take(v@.len() as int) =~= v@);
    }
}

fn visit_arms(v: &Vec<MatchArm>, state: &BorrowState, errors: &mut Vec<BorrowError>, found: &mut bool)
    requires
        state.wf(),
    ensures
        reported(state, old(errors)@, final(errors)@, used_arms(v@)),
        *final(found) == (*old(found) || conflicted(state, used_arms(v@)).len() > 0),
    decreases v,
{
    let ghost e0 = errors@;
    let ghost f0 = *found;
    let mut i: usize = 0;
    proof {
        lemma_reported_refl(state, errors@);
        assert(v@.take(0) =~= Seq::<MatchArm>::empty());
    }
    while i < v.len()
        invariant
            state.wf(),
            i <= v@.len(),
            reported(state, e0, errors@, used_arms(v@.take(i as int))),
            *found == (f0 || conflicted(state, used_arms(v@.take(i as int))).len() > 0),
        decreases v@.len() - i,
    {
        let ghost e1 = errors@;
        visit_block(&v[i].body, state, errors, found);
        proof {
            assert(v@.take(i + 1).subrange(0, i as int) =~= v@.take(i as int));
            lemma_reported_trans(state, e0, e1, errors@, used_arms(v@.take(i as int)), used_block(&v@[i as int].body));
        }
        i = i + 1;
    }
    proof {
        assert(v@.take(v@.len() as int) =~= v@);
    }
}

fn visit_parts(v: &Vec<TemplatePart>, state: &BorrowState, errors: &mut Vec<BorrowError>, found: &mut bool)
    requires
        state.wf(),
    ensures
        reported(state, old(errors)@, final(errors)@, used_parts(v@)),
        *final(found) == (*old(found) || conflicted(state, used_parts(v@)).len() > 0),
    decreases v,
{
    let ghost e0 = errors@;
    let ghost f0 = *found;
    let mut i: usize = 0;
    proof {
        lemma_reported_refl(state, errors@);
        assert(v@.take(0) =~= Seq::<TemplatePart>::empty());
    }
    while i < v.len()
        invariant
            state.wf(),
            i <= v@.len(),
            reported(state, e0, errors@, used_parts(v@.take(i as int))),
            *found == (f0 || conflicted(state, used_parts(v@.take(i as int))).len() > 0),
        decreases v@.len() - i,
    {
        let ghost e1 = errors@;
        match &v[i] {
            TemplatePart::Interpolation(x) => visit_expr(x, state, errors, found),
            TemplatePart::Static(_) => {
                proof {
                    lemma_reported_refl(state, errors@);
                }
            },
        }
        proof {
            assert(v@.take(i + 1).subrange(0, i as int) =~= v@.take(i as int));
            lemma_reported_trans(state, e0, e1, errors@, used_parts(v@.take(i as int)), match &v@[i as int] {
                TemplatePart::Interpolation(x) => used_expr(x),
                TemplatePart::Static(_) => seq![],
            });
        }
        i = i + 1;
    }
    proof {
        assert(v@.take(v@.len() as int) =~= v@);
    }
}

fn visit_block(b: &Block, state: &BorrowState, errors: &mut Vec<BorrowError>, found: &mut bool)
    requires
        state.wf(),
    ensures
        reported(state, old(errors)@, final(errors)@, used_block(b)),
        *final(found) == (*old(found) || conflicted(state, used_block(b)).len() > 0),
    decreases b,
{
    let v = &b.statements;
    let ghost e0 = errors@;
    let ghost f0 = *found;
    let mut i: usize = 0;
    proof {
        lemma_reported_refl(state, errors@);
        assert(v@.take(0) =~= Seq::<Statement>::empty());
    }
    while i < v.len()
        invariant
            v == &b.statements,
            state.wf(),
            i <= v@.len(),
            reported(state, e0, errors@, used_stmts(v@.take(i as int))),
            *found == (f0 || conflicted(state, used_stmts(v@.take(i as int))).len() > 0),
        decreases v@.len() - i,
    {
        let ghost e1 = errors@;
        visit_stmt(&v[i], state, errors, found);
        proof {
            assert(v@.take(i + 1).subrange(0, i as int) =~= v@.take(i as int));
            lemma_reported_trans(state, e0, e1, errors@, used_stmts(v@.take(i as int)), used_stmt(&v@[i as int]));
        }
        i = i + 1;
    }
    proof {
        assert(v@.take(v@.len() as int) =~= v@);
    }
}

fn visit_opt_expr(o: &Option<Expression>, state: &BorrowState, errors: &mut Vec<BorrowError>, found: &mut bool)
    requires
        state.wf(),
    ensures
        reported(state, old(errors)@, final(errors)@, match o {
            Some(x) => used_expr(x),
            None => seq![],
        }),
        *final(found) == (*old(found) || conflicted(state, match o {
            Some(x) => used_expr(x),
            None => seq![],
        }).len() > 0),
    decreases o,
{
    match o {
        Some(x) => visit_expr(x, state, errors, found),
        None => {
            proof {
                lemma_reported_refl(state, errors@);
            }
        },
    }
}

fn visit_stmt(st: &Statement, state: &BorrowState, errors: &mut Vec<BorrowError>, found: &mut bool)
    requires
        state.wf(),
    ensures
        reported(state, old(errors)@, final(errors)@, used_stmt(st)),
        *final(found) == (*old(found) || conflicted(state, used_stmt(st)).len() > 0),
    decreases st,
{
    let ghost e0 = errors@;
    match st {
        Statement::Let(l) => visit_expr(&l.value, state, errors, found),
        Statement::Const(l) => visit_expr(&l.value, state, errors, found),
        Statement::Assign(a) => {
            visit_expr(&a.target, state, errors, found);
            let ghost e1 = errors@;
            visit_expr(&a.value, state, errors, found);
            proof {
                lemma_reported_trans(state, e0, e1, errors@, used_expr(&a.target), used_expr(&a.value));
            }
        },
        Statement::Return(r) => visit_opt_expr(&r.value, state, errors, found),
        Statement::If(i) => {
            visit_expr(&i.condition, state, errors, found);
            let ghost e1 = errors@;
            visit_block(&i.then_block, state, errors, found);
            let ghost e2 = errors@;
            proof {
                lemma_reported_trans(state, e0, e1, e2, used_expr(&i.condition), used_block(&i.then_block));
            }
            match &i.else_block {
                Some(el) => visit_block(el, state, errors, found),
                None => {
                    proof {
                        lemma_reported_refl(state, errors@);
                    }
                },
            }
            proof {
                lemma_reported_trans(
                    state,
                    e0,
                    e2,
                    errors@,
                    used_expr(&i.condition) + used_block(&i.then_block),
                    match &i.else_block {
                        Some(el) => used_block(el),
                        None => seq![],
                    },
                );
            }
        },
        Statement::While(w) => {
            visit_expr(&w.condition, state, errors, found);
            let ghost e1 = errors@;
            visit_block(&w.body, state, errors, found);
            proof {
                lemma_reported_trans(state, e0, e1, errors@, used_expr(&w.condition), used_block(&w.body));
            }
        },
        Statement::For(fo) => {
            let ghost hk = match &fo.kind {
                ForKind::Range { start, end } => used_expr(start) + used_expr(end),
                ForKind::Iterable { iterable } => used_expr(iterable),
            };
            match &fo.kind {
                ForKind::Range { start, end } => {
                    visit_expr(start, state, errors, found);
                    let ghost ea = errors@;
                    visit_expr(end, state, errors, found);
                    proof {
                        lemma_reported_trans(state, e0, ea, errors@, used_expr(start), used_expr(end));
                    }
                },
                ForKind::Iterable { iterable } => visit_expr(iterable, state, errors, found),
            }
            let ghost e1 = errors@;
            visit_block(&fo.body, state, errors, found);
            proof {
                lemma_reported_trans(state, e0, e1, errors@, hk, used_block(&fo.body));
            }
        },
        Statement::Expression(x) => visit_expr(x, state, errors, found),
        Statement::Defer(x) => visit_expr(x, state, errors, found),
        Statement::Print(p) => {
            visit_exprs(&p.args, state, errors, found);
            let ghost e1 = errors@;
            visit_opt_expr(&p.color, state, errors, found);
            proof {
                lemma_reported_trans(state, e0, e1, errors@, used_exprs(p.args@), match &p.color {
                    Some(c) => used_expr(c),
                    None => seq![],
                });
            }
        },
        Statement::Spawn(b) => visit_block(b, state, errors, found),
        Statement::Unsafe(b) => visit_block(b, state, errors, found),
        Statement::Benchmark(b) => visit_block(b, state, errors, found),
        _ => {
            proof {
                lemma_reported_refl(state, errors@);
            }
        },
    }
}

fn visit_stmts_moved(v: &Vec<Statement>, state: &BorrowState, errors: &mut Vec<BorrowError>, found: &mut bool)
    requires
        state.wf(),
    ensures
        reported(state, old(errors)@, final(errors)@, used_stmts_moved(v@)),
        *final(found) == (*old(found) || conflicted(state, used_stmts_moved(v@)).len() > 0),
    decreases v,
{
    let ghost e0 = errors@;
    let ghost f0 = *found;
    let mut i: usize = 0;
    proof {
        lemma_reported_refl(state, errors@);
        assert(v@.take(0) =~= Seq::<Statement>::empty());
    }
    while i < v.len()
        invariant
            state.wf(),
            i <= v@.len(),
            reported(state, e0, errors@, used_stmts_moved(v@.take(i as int))),
            *found == (f0 || conflicted(state, used_stmts_moved(v@.take(i as int))).len() > 0),
        decreases v@.len() - i,
    {
        let ghost e1 = errors@;
        visit_stmt_for_moved(&v[i], state, errors, found);
        proof {
            assert(v@.take(i + 1).subrange(0, i as int) =~= v@.take(i as int));
            lemma_reported_trans(state, e0, e1, errors@, used_stmts_moved(v@.take(i as int)), used_stmt_moved(&v@[i as int]));
        }
        i = i + 1;
    }
    proof {
        assert(v@.take(v@.len() as int) =~= v@);
    }
}

/// Checks the reads of the `for` header expressions.
fn visit_for_header(fo: &ForStmt, state: &BorrowState, errors: &mut Vec<BorrowError>, found: &mut bool)
    requires
        state.wf(),
    ensures
        reported(state, old(errors)@, final(errors)@, used_for_header(fo)),
        *final(found) == (*old(found) || conflicted(state, used_for_header(fo)).len() > 0),
    decreases fo,
{
    let ghost e0 = errors@;
    let ghost hk = match &fo.kind {
        ForKind::Range { start, end } => used_expr(start) + used_expr(end),
        ForKind::Iterable { iterable } => used_expr(iterable),
    };
    let ghost hp = match &fo.parallel {
        Some(cfg) => match &cfg.threads {
            ParallelThreads::Auto => seq![],
            ParallelThreads::Max(x) => used_expr(x),
            ParallelThreads::Exact(x) => used_expr(x),
            ParallelThreads::CpuPercent(x) => used_expr(x),
        },
        None => seq![],
    };
    let ghost hl = match &fo.progress {
        Some(pc) => match &pc.label {
            Some(l) => used_expr(l),
            None => seq![],
        },
        None => seq![],
    };
    match &fo.kind {
        ForKind::Range { start, end } => {
            visit_expr(start, state, errors, found);
            let ghost ea = errors@;
            visit_expr(end, state, errors, found);
            proof {
                lemma_reported_trans(state, e0, ea, errors@, used_expr(start), used_expr(end));
            }
        },
        ForKind::Iterable { iterable } => visit_expr(iterable, state, errors, found),
    }
    let ghost e1 = errors@;
    match &fo.parallel {
        Some(cfg) => match &cfg.threads {
            ParallelThreads::Auto => {
                proof {
                    lemma_reported_refl(state, errors@);
                }
            },
            ParallelThreads::Max(x) => visit_expr(x, state, errors, found),
            ParallelThreads::Exact(x) => visit_expr(x, state, errors, found),
            ParallelThreads::CpuPercent(x) => visit_expr(x, state, errors, found),
        },
        None => {
            proof {
                lemma_reported_refl(state, errors@);
            }
        },
    }
    let ghost e2 = errors@;
    proof {
        lemma_reported_trans(state, e0, e1, e2, hk, hp);
    }
    match &fo.progress {
        Some(pc) => visit_opt_expr(&pc.label, state, errors, found),
        None => {
            proof {
                lemma_reported_refl(state, errors@);
            }
        },
    }
    proof {
        lemma_reported_trans(state, e0, e2, errors@, hk + hp, hl);
    }
}

/// Checks the reads of a statement inside a closure body.
pub fn visit_stmt_for_moved(st: &Statement, state: &BorrowState, errors: &mut Vec<BorrowError>, found: &mut bool)
    requires
        state.wf(),
    ensures
        reported(state, old(errors)@, final(errors)@, used_stmt_moved(st)),
        *final(found) == (*old(found) || conflicted(state, used_stmt_moved(st)).len() > 0),
    decreases st,
{
    let ghost e0 = errors@;
    match st {
        Statement::Let(l) => visit_expr(&l.value, state, errors, found),
        Statement::Const(l) => visit_expr(&l.value, state, errors, found),
        Statement::Assign(a) => {
            visit_expr(&a.target, state, errors, found);
            let ghost e1 = errors@;
            visit_expr(&a.value, state, errors, found);
            proof {
                lemma_reported_trans(state, e0, e1, errors@, used_expr(&a.target), used_expr(&a.value));
            }
        },
        Statement::Return(r) => visit_opt_expr(&r.value, state, errors, found),
        Statement::Expression(x) => visit_expr(x, state, errors, found),
        Statement::Defer(x) => visit_expr(x, state, errors, found),
        Statement::Print(p) => {
            visit_exprs(&p.args, state, errors, found);
            let ghost e1 = errors@;
            visit_opt_expr(&p.color, state, errors, found);
            proof {
                lemma_reported_trans(state, e0, e1, errors@, used_exprs(p.args@), match &p.color {
                    Some(c) => used_expr(c),
                    None => seq![],
                });
            }
        },
        Statement::If(i) => {
            visit_expr(&i.condition, state, errors, found);
            let ghost e1 = errors@;
            visit_stmts_moved(&i.then_block.statements, state, errors, found);
            let ghost e2 = errors@;
            proof {
                lemma_reported_trans(state, e0, e1, e2, used_expr(&i.condition), used_stmts_moved(i.then_block.statements@));
            }
            match &i.else_block {
                Some(el) => visit_stmts_moved(&el.statements, state, errors, found),
                None => {
                    proof {
                        lemma_reported_refl(state, errors@);
                    }
                },
            }
            proof {
                lemma_reported_trans(
                    state,
                    e0,
                    e2,
                    errors@,
                    used_expr(&i.condition) + used_stmts_moved(i.then_block.statements@),
                    match &i.else_block {
                        Some(el) => used_stmts_moved(el.statements@),
                        None => seq![],
                    },
                );
            }
        },
        Statement::While(w) => {
            visit_expr(&w.condition, state, errors, found);
            let ghost e1 = errors@;
            visit_stmts_moved(&w.body.statements, state, errors, found);
            proof {
                lemma_reported_trans(state, e0, e1, errors@, used_expr(&w.condition), used_stmts_moved(w.body.statements@));
            }
        },
        Statement::For(fo) => {
            visit_for_header(fo, state, errors, found);
            let ghost e1 = errors@;
            visit_stmts_moved(&fo.body.statements, state, errors, found);
            proof {
                lemma_reported_trans(state, e0, e1, errors@, used_for_header(fo), used_stmts_moved(fo.body.statements@));
            }
        },
        _ => {
            proof {
                lemma_reported_refl(state, errors@);
            }
        },
    }
}

/// Does `expr` read a moved or borrowed binding? Each such read adds its use error.
pub fn uses_moved(e: &Expression, state: &BorrowState, errors: &mut Vec<BorrowError>) -> (r: bool)
    requires
        state.wf(),
    ensures
        reported(state, old(errors)@, final(errors)@, used_expr(e)),
        r == (conflicted(state, used_expr(e)).len() > 0),
        r == (final(errors)@.len() > old(errors)@.len()),
{
    let mut found = false;
    visit_expr(e, state, errors, &mut found);
    found
}


/// Built-in methods that take their receiver by reference.
pub open spec fn receiver_borrowing_methods() -> Seq<Seq<char>> {
    seq![
        "clone"@, "length"@, "len"@, "split"@, "trim"@, "contains"@, "starts_with"@, "ends_with"@,
        "replace"@, "replacen"@, "to_upper"@, "to_lower"@, "sort"@, "sort_by"@, "strip_suffix"@,
        "to_snake_case"@, "to_lowercase"@, "to_titlecase"@, "to_capitalize"@, "to_camel_case"@,
        "to_kebab_case"@, "to_pascal_case"@, "to_screaming_snake_case"@, "to_train_case"@,
        "to_dot_case"@, "includes"@, "strip_prefix"@, "index"@, "is_empty"@, "last_index"@,
        "repeat"@, "trim_end"@, "trim_start"@, "splitn"@, "count"@, "fields"@, "pad_end"@,
        "pad_start"@, "split_once"@, "compare"@, "equal_fold"@, "index_byte"@, "last_index_byte"@,
        "after_sep"@, "char_at"@, "pop"@, "push_char"@, "strip_ansi"@, "substring"@, "before_sep"@,
        "collapse_ws"@, "is_ascii"@, "common_prefix_len"@, "is_alnum"@, "is_alpha"@, "is_digit"@,
        "pad_center"@, "reverse"@, "escape_json"@, "split_after"@, "truncate"@,
    ]
}

/// Does calling `method` borrow its receiver (rather than move it)? Every
/// `String_*` helper does, and so do the listed built-ins.
pub open spec fn spec_borrows_receiver(method: Seq<char>) -> bool {
    crate::analysis::starts_with(method, "String_"@) || receiver_borrowing_methods().contains(method)
}

pub fn builtin_method_borrows_receiver(method: &str) -> (r: bool)
    ensures
        r == spec_borrows_receiver(method@),
{
    let m = crate::text::chars_of(method);
    let pre = crate::text::chars_of("String_");
    if m.len() >= pre.len() {
        let head = crate::text::slice_to_vec(m.as_slice(), 0, pre.len());
        assert(head@ =~= m@.take(pre@.len() as int));
        if crate::text::chars_eq(head.as_slice(), pre.as_slice()) {
            return true;
        }
    }
    let names: Vec<&str> = vec![
        "clone", "length", "len", "split", "trim", "contains", "starts_with", "ends_with",
        "replace", "replacen", "to_upper", "to_lower", "sort", "sort_by", "strip_suffix",
        "to_snake_case", "to_lowercase", "to_titlecase", "to_capitalize", "to_camel_case",
        "to_kebab_case", "to_pascal_case", "to_screaming_snake_case", "to_train_case",
        "to_dot_case", "includes", "strip_prefix", "index", "is_empty", "last_index", "repeat",
        "trim_end", "trim_start", "splitn", "count", "fields", "pad_end", "pad_start",
        "split_once", "compare", "equal_fold", "index_byte", "last_index_byte", "after_sep",
        "char_at", "pop", "push_char", "strip_ansi", "substring", "before_sep", "collapse_ws",
        "is_ascii", "common_prefix_len", "is_alnum", "is_alpha", "is_digit", "pad_center",
        "reverse", "escape_json", "split_after", "truncate",
    ];
    let ghost list = receiver_borrowing_methods();
    assert(names@.map_values(|n: &str| n@) =~= list);
    let mut i: usize = 0;
    while i < names.len()
        invariant
            names@.map_values(|n: &str| n@) == list,
            list == receiver_borrowing_methods(),
            !crate::analysis::starts_with(method@, "String_"@),
            i <= names@.len(),
            forall|j: int| 0 <= j < i ==> list[j] != method@,
        decreases names@.len() - i,
    {
        if str_eq_local(names[i], method) {
            assert(list[i as int] == method@);
            return true;
        }
        i = i + 1;
    }
    false
}

fn str_eq_local(a: &str, b: &str) -> (r: bool)
    ensures
        r == (a@ == b@),
{
    crate::text::str_eq(a, b)
}


/// An active borrow as plain values: source, mutability, last statement, borrower.
pub open spec fn bview(b: ActiveBorrow) -> (Seq<char>, bool, usize, Option<Seq<char>>) {
    (b.source@, b.mutable, b.expires_after, match b.borrower {
        Some(s) => Some(s@),
        None => None,
    })
}

/// The active borrows as plain values.
pub open spec fn bviews(bs: Seq<ActiveBorrow>) -> Seq<(Seq<char>, bool, usize, Option<Seq<char>>)> {
    bs.map_values(|b: ActiveBorrow| bview(b))
}

/// Is `n` borrowed (mutably when `mutable`) by one of `bs`?
pub open spec fn held(bs: Seq<(Seq<char>, bool, usize, Option<Seq<char>>)>, n: Seq<char>, mutable: bool) -> bool {
    exists|i: int| 0 <= i < bs.len() && (#[trigger] bs[i]).0 == n && bs[i].1 == mutable
}

/// `bs` without the borrows of `n`.
pub open spec fn drop_source(bs: Seq<(Seq<char>, bool, usize, Option<Seq<char>>)>, n: Seq<char>) -> Seq<(Seq<char>, bool, usize, Option<Seq<char>>)>
    decreases bs.len(),
{
    if bs.len() == 0 {
        bs
    } else if bs.last().0 != n {
        drop_source(bs.drop_last(), n).push(bs.last())
    } else {
        drop_source(bs.drop_last(), n)
    }
}

/// The borrows of `bs` still active at statement `idx`.
pub open spec fn live(bs: Seq<(Seq<char>, bool, usize, Option<Seq<char>>)>, idx: int) -> Seq<(Seq<char>, bool, usize, Option<Seq<char>>)>
    decreases bs.len(),
{
    if bs.len() == 0 {
        bs
    } else if bs.last().2 >= idx {
        live(bs.drop_last(), idx).push(bs.last())
    } else {
        live(bs.drop_last(), idx)
    }
}

proof fn lemma_held_iff(bs: Seq<ActiveBorrow>, n: Seq<char>, mutable: bool)
    ensures
        held(bviews(bs), n, mutable) <==> borrowed_sources(bs, mutable).contains(n),
{
    if held(bviews(bs), n, mutable) {
        let i = choose|i: int| 0 <= i < bviews(bs).len() && (#[trigger] bviews(bs)[i]).0 == n && bviews(bs)[i].1 == mutable;
        assert(bs[i].source@ == n);
    }
    if borrowed_sources(bs, mutable).contains(n) {
        let i = choose|i: int| 0 <= i < bs.len() && #[trigger] bs[i].source@ == n && bs[i].mutable == mutable;
        assert(bviews(bs)[i].0 == n);
    }
}

proof fn lemma_views_without_source(bs: Seq<ActiveBorrow>, n: Seq<char>)
    ensures
        bviews(without_source(bs, n)) == drop_source(bviews(bs), n),
    decreases bs.len(),
{
    reveal(Seq::filter);
    if bs.len() > 0 {
        lemma_views_without_source(bs.drop_last(), n);
        assert(bviews(bs).drop_last() =~= bviews(bs.drop_last()));
        assert(bviews(bs).last() == bview(bs.last()));
        if bs.last().source@ != n {
            assert(bviews(without_source(bs, n)) =~= bviews(without_source(bs.drop_last(), n)).push(bview(bs.last())));
        }
    } else {
        assert(bviews(without_source(bs, n)) =~= drop_source(bviews(bs), n));
    }
}

proof fn lemma_views_live(bs: Seq<ActiveBorrow>, idx: usize)
    ensures
        bviews(live_at(bs, idx)) == live(bviews(bs), idx as int),
    decreases bs.len(),
{
    reveal(Seq::filter);
    if bs.len() > 0 {
        lemma_views_live(bs.drop_last(), idx);
        assert(bviews(bs).drop_last() =~= bviews(bs.drop_last()));
        assert(bviews(bs).last() == bview(bs.last()));
        if bs.last().expires_after >= idx {
            assert(bviews(live_at(bs, idx)) =~= bviews(live_at(bs.drop_last(), idx)).push(bview(bs.last())));
        }
    } else {
        assert(bviews(live_at(bs, idx)) =~= live(bviews(bs), idx as int));
    }
}

/// A borrow error as a tag and the binding's name.
pub open spec fn borrow_error_view(e: BorrowError) -> (u8, Seq<char>) {
    match e {
        BorrowError::CannotBorrowMoved { name } => (0, name@),
        BorrowError::CannotBorrowMutAlias { name } => (1, name@),
        BorrowError::CannotBorrowWhileMutBorrowed { name } => (2, name@),
        BorrowError::MoveWhileBorrowed { name } => (3, name@),
        BorrowError::AssignWhileBorrowed { name, .. } => (4, name@),
        BorrowError::UseAfterMove { name, .. } => (5, name@),
        BorrowError::UseWhileMutBorrowed { name } => (6, name@),
        BorrowError::UseWhileBorrowed { name } => (7, name@),
        BorrowError::ManualFreeOfOwned { name } => (8, name@),
        BorrowError::BorrowsActiveAt { site } => (9, crate::borrow::spec_site_text(site)),
        BorrowError::OwnershipProblem { message } => (10, message@),
    }
}

pub open spec fn error_views(v: Seq<BorrowError>) -> Seq<(u8, Seq<char>)> {
    v.map_values(|e: BorrowError| borrow_error_view(e))
}

/// Result of borrowing `n` (mutably when `mutable`) until statement `idx`:
/// the new borrows and the error, if the borrow is refused.
pub open spec fn borrow_step(
    moved: Set<Seq<char>>,
    bs: Seq<(Seq<char>, bool, usize, Option<Seq<char>>)>,
    n: Seq<char>,
    mutable: bool,
    idx: usize,
) -> (Seq<(Seq<char>, bool, usize, Option<Seq<char>>)>, Seq<(u8, Seq<char>)>) {
    if moved.contains(n) {
        (bs, seq![(0u8, n)])
    } else if mutable && (held(bs, n, false) || held(bs, n, true)) {
        (bs, seq![(1u8, n)])
    } else if !mutable && held(bs, n, true) {
        (bs, seq![(2u8, n)])
    } else {
        (drop_source(bs, n).push((n, mutable, idx, None)), seq![])
    }
}

/// Borrows an expression registers: `&x` / `&mut x` borrow `x` through the
/// statement; `&&` and `||` end the left side's temporary borrows.
pub open spec fn reg_expr(
    e: &Expression,
    moved: Set<Seq<char>>,
    bs: Seq<(Seq<char>, bool, usize, Option<Seq<char>>)>,
    idx: usize,
) -> (Seq<(Seq<char>, bool, usize, Option<Seq<char>>)>, Seq<(u8, Seq<char>)>)
    decreases e, 0int,
{
    match e {
        Expression::Unary(u) => if u.op == UnaryOp::Ref {
            reg_borrow(&u.operand, false, moved, bs, idx)
        } else if u.op == UnaryOp::RefMut {
            reg_borrow(&u.operand, true, moved, bs, idx)
        } else {
            reg_expr(&u.operand, moved, bs, idx)
        },
        Expression::Binary(b) => {
            let r1 = reg_expr(&b.left, moved, bs, idx);
            let bs2 = if b.op == BinaryOp::And || b.op == BinaryOp::Or {
                live(r1.0, idx + 1)
            } else {
                r1.0
            };
            let r2 = reg_expr(&b.right, moved, bs2, idx);
            (r2.0, r1.1 + r2.1)
        },
        Expression::Call(c) => reg_exprs(c.args@, moved, bs, idx),
        Expression::MethodCall(mc) => {
            let r1 = reg_expr(&mc.object, moved, bs, idx);
            let r2 = reg_exprs(mc.args@, moved, r1.0, idx);
            (r2.0, r1.1 + r2.1)
        },
        Expression::If(i) => {
            let r1 = reg_expr(&i.condition, moved, bs, idx);
            let r2 = reg_block(&i.then_block, moved, r1.0, idx);
            let r3 = reg_block(&i.else_block, moved, r2.0, idx);
            (r3.0, r1.1 + r2.1 + r3.1)
        },
        Expression::Match(m) => {
            let r1 = reg_expr(&m.scrutinee, moved, bs, idx);
            let r2 = reg_arms(m.arms@, moved, r1.0, idx);
            (r2.0, r1.1 + r2.1)
        },
        Expression::Await(inner) => reg_expr(inner, moved, bs, idx),
        Expression::FieldAccess(f) => reg_expr(&f.object, moved, bs, idx),
        Expression::StructLiteral(sl) => {
            let r1 = reg_exprs(sl.spreads@, moved, bs, idx);
            let r2 = reg_fields(sl.fields@, moved, r1.0, idx);
            (r2.0, r1.1 + r2.1)
        },
        Expression::Grouped(g) => reg_expr(g, moved, bs, idx),
        Expression::Index(ix) => {
            let r1 = reg_expr(&ix.object, moved, bs, idx);
            let r2 = reg_expr(&ix.index, moved, r1.0, idx);
            (r2.0, r1.1 + r2.1)
        },
        Expression::ArrayLiteral(al) => {
            let r1 = reg_exprs(al.spreads@, moved, bs, idx);
            let r2 = reg_exprs(al.elems@, moved, r1.0, idx);
            (r2.0, r1.1 + r2.1)
        },
        Expression::ArrayRepeat { element, .. } => reg_expr(element, moved, bs, idx),
        Expression::TemplateLiteral(t) => reg_parts(t.parts@, moved, bs, idx),
        _ => (bs, seq![]),
    }
}

/// Borrow of an operand: of the binding it names, or else of the borrows inside it.
pub open spec fn reg_borrow(
    operand: &Expression,
    mutable: bool,
    moved: Set<Seq<char>>,
    bs: Seq<(Seq<char>, bool, usize, Option<Seq<char>>)>,
    idx: usize,
) -> (Seq<(Seq<char>, bool, usize, Option<Seq<char>>)>, Seq<(u8, Seq<char>)>)
    decreases operand, 1int,
{
    match spec_binding_name(operand) {
        Some(n) => borrow_step(moved, bs, n, mutable, idx),
        None => reg_expr(operand, moved, bs, idx),
    }
}

pub open spec fn reg_exprs(
    s: Seq<Expression>,
    moved: Set<Seq<char>>,
    bs: Seq<(Seq<char>, bool, usize, Option<Seq<char>>)>,
    idx: usize,
) -> (Seq<(Seq<char>, bool, usize, Option<Seq<char>>)>, Seq<(u8, Seq<char>)>)
    decreases s, 0int,
{
    if s.len() == 0 {
        (bs, seq![])
    } else {
        let r1 = reg_exprs(s.subrange(0, s.len() - 1), moved, bs, idx);
        let r2 = reg_expr(&s[s.len() - 1], moved, r1.0, idx);
        (r2.0, r1.1 + r2.1)
    }
}

pub open spec fn reg_fields(
    s: Seq<(String, Expression)>,
    moved: Set<Seq<char>>,
    bs: Seq<(Seq<char>, bool, usize, Option<Seq<char>>)>,
    idx: usize,
) -> (Seq<(Seq<char>, bool, usize, Option<Seq<char>>)>, Seq<(u8, Seq<char>)>)
    decreases s, 0int,
{
    if s.len() == 0 {
        (bs, seq![])
    } else {
        let r1 = reg_fields(s.subrange(0, s.len() - 1), moved, bs, idx);
        let r2 = reg_expr(&s[s.len() - 1].1, moved, r1.0, idx);
        (r2.0, r1.1 + r2.1)
    }
}

pub open spec fn reg_parts(
    s: Seq<TemplatePart>,
    moved: Set<Seq<char>>,
    bs: Seq<(Seq<char>, bool, usize, Option<Seq<char>>)>,
    idx: usize,
) -> (Seq<(Seq<char>, bool, usize, Option<Seq<char>>)>, Seq<(u8, Seq<char>)>)
    decreases s, 0int,
{
    if s.len() == 0 {
        (bs, seq![])
    } else {
        let r1 = reg_parts(s.subrange(0, s.len() - 1), moved, bs, idx);
        let r2 = match &s[s.len() - 1] {
            TemplatePart::Interpolation(x) => reg_expr(x, moved, r1.0, idx),
            TemplatePart::Static(_) => (r1.0, seq![]),
        };
        (r2.0, r1.1 + r2.1)
    }
}

pub open spec fn reg_arms(
    s: Seq<MatchArm>,
    moved: Set<Seq<char>>,
    bs: Seq<(Seq<char>, bool, usize, Option<Seq<char>>)>,
    idx: usize,
) -> (Seq<(Seq<char>, bool, usize, Option<Seq<char>>)>, Seq<(u8, Seq<char>)>)
    decreases s, 0int,
{
    if s.len() == 0 {
        (bs, seq![])
    } else {
        let r1 = reg_arms(s.subrange(0, s.len() - 1), moved, bs, idx);
        let arm = &s[s.len() - 1];
        let r2 = match &arm.guard {
            Some(g) => reg_expr(g, moved, r1.0, idx),
            None => (r1.0, seq![]),
        };
        let r3 = reg_block(&arm.body, moved, r2.0, idx);
        (r3.0, r1.1 + r2.1 + r3.1)
    }
}

pub open spec fn reg_block(
    b: &Block,
    moved: Set<Seq<char>>,
    bs: Seq<(Seq<char>, bool, usize, Option<Seq<char>>)>,
    idx: usize,
) -> (Seq<(Seq<char>, bool, usize, Option<Seq<char>>)>, Seq<(u8, Seq<char>)>)
    decreases b, 0int,
{
    reg_stmts(b.statements@, moved, bs, idx)
}

pub open spec fn reg_stmts(
    s: Seq<Statement>,
    moved: Set<Seq<char>>,
    bs: Seq<(Seq<char>, bool, usize, Option<Seq<char>>)>,
    idx: usize,
) -> (Seq<(Seq<char>, bool, usize, Option<Seq<char>>)>, Seq<(u8, Seq<char>)>)
    decreases s, 0int,
{
    if s.len() == 0 {
        (bs, seq![])
    } else {
        let r1 = reg_stmts(s.subrange(0, s.len() - 1), moved, bs, idx);
        let r2 = reg_stmt(&s[s.len() - 1], moved, r1.0, idx);
        (r2.0, r1.1 + r2.1)
    }
}

/// Borrows the expressions of a statement (and its nested blocks) register.
pub open spec fn reg_stmt(
    st: &Statement,
    moved: Set<Seq<char>>,
    bs: Seq<(Seq<char>, bool, usize, Option<Seq<char>>)>,
    idx: usize,
) -> (Seq<(Seq<char>, bool, usize, Option<Seq<char>>)>, Seq<(u8, Seq<char>)>)
    decreases st, 0int,
{
    match st {
        Statement::Let(l) => reg_expr(&l.value, moved, bs, idx),
        Statement::Const(l) => reg_expr(&l.value, moved, bs, idx),
        Statement::Assign(a) => {
            let r1 = reg_expr(&a.target, moved, bs, idx);
            let r2 = reg_expr(&a.value, moved, r1.0, idx);
            (r2.0, r1.1 + r2.1)
        },
        Statement::Return(r) => match &r.value {
            Some(v) => reg_expr(v, moved, bs, idx),
            None => (bs, seq![]),
        },
        Statement::If(i) => {
            let r1 = reg_expr(&i.condition, moved, bs, idx);
            let r2 = reg_block(&i.then_block, moved, r1.0, idx);
            let r3 = match &i.else_block {
                Some(el) => reg_block(el, moved, r2.0, idx),
                None => (r2.0, seq![]),
            };
            (r3.0, r1.1 + r2.1 + r3.1)
        },
        Statement::While(w) => {
            let r1 = reg_expr(&w.condition, moved, bs, idx);
            let r2 = reg_block(&w.body, moved, r1.0, idx);
            (r2.0, r1.1 + r2.1)
        },
        Statement::For(fo) => {
            let r1 = match &fo.kind {
                ForKind::Range { start, end } => {
                    let a = reg_expr(start, moved, bs, idx);
                    let b = reg_expr(end, moved, a.0, idx);
                    (b.0, a.1 + b.1)
                },
                ForKind::Iterable { iterable } => reg_expr(iterable, moved, bs, idx),
            };
            let r2 = reg_block(&fo.body, moved, r1.0, idx);
            (r2.0, r1.1 + r2.1)
        },
        Statement::Expression(x) => reg_expr(x, moved, bs, idx),
        Statement::Defer(x) => reg_expr(x, moved, bs, idx),
        Statement::Print(p) => {
            let r1 = reg_exprs(p.args@, moved, bs, idx);
            let r2 = match &p.color {
                Some(c) => reg_expr(c, moved, r1.0, idx),
                None => (r1.0, seq![]),
            };
            (r2.0, r1.1 + r2.1)
        },
        Statement::Spawn(b) => reg_block(b, moved, bs, idx),
        Statement::Unsafe(b) => reg_block(b, moved, bs, idx),
        Statement::Benchmark(b) => reg_block(b, moved, bs, idx),
        _ => (bs, seq![]),
    }
}


/// `b` has the same moves, provenance, declarations and flags as `a`.
pub open spec fn same_bookkeeping(a: BorrowState, b: BorrowState) -> bool {
    &&& b.moved == a.moved
    &&& b.move_from == a.move_from
    &&& b.move_to == a.move_to
    &&& b.mutable == a.mutable
    &&& b.var_types == a.var_types
    &&& b.ref_sources == a.ref_sources
    &&& b.manually_freed == a.manually_freed
    &&& b.unsafe_depth == a.unsafe_depth
    &&& b.unknown_kind == a.unknown_kind
}

/// An expression that only reads: a binding, a literal, a unary operation
/// other than `&`/`&mut` on such, a grouping of such, or a binary operation
/// other than `&&`/`||` of such.
pub open spec fn plain_read(e: &Expression) -> bool
    decreases e,
{
    match e {
        Expression::Variable { .. } => true,
        Expression::Literal(_) => true,
        Expression::Unary(u) => u.op != UnaryOp::Ref && u.op != UnaryOp::RefMut && plain_read(&u.operand),
        Expression::Grouped(g) => plain_read(g),
        Expression::Binary(b) => b.op != BinaryOp::And && b.op != BinaryOp::Or && plain_read(&b.left) && plain_read(
            &b.right,
        ),
        _ => false,
    }
}

/// A plain read registers no borrow and reports nothing.
pub proof fn lemma_plain_read_registers_nothing(
    e: &Expression,
    moved: Set<Seq<char>>,
    bs: Seq<(Seq<char>, bool, usize, Option<Seq<char>>)>,
    idx: usize,
)
    requires
        plain_read(e),
    ensures
        reg_expr(e, moved, bs, idx) == (bs, Seq::<(u8, Seq<char>)>::empty()),
    decreases e,
{
    match e {
        Expression::Unary(u) => lemma_plain_read_registers_nothing(&u.operand, moved, bs, idx),
        Expression::Grouped(g) => lemma_plain_read_registers_nothing(g, moved, bs, idx),
        Expression::Binary(b) => {
            lemma_plain_read_registers_nothing(&b.left, moved, bs, idx);
            lemma_plain_read_registers_nothing(&b.right, moved, bs, idx);
            assert(Seq::<(u8, Seq<char>)>::empty() + Seq::<(u8, Seq<char>)>::empty() =~= Seq::<(u8, Seq<char>)>::empty());
        },
        _ => {},
    }
}

/// Going from state `a` / errors `ea` to `b` / `eb` registered borrows `r`:
/// the active borrows are `r.0`, the errors grew by `r.1`, nothing else changed.
pub open spec fn reg_done(
    a: BorrowState,
    b: BorrowState,
    ea: Seq<BorrowError>,
    eb: Seq<BorrowError>,
    r: (Seq<(Seq<char>, bool, usize, Option<Seq<char>>)>, Seq<(u8, Seq<char>)>),
) -> bool {
    &&& b.wf()
    &&& bviews(b.active_borrows@) == r.0
    &&& error_views(eb) == error_views(ea) + r.1
    &&& ea.len() <= eb.len()
    &&& eb.take(ea.len() as int) == ea
    &&& same_bookkeeping(a, b)
}

proof fn lemma_reg_chain(
    s0: BorrowState,
    s1: BorrowState,
    s2: BorrowState,
    e0: Seq<BorrowError>,
    e1: Seq<BorrowError>,
    e2: Seq<BorrowError>,
    r1: (Seq<(Seq<char>, bool, usize, Option<Seq<char>>)>, Seq<(u8, Seq<char>)>),
    r2: (Seq<(Seq<char>, bool, usize, Option<Seq<char>>)>, Seq<(u8, Seq<char>)>),
)
    requires
        reg_done(s0, s1, e0, e1, r1),
        reg_done(s1, s2, e1, e2, r2),
    ensures
        reg_done(s0, s2, e0, e2, (r2.0, r1.1 + r2.1)),
{
    assert(error_views(e0) + r1.1 + r2.1 =~= error_views(e0) + (r1.1 + r2.1));
    assert(e2.take(e0.len() as int) =~= e1.take(e0.len() as int));
}

proof fn lemma_reg_refl(s0: BorrowState, e0: Seq<BorrowError>)
    requires
        s0.wf(),
    ensures
        reg_done(s0, s0, e0, e0, (bviews(s0.active_borrows@), seq![])),
{
    assert(error_views(e0) + seq![] =~= error_views(e0));
    assert(e0.take(e0.len() as int) =~= e0);
}

/// Registers the borrow `&operand` (`&mut operand` when `mutable`) through
/// statement `stmt_idx`: of the binding it names, or else of the borrows
/// inside it. A refused borrow adds its error.
pub fn register_borrow(operand: &Expression, mutable: bool, stmt_idx: usize, state: &mut BorrowState, errors: &mut Vec<BorrowError>)
    requires
        old(state).wf(),
        stmt_idx < usize::MAX,
    ensures
        reg_done(*old(state), *final(state), old(errors)@, final(errors)@, reg_borrow(
            operand,
            mutable,
            old(state).moved@.dom(),
            bviews(old(state).active_borrows@),
            stmt_idx,
        )),
    decreases operand, 1int,
{
    let ghost s0 = *state;
    let ghost e0 = errors@;
    match variable_name(operand) {
        Some(name) => {
            proof {
                lemma_held_iff(s0.active_borrows@, name@, false);
                lemma_held_iff(s0.active_borrows@, name@, true);
            }
            match state.register_borrow(name, mutable, stmt_idx) {
                Ok(()) => {
                    proof {
                        lemma_views_without_source(s0.active_borrows@, name@);
                        let fa = state.active_borrows@;
                        assert(bviews(fa) =~= bviews(fa.drop_last()).push(bview(fa.last())));
                        assert(error_views(errors@) =~= error_views(e0) + seq![]);
                        assert(errors@.take(e0.len() as int) =~= e0);
                    }
                },
                Err(e) => {
                    errors.push(e);
                    proof {
                        assert(errors@.take(e0.len() as int) =~= e0);
                        assert(error_views(errors@) =~= error_views(e0).push(borrow_error_view(e)));
                        assert(error_views(errors@) =~= error_views(e0) + seq![borrow_error_view(e)]);
                    }
                },
            }
        },
        None => register_borrows_from_expr(operand, stmt_idx, state, errors),
    }
}

/// Registers the borrows an expression takes at statement `stmt_idx`.
pub fn register_borrows_from_expr(e: &Expression, stmt_idx: usize, state: &mut BorrowState, errors: &mut Vec<BorrowError>)
    requires
        old(state).wf(),
        stmt_idx < usize::MAX,
    ensures
        reg_done(*old(state), *final(state), old(errors)@, final(errors)@, reg_expr(
            e,
            old(state).moved@.dom(),
            bviews(old(state).active_borrows@),
            stmt_idx,
        )),
    decreases e, 0int,
{
    let ghost s0 = *state;
    let ghost e0 = errors@;
    let ghost mv = s0.moved@.dom();
    match e {
        Expression::Unary(u) => {
            if u.op == UnaryOp::Ref {
                register_borrow(&u.operand, false, stmt_idx, state, errors);
            } else if u.op == UnaryOp::RefMut {
                register_borrow(&u.operand, true, stmt_idx, state, errors);
            } else {
                register_borrows_from_expr(&u.operand, stmt_idx, state, errors);
            }
        },
        Expression::Binary(b) => {
            register_borrows_from_expr(&b.left, stmt_idx, state, errors);
            let ghost s1 = *state;
            let ghost e1 = errors@;
            let ghost r1 = reg_expr(&b.left, mv, bviews(s0.active_borrows@), stmt_idx);
            if b.op == BinaryOp::And || b.op == BinaryOp::Or {
                state.expire_borrows_before(stmt_idx + 1);
                proof {
                    lemma_views_live(s1.active_borrows@, (stmt_idx + 1) as usize);
                }
            }
            let ghost s2 = *state;
            proof {
                assert(error_views(e1) + seq![] =~= error_views(e1));
            }
            register_borrows_from_expr(&b.right, stmt_idx, state, errors);
            proof {
                let bs2 = if b.op == BinaryOp::And || b.op == BinaryOp::Or { live(r1.0, stmt_idx + 1) } else { r1.0 };
                lemma_reg_chain(s0, s2, *state, e0, e1, errors@, (bs2, r1.1), reg_expr(&b.right, mv, bs2, stmt_idx));
            }
        },
        Expression::Call(c) => register_borrows_in_exprs(&c.args, stmt_idx, state, errors),
        Expression::MethodCall(mc) => {
            register_borrows_from_expr(&mc.object, stmt_idx, state, errors);
            let ghost s1 = *state;
            let ghost e1 = errors@;
            let ghost r1 = reg_expr(&mc.object, mv, bviews(s0.active_borrows@), stmt_idx);
            register_borrows_in_exprs(&mc.args, stmt_idx, state, errors);
            proof {
                lemma_reg_chain(s0, s1, *state, e0, e1, errors@, r1, reg_exprs(mc.args@, mv, r1.0, stmt_idx));
            }
        },
        Expression::If(i) => {
            register_borrows_from_expr(&i.condition, stmt_idx, state, errors);
            let ghost s1 = *state;
            let ghost e1 = errors@;
            let ghost r1 = reg_expr(&i.condition, mv, bviews(s0.active_borrows@), stmt_idx);
            register_borrows_in_block(&i.then_block, stmt_idx, state, errors);
            let ghost s2 = *state;
            let ghost e2 = errors@;
            let ghost r2 = reg_block(&i.then_block, mv, r1.0, stmt_idx);
            proof {
                lemma_reg_chain(s0, s1, s2, e0, e1, e2, r1, r2);
            }
            register_borrows_in_block(&i.else_block, stmt_idx, state, errors);
            proof {
                lemma_reg_chain(s0, s2, *state, e0, e2, errors@, (r2.0, r1.1 + r2.1), reg_block(&i.else_block, mv, r2.0, stmt_idx));
            }
        },
        Expression::Match(m) => {
            register_borrows_from_expr(&m.scrutinee, stmt_idx, state, errors);
            let ghost s1 = *state;
            let ghost e1 = errors@;
            let ghost r1 = reg_expr(&m.scrutinee, mv, bviews(s0.active_borrows@), stmt_idx);
            register_borrows_in_arms(&m.arms, stmt_idx, state, errors);
            proof {
                lemma_reg_chain(s0, s1, *state, e0, e1, errors@, r1, reg_arms(m.arms@, mv, r1.0, stmt_idx));
            }
        },
        Expression::Await(inner) => register_borrows_from_expr(inner, stmt_idx, state, errors),
        Expression::FieldAccess(f) => register_borrows_from_expr(&f.object, stmt_idx, state, errors),
        Expression::StructLiteral(sl) => {
            register_borrows_in_exprs(&sl.spreads, stmt_idx, state, errors);
            let ghost s1 = *state;
            let ghost e1 = errors@;
            let ghost r1 = reg_exprs(sl.spreads@, mv, bviews(s0.active_borrows@), stmt_idx);
            register_borrows_in_fields(&sl.fields, stmt_idx, state, errors);
            proof {
                lemma_reg_chain(s0, s1, *state, e0, e1, errors@, r1, reg_fields(sl.fields@, mv, r1.0, stmt_idx));
            }
        },
        Expression::Grouped(g) => register_borrows_from_expr(g, stmt_idx, state, errors),
        Expression::Index(ix) => {
            register_borrows_from_expr(&ix.object, stmt_idx, state, errors);
            let ghost s1 = *state;
            let ghost e1 = errors@;
            let ghost r1 = reg_expr(&ix.object, mv, bviews(s0.active_borrows@), stmt_idx);
            register_borrows_from_expr(&ix.index, stmt_idx, state, errors);
            proof {
                lemma_reg_chain(s0, s1, *state, e0, e1, errors@, r1, reg_expr(&ix.index, mv, r1.0, stmt_idx));
            }
        },
        Expression::ArrayLiteral(al) => {
            register_borrows_in_exprs(&al.spreads, stmt_idx, state, errors);
            let ghost s1 = *state;
            let ghost e1 = errors@;
            let ghost r1 = reg_exprs(al.spreads@, mv, bviews(s0.active_borrows@), stmt_idx);
            register_borrows_in_exprs(&al.elems, stmt_idx, state, errors);
            proof {
                lemma_reg_chain(s0, s1, *state, e0, e1, errors@, r1, reg_exprs(al.elems@, mv, r1.0, stmt_idx));
            }
        },
        Expression::ArrayRepeat { element, .. } => register_borrows_from_expr(element, stmt_idx, state, errors),
        Expression::TemplateLiteral(t) => register_borrows_in_parts(&t.parts, stmt_idx, state, errors),
        _ => {
            proof {
                lemma_reg_refl(s0, e0);
            }
        },
    }
}

fn register_borrows_in_exprs(v: &Vec<Expression>, stmt_idx: usize, state: &mut BorrowState, errors: &mut Vec<BorrowError>)
    requires
        old(state).wf(),
        stmt_idx < usize::MAX,
    ensures
        reg_done(*old(state), *final(state), old(errors)@, final(errors)@, reg_exprs(
            v@,
            old(state).moved@.dom(),
            bviews(old(state).active_borrows@),
            stmt_idx,
        )),
    decreases v, 0int,
{
    let ghost s0 = *state;
    let ghost e0 = errors@;
    let ghost mv = s0.moved@.dom();
    let mut i: usize = 0;
    proof {
        lemma_reg_refl(s0, e0);
        assert(v@.take(0) =~= Seq::<Expression>::empty());
    }
    while i < v.len()
        invariant
            stmt_idx < usize::MAX,
            mv == s0.moved@.dom(),
            i <= v@.len(),
            reg_done(s0, *state, e0, errors@, reg_exprs(v@.take(i as int), mv, bviews(s0.active_borrows@), stmt_idx)),
        decreases v@.len() - i,
    {
        let ghost s1 = *state;
        let ghost e1 = errors@;
        let ghost r1 = reg_exprs(v@.take(i as int), mv, bviews(s0.active_borrows@), stmt_idx);
        register_borrows_from_expr(&v[i], stmt_idx, state, errors);
        proof {
            assert(v@.take(i + 1).subrange(0, i as int) =~= v@.take(i as int));
            lemma_reg_chain(s0, s1, *state, e0, e1, errors@, r1, reg_expr(&v@[i as int], mv, r1.0, stmt_idx));
        }
        i = i + 1;
    }
    proof {
        assert(v@.take(v@.len() as int) =~= v@);
    }
}

fn register_borrows_in_fields(v: &Vec<(String, Expression)>, stmt_idx: usize, state: &mut BorrowState, errors: &mut Vec<BorrowError>)
    requires
        old(state).wf(),
        stmt_idx < usize::MAX,
    ensures
        reg_done(*old(state), *final(state), old(errors)@, final(errors)@, reg_fields(
            v@,
            old(state).moved@.dom(),
            bviews(old(state).active_borrows@),
            stmt_idx,
        )),
    decreases v, 0int,
{
    let ghost s0 = *state;
    let ghost e0 = errors@;
    let ghost mv = s0.moved@.dom();
    let mut i: usize = 0;
    proof {
        lemma_reg_refl(s0, e0);
        assert(v@.take(0) =~= Seq::<(String, Expression)>::empty());
    }
    while i < v.len()
        invariant
            stmt_idx < usize::MAX,
            mv == s0.moved@.dom(),
            i <= v@.len(),
            reg_done(s0, *state, e0, errors@, reg_fields(v@.take(i as int), mv, bviews(s0.active_borrows@), stmt_idx)),
        decreases v@.len() - i,
    {
        let ghost s1 = *state;
        let ghost e1 = errors@;
        let ghost r1 = reg_fields(v@.take(i as int), mv, bviews(s0.active_borrows@), stmt_idx);
        register_borrows_from_expr(&v[i].1, stmt_idx, state, errors);
        proof {
            assert(v@.take(i + 1).subrange(0, i as int) =~= v@.take(i as int));
            lemma_reg_chain(s0, s1, *state, e0, e1, errors@, r1, reg_expr(&v@[i as int].1, mv, r1.0, stmt_idx));
        }
        i = i + 1;
    }
    proof {
        assert(v@.take(v@.len() as int) =~= v@);
    }
}

fn register_borrows_in_parts(v: &Vec<TemplatePart>, stmt_idx: usize, state: &mut BorrowState, errors: &mut Vec<BorrowError>)
    requires
        old(state).wf(),
        stmt_idx < usize::MAX,
    ensures
        reg_done(*old(state), *final(state), old(errors)@, final(errors)@, reg_parts(
            v@,
            old(state).moved@.dom(),
            bviews(old(state).active_borrows@),
            stmt_idx,
        )),
    decreases v, 0int,
{
    let ghost s0 = *state;
    let ghost e0 = errors@;
    let ghost mv = s0.moved@.dom();
    let mut i: usize = 0;
    proof {
        lemma_reg_refl(s0, e0);
        assert(v@.take(0) =~= Seq::<TemplatePart>::empty());
    }
    while i < v.len()
        invariant
            stmt_idx < usize::MAX,
            mv == s0.moved@.dom(),
            i <= v@.len(),
            reg_done(s0, *state, e0, errors@, reg_parts(v@.take(i as int), mv, bviews(s0.active_borrows@), stmt_idx)),
        decreases v@.len() - i,
    {
        let ghost s1 = *state;
        let ghost e1 = errors@;
        let ghost r1 = reg_parts(v@.take(i as int), mv, bviews(s0.active_borrows@), stmt_idx);
        match &v[i] {
            TemplatePart::Interpolation(x) => register_borrows_from_expr(x, stmt_idx, state, errors),
            TemplatePart::Static(_) => {
                proof {
                    lemma_reg_refl(s1, e1);
                }
            },
        }
        proof {
            assert(v@.take(i + 1).subrange(0, i as int) =~= v@.take(i as int));
            lemma_reg_chain(s0, s1, *state, e0, e1, errors@, r1, match &v@[i as int] {
                TemplatePart::Interpolation(x) => reg_expr(x, mv, r1.0, stmt_idx),
                TemplatePart::Static(_) => (r1.0, seq![]),
            });
        }
        i = i + 1;
    }
    proof {
        assert(v@.take(v@.len() as int) =~= v@);
    }
}

fn register_borrows_in_arms(v: &Vec<MatchArm>, stmt_idx: usize, state: &mut BorrowState, errors: &mut Vec<BorrowError>)
    requires
        old(state).wf(),
        stmt_idx < usize::MAX,
    ensures
        reg_done(*old(state), *final(state), old(errors)@, final(errors)@, reg_arms(
            v@,
            old(state).moved@.dom(),
            bviews(old(state).active_borrows@),
            stmt_idx,
        )),
    decreases v, 0int,
{
    let ghost s0 = *state;
    let ghost e0 = errors@;
    let ghost mv = s0.moved@.dom();
    let mut i: usize = 0;
    proof {
        lemma_reg_refl(s0, e0);
        assert(v@.take(0) =~= Seq::<MatchArm>::empty());
    }
    while i < v.len()
        invariant
            stmt_idx < usize::MAX,
            mv == s0.moved@.dom(),
            i <= v@.len(),
            reg_done(s0, *state, e0, errors@, reg_arms(v@.take(i as int), mv, bviews(s0.active_borrows@), stmt_idx)),
        decreases v@.len() - i,
    {
        let ghost s1 = *state;
        let ghost e1 = errors@;
        let ghost r1 = reg_arms(v@.take(i as int), mv, bviews(s0.active_borrows@), stmt_idx);
        let arm = &v[i];
        match &arm.guard {
            Some(g) => register_borrows_from_expr(g, stmt_idx, state, errors),
            None => {
                proof {
                    lemma_reg_refl(s1, e1);
                }
            },
        }
        let ghost s2 = *state;
        let ghost e2 = errors@;
        let ghost r2 = match &arm.guard {
            Some(g) => reg_expr(g, mv, r1.0, stmt_idx),
            None => (r1.0, seq![]),
        };
        register_borrows_in_block(&arm.body, stmt_idx, state, errors);
        proof {
            assert(v@.take(i + 1).subrange(0, i as int) =~= v@.take(i as int));
            lemma_reg_chain(s0, s1, s2, e0, e1, e2, r1, r2);
            lemma_reg_chain(s0, s2, *state, e0, e2, errors@, (r2.0, r1.1 + r2.1), reg_block(&arm.body, mv, r2.0, stmt_idx));
        }
        i = i + 1;
    }
    proof {
        assert(v@.take(v@.len() as int) =~= v@);
    }
}

fn register_borrows_in_block(b: &Block, stmt_idx: usize, state: &mut BorrowState, errors: &mut Vec<BorrowError>)
    requires
        old(state).wf(),
        stmt_idx < usize::MAX,
    ensures
        reg_done(*old(state), *final(state), old(errors)@, final(errors)@, reg_block(
            b,
            old(state).moved@.dom(),
            bviews(old(state).active_borrows@),
            stmt_idx,
        )),
    decreases b, 0int,
{
    let v = &b.statements;
    let ghost s0 = *state;
    let ghost e0 = errors@;
    let ghost mv = s0.moved@.dom();
    let mut i: usize = 0;
    proof {
        lemma_reg_refl(s0, e0);
        assert(v@.take(0) =~= Seq::<Statement>::empty());
    }
    while i < v.len()
        invariant
            v == &b.statements,
            stmt_idx < usize::MAX,
            mv == s0.moved@.dom(),
            i <= v@.len(),
            reg_done(s0, *state, e0, errors@, reg_stmts(v@.take(i as int), mv, bviews(s0.active_borrows@), stmt_idx)),
        decreases v@.len() - i,
    {
        let ghost s1 = *state;
        let ghost e1 = errors@;
        let ghost r1 = reg_stmts(v@.take(i as int), mv, bviews(s0.active_borrows@), stmt_idx);
        register_borrows_in_stmt(&v[i], stmt_idx, state, errors);
        proof {
            assert(v@.take(i + 1).subrange(0, i as int) =~= v@.take(i as int));
            lemma_reg_chain(s0, s1, *state, e0, e1, errors@, r1, reg_stmt(&v@[i as int], mv, r1.0, stmt_idx));
        }
        i = i + 1;
    }
    proof {
        assert(v@.take(v@.len() as int) =~= v@);
    }
}

fn register_borrows_in_opt(o: &Option<Expression>, stmt_idx: usize, state: &mut BorrowState, errors: &mut Vec<BorrowError>)
    requires
        old(state).wf(),
        stmt_idx < usize::MAX,
    ensures
        reg_done(*old(state), *final(state), old(errors)@, final(errors)@, match o {
            Some(x) => reg_expr(x, old(state).moved@.dom(), bviews(old(state).active_borrows@), stmt_idx),
            None => (bviews(old(state).active_borrows@), seq![]),
        }),
    decreases o, 0int,
{
    match o {
        Some(x) => register_borrows_from_expr(x, stmt_idx, state, errors),
        None => {
            proof {
                lemma_reg_refl(*state, errors@);
            }
        },
    }
}

fn register_borrows_in_stmt(st: &Statement, stmt_idx: usize, state: &mut BorrowState, errors: &mut Vec<BorrowError>)
    requires
        old(state).wf(),
        stmt_idx < usize::MAX,
    ensures
        reg_done(*old(state), *final(state), old(errors)@, final(errors)@, reg_stmt(
            st,
            old(state).moved@.dom(),
            bviews(old(state).active_borrows@),
            stmt_idx,
        )),
    decreases st, 0int,
{
    let ghost s0 = *state;
    let ghost e0 = errors@;
    let ghost mv = s0.moved@.dom();
    let ghost b0 = bviews(s0.active_borrows@);
    match st {
        Statement::Let(l) => register_borrows_from_expr(&l.value, stmt_idx, state, errors),
        Statement::Const(l) => register_borrows_from_expr(&l.value, stmt_idx, state, errors),
        Statement::Assign(a) => {
            register_borrows_from_expr(&a.target, stmt_idx, state, errors);
            let ghost s1 = *state;
            let ghost e1 = errors@;
            let ghost r1 = reg_expr(&a.target, mv, b0, stmt_idx);
            register_borrows_from_expr(&a.value, stmt_idx, state, errors);
            proof {
                lemma_reg_chain(s0, s1, *state, e0, e1, errors@, r1, reg_expr(&a.value, mv, r1.0, stmt_idx));
            }
        },
        Statement::Return(r) => register_borrows_in_opt(&r.value, stmt_idx, state, errors),
        Statement::If(i) => {
            register_borrows_from_expr(&i.condition, stmt_idx, state, errors);
            let ghost s1 = *state;
            let ghost e1 = errors@;
            let ghost r1 = reg_expr(&i.condition, mv, b0, stmt_idx);
            register_borrows_in_block(&i.then_block, stmt_idx, state, errors);
            let ghost s2 = *state;
            let ghost e2 = errors@;
            let ghost r2 = reg_block(&i.then_block, mv, r1.0, stmt_idx);
            proof {
                lemma_reg_chain(s0, s1, s2, e0, e1, e2, r1, r2);
            }
            match &i.else_block {
                Some(el) => register_borrows_in_block(el, stmt_idx, state, errors),
                None => {
                    proof {
                        lemma_reg_refl(s2, e2);
                    }
                },
            }
            proof {
                lemma_reg_chain(s0, s2, *state, e0, e2, errors@, (r2.0, r1.1 + r2.1), match &i.else_block {
                    Some(el) => reg_block(el, mv, r2.0, stmt_idx),
                    None => (r2.0, seq![]),
                });
            }
        },
        Statement::While(w) => {
            register_borrows_from_expr(&w.condition, stmt_idx, state, errors);
            let ghost s1 = *state;
            let ghost e1 = errors@;
            let ghost r1 = reg_expr(&w.condition, mv, b0, stmt_idx);
            register_borrows_in_block(&w.body, stmt_idx, state, errors);
            proof {
                lemma_reg_chain(s0, s1, *state, e0, e1, errors@, r1, reg_block(&w.body, mv, r1.0, stmt_idx));
            }
        },
        Statement::For(fo) => {
            let ghost r1 = match &fo.kind {
                ForKind::Range { start, end } => {
                    let a = reg_expr(start, mv, b0, stmt_idx);
                    let b = reg_expr(end, mv, a.0, stmt_idx);
                    (b.0, a.1 + b.1)
                },
                ForKind::Iterable { iterable } => reg_expr(iterable, mv, b0, stmt_idx),
            };
            match &fo.kind {
                ForKind::Range { start, end } => {
                    register_borrows_from_expr(start, stmt_idx, state, errors);
                    let ghost sa = *state;
                    let ghost ea = errors@;
                    let ghost ra = reg_expr(start, mv, b0, stmt_idx);
                    register_borrows_from_expr(end, stmt_idx, state, errors);
                    proof {
                        lemma_reg_chain(s0, sa, *state, e0, ea, errors@, ra, reg_expr(end, mv, ra.0, stmt_idx));
                    }
                },
                ForKind::Iterable { iterable } => register_borrows_from_expr(iterable, stmt_idx, state, errors),
            }
            let ghost s1 = *state;
            let ghost e1 = errors@;
            register_borrows_in_block(&fo.body, stmt_idx, state, errors);
            proof {
                lemma_reg_chain(s0, s1, *state, e0, e1, errors@, r1, reg_block(&fo.body, mv, r1.0, stmt_idx));
            }
        },
        Statement::Expression(x) => register_borrows_from_expr(x, stmt_idx, state, errors),
        Statement::Defer(x) => register_borrows_from_expr(x, stmt_idx, state, errors),
        Statement::Print(p) => {
            register_borrows_in_exprs(&p.args, stmt_idx, state, errors);
            let ghost s1 = *state;
            let ghost e1 = errors@;
            let ghost r1 = reg_exprs(p.args@, mv, b0, stmt_idx);
            register_borrows_in_opt(&p.color, stmt_idx, state, errors);
            proof {
                lemma_reg_chain(s0, s1, *state, e0, e1, errors@, r1, match &p.color {
                    Some(c) => reg_expr(c, mv, r1.0, stmt_idx),
                    None => (r1.0, seq![]),
                });
            }
        },
        Statement::Spawn(b) => register_borrows_in_block(b, stmt_idx, state, errors),
        Statement::Unsafe(b) => register_borrows_in_block(b, stmt_idx, state, errors),
        Statement::Benchmark(b) => register_borrows_in_block(b, stmt_idx, state, errors),
        _ => {
            proof {
                lemma_reg_refl(s0, e0);
            }
        },
    }
}


/// The binding an argument would move, and whether the move is explicit
/// (`move x`): a plain variable, or `move` of a binding; anything else
/// (references, `.clone()` calls, ...) moves nothing.
pub open spec fn spec_move_candidate(arg: &Expression) -> Option<(Seq<char>, bool)> {
    match arg {
        Expression::Unary(u) => if u.op == UnaryOp::Move {
            match spec_binding_name(&u.operand) {
                Some(n) => Some((n, true)),
                None => None,
            }
        } else {
            None
        },
        Expression::Variable { name, .. } => Some((name@, false)),
        _ => None,
    }
}

pub fn move_candidate(arg: &Expression) -> (r: Option<(&str, bool)>)
    ensures
        match r {
            Some((n, explicit)) => spec_move_candidate(arg) == Some((n@, explicit)),
            None => spec_move_candidate(arg) is None,
        },
{
    match arg {
        Expression::Unary(u) => {
            if u.op == UnaryOp::Move {
                match binding_name(&u.operand) {
                    Some(n) => Some((n, true)),
                    None => None,
                }
            } else {
                None
            }
        },
        Expression::Variable { name, .. } => Some((name.as_str(), false)),
        _ => None,
    }
}

/// The binding freed by a call `free(name)`, if the call is one.
pub open spec fn freed_binding(call: &CallExpr) -> Option<Seq<char>> {
    if call.callee@ == "free"@ && call.args@.len() > 0 {
        match &call.args@[0] {
            Expression::Variable { name, .. } => Some(name@),
            _ => None,
        }
    } else {
        None
    }
}

/// Records `free(name)`; warns when `name` owns its value and is not moved,
/// since it is dropped automatically.
pub fn check_nyra_free_call(call: &CallExpr, state: &mut BorrowState, errors: &mut Vec<BorrowError>)
    requires
        old(state).wf(),
    ensures
        final(state).wf(),
        match freed_binding(call) {
            Some(n) => {
                &&& final(state).manually_freed@ == old(state).manually_freed@.insert(n)
                &&& error_views(final(errors)@) == error_views(old(errors)@) + (if old(state).kind_of_var(n)
                    == OwnershipKind::Move && !old(state).moved@.contains_key(n) {
                    seq![(8u8, n)]
                } else {
                    seq![]
                })
            },
            None => final(state).manually_freed == old(state).manually_freed && final(errors)@ == old(errors)@,
        },
        final(state).moved == old(state).moved,
        final(state).active_borrows == old(state).active_borrows,
        final(state).borrowed_imm == old(state).borrowed_imm,
        final(state).borrowed_mut == old(state).borrowed_mut,
        final(state).var_types == old(state).var_types,
        final(state).mutable == old(state).mutable,
        final(state).ref_sources == old(state).ref_sources,
        final(state).move_from == old(state).move_from,
        final(state).move_to == old(state).move_to,
        final(state).unknown_kind == old(state).unknown_kind,
        final(state).unsafe_depth == old(state).unsafe_depth,
        old(errors)@.len() <= final(errors)@.len(),
        final(errors)@.take(old(errors)@.len() as int) == old(errors)@,
{
    proof {
        assert(errors@.take(errors@.len() as int) =~= errors@);
    }
    if !crate::text::str_eq(call.callee.as_str(), "free") || call.args.len() == 0 {
        return;
    }
    let name = match &call.args[0] {
        Expression::Variable { name, .. } => name,
        _ => {
            return;
        },
    };
    state.manually_freed.insert(name.as_str());
    let ghost e0 = errors@;
    if state.ownership_of_var(name.as_str()) == OwnershipKind::Move && !state.moved.contains_key(name.as_str()) {
        let w = BorrowError::ManualFreeOfOwned { name: name.clone() };
        errors.push(w);
        proof {
            assert(errors@.take(e0.len() as int) =~= e0);
            assert(error_views(errors@) =~= error_views(e0) + seq![(8u8, name@)]);
        }
    } else {
        proof {
            assert(error_views(errors@) =~= error_views(e0) + seq![]);
        }
    }
}

/// The source a `let` binding borrows, and whether mutably: `&x` / `&mut x`.
pub open spec fn ref_binding_source(value: &Expression) -> Option<(Seq<char>, bool)> {
    match value {
        Expression::Unary(u) => if u.op == UnaryOp::Ref || u.op == UnaryOp::RefMut {
            match &u.operand {
                Expression::Variable { name, .. } => Some((name@, u.op == UnaryOp::RefMut)),
                _ => None,
            }
        } else {
            None
        },
        _ => None,
    }
}

/// For `let binding = &source` (or `&mut source`): records that `binding`
/// refers to `source` and borrows `source` until the binding's last use
/// (the end of the block when it has none).
pub fn register_ref_binding_borrow(
    binding: &str,
    value: &Expression,
    last_uses: &NameMap<usize>,
    block_len: usize,
    state: &mut BorrowState,
)
    requires
        old(state).wf(),
        last_uses.wf(),
    ensures
        final(state).wf(),
        final(state).moved == old(state).moved,
        final(state).var_types == old(state).var_types,
        final(state).mutable == old(state).mutable,
        final(state).unsafe_depth == old(state).unsafe_depth,
        final(state).unknown_kind == old(state).unknown_kind,
        match ref_binding_source(value) {
            Some((src, mutable)) => {
                let expires = if last_uses@.contains_key(binding@) { last_uses@[binding@] } else { block_len };
                &&& final(state).ref_sources@.dom() == old(state).ref_sources@.dom().insert(binding@)
                &&& final(state).ref_sources@[binding@]@ == src
                &&& forall|k: Seq<char>| k != binding@ && #[trigger] old(state).ref_sources@.contains_key(k)
                    ==> final(state).ref_sources@[k] == old(state).ref_sources@[k]
                &&& bviews(final(state).active_borrows@) == drop_source(bviews(old(state).active_borrows@), src).push(
                    (src, mutable, expires, Some(binding@)),
                )
            },
            None => *final(state) == *old(state),
        },
{
    let (source, mutable) = match value {
        Expression::Unary(u) => {
            if u.op == UnaryOp::Ref || u.op == UnaryOp::RefMut {
                match &u.operand {
                    Expression::Variable { name, .. } => (name, u.op == UnaryOp::RefMut),
                    _ => {
                        return;
                    },
                }
            } else {
                return;
            }
        },
        _ => {
            return;
        },
    };
    let expires = match last_uses.get(binding) {
        Some(e) => *e,
        None => block_len,
    };
    state.ref_sources.insert(binding, source.clone());
    let ghost s1 = *state;
    state.add_borrow(source.as_str(), mutable, expires, Some(binding));
    proof {
        lemma_views_without_source(s1.active_borrows@, source@);
        let fa = state.active_borrows@;
        assert(bviews(fa) =~= bviews(fa.drop_last()).push(bview(fa.last())));
    }
}

} // verus!
