//! Walks over the expressions of statement blocks: initializers, targets,
//! conditions, loop bounds, arguments and returned values, descending into the
//! blocks of `if`, `while`, `for`, `spawn`, `unsafe` and `benchmark`, in
//! source order. Expressions nested inside expressions are not visited.
use vstd::prelude::*;
use crate::ast::{
    Block, Expression, ForKind, ForStmt, LetStmt, Literal, ParallelConfig, ParallelThreads,
    ProgressConfig, Statement,
};

verus! {

/// The expressions a statement holds directly or through its blocks, in order.
pub open spec fn stmt_exprs(s: Statement) -> Seq<Expression>
    decreases s,
{
    match s {
        Statement::Let(l) => seq![l.value],
        Statement::Const(l) => seq![l.value],
        Statement::Assign(a) => seq![a.target, a.value],
        Statement::Return(r) => match r.value {
            Some(v) => seq![v],
            None => seq![],
        },
        Statement::If(i) => seq![i.condition] + stmts_exprs(i.then_block.statements@) + match i.else_block {
            Some(el) => stmts_exprs(el.statements@),
            None => seq![],
        },
        Statement::While(w) => seq![w.condition] + stmts_exprs(w.body.statements@),
        Statement::For(fo) => (match fo.kind {
            ForKind::Range { start, end } => seq![start, end],
            ForKind::Iterable { iterable } => seq![iterable],
        }) + stmts_exprs(fo.body.statements@),
        Statement::Expression(e) => seq![e],
        Statement::Defer(e) => seq![e],
        Statement::Print(p) => p.args@ + match p.color {
            Some(c) => seq![c],
            None => seq![],
        },
        Statement::Spawn(b) => stmts_exprs(b.statements@),
        Statement::Unsafe(b) => stmts_exprs(b.statements@),
        Statement::Benchmark(b) => stmts_exprs(b.statements@),
        _ => seq![],
    }
}

/// The expressions of a list of statements, statement by statement.
pub open spec fn stmts_exprs(s: Seq<Statement>) -> Seq<Expression>
    decreases s,
{
    if s.len() == 0 {
        seq![]
    } else {
        stmts_exprs(s.subrange(0, s.len() - 1)) + stmt_exprs(s[s.len() - 1])
    }
}

/// The expressions of a block (see `stmt_exprs`).
pub open spec fn block_exprs(b: Block) -> Seq<Expression> {
    stmts_exprs(b.statements@)
}

/// The expressions behind a list of references.
pub open spec fn derefs(v: Seq<&Expression>) -> Seq<Expression> {
    v.map_values(|e: &Expression| *e)
}

fn push_expr<'a>(out: &mut Vec<&'a Expression>, e: &'a Expression)
    ensures
        derefs(final(out)@) == derefs(old(out)@).push(*e),
{
    out.push(e);
    assert(derefs(out@) =~= derefs(old(out)@).push(*e));
}

/// The expressions of `block`, in the order they are visited.
pub fn for_each_expr_in_block<'a>(block: &'a Block) -> (r: Vec<&'a Expression>)
    ensures
        derefs(r@) == block_exprs(*block),
{
    let mut out: Vec<&'a Expression> = Vec::new();
    exprs_in_block(block, &mut out);
    assert(derefs(out@) =~= block_exprs(*block));
    out
}

fn exprs_in_block<'a>(block: &'a Block, out: &mut Vec<&'a Expression>)
    ensures
        derefs(final(out)@) == derefs(old(out)@) + block_exprs(*block),
    decreases block,
{
    let v = &block.statements;
    let mut i: usize = 0;
    assert(derefs(out@) =~= derefs(old(out)@) + stmts_exprs(v@.take(0)));
    while i < v.len()
        invariant
            v == &block.statements,
            i <= v@.len(),
            derefs(out@) == derefs(old(out)@) + stmts_exprs(v@.take(i as int)),
        decreases v@.len() - i,
    {
        let ghost before = derefs(out@);
        for_each_expr_in_stmt(&v[i], out);
        proof {
            assert(v@.take(i + 1).subrange(0, i as int) =~= v@.take(i as int));
            assert(derefs(out@) =~= derefs(old(out)@) + stmts_exprs(v@.take(i + 1)));
        }
        i = i + 1;
    }
    assert(v@.take(v@.len() as int) =~= v@);
}

fn for_each_expr_in_stmt<'a>(stmt: &'a Statement, out: &mut Vec<&'a Expression>)
    ensures
        derefs(final(out)@) == derefs(old(out)@) + stmt_exprs(*stmt),
    decreases stmt,
{
    let ghost start = derefs(out@);
    match stmt {
        Statement::Let(l) => push_expr(out, &l.value),
        Statement::Const(l) => push_expr(out, &l.value),
        Statement::Assign(a) => {
            push_expr(out, &a.target);
            push_expr(out, &a.value);
        },
        Statement::Return(r) => {
            if let Some(v) = &r.value {
                push_expr(out, v);
            }
        },
        Statement::If(i) => {
            push_expr(out, &i.condition);
            exprs_in_block(&i.then_block, out);
            if let Some(el) = &i.else_block {
                exprs_in_block(el, out);
            }
        },
        Statement::While(w) => {
            push_expr(out, &w.condition);
            exprs_in_block(&w.body, out);
        },
        Statement::For(fo) => {
            match &fo.kind {
                ForKind::Range { start, end } => {
                    push_expr(out, start);
                    push_expr(out, end);
                },
                ForKind::Iterable { iterable } => push_expr(out, iterable),
            }
            exprs_in_block(&fo.body, out);
        },
        Statement::Expression(e) => push_expr(out, e),
        Statement::Defer(e) => push_expr(out, e),
        Statement::Print(p) => {
            let mut k: usize = 0;
            while k < p.args.len()
                invariant
                    k <= p.args@.len(),
                    derefs(out@) == start + p.args@.take(k as int),
                decreases p.args@.len() - k,
            {
                push_expr(out, &p.args[k]);
                assert(p.args@.take(k + 1) =~= p.args@.take(k as int).push(p.args@[k as int]));
                k = k + 1;
            }
            assert(p.args@.take(p.args@.len() as int) =~= p.args@);
            if let Some(c) = &p.color {
                push_expr(out, c);
            }
        },
        Statement::Spawn(b) => exprs_in_block(b, out),
        Statement::Unsafe(b) => exprs_in_block(b, out),
        Statement::Benchmark(b) => exprs_in_block(b, out),
        _ => {},
    }
    assert(derefs(out@) =~= start + stmt_exprs(*stmt));
}

/// `f` accepts every expression.
pub open spec fn maps_all<F: Fn(Expression) -> Expression>(f: F) -> bool {
    forall|e: Expression| #[trigger] call_requires(f, (e,))
}

/// An optional expression and what `f` made of it.
pub open spec fn opt_mapped<F: Fn(Expression) -> Expression>(f: F, a: Option<Expression>, b: Option<Expression>) -> bool {
    match a {
        Some(x) => b matches Some(y) && call_ensures(f, (x,), y),
        None => b is None,
    }
}

/// A `let` and what `f` made of it: the same binding with its value mapped.
pub open spec fn let_mapped<F: Fn(Expression) -> Expression>(f: F, a: LetStmt, b: LetStmt) -> bool {
    &&& b.mutable == a.mutable
    &&& b.name == a.name
    &&& b.destructure == a.destructure
    &&& b.span == a.span
    &&& b.ty == a.ty
    &&& call_ensures(f, (a.value,), b.value)
}

/// A `for` header and what `f` made of it.
pub open spec fn kind_mapped<F: Fn(Expression) -> Expression>(f: F, a: ForKind, b: ForKind) -> bool {
    match a {
        ForKind::Range { start, end } => b matches ForKind::Range { start: s2, end: e2 } && call_ensures(
            f,
            (start,),
            s2,
        ) && call_ensures(f, (end,), e2),
        ForKind::Iterable { iterable } => b matches ForKind::Iterable { iterable: i2 } && call_ensures(
            f,
            (iterable,),
            i2,
        ),
    }
}

/// A list of expressions and what `f` made of each.
pub open spec fn each_mapped<F: Fn(Expression) -> Expression>(f: F, a: Seq<Expression>, b: Seq<Expression>) -> bool {
    &&& b.len() == a.len()
    &&& forall|k: int| 0 <= k < a.len() ==> call_ensures(f, (a[k],), #[trigger] b[k])
}

/// A statement and what walking it with `f` made of it: the same statement
/// with each expression of `stmt_exprs` replaced by a result of `f` on it.
pub open spec fn stmt_mapped<F: Fn(Expression) -> Expression>(f: F, a: Statement, b: Statement) -> bool
    decreases a,
{
    match a {
        Statement::Let(l) => b matches Statement::Let(m) && let_mapped(f, l, m),
        Statement::Const(l) => b matches Statement::Const(m) && let_mapped(f, l, m),
        Statement::Assign(x) => b matches Statement::Assign(y) && y.span == x.span && call_ensures(
            f,
            (x.target,),
            y.target,
        ) && call_ensures(f, (x.value,), y.value),
        Statement::Return(r) => b matches Statement::Return(q) && opt_mapped(f, r.value, q.value),
        Statement::If(i) => b matches Statement::If(j) && call_ensures(f, (i.condition,), j.condition)
            && stmts_mapped(f, i.then_block.statements@, j.then_block.statements@) && match i.else_block {
            Some(x) => j.else_block matches Some(y) && stmts_mapped(f, x.statements@, y.statements@),
            None => j.else_block is None,
        },
        Statement::While(w) => b matches Statement::While(v) && call_ensures(f, (w.condition,), v.condition)
            && stmts_mapped(f, w.body.statements@, v.body.statements@),
        Statement::For(x) => b matches Statement::For(y) && y.var == x.var && y.parallel == x.parallel
            && y.progress == x.progress && kind_mapped(f, x.kind, y.kind) && stmts_mapped(
            f,
            x.body.statements@,
            y.body.statements@,
        ),
        Statement::Expression(e) => b matches Statement::Expression(e2) && call_ensures(f, (e,), e2),
        Statement::Defer(e) => b matches Statement::Defer(e2) && call_ensures(f, (e,), e2),
        Statement::Print(p) => b matches Statement::Print(q) && each_mapped(f, p.args@, q.args@) && opt_mapped(
            f,
            p.color,
            q.color,
        ),
        Statement::Spawn(x) => b matches Statement::Spawn(y) && stmts_mapped(f, x.statements@, y.statements@),
        Statement::Unsafe(x) => b matches Statement::Unsafe(y) && stmts_mapped(f, x.statements@, y.statements@),
        Statement::Benchmark(x) => b matches Statement::Benchmark(y) && stmts_mapped(
            f,
            x.statements@,
            y.statements@,
        ),
        _ => b == a,
    }
}

/// Two lists of statements, the second what walking the first with `f` made.
pub open spec fn stmts_mapped<F: Fn(Expression) -> Expression>(f: F, a: Seq<Statement>, b: Seq<Statement>) -> bool
    decreases a,
{
    if a.len() == 0 {
        b.len() == 0
    } else {
        &&& b.len() == a.len()
        &&& stmts_mapped(f, a.subrange(0, a.len() - 1), b.subrange(0, b.len() - 1))
        &&& stmt_mapped(f, a[a.len() - 1], b[b.len() - 1])
    }
}

/// Replaces `e` by `f(e)`.
fn map_in_place<F: Fn(Expression) -> Expression>(e: &mut Expression, f: &F)
    requires
        maps_all(*f),
    ensures
        call_ensures(*f, (*old(e),), *final(e)),
{
    let mut taken = Expression::Literal(Literal::Bool(false));
    core::mem::swap(e, &mut taken);
    *e = f(taken);
}

/// Replaces each expression of `v` by `f` of it.
fn map_each_in_place<F: Fn(Expression) -> Expression>(v: &mut Vec<Expression>, f: &F)
    requires
        maps_all(*f),
    ensures
        each_mapped(*f, old(v)@, final(v)@),
{
    let mut k: usize = 0;
    while k < v.len()
        invariant
            maps_all(*f),
            v@.len() == old(v)@.len(),
            k <= v@.len(),
            forall|j: int| 0 <= j < k ==> call_ensures(*f, (old(v)@[j],), #[trigger] v@[j]),
            forall|j: int| k <= j < v@.len() ==> #[trigger] v@[j] == old(v)@[j],
        decreases v@.len() - k,
    {
        map_in_place(&mut v[k], f);
        k = k + 1;
    }
}

/// Replaces each expression of `block` (see `block_exprs`) by `f` of it.
pub fn for_each_expr_in_block_mut<F: Fn(Expression) -> Expression>(block: &mut Block, f: &F)
    requires
        maps_all(*f),
    ensures
        stmts_mapped(*f, old(block).statements@, final(block).statements@),
    decreases old(block).statements@,
{
    let ghost orig = block.statements@;
    let mut i: usize = 0;
    while i < block.statements.len()
        invariant
            maps_all(*f),
            orig == old(block).statements@,
            block.statements@.len() == orig.len(),
            i <= orig.len(),
            stmts_mapped(*f, orig.take(i as int), block.statements@.take(i as int)),
            forall|k: int| i <= k < orig.len() ==> #[trigger] block.statements@[k] == orig[k],
        decreases orig.len() - i,
    {
        let ghost mid = block.statements@;
        assert(mid[i as int] == orig[i as int]);
        for_each_expr_in_stmt_mut(&mut block.statements[i], f);
        proof {
            let now = block.statements@;
            assert(orig.take(i + 1).subrange(0, i as int) =~= orig.take(i as int));
            assert(now.take(i + 1).subrange(0, i as int) =~= now.take(i as int)) ;
            assert(now.take(i as int) =~= mid.take(i as int));
        }
        i = i + 1;
    }
    assert(orig.take(orig.len() as int) =~= orig);
    assert(block.statements@.take(orig.len() as int) =~= block.statements@);
}

fn for_each_expr_in_stmt_mut<F: Fn(Expression) -> Expression>(stmt: &mut Statement, f: &F)
    requires
        maps_all(*f),
    ensures
        stmt_mapped(*f, *old(stmt), *final(stmt)),
    decreases *old(stmt),
{
    match stmt {
        Statement::Let(l) => map_in_place(&mut l.value, f),
        Statement::Const(l) => map_in_place(&mut l.value, f),
        Statement::Assign(a) => {
            map_in_place(&mut a.target, f);
            map_in_place(&mut a.value, f);
        },
        Statement::Return(r) => {
            if let Some(v) = &mut r.value {
                map_in_place(v, f);
            }
        },
        Statement::If(i) => {
            map_in_place(&mut i.condition, f);
            for_each_expr_in_block_mut(&mut i.then_block, f);
            if let Some(el) = &mut i.else_block {
                for_each_expr_in_block_mut(el, f);
            }
        },
        Statement::While(w) => {
            map_in_place(&mut w.condition, f);
            for_each_expr_in_block_mut(&mut w.body, f);
        },
        Statement::For(fo) => {
            match &mut fo.kind {
                ForKind::Range { start, end } => {
                    map_in_place(start, f);
                    map_in_place(end, f);
                },
                ForKind::Iterable { iterable } => map_in_place(iterable, f),
            }
            for_each_expr_in_block_mut(&mut fo.body, f);
        },
        Statement::Expression(e) => map_in_place(e, f),
        Statement::Defer(e) => map_in_place(e, f),
        Statement::Print(p) => {
            map_each_in_place(&mut p.args, f);
            if let Some(c) = &mut p.color {
                map_in_place(c, f);
            }
        },
        Statement::Spawn(b) => for_each_expr_in_block_mut(b, f),
        Statement::Unsafe(b) => for_each_expr_in_block_mut(b, f),
        Statement::Benchmark(b) => for_each_expr_in_block_mut(b, f),
        _ => {},
    }
}

proof fn lemma_each_mapped_concat<F: Fn(Expression) -> Expression>(
    f: F,
    x1: Seq<Expression>,
    y1: Seq<Expression>,
    x2: Seq<Expression>,
    y2: Seq<Expression>,
)
    requires
        each_mapped(f, x1, y1),
        each_mapped(f, x2, y2),
    ensures
        each_mapped(f, x1 + x2, y1 + y2),
{
    assert forall|k: int| 0 <= k < (x1 + x2).len() implies call_ensures(f, ((x1 + x2)[k],), #[trigger] (y1 + y2)[k]) by {
        if k >= x1.len() {
            assert((x1 + x2)[k] == x2[k - x1.len()]);
            assert((y1 + y2)[k] == y2[k - y1.len()]);
        } else {
            assert((x1 + x2)[k] == x1[k]);
            assert((y1 + y2)[k] == y1[k]);
        }
    }
}

proof fn lemma_opt_mapped_exprs<F: Fn(Expression) -> Expression>(f: F, a: Option<Expression>, b: Option<Expression>)
    requires
        opt_mapped(f, a, b),
    ensures
        each_mapped(
            f,
            match a {
                Some(x) => seq![x],
                None => seq![],
            },
            match b {
                Some(y) => seq![y],
                None => seq![],
            },
        ),
{
    match a {
        Some(x) => {
            let y = b->0;
            assert(seq![y][0] == y);
        },
        None => {},
    }
}

/// Walking a statement with `f` replaces exactly the expressions that the
/// read-only walk visits, in the same order: the expressions of the result
/// are results of `f` on the expressions of the original, one for one.
pub proof fn lemma_stmt_walks_agree<F: Fn(Expression) -> Expression>(f: F, a: Statement, b: Statement)
    requires
        stmt_mapped(f, a, b),
    ensures
        each_mapped(f, stmt_exprs(a), stmt_exprs(b)),
    decreases a,
{
    match a {
        Statement::Let(l) => {
            let m = b->Let_0;
            assert(seq![m.value][0] == m.value);
        },
        Statement::Const(l) => {
            let m = b->Const_0;
            assert(seq![m.value][0] == m.value);
        },
        Statement::Assign(x) => {
            let y = b->Assign_0;
            assert(seq![y.target, y.value][0] == y.target);
            assert(seq![y.target, y.value][1] == y.value);
        },
        Statement::Return(r) => {
            let q = b->Return_0;
            lemma_opt_mapped_exprs(f, r.value, q.value);
        },
        Statement::If(i) => {
            let j = b->If_0;
            lemma_stmts_walks_agree(f, i.then_block.statements@, j.then_block.statements@);
            assert(seq![j.condition][0] == j.condition);
            lemma_each_mapped_concat(
                f,
                seq![i.condition],
                seq![j.condition],
                stmts_exprs(i.then_block.statements@),
                stmts_exprs(j.then_block.statements@),
            );
            match i.else_block {
                Some(x) => {
                    let y = j.else_block->0;
                    lemma_stmts_walks_agree(f, x.statements@, y.statements@);
                    lemma_each_mapped_concat(
                        f,
                        seq![i.condition] + stmts_exprs(i.then_block.statements@),
                        seq![j.condition] + stmts_exprs(j.then_block.statements@),
                        stmts_exprs(x.statements@),
                        stmts_exprs(y.statements@),
                    );
                },
                None => {
                    lemma_each_mapped_concat(
                        f,
                        seq![i.condition] + stmts_exprs(i.then_block.statements@),
                        seq![j.condition] + stmts_exprs(j.then_block.statements@),
                        seq![],
                        seq![],
                    );
                },
            }
        },
        Statement::While(w) => {
            let v = b->While_0;
            lemma_stmts_walks_agree(f, w.body.statements@, v.body.statements@);
            assert(seq![v.condition][0] == v.condition);
            lemma_each_mapped_concat(
                f,
                seq![w.condition],
                seq![v.condition],
                stmts_exprs(w.body.statements@),
                stmts_exprs(v.body.statements@),
            );
        },
        Statement::For(x) => {
            let y = b->For_0;
            lemma_stmts_walks_agree(f, x.body.statements@, y.body.statements@);
            let hx = match x.kind {
                ForKind::Range { start, end } => seq![start, end],
                ForKind::Iterable { iterable } => seq![iterable],
            };
            let hy = match y.kind {
                ForKind::Range { start, end } => seq![start, end],
                ForKind::Iterable { iterable } => seq![iterable],
            };
            match y.kind {
                ForKind::Range { start, end } => {
                    assert(hy[0] == start);
                    assert(hy[1] == end);
                },
                ForKind::Iterable { iterable } => {
                    assert(hy[0] == iterable);
                },
            }
            assert(each_mapped(f, hx, hy));
            lemma_each_mapped_concat(f, hx, hy, stmts_exprs(x.body.statements@), stmts_exprs(y.body.statements@));
        },
        Statement::Expression(e) => {
            let e2 = b->Expression_0;
            assert(seq![e2][0] == e2);
        },
        Statement::Defer(e) => {
            let e2 = b->Defer_0;
            assert(seq![e2][0] == e2);
        },
        Statement::Print(p) => {
            let q = b->Print_0;
            lemma_opt_mapped_exprs(f, p.color, q.color);
            lemma_each_mapped_concat(
                f,
                p.args@,
                q.args@,
                match p.color {
                    Some(c) => seq![c],
                    None => seq![],
                },
                match q.color {
                    Some(c) => seq![c],
                    None => seq![],
                },
            );
        },
        Statement::Spawn(x) => {
            lemma_stmts_walks_agree(f, x.statements@, b->Spawn_0.statements@);
        },
        Statement::Unsafe(x) => {
            lemma_stmts_walks_agree(f, x.statements@, b->Unsafe_0.statements@);
        },
        Statement::Benchmark(x) => {
            lemma_stmts_walks_agree(f, x.statements@, b->Benchmark_0.statements@);
        },
        _ => {},
    }
}

/// The statement-list form of `lemma_stmt_walks_agree`: what
/// `for_each_expr_in_block_mut` does to a block is `f` applied, one for one,
/// to what `for_each_expr_in_block` lists.
pub proof fn lemma_stmts_walks_agree<F: Fn(Expression) -> Expression>(f: F, a: Seq<Statement>, b: Seq<Statement>)
    requires
        stmts_mapped(f, a, b),
    ensures
        each_mapped(f, stmts_exprs(a), stmts_exprs(b)),
    decreases a,
{
    if a.len() > 0 {
        let n = a.len() - 1;
        lemma_stmts_walks_agree(f, a.subrange(0, n), b.subrange(0, n));
        lemma_stmt_walks_agree(f, a[n], b[n]);
        lemma_each_mapped_concat(
            f,
            stmts_exprs(a.subrange(0, n)),
            stmts_exprs(b.subrange(0, n)),
            stmt_exprs(a[n]),
            stmt_exprs(b[n]),
        );
    }
}

/// A thread count and what `f` made of it.
pub open spec fn threads_mapped<F: Fn(Expression) -> Expression>(f: F, a: ParallelThreads, b: ParallelThreads) -> bool {
    match a {
        ParallelThreads::Auto => b is Auto,
        ParallelThreads::Max(x) => b matches ParallelThreads::Max(y) && call_ensures(f, (x,), y),
        ParallelThreads::Exact(x) => b matches ParallelThreads::Exact(y) && call_ensures(f, (x,), y),
        ParallelThreads::CpuPercent(x) => b matches ParallelThreads::CpuPercent(y) && call_ensures(f, (x,), y),
    }
}

/// A `parallel(...)` configuration and what `f` made of it: the same mode,
/// the thread count mapped.
pub open spec fn parallel_mapped<F: Fn(Expression) -> Expression>(f: F, a: ParallelConfig, b: ParallelConfig) -> bool {
    b.mode == a.mode && threads_mapped(f, a.threads, b.threads)
}

impl ParallelThreads {
    /// Replaces the thread-count expression, if any, by `f` of it.
    pub fn map_expr_mut<F: Fn(Expression) -> Expression>(&mut self, f: &F)
        requires
            maps_all(*f),
        ensures
            threads_mapped(*f, *old(self), *final(self)),
    {
        match self {
            ParallelThreads::Auto => {},
            ParallelThreads::Max(e) => map_in_place(e, f),
            ParallelThreads::Exact(e) => map_in_place(e, f),
            ParallelThreads::CpuPercent(e) => map_in_place(e, f),
        }
    }
}

impl ParallelConfig {
    /// Replaces the thread-count expression, if any, by `f` of it.
    pub fn map_exprs_mut<F: Fn(Expression) -> Expression>(&mut self, f: &F)
        requires
            maps_all(*f),
        ensures
            parallel_mapped(*f, *old(self), *final(self)),
    {
        self.threads.map_expr_mut(f);
    }
}

impl ProgressConfig {
    /// Replaces the label, if any, by `f` of it.
    pub fn map_exprs_mut<F: Fn(Expression) -> Expression>(&mut self, f: F)
        requires
            maps_all(f),
        ensures
            opt_mapped(f, old(self).label, final(self).label),
    {
        if let Some(label) = &mut self.label {
            map_in_place(label, &f);
        }
    }
}

impl ForStmt {
    /// Replaces the header expressions (see `for_header_exprs`) by `f` of
    /// them; the variable and the body stay as they are.
    pub fn map_exprs_mut<F: Fn(Expression) -> Expression>(&mut self, f: F)
        requires
            maps_all(f),
        ensures
            final(self).var == old(self).var,
            final(self).body == old(self).body,
            kind_mapped(f, old(self).kind, final(self).kind),
            match old(self).parallel {
                Some(c) => final(self).parallel matches Some(d) && parallel_mapped(f, c, d),
                None => final(self).parallel is None,
            },
            match old(self).progress {
                Some(p) => final(self).progress matches Some(q) && opt_mapped(f, p.label, q.label),
                None => final(self).progress is None,
            },
    {
        match &mut self.kind {
            ForKind::Range { start, end } => {
                map_in_place(start, &f);
                map_in_place(end, &f);
            },
            ForKind::Iterable { iterable } => map_in_place(iterable, &f),
        }
        if let Some(cfg) = &mut self.parallel {
            cfg.map_exprs_mut(&f);
        }
        if let Some(cfg) = &mut self.progress {
            if let Some(label) = &mut cfg.label {
                map_in_place(label, &f);
            }
        }
    }
}

} // verus!
