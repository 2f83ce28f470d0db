//! The borrow checker's walk over function bodies: moves, borrows with
//! non-lexical expiry, and the errors they give.
use vstd::prelude::*;
use crate::ast::{
    binding_name, expr_span, spec_binding_name, variable_name, ArrowFnExpr, AssignStmt, Block, CallExpr,
    Expression, ForStmt, Function, IfStmt, ImplDef, LetStmt, Literal, PrintStmt, Program, ReturnStmt, Statement,
    TypeAnnotation, UnaryOp, WhileStmt,
};
use crate::borrow::{dup_borrows, live_at, record_move_origin, BorrowError, BorrowSite, BorrowState, OwnershipKind, VarInfo};
use crate::inspect::{
    exit_entries_ok, path_file_name, spec_file_names_match, stmt_file, stmt_line, BindingInspectReport, InspectCollector, InspectQuery,
    OwnershipVerbosePlan, VerboseEntry,
};
use crate::moves::{
    freed_binding, builtin_method_borrows_receiver, check_nyra_free_call, conflicted, move_candidate,
    ref_binding_source, register_borrows_from_expr, register_ref_binding_borrow, reported,
    spec_move_candidate, used_expr, uses_moved, drop_source,
};
use crate::names::{map_of, texts, NameMap, NameSet};
use crate::span::Span;

verus! {

/// What the checker asks of the ownership analysis: type facts, closure and
/// `spawn` captures, and the last use of each binding in a block. Each answer
/// depends on the question alone: each spec function names one answer, each
/// method promises to give what its spec function names, and the checker's
/// contracts are stated over the spec functions. An implementation defines
/// them as what its methods compute; the default bodies fix no value.
pub trait OwnershipFacts {
    /// Facts of written type `ty`.
    closed spec fn spec_annotation_info(&self, ty: TypeAnnotation) -> VarInfo {
        arbitrary()
    }

    /// Facts of the type inferred for `expr`.
    closed spec fn spec_expr_info(&self, expr: Expression) -> VarInfo {
        arbitrary()
    }

    /// Copy or Move of a reference to a value with facts `inner`.
    closed spec fn spec_ref_kind(&self, inner: VarInfo, mutable: bool) -> OwnershipKind {
        arbitrary()
    }

    /// Copy or Move of a binding whose type is unknown.
    closed spec fn spec_unknown_kind(&self) -> OwnershipKind {
        arbitrary()
    }

    /// Does a call of `callee` give an owned value?
    closed spec fn spec_callee_returns_owned(&self, callee: Seq<char>) -> bool {
        arbitrary()
    }

    /// Copy or Move of field `field` of a struct type with facts `base`.
    closed spec fn spec_field_kind(&self, base: VarInfo, field: Seq<char>) -> Option<OwnershipKind> {
        arbitrary()
    }

    /// Index of the statement of `block` that last uses each binding.
    closed spec fn spec_last_uses(&self, block: Block) -> Map<Seq<char>, usize> {
        arbitrary()
    }

    /// Does closure `arrow` capture anything?
    closed spec fn spec_arrow_has_captures(&self, arrow: ArrowFnExpr) -> bool {
        arbitrary()
    }

    /// The bindings among `outer` that closure `arrow` captures.
    closed spec fn spec_arrow_captures(&self, arrow: ArrowFnExpr, outer: Set<Seq<char>>) -> Seq<Seq<char>> {
        arbitrary()
    }

    /// The bindings among `outer` that a spawned block captures.
    closed spec fn spec_block_captures(&self, body: Block, outer: Set<Seq<char>>) -> Seq<Seq<char>> {
        arbitrary()
    }

    /// Problems with what closure `arrow` captures from the bindings `outer`.
    closed spec fn spec_closure_capture_problems(&self, arrow: ArrowFnExpr, outer: Map<Seq<char>, VarInfo>) -> Seq<Seq<char>> {
        arbitrary()
    }

    /// Problems with what a spawned block captures from the bindings `outer`.
    closed spec fn spec_spawn_capture_problems(&self, body: Block, outer: Map<Seq<char>, VarInfo>) -> Seq<Seq<char>> {
        arbitrary()
    }

    /// Problems with what a `parallel for` body captures from the bindings `outer`.
    closed spec fn spec_parallel_capture_problems(&self, body: Block, outer: Map<Seq<char>, VarInfo>) -> Seq<Seq<char>> {
        arbitrary()
    }

    /// Program-wide problems: `#[copy]` attributes and Send/Sync of types.
    closed spec fn spec_program_problems(&self, program: Program) -> Seq<Seq<char>> {
        arbitrary()
    }

    /// Facts of a written type.
    fn annotation_info(&self, ty: &TypeAnnotation) -> (r: VarInfo)
        ensures
            r == self.spec_annotation_info(*ty),
    ;

    /// Facts of the type inferred for an expression.
    fn expr_info(&self, expr: &Expression) -> (r: VarInfo)
        ensures
            r == self.spec_expr_info(*expr),
    ;

    /// Copy or Move for a reference (`&mut` when `mutable`) to a value with facts `inner`.
    fn ref_kind(&self, inner: &VarInfo, mutable: bool) -> (r: OwnershipKind)
        ensures
            r == self.spec_ref_kind(*inner, mutable),
    ;

    /// Copy or Move for a binding whose type is unknown.
    fn unknown_kind(&self) -> (r: OwnershipKind)
        ensures
            r == self.spec_unknown_kind(),
    ;

    /// Does a call of `callee` give an owned value?
    fn callee_returns_owned(&self, callee: &str) -> (r: bool)
        ensures
            r == self.spec_callee_returns_owned(callee@),
    ;

    /// Copy or Move of field `field`, when `base` is a struct type that has it.
    fn field_kind(&self, base: &VarInfo, field: &str) -> (r: Option<OwnershipKind>)
        ensures
            r == self.spec_field_kind(*base, field@),
    ;

    /// Index of the statement of `block` that last uses each binding.
    fn last_uses(&self, block: &Block) -> (r: NameMap<usize>)
        ensures
            r.wf(),
            r@ == self.spec_last_uses(*block),
    ;

    /// Does closure `arrow` capture anything?
    fn arrow_has_captures(&self, arrow: &ArrowFnExpr) -> (r: bool)
        ensures
            r == self.spec_arrow_has_captures(*arrow),
    ;

    /// The bindings among `outer` that closure `arrow` captures.
    fn arrow_captures(&self, arrow: &ArrowFnExpr, outer: &NameSet) -> (r: Vec<String>)
        ensures
            texts(r@) == self.spec_arrow_captures(*arrow, outer@),
    ;

    /// The bindings among `outer` that a spawned block captures.
    fn block_captures(&self, body: &Block, outer: &NameSet) -> (r: Vec<String>)
        ensures
            texts(r@) == self.spec_block_captures(*body, outer@),
    ;

    /// Problems with what closure `arrow` captures from the bindings `outer`.
    fn closure_capture_problems(&self, arrow: &ArrowFnExpr, outer: &NameMap<VarInfo>) -> (r: Vec<String>)
        ensures
            texts(r@) == self.spec_closure_capture_problems(*arrow, outer@),
    ;

    /// Problems with what a spawned block captures from the bindings `outer`.
    fn spawn_capture_problems(&self, body: &Block, outer: &NameMap<VarInfo>) -> (r: Vec<String>)
        ensures
            texts(r@) == self.spec_spawn_capture_problems(*body, outer@),
    ;

    /// Problems with what a `parallel for` body captures from the bindings `outer`.
    fn parallel_capture_problems(&self, body: &Block, outer: &NameMap<VarInfo>) -> (r: Vec<String>)
        ensures
            texts(r@) == self.spec_parallel_capture_problems(*body, outer@),
    ;

    /// Program-wide problems: `#[copy]` attributes and Send/Sync of types.
    fn program_problems(&self, program: &Program) -> (r: Vec<String>)
        ensures
            texts(r@) == self.spec_program_problems(*program),
    ;
}

/// What every step of the walk keeps from state `a` with errors `ea` to
/// state `b` with errors `eb`: well-formedness, the errors already reported,
/// the moves already made, the unsafe depth and the kind of unknown types.
pub open spec fn keeps(a: BorrowState, b: BorrowState, ea: Seq<BorrowError>, eb: Seq<BorrowError>) -> bool {
    &&& b.wf()
    &&& ea.len() <= eb.len()
    &&& eb.take(ea.len() as int) == ea
    &&& a.moved@.dom().subset_of(b.moved@.dom())
    &&& b.unsafe_depth == a.unsafe_depth
    &&& b.unknown_kind == a.unknown_kind
}

proof fn lemma_keeps_refl(a: BorrowState, ea: Seq<BorrowError>)
    requires
        a.wf(),
    ensures
        keeps(a, a, ea, ea),
{
    assert(ea.take(ea.len() as int) =~= ea);
}

proof fn lemma_keeps_trans(
    a: BorrowState,
    b: BorrowState,
    c: BorrowState,
    ea: Seq<BorrowError>,
    eb: Seq<BorrowError>,
    ec: Seq<BorrowError>,
)
    requires
        keeps(a, b, ea, eb),
        keeps(b, c, eb, ec),
    ensures
        keeps(a, c, ea, ec),
{
    assert(ec.take(ea.len() as int) =~= eb.take(ea.len() as int));
}

/// Errors `eb` are `ea` followed by more.
pub open spec fn extends(ea: Seq<BorrowError>, eb: Seq<BorrowError>) -> bool {
    ea.len() <= eb.len() && eb.take(ea.len() as int) == ea
}

proof fn lemma_extends_push(ea: Seq<BorrowError>, e: BorrowError)
    ensures
        extends(ea, ea.push(e)),
{
    assert(ea.push(e).take(ea.len() as int) =~= ea);
}

proof fn lemma_extends_trans(ea: Seq<BorrowError>, eb: Seq<BorrowError>, ec: Seq<BorrowError>)
    requires
        extends(ea, eb),
        extends(eb, ec),
    ensures
        extends(ea, ec),
{
    assert(ec.take(ea.len() as int) =~= eb.take(ea.len() as int));
}

/// The captured bindings among `names` that are moved into a closure or a
/// spawned block: those of Move kind.
pub open spec fn moved_captures(st: BorrowState, names: Seq<Seq<char>>) -> Set<Seq<char>> {
    Set::new(|n: Seq<char>| names.contains(n) && st.kind_of_var(n) == OwnershipKind::Move)
}

/// Only the moved set changed from `a` to `b`.
pub open spec fn only_moves_changed(a: BorrowState, b: BorrowState) -> bool {
    &&& b.active_borrows@ == a.active_borrows@
    &&& b.borrowed_imm == a.borrowed_imm
    &&& b.borrowed_mut == a.borrowed_mut
    &&& b.move_from == a.move_from
    &&& b.move_to == a.move_to
    &&& b.mutable == a.mutable
    &&& b.var_types == a.var_types
    &&& b.ref_sources == a.ref_sources
    &&& b.unsafe_depth == a.unsafe_depth
    &&& b.unknown_kind == a.unknown_kind
}

/// Marks each binding of `names` that is of Move kind as moved, at `span`.
fn mark_captures_moved(names: &Vec<String>, span: &Span, state: &mut BorrowState)
    requires
        old(state).wf(),
    ensures
        final(state).wf(),
        only_moves_changed(*old(state), *final(state)),
        final(state).moved@.dom() == old(state).moved@.dom().union(moved_captures(*old(state), texts(names@))),
{
    let ghost s0 = *state;
    let mut i: usize = 0;
    while i < names.len()
        invariant
            state.wf(),
            i <= names@.len(),
            only_moves_changed(s0, *state),
            state.moved@.dom() == s0.moved@.dom().union(moved_captures(s0, texts(names@.take(i as int)))),
        decreases names@.len() - i,
    {
        let ghost before = state.moved@.dom();
        if state.ownership_of_var(names[i].as_str()) == OwnershipKind::Move {
            state.mark_moved(names[i].as_str(), record_move_origin(None, span.clone()));
        }
        proof {
            let pre = texts(names@.take(i as int));
            let post = texts(names@.take(i + 1));
            assert(post =~= pre.push(names@[i as int]@));
            assert(state.moved@.dom() =~= s0.moved@.dom().union(moved_captures(s0, post))) by {
                assert forall|n: Seq<char>| #[trigger] post.contains(n) implies pre.contains(n) || n == names@[i as int]@ by {
                    let k = choose|k: int| 0 <= k < post.len() && post[k] == n;
                    if k < pre.len() {
                        assert(pre[k] == n);
                    }
                }
                assert forall|n: Seq<char>| #[trigger] pre.contains(n) implies post.contains(n) by {
                    let k = choose|k: int| 0 <= k < pre.len() && pre[k] == n;
                    assert(post[k] == n);
                }
                assert(post[i as int] == names@[i as int]@);
            }
        }
        i = i + 1;
    }
    proof {
        assert(names@.take(names@.len() as int) =~= names@);
    }
}

/// The names bound in `m`.
fn key_set(m: &NameMap<VarInfo>) -> (r: NameSet)
    requires
        m.wf(),
    ensures
        r.wf(),
        r@ == m@.dom(),
{
    let mut r = NameSet::new();
    let mut i: usize = 0;
    while i < m.entries.len()
        invariant
            r.wf(),
            i <= m.entries@.len(),
            r@ == Set::new(|n: Seq<char>| exists|j: int| 0 <= j < i && #[trigger] m.entries@[j].0@ == n),
        decreases m.entries@.len() - i,
    {
        r.insert(m.entries[i].0.as_str());
        proof {
            assert(r@ =~= Set::new(|n: Seq<char>| exists|j: int| 0 <= j < i + 1 && #[trigger] m.entries@[j].0@ == n)) by {
                assert(m.entries@[i as int].0@ == m.entries@[i as int].0@);
            }
        }
        i = i + 1;
    }
    proof {
        crate::names::lemma_map_of_get(m.entries@);
        assert(r@ =~= m@.dom());
    }
    r
}

/// A well-formed copy of `m` with the same mapping.
fn normalized(m: &NameMap<usize>) -> (r: NameMap<usize>)
    ensures
        r.wf(),
        r@ == m@,
{
    let mut r: NameMap<usize> = NameMap::new();
    let mut i: usize = 0;
    while i < m.entries.len()
        invariant
            r.wf(),
            i <= m.entries@.len(),
            r@ == map_of(m.entries@.take(i as int)),
        decreases m.entries@.len() - i,
    {
        r.insert(m.entries[i].0.as_str(), m.entries[i].1);
        proof {
            let t = m.entries@.take(i + 1);
            assert(t.drop_last() =~= m.entries@.take(i as int));
        }
        i = i + 1;
    }
    proof {
        assert(m.entries@.take(m.entries@.len() as int) =~= m.entries@);
    }
    r
}

/// Reports each capture problem found by the ownership analysis.
fn report_problems(problems: Vec<String>, errors: &mut Vec<BorrowError>)
    ensures
        extends(old(errors)@, final(errors)@),
        final(errors)@.len() == old(errors)@.len() + problems@.len(),
        forall|k: int| 0 <= k < problems@.len() ==> #[trigger] final(errors)@[old(errors)@.len() + k]
            == (BorrowError::OwnershipProblem { message: problems@[k] }),
{
    let mut i: usize = 0;
    let ghost e0 = errors@;
    assert(e0.take(e0.len() as int) =~= e0);
    while i < problems.len()
        invariant
            i <= problems@.len(),
            extends(e0, errors@),
            errors@.len() == e0.len() + i,
            forall|k: int| 0 <= k < i ==> #[trigger] errors@[e0.len() + k]
                == (BorrowError::OwnershipProblem { message: problems@[k] }),
        decreases problems@.len() - i,
    {
        let ghost e1 = errors@;
        errors.push(BorrowError::OwnershipProblem { message: problems[i].clone() });
        proof {
            lemma_extends_push(e1, errors@.last());
            assert(errors@ == e1.push(errors@.last()));
            lemma_extends_trans(e0, e1, errors@);
        }
        i = i + 1;
    }
}

/// Is any borrow live?
fn any_borrow_live(state: &BorrowState) -> (r: bool)
    requires
        state.wf(),
    ensures
        r == (state.active_borrows@.len() > 0),
{
    let r = state.borrowed_mut.len() > 0 || state.borrowed_imm.len() > 0;
    proof {
        let bs = state.active_borrows@;
        if bs.len() > 0 {
            if bs[0].mutable {
                assert(state.borrowed_mut@.contains(bs[0].source@));
                let k = choose|k: int| 0 <= k < state.borrowed_mut.names@.len() && #[trigger] state.borrowed_mut.names@[k]@ == bs[0].source@;
            } else {
                assert(state.borrowed_imm@.contains(bs[0].source@));
                let k = choose|k: int| 0 <= k < state.borrowed_imm.names@.len() && #[trigger] state.borrowed_imm.names@[k]@ == bs[0].source@;
            }
        }
        if state.borrowed_mut.names@.len() > 0 {
            assert(state.borrowed_mut@.contains(state.borrowed_mut.names@[0]@));
        }
        if state.borrowed_imm.names@.len() > 0 {
            assert(state.borrowed_imm@.contains(state.borrowed_imm.names@[0]@));
        }
    }
    r
}

/// Only bindings of Move kind became moved from `a` to `b`, and none stopped
/// being moved.
pub open spec fn moves_only_owned(a: BorrowState, b: BorrowState) -> bool {
    &&& a.moved@.dom().subset_of(b.moved@.dom())
    &&& forall|n: Seq<char>| #[trigger] b.moved@.contains_key(n) && !a.moved@.contains_key(n)
        ==> a.kind_of_var(n) == OwnershipKind::Move
}

/// A closure moves the captured bindings of Move kind into itself.
fn mark_arrow_capture_moves<F: OwnershipFacts>(arrow: &ArrowFnExpr, state: &mut BorrowState, facts: &F)
    requires
        old(state).wf(),
    ensures
        final(state).wf(),
        only_moves_changed(*old(state), *final(state)),
        moves_only_owned(*old(state), *final(state)),
        exists|captured: Seq<Seq<char>>| final(state).moved@.dom() == old(state).moved@.dom().union(
            #[trigger] moved_captures(*old(state), captured),
        ),
{
    let outer = key_set(&state.var_types);
    let names = facts.arrow_captures(arrow, &outer);
    mark_captures_moved(&names, &arrow.span, state);
    assert(state.moved@.dom() == old(state).moved@.dom().union(moved_captures(*old(state), texts(names@))));
}

/// The type facts `&` (or `&mut` when `mutable`) puts before those of the value.
pub open spec fn ref_prefix(mutable: bool) -> Seq<char> {
    if mutable {
        "&mut "@
    } else {
        "&"@
    }
}

/// The label of the unknown type.
pub open spec fn is_unknown_type(info: VarInfo) -> bool {
    info.label@ == "_"@
}

/// Binding `n` is declared with a known type.
pub open spec fn known_type(st: BorrowState, n: Seq<char>) -> bool {
    st.var_types@.contains_key(n) && !is_unknown_type(st.var_types@[n])
}

fn is_unknown(info: &VarInfo) -> (r: bool)
    ensures
        r == is_unknown_type(*info),
{
    crate::text::str_eq(info.label.as_str(), "_")
}

/// Facts of the binding's known type, if it has one.
fn known_info(state: &BorrowState, name: &str) -> (r: Option<VarInfo>)
    requires
        state.wf(),
    ensures
        match r {
            Some(i) => known_type(*state, name@) && i == state.var_types@[name@],
            None => !known_type(*state, name@),
        },
{
    match state.var_types.get(name) {
        Some(t) => {
            if is_unknown(t) {
                None
            } else {
                Some(t.duplicate())
            }
        },
        None => None,
    }
}

/// The facts a reference `&operand` (or `&mut`) refers through: those of a
/// binding of known type, else what the ownership analysis infers.
pub open spec fn ref_inner_info<F: OwnershipFacts>(facts: &F, vt: Map<Seq<char>, VarInfo>, operand: Expression) -> VarInfo {
    match operand {
        Expression::Variable { name, .. } => if vt.contains_key(name@) && !is_unknown_type(vt[name@]) {
            vt[name@]
        } else {
            facts.spec_expr_info(operand)
        },
        _ => facts.spec_expr_info(operand),
    }
}

/// `r` is the type facts of a `let` binding without a written type, whose
/// value is `e`, with bindings typed by `vt`: a reference gets `&`/`&mut`
/// before the facts it refers through and the reference kind the analysis
/// gives; a copy of a binding of known type gets its facts; anything else
/// what the analysis infers for `e`.
pub open spec fn inferred_info<F: OwnershipFacts>(facts: &F, vt: Map<Seq<char>, VarInfo>, e: Expression, r: VarInfo) -> bool {
    match e {
        Expression::Unary(u) => if u.op == UnaryOp::Ref || u.op == UnaryOp::RefMut {
            let inner = ref_inner_info(facts, vt, u.operand);
            let m = u.op == UnaryOp::RefMut;
            &&& r.is_ref
            &&& r.kind == facts.spec_ref_kind(inner, m)
            &&& r.label@ == ref_prefix(m) + inner.label@
        } else {
            r == facts.spec_expr_info(e)
        },
        Expression::Variable { name, .. } => if vt.contains_key(name@) && !is_unknown_type(vt[name@]) {
            r == vt[name@]
        } else {
            r == facts.spec_expr_info(e)
        },
        _ => r == facts.spec_expr_info(e),
    }
}

/// The type facts of a `let` binding without a written type: a reference to
/// a binding gets `&` before that binding's facts; a copy of a binding of
/// known type gets its facts; anything else what the ownership analysis infers.
fn infer_let_type<F: OwnershipFacts>(expr: &Expression, state: &BorrowState, facts: &F) -> (r: VarInfo)
    requires
        state.wf(),
    ensures
        inferred_info(facts, state.var_types@, *expr, r),
        match expr {
            Expression::Unary(u) => (u.op == UnaryOp::Ref || u.op == UnaryOp::RefMut) ==> {
                &&& r.is_ref
                &&& (u.operand matches Expression::Variable { name, .. } ==> (known_type(*state, name@)
                    ==> r.label@ == ref_prefix(u.op == UnaryOp::RefMut) + state.var_types@[name@].label@))
            },
            Expression::Variable { name, .. } => known_type(*state, name@) ==> r == state.var_types@[name@],
            _ => true,
        },
{
    if let Expression::Unary(u) = expr {
        if u.op == UnaryOp::Ref || u.op == UnaryOp::RefMut {
            let inner = match &u.operand {
                Expression::Variable { name, .. } => match known_info(state, name.as_str()) {
                    Some(i) => i,
                    None => facts.expr_info(&u.operand),
                },
                other => facts.expr_info(other),
            };
            let mutable = u.op == UnaryOp::RefMut;
            let label = if mutable {
                String::from_str("&mut ").concat(inner.label.as_str())
            } else {
                String::from_str("&").concat(inner.label.as_str())
            };
            let kind = facts.ref_kind(&inner, mutable);
            return VarInfo { label, kind, is_ref: true };
        }
    }
    if let Expression::Variable { name, .. } = expr {
        if let Some(i) = known_info(state, name.as_str()) {
            return i;
        }
    }
    facts.expr_info(expr)
}

/// Does `let x = expr` move a value into `x`? A binding of Move kind, a call
/// returning an owned value, a template or a string literal.
fn should_move_binding<F: OwnershipFacts>(expr: &Expression, state: &BorrowState, facts: &F) -> (r: bool)
    requires
        state.wf(),
    ensures
        match expr {
            Expression::Variable { name, .. } => r == (state.kind_of_var(name@) == OwnershipKind::Move),
            Expression::Call(c) => r == facts.spec_callee_returns_owned(c.callee@),
            Expression::TemplateLiteral(_) => r,
            Expression::Literal(Literal::String(_)) => r,
            _ => !r,
        },
{
    match expr {
        Expression::Variable { name, .. } => state.ownership_of_var(name.as_str()) == OwnershipKind::Move,
        Expression::Call(c) => facts.callee_returns_owned(c.callee.as_str()),
        Expression::TemplateLiteral(_) => true,
        Expression::Literal(Literal::String(_)) => true,
        _ => false,
    }
}

/// Marks what evaluating `expr` moves: a binding of Move kind, a binding whose
/// field of Move kind is taken, the arguments of a call, the receiver and
/// arguments of a method that takes them, and the captures of a closure.
fn mark_moved_from_expr<F: OwnershipFacts>(
    expr: &Expression,
    state: &mut BorrowState,
    facts: &F,
    callee: Option<&str>,
    call_span: Option<&Span>,
)
    requires
        old(state).wf(),
    ensures
        final(state).wf(),
        only_moves_changed(*old(state), *final(state)),
        old(state).moved@.dom().subset_of(final(state).moved@.dom()),
        expr matches Expression::Variable { name, .. } ==> final(state).moved@.dom() == (if old(state).kind_of_var(
            name@,
        ) == OwnershipKind::Move {
            old(state).moved@.dom().insert(name@)
        } else {
            old(state).moved@.dom()
        }),
        expr is Literal ==> final(state).moved == old(state).moved,
        expr matches Expression::Call(c) ==> forall|k: int|
            0 <= k < c.args@.len() ==> (#[trigger] c.args@[k] matches Expression::Variable { name, .. }
                ==> (!old(state).mutable@.contains(name@) && old(state).kind_of_var(name@) == OwnershipKind::Move
                ==> final(state).moved@.contains_key(name@))),
    decreases expr,
{
    let sp = expr_span(expr);
    let origin_span = match call_span {
        Some(s) => s.clone(),
        None => sp,
    };
    match expr {
        Expression::Variable { name, .. } => {
            if state.ownership_of_var(name.as_str()) == OwnershipKind::Move {
                state.mark_moved(name.as_str(), record_move_origin(callee, origin_span));
            }
            proof {
                assert(state.moved@.dom() =~= (if old(state).kind_of_var(name@) == OwnershipKind::Move {
                    old(state).moved@.dom().insert(name@)
                } else {
                    old(state).moved@.dom()
                }));
            }
        },
        Expression::FieldAccess(fa) => {
            if let Expression::Variable { name: base, .. } = &fa.object {
                let k = match state.var_types.get(base.as_str()) {
                    Some(info) => facts.field_kind(info, fa.field.as_str()),
                    None => None,
                };
                if let Some(k) = k {
                    if k == OwnershipKind::Move {
                        state.mark_moved(base.as_str(), record_move_origin(callee, origin_span));
                    }
                }
            }
        },
        Expression::Call(c) => {
            let mut i: usize = 0;
            while i < c.args.len()
                invariant
                    state.wf(),
                    i <= c.args@.len(),
                    only_moves_changed(*old(state), *state),
                    old(state).moved@.dom().subset_of(state.moved@.dom()),
                    expr == Expression::Call(*c),
                    forall|k: int|
                        0 <= k < i ==> (#[trigger] c.args@[k] matches Expression::Variable { name, .. }
                            ==> (!old(state).mutable@.contains(name@) && old(state).kind_of_var(name@) == OwnershipKind::Move
                            ==> state.moved@.contains_key(name@))),
                decreases c.args@.len() - i,
            {
                let ghost sa = *state;
                if let Some((n, explicit)) = move_candidate(&c.args[i]) {
                    if (explicit || !state.mutable.contains(n)) && state.ownership_of_var(n) == OwnershipKind::Move {
                        state.mark_moved(n, record_move_origin(Some(c.callee.as_str()), c.span.clone()));
                    }
                }
                proof {
                    assert forall|k: int|
                        0 <= k < i + 1 implies (#[trigger] c.args@[k] matches Expression::Variable { name, .. }
                            ==> (!old(state).mutable@.contains(name@) && old(state).kind_of_var(name@) == OwnershipKind::Move
                            ==> state.moved@.contains_key(name@))) by {
                        if k < i {
                            if let Expression::Variable { name, .. } = c.args@[k] {
                                if sa.moved@.contains_key(name@) {
                                    assert(state.moved@.dom().contains(name@));
                                }
                            }
                        }
                    }
                }
                i = i + 1;
            }
        },
        Expression::MethodCall(mc) => {
            if !builtin_method_borrows_receiver(mc.method.as_str()) {
                mark_moved_from_expr(&mc.object, state, facts, Some(mc.method.as_str()), Some(&mc.span));
            }
            mark_moved_in_args(&mc.args, state, facts, mc.method.as_str(), &mc.span);
        },
        Expression::ArrowFn(arrow) => {
            if facts.arrow_has_captures(arrow) {
                mark_arrow_capture_moves(arrow, state, facts);
            }
        },
        _ => {},
    }
}

/// When `e` is a binding of Move kind in `a`, it is moved in `b`.
pub open spec fn var_arg_moved(a: BorrowState, b: BorrowState, e: Expression) -> bool {
    match e {
        Expression::Variable { name, .. } => a.kind_of_var(name@) == OwnershipKind::Move ==> b.moved@.contains_key(name@),
        _ => true,
    }
}

/// [`mark_moved_from_expr`] on each argument of a method call.
fn mark_moved_in_args<F: OwnershipFacts>(
    args: &Vec<Expression>,
    state: &mut BorrowState,
    facts: &F,
    method: &str,
    call_span: &Span,
)
    requires
        old(state).wf(),
    ensures
        final(state).wf(),
        only_moves_changed(*old(state), *final(state)),
        old(state).moved@.dom().subset_of(final(state).moved@.dom()),
        forall|k: int| 0 <= k < args@.len() ==> var_arg_moved(*old(state), *final(state), #[trigger] args@[k]),
    decreases args,
{
    let mut i: usize = 0;
    while i < args.len()
        invariant
            state.wf(),
            i <= args@.len(),
            only_moves_changed(*old(state), *state),
            old(state).moved@.dom().subset_of(state.moved@.dom()),
            forall|k: int| 0 <= k < i ==> var_arg_moved(*old(state), *state, #[trigger] args@[k]),
        decreases args@.len() - i,
    {
        let ghost before = *state;
        mark_moved_from_expr(&args[i], state, facts, Some(method), Some(call_span));
        proof {
            assert forall|k: int| 0 <= k < i + 1 implies var_arg_moved(*old(state), *state, #[trigger] args@[k]) by {
                if k < i {
                    assert(var_arg_moved(*old(state), before, args@[k]));
                    assert(before.moved@.dom().subset_of(state.moved@.dom()));
                }
            }
        }
        i = i + 1;
    }
}

/// Moving argument `arg` into a call of `callee`: a binding (or `move x`) is
/// moved unless it is a mutable binding passed without `move`, or Copy; moving
/// a borrowed binding is refused.
fn try_move_arg(arg: &Expression, callee: &str, call_span: &Span, state: &mut BorrowState, errors: &mut Vec<BorrowError>)
    requires
        old(state).wf(),
    ensures
        keeps(*old(state), *final(state), old(errors)@, final(errors)@),
        only_moves_changed(*old(state), *final(state)),
        moves_only_owned(*old(state), *final(state)),
        match spec_move_candidate(arg) {
            None => *final(state) == *old(state) && final(errors)@ == old(errors)@,
            Some((n, explicit)) => {
                if (!explicit && old(state).mutable@.contains(n)) || old(state).kind_of_var(n) == OwnershipKind::Copy {
                    *final(state) == *old(state) && final(errors)@ == old(errors)@
                } else if old(state).is_borrowed(n) {
                    &&& *final(state) == *old(state)
                    &&& final(errors)@.len() == old(errors)@.len() + 1
                    &&& final(errors)@.last() matches BorrowError::MoveWhileBorrowed { name } && name@ == n
                } else {
                    final(state).moved@.dom() == old(state).moved@.dom().insert(n) && final(errors)@ == old(errors)@
                }
            },
        },
{
    proof {
        lemma_keeps_refl(*state, errors@);
    }
    let (name, explicit) = match move_candidate(arg) {
        Some(p) => p,
        None => {
            return;
        },
    };
    let ghost e0 = errors@;
    match state.try_move_on_call(name, explicit, callee, call_span.clone()) {
        Ok(()) => {},
        Err(e) => {
            errors.push(e);
            proof {
                lemma_extends_push(e0, errors@.last());
                assert(errors@ == e0.push(errors@.last()));
            }
        },
    }
    proof {
        assert(state.moved@.dom() =~= old(state).moved@.dom().insert(name@) || state.moved@.dom() == old(state).moved@.dom());
    }
}

/// The borrow checks of an expression statement: its reads (an error for each
/// moved or borrowed binding it reads, and nothing more when there is one),
/// the borrows it takes, the arguments a call moves, the captures a closure
/// argument moves, and what a method call takes or borrows.
pub fn check_expr_moves<F: OwnershipFacts>(
    expr: &Expression,
    stmt_idx: usize,
    state: &mut BorrowState,
    facts: &F,
    errors: &mut Vec<BorrowError>,
)
    requires
        old(state).wf(),
        stmt_idx < usize::MAX,
    ensures
        keeps(*old(state), *final(state), old(errors)@, final(errors)@),
        conflicted(old(state), used_expr(expr)).len() > 0 ==> {
            &&& reported(old(state), old(errors)@, final(errors)@, used_expr(expr))
            &&& *final(state) == *old(state)
        },
        crate::moves::plain_read(expr) && conflicted(old(state), used_expr(expr)).len() == 0 ==> {
            &&& final(errors)@ == old(errors)@
            &&& crate::moves::bviews(final(state).active_borrows@) == crate::moves::bviews(old(state).active_borrows@)
            &&& final(state).moved == old(state).moved
        },
    decreases expr,
{
    let ghost e0 = errors@;
    let ghost s0 = *state;
    if uses_moved(expr, state, errors) {
        return;
    }
    proof {
        assert(errors@ =~= e0);
    }
    register_borrows_from_expr(expr, stmt_idx, state, errors);
    let ghost s1 = *state;
    let ghost e1 = errors@;
    assert(keeps(s0, s1, e0, e1));
    proof {
        if crate::moves::plain_read(expr) {
            crate::moves::lemma_plain_read_registers_nothing(expr, s0.moved@.dom(), crate::moves::bviews(s0.active_borrows@), stmt_idx);
            assert(crate::moves::error_views(e1) =~= crate::moves::error_views(e0));
            assert(e1.len() == e0.len()) by {
                assert(crate::moves::error_views(e1).len() == e1.len());
                assert(crate::moves::error_views(e0).len() == e0.len());
            }
            assert(e1 =~= e0.take(e0.len() as int));
        }
    }
    match expr {
        Expression::Call(c) => {
            if crate::text::str_eq(c.callee.as_str(), "print") || crate::text::str_eq(c.callee.as_str(), "write")
                || crate::text::str_eq(c.callee.as_str(), "println") {
                check_args_moves(&c.args, stmt_idx, state, facts, errors);
                proof {
                    lemma_keeps_trans(s0, s1, *state, e0, e1, errors@);
                }
                return;
            }
            let mut i: usize = 0;
            while i < c.args.len()
                invariant
                    i <= c.args@.len(),
                    keeps(s0, *state, e0, errors@),
                decreases c.args@.len() - i,
            {
                let ghost sa = *state;
                let ghost ea = errors@;
                proof {
                    lemma_keeps_refl(sa, ea);
                }
                match &c.args[i] {
                    Expression::ArrowFn(arrow) => {
                        if facts.arrow_has_captures(arrow) {
                            closure_argument(arrow, state, facts, errors);
                        }
                    },
                    other => {
                        try_move_arg(other, c.callee.as_str(), &c.span, state, errors);
                    },
                }
                proof {
                    lemma_keeps_trans(s0, sa, *state, e0, ea, errors@);
                }
                i = i + 1;
            }
        },
        Expression::MethodCall(mc) => {
            proof {
                lemma_keeps_refl(s1, e1);
            }
            if !builtin_method_borrows_receiver(mc.method.as_str()) {
                try_move_arg(&mc.object, mc.method.as_str(), &mc.span, state, errors);
            } else if let Expression::Variable { name, .. } = &mc.object {
                state.add_borrow(name.as_str(), false, stmt_idx, None);
            }
            proof {
                lemma_keeps_trans(s0, s1, *state, e0, e1, errors@);
            }
            let mut i: usize = 0;
            while i < mc.args.len()
                invariant
                    i <= mc.args@.len(),
                    keeps(s0, *state, e0, errors@),
                decreases mc.args@.len() - i,
            {
                let ghost sa = *state;
                let ghost ea = errors@;
                if move_candidate(&mc.args[i]).is_some() {
                    try_move_arg(&mc.args[i], mc.method.as_str(), &mc.span, state, errors);
                    proof {
                        lemma_keeps_trans(s0, sa, *state, e0, ea, errors@);
                    }
                }
                i = i + 1;
            }
            if crate::text::str_eq(mc.method.as_str(), "join") {
                let ghost sa = *state;
                let ghost ea = errors@;
                try_move_arg(&mc.object, "join", &mc.span, state, errors);
                proof {
                    lemma_keeps_trans(s0, sa, *state, e0, ea, errors@);
                }
            }
        },
        _ => {},
    }
}

/// A capturing closure passed as an argument: an error when borrows are live,
/// the capture problems the ownership analysis finds, and the captures of
/// Move kind are moved.
fn closure_argument<F: OwnershipFacts>(arrow: &ArrowFnExpr, state: &mut BorrowState, facts: &F, errors: &mut Vec<BorrowError>)
    requires
        old(state).wf(),
    ensures
        keeps(*old(state), *final(state), old(errors)@, final(errors)@),
        only_moves_changed(*old(state), *final(state)),
        moves_only_owned(*old(state), *final(state)),
        old(state).active_borrows@.len() > 0 ==> final(errors)@[old(errors)@.len() as int] == (BorrowError::BorrowsActiveAt {
            site: BorrowSite::Closure,
        }),
{
    let ghost e0 = errors@;
    proof {
        assert(e0.take(e0.len() as int) =~= e0);
    }
    if any_borrow_live(state) {
        errors.push(BorrowError::BorrowsActiveAt { site: BorrowSite::Closure });
        proof {
            lemma_extends_push(e0, errors@.last());
            assert(errors@ == e0.push(errors@.last()));
        }
    }
    let ghost e1 = errors@;
    let problems = facts.closure_capture_problems(arrow, &state.var_types);
    report_problems(problems, errors);
    proof {
        lemma_extends_trans(e0, e1, errors@);
        if old(state).active_borrows@.len() > 0 {
            assert(errors@[e0.len() as int] == errors@.take(e1.len() as int)[e0.len() as int]);
        }
    }
    mark_arrow_capture_moves(arrow, state, facts);
}

/// [`check_expr_moves`] on each argument, in order.
fn check_args_moves<F: OwnershipFacts>(
    args: &Vec<Expression>,
    stmt_idx: usize,
    state: &mut BorrowState,
    facts: &F,
    errors: &mut Vec<BorrowError>,
)
    requires
        old(state).wf(),
        stmt_idx < usize::MAX,
    ensures
        keeps(*old(state), *final(state), old(errors)@, final(errors)@),
    decreases args,
{
    let ghost s0 = *state;
    let ghost e0 = errors@;
    proof {
        lemma_keeps_refl(s0, e0);
    }
    let mut i: usize = 0;
    while i < args.len()
        invariant
            i <= args@.len(),
            stmt_idx < usize::MAX,
            keeps(s0, *state, e0, errors@),
        decreases args@.len() - i,
    {
        let ghost sa = *state;
        let ghost ea = errors@;
        check_expr_moves(&args[i], stmt_idx, state, facts, errors);
        proof {
            lemma_keeps_trans(s0, sa, *state, e0, ea, errors@);
        }
        i = i + 1;
    }
}

/// Conflicting reads depend only on the moved and borrowed sets.
proof fn lemma_same_reads(a: &BorrowState, b: &BorrowState, names: Seq<Seq<char>>, eo: Seq<BorrowError>, en: Seq<BorrowError>)
    requires
        a.moved == b.moved,
        a.borrowed_imm == b.borrowed_imm,
        a.borrowed_mut == b.borrowed_mut,
    ensures
        conflicted(a, names) == conflicted(b, names),
        reported(a, eo, en, names) == reported(b, eo, en, names),
    decreases names.len(),
{
    if names.len() > 0 {
        lemma_same_reads(a, b, names.drop_last(), eo, en);
    }
    let c = conflicted(a, names);
    assert forall|i: int| 0 <= i < c.len() implies crate::moves::use_error_for(en[eo.len() + i], a, c[i])
        == crate::moves::use_error_for(en[eo.len() + i], b, c[i]) by {}
}

/// A binding named by `e` (also through `move`/`clone`) is its only read.
proof fn lemma_binding_name_read(e: &Expression)
    ensures
        spec_binding_name(e) matches Some(v) ==> used_expr(e) == seq![v],
    decreases e,
{
    if let Expression::Unary(u) = e {
        lemma_binding_name_read(&u.operand);
    }
}

/// How deeply `unsafe` blocks nest in a block's statements.
pub open spec fn unsafe_nesting_block(b: &Block) -> nat
    decreases b, 1nat,
{
    unsafe_nesting_stmts(b.statements@)
}

/// How deeply `unsafe` blocks nest in a sequence of statements.
pub open spec fn unsafe_nesting_stmts(s: Seq<Statement>) -> nat
    decreases s, s.len(),
{
    if s.len() == 0 {
        0
    } else {
        let a = unsafe_nesting_stmts(s.drop_last());
        let b = unsafe_nesting_stmt(&s.last());
        if a >= b {
            a
        } else {
            b
        }
    }
}

/// How deeply `unsafe` blocks nest in a statement.
pub open spec fn unsafe_nesting_stmt(st: &Statement) -> nat
    decreases st, 0nat,
{
    match st {
        Statement::Unsafe(b) => 1 + unsafe_nesting_block(b),
        Statement::If(i) => {
            let t = unsafe_nesting_block(&i.then_block);
            let e = match &i.else_block {
                Some(eb) => unsafe_nesting_block(eb),
                None => 0,
            };
            if t >= e {
                t
            } else {
                e
            }
        },
        Statement::While(w) => unsafe_nesting_block(&w.body),
        Statement::For(f) => unsafe_nesting_block(&f.body),
        Statement::Spawn(b) => unsafe_nesting_block(b),
        Statement::Benchmark(b) => unsafe_nesting_block(b),
        _ => 0,
    }
}

/// What `let name = value` (or `const`) does when its value reads nothing
/// moved or borrowed: it declares `name` (as `mut` when written so) and no
/// other binding; without a written type, a reference to a binding of known
/// type gets that type behind `&`/`&mut`, and a copy of such a binding its
/// type; `let name = src` with `src` of Move kind moves `src` into `name`
/// (and records `src → name`); `let name = &src` (or `&mut src`) makes `name`
/// refer to `src` and moves nothing, and its borrow of `src` is the last one
/// registered and the only one of `src`; `let name = f(args)` moves each
/// argument that is an immutable binding of Move kind when `f` returns an
/// owned value, and moves nothing otherwise; `let name = src` registers no borrow, and moves nothing
/// when `src` is not of Move kind.
pub open spec fn let_effect<F: OwnershipFacts>(
    a: BorrowState,
    b: BorrowState,
    l: &LetStmt,
    facts: &F,
    lu: Map<Seq<char>, usize>,
    blen: usize,
) -> bool {
    let n = l.name@;
    &&& b.var_types@.dom() == a.var_types@.dom().insert(n)
    &&& forall|k: Seq<char>| k != n && #[trigger] a.var_types@.contains_key(k) ==> b.var_types@[k] == a.var_types@[k]
    &&& (l.mutable ==> b.mutable@.contains(n))
    &&& (l.ty is None ==> match &l.value {
        Expression::Unary(u) => (u.op == UnaryOp::Ref || u.op == UnaryOp::RefMut) ==> {
            &&& b.var_types@[n].is_ref
            &&& (u.operand matches Expression::Variable { name: x, .. } ==> (known_type(a, x@)
                ==> b.var_types@[n].label@ == ref_prefix(u.op == UnaryOp::RefMut) + a.var_types@[x@].label@))
        },
        Expression::Variable { name: x, .. } => known_type(a, x@) ==> b.var_types@[n] == a.var_types@[x@],
        _ => true,
    })
    &&& (l.value matches Expression::Variable { name: src, .. } ==> (b.kind_of_var(src@) == OwnershipKind::Move ==> {
        &&& b.moved@.contains_key(src@)
        &&& b.move_from@[n]@ == src@
        &&& b.move_to@[src@]@ == n
    }))
    &&& (ref_binding_source(&l.value) matches Some((src, _)) ==> b.ref_sources@[n]@ == src)
    &&& (ref_binding_source(&l.value) matches Some((src, m)) ==> {
        &&& b.active_borrows@.len() > 0
        &&& b.active_borrows@.last().source@ == src
        &&& b.active_borrows@.last().mutable == m
        &&& b.active_borrows@.last().borrower matches Some(h) && h@ == n
        &&& forall|k: int| 0 <= k < b.active_borrows@.len() - 1 ==> (#[trigger] b.active_borrows@[k]).source@ != src
        &&& b.moved@.dom() == a.moved@.dom()
        &&& b.active_borrows@.last().expires_after == expiry_of(lu, blen, n)
        &&& crate::moves::bviews(b.active_borrows@) == drop_source(crate::moves::bviews(a.active_borrows@), src).push(
            (src, m, expiry_of(lu, blen, n), Some(n)),
        )
    })
    &&& (l.ty matches Some(t) ==> b.var_types@[n] == facts.spec_annotation_info(t))
    &&& (l.ty is None ==> inferred_info(facts, a.var_types@, l.value, b.var_types@[n]))
    &&& (l.value is Literal ==> {
        &&& crate::moves::bviews(b.active_borrows@) == crate::moves::bviews(a.active_borrows@)
        &&& b.moved@.dom() == a.moved@.dom()
    })
    &&& (l.value matches Expression::Call(c) ==> {
        &&& (facts.spec_callee_returns_owned(c.callee@) ==> forall|k: int|
            0 <= k < c.args@.len() ==> (#[trigger] c.args@[k] matches Expression::Variable { name, .. }
                ==> (name@ != n && !a.mutable@.contains(name@) && a.kind_of_var(name@) == OwnershipKind::Move
                ==> b.moved@.contains_key(name@))))
        &&& (!facts.spec_callee_returns_owned(c.callee@) ==> b.moved@.dom() == a.moved@.dom())
    })
    &&& (l.value matches Expression::Variable { name: src, .. } ==> {
        &&& crate::moves::bviews(b.active_borrows@) == crate::moves::bviews(a.active_borrows@)
        &&& (b.kind_of_var(src@) != OwnershipKind::Move ==> b.moved@.dom() == a.moved@.dom())
    })
}

proof fn lemma_drop_source_excludes(bs: Seq<(Seq<char>, bool, usize, Option<Seq<char>>)>, n: Seq<char>)
    ensures
        forall|k: int| 0 <= k < drop_source(bs, n).len() ==> (#[trigger] drop_source(bs, n)[k]).0 != n,
    decreases bs.len(),
{
    if bs.len() > 0 {
        lemma_drop_source_excludes(bs.drop_last(), n);
        let r = drop_source(bs.drop_last(), n);
        if bs.last().0 != n {
            assert forall|k: int| 0 <= k < r.push(bs.last()).len() implies (#[trigger] r.push(bs.last())[k]).0 != n by {
                if k < r.len() {
                    assert(r.push(bs.last())[k] == r[k]);
                }
            }
        }
    }
}

/// The outcome of checking `let`/`const` `l` from state `a` with errors `ea`:
/// when the value reads a moved or borrowed binding, the errors for those
/// reads are all that is added and nothing is declared or moved; otherwise
/// see [`let_effect`], and a value that is a plain read or a reference to a
/// binding adds no error.
pub open spec fn let_outcome<F: OwnershipFacts>(
    a: BorrowState,
    b: BorrowState,
    ea: Seq<BorrowError>,
    eb: Seq<BorrowError>,
    l: &LetStmt,
    facts: &F,
    lu: Map<Seq<char>, usize>,
    blen: usize,
) -> bool {
    if conflicted(&a, used_expr(&l.value)).len() > 0 {
        &&& reported(&a, ea, eb, used_expr(&l.value))
        &&& b.var_types == a.var_types
        &&& b.moved == a.moved
    } else {
        &&& let_effect(a, b, l, facts, lu, blen)
        &&& (crate::moves::plain_read(&l.value) || ref_binding_source(&l.value) is Some) ==> eb == ea
    }
}

/// Checks `let name = value` (or `const`) at statement `stmt_idx` of a block
/// whose last statement is `block_len`: see [`let_effect`]. When the value
/// reads a moved or borrowed binding, the errors for those reads are all it
/// adds, and nothing is declared or moved.
fn check_let<F: OwnershipFacts>(
    l: &LetStmt,
    stmt_idx: usize,
    last_uses: &NameMap<usize>,
    block_len: usize,
    state: &mut BorrowState,
    facts: &F,
    errors: &mut Vec<BorrowError>,
)
    requires
        old(state).wf(),
        last_uses.wf(),
        stmt_idx < usize::MAX,
    ensures
        keeps(*old(state), *final(state), old(errors)@, final(errors)@),
        let_outcome(*old(state), *final(state), old(errors)@, final(errors)@, l, facts, last_uses@, block_len),
{
    let ghost s0 = *state;
    let ghost e0 = errors@;
    state.clear_provenance_for(l.name.as_str());
    let ghost s1 = *state;
    proof {
        lemma_same_reads(&s0, &s1, used_expr(&l.value), e0, e0);
    }
    if uses_moved(&l.value, state, errors) {
        proof {
            lemma_same_reads(&s0, &s1, used_expr(&l.value), e0, errors@);
            assert(errors@.take(e0.len() as int) == e0);
        }
        return;
    }
    proof {
        assert(errors@ =~= e0);
        lemma_keeps_refl(s1, e0);
    }
    let is_ref_binding = match &l.value {
        Expression::Unary(u) => (u.op == UnaryOp::Ref || u.op == UnaryOp::RefMut) && match &u.operand {
            Expression::Variable { .. } => true,
            _ => false,
        },
        _ => false,
    };
    if !is_ref_binding {
        register_borrows_from_expr(&l.value, stmt_idx, state, errors);
    }
    let ghost s2 = *state;
    let ghost e2 = errors@;
    proof {
        if crate::moves::plain_read(&l.value) {
            crate::moves::lemma_plain_read_registers_nothing(&l.value, s1.moved@.dom(), crate::moves::bviews(s1.active_borrows@), stmt_idx);
            assert(crate::moves::error_views(e2) =~= crate::moves::error_views(e0));
            assert(e2.len() == e0.len()) by {
                assert(crate::moves::error_views(e2).len() == e2.len());
                assert(crate::moves::error_views(e0).len() == e0.len());
            }
            assert(e2 =~= e0.take(e0.len() as int));
        }
    }
    assert(keeps(s1, s2, e0, e2));
    proof {
        lemma_keeps_refl(s2, e2);
    }
    if let Expression::ArrowFn(arrow) = &l.value {
        closure_argument(arrow, state, facts, errors);
        proof {
            lemma_keeps_trans(s1, s2, *state, e0, e2, errors@);
        }
    }
    let ghost s3 = *state;
    let ghost e3 = errors@;
    assert(s3.var_types == s0.var_types);
    let info = match &l.ty {
        Some(t) => facts.annotation_info(t),
        None => infer_let_type(&l.value, state, facts),
    };
    state.declare_var(l.name.as_str(), info, l.mutable);
    let ghost s4 = *state;
    if should_move_binding(&l.value, state, facts) {
        if let Expression::Variable { name: src, .. } = &l.value {
            state.record_let_move(l.name.as_str(), src.as_str());
        }
        mark_moved_from_expr(&l.value, state, facts, None, None);
    }
    let ghost s5 = *state;
    assert(s5.var_types == s4.var_types);
    let ghost s6 = *state;
    register_ref_binding_borrow(l.name.as_str(), &l.value, last_uses, block_len, state);
    proof {
        if let Some((src, m)) = ref_binding_source(&l.value) {
            let bs = state.active_borrows@;
            assert(crate::moves::bviews(bs).len() == bs.len());
            assert(crate::moves::bviews(bs)[bs.len() - 1] == crate::moves::bview(bs[bs.len() - 1]));
            let d = drop_source(crate::moves::bviews(s6.active_borrows@), src);
            lemma_drop_source_excludes(crate::moves::bviews(s6.active_borrows@), src);
            assert forall|k: int| 0 <= k < bs.len() - 1 implies (#[trigger] bs[k]).source@ != src by {
                assert(crate::moves::bviews(bs)[k] == crate::moves::bview(bs[k]));
                assert(crate::moves::bviews(bs)[k] == d[k]);
            }
        }
        lemma_keeps_trans(s1, s2, s3, e0, e2, e3);
        assert(keeps(s0, s1, e0, e0));
        lemma_keeps_trans(s0, s1, s3, e0, e0, e3);
        assert(e3.take(e3.len() as int) =~= e3);
        assert(keeps(s3, *state, e3, errors@));
        lemma_keeps_trans(s0, s3, *state, e0, e3, errors@);
        assert(state.var_types@ =~= s4.var_types@);
        assert(state.var_types@.dom() =~= s0.var_types@.dom().insert(l.name@));
    }
}

/// The errors of `target = value` in state `st`, from `ea` to `eb`: an error
/// when the assigned binding is borrowed (first), then one error for each
/// moved or borrowed binding the value reads.
pub open spec fn assign_outcome(st: &BorrowState, ea: Seq<BorrowError>, eb: Seq<BorrowError>, a: &AssignStmt) -> bool {
    let k = match spec_binding_name(&a.target) {
        Some(n) => if st.is_borrowed(n) { 1int } else { 0int },
        None => 0int,
    };
    &&& ea.len() + k <= eb.len()
    &&& eb.take(ea.len() as int) == ea
    &&& (spec_binding_name(&a.target) matches Some(n) ==> (st.is_borrowed(n) ==> (eb[ea.len() as int] matches BorrowError::AssignWhileBorrowed { name, mutably } && name@ == n && mutably
        == st.borrowed_mut@.contains(n))))
    &&& reported(st, eb.take(ea.len() + k), eb, used_expr(&a.value))
}

/// Checks `target = value`: an error when the assigned binding is borrowed
/// (first), then one error for each moved or borrowed binding the value
/// reads. An assignment changes nothing else.
fn check_assign(a: &AssignStmt, state: &BorrowState, errors: &mut Vec<BorrowError>)
    requires
        state.wf(),
    ensures
        assign_outcome(state, old(errors)@, final(errors)@, a),
{
    let ghost e0 = errors@;
    proof {
        assert(e0.take(e0.len() as int) =~= e0);
    }
    if let Some(name) = variable_name(&a.target) {
        if let Some(e) = state.assign_conflict(name) {
            errors.push(e);
            proof {
                assert(errors@.take(e0.len() as int) =~= e0);
            }
        }
    }
    let ghost e1 = errors@;
    assert(e1.take(e1.len() as int) =~= e1);
    if uses_moved(&a.value, state, errors) {
        proof {
            assert(errors@.take(e1.len() as int) == e1);
            assert(errors@.take(e0.len() as int) =~= e1.take(e0.len() as int));
            if e1.len() > e0.len() {
                assert(errors@[e0.len() as int] == errors@.take(e1.len() as int)[e0.len() as int]);
            }
        }
        return;
    }
    proof {
        assert(errors@ =~= e1);
        lemma_binding_name_read(&a.value);
    }
    if let Some(v) = variable_name(&a.value) {
        if let Some(origin) = state.moved.get(v) {
            errors.push(BorrowError::UseAfterMove { name: String::from_str(v), callee: origin.duplicate().callee });
        }
    }
    proof {
        assert(errors@.take(e1.len() as int) =~= e1);
    }
}

/// Checks `return [value]`: the value's reads and borrows; returning a
/// binding of Move kind moves it.
fn check_return(r: &ReturnStmt, stmt_idx: usize, state: &mut BorrowState, errors: &mut Vec<BorrowError>)
    requires
        old(state).wf(),
        stmt_idx < usize::MAX,
    ensures
        keeps(*old(state), *final(state), old(errors)@, final(errors)@),
        final(state).var_types == old(state).var_types,
        r.value matches Some(v) ==> (spec_binding_name(&v) matches Some(n) ==> (old(state).kind_of_var(n)
            == OwnershipKind::Move ==> final(state).moved@.contains_key(n))),
        return_walk(*old(state), *final(state), old(errors)@, final(errors)@, r.value, stmt_idx),
{
    let ghost s0 = *state;
    let ghost e0 = errors@;
    proof {
        lemma_keeps_refl(s0, e0);
    }
    if let Some(v) = &r.value {
        let _ = uses_moved(v, state, errors);
        let ghost e1 = errors@;
        proof {
            lemma_keeps_refl(s0, e1);
        }
        register_borrows_from_expr(v, stmt_idx, state, errors);
        let ghost c = *state;
        assert(header_read(s0, c, e0, errors@, *v, stmt_idx, e1));
        proof {
            lemma_keeps_trans(s0, s0, *state, e0, e1, errors@);
        }
        if let Some(name) = variable_name(v) {
            if state.ownership_of_var(name) == OwnershipKind::Move {
                let ghost s2 = *state;
                state.mark_moved(name, record_move_origin(None, expr_span(v)));
                proof {
                    assert(state.moved@.dom() =~= s2.moved@.dom().insert(name@));
                    assert(errors@.take(errors@.len() as int) =~= errors@);
                    assert(keeps(s2, *state, errors@, errors@));
                    lemma_keeps_trans(s0, s2, *state, e0, errors@, errors@);
                }
            }
        }
    }
}

/// Errors `em` are `ea` followed by what a `free(name)` call adds (nothing
/// for any other expression).
pub open spec fn free_part(ea: Seq<BorrowError>, em: Seq<BorrowError>, e: &Expression) -> bool {
    &&& ea.len() <= em.len()
    &&& em.take(ea.len() as int) == ea
    &&& (match e {
        Expression::Call(c) => freed_binding(c) is None,
        _ => true,
    }) ==> em == ea
}

/// What an expression statement reports: when it reads moved or borrowed
/// bindings, after a `free` warning (if it is such a call) exactly one use
/// error per such read, in order, and nothing else happens; a plain read
/// (see `plain_read`) of bindings neither moved nor borrowed reports nothing,
/// registers no borrow and moves nothing.
pub open spec fn expr_stmt_outcome(a: BorrowState, b: BorrowState, ea: Seq<BorrowError>, eb: Seq<BorrowError>, e: &Expression) -> bool {
    &&& conflicted(&a, used_expr(e)).len() > 0 ==> exists|em: Seq<BorrowError>| #[trigger] free_part(ea, em, e) && reported(
        &a,
        em,
        eb,
        used_expr(e),
    )
    &&& crate::moves::plain_read(e) && conflicted(&a, used_expr(e)).len() == 0 ==> {
        &&& eb == ea
        &&& crate::moves::bviews(b.active_borrows@) == crate::moves::bviews(a.active_borrows@)
        &&& b.moved == a.moved
    }
}

/// The steps of a `print`: states `ss` and errors `es` before and after each
/// argument, each argument checked as an expression statement, then the
/// color's reads (reported when they conflict).
pub open spec fn print_trace(
    a: BorrowState,
    b: BorrowState,
    ea: Seq<BorrowError>,
    eb: Seq<BorrowError>,
    p: &PrintStmt,
    ss: Seq<BorrowState>,
    es: Seq<Seq<BorrowError>>,
) -> bool {
    let n = p.args@.len();
    &&& ss.len() == n + 1
    &&& es.len() == n + 1
    &&& ss[0] == a
    &&& es[0] == ea
    &&& forall|i: int| 0 <= i < n ==> #[trigger] expr_stmt_outcome(ss[i], ss[i + 1], es[i], es[i + 1], &p.args@[i])
        && keeps(ss[i], ss[i + 1], es[i], es[i + 1])
    &&& match &p.color {
        Some(c) => conflicted(&ss[n as int], used_expr(c)).len() > 0 ==> reported(&ss[n as int], es[n as int], eb, used_expr(c))
            && b == ss[n as int],
        None => b == ss[n as int] && eb == es[n as int],
    }
}

/// What a `print` reports (see `print_trace`).
pub open spec fn print_outcome(a: BorrowState, b: BorrowState, ea: Seq<BorrowError>, eb: Seq<BorrowError>, p: &PrintStmt) -> bool {
    exists|ss: Seq<BorrowState>, es: Seq<Seq<BorrowError>>| #[trigger] print_trace(a, b, ea, eb, p, ss, es)
}

/// Checks an expression statement (or `defer`): a `free(x)` call is recorded
/// first, then [`check_expr_moves`].
fn check_expr_statement<F: OwnershipFacts>(
    e: &Expression,
    stmt_idx: usize,
    state: &mut BorrowState,
    facts: &F,
    errors: &mut Vec<BorrowError>,
)
    requires
        old(state).wf(),
        stmt_idx < usize::MAX,
    ensures
        keeps(*old(state), *final(state), old(errors)@, final(errors)@),
        conflicted(old(state), used_expr(e)).len() > 0 ==> final(errors)@.len() > old(errors)@.len(),
        expr_stmt_outcome(*old(state), *final(state), old(errors)@, final(errors)@, e),
{
    let ghost s0 = *state;
    let ghost e0 = errors@;
    proof {
        lemma_keeps_refl(s0, e0);
    }
    if let Expression::Call(c) = e {
        check_nyra_free_call(c, state, errors);
    }
    let ghost s1 = *state;
    let ghost e1 = errors@;
    assert(keeps(s0, s1, e0, e1));
    proof {
        lemma_same_reads(&s0, &s1, used_expr(e), e1, e1);
    }
    check_expr_moves(e, stmt_idx, state, facts, errors);
    proof {
        lemma_keeps_trans(s0, s1, *state, e0, e1, errors@);
        if conflicted(&s0, used_expr(e)).len() > 0 {
            assert(free_part(e0, e1, e));
        }
    }
}

/// Checks `print(...)`: each argument as an expression statement, then the color.
fn check_print<F: OwnershipFacts>(p: &PrintStmt, stmt_idx: usize, state: &mut BorrowState, facts: &F, errors: &mut Vec<BorrowError>)
    requires
        old(state).wf(),
        stmt_idx < usize::MAX,
    ensures
        keeps(*old(state), *final(state), old(errors)@, final(errors)@),
        print_outcome(*old(state), *final(state), old(errors)@, final(errors)@, p),
{
    let ghost s0 = *state;
    let ghost e0 = errors@;
    let ghost mut ss: Seq<BorrowState> = seq![s0];
    let ghost mut es: Seq<Seq<BorrowError>> = seq![e0];
    proof {
        lemma_keeps_refl(s0, e0);
    }
    let mut i: usize = 0;
    while i < p.args.len()
        invariant
            i <= p.args@.len(),
            stmt_idx < usize::MAX,
            keeps(s0, *state, e0, errors@),
            ss.len() == i + 1,
            es.len() == i + 1,
            ss[0] == s0,
            es[0] == e0,
            ss[i as int] == *state,
            es[i as int] == errors@,
            forall|k: int| 0 <= k < i ==> #[trigger] expr_stmt_outcome(ss[k], ss[k + 1], es[k], es[k + 1], &p.args@[k])
                && keeps(ss[k], ss[k + 1], es[k], es[k + 1]),
        decreases p.args@.len() - i,
    {
        let ghost sa = *state;
        let ghost ea = errors@;
        check_expr_statement(&p.args[i], stmt_idx, state, facts, errors);
        proof {
            lemma_keeps_trans(s0, sa, *state, e0, ea, errors@);
            let ss0 = ss;
            let es0 = es;
            ss = ss.push(*state);
            es = es.push(errors@);
            assert(ss[i as int] == sa);
            assert(es[i as int] == ea);
            assert forall|k: int| 0 <= k < i + 1 implies #[trigger] expr_stmt_outcome(ss[k], ss[k + 1], es[k], es[k + 1], &p.args@[k])
                && keeps(ss[k], ss[k + 1], es[k], es[k + 1]) by {
                if k < i {
                    assert(ss[k] == ss0[k] && ss[k + 1] == ss0[k + 1] && es[k] == es0[k] && es[k + 1] == es0[k + 1]);
                }
            }
        }
        i = i + 1;
    }
    let ghost sn = *state;
    let ghost en = errors@;
    if let Some(c) = &p.color {
        let ghost sa = *state;
        let ghost ea = errors@;
        check_expr_moves(c, stmt_idx, state, facts, errors);
        proof {
            lemma_keeps_trans(s0, sa, *state, e0, ea, errors@);
        }
    }
    assert(print_trace(s0, *state, e0, errors@, p, ss, es));
}

proof fn lemma_nesting_elem(s: Seq<Statement>, i: int)
    requires
        0 <= i < s.len(),
    ensures
        unsafe_nesting_stmt(&s[i]) <= unsafe_nesting_stmts(s),
    decreases s.len(),
{
    if i < s.len() - 1 {
        lemma_nesting_elem(s.drop_last(), i);
        assert(s.drop_last()[i] == s[i]);
    }
}

/// Only the declared bindings changed from `a` to `b`.
pub open spec fn only_declarations_changed(a: BorrowState, b: BorrowState) -> bool {
    &&& b.moved == a.moved
    &&& b.active_borrows@ == a.active_borrows@
    &&& b.borrowed_imm == a.borrowed_imm
    &&& b.borrowed_mut == a.borrowed_mut
    &&& b.move_from == a.move_from
    &&& b.move_to == a.move_to
    &&& b.ref_sources == a.ref_sources
    &&& b.unsafe_depth == a.unsafe_depth
    &&& b.unknown_kind == a.unknown_kind
    &&& a.var_types@.dom().subset_of(b.var_types@.dom())
}

/// Declares the binding of `let`/`const` with its written or inferred type.
fn declare_let<F: OwnershipFacts>(l: &LetStmt, state: &mut BorrowState, facts: &F)
    requires
        old(state).wf(),
    ensures
        final(state).wf(),
        only_declarations_changed(*old(state), *final(state)),
        final(state).var_types@.dom() == old(state).var_types@.dom().insert(l.name@),
        l.mutable ==> final(state).mutable@.contains(l.name@),
{
    let info = match &l.ty {
        Some(t) => facts.annotation_info(t),
        None => infer_let_type(&l.value, state, facts),
    };
    state.declare_var(l.name.as_str(), info, l.mutable);
}

/// The bindings a statement declares inside `unsafe`: a `let` or `const`
/// binding, and those of a nested `unsafe` block.
pub open spec fn unsafe_declared_stmt(stmt: Statement) -> Set<Seq<char>>
    decreases stmt,
{
    match stmt {
        Statement::Let(l) => set![l.name@],
        Statement::Const(l) => set![l.name@],
        Statement::Unsafe(b) => unsafe_declared_stmts(b.statements@),
        _ => Set::empty(),
    }
}

/// The bindings a list of statements declares inside `unsafe`.
pub open spec fn unsafe_declared_stmts(s: Seq<Statement>) -> Set<Seq<char>>
    decreases s,
{
    if s.len() == 0 {
        Set::empty()
    } else {
        unsafe_declared_stmts(s.subrange(0, s.len() - 1)).union(unsafe_declared_stmt(s[s.len() - 1]))
    }
}

/// Inside `unsafe`: only declarations are recorded (nested `unsafe` blocks too);
/// nothing is moved, borrowed or reported.
fn check_statement_unsafe<F: OwnershipFacts>(stmt: &Statement, state: &mut BorrowState, facts: &F)
    requires
        old(state).wf(),
        old(state).unsafe_depth + unsafe_nesting_stmt(stmt) <= u32::MAX,
    ensures
        final(state).wf(),
        only_declarations_changed(*old(state), *final(state)),
        match stmt {
            Statement::Let(l) => final(state).var_types@.contains_key(l.name@),
            Statement::Const(l) => final(state).var_types@.contains_key(l.name@),
            _ => true,
        },
        final(state).var_types@.dom() == old(state).var_types@.dom().union(unsafe_declared_stmt(*stmt)),
    decreases stmt,
{
    match stmt {
        Statement::Let(l) => declare_let(l, state, facts),
        Statement::Const(l) => declare_let(l, state, facts),
        Statement::Assign(a) => {
            let _ = variable_name(&a.target);
        },
        Statement::Unsafe(body) => check_unsafe_block(body, state, facts),
        _ => {},
    }
}

/// A nested `unsafe` block inside `unsafe`: its statements one level deeper.
fn check_unsafe_block<F: OwnershipFacts>(body: &Block, state: &mut BorrowState, facts: &F)
    requires
        old(state).wf(),
        old(state).unsafe_depth + 1 + unsafe_nesting_block(body) <= u32::MAX,
    ensures
        final(state).wf(),
        only_declarations_changed(*old(state), *final(state)),
        final(state).var_types@.dom() == old(state).var_types@.dom().union(unsafe_declared_stmts(body.statements@)),
    decreases body,
{
    let ghost s0 = *state;
    state.unsafe_depth = state.unsafe_depth + 1;
    let mut i: usize = 0;
    while i < body.statements.len()
        invariant
            state.wf(),
            i <= body.statements@.len(),
            state.unsafe_depth == s0.unsafe_depth + 1,
            s0.unsafe_depth + 1 + unsafe_nesting_block(body) <= u32::MAX,
            state.moved == s0.moved,
            state.active_borrows@ == s0.active_borrows@,
            state.borrowed_imm == s0.borrowed_imm,
            state.borrowed_mut == s0.borrowed_mut,
            state.move_from == s0.move_from,
            state.move_to == s0.move_to,
            state.ref_sources == s0.ref_sources,
            state.unknown_kind == s0.unknown_kind,
            s0.var_types@.dom().subset_of(state.var_types@.dom()),
            state.var_types@.dom() == s0.var_types@.dom().union(unsafe_declared_stmts(body.statements@.take(i as int))),
        decreases body.statements@.len() - i,
    {
        proof {
            lemma_nesting_elem(body.statements@, i as int);
        }
        let ghost before = state.var_types@.dom();
        check_statement_unsafe(&body.statements[i], state, facts);
        proof {
            let t = body.statements@.take(i + 1);
            assert(t.subrange(0, i as int) =~= body.statements@.take(i as int));
            assert(t[i as int] == body.statements@[i as int]);
            assert(state.var_types@.dom() =~= s0.var_types@.dom().union(unsafe_declared_stmts(t)));
        }
        i = i + 1;
    }
    assert(body.statements@.take(body.statements@.len() as int) =~= body.statements@);
    state.unsafe_depth = state.unsafe_depth - 1;
}

/// What a statement does outside `unsafe`, from state `a` with errors `ea` to
/// state `b` with errors `eb` (besides what [`keeps`] says).
pub open spec fn stmt_effect<F: OwnershipFacts>(
    a: BorrowState,
    b: BorrowState,
    ea: Seq<BorrowError>,
    eb: Seq<BorrowError>,
    stmt: &Statement,
    facts: &F,
    lu: Map<Seq<char>, usize>,
    blen: usize,
    idx: usize,
) -> bool {
    match stmt {
        Statement::Let(l) => let_outcome(a, b, ea, eb, l, facts, lu, blen),
        Statement::Const(l) => let_outcome(a, b, ea, eb, l, facts, lu, blen),
        Statement::Assign(x) => b == a && assign_outcome(&a, ea, eb, x),
        Statement::Return(r) => {
            &&& return_walk(a, b, ea, eb, r.value, idx)
            &&& b.var_types == a.var_types
            &&& (r.value matches Some(v) ==> (spec_binding_name(&v) matches Some(n) ==> (a.kind_of_var(n)
                == OwnershipKind::Move ==> b.moved@.contains_key(n))))
        },
        Statement::If(_) => b.active_borrows@.len() == 0,
        Statement::While(_) => b.active_borrows@.len() == 0 && b.moved == a.moved && b.var_types == a.var_types,
        Statement::For(_) => b.active_borrows@.len() == 0 && b.moved == a.moved && b.var_types == a.var_types,
        Statement::Expression(e) => expr_stmt_outcome(a, b, ea, eb, e),
        Statement::Defer(e) => expr_stmt_outcome(a, b, ea, eb, e),
        Statement::Print(p) => print_outcome(a, b, ea, eb, p),
        Statement::Spawn(_) => b.active_borrows@.len() == 0,
        Statement::Benchmark(_) => b.active_borrows@ == a.active_borrows@,
        Statement::Unsafe(_) => b.active_borrows@ == a.active_borrows@,
        _ => b == a && eb == ea,
    }
}

/// Before a spawned block runs: an error when borrows are live, the capture
/// problems the ownership analysis finds, and the captured bindings of Move
/// kind are moved.
fn spawn_prelude<F: OwnershipFacts>(body: &Block, state: &mut BorrowState, facts: &F, errors: &mut Vec<BorrowError>)
    requires
        old(state).wf(),
    ensures
        keeps(*old(state), *final(state), old(errors)@, final(errors)@),
        only_moves_changed(*old(state), *final(state)),
        moves_only_owned(*old(state), *final(state)),
        old(state).active_borrows@.len() > 0 ==> final(errors)@[old(errors)@.len() as int] == (BorrowError::BorrowsActiveAt {
            site: BorrowSite::Spawn,
        }),
{
    let ghost e0 = errors@;
    proof {
        assert(e0.take(e0.len() as int) =~= e0);
    }
    if any_borrow_live(state) {
        errors.push(BorrowError::BorrowsActiveAt { site: BorrowSite::Spawn });
        proof {
            lemma_extends_push(e0, errors@.last());
            assert(errors@ == e0.push(errors@.last()));
        }
    }
    let ghost e1 = errors@;
    let problems = facts.spawn_capture_problems(body, &state.var_types);
    report_problems(problems, errors);
    proof {
        lemma_extends_trans(e0, e1, errors@);
        if old(state).active_borrows@.len() > 0 {
            assert(errors@[e0.len() as int] == errors@.take(e1.len() as int)[e0.len() as int]);
        }
    }
    let outer = key_set(&state.var_types);
    let names = facts.block_captures(body, &outer);
    mark_captures_moved(&names, &Span::default(), state);
    proof {
        assert forall|n: Seq<char>| #[trigger] state.moved@.contains_key(n) && !old(state).moved@.contains_key(n)
            implies old(state).kind_of_var(n) == OwnershipKind::Move by {
            assert(state.moved@.dom().contains(n));
        }
    }
}

/// A report answers query `q`: it is about the queried binding, at the
/// queried line, in a file the query names.
pub open spec fn report_answers(rep: BindingInspectReport, q: InspectQuery) -> bool {
    &&& rep.name@ == q.name@
    &&& rep.line == q.line
    &&& spec_file_names_match(rep.file@, q.file@, path_file_name(rep.file@), path_file_name(q.file@))
    &&& exists|st: BorrowState, bl: crate::inspect::BlockLines| #[trigger] crate::inspect::report_matches(
        &rep,
        q.name@,
        rep.func@,
        rep.file@,
        rep.line,
        &st,
        &bl,
    )
}

/// The collector holds an answer to its query, taken in its current function.
pub open spec fn holds_answer(c: InspectCollector) -> bool {
    &&& c.query matches Some(q)
    &&& c.query_result matches Some(rep)
    &&& report_answers(rep, q)
    &&& rep.func@ == c.current_func@
}

/// What checking a block or statement does to the inspection collector: it
/// stays (or stays absent) with the same query, mode and function; summary
/// entries are only appended, each for the current function; the answer is
/// unchanged or a new answer to the query.
pub open spec fn collector_step(a: Option<InspectCollector>, b: Option<InspectCollector>) -> bool {
    match a {
        None => b is None,
        Some(x) => match b {
            Some(y) => {
                &&& y.query == x.query
                &&& y.verbose == x.verbose
                &&& y.current_func == x.current_func
                &&& x.verbose_entries@.len() <= y.verbose_entries@.len()
                &&& y.verbose_entries@.take(x.verbose_entries@.len() as int) == x.verbose_entries@
                &&& forall|k: int| x.verbose_entries@.len() <= k < y.verbose_entries@.len()
                    ==> (#[trigger] y.verbose_entries@[k]).func@ == x.current_func@
                &&& (y.query_result == x.query_result || holds_answer(y))
            },
            None => false,
        },
    }
}

proof fn lemma_collector_step_refl(a: Option<InspectCollector>)
    ensures
        collector_step(a, a),
{
    if let Some(x) = a {
        assert(x.verbose_entries@.take(x.verbose_entries@.len() as int) =~= x.verbose_entries@);
    }
}

proof fn lemma_collector_step_trans(a: Option<InspectCollector>, b: Option<InspectCollector>, c: Option<InspectCollector>)
    requires
        collector_step(a, b),
        collector_step(b, c),
    ensures
        collector_step(a, c),
{
    if let Some(x) = a {
        let y = b->0;
        let z = c->0;
        let n = x.verbose_entries@.len() as int;
        let m = y.verbose_entries@.len() as int;
        assert(z.verbose_entries@.take(n) =~= z.verbose_entries@.take(m).take(n));
        assert forall|k: int| n <= k < z.verbose_entries@.len() implies (#[trigger] z.verbose_entries@[k]).func@
            == x.current_func@ by {
            if k < m {
                assert(z.verbose_entries@.take(m)[k] == y.verbose_entries@[k]);
            }
        }
    }
}

/// `name` is the name of a function or of a method of the program.
pub open spec fn names_a_function(p: &Program, name: Seq<char>) -> bool {
    ||| exists|i: int| 0 <= i < p.functions@.len() && (#[trigger] p.functions@[i]).name@ == name
    ||| exists|i: int, j: int| 0 <= i < p.impls@.len() && 0 <= j < p.impls@[i].methods@.len()
        && (#[trigger] p.impls@[i].methods@[j]).name@ == name
}

/// What the collector holds is about the program: an answer to its query
/// taken in one of the program's functions, and summary entries each for one
/// of them.
pub open spec fn collected_ok(p: &Program, c: InspectCollector) -> bool {
    &&& (c.query_result matches Some(rep) ==> c.query matches Some(q) && report_answers(rep, q) && names_a_function(
        p,
        rep.func@,
    ))
    &&& forall|k: int| 0 <= k < c.verbose_entries@.len() ==> names_a_function(p, (#[trigger] c.verbose_entries@[k]).func@)
}

/// What checking the program does to the collector: it stays (or stays
/// absent) with the same query and mode, and what it holds stays about the
/// program.
pub open spec fn collector_run(p: &Program, a: Option<InspectCollector>, b: Option<InspectCollector>) -> bool {
    match a {
        None => b is None,
        Some(x) => match b {
            Some(y) => y.query == x.query && y.verbose == x.verbose && (collected_ok(p, x) ==> collected_ok(p, y)),
            None => false,
        },
    }
}

/// `b` is `a` told that it is in function `name`.
pub open spec fn set_to(a: Option<InspectCollector>, b: Option<InspectCollector>, name: Seq<char>) -> bool {
    match a {
        None => b is None,
        Some(x) => match b {
            Some(y) => {
                &&& y.query == x.query
                &&& y.verbose == x.verbose
                &&& y.query_result == x.query_result
                &&& y.verbose_entries == x.verbose_entries
                &&& y.current_func@ == name
            },
            None => false,
        },
    }
}

proof fn lemma_collector_run_extend(
    p: &Program,
    c0: Option<InspectCollector>,
    c1: Option<InspectCollector>,
    c2: Option<InspectCollector>,
    c3: Option<InspectCollector>,
    name: Seq<char>,
)
    requires
        collector_run(p, c0, c1),
        set_to(c1, c2, name),
        names_a_function(p, name),
        collector_step(c2, c3),
    ensures
        collector_run(p, c0, c3),
{
    if let Some(x0) = c0 {
        let x1 = c1->0;
        let x2 = c2->0;
        let x3 = c3->0;
        if collected_ok(p, x0) {
            assert(collected_ok(p, x1));
            assert(collected_ok(p, x2));
            let n = x2.verbose_entries@.len() as int;
            assert forall|k: int| 0 <= k < x3.verbose_entries@.len() implies names_a_function(
                p,
                (#[trigger] x3.verbose_entries@[k]).func@,
            ) by {
                if k < n {
                    assert(x3.verbose_entries@.take(n)[k] == x2.verbose_entries@[k]);
                }
            }
        }
    }
}

/// The statement after which a borrow held by binding `n` ends: its last use
/// by `lu`, else `last`.
pub open spec fn expiry_of(lu: Map<Seq<char>, usize>, last: usize, n: Seq<char>) -> usize {
    if lu.contains_key(n) {
        lu[n]
    } else {
        last
    }
}

/// Index of the last statement of `block` (0 when it has none): where a
/// borrow held by a binding that is never used again ends.
pub open spec fn last_index(block: &Block) -> usize {
    if block.statements@.len() == 0 {
        0
    } else {
        (block.statements@.len() - 1) as usize
    }
}

/// `b` is `a` with the borrows that ended before statement `idx` dropped.
pub open spec fn expired_to(a: BorrowState, b: BorrowState, idx: usize) -> bool {
    &&& b.wf()
    &&& b.active_borrows@ == live_at(a.active_borrows@, idx)
    &&& b.moved == a.moved
    &&& b.move_from == a.move_from
    &&& b.move_to == a.move_to
    &&& b.mutable == a.mutable
    &&& b.var_types == a.var_types
    &&& b.ref_sources == a.ref_sources
    &&& b.manually_freed == a.manually_freed
    &&& b.unsafe_depth == a.unsafe_depth
    &&& b.unknown_kind == a.unknown_kind
}

/// One statement checked from state `a` with errors `ea`: what
/// [`check_statement`] promises.
pub open spec fn stmt_step<F: OwnershipFacts>(
    a: BorrowState,
    b: BorrowState,
    ea: Seq<BorrowError>,
    eb: Seq<BorrowError>,
    stmt: &Statement,
    facts: &F,
    lu: Map<Seq<char>, usize>,
    blen: usize,
    idx: usize,
) -> bool {
    &&& keeps(a, b, ea, eb)
    &&& (a.unsafe_depth > 0 ==> eb == ea && only_declarations_changed(a, b))
    &&& (a.unsafe_depth == 0 ==> stmt_effect(a, b, ea, eb, stmt, facts, lu, blen, idx))
}

/// Reading condition `e` at statement `idx` from state `a` with errors `ea`,
/// then dropping every borrow, gives state `c` with errors `ec`: the
/// conflicting reads are reported (up to `em`), then the errors of registering
/// its borrows; nothing else changes.
pub open spec fn cond_read(
    a: BorrowState,
    c: BorrowState,
    ea: Seq<BorrowError>,
    em: Seq<BorrowError>,
    ec: Seq<BorrowError>,
    e: &Expression,
    idx: usize,
) -> bool {
    let r = crate::moves::reg_expr(e, a.moved@.dom(), crate::moves::bviews(a.active_borrows@), idx);
    &&& reported(&a, ea, em, used_expr(e))
    &&& em.len() <= ec.len()
    &&& ec.take(em.len() as int) == em
    &&& crate::moves::error_views(ec) == crate::moves::error_views(em) + r.1
    &&& c.wf()
    &&& c.active_borrows@.len() == 0
    &&& crate::moves::same_bookkeeping(a, c)
}

/// `b` keeps everything of `c` but its moves and borrows.
pub open spec fn same_but_moves(c: BorrowState, b: BorrowState) -> bool {
    &&& b.move_from == c.move_from
    &&& b.move_to == c.move_to
    &&& b.mutable == c.mutable
    &&& b.var_types == c.var_types
    &&& b.ref_sources == c.ref_sources
    &&& b.manually_freed == c.manually_freed
    &&& b.unsafe_depth == c.unsafe_depth
    &&& b.unknown_kind == c.unknown_kind
}

/// The parts of checking `if` (see `if_walk`).
pub open spec fn if_parts<F: OwnershipFacts>(
    a: BorrowState,
    b: BorrowState,
    ea: Seq<BorrowError>,
    eb: Seq<BorrowError>,
    i: &IfStmt,
    facts: &F,
    idx: usize,
    em: Seq<BorrowError>,
    c: BorrowState,
    ec: Seq<BorrowError>,
    t0: BorrowState,
    t: BorrowState,
    et: Seq<BorrowError>,
    f0: BorrowState,
    f: BorrowState,
) -> bool {
    &&& cond_read(a, c, ea, em, ec, &i.condition, idx)
    &&& t0.wf() && crate::borrow::same_state(c, t0)
    &&& block_walk(&i.then_block, facts, t0, t, ec, et)
    &&& f0.wf() && crate::borrow::same_state(c, f0)
    &&& match &i.else_block {
        Some(e) => block_walk(e, facts, f0, f, et, eb),
        None => f == f0 && eb == et,
    }
    &&& b.wf()
    &&& b.active_borrows@.len() == 0
    &&& b.moved@ == crate::borrow::merged_moves(c.moved@, t.moved@, f.moved@)
    &&& same_but_moves(c, b)
}

/// Checking `if` from `a`/`ea` gives `b`/`eb`: the condition is read (see
/// `cond_read`) into `c`; the `then` block is walked from a copy of `c` to `t`,
/// then the `else` block (when there is one) from a copy of `c` to `f`; a
/// binding is moved after the `if` when it was before or both branches moved
/// it; no borrow outlives the statement.
pub open spec fn if_walk<F: OwnershipFacts>(
    a: BorrowState,
    b: BorrowState,
    ea: Seq<BorrowError>,
    eb: Seq<BorrowError>,
    i: &IfStmt,
    facts: &F,
    idx: usize,
) -> bool {
    exists|em: Seq<BorrowError>, c: BorrowState, ec: Seq<BorrowError>, t0: BorrowState, t: BorrowState, et: Seq<BorrowError>, f0: BorrowState, f: BorrowState|
        #[trigger] if_parts(a, b, ea, eb, i, facts, idx, em, c, ec, t0, t, et, f0, f)
}

/// The parts of checking `while` (see `while_walk`).
pub open spec fn while_parts<F: OwnershipFacts>(
    a: BorrowState,
    b: BorrowState,
    ea: Seq<BorrowError>,
    eb: Seq<BorrowError>,
    w: &WhileStmt,
    facts: &F,
    idx: usize,
    em: Seq<BorrowError>,
    c: BorrowState,
    ec: Seq<BorrowError>,
    t0: BorrowState,
    t: BorrowState,
) -> bool {
    &&& cond_read(a, c, ea, em, ec, &w.condition, idx)
    &&& t0.wf() && crate::borrow::same_state(c, t0)
    &&& block_walk(&w.body, facts, t0, t, ec, eb)
    &&& b.wf()
    &&& b.active_borrows@.len() == 0
    &&& crate::moves::same_bookkeeping(a, b)
}

/// Checking `while` from `a`/`ea` gives `b`/`eb`: the condition is read (see
/// `cond_read`) into `c`; the body is walked once from a copy of `c`, whose
/// moves do not carry past the loop; no borrow outlives the statement.
pub open spec fn while_walk<F: OwnershipFacts>(
    a: BorrowState,
    b: BorrowState,
    ea: Seq<BorrowError>,
    eb: Seq<BorrowError>,
    w: &WhileStmt,
    facts: &F,
    idx: usize,
) -> bool {
    exists|em: Seq<BorrowError>, c: BorrowState, ec: Seq<BorrowError>, t0: BorrowState, t: BorrowState|
        #[trigger] while_parts(a, b, ea, eb, w, facts, idx, em, c, ec, t0, t)
}

/// Checking `spawn body` from `a`/`ea` gives `b`/`eb`: first an error when
/// borrows are live, then the capture problems, and the captured bindings of
/// Move kind are moved (state `c`, errors `ec`); then the body is walked from
/// `c` to `d`, after which no borrow is live.
pub open spec fn spawn_walk<F: OwnershipFacts>(
    a: BorrowState,
    b: BorrowState,
    ea: Seq<BorrowError>,
    eb: Seq<BorrowError>,
    body: &Block,
    facts: &F,
) -> bool {
    exists|c: BorrowState, ec: Seq<BorrowError>, d: BorrowState|
        #![trigger block_walk(body, facts, c, d, ec, eb)]
        {
            &&& keeps(a, c, ea, ec)
            &&& only_moves_changed(a, c)
            &&& moves_only_owned(a, c)
            &&& (a.active_borrows@.len() > 0 ==> ec[ea.len() as int] == (BorrowError::BorrowsActiveAt {
                site: BorrowSite::Spawn,
            }))
            &&& block_walk(body, facts, c, d, ec, eb)
            &&& b.wf()
            &&& b.active_borrows@.len() == 0
            &&& b.moved == d.moved
            &&& same_but_moves(d, b)
        }
}

/// Checking `unsafe body` from `a`/`ea` gives `b`/`eb`: the body is walked
/// from `a` one `unsafe` level deeper, and the level is restored after it.
pub open spec fn unsafe_walk<F: OwnershipFacts>(
    a: BorrowState,
    b: BorrowState,
    ea: Seq<BorrowError>,
    eb: Seq<BorrowError>,
    body: &Block,
    facts: &F,
) -> bool {
    exists|c: BorrowState, d: BorrowState|
        #![trigger block_walk(body, facts, c, d, ea, eb)]
        {
            &&& c.unsafe_depth == a.unsafe_depth + 1
            &&& c == (BorrowState { unsafe_depth: c.unsafe_depth, ..a })
            &&& block_walk(body, facts, c, d, ea, eb)
            &&& d.unsafe_depth == b.unsafe_depth + 1
            &&& b == (BorrowState { unsafe_depth: b.unsafe_depth, ..d })
        }
}

/// Reading one `for` header expression `h` at statement `idx`: its
/// conflicting reads are reported (up to `em`), then its borrows are
/// registered (see `reg_expr`).
pub open spec fn header_read(a: BorrowState, b: BorrowState, ea: Seq<BorrowError>, eb: Seq<BorrowError>, h: Expression, idx: usize, em: Seq<BorrowError>) -> bool {
    &&& reported(&a, ea, em, used_expr(&h))
    &&& crate::moves::reg_done(
        a,
        b,
        em,
        eb,
        crate::moves::reg_expr(&h, a.moved@.dom(), crate::moves::bviews(a.active_borrows@), idx),
    )
}

/// The parts of checking `for` (see `for_walk`): states `hs` and errors `he`
/// around each header expression, errors `ep` after the `parallel for`
/// checks, and the body walked from `t0` to `t`.
pub open spec fn for_parts<F: OwnershipFacts>(
    a: BorrowState,
    b: BorrowState,
    ea: Seq<BorrowError>,
    eb: Seq<BorrowError>,
    f: &ForStmt,
    facts: &F,
    idx: usize,
    hs: Seq<BorrowState>,
    he: Seq<Seq<BorrowError>>,
    ms: Seq<Seq<BorrowError>>,
    ep: Seq<BorrowError>,
    t0: BorrowState,
    t: BorrowState,
) -> bool {
    let h = crate::ast::for_header_exprs(f);
    let n = h.len();
    let c = hs[n as int];
    let ec = he[n as int];
    &&& hs.len() == n + 1
    &&& he.len() == n + 1
    &&& ms.len() == n
    &&& hs[0] == a
    &&& he[0] == ea
    &&& forall|k: int| 0 <= k < n ==> #[trigger] header_read(hs[k], hs[k + 1], he[k], he[k + 1], h[k], idx, ms[k])
    &&& (f.parallel is None ==> ep == ec)
    &&& (f.parallel is Some ==> {
        let first = if c.active_borrows@.len() > 0 {
            ec.push(BorrowError::BorrowsActiveAt { site: BorrowSite::ParallelFor })
        } else {
            ec
        };
        problems_added(first, ep, facts.spec_parallel_capture_problems(f.body, c.var_types@))
    })
    &&& t0.wf() && crate::borrow::same_state(c, t0)
    &&& block_walk(&f.body, facts, t0, t, ep, eb)
    &&& b.wf()
    &&& b.active_borrows@.len() == 0
    &&& crate::moves::same_bookkeeping(c, b)
}

/// Checking `for` from `a`/`ea` gives `b`/`eb`: each header expression is
/// read in turn (see `header_read`); for `parallel for`, an error when borrows
/// are live, then the capture problems the ownership analysis finds; then the
/// body is walked once from a copy of the state, whose moves do not carry past
/// the loop; no borrow outlives the statement.
pub open spec fn for_walk<F: OwnershipFacts>(
    a: BorrowState,
    b: BorrowState,
    ea: Seq<BorrowError>,
    eb: Seq<BorrowError>,
    f: &ForStmt,
    facts: &F,
    idx: usize,
) -> bool {
    exists|hs: Seq<BorrowState>, he: Seq<Seq<BorrowError>>, ms: Seq<Seq<BorrowError>>, ep: Seq<BorrowError>, t0: BorrowState, t: BorrowState|
        #[trigger] for_parts(a, b, ea, eb, f, facts, idx, hs, he, ms, ep, t0, t)
}

/// Checking `return value` at statement `idx` from `a`/`ea` gives `b`/`eb`:
/// the value's conflicting reads are reported (up to `em`), then its borrows
/// are registered (state `c`, see `header_read`); when the value is a binding
/// of Move kind it is then moved, and nothing else changes.
pub open spec fn return_walk(
    a: BorrowState,
    b: BorrowState,
    ea: Seq<BorrowError>,
    eb: Seq<BorrowError>,
    value: Option<Expression>,
    idx: usize,
) -> bool {
    match value {
        None => b == a && eb == ea,
        Some(v) => exists|em: Seq<BorrowError>, c: BorrowState| #[trigger] header_read(a, c, ea, eb, v, idx, em) && {
            match spec_binding_name(&v) {
                Some(n) => if c.kind_of_var(n) == OwnershipKind::Move {
                    &&& b.moved@.dom() == c.moved@.dom().insert(n)
                    &&& only_moves_changed(c, b)
                } else {
                    b == c
                },
                None => b == c,
            }
        },
    }
}

/// `b` is `last` with the borrows of `start` back in place.
pub open spec fn borrows_restored(last: BorrowState, b: BorrowState, start: BorrowState) -> bool {
    &&& b.wf()
    &&& b.active_borrows@ == start.active_borrows@
    &&& b.moved == last.moved
    &&& b.move_from == last.move_from
    &&& b.move_to == last.move_to
    &&& b.mutable == last.mutable
    &&& b.var_types == last.var_types
    &&& b.ref_sources == last.ref_sources
    &&& b.manually_freed == last.manually_freed
    &&& b.unsafe_depth == last.unsafe_depth
    &&& b.unknown_kind == last.unknown_kind
}

/// The steps of checking a block: states `ss` between statements, states `ps`
/// once the borrows that ended are dropped, and errors `es` between
/// statements; each statement checked in order from `ps[i]` to `ss[i + 1]`.
pub open spec fn block_trace<F: OwnershipFacts>(
    block: &Block,
    facts: &F,
    a: BorrowState,
    b: BorrowState,
    ea: Seq<BorrowError>,
    eb: Seq<BorrowError>,
    ss: Seq<BorrowState>,
    ps: Seq<BorrowState>,
    es: Seq<Seq<BorrowError>>,
) -> bool {
    let st = block.statements@;
    let n = st.len();
    &&& ss.len() == n + 1
    &&& ps.len() == n
    &&& es.len() == n + 1
    &&& ss[0] == a
    &&& es[0] == ea
    &&& es[n as int] == eb
    &&& forall|i: int| 0 <= i < n ==> expired_to(ss[i], #[trigger] ps[i], i as usize) && stmt_step(
        ps[i],
        ss[i + 1],
        es[i],
        es[i + 1],
        &st[i],
    facts, facts.spec_last_uses(*block), last_index(block), i as usize)
    &&& borrows_restored(ss[n as int], b, a)
}

/// Checking `block` from state `a` with errors `ea` gives state `b` and errors
/// `eb`: its statements are checked one by one, in order (see `block_trace`).
pub open spec fn block_walk<F: OwnershipFacts>(block: &Block, facts: &F, a: BorrowState, b: BorrowState, ea: Seq<BorrowError>, eb: Seq<BorrowError>) -> bool {
    exists|ss: Seq<BorrowState>, ps: Seq<BorrowState>, es: Seq<Seq<BorrowError>>| #[trigger] block_trace(
        block, facts,
        a,
        b,
        ea,
        eb,
        ss,
        ps,
        es,
    )
}

/// Reading a binding right after a `let` has moved it is an error: in a walk
/// of a block (see `block_trace`), when statement `i` is `let dst = src` and
/// statement `i + 1` is `print(src)`, with `src` of Move kind and neither moved
/// nor borrowed when the `let` is checked outside `unsafe`, checking the
/// `print` reports a use after move of `src`.
pub proof fn law_use_after_move_in_walk<F: OwnershipFacts>(
    block: &Block,
    facts: &F,
    a: BorrowState,
    b: BorrowState,
    ea: Seq<BorrowError>,
    eb: Seq<BorrowError>,
    ss: Seq<BorrowState>,
    ps: Seq<BorrowState>,
    es: Seq<Seq<BorrowError>>,
    i: int,
    l: LetStmt,
    p: PrintStmt,
    src: Seq<char>,
)
    requires
        block_trace(block, facts, a, b, ea, eb, ss, ps, es),
        0 <= i,
        i + 1 < block.statements@.len(),
        block.statements@[i] == Statement::Let(l),
        block.statements@[i + 1] == Statement::Print(p),
        l.value matches Expression::Variable { name, .. } && name@ == src,
        l.name@ != src,
        p.args@.len() == 1,
        p.args@[0] matches Expression::Variable { name, .. } && name@ == src,
        p.color is None,
        ps[i].unsafe_depth == 0,
        ps[i].kind_of_var(src) == OwnershipKind::Move,
        !crate::moves::use_conflicts(&ps[i], src),
    ensures
        exists|k: int|
            es[i + 1].len() <= k < es[i + 2].len() && (#[trigger] es[i + 2][k] matches BorrowError::UseAfterMove {
                name,
                ..
            } && name@ == src),
{
    let st = block.statements@;
    assert(expired_to(ss[i], ps[i], i as usize) && stmt_step(ps[i], ss[i + 1], es[i], es[i + 1], &st[i], facts, facts.spec_last_uses(*block), last_index(block), i as usize));
    assert(expired_to(ss[i + 1], ps[i + 1], (i + 1) as usize) && stmt_step(
        ps[i + 1],
        ss[i + 2],
        es[i + 1],
        es[i + 2],
        &st[i + 1],
    facts, facts.spec_last_uses(*block), last_index(block), (i + 1) as usize));
    let p0 = ps[i];
    assert(used_expr(&l.value) == seq![src]);
    assert(conflicted(&p0, seq![src]) =~= Seq::<Seq<char>>::empty()) by {
        reveal_with_fuel(conflicted, 2);
        assert(seq![src].drop_last() =~= Seq::<Seq<char>>::empty());
        assert(seq![src].last() == src);
    }
    assert(let_effect(p0, ss[i + 1], &l, facts, facts.spec_last_uses(*block), last_index(block)));
    let s1 = ss[i + 1];
    assert(s1.kind_of_var(src) == OwnershipKind::Move);
    assert(s1.moved@.contains_key(src));
    let p1 = ps[i + 1];
    assert(p1.unsafe_depth == 0);
    assert(print_outcome(p1, ss[i + 2], es[i + 1], es[i + 2], &p));
    let (qs, fs) = choose|qs: Seq<BorrowState>, fs: Seq<Seq<BorrowError>>| #[trigger] print_trace(
        p1,
        ss[i + 2],
        es[i + 1],
        es[i + 2],
        &p,
        qs,
        fs,
    );
    assert(expr_stmt_outcome(qs[0], qs[1], fs[0], fs[1], &p.args@[0]));
    assert(used_expr(&p.args@[0]) == seq![src]);
    assert(conflicted(&p1, seq![src]) =~= seq![src]) by {
        reveal_with_fuel(conflicted, 2);
        assert(seq![src].drop_last() =~= Seq::<Seq<char>>::empty());
        assert(seq![src].last() == src);
        assert(crate::moves::use_conflicts(&p1, src));
        assert(Seq::<Seq<char>>::empty().push(src) =~= seq![src]);
    }
    let em = choose|em: Seq<BorrowError>| #[trigger] free_part(fs[0], em, &p.args@[0]) && reported(
        &p1,
        em,
        fs[1],
        used_expr(&p.args@[0]),
    );
    assert(em == es[i + 1]);
    let k = es[i + 1].len() as int;
    let c = conflicted(&p1, used_expr(&p.args@[0]));
    assert(c == seq![src]);
    assert(crate::moves::use_error_for(fs[1][em.len() + 0int], &p1, c[0]));
    assert(crate::moves::use_error_for(es[i + 2][k], &p1, src));
}

/// A call that returns an owned value takes its arguments: in a walk of a
/// block (see `block_trace`), when statement `i` is `let dst = f(.., src, ..)`
/// where the ownership analysis says `f` returns an owned value, `src` is an
/// immutable binding of Move kind, and nothing the call reads is moved or
/// borrowed when it is checked outside `unsafe`, then a `print(src)` at
/// statement `i + 1` reports a use after move of `src`.
pub proof fn law_owning_call_moves_argument_in_walk<F: OwnershipFacts>(
    block: &Block,
    facts: &F,
    a: BorrowState,
    b: BorrowState,
    ea: Seq<BorrowError>,
    eb: Seq<BorrowError>,
    ss: Seq<BorrowState>,
    ps: Seq<BorrowState>,
    es: Seq<Seq<BorrowError>>,
    i: int,
    l: LetStmt,
    c: CallExpr,
    k: int,
    p: PrintStmt,
    src: Seq<char>,
)
    requires
        block_trace(block, facts, a, b, ea, eb, ss, ps, es),
        0 <= i,
        i + 1 < block.statements@.len(),
        block.statements@[i] == Statement::Let(l),
        block.statements@[i + 1] == Statement::Print(p),
        l.value == Expression::Call(c),
        facts.spec_callee_returns_owned(c.callee@),
        0 <= k < c.args@.len(),
        c.args@[k] matches Expression::Variable { name, .. } && name@ == src,
        l.name@ != src,
        p.args@.len() == 1,
        p.args@[0] matches Expression::Variable { name, .. } && name@ == src,
        p.color is None,
        ps[i].unsafe_depth == 0,
        ps[i].kind_of_var(src) == OwnershipKind::Move,
        !ps[i].mutable@.contains(src),
        forall|j: int| 0 <= j < used_expr(&l.value).len() ==> !crate::moves::use_conflicts(&ps[i], #[trigger] used_expr(&l.value)[j]),
    ensures
        exists|t: int|
            es[i + 1].len() <= t < es[i + 2].len() && (#[trigger] es[i + 2][t] matches BorrowError::UseAfterMove {
                name,
                ..
            } && name@ == src),
{
    let st = block.statements@;
    let lu = facts.spec_last_uses(*block);
    let last = last_index(block);
    assert(expired_to(ss[i], ps[i], i as usize) && stmt_step(ps[i], ss[i + 1], es[i], es[i + 1], &st[i], facts, lu, last, i as usize));
    assert(expired_to(ss[i + 1], ps[i + 1], (i + 1) as usize) && stmt_step(
        ps[i + 1],
        ss[i + 2],
        es[i + 1],
        es[i + 2],
        &st[i + 1],
        facts,
        lu,
        last,
        (i + 1) as usize,
    ));
    let p0 = ps[i];
    lemma_conflicted_none(&p0, used_expr(&l.value));
    assert(let_effect(p0, ss[i + 1], &l, facts, lu, last));
    let s1 = ss[i + 1];
    assert(c.args@[k] matches Expression::Variable { name, .. } && name@ == src);
    assert(s1.moved@.contains_key(src));
    let p1 = ps[i + 1];
    assert(p1.unsafe_depth == 0);
    assert(print_outcome(p1, ss[i + 2], es[i + 1], es[i + 2], &p));
    let (qs, fs) = choose|qs: Seq<BorrowState>, fs: Seq<Seq<BorrowError>>| #[trigger] print_trace(
        p1,
        ss[i + 2],
        es[i + 1],
        es[i + 2],
        &p,
        qs,
        fs,
    );
    assert(expr_stmt_outcome(qs[0], qs[1], fs[0], fs[1], &p.args@[0]));
    assert(used_expr(&p.args@[0]) == seq![src]);
    assert(conflicted(&p1, seq![src]) =~= seq![src]) by {
        reveal_with_fuel(conflicted, 2);
        assert(seq![src].drop_last() =~= Seq::<Seq<char>>::empty());
        assert(seq![src].last() == src);
        assert(crate::moves::use_conflicts(&p1, src));
        assert(Seq::<Seq<char>>::empty().push(src) =~= seq![src]);
    }
    let em = choose|em: Seq<BorrowError>| #[trigger] free_part(fs[0], em, &p.args@[0]) && reported(
        &p1,
        em,
        fs[1],
        used_expr(&p.args@[0]),
    );
    assert(em == es[i + 1]);
    let t = es[i + 1].len() as int;
    let cc = conflicted(&p1, used_expr(&p.args@[0]));
    assert(cc == seq![src]);
    assert(crate::moves::use_error_for(fs[1][em.len() + 0int], &p1, cc[0]));
    assert(crate::moves::use_error_for(es[i + 2][t], &p1, src));
}

/// Returning a binding after a `let` has moved it is an error: in a walk of
/// a block (see `block_trace`), when statement `i` is `let dst = src` and
/// statement `i + 1` is `return src`, with `src` of Move kind and neither
/// moved nor borrowed when the `let` is checked outside `unsafe`, checking the
/// `return` first reports a use after move of `src`.
pub proof fn law_return_after_move_in_walk<F: OwnershipFacts>(
    block: &Block,
    facts: &F,
    a: BorrowState,
    b: BorrowState,
    ea: Seq<BorrowError>,
    eb: Seq<BorrowError>,
    ss: Seq<BorrowState>,
    ps: Seq<BorrowState>,
    es: Seq<Seq<BorrowError>>,
    i: int,
    l: LetStmt,
    r: ReturnStmt,
    src: Seq<char>,
)
    requires
        block_trace(block, facts, a, b, ea, eb, ss, ps, es),
        0 <= i,
        i + 1 < block.statements@.len(),
        block.statements@[i] == Statement::Let(l),
        block.statements@[i + 1] == Statement::Return(r),
        l.value matches Expression::Variable { name, .. } && name@ == src,
        l.name@ != src,
        r.value matches Some(v) && (v matches Expression::Variable { name, .. } && name@ == src),
        ps[i].unsafe_depth == 0,
        ps[i].kind_of_var(src) == OwnershipKind::Move,
        !crate::moves::use_conflicts(&ps[i], src),
    ensures
        es[i + 1].len() < es[i + 2].len(),
        es[i + 2][es[i + 1].len() as int] matches BorrowError::UseAfterMove { name, .. } && name@ == src,
{
    let st = block.statements@;
    let lu = facts.spec_last_uses(*block);
    let last = last_index(block);
    assert(expired_to(ss[i], ps[i], i as usize) && stmt_step(ps[i], ss[i + 1], es[i], es[i + 1], &st[i], facts, lu, last, i as usize));
    assert(expired_to(ss[i + 1], ps[i + 1], (i + 1) as usize) && stmt_step(
        ps[i + 1],
        ss[i + 2],
        es[i + 1],
        es[i + 2],
        &st[i + 1],
        facts,
        lu,
        last,
        (i + 1) as usize,
    ));
    let p0 = ps[i];
    assert(used_expr(&l.value) == seq![src]);
    assert(conflicted(&p0, seq![src]) =~= Seq::<Seq<char>>::empty()) by {
        reveal_with_fuel(conflicted, 2);
        assert(seq![src].drop_last() =~= Seq::<Seq<char>>::empty());
        assert(seq![src].last() == src);
    }
    assert(let_effect(p0, ss[i + 1], &l, facts, lu, last));
    let s1 = ss[i + 1];
    assert(s1.kind_of_var(src) == OwnershipKind::Move);
    assert(s1.moved@.contains_key(src));
    let p1 = ps[i + 1];
    assert(p1.unsafe_depth == 0);
    let v = r.value->0;
    assert(return_walk(p1, ss[i + 2], es[i + 1], es[i + 2], r.value, (i + 1) as usize));
    let (em, c) = choose|em: Seq<BorrowError>, c: BorrowState| #[trigger] header_read(p1, c, es[i + 1], es[i + 2], v, (i + 1) as usize, em) && {
        match spec_binding_name(&v) {
            Some(n) => if c.kind_of_var(n) == OwnershipKind::Move {
                &&& ss[i + 2].moved@.dom() == c.moved@.dom().insert(n)
                &&& only_moves_changed(c, ss[i + 2])
            } else {
                ss[i + 2] == c
            },
            None => ss[i + 2] == c,
        }
    };
    assert(used_expr(&v) == seq![src]);
    assert(conflicted(&p1, seq![src]) =~= seq![src]) by {
        reveal_with_fuel(conflicted, 2);
        assert(seq![src].drop_last() =~= Seq::<Seq<char>>::empty());
        assert(seq![src].last() == src);
        assert(crate::moves::use_conflicts(&p1, src));
        assert(Seq::<Seq<char>>::empty().push(src) =~= seq![src]);
    }
    assert(reported(&p1, es[i + 1], em, seq![src]));
    assert(crate::moves::use_error_for(em[es[i + 1].len() + 0int], &p1, seq![src][0]));
    assert(es[i + 2].take(em.len() as int) == em);
    assert(es[i + 2][es[i + 1].len() as int] == em[es[i + 1].len() as int]);
}

/// Reading a binding after a `let` has moved it is an error: checking the
/// block `let dst = src` then `print(src)` outside `unsafe`, from a state in
/// which `src` is of Move kind and neither moved nor borrowed, reports a use
/// after move of `src`.
pub proof fn law_use_after_move_reported<F: OwnershipFacts>(
    block: &Block,
    facts: &F,
    a: BorrowState,
    b: BorrowState,
    ea: Seq<BorrowError>,
    eb: Seq<BorrowError>,
    l: LetStmt,
    p: PrintStmt,
    src: Seq<char>,
)
    requires
        a.wf(),
        a.unsafe_depth == 0,
        block_walk(block, facts, a, b, ea, eb),
        block.statements@.len() == 2,
        block.statements@[0] == Statement::Let(l),
        block.statements@[1] == Statement::Print(p),
        l.value matches Expression::Variable { name, .. } && name@ == src,
        l.name@ != src,
        p.args@.len() == 1,
        p.args@[0] matches Expression::Variable { name, .. } && name@ == src,
        p.color is None,
        a.kind_of_var(src) == OwnershipKind::Move,
        !crate::moves::use_conflicts(&a, src),
    ensures
        exists|k: int| ea.len() <= k < eb.len() && (#[trigger] eb[k] matches BorrowError::UseAfterMove { name, .. } && name@ == src),
{
    broadcast use vstd::seq_lib::group_filter_ensures;
    let (ss, ps, es) = choose|ss: Seq<BorrowState>, ps: Seq<BorrowState>, es: Seq<Seq<BorrowError>>| #[trigger] block_trace(
        block, facts,
        a,
        b,
        ea,
        eb,
        ss,
        ps,
        es,
    );
    let st = block.statements@;
    assert(expired_to(ss[0], ps[0], 0) && stmt_step(ps[0], ss[1], es[0], es[1], &st[0], facts, facts.spec_last_uses(*block), last_index(block), 0 as usize));
    let p0 = ps[0];
    assert(!p0.is_borrowed(src)) by {
        let live = live_at(a.active_borrows@, 0);
        let pred = |x: crate::borrow::ActiveBorrow| x.expires_after >= 0usize;
        assert(live == a.active_borrows@.filter(pred)) by {
            assert(pred =~= (|x: crate::borrow::ActiveBorrow| x.expires_after >= 0usize));
        }
        if p0.borrowed_imm@.contains(src) {
            let i = choose|i: int| 0 <= i < live.len() && #[trigger] live[i].source@ == src && live[i].mutable == false;
            a.active_borrows@.lemma_filter_contains_rev(pred, live[i]);
            assert(a.borrowed_imm@.contains(src));
        }
        if p0.borrowed_mut@.contains(src) {
            let i = choose|i: int| 0 <= i < live.len() && #[trigger] live[i].source@ == src && live[i].mutable == true;
            a.active_borrows@.lemma_filter_contains_rev(pred, live[i]);
            assert(a.borrowed_mut@.contains(src));
        }
    }
    law_use_after_move_in_walk(block, facts, a, b, ea, eb, ss, ps, es, 0, l, p, src);
    let k = choose|k: int|
        es[1].len() <= k < es[2].len() && (#[trigger] es[2][k] matches BorrowError::UseAfterMove { name, .. } && name@ == src);
    assert(es[0].len() <= es[1].len());
    assert(eb[k] == es[2][k]);
}

/// A binding that is not of Move kind stays usable after it is copied: in a
/// walk of a block (see `block_trace`), when statement `i` is `let dst = src`
/// and statement `i + 1` is `print(src)`, with `src` not of Move kind and
/// neither moved nor borrowed when the `let` is checked outside `unsafe`,
/// checking the `print` reports nothing.
pub proof fn law_copy_stays_usable_in_walk<F: OwnershipFacts>(
    block: &Block,
    facts: &F,
    a: BorrowState,
    b: BorrowState,
    ea: Seq<BorrowError>,
    eb: Seq<BorrowError>,
    ss: Seq<BorrowState>,
    ps: Seq<BorrowState>,
    es: Seq<Seq<BorrowError>>,
    i: int,
    l: LetStmt,
    p: PrintStmt,
    src: Seq<char>,
)
    requires
        block_trace(block, facts, a, b, ea, eb, ss, ps, es),
        0 <= i,
        i + 1 < block.statements@.len(),
        block.statements@[i] == Statement::Let(l),
        block.statements@[i + 1] == Statement::Print(p),
        l.value matches Expression::Variable { name, .. } && name@ == src,
        l.name@ != src,
        p.args@.len() == 1,
        p.args@[0] matches Expression::Variable { name, .. } && name@ == src,
        p.color is None,
        ps[i].unsafe_depth == 0,
        ps[i].kind_of_var(src) != OwnershipKind::Move,
        !crate::moves::use_conflicts(&ps[i], src),
    ensures
        es[i + 2] == es[i + 1],
{
    broadcast use vstd::seq_lib::group_filter_ensures;
    let st = block.statements@;
    assert(i + 1 <= usize::MAX) by {
        assert(block.statements.len() == block.statements@.len());
    }
    assert(expired_to(ss[i], ps[i], i as usize) && stmt_step(ps[i], ss[i + 1], es[i], es[i + 1], &st[i], facts, facts.spec_last_uses(*block), last_index(block), i as usize));
    assert(expired_to(ss[i + 1], ps[i + 1], (i + 1) as usize) && stmt_step(
        ps[i + 1],
        ss[i + 2],
        es[i + 1],
        es[i + 2],
        &st[i + 1],
    facts, facts.spec_last_uses(*block), last_index(block), (i + 1) as usize));
    let p0 = ps[i];
    let s1 = ss[i + 1];
    let p1 = ps[i + 1];
    assert(used_expr(&l.value) == seq![src]);
    assert(conflicted(&p0, seq![src]) =~= Seq::<Seq<char>>::empty()) by {
        reveal_with_fuel(conflicted, 2);
        assert(seq![src].drop_last() =~= Seq::<Seq<char>>::empty());
        assert(seq![src].last() == src);
    }
    assert(let_effect(p0, s1, &l, facts, facts.spec_last_uses(*block), last_index(block)));
    assert(s1.kind_of_var(src) == p0.kind_of_var(src));
    assert(!p1.moved@.contains_key(src));
    let bs = s1.active_borrows@;
    let live = p1.active_borrows@;
    let pred = |y: crate::borrow::ActiveBorrow| y.expires_after >= ((i + 1) as usize);
    assert(live == bs.filter(pred)) by {
        assert(pred =~= (|y: crate::borrow::ActiveBorrow| y.expires_after >= ((i + 1) as usize)));
    }
    assert(crate::moves::bviews(bs).len() == bs.len());
    assert(crate::moves::bviews(p0.active_borrows@).len() == p0.active_borrows@.len());
    assert forall|t: int| 0 <= t < live.len() implies (#[trigger] live[t]).source@ != src by {
        assert(live.contains(live[t]));
        bs.lemma_filter_contains_rev(pred, live[t]);
        let idx = choose|idx: int| 0 <= idx < bs.len() && bs[idx] == live[t];
        assert(crate::moves::bviews(bs)[idx] == crate::moves::bview(bs[idx]));
        assert(p0.active_borrows@[idx].source@ == bs[idx].source@ && p0.active_borrows@[idx].mutable == bs[idx].mutable) by {
            assert(crate::moves::bviews(p0.active_borrows@)[idx] == crate::moves::bview(p0.active_borrows@[idx]));
        }
        if live[t].source@ == src {
            if live[t].mutable {
                assert(p0.borrowed_mut@.contains(src));
            } else {
                assert(p0.borrowed_imm@.contains(src));
            }
        }
    }
    assert(!p1.is_borrowed(src)) by {
        if p1.borrowed_imm@.contains(src) {
            let t = choose|t: int| 0 <= t < live.len() && #[trigger] live[t].source@ == src && live[t].mutable == false;
        }
        if p1.borrowed_mut@.contains(src) {
            let t = choose|t: int| 0 <= t < live.len() && #[trigger] live[t].source@ == src && live[t].mutable == true;
        }
    }
    assert(p1.unsafe_depth == 0);
    assert(print_outcome(p1, ss[i + 2], es[i + 1], es[i + 2], &p));
    let (qs, fs) = choose|qs: Seq<BorrowState>, fs: Seq<Seq<BorrowError>>| #[trigger] print_trace(
        p1,
        ss[i + 2],
        es[i + 1],
        es[i + 2],
        &p,
        qs,
        fs,
    );
    assert(expr_stmt_outcome(qs[0], qs[1], fs[0], fs[1], &p.args@[0]));
    assert(used_expr(&p.args@[0]) == seq![src]);
    assert(conflicted(&p1, seq![src]) =~= Seq::<Seq<char>>::empty()) by {
        reveal_with_fuel(conflicted, 2);
        assert(seq![src].drop_last() =~= Seq::<Seq<char>>::empty());
        assert(seq![src].last() == src);
    }
}

/// Assigning to a binding while a reference to it lives is an error (E010):
/// in a walk of a block (see `block_trace`), when statement `i` is
/// `let r = &x` (or `&mut x`), checked outside `unsafe`, and statement `i + 1`
/// assigns to `x` while `r` is still used there or later (its last use by
/// the ownership analysis, or the block's end), checking the assignment first reports an
/// assignment to the borrowed `x`, mutably borrowed when `r` is `&mut`.
pub proof fn law_assign_while_borrowed_in_walk<F: OwnershipFacts>(
    block: &Block,
    facts: &F,
    a: BorrowState,
    b: BorrowState,
    ea: Seq<BorrowError>,
    eb: Seq<BorrowError>,
    ss: Seq<BorrowState>,
    ps: Seq<BorrowState>,
    es: Seq<Seq<BorrowError>>,
    i: int,
    l: LetStmt,
    asg: AssignStmt,
    x: Seq<char>,
    m: bool,
)
    requires
        block_trace(block, facts, a, b, ea, eb, ss, ps, es),
        0 <= i,
        i + 1 < block.statements@.len(),
        block.statements@[i] == Statement::Let(l),
        block.statements@[i + 1] == Statement::Assign(asg),
        ref_binding_source(&l.value) == Some((x, m)),
        spec_binding_name(&asg.target) == Some(x),
        ps[i].unsafe_depth == 0,
        expiry_of(facts.spec_last_uses(*block), last_index(block), l.name@) >= i + 1,
    ensures
        es[i + 1].len() < es[i + 2].len(),
        es[i + 2][es[i + 1].len() as int] matches BorrowError::AssignWhileBorrowed { name, mutably } && name@ == x
            && mutably == m,
{
    broadcast use vstd::seq_lib::group_filter_ensures;
    let st = block.statements@;
    assert(expired_to(ss[i], ps[i], i as usize) && stmt_step(ps[i], ss[i + 1], es[i], es[i + 1], &st[i], facts, facts.spec_last_uses(*block), last_index(block), i as usize));
    assert(expired_to(ss[i + 1], ps[i + 1], (i + 1) as usize) && stmt_step(
        ps[i + 1],
        ss[i + 2],
        es[i + 1],
        es[i + 2],
        &st[i + 1],
    facts, facts.spec_last_uses(*block), last_index(block), (i + 1) as usize));
    assert(used_expr(&l.value) =~= Seq::<Seq<char>>::empty());
    assert(conflicted(&ps[i], Seq::<Seq<char>>::empty()) =~= Seq::<Seq<char>>::empty());
    assert(let_effect(ps[i], ss[i + 1], &l, facts, facts.spec_last_uses(*block), last_index(block)));
    let s1 = ss[i + 1];
    let p1 = ps[i + 1];
    let bs = s1.active_borrows@;
    let last = bs[bs.len() - 1];
    let pred = |y: crate::borrow::ActiveBorrow| y.expires_after >= ((i + 1) as usize);
    assert(p1.active_borrows@ == bs.filter(pred)) by {
        assert(pred =~= (|y: crate::borrow::ActiveBorrow| y.expires_after >= ((i + 1) as usize)));
    }
    bs.lemma_filter_contains(pred, bs.len() - 1);
    let live = p1.active_borrows@;
    let j = choose|j: int| 0 <= j < live.len() && live[j] == last;
    assert(live[j].source@ == x && live[j].mutable == m);
    assert(crate::borrow::borrowed_sources(live, m).contains(x));
    assert(p1.is_borrowed(x));
    assert forall|t: int| 0 <= t < live.len() && #[trigger] live[t].source@ == x implies live[t].mutable == m by {
        assert(live.contains(live[t]));
        bs.lemma_filter_contains_rev(pred, live[t]);
        let idx = choose|idx: int| 0 <= idx < bs.len() && bs[idx] == live[t];
        if idx < bs.len() - 1 {
            assert(bs[idx].source@ != x);
        }
    }
    if !m {
        if p1.borrowed_mut@.contains(x) {
            let t = choose|t: int| 0 <= t < live.len() && #[trigger] live[t].source@ == x && live[t].mutable == true;
            assert(live[t].mutable == m);
        }
    }
    assert(p1.unsafe_depth == 0);
    assert(assign_outcome(&p1, es[i + 1], es[i + 2], &asg));
}

/// Reading a binding while a reference to it lives is an error: in a walk of
/// a block (see `block_trace`), when statement `i` is `let r = &x` (or
/// `&mut x`), checked outside `unsafe` with `x` not moved, and statement
/// `i + 1` is `print(x)` while `r` is still used there or later,
/// checking the `print` reports a use of `x` while (mutably, for `&mut`)
/// borrowed.
pub proof fn law_use_while_borrowed_in_walk<F: OwnershipFacts>(
    block: &Block,
    facts: &F,
    a: BorrowState,
    b: BorrowState,
    ea: Seq<BorrowError>,
    eb: Seq<BorrowError>,
    ss: Seq<BorrowState>,
    ps: Seq<BorrowState>,
    es: Seq<Seq<BorrowError>>,
    i: int,
    l: LetStmt,
    p: PrintStmt,
    x: Seq<char>,
    m: bool,
)
    requires
        block_trace(block, facts, a, b, ea, eb, ss, ps, es),
        0 <= i,
        i + 1 < block.statements@.len(),
        block.statements@[i] == Statement::Let(l),
        block.statements@[i + 1] == Statement::Print(p),
        ref_binding_source(&l.value) == Some((x, m)),
        p.args@.len() == 1,
        p.args@[0] matches Expression::Variable { name, .. } && name@ == x,
        p.color is None,
        ps[i].unsafe_depth == 0,
        !ps[i].moved@.contains_key(x),
        expiry_of(facts.spec_last_uses(*block), last_index(block), l.name@) >= i + 1,
    ensures
        es[i + 1].len() < es[i + 2].len(),
        m ==> (es[i + 2][es[i + 1].len() as int] matches BorrowError::UseWhileMutBorrowed { name } && name@ == x),
        !m ==> (es[i + 2][es[i + 1].len() as int] matches BorrowError::UseWhileBorrowed { name } && name@ == x),
{
    broadcast use vstd::seq_lib::group_filter_ensures;
    let st = block.statements@;
    assert(expired_to(ss[i], ps[i], i as usize) && stmt_step(ps[i], ss[i + 1], es[i], es[i + 1], &st[i], facts, facts.spec_last_uses(*block), last_index(block), i as usize));
    assert(expired_to(ss[i + 1], ps[i + 1], (i + 1) as usize) && stmt_step(
        ps[i + 1],
        ss[i + 2],
        es[i + 1],
        es[i + 2],
        &st[i + 1],
    facts, facts.spec_last_uses(*block), last_index(block), (i + 1) as usize));
    assert(used_expr(&l.value) =~= Seq::<Seq<char>>::empty());
    assert(conflicted(&ps[i], Seq::<Seq<char>>::empty()) =~= Seq::<Seq<char>>::empty());
    assert(let_effect(ps[i], ss[i + 1], &l, facts, facts.spec_last_uses(*block), last_index(block)));
    let s1 = ss[i + 1];
    let p1 = ps[i + 1];
    assert(!p1.moved@.contains_key(x));
    let bs = s1.active_borrows@;
    let last = bs[bs.len() - 1];
    let pred = |y: crate::borrow::ActiveBorrow| y.expires_after >= ((i + 1) as usize);
    assert(p1.active_borrows@ == bs.filter(pred)) by {
        assert(pred =~= (|y: crate::borrow::ActiveBorrow| y.expires_after >= ((i + 1) as usize)));
    }
    bs.lemma_filter_contains(pred, bs.len() - 1);
    let live = p1.active_borrows@;
    let j = choose|j: int| 0 <= j < live.len() && live[j] == last;
    assert(live[j].source@ == x && live[j].mutable == m);
    assert(crate::borrow::borrowed_sources(live, m).contains(x));
    assert forall|t: int| 0 <= t < live.len() && #[trigger] live[t].source@ == x implies live[t].mutable == m by {
        assert(live.contains(live[t]));
        bs.lemma_filter_contains_rev(pred, live[t]);
        let idx = choose|idx: int| 0 <= idx < bs.len() && bs[idx] == live[t];
        if idx < bs.len() - 1 {
            assert(bs[idx].source@ != x);
        }
    }
    if !m {
        if p1.borrowed_mut@.contains(x) {
            let t = choose|t: int| 0 <= t < live.len() && #[trigger] live[t].source@ == x && live[t].mutable == true;
            assert(live[t].mutable == m);
        }
    }
    assert(p1.unsafe_depth == 0);
    assert(print_outcome(p1, ss[i + 2], es[i + 1], es[i + 2], &p));
    let (qs, fs) = choose|qs: Seq<BorrowState>, fs: Seq<Seq<BorrowError>>| #[trigger] print_trace(
        p1,
        ss[i + 2],
        es[i + 1],
        es[i + 2],
        &p,
        qs,
        fs,
    );
    assert(expr_stmt_outcome(qs[0], qs[1], fs[0], fs[1], &p.args@[0]));
    assert(used_expr(&p.args@[0]) == seq![x]);
    assert(conflicted(&p1, seq![x]) =~= seq![x]) by {
        reveal_with_fuel(conflicted, 2);
        assert(seq![x].drop_last() =~= Seq::<Seq<char>>::empty());
        assert(seq![x].last() == x);
        assert(crate::moves::use_conflicts(&p1, x));
        assert(Seq::<Seq<char>>::empty().push(x) =~= seq![x]);
    }
    let em = choose|em: Seq<BorrowError>| #[trigger] free_part(fs[0], em, &p.args@[0]) && reported(
        &p1,
        em,
        fs[1],
        used_expr(&p.args@[0]),
    );
    assert(em == es[i + 1]);
    let c = conflicted(&p1, used_expr(&p.args@[0]));
    assert(c == seq![x]);
    assert(crate::moves::use_error_for(fs[1][em.len() + 0int], &p1, c[0]));
}

/// `conflicted` is empty when none of `names` is moved or borrowed.
proof fn lemma_conflicted_none(st: &BorrowState, names: Seq<Seq<char>>)
    requires
        forall|k: int| 0 <= k < names.len() ==> !crate::moves::use_conflicts(st, #[trigger] names[k]),
    ensures
        conflicted(st, names).len() == 0,
    decreases names.len(),
{
    if names.len() > 0 {
        assert(names.last() == names[names.len() - 1]);
        assert forall|k: int| 0 <= k < names.drop_last().len() implies !crate::moves::use_conflicts(
            st,
            #[trigger] names.drop_last()[k],
        ) by {
            assert(names.drop_last()[k] == names[k]);
        }
        lemma_conflicted_none(st, names.drop_last());
    }
}

/// A borrow ends at the last use of the reference that holds it: in a walk of
/// a block (see `block_trace`), when statement `i` is `let r = &x` (or
/// `&mut x`) with no borrow live before it, checked outside `unsafe`,
/// statement `i + 1` prints a plain read of bindings other than `x` that are
/// not moved, statement `i + 2` assigns to `x` a value that reads no binding,
/// and the ownership analysis puts the last use of `r` no later than
/// statement `i + 1`, then none of the three statements reports anything.
pub proof fn law_borrow_ends_at_last_use_in_walk<F: OwnershipFacts>(
    block: &Block,
    facts: &F,
    a: BorrowState,
    b: BorrowState,
    ea: Seq<BorrowError>,
    eb: Seq<BorrowError>,
    ss: Seq<BorrowState>,
    ps: Seq<BorrowState>,
    es: Seq<Seq<BorrowError>>,
    i: int,
    l: LetStmt,
    p: PrintStmt,
    asg: AssignStmt,
    x: Seq<char>,
    m: bool,
)
    requires
        block_trace(block, facts, a, b, ea, eb, ss, ps, es),
        0 <= i,
        i + 2 < block.statements@.len(),
        block.statements@[i] == Statement::Let(l),
        block.statements@[i + 1] == Statement::Print(p),
        block.statements@[i + 2] == Statement::Assign(asg),
        ref_binding_source(&l.value) == Some((x, m)),
        p.args@.len() == 1,
        p.color is None,
        crate::moves::plain_read(&p.args@[0]),
        forall|k: int| 0 <= k < used_expr(&p.args@[0]).len() ==> #[trigger] used_expr(&p.args@[0])[k] != x
            && !ps[i].moved@.contains_key(used_expr(&p.args@[0])[k]),
        spec_binding_name(&asg.target) == Some(x),
        used_expr(&asg.value).len() == 0,
        ps[i].unsafe_depth == 0,
        ps[i].active_borrows@.len() == 0,
        expiry_of(facts.spec_last_uses(*block), last_index(block), l.name@) <= i + 1,
    ensures
        es[i + 3] == es[i],
{
    broadcast use vstd::seq_lib::group_filter_ensures;
    let st = block.statements@;
    let lu = facts.spec_last_uses(*block);
    let last = last_index(block);
    assert(i + 2 <= usize::MAX) by {
        assert(block.statements.len() == block.statements@.len());
    }
    assert(expired_to(ss[i], ps[i], i as usize) && stmt_step(ps[i], ss[i + 1], es[i], es[i + 1], &st[i], facts, lu, last, i as usize));
    assert(expired_to(ss[i + 1], ps[i + 1], (i + 1) as usize) && stmt_step(
        ps[i + 1],
        ss[i + 2],
        es[i + 1],
        es[i + 2],
        &st[i + 1],
        facts,
        lu,
        last,
    (i + 1) as usize));
    assert(expired_to(ss[i + 2], ps[i + 2], (i + 2) as usize) && stmt_step(
        ps[i + 2],
        ss[i + 3],
        es[i + 2],
        es[i + 3],
        &st[i + 2],
        facts,
        lu,
        last,
    (i + 2) as usize));
    // the `let`
    assert(used_expr(&l.value) =~= Seq::<Seq<char>>::empty());
    assert(conflicted(&ps[i], Seq::<Seq<char>>::empty()) =~= Seq::<Seq<char>>::empty());
    assert(let_effect(ps[i], ss[i + 1], &l, facts, lu, last));
    assert(es[i + 1] == es[i]);
    let e = expiry_of(lu, last, l.name@);
    let s1 = ss[i + 1];
    assert(crate::moves::bviews(ps[i].active_borrows@) =~= Seq::empty());
    assert(crate::moves::bviews(s1.active_borrows@) =~= seq![(x, m, e, Some(l.name@))]);
    assert(s1.active_borrows@.len() == 1) by {
        assert(crate::moves::bviews(s1.active_borrows@).len() == s1.active_borrows@.len());
    }
    let only = s1.active_borrows@[0];
    assert(crate::moves::bviews(s1.active_borrows@)[0] == crate::moves::bview(only));
    assert(only.source@ == x && only.expires_after == e);
    // the `print`
    let p1 = ps[i + 1];
    let reads = used_expr(&p.args@[0]);
    let pred1 = |y: crate::borrow::ActiveBorrow| y.expires_after >= ((i + 1) as usize);
    assert(p1.active_borrows@ == s1.active_borrows@.filter(pred1)) by {
        assert(pred1 =~= (|y: crate::borrow::ActiveBorrow| y.expires_after >= ((i + 1) as usize)));
    }
    assert forall|t: int| 0 <= t < p1.active_borrows@.len() implies #[trigger] p1.active_borrows@[t] == only by {
        assert(p1.active_borrows@.contains(p1.active_borrows@[t]));
        s1.active_borrows@.lemma_filter_contains_rev(pred1, p1.active_borrows@[t]);
    }
    assert forall|k: int| 0 <= k < reads.len() implies !crate::moves::use_conflicts(&p1, #[trigger] reads[k]) by {
        let n = reads[k];
        assert(n != x);
        if p1.borrowed_imm@.contains(n) {
            let t = choose|t: int| 0 <= t < p1.active_borrows@.len() && #[trigger] p1.active_borrows@[t].source@ == n
                && p1.active_borrows@[t].mutable == false;
            assert(p1.active_borrows@[t] == only);
        }
        if p1.borrowed_mut@.contains(n) {
            let t = choose|t: int| 0 <= t < p1.active_borrows@.len() && #[trigger] p1.active_borrows@[t].source@ == n
                && p1.active_borrows@[t].mutable == true;
            assert(p1.active_borrows@[t] == only);
        }
    }
    lemma_conflicted_none(&p1, reads);
    assert(p1.unsafe_depth == 0);
    assert(print_outcome(p1, ss[i + 2], es[i + 1], es[i + 2], &p));
    let (qs, fs) = choose|qs: Seq<BorrowState>, fs: Seq<Seq<BorrowError>>| #[trigger] print_trace(
        p1,
        ss[i + 2],
        es[i + 1],
        es[i + 2],
        &p,
        qs,
        fs,
    );
    assert(expr_stmt_outcome(qs[0], qs[1], fs[0], fs[1], &p.args@[0]));
    assert(es[i + 2] == es[i + 1]);
    let s2 = ss[i + 2];
    assert(crate::moves::bviews(s2.active_borrows@) == crate::moves::bviews(p1.active_borrows@));
    // the assignment
    let p2 = ps[i + 2];
    let pred2 = |y: crate::borrow::ActiveBorrow| y.expires_after >= ((i + 2) as usize);
    assert(p2.active_borrows@ == s2.active_borrows@.filter(pred2)) by {
        assert(pred2 =~= (|y: crate::borrow::ActiveBorrow| y.expires_after >= ((i + 2) as usize)));
    }
    assert(crate::moves::bviews(s2.active_borrows@).len() == s2.active_borrows@.len());
    assert(crate::moves::bviews(p1.active_borrows@).len() == p1.active_borrows@.len());
    assert(p2.active_borrows@.len() == 0) by {
        if p2.active_borrows@.len() > 0 {
            let y = p2.active_borrows@[0];
            s2.active_borrows@.lemma_filter_pred(pred2, 0);
            assert(p2.active_borrows@.contains(y));
            s2.active_borrows@.lemma_filter_contains_rev(pred2, y);
            let t = choose|t: int| 0 <= t < s2.active_borrows@.len() && s2.active_borrows@[t] == y;
            assert(crate::moves::bviews(s2.active_borrows@)[t] == crate::moves::bview(y));
            assert(crate::moves::bviews(p1.active_borrows@)[t] == crate::moves::bview(p1.active_borrows@[t]));
            assert(p1.active_borrows@[t] == only);
        }
    }
    assert(!p2.is_borrowed(x));
    assert(p2.unsafe_depth == 0);
    assert(assign_outcome(&p2, es[i + 2], es[i + 3], &asg));
    assert(conflicted(&p2, used_expr(&asg.value)) =~= Seq::<Seq<char>>::empty());
    assert(es[i + 2].take(es[i + 2].len() as int) =~= es[i + 2]);
    assert(es[i + 3] =~= es[i + 2]);
}

/// A borrow ends at its last use: in a walk of a block (see `block_trace`),
/// an assignment at statement `j`, checked outside `unsafe`, of a value that
/// reads no binding, to a binding `x` whose borrows all expired before `j`,
/// reports nothing.
pub proof fn law_assign_after_borrows_expire_in_walk<F: OwnershipFacts>(
    block: &Block,
    facts: &F,
    a: BorrowState,
    b: BorrowState,
    ea: Seq<BorrowError>,
    eb: Seq<BorrowError>,
    ss: Seq<BorrowState>,
    ps: Seq<BorrowState>,
    es: Seq<Seq<BorrowError>>,
    j: int,
    asg: AssignStmt,
    x: Seq<char>,
)
    requires
        block_trace(block, facts, a, b, ea, eb, ss, ps, es),
        0 <= j < block.statements@.len(),
        block.statements@[j] == Statement::Assign(asg),
        spec_binding_name(&asg.target) == Some(x),
        used_expr(&asg.value).len() == 0,
        ps[j].unsafe_depth == 0,
        forall|t: int| 0 <= t < ss[j].active_borrows@.len() && (#[trigger] ss[j].active_borrows@[t]).source@ == x
            ==> ss[j].active_borrows@[t].expires_after < j,
    ensures
        es[j + 1] == es[j],
{
    broadcast use vstd::seq_lib::group_filter_ensures;
    let st = block.statements@;
    assert(j <= usize::MAX) by {
        assert(block.statements.len() == block.statements@.len());
    }
    assert(expired_to(ss[j], ps[j], j as usize) && stmt_step(ps[j], ss[j + 1], es[j], es[j + 1], &st[j], facts, facts.spec_last_uses(*block), last_index(block), j as usize));
    let bs = ss[j].active_borrows@;
    let live = ps[j].active_borrows@;
    let pred = |y: crate::borrow::ActiveBorrow| y.expires_after >= (j as usize);
    assert(live == bs.filter(pred)) by {
        assert(pred =~= (|y: crate::borrow::ActiveBorrow| y.expires_after >= (j as usize)));
    }
    assert forall|t: int| 0 <= t < live.len() implies (#[trigger] live[t]).source@ != x by {
        bs.lemma_filter_pred(pred, t);
        assert(pred(live[t]));
        assert(live[t].expires_after >= (j as usize));
        assert(live[t].expires_after >= j);
        assert(live.contains(live[t]));
        bs.lemma_filter_contains_rev(pred, live[t]);
        let idx = choose|idx: int| 0 <= idx < bs.len() && bs[idx] == live[t];
        assert(bs[idx].expires_after >= j);
    }
    assert(!ps[j].is_borrowed(x)) by {
        if ps[j].borrowed_imm@.contains(x) {
            let t = choose|t: int| 0 <= t < live.len() && #[trigger] live[t].source@ == x && live[t].mutable == false;
        }
        if ps[j].borrowed_mut@.contains(x) {
            let t = choose|t: int| 0 <= t < live.len() && #[trigger] live[t].source@ == x && live[t].mutable == true;
        }
    }
    assert(assign_outcome(&ps[j], es[j], es[j + 1], &asg));
    assert(conflicted(&ps[j], used_expr(&asg.value)) =~= Seq::<Seq<char>>::empty());
    assert(es[j].take(es[j].len() as int) =~= es[j]);
    assert(es[j + 1] =~= es[j]);
}

proof fn lemma_extends_chain(es: Seq<Seq<BorrowError>>, i: int, j: int)
    requires
        0 <= i <= j < es.len(),
        forall|k: int| 0 <= k < es.len() - 1 ==> extends(#[trigger] es[k], es[k + 1]),
    ensures
        extends(es[i], es[j]),
    decreases j - i,
{
    if i < j {
        lemma_extends_chain(es, i, j - 1);
        assert(extends(es[j - 1], es[j]));
        lemma_extends_trans(es[i], es[j - 1], es[j]);
    } else {
        assert(es[i].take(es[i].len() as int) =~= es[i]);
    }
}

/// In a walk of a block, the errors only grow from statement to statement.
proof fn lemma_trace_extends<F: OwnershipFacts>(
    block: &Block,
    facts: &F,
    a: BorrowState,
    b: BorrowState,
    ea: Seq<BorrowError>,
    eb: Seq<BorrowError>,
    ss: Seq<BorrowState>,
    ps: Seq<BorrowState>,
    es: Seq<Seq<BorrowError>>,
    i: int,
)
    requires
        block_trace(block, facts, a, b, ea, eb, ss, ps, es),
        0 <= i < es.len(),
    ensures
        extends(es[i], eb),
        extends(ea, es[i]),
{
    let n = block.statements@.len();
    assert forall|k: int| 0 <= k < es.len() - 1 implies extends(#[trigger] es[k], es[k + 1]) by {
        assert(expired_to(ss[k], ps[k], k as usize));
    }
    lemma_extends_chain(es, i, n as int);
    lemma_extends_chain(es, 0, i);
}

/// The borrow check of a program rejects a use after move: when a function
/// body that is checked begins with `let a = <literal>` (no written type) whose
/// type the ownership analysis gives Move kind, then `let b = a`, then
/// `print(a)`, the errors of the whole check include a use after move of `a`.
pub proof fn law_program_rejects_use_after_move<F: OwnershipFacts>(
    p: &Program,
    facts: &F,
    e0: Seq<BorrowError>,
    eb: Seq<BorrowError>,
    j: int,
    l0: LetStmt,
    l1: LetStmt,
    pr: PrintStmt,
)
    requires
        program_walk(p, facts, e0, eb),
        0 <= j < checked_bodies(p).len(),
        checked_bodies(p)[j].statements@.len() >= 3,
        checked_bodies(p)[j].statements@[0] == Statement::Let(l0),
        checked_bodies(p)[j].statements@[1] == Statement::Let(l1),
        checked_bodies(p)[j].statements@[2] == Statement::Print(pr),
        l0.value is Literal,
        l0.ty is None,
        facts.spec_expr_info(l0.value).kind == OwnershipKind::Move,
        l1.value matches Expression::Variable { name, .. } && name@ == l0.name@,
        l1.name@ != l0.name@,
        pr.args@.len() == 1,
        pr.args@[0] matches Expression::Variable { name, .. } && name@ == l0.name@,
        pr.color is None,
    ensures
        exists|k: int| e0.len() <= k < eb.len() && (#[trigger] eb[k] matches BorrowError::UseAfterMove { name, .. } && name@
            == l0.name@),
{
    broadcast use vstd::seq_lib::group_filter_ensures;
    let bodies = checked_bodies(p);
    let pes = choose|pes: Seq<Seq<BorrowError>>| #[trigger] bodies_trace(bodies, facts, pes) && problems_added(
        e0,
        pes[0],
        facts.spec_program_problems(*p),
    ) && pes.last() == eb;
    let body = bodies[j];
    assert(body_walked(body, facts, pes[j], pes[j + 1]));
    let (a, b) = choose|a: BorrowState, b: BorrowState| fresh_state(a) && #[trigger] block_walk(&body, facts, a, b, pes[j], pes[j + 1]);
    let (ss, ps, es) = choose|ss: Seq<BorrowState>, ps: Seq<BorrowState>, es: Seq<Seq<BorrowError>>| #[trigger] block_trace(
        &body,
        facts,
        a,
        b,
        pes[j],
        pes[j + 1],
        ss,
        ps,
        es,
    );
    let st = body.statements@;
    let lu = facts.spec_last_uses(body);
    let last = last_index(&body);
    let x = l0.name@;
    assert(expired_to(ss[0], ps[0], 0) && stmt_step(ps[0], ss[1], es[0], es[1], &st[0], facts, lu, last, 0));
    assert(expired_to(ss[1], ps[1], 1) && stmt_step(ps[1], ss[2], es[1], es[2], &st[1], facts, lu, last, 1));
    let p0 = ps[0];
    assert(p0.active_borrows@ =~= Seq::<crate::borrow::ActiveBorrow>::empty());
    assert(used_expr(&l0.value) =~= Seq::<Seq<char>>::empty());
    assert(conflicted(&p0, Seq::<Seq<char>>::empty()) =~= Seq::<Seq<char>>::empty());
    assert(let_effect(p0, ss[1], &l0, facts, lu, last));
    let s1 = ss[1];
    assert(s1.var_types@[x] == facts.spec_expr_info(l0.value));
    assert(!s1.moved@.contains_key(x));
    assert(crate::moves::bviews(s1.active_borrows@) =~= Seq::empty()) by {
        assert(crate::moves::bviews(p0.active_borrows@) =~= Seq::empty());
    }
    assert(s1.active_borrows@.len() == 0) by {
        assert(crate::moves::bviews(s1.active_borrows@).len() == s1.active_borrows@.len());
    }
    let p1 = ps[1];
    assert(p1.active_borrows@ =~= Seq::<crate::borrow::ActiveBorrow>::empty()) by {
        let pred = |y: crate::borrow::ActiveBorrow| y.expires_after >= 1usize;
        assert(p1.active_borrows@ == s1.active_borrows@.filter(pred)) by {
            assert(pred =~= (|y: crate::borrow::ActiveBorrow| y.expires_after >= 1usize));
        }
        s1.active_borrows@.lemma_filter_len(pred);
    }
    assert(!p1.is_borrowed(x));
    assert(p1.kind_of_var(x) == OwnershipKind::Move);
    assert(p1.unsafe_depth == 0);
    law_use_after_move_in_walk(&body, facts, a, b, pes[j], pes[j + 1], ss, ps, es, 1, l1, pr, x);
    let k = choose|k: int|
        es[2].len() <= k < es[3].len() && (#[trigger] es[3][k] matches BorrowError::UseAfterMove { name, .. } && name@ == x);
    lemma_trace_extends(&body, facts, a, b, pes[j], pes[j + 1], ss, ps, es, 3);
    assert(es[3].len() <= pes[j + 1].len());
    assert(pes[j + 1][k] == es[3][k]);
    assert forall|t: int| 0 <= t < pes.len() - 1 implies extends(#[trigger] pes[t], pes[t + 1]) by {
        assert(body_walked(bodies[t], facts, pes[t], pes[t + 1]));
        let (a2, b2) = choose|a2: BorrowState, b2: BorrowState| fresh_state(a2) && #[trigger] block_walk(
            &bodies[t],
            facts,
            a2,
            b2,
            pes[t],
            pes[t + 1],
        );
        let (ss2, ps2, es2) = choose|ss2: Seq<BorrowState>, ps2: Seq<BorrowState>, es2: Seq<Seq<BorrowError>>| #[trigger] block_trace(
            &bodies[t],
            facts,
            a2,
            b2,
            pes[t],
            pes[t + 1],
            ss2,
            ps2,
            es2,
        );
        lemma_trace_extends(&bodies[t], facts, a2, b2, pes[t], pes[t + 1], ss2, ps2, es2, 0);
    }
    lemma_extends_chain(pes, j + 1, pes.len() - 1);
    lemma_extends_chain(pes, 0, j);
    assert(pes[0].len() >= e0.len());
    assert(eb[k] == pes[j + 1][k]);
}

/// In a walk of a block, every statement is checked at the block's `unsafe`
/// depth.
proof fn lemma_trace_depth<F: OwnershipFacts>(
    block: &Block,
    facts: &F,
    a: BorrowState,
    b: BorrowState,
    ea: Seq<BorrowError>,
    eb: Seq<BorrowError>,
    ss: Seq<BorrowState>,
    ps: Seq<BorrowState>,
    es: Seq<Seq<BorrowError>>,
    i: int,
)
    requires
        block_trace(block, facts, a, b, ea, eb, ss, ps, es),
        0 <= i < ps.len(),
    ensures
        ps[i].unsafe_depth == a.unsafe_depth,
        ss[i].unsafe_depth == a.unsafe_depth,
    decreases i,
{
    assert(expired_to(ss[i], ps[i], i as usize));
    if i > 0 {
        lemma_trace_depth(block, facts, a, b, ea, eb, ss, ps, es, i - 1);
        assert(expired_to(ss[i - 1], ps[i - 1], (i - 1) as usize));
    }
}

/// The borrow check of a program rejects assigning to a borrowed binding
/// (E010): when a checked function body has `let r = &x` (or `&mut x`) as
/// statement `i` and an assignment to `x` as statement `i + 1`, and the
/// ownership analysis puts the last use of `r` at or after the assignment (or
/// `r` is never used again), the errors of the whole check include an
/// assignment to the borrowed `x`.
pub proof fn law_program_rejects_assign_while_borrowed<F: OwnershipFacts>(
    p: &Program,
    facts: &F,
    e0: Seq<BorrowError>,
    eb: Seq<BorrowError>,
    j: int,
    i: int,
    l: LetStmt,
    asg: AssignStmt,
    x: Seq<char>,
    m: bool,
)
    requires
        program_walk(p, facts, e0, eb),
        0 <= j < checked_bodies(p).len(),
        0 <= i,
        i + 1 < checked_bodies(p)[j].statements@.len(),
        checked_bodies(p)[j].statements@[i] == Statement::Let(l),
        checked_bodies(p)[j].statements@[i + 1] == Statement::Assign(asg),
        ref_binding_source(&l.value) == Some((x, m)),
        spec_binding_name(&asg.target) == Some(x),
        expiry_of(facts.spec_last_uses(checked_bodies(p)[j]), last_index(&checked_bodies(p)[j]), l.name@) >= i + 1,
    ensures
        exists|k: int| e0.len() <= k < eb.len() && (#[trigger] eb[k] matches BorrowError::AssignWhileBorrowed { name, mutably } && name@
            == x && mutably == m),
{
    let bodies = checked_bodies(p);
    let pes = choose|pes: Seq<Seq<BorrowError>>| #[trigger] bodies_trace(bodies, facts, pes) && problems_added(
        e0,
        pes[0],
        facts.spec_program_problems(*p),
    ) && pes.last() == eb;
    let body = bodies[j];
    assert(body_walked(body, facts, pes[j], pes[j + 1]));
    let (a, b) = choose|a: BorrowState, b: BorrowState| fresh_state(a) && #[trigger] block_walk(&body, facts, a, b, pes[j], pes[j + 1]);
    let (ss, ps, es) = choose|ss: Seq<BorrowState>, ps: Seq<BorrowState>, es: Seq<Seq<BorrowError>>| #[trigger] block_trace(
        &body,
        facts,
        a,
        b,
        pes[j],
        pes[j + 1],
        ss,
        ps,
        es,
    );
    lemma_trace_depth(&body, facts, a, b, pes[j], pes[j + 1], ss, ps, es, i);
    law_assign_while_borrowed_in_walk(&body, facts, a, b, pes[j], pes[j + 1], ss, ps, es, i, l, asg, x, m);
    let k = es[i + 1].len() as int;
    lemma_trace_extends(&body, facts, a, b, pes[j], pes[j + 1], ss, ps, es, i + 2);
    lemma_trace_extends(&body, facts, a, b, pes[j], pes[j + 1], ss, ps, es, i + 1);
    assert(pes[j + 1][k] == es[i + 2][k]);
    assert forall|t: int| 0 <= t < pes.len() - 1 implies extends(#[trigger] pes[t], pes[t + 1]) by {
        assert(body_walked(bodies[t], facts, pes[t], pes[t + 1]));
        let (a2, b2) = choose|a2: BorrowState, b2: BorrowState| fresh_state(a2) && #[trigger] block_walk(
            &bodies[t],
            facts,
            a2,
            b2,
            pes[t],
            pes[t + 1],
        );
        let (ss2, ps2, es2) = choose|ss2: Seq<BorrowState>, ps2: Seq<BorrowState>, es2: Seq<Seq<BorrowError>>| #[trigger] block_trace(
            &bodies[t],
            facts,
            a2,
            b2,
            pes[t],
            pes[t + 1],
            ss2,
            ps2,
            es2,
        );
        lemma_trace_extends(&bodies[t], facts, a2, b2, pes[t], pes[t + 1], ss2, ps2, es2, 0);
    }
    lemma_extends_chain(pes, j + 1, pes.len() - 1);
    lemma_extends_chain(pes, 0, j);
    assert(eb[k] == pes[j + 1][k]);
}

/// Gets, from the walk of a program, a walk of checked body `j` from a fresh
/// state, and that the errors before it extend `e0` and are extended by `eb`.
proof fn lemma_program_body<F: OwnershipFacts>(p: &Program, facts: &F, e0: Seq<BorrowError>, eb: Seq<BorrowError>, j: int) -> (r: (
    BorrowState,
    BorrowState,
    Seq<BorrowError>,
    Seq<BorrowError>,
    Seq<BorrowState>,
    Seq<BorrowState>,
    Seq<Seq<BorrowError>>,
))
    requires
        program_walk(p, facts, e0, eb),
        0 <= j < checked_bodies(p).len(),
    ensures
        fresh_state(r.0),
        block_trace(&checked_bodies(p)[j], facts, r.0, r.1, r.2, r.3, r.4, r.5, r.6),
        extends(e0, r.2),
        extends(r.3, eb),
{
    let bodies = checked_bodies(p);
    let pes = choose|pes: Seq<Seq<BorrowError>>| #[trigger] bodies_trace(bodies, facts, pes) && problems_added(
        e0,
        pes[0],
        facts.spec_program_problems(*p),
    ) && pes.last() == eb;
    let body = bodies[j];
    assert(body_walked(body, facts, pes[j], pes[j + 1]));
    let (a, b) = choose|a: BorrowState, b: BorrowState| fresh_state(a) && #[trigger] block_walk(&body, facts, a, b, pes[j], pes[j + 1]);
    let (ss, ps, es) = choose|ss: Seq<BorrowState>, ps: Seq<BorrowState>, es: Seq<Seq<BorrowError>>| #[trigger] block_trace(
        &body,
        facts,
        a,
        b,
        pes[j],
        pes[j + 1],
        ss,
        ps,
        es,
    );
    assert forall|t: int| 0 <= t < pes.len() - 1 implies extends(#[trigger] pes[t], pes[t + 1]) by {
        assert(body_walked(bodies[t], facts, pes[t], pes[t + 1]));
        let (a2, b2) = choose|a2: BorrowState, b2: BorrowState| fresh_state(a2) && #[trigger] block_walk(
            &bodies[t],
            facts,
            a2,
            b2,
            pes[t],
            pes[t + 1],
        );
        let (ss2, ps2, es2) = choose|ss2: Seq<BorrowState>, ps2: Seq<BorrowState>, es2: Seq<Seq<BorrowError>>| #[trigger] block_trace(
            &bodies[t],
            facts,
            a2,
            b2,
            pes[t],
            pes[t + 1],
            ss2,
            ps2,
            es2,
        );
        lemma_trace_extends(&bodies[t], facts, a2, b2, pes[t], pes[t + 1], ss2, ps2, es2, 0);
    }
    lemma_extends_chain(pes, j + 1, pes.len() - 1);
    lemma_extends_chain(pes, 0, j);
    assert(pes[0].take(e0.len() as int) == e0);
    lemma_extends_trans(e0, pes[0], pes[j]);
    (a, b, pes[j], pes[j + 1], ss, ps, es)
}

/// The borrow check of a program lets a binding be assigned once the
/// reference to it is no longer used: when a checked function body begins
/// with `let x = <literal>`, then `let r = &x` (or `&mut x`), then a `print`
/// of a plain read of bindings other than `x`, then an assignment to `x` of a
/// value that reads no binding, and the ownership analysis puts the last use
/// of `r` no later than the `print`, checking those four statements reports
/// nothing.
pub proof fn law_program_borrow_ends_at_last_use<F: OwnershipFacts>(
    p: &Program,
    facts: &F,
    e0: Seq<BorrowError>,
    eb: Seq<BorrowError>,
    j: int,
    l0: LetStmt,
    l: LetStmt,
    pr: PrintStmt,
    asg: AssignStmt,
    m: bool,
) -> (r: (Seq<BorrowError>, Seq<BorrowError>))
    requires
        program_walk(p, facts, e0, eb),
        0 <= j < checked_bodies(p).len(),
        checked_bodies(p)[j].statements@.len() >= 4,
        checked_bodies(p)[j].statements@[0] == Statement::Let(l0),
        checked_bodies(p)[j].statements@[1] == Statement::Let(l),
        checked_bodies(p)[j].statements@[2] == Statement::Print(pr),
        checked_bodies(p)[j].statements@[3] == Statement::Assign(asg),
        l0.value is Literal,
        ref_binding_source(&l.value) == Some((l0.name@, m)),
        pr.args@.len() == 1,
        pr.color is None,
        crate::moves::plain_read(&pr.args@[0]),
        forall|k: int| 0 <= k < used_expr(&pr.args@[0]).len() ==> #[trigger] used_expr(&pr.args@[0])[k] != l0.name@,
        spec_binding_name(&asg.target) == Some(l0.name@),
        used_expr(&asg.value).len() == 0,
        expiry_of(facts.spec_last_uses(checked_bodies(p)[j]), last_index(&checked_bodies(p)[j]), l.name@) <= 2,
    ensures
        extends(e0, r.0),
        extends(r.1, eb),
        r.1 == r.0,
{
    let body = checked_bodies(p)[j];
    let (a, b, ea, eb2, ss, ps, es) = lemma_program_body(p, facts, e0, eb, j);
    let st = body.statements@;
    let lu = facts.spec_last_uses(body);
    let last = last_index(&body);
    let x = l0.name@;
    assert(expired_to(ss[0], ps[0], 0) && stmt_step(ps[0], ss[1], es[0], es[1], &st[0], facts, lu, last, 0));
    assert(expired_to(ss[1], ps[1], 1) && stmt_step(ps[1], ss[2], es[1], es[2], &st[1], facts, lu, last, 1));
    let p0 = ps[0];
    assert(p0.active_borrows@ =~= Seq::<crate::borrow::ActiveBorrow>::empty());
    assert(used_expr(&l0.value) =~= Seq::<Seq<char>>::empty());
    assert(conflicted(&p0, Seq::<Seq<char>>::empty()) =~= Seq::<Seq<char>>::empty());
    assert(let_effect(p0, ss[1], &l0, facts, lu, last));
    assert(es[1] == es[0]);
    let s1 = ss[1];
    assert(crate::moves::bviews(s1.active_borrows@) =~= Seq::empty()) by {
        assert(crate::moves::bviews(p0.active_borrows@) =~= Seq::empty());
    }
    assert(s1.active_borrows@.len() == 0) by {
        assert(crate::moves::bviews(s1.active_borrows@).len() == s1.active_borrows@.len());
    }
    let p1 = ps[1];
    assert(p1.active_borrows@ =~= Seq::<crate::borrow::ActiveBorrow>::empty()) by {
        let pred = |y: crate::borrow::ActiveBorrow| y.expires_after >= 1usize;
        assert(p1.active_borrows@ == s1.active_borrows@.filter(pred)) by {
            assert(pred =~= (|y: crate::borrow::ActiveBorrow| y.expires_after >= 1usize));
        }
        s1.active_borrows@.lemma_filter_len(pred);
    }
    assert(p1.moved@ =~= Map::<Seq<char>, crate::borrow::MoveOrigin>::empty());
    lemma_trace_depth(&body, facts, a, b, ea, eb2, ss, ps, es, 1);
    law_borrow_ends_at_last_use_in_walk(&body, facts, a, b, ea, eb2, ss, ps, es, 1, l, pr, asg, x, m);
    lemma_trace_extends(&body, facts, a, b, ea, eb2, ss, ps, es, 0);
    lemma_trace_extends(&body, facts, a, b, ea, eb2, ss, ps, es, 4);
    lemma_extends_trans(e0, ea, es[0]);
    lemma_extends_trans(es[4], eb2, eb);
    (es[0], es[4])
}

/// A `print` of one plain read, with no borrow live and none of its reads
/// moved, reports nothing and changes neither the moves nor the borrows.
proof fn lemma_quiet_print<F: OwnershipFacts>(
    block: &Block,
    facts: &F,
    a: BorrowState,
    b: BorrowState,
    ea: Seq<BorrowError>,
    eb: Seq<BorrowError>,
    ss: Seq<BorrowState>,
    ps: Seq<BorrowState>,
    es: Seq<Seq<BorrowError>>,
    i: int,
    p: PrintStmt,
)
    requires
        block_trace(block, facts, a, b, ea, eb, ss, ps, es),
        0 <= i < block.statements@.len(),
        block.statements@[i] == Statement::Print(p),
        p.args@.len() == 1,
        p.color is None,
        crate::moves::plain_read(&p.args@[0]),
        ss[i].active_borrows@.len() == 0,
        forall|k: int| 0 <= k < used_expr(&p.args@[0]).len() ==> !ss[i].moved@.contains_key(#[trigger] used_expr(&p.args@[0])[k]),
        ss[i].unsafe_depth == 0,
    ensures
        es[i + 1] == es[i],
        ss[i + 1].active_borrows@.len() == 0,
        ss[i + 1].moved == ss[i].moved,
{
    broadcast use vstd::seq_lib::group_filter_ensures;
    let st = block.statements@;
    assert(expired_to(ss[i], ps[i], i as usize) && stmt_step(
        ps[i],
        ss[i + 1],
        es[i],
        es[i + 1],
        &st[i],
        facts,
        facts.spec_last_uses(*block),
        last_index(block),
        i as usize,
    ));
    let pi = ps[i];
    assert(pi.active_borrows@ =~= Seq::<crate::borrow::ActiveBorrow>::empty()) by {
        let pred = |y: crate::borrow::ActiveBorrow| y.expires_after >= (i as usize);
        assert(pi.active_borrows@ == ss[i].active_borrows@.filter(pred)) by {
            assert(pred =~= (|y: crate::borrow::ActiveBorrow| y.expires_after >= (i as usize)));
        }
        ss[i].active_borrows@.lemma_filter_len(pred);
    }
    let reads = used_expr(&p.args@[0]);
    assert forall|k: int| 0 <= k < reads.len() implies !crate::moves::use_conflicts(&pi, #[trigger] reads[k]) by {
        assert(!ss[i].moved@.contains_key(reads[k]));
    }
    lemma_conflicted_none(&pi, reads);
    assert(print_outcome(pi, ss[i + 1], es[i], es[i + 1], &p));
    let (qs, fs) = choose|qs: Seq<BorrowState>, fs: Seq<Seq<BorrowError>>| #[trigger] print_trace(
        pi,
        ss[i + 1],
        es[i],
        es[i + 1],
        &p,
        qs,
        fs,
    );
    assert(expr_stmt_outcome(qs[0], qs[1], fs[0], fs[1], &p.args@[0]));
    assert(crate::moves::bviews(ss[i + 1].active_borrows@).len() == ss[i + 1].active_borrows@.len());
    assert(crate::moves::bviews(pi.active_borrows@).len() == pi.active_borrows@.len());
}

/// The borrow check of a program lets a binding that is not of Move kind be
/// used after it is copied: when a checked function body begins with
/// `let s = <literal>` (no written type) whose type the ownership analysis
/// gives a kind other than Move, then `let d = s`, then `print(d)` and
/// `print(s)`, checking those four statements reports nothing.
pub proof fn law_program_copy_stays_usable<F: OwnershipFacts>(
    p: &Program,
    facts: &F,
    e0: Seq<BorrowError>,
    eb: Seq<BorrowError>,
    j: int,
    l0: LetStmt,
    l1: LetStmt,
    pr1: PrintStmt,
    pr2: PrintStmt,
) -> (r: (Seq<BorrowError>, Seq<BorrowError>))
    requires
        program_walk(p, facts, e0, eb),
        0 <= j < checked_bodies(p).len(),
        checked_bodies(p)[j].statements@.len() >= 4,
        checked_bodies(p)[j].statements@[0] == Statement::Let(l0),
        checked_bodies(p)[j].statements@[1] == Statement::Let(l1),
        checked_bodies(p)[j].statements@[2] == Statement::Print(pr1),
        checked_bodies(p)[j].statements@[3] == Statement::Print(pr2),
        l0.value is Literal,
        l0.ty is None,
        facts.spec_expr_info(l0.value).kind != OwnershipKind::Move,
        l1.value matches Expression::Variable { name, .. } && name@ == l0.name@,
        l1.name@ != l0.name@,
        pr1.args@.len() == 1,
        pr1.args@[0] matches Expression::Variable { name, .. } && name@ == l1.name@,
        pr1.color is None,
        pr2.args@.len() == 1,
        pr2.args@[0] matches Expression::Variable { name, .. } && name@ == l0.name@,
        pr2.color is None,
    ensures
        extends(e0, r.0),
        extends(r.1, eb),
        r.1 == r.0,
{
    broadcast use vstd::seq_lib::group_filter_ensures;
    let body = checked_bodies(p)[j];
    let (a, b, ea, eb2, ss, ps, es) = lemma_program_body(p, facts, e0, eb, j);
    let st = body.statements@;
    let lu = facts.spec_last_uses(body);
    let last = last_index(&body);
    let x = l0.name@;
    assert(expired_to(ss[0], ps[0], 0) && stmt_step(ps[0], ss[1], es[0], es[1], &st[0], facts, lu, last, 0));
    assert(expired_to(ss[1], ps[1], 1) && stmt_step(ps[1], ss[2], es[1], es[2], &st[1], facts, lu, last, 1));
    let p0 = ps[0];
    assert(p0.active_borrows@ =~= Seq::<crate::borrow::ActiveBorrow>::empty());
    assert(used_expr(&l0.value) =~= Seq::<Seq<char>>::empty());
    assert(conflicted(&p0, Seq::<Seq<char>>::empty()) =~= Seq::<Seq<char>>::empty());
    assert(let_effect(p0, ss[1], &l0, facts, lu, last));
    assert(es[1] == es[0]);
    let s1 = ss[1];
    assert(crate::moves::bviews(s1.active_borrows@) =~= Seq::empty()) by {
        assert(crate::moves::bviews(p0.active_borrows@) =~= Seq::empty());
    }
    assert(s1.active_borrows@.len() == 0) by {
        assert(crate::moves::bviews(s1.active_borrows@).len() == s1.active_borrows@.len());
    }
    assert(s1.moved@.dom() =~= Set::<Seq<char>>::empty());
    assert(s1.var_types@[x] == facts.spec_expr_info(l0.value));
    let p1 = ps[1];
    assert(p1.active_borrows@ =~= Seq::<crate::borrow::ActiveBorrow>::empty()) by {
        let pred = |y: crate::borrow::ActiveBorrow| y.expires_after >= 1usize;
        assert(p1.active_borrows@ == s1.active_borrows@.filter(pred)) by {
            assert(pred =~= (|y: crate::borrow::ActiveBorrow| y.expires_after >= 1usize));
        }
        s1.active_borrows@.lemma_filter_len(pred);
    }
    lemma_trace_depth(&body, facts, a, b, ea, eb2, ss, ps, es, 1);
    assert(used_expr(&l1.value) == seq![x]);
    assert(conflicted(&p1, seq![x]) =~= Seq::<Seq<char>>::empty()) by {
        reveal_with_fuel(conflicted, 2);
        assert(seq![x].drop_last() =~= Seq::<Seq<char>>::empty());
        assert(seq![x].last() == x);
        assert(!p1.moved@.contains_key(x));
    }
    assert(let_effect(p1, ss[2], &l1, facts, lu, last));
    assert(es[2] == es[1]);
    let s2 = ss[2];
    assert(s2.kind_of_var(x) == p1.kind_of_var(x));
    assert(s2.moved@.dom() =~= Set::<Seq<char>>::empty());
    assert(s2.active_borrows@.len() == 0) by {
        assert(crate::moves::bviews(s2.active_borrows@).len() == s2.active_borrows@.len());
        assert(crate::moves::bviews(p1.active_borrows@) =~= Seq::empty());
    }
    lemma_trace_depth(&body, facts, a, b, ea, eb2, ss, ps, es, 2);
    assert(used_expr(&pr1.args@[0]) == seq![l1.name@]);
    lemma_quiet_print(&body, facts, a, b, ea, eb2, ss, ps, es, 2, pr1);
    lemma_trace_depth(&body, facts, a, b, ea, eb2, ss, ps, es, 3);
    assert(used_expr(&pr2.args@[0]) == seq![x]);
    lemma_quiet_print(&body, facts, a, b, ea, eb2, ss, ps, es, 3, pr2);
    lemma_trace_extends(&body, facts, a, b, ea, eb2, ss, ps, es, 0);
    lemma_trace_extends(&body, facts, a, b, ea, eb2, ss, ps, es, 4);
    lemma_extends_trans(e0, ea, es[0]);
    lemma_extends_trans(es[4], eb2, eb);
    (es[0], es[4])
}

/// Statement `stmt` lies at the queried line, in a file the query names.
pub open spec fn at_query(stmt: &Statement, q: InspectQuery) -> bool {
    &&& stmt_line(stmt) == q.line
    &&& spec_file_names_match(stmt_file(stmt), q.file@, path_file_name(stmt_file(stmt)), path_file_name(q.file@))
}

/// Some statement the walk looks at after checking it, among `s` (checked
/// inside `unsafe` when `u`) and the blocks they nest, lies at the query.
pub open spec fn stmts_visit(s: Seq<Statement>, u: bool, q: InspectQuery) -> bool
    decreases s,
{
    if s.len() == 0 {
        false
    } else {
        ||| stmts_visit(s.subrange(0, s.len() - 1), u, q)
        ||| at_query(&s[s.len() - 1], q)
        ||| (!u && nested_visit(s[s.len() - 1], q))
    }
}

/// Some statement of the blocks `stmt` nests lies at the query (outside
/// `unsafe`: branches, loop bodies, `spawn` and `benchmark` blocks; an
/// `unsafe` block's own statements).
pub open spec fn nested_visit(stmt: Statement, q: InspectQuery) -> bool
    decreases stmt,
{
    match stmt {
        Statement::If(i) => stmts_visit(i.then_block.statements@, false, q) || match i.else_block {
            Some(e) => stmts_visit(e.statements@, false, q),
            None => false,
        },
        Statement::While(w) => stmts_visit(w.body.statements@, false, q),
        Statement::For(f) => stmts_visit(f.body.statements@, false, q),
        Statement::Spawn(b) => stmts_visit(b.statements@, false, q),
        Statement::Benchmark(b) => stmts_visit(b.statements@, false, q),
        Statement::Unsafe(b) => stmts_visit(b.statements@, true, q),
        _ => false,
    }
}

/// The collector is there, in verbose mode.
pub open spec fn is_verbose(c: Option<InspectCollector>) -> bool {
    c matches Some(x) && x.verbose
}

/// The entries of `b` (a collector that is there) end, after those of `a`,
/// with one entry per binding declared in `st`, for the function of `a`.
pub open spec fn exit_recorded(a: Option<InspectCollector>, b: Option<InspectCollector>, st: BorrowState) -> bool {
    let x = a->0;
    let y = b->0;
    exists|k: int| x.verbose_entries@.len() <= k <= y.verbose_entries@.len() && #[trigger] crate::inspect::exit_entries_ok(
        x.current_func@,
        &st,
        y.verbose_entries@.skip(k),
    )
}

/// The collector is there and has a query.
pub open spec fn has_query(c: Option<InspectCollector>) -> bool {
    c matches Some(x) && x.query is Some
}

/// The query of a collector that has one.
pub open spec fn query_of(c: Option<InspectCollector>) -> InspectQuery {
    c->0.query->0
}

/// `k` is the last statement of `s` that query `q` reaches: at the queried
/// line itself, or (outside `unsafe`, `!u`) through a nested block.
pub open spec fn last_touch(s: Seq<Statement>, u: bool, q: InspectQuery, k: int) -> bool {
    &&& 0 <= k < s.len()
    &&& (at_query(&s[k], q) || (!u && nested_visit(s[k], q)))
    &&& forall|m: int| k < m < s.len() ==> !at_query(&#[trigger] s[m], q) && !(!u && nested_visit(s[m], q))
}

/// Report `rep` answers query `q`, asked in function `func`, from statement
/// `k` of `block`: that statement is at the queried line and file, and the
/// report is built from the state `ss[k + 1]` right after it.
pub open spec fn answered_at(
    rep: BindingInspectReport,
    q: InspectQuery,
    func: Seq<char>,
    block: &Block,
    ss: Seq<BorrowState>,
    k: int,
) -> bool {
    &&& 0 <= k < block.statements@.len()
    &&& at_query(&block.statements@[k], q)
    &&& exists|bl: crate::inspect::BlockLines| #[trigger] crate::inspect::lines_of_block(bl, block)
        && crate::inspect::report_matches(
        &rep,
        q.name@,
        func,
        stmt_file(&block.statements@[k]),
        stmt_line(&block.statements@[k]),
        &ss[k + 1],
        &bl,
    )
}

/// A walk of `block` from `a`/`ea` to `b`/`eb` in which report `rep` answers
/// `q` from statement `k` (see `answered_at`).
pub open spec fn block_answered<F: OwnershipFacts>(
    block: &Block,
    facts: &F,
    a: BorrowState,
    b: BorrowState,
    ea: Seq<BorrowError>,
    eb: Seq<BorrowError>,
    q: InspectQuery,
    func: Seq<char>,
    rep: BindingInspectReport,
    k: int,
) -> bool {
    exists|ss: Seq<BorrowState>, ps: Seq<BorrowState>, es: Seq<Seq<BorrowError>>| #[trigger] block_trace(
        block,
        facts,
        a,
        b,
        ea,
        eb,
        ss,
        ps,
        es,
    ) && answered_at(rep, q, func, block, ss, k)
}

/// The walk is inside `unsafe`.
pub open spec fn in_unsafe(st: BorrowState) -> bool {
    st.unsafe_depth > 0
}

/// The collector's answer is the same in `a` and `b`.
pub open spec fn same_answer(a: Option<InspectCollector>, b: Option<InspectCollector>) -> bool {
    b->0.query_result == a->0.query_result
}

/// The collector holds an answer.
pub open spec fn found(c: Option<InspectCollector>) -> bool {
    c matches Some(x) && x.query_result is Some
}

/// Checks a block: before each statement the borrows that ended expire, then
/// the statement is checked and the inspection (if any) looks at the state;
/// at the end the borrows live before the block are restored.
pub fn check_block<F: OwnershipFacts>(
    block: &Block,
    state: &mut BorrowState,
    facts: &F,
    collector: &mut Option<InspectCollector>,
    errors: &mut Vec<BorrowError>,
)
    requires
        old(state).wf(),
        old(state).unsafe_depth + unsafe_nesting_block(block) <= u32::MAX,
    ensures
        keeps(*old(state), *final(state), old(errors)@, final(errors)@),
        final(state).active_borrows@ == old(state).active_borrows@,
        old(state).unsafe_depth > 0 ==> final(errors)@ == old(errors)@ && final(state).moved == old(state).moved,
        collector_step(*old(collector), *final(collector)),
        block_walk(block, facts, *old(state), *final(state), old(errors)@, final(errors)@),
        has_query(*old(collector)) ==> (found(*final(collector)) == (found(*old(collector)) || stmts_visit(
            block.statements@,
            old(state).unsafe_depth > 0,
            query_of(*old(collector)),
        ))),
        is_verbose(*old(collector)) ==> exit_recorded(*old(collector), *final(collector), *final(state)),
        has_query(*old(collector)) && !stmts_visit(block.statements@, old(state).unsafe_depth > 0, query_of(*old(collector)))
            ==> same_answer(*old(collector), *final(collector)),
        has_query(*old(collector)) ==> forall|k: int|
            #[trigger] last_touch(block.statements@, in_unsafe(*old(state)), query_of(*old(collector)), k) && at_query(
                &block.statements@[k],
                query_of(*old(collector)),
            ) ==> block_answered(
                block,
                facts,
                *old(state),
                *final(state),
                old(errors)@,
                final(errors)@,
                query_of(*old(collector)),
                old(collector)->0.current_func@,
                final(collector)->0.query_result->0,
                k,
            ),
    decreases block,
{
    let ghost s0 = *state;
    let ghost e0 = errors@;
    let ghost c0 = *collector;
    let ghost mut ss: Seq<BorrowState> = seq![s0];
    let ghost mut ps: Seq<BorrowState> = seq![];
    let ghost mut es: Seq<Seq<BorrowError>> = seq![e0];
    proof {
        lemma_keeps_refl(s0, e0);
        lemma_collector_step_refl(c0);
    }
    let saved = dup_borrows(&state.active_borrows);
    let lu = normalized(&facts.last_uses(block));
    let n = block.statements.len();
    let block_len: usize = if n == 0 {
        0
    } else {
        n - 1
    };
    let mut idx: usize = 0;
    while idx < n
        invariant
            n == block.statements@.len(),
            idx <= n,
            lu.wf(),
            lu@ == facts.spec_last_uses(*block),
            block_len == last_index(block),
            saved@ == s0.active_borrows@,
            s0.unsafe_depth + unsafe_nesting_block(block) <= u32::MAX,
            keeps(s0, *state, e0, errors@),
            s0.unsafe_depth > 0 ==> errors@ == e0 && state.moved == s0.moved,
            collector_step(c0, *collector),
            ss.len() == idx + 1,
            ps.len() == idx,
            es.len() == idx + 1,
            ss[0] == s0,
            es[0] == e0,
            ss[idx as int] == *state,
            es[idx as int] == errors@,
            has_query(c0) ==> (found(*collector) == (found(c0) || stmts_visit(
                block.statements@.take(idx as int),
                s0.unsafe_depth > 0,
                query_of(c0),
            ))),
            has_query(c0) && !stmts_visit(block.statements@.take(idx as int), s0.unsafe_depth > 0, query_of(c0))
                ==> same_answer(c0, *collector),
            has_query(c0) ==> forall|k: int|
                #[trigger] last_touch(block.statements@.take(idx as int), in_unsafe(s0), query_of(c0), k) && at_query(
                    &block.statements@[k],
                    query_of(c0),
                ) ==> answered_at(collector->0.query_result->0, query_of(c0), c0->0.current_func@, block, ss, k),
            forall|i: int| 0 <= i < idx ==> expired_to(ss[i], #[trigger] ps[i], i as usize) && stmt_step(
                ps[i],
                ss[i + 1],
                es[i],
                es[i + 1],
                &block.statements@[i],
            facts, facts.spec_last_uses(*block), last_index(block), i as usize),
        decreases n - idx,
    {
        let ghost sa = *state;
        let ghost ea = errors@;
        state.expire_borrows_before(idx);
        proof {
            ps = ps.push(*state);
        }
        proof {
            lemma_nesting_elem(block.statements@, idx as int);
            assert(ea.take(ea.len() as int) =~= ea);
            assert(keeps(sa, *state, ea, ea));
            lemma_keeps_trans(s0, sa, *state, e0, ea, ea);
        }
        let ghost sb = *state;
        let ghost ca = *collector;
        check_statement(&block.statements[idx], idx, &lu, block_len, state, facts, collector, errors);
        proof {
            lemma_keeps_trans(s0, sb, *state, e0, ea, errors@);
            lemma_collector_step_trans(c0, ca, *collector);
            ss = ss.push(*state);
            es = es.push(errors@);
            assert(ss[idx as int] == sa);
            assert(es[idx as int] == ea);
            assert(ps[idx as int] == sb);
            assert(expired_to(sa, sb, idx));
            assert(stmt_step(sb, *state, ea, errors@, &block.statements@[idx as int], facts, facts.spec_last_uses(*block), last_index(block), idx));
        }
        let ghost cb = *collector;
        match collector {
            Some(c) => c.on_after_stmt(&block.statements[idx], block, state),
            None => {},
        }
        proof {
            let t = block.statements@.take(idx + 1);
            assert(t.subrange(0, idx as int) =~= block.statements@.take(idx as int));
            assert(t[idx as int] == block.statements@[idx as int]);
            if has_query(c0) {
                let q = query_of(c0);
                let u = in_unsafe(s0);
                let prev = block.statements@.take(idx as int);
                let st_i = block.statements@[idx as int];
                assert(collector->0.current_func == c0->0.current_func);
                assert forall|k: int| #[trigger] last_touch(t, u, q, k) && at_query(&block.statements@[k], q) implies answered_at(
                    collector->0.query_result->0,
                    q,
                    c0->0.current_func@,
                    block,
                    ss,
                    k,
                ) by {
                    if at_query(&st_i, q) || (!u && nested_visit(st_i, q)) {
                        if k < idx {
                            assert(t[idx as int] == st_i);
                        }
                        assert(k == idx);
                        let x = cb->0;
                        let y = collector->0;
                        let rep = y.query_result->0;
                        assert(state.wf());
                        assert(ss[idx + 1] == *state);
                    } else {
                        assert(same_answer(ca, cb));
                        assert(collector->0.query_result == cb->0.query_result);
                        assert(last_touch(prev, u, q, k)) by {
                            assert forall|m: int| k < m < prev.len() implies !at_query(&#[trigger] prev[m], q) && !(!u
                                && nested_visit(prev[m], q)) by {
                                assert(prev[m] == t[m]);
                            }
                            assert(prev[k] == t[k]);
                        }
                    }
                }
            }
        }
        proof {
            if let Some(x) = cb {
                let y = collector->0;
                assert(y.verbose_entries@.take(x.verbose_entries@.len() as int) =~= x.verbose_entries@);
                if y.query_result != x.query_result {
                    let q = x.query->0;
                    let rep = y.query_result->0;
                    let bl = choose|bl: crate::inspect::BlockLines| crate::inspect::lines_of_block(bl, block)
                        && crate::inspect::report_matches(
                        &rep,
                        q.name@,
                        x.current_func@,
                        crate::inspect::stmt_file(&block.statements@[idx as int]),
                        crate::inspect::stmt_line(&block.statements@[idx as int]),
                        state,
                        &bl,
                    );
                    assert(report_answers(rep, q));
                }
            }
            assert(collector_step(cb, *collector));
            lemma_collector_step_trans(c0, cb, *collector);
        }
        idx = idx + 1;
    }
    assert(block.statements@.take(n as int) =~= block.statements@);
    let ghost cc = *collector;
    let ghost sn_exit = *state;
    match collector {
        Some(c) => c.on_block_exit(state),
        None => {},
    }
    proof {
        if let Some(x) = cc {
            let y = collector->0;
            if x.verbose {
                let k = x.verbose_entries@.len() as int;
                assert(crate::inspect::exit_entries_ok(x.current_func@, &sn_exit, y.verbose_entries@.skip(k)));
            }
            if !x.verbose {
                assert(y.verbose_entries@.take(x.verbose_entries@.len() as int) =~= x.verbose_entries@);
            } else {
                let n = x.verbose_entries@.len() as int;
                assert forall|k: int| n <= k < y.verbose_entries@.len() implies (#[trigger] y.verbose_entries@[k]).func@
                    == x.current_func@ by {
                    assert(y.verbose_entries@.skip(n)[k - n] == y.verbose_entries@[k]);
                }
            }
        }
        assert(collector_step(cc, *collector));
        lemma_collector_step_trans(c0, cc, *collector);
    }
    let ghost sn = *state;
    state.active_borrows = saved;
    state.rebuild_borrow_sets();
    assert(block_trace(block, facts, s0, *state, e0, errors@, ss, ps, es));
    proof {
        if is_verbose(c0) {
            let x0 = c0->0;
            let x1 = cc->0;
            let y = collector->0;
            let k = x1.verbose_entries@.len() as int;
            assert(crate::inspect::exit_entries_ok(x1.current_func@, &sn, y.verbose_entries@.skip(k)));
            assert(crate::inspect::exit_entries_ok(x0.current_func@, &*state, y.verbose_entries@.skip(k)));
        }
    }
}

/// Checks one statement at index `stmt_idx` of a block whose last index is
/// `block_len`, with `last_uses` the last use of each binding in that block.
/// Inside `unsafe` only declarations are recorded; outside, see
/// [`stmt_effect`].
pub fn check_statement<F: OwnershipFacts>(
    stmt: &Statement,
    stmt_idx: usize,
    last_uses: &NameMap<usize>,
    block_len: usize,
    state: &mut BorrowState,
    facts: &F,
    collector: &mut Option<InspectCollector>,
    errors: &mut Vec<BorrowError>,
)
    requires
        old(state).wf(),
        last_uses.wf(),
        stmt_idx < usize::MAX,
        old(state).unsafe_depth + unsafe_nesting_stmt(stmt) <= u32::MAX,
    ensures
        keeps(*old(state), *final(state), old(errors)@, final(errors)@),
        old(state).unsafe_depth > 0 ==> final(errors)@ == old(errors)@ && only_declarations_changed(
            *old(state),
            *final(state),
        ),
        old(state).unsafe_depth == 0 ==> stmt_effect(*old(state), *final(state), old(errors)@, final(errors)@, stmt, facts, last_uses@, block_len, stmt_idx),
        old(state).unsafe_depth == 0 ==> (stmt matches Statement::If(i) ==> if_walk(
            *old(state),
            *final(state),
            old(errors)@,
            final(errors)@,
            i,
            facts,
            stmt_idx,
        )),
        old(state).unsafe_depth == 0 ==> (stmt matches Statement::While(w) ==> while_walk(
            *old(state),
            *final(state),
            old(errors)@,
            final(errors)@,
            w,
            facts,
            stmt_idx,
        )),
        old(state).unsafe_depth == 0 ==> (stmt matches Statement::For(f) ==> for_walk(
            *old(state),
            *final(state),
            old(errors)@,
            final(errors)@,
            &f,
            facts,
            stmt_idx,
        )),
        old(state).unsafe_depth == 0 ==> (stmt matches Statement::Spawn(body) ==> spawn_walk(
            *old(state),
            *final(state),
            old(errors)@,
            final(errors)@,
            &body,
            facts,
        )),
        old(state).unsafe_depth == 0 ==> (stmt matches Statement::Benchmark(body) ==> block_walk(
            &body,
            facts,
            *old(state),
            *final(state),
            old(errors)@,
            final(errors)@,
        )),
        old(state).unsafe_depth == 0 ==> (stmt matches Statement::Unsafe(body) ==> unsafe_walk(
            *old(state),
            *final(state),
            old(errors)@,
            final(errors)@,
            &body,
            facts,
        )),
        collector_step(*old(collector), *final(collector)),
        has_query(*old(collector)) ==> (found(*final(collector)) == (found(*old(collector)) || (old(state).unsafe_depth
            == 0 && nested_visit(*stmt, query_of(*old(collector)))))),
        has_query(*old(collector)) && !(old(state).unsafe_depth == 0 && nested_visit(*stmt, query_of(*old(collector))))
            ==> same_answer(*old(collector), *final(collector)),
    decreases stmt,
{
    let ghost s0 = *state;
    let ghost e0 = errors@;
    proof {
        lemma_keeps_refl(s0, e0);
        lemma_collector_step_refl(*collector);
    }
    if state.in_unsafe() {
        check_statement_unsafe(stmt, state, facts);
        return;
    }
    match stmt {
        Statement::Let(l) => check_let(l, stmt_idx, last_uses, block_len, state, facts, errors),
        Statement::Const(l) => check_let(l, stmt_idx, last_uses, block_len, state, facts, errors),
        Statement::Assign(a) => check_assign(a, state, errors),
        Statement::Return(r) => check_return(r, stmt_idx, state, errors),
        Statement::If(i) => check_if(i, stmt_idx, state, facts, collector, errors),
        Statement::While(w) => check_while(w, stmt_idx, state, facts, collector, errors),
        Statement::For(f) => check_for(f, stmt_idx, state, facts, collector, errors),
        Statement::Print(p) => check_print(p, stmt_idx, state, facts, errors),
        Statement::Expression(e) => check_expr_statement(e, stmt_idx, state, facts, errors),
        Statement::Defer(e) => check_expr_statement(e, stmt_idx, state, facts, errors),
        Statement::Spawn(b) => {
            spawn_prelude(b, state, facts, errors);
            let ghost s1 = *state;
            let ghost e1 = errors@;
            check_block(b, state, facts, collector, errors);
            let ghost s2 = *state;
            state.clear_borrows();
            proof {
                assert(block_walk(b, facts, s1, s2, e1, errors@));
                lemma_keeps_trans(s0, s1, s2, e0, e1, errors@);
                assert(errors@.take(errors@.len() as int) =~= errors@);
                lemma_keeps_trans(s0, s2, *state, e0, errors@, errors@);
            }
        },
        Statement::Benchmark(b) => check_block(b, state, facts, collector, errors),
        Statement::Unsafe(b) => {
            state.unsafe_depth = state.unsafe_depth + 1;
            let ghost s1 = *state;
            check_block(b, state, facts, collector, errors);
            let ghost s2 = *state;
            state.unsafe_depth = state.unsafe_depth - 1;
            proof {
                assert(s1.wf());
                assert(block_walk(b, facts, s1, s2, e0, errors@));
            }
        },
        _ => {},
    }
}

/// Checks `if`: the condition's reads and borrows (which end before the
/// branches), each branch on its own copy of the state; a binding moved on
/// both branches is moved after the `if`; no borrow outlives it.
fn check_if<F: OwnershipFacts>(
    i: &IfStmt,
    stmt_idx: usize,
    state: &mut BorrowState,
    facts: &F,
    collector: &mut Option<InspectCollector>,
    errors: &mut Vec<BorrowError>,
)
    requires
        old(state).wf(),
        stmt_idx < usize::MAX,
        old(state).unsafe_depth + unsafe_nesting_block(&i.then_block) <= u32::MAX,
        i.else_block matches Some(eb) ==> old(state).unsafe_depth + unsafe_nesting_block(&eb) <= u32::MAX,
    ensures
        keeps(*old(state), *final(state), old(errors)@, final(errors)@),
        final(state).active_borrows@.len() == 0,
        collector_step(*old(collector), *final(collector)),
        has_query(*old(collector)) ==> (found(*final(collector)) == (found(*old(collector)) || stmts_visit(i.then_block.statements@, old(state).unsafe_depth > 0, query_of(*old(collector))) || match i.else_block {
            Some(e) => stmts_visit(e.statements@, old(state).unsafe_depth > 0, query_of(*old(collector))),
            None => false,
        })),
        if_walk(*old(state), *final(state), old(errors)@, final(errors)@, i, facts, stmt_idx),
        has_query(*old(collector)) && !stmts_visit(i.then_block.statements@, old(state).unsafe_depth > 0, query_of(*old(collector)))
            && !(match i.else_block {
            Some(e) => stmts_visit(e.statements@, old(state).unsafe_depth > 0, query_of(*old(collector))),
            None => false,
        }) ==> same_answer(*old(collector), *final(collector)),
    decreases i,
{
    let ghost s0 = *state;
    let ghost e0 = errors@;
    let _ = uses_moved(&i.condition, state, errors);
    let ghost em = errors@;
    register_borrows_from_expr(&i.condition, stmt_idx, state, errors);
    state.clear_borrows();
    let ghost s1 = *state;
    let ghost e1 = errors@;
    assert(cond_read(s0, s1, e0, em, e1, &i.condition, stmt_idx));
    proof {
        assert(e1.take(e0.len() as int) =~= em.take(e0.len() as int));
    }
    assert(keeps(s0, s1, e0, e1));
    let mut then_s = state.fork();
    let ghost t0 = then_s;
    let ghost c0 = *collector;
    check_block(&i.then_block, &mut then_s, facts, collector, errors);
    let ghost et = errors@;
    let ghost c1 = *collector;
    proof {
        lemma_collector_step_refl(c1);
    }
    let ghost mut f0 = *state;
    let ghost mut f = *state;
    match &i.else_block {
        Some(e) => {
            let mut else_s = state.fork();
            proof {
                f0 = else_s;
            }
            check_block(e, &mut else_s, facts, collector, errors);
            proof {
                f = else_s;
            }
            state.merge_branches(&then_s, &else_s);
        },
        None => {
            let other = state.fork();
            proof {
                f0 = other;
                f = other;
            }
            state.merge_branches(&then_s, &other);
        },
    }
    state.clear_borrows();
    assert(if_parts(s0, *state, e0, errors@, i, facts, stmt_idx, em, s1, e1, t0, then_s, et, f0, f));
    proof {
        assert(errors@.take(e1.len() as int) == e1);
        assert(errors@.take(e0.len() as int) =~= e1.take(e0.len() as int));
        lemma_collector_step_trans(c0, c1, *collector);
    }
}

/// Checks `while`: the condition's reads and borrows, then the body on a copy
/// of the state (moves in the body do not carry past the loop); no borrow
/// outlives the loop.
fn check_while<F: OwnershipFacts>(
    w: &WhileStmt,
    stmt_idx: usize,
    state: &mut BorrowState,
    facts: &F,
    collector: &mut Option<InspectCollector>,
    errors: &mut Vec<BorrowError>,
)
    requires
        old(state).wf(),
        stmt_idx < usize::MAX,
        old(state).unsafe_depth + unsafe_nesting_block(&w.body) <= u32::MAX,
    ensures
        keeps(*old(state), *final(state), old(errors)@, final(errors)@),
        final(state).active_borrows@.len() == 0,
        final(state).moved == old(state).moved,
        final(state).var_types == old(state).var_types,
        collector_step(*old(collector), *final(collector)),
        has_query(*old(collector)) ==> (found(*final(collector)) == (found(*old(collector)) || stmts_visit(w.body.statements@, old(state).unsafe_depth > 0, query_of(*old(collector))))),
        while_walk(*old(state), *final(state), old(errors)@, final(errors)@, w, facts, stmt_idx),
        has_query(*old(collector)) && !stmts_visit(w.body.statements@, old(state).unsafe_depth > 0, query_of(*old(collector)))
            ==> same_answer(*old(collector), *final(collector)),
    decreases w,
{
    let ghost s0 = *state;
    let ghost e0 = errors@;
    let _ = uses_moved(&w.condition, state, errors);
    let ghost em = errors@;
    register_borrows_from_expr(&w.condition, stmt_idx, state, errors);
    state.clear_borrows();
    let ghost s1 = *state;
    let ghost e1 = errors@;
    assert(cond_read(s0, s1, e0, em, e1, &w.condition, stmt_idx));
    proof {
        assert(e1.take(e0.len() as int) =~= em.take(e0.len() as int));
    }
    let mut loop_s = state.fork();
    let ghost t0 = loop_s;
    check_block(&w.body, &mut loop_s, facts, collector, errors);
    state.clear_borrows();
    assert(while_parts(s0, *state, e0, errors@, w, facts, stmt_idx, em, s1, e1, t0, loop_s));
    proof {
        assert(errors@.take(e1.len() as int) == e1);
        assert(errors@.take(e0.len() as int) =~= e1.take(e0.len() as int));
    }
}

/// Checks `for`: the header expressions' reads and borrows; for `parallel
/// for`, an error when borrows are live and the capture problems the
/// ownership analysis finds; then the body on a copy of the state.
fn check_for<F: OwnershipFacts>(
    f: &ForStmt,
    stmt_idx: usize,
    state: &mut BorrowState,
    facts: &F,
    collector: &mut Option<InspectCollector>,
    errors: &mut Vec<BorrowError>,
)
    requires
        old(state).wf(),
        stmt_idx < usize::MAX,
        old(state).unsafe_depth + unsafe_nesting_block(&f.body) <= u32::MAX,
    ensures
        keeps(*old(state), *final(state), old(errors)@, final(errors)@),
        final(state).active_borrows@.len() == 0,
        final(state).moved == old(state).moved,
        final(state).var_types == old(state).var_types,
        collector_step(*old(collector), *final(collector)),
        has_query(*old(collector)) ==> (found(*final(collector)) == (found(*old(collector)) || stmts_visit(f.body.statements@, old(state).unsafe_depth > 0, query_of(*old(collector))))),
        for_walk(*old(state), *final(state), old(errors)@, final(errors)@, f, facts, stmt_idx),
        has_query(*old(collector)) && !stmts_visit(f.body.statements@, old(state).unsafe_depth > 0, query_of(*old(collector)))
            ==> same_answer(*old(collector), *final(collector)),
    decreases f,
{
    let ghost s0 = *state;
    let ghost e0 = errors@;
    proof {
        lemma_keeps_refl(s0, e0);
    }
    let exprs = f.for_each_expr();
    let ghost h = crate::ast::for_header_exprs(f);
    let ghost mut hs: Seq<BorrowState> = seq![s0];
    let ghost mut he: Seq<Seq<BorrowError>> = seq![e0];
    let ghost mut ms: Seq<Seq<BorrowError>> = seq![];
    let mut k: usize = 0;
    while k < exprs.len()
        invariant
            k <= exprs@.len(),
            exprs@.len() == h.len(),
            forall|j: int| 0 <= j < exprs@.len() ==> *(#[trigger] exprs@[j]) == h[j],
            h == crate::ast::for_header_exprs(f),
            stmt_idx < usize::MAX,
            keeps(s0, *state, e0, errors@),
            state.moved == s0.moved,
            state.var_types == s0.var_types,
            hs.len() == k + 1,
            he.len() == k + 1,
            ms.len() == k,
            hs[0] == s0,
            he[0] == e0,
            hs[k as int] == *state,
            he[k as int] == errors@,
            forall|j: int| 0 <= j < k ==> #[trigger] header_read(hs[j], hs[j + 1], he[j], he[j + 1], h[j], stmt_idx, ms[j]),
        decreases exprs@.len() - k,
    {
        let ghost sa = *state;
        let ghost ea = errors@;
        let _ = uses_moved(exprs[k], state, errors);
        let ghost em = errors@;
        register_borrows_from_expr(exprs[k], stmt_idx, state, errors);
        proof {
            assert(errors@.take(ea.len() as int) == ea);
            assert(errors@.take(e0.len() as int) =~= ea.take(e0.len() as int));
            assert(header_read(sa, *state, ea, errors@, h[k as int], stmt_idx, em));
            let hs0 = hs;
            let he0 = he;
            let ms0 = ms;
            hs = hs.push(*state);
            he = he.push(errors@);
            ms = ms.push(em);
            assert forall|j: int| 0 <= j < k + 1 implies #[trigger] header_read(hs[j], hs[j + 1], he[j], he[j + 1], h[j], stmt_idx, ms[j]) by {
                if j < k {
                    assert(hs[j] == hs0[j] && hs[j + 1] == hs0[j + 1] && he[j] == he0[j] && he[j + 1] == he0[j + 1] && ms[j] == ms0[j]);
                }
            }
        }
        k = k + 1;
    }
    let ghost c = *state;
    let ghost ec = errors@;
    if f.parallel.is_some() {
        let ghost ea = errors@;
        if any_borrow_live(state) {
            errors.push(BorrowError::BorrowsActiveAt { site: BorrowSite::ParallelFor });
        }
        let ghost eb = errors@;
        proof {
            assert(eb.take(ea.len() as int) =~= ea);
        }
        let problems = facts.parallel_capture_problems(&f.body, &state.var_types);
        let ghost pv = problems@;
        report_problems(problems, errors);
        proof {
            assert(errors@.take(ea.len() as int) =~= eb.take(ea.len() as int));
            assert(errors@.take(e0.len() as int) =~= ea.take(e0.len() as int));
            assert forall|t: int| 0 <= t < pv.len() implies (#[trigger] errors@[eb.len() + t] matches BorrowError::OwnershipProblem {
                message,
            } && message@ == facts.spec_parallel_capture_problems(f.body, c.var_types@)[t]) by {
                assert(errors@[eb.len() + t] == (BorrowError::OwnershipProblem { message: pv[t] }));
                assert(texts(pv)[t] == pv[t]@);
            }
            if c.active_borrows@.len() > 0 {
                assert(eb =~= ec.push(BorrowError::BorrowsActiveAt { site: BorrowSite::ParallelFor }));
            } else {
                assert(eb =~= ec);
            }
        }
    }
    assert(errors@.take(e0.len() as int) == e0);
    let ghost e1 = errors@;
    assert(e1.take(e0.len() as int) == e0);
    let mut loop_s = state.fork();
    let ghost t0 = loop_s;
    check_block(&f.body, &mut loop_s, facts, collector, errors);
    state.clear_borrows();
    proof {
        assert(errors@.take(e1.len() as int) == e1);
        assert(errors@.take(e0.len() as int) =~= e1.take(e0.len() as int));
    }
    assert(for_parts(s0, *state, e0, errors@, f, facts, stmt_idx, hs, he, ms, e1, t0, loop_s));
}

/// No function body or method body nests `unsafe` blocks more than a `u32`
/// counts.
pub open spec fn program_nesting_ok(p: &Program) -> bool {
    &&& forall|i: int| 0 <= i < p.functions@.len() ==> unsafe_nesting_block(&(#[trigger] p.functions@[i]).body) <= u32::MAX
    &&& forall|i: int, j: int| 0 <= i < p.impls@.len() && 0 <= j < p.impls@[i].methods@.len()
        ==> unsafe_nesting_block(&(#[trigger] p.impls@[i].methods@[j]).body) <= u32::MAX
}

/// A fresh state for one body: nothing declared, moved or borrowed, outside
/// `unsafe`.
pub open spec fn fresh_state(st: BorrowState) -> bool {
    &&& st.wf()
    &&& st.moved@ == Map::<Seq<char>, crate::borrow::MoveOrigin>::empty()
    &&& st.move_from@ == Map::<Seq<char>, String>::empty()
    &&& st.move_to@ == Map::<Seq<char>, String>::empty()
    &&& st.ref_sources@ == Map::<Seq<char>, String>::empty()
    &&& st.var_types@ == Map::<Seq<char>, VarInfo>::empty()
    &&& st.active_borrows@.len() == 0
    &&& st.mutable@ == Set::<Seq<char>>::empty()
    &&& st.manually_freed@ == Set::<Seq<char>>::empty()
    &&& st.unsafe_depth == 0
}

/// The bodies of the non-generic functions, in order.
pub open spec fn fn_bodies(fs: Seq<Function>) -> Seq<Block>
    decreases fs.len(),
{
    if fs.len() == 0 {
        seq![]
    } else {
        fn_bodies(fs.drop_last()) + if fs.last().type_params@.len() == 0 {
            seq![fs.last().body]
        } else {
            seq![]
        }
    }
}

/// The bodies of the methods of a list of methods, in order.
pub open spec fn bodies_of(ms: Seq<Function>) -> Seq<Block> {
    ms.map_values(|m: Function| m.body)
}

/// The bodies of the methods of the `impl` blocks, in order.
pub open spec fn method_bodies(impls: Seq<ImplDef>) -> Seq<Block>
    decreases impls.len(),
{
    if impls.len() == 0 {
        seq![]
    } else {
        method_bodies(impls.drop_last()) + bodies_of(impls.last().methods@)
    }
}

/// The bodies the borrow check walks: the non-generic functions', then the
/// methods'.
pub open spec fn checked_bodies(p: &Program) -> Seq<Block> {
    fn_bodies(p.functions@) + method_bodies(p.impls@)
}

/// Checking `body` from a fresh state turns errors `ea` into `eb`.
pub open spec fn body_walked<F: OwnershipFacts>(body: Block, facts: &F, ea: Seq<BorrowError>, eb: Seq<BorrowError>) -> bool {
    exists|a: BorrowState, b: BorrowState| fresh_state(a) && #[trigger] block_walk(&body, facts, a, b, ea, eb)
}

/// The errors between bodies: `es[j]` before body `j`, each body checked from
/// a fresh state.
pub open spec fn bodies_trace<F: OwnershipFacts>(bodies: Seq<Block>, facts: &F, es: Seq<Seq<BorrowError>>) -> bool {
    &&& es.len() == bodies.len() + 1
    &&& forall|j: int| 0 <= j < bodies.len() ==> #[trigger] body_walked(bodies[j], facts, es[j], es[j + 1])
}

/// `ep` is `e0` followed by one `OwnershipProblem` per program-wide problem
/// `probs`, in order.
pub open spec fn problems_added(e0: Seq<BorrowError>, ep: Seq<BorrowError>, probs: Seq<Seq<char>>) -> bool {
    &&& ep.len() == e0.len() + probs.len()
    &&& ep.take(e0.len() as int) == e0
    &&& forall|k: int| 0 <= k < probs.len() ==> (#[trigger] ep[e0.len() + k] matches BorrowError::OwnershipProblem {
        message,
    } && message@ == probs[k])
}

/// The borrow check of a program turns errors `e0` into `eb`: program-wide
/// problems first, then each checked body in order, statement by statement.
pub open spec fn program_walk<F: OwnershipFacts>(p: &Program, facts: &F, e0: Seq<BorrowError>, eb: Seq<BorrowError>) -> bool {
    exists|es: Seq<Seq<BorrowError>>| #[trigger] bodies_trace(checked_bodies(p), facts, es) && problems_added(
        e0,
        es[0],
        facts.spec_program_problems(*p),
    )
        && es.last() == eb
}

/// Statement `k` of the body of `fs[j]` is the last statement that query `q`
/// reaches, over all the bodies of `fs` in order.
pub open spec fn prog_last_touch(fs: Seq<Function>, q: InspectQuery, j: int, k: int) -> bool {
    &&& 0 <= j < fs.len()
    &&& last_touch(fs[j].body.statements@, false, q, k)
    &&& forall|t: int| j < t < fs.len() ==> !stmts_visit((#[trigger] fs[t]).body.statements@, false, q)
}

/// Report `rep` answers `q` over the bodies of `fs`: when the last statement
/// that `q` reaches is at the queried line itself, `rep` is built from a walk
/// of that body, from a fresh state, right after that statement (see
/// `block_answered`).
pub open spec fn fns_answered<F: OwnershipFacts>(fs: Seq<Function>, facts: &F, q: InspectQuery, rep: BindingInspectReport) -> bool {
    forall|j: int, k: int| #[trigger] prog_last_touch(fs, q, j, k) && at_query(&fs[j].body.statements@[k], q) ==> exists|
        a: BorrowState,
        b: BorrowState,
        ea: Seq<BorrowError>,
        eb: Seq<BorrowError>,
    | fresh_state(a) && #[trigger] block_answered(&fs[j].body, facts, a, b, ea, eb, q, fs[j].name@, rep, k)
}

proof fn lemma_fns_answered_push<F: OwnershipFacts>(
    fs: Seq<Function>,
    facts: &F,
    q: InspectQuery,
    r0: Option<BindingInspectReport>,
    f: Function,
    r1: Option<BindingInspectReport>,
    sa: BorrowState,
    sb: BorrowState,
    ea: Seq<BorrowError>,
    eb: Seq<BorrowError>,
)
    requires
        fns_answered(fs, facts, q, r0->0),
        !stmts_visit(f.body.statements@, false, q) ==> r1 == r0,
        fresh_state(sa),
        forall|k: int| #[trigger] last_touch(f.body.statements@, false, q, k) && at_query(&f.body.statements@[k], q)
            ==> block_answered(&f.body, facts, sa, sb, ea, eb, q, f.name@, r1->0, k),
    ensures
        fns_answered(fs.push(f), facts, q, r1->0),
{
    let g = fs.push(f);
    assert forall|j: int, k: int| #[trigger] prog_last_touch(g, q, j, k) && at_query(&g[j].body.statements@[k], q) implies exists|
        a: BorrowState,
        b: BorrowState,
        ea2: Seq<BorrowError>,
        eb2: Seq<BorrowError>,
    | fresh_state(a) && #[trigger] block_answered(&g[j].body, facts, a, b, ea2, eb2, q, g[j].name@, r1->0, k) by {
        if j < fs.len() {
            assert(g[fs.len() as int] == f);
            assert(!stmts_visit(f.body.statements@, false, q));
            assert(g[j] == fs[j]);
            assert(prog_last_touch(fs, q, j, k)) by {
                assert forall|t: int| j < t < fs.len() implies !stmts_visit((#[trigger] fs[t]).body.statements@, false, q) by {
                    assert(g[t] == fs[t]);
                }
            }
        } else {
            assert(g[j] == f);
            assert(block_answered(&f.body, facts, sa, sb, ea, eb, q, f.name@, r1->0, k));
        }
    }
}

/// The functions without type parameters among `fs`, in order.
pub open spec fn plain_fns(fs: Seq<Function>) -> Seq<Function>
    decreases fs.len(),
{
    if fs.len() == 0 {
        seq![]
    } else {
        plain_fns(fs.drop_last()) + if fs.last().type_params@.len() == 0 {
            seq![fs.last()]
        } else {
            seq![]
        }
    }
}

/// The methods of `impls`, in order.
pub open spec fn impl_methods(impls: Seq<ImplDef>) -> Seq<Function>
    decreases impls.len(),
{
    if impls.len() == 0 {
        seq![]
    } else {
        impl_methods(impls.drop_last()) + impls.last().methods@
    }
}

/// The functions whose bodies the borrow checker walks, in the order it walks
/// them: those without type parameters, then every method.
pub open spec fn checked_fns(p: &Program) -> Seq<Function> {
    plain_fns(p.functions@) + impl_methods(p.impls@)
}

/// Verbose entries `vb` extend `va` and end with one entry per binding alive
/// when the walk of `f`'s body, from a fresh state, leaves it.
pub open spec fn exit_logged<F: OwnershipFacts>(f: Function, facts: &F, va: Seq<VerboseEntry>, vb: Seq<VerboseEntry>) -> bool {
    &&& va.len() <= vb.len()
    &&& vb.take(va.len() as int) == va
    &&& exists|a: BorrowState, b: BorrowState, ea: Seq<BorrowError>, eb: Seq<BorrowError>, k: int|
        #![trigger block_walk(&f.body, facts, a, b, ea, eb), exit_entries_ok(f.name@, &b, vb.skip(k))]
        fresh_state(a) && block_walk(&f.body, facts, a, b, ea, eb) && va.len() <= k <= vb.len() && exit_entries_ok(
            f.name@,
            &b,
            vb.skip(k),
        )
}

/// The verbose entries `vs[j]` before and `vs[j + 1]` after walking the body
/// of each function `fs[j]`.
pub open spec fn verbose_trace<F: OwnershipFacts>(fs: Seq<Function>, facts: &F, vs: Seq<Seq<VerboseEntry>>) -> bool {
    &&& vs.len() == fs.len() + 1
    &&& forall|j: int| 0 <= j < fs.len() ==> #[trigger] exit_logged(fs[j], facts, vs[j], vs[j + 1])
}

/// Walking the program from verbose entries `va` gives `vb`: each checked
/// function in turn adds the entries of its blocks, the last of them the
/// bindings alive when its body is left.
pub open spec fn verbose_run<F: OwnershipFacts>(p: &Program, facts: &F, va: Seq<VerboseEntry>, vb: Seq<VerboseEntry>) -> bool {
    exists|vs: Seq<Seq<VerboseEntry>>| #[trigger] verbose_trace(checked_fns(p), facts, vs) && vs[0] == va && vs.last() == vb
}

proof fn lemma_exit_logged<F: OwnershipFacts>(
    f: Function,
    facts: &F,
    c2: Option<InspectCollector>,
    c3: Option<InspectCollector>,
    sa: BorrowState,
    sb: BorrowState,
    ea: Seq<BorrowError>,
    eb: Seq<BorrowError>,
)
    requires
        is_verbose(c2),
        c2->0.current_func@ == f.name@,
        collector_step(c2, c3),
        exit_recorded(c2, c3, sb),
        fresh_state(sa),
        block_walk(&f.body, facts, sa, sb, ea, eb),
    ensures
        exit_logged(f, facts, c2->0.verbose_entries@, c3->0.verbose_entries@),
{
    let va = c2->0.verbose_entries@;
    let vb = c3->0.verbose_entries@;
    let k = choose|k: int| va.len() <= k <= vb.len() && #[trigger] crate::inspect::exit_entries_ok(
        c2->0.current_func@,
        &sb,
        vb.skip(k),
    );
    assert(block_walk(&f.body, facts, sa, sb, ea, eb) && exit_entries_ok(f.name@, &sb, vb.skip(k)));
}

proof fn lemma_verbose_trace_push<F: OwnershipFacts>(fs: Seq<Function>, facts: &F, vs: Seq<Seq<VerboseEntry>>, f: Function, v: Seq<VerboseEntry>)
    requires
        verbose_trace(fs, facts, vs),
        exit_logged(f, facts, vs.last(), v),
    ensures
        verbose_trace(fs.push(f), facts, vs.push(v)),
        vs.push(v)[0] == vs[0],
{
    let fs2 = fs.push(f);
    let vs2 = vs.push(v);
    assert forall|j: int| 0 <= j < fs2.len() implies #[trigger] exit_logged(fs2[j], facts, vs2[j], vs2[j + 1]) by {
        if j < fs.len() {
            assert(fs2[j] == fs[j] && vs2[j] == vs[j] && vs2[j + 1] == vs[j + 1]);
        } else {
            assert(fs2[j] == f && vs2[j] == vs.last() && vs2[j + 1] == v);
        }
    }
}

/// Some statement of `bodies` (each checked outside `unsafe`) that the walk
/// looks at lies at the query.
pub open spec fn bodies_visit(bodies: Seq<Block>, q: InspectQuery) -> bool {
    exists|j: int| 0 <= j < bodies.len() && stmts_visit(#[trigger] bodies[j].statements@, false, q)
}

/// Borrow and move checking of a program: the program-wide problems the
/// ownership analysis finds, then each non-generic function and each method,
/// each from a fresh state, with the inspection (if any) told which function
/// it is in. Errors are only added; the inspection keeps its query and
/// mode, and what it collects is about the program's functions.
#[verifier::spinoff_prover]
#[verifier::rlimit(40)]
pub fn check_program_with_collector<F: OwnershipFacts>(
    program: &Program,
    facts: &F,
    errors: &mut Vec<BorrowError>,
    inspect: &mut Option<InspectCollector>,
)
    requires
        program_nesting_ok(program),
    ensures
        extends(old(errors)@, final(errors)@),
        collector_run(program, *old(inspect), *final(inspect)),
        program_walk(program, facts, old(errors)@, final(errors)@),
        has_query(*old(inspect)) ==> (found(*final(inspect)) == (found(*old(inspect)) || bodies_visit(
            checked_bodies(program),
            query_of(*old(inspect)),
        ))),
        is_verbose(*old(inspect)) ==> verbose_run(
            program, facts,
            old(inspect)->0.verbose_entries@,
            final(inspect)->0.verbose_entries@,
        ),
        has_query(*old(inspect)) ==> fns_answered(
            checked_fns(program),
            facts,
            query_of(*old(inspect)),
            final(inspect)->0.query_result->0,
        ),
{
    let ghost e0 = errors@;
    let ghost c0 = *inspect;
    let ghost mut vs: Seq<Seq<VerboseEntry>> = seq![c0->0.verbose_entries@];
    proof {
        assert(program.functions@.take(0) =~= Seq::<Function>::empty());
        assert(plain_fns(program.functions@.take(0)) =~= Seq::<Function>::empty());
    }
    proof {
        if let Some(x) = c0 {
            assert(collector_run(program, c0, c0));
        }
    }
    let problems = facts.program_problems(program);
    let ghost pv = problems@;
    report_problems(problems, errors);
    let ghost ep = errors@;
    let ghost mut es: Seq<Seq<BorrowError>> = seq![ep];
    proof {
        assert forall|k: int| 0 <= k < pv.len() implies (#[trigger] ep[e0.len() + k] matches BorrowError::OwnershipProblem {
            message,
        } && message@ == facts.spec_program_problems(*program)[k]) by {
            assert(ep[e0.len() + k] == (BorrowError::OwnershipProblem { message: pv[k] }));
            assert(texts(pv)[k] == pv[k]@);
        }
        assert(problems_added(e0, ep, facts.spec_program_problems(*program)));
    }
    let mut i: usize = 0;
    while i < program.functions.len()
        invariant
            program_nesting_ok(program),
            i <= program.functions@.len(),
            extends(e0, errors@),
            collector_run(program, c0, *inspect),
            bodies_trace(fn_bodies(program.functions@.take(i as int)), facts, es),
            es[0] == ep,
            es.last() == errors@,
            has_query(c0) ==> has_query(*inspect) && query_of(*inspect) == query_of(c0) && (found(*inspect) == (found(
                c0,
            ) || bodies_visit(fn_bodies(program.functions@.take(i as int)), query_of(c0)))),
            is_verbose(c0) ==> is_verbose(*inspect) && verbose_trace(plain_fns(program.functions@.take(i as int)), facts, vs)
                && vs[0] == c0->0.verbose_entries@ && vs.last() == inspect->0.verbose_entries@,
            has_query(c0) ==> fns_answered(plain_fns(program.functions@.take(i as int)), facts, query_of(c0), inspect->0.query_result->0),
        decreases program.functions@.len() - i,
    {
        let func = &program.functions[i];
        let ghost before = fn_bodies(program.functions@.take(i as int));
        let ghost fbefore = plain_fns(program.functions@.take(i as int));
        proof {
            assert(program.functions@.take(i + 1).drop_last() =~= program.functions@.take(i as int));
            assert(program.functions@.take(i + 1).last() == *func);
        }
        if func.type_params.len() == 0 {
            let ghost c1 = *inspect;
            match inspect {
                Some(c) => c.set_func(func.name.as_str()),
                None => {},
            }
            let ghost c2 = *inspect;
            assert(set_to(c1, c2, func.name@));
            assert(names_a_function(program, func.name@)) by {
                assert(program.functions@[i as int] == *func);
            }
            let mut st = BorrowState::new(facts.unknown_kind());
            let ghost sa = st;
            let ghost ea = errors@;
            check_block(&func.body, &mut st, facts, inspect, errors);
            proof {
                lemma_extends_trans(e0, ea, errors@);
                lemma_collector_run_extend(program, c0, c1, c2, *inspect, func.name@);
                assert(fresh_state(sa));
                assert(body_walked(func.body, facts, ea, errors@));
                assert(plain_fns(program.functions@.take(i + 1)) =~= fbefore.push(*func));
                if has_query(c0) {
                    assert(!in_unsafe(sa));
                    assert(query_of(c2) == query_of(c0));
                    assert(c2->0.current_func@ == func.name@);
                    assert forall|k: int| #[trigger] last_touch(func.body.statements@, false, query_of(c0), k) && at_query(
                        &func.body.statements@[k],
                        query_of(c0),
                    ) implies block_answered(&func.body, facts, sa, st, ea, errors@, query_of(c0), func.name@, inspect->0.query_result->0, k) by {
                        assert(last_touch(func.body.statements@, in_unsafe(sa), query_of(c2), k));
                    }
                    lemma_fns_answered_push(fbefore, facts, query_of(c0), c1->0.query_result, *func, inspect->0.query_result, sa, st, ea, errors@);
                }
                if is_verbose(c0) {
                    lemma_exit_logged(*func, facts, c2, *inspect, sa, st, ea, errors@);
                    lemma_verbose_trace_push(fbefore, facts, vs, *func, inspect->0.verbose_entries@);
                    vs = vs.push(inspect->0.verbose_entries@);
                }
                let after = fn_bodies(program.functions@.take(i + 1));
                assert(after =~= before.push(func.body));
                if has_query(c0) {
                    let q = query_of(c0);
                    assert(after[before.len() as int] == func.body);
                    if bodies_visit(after, q) {
                        let jj = choose|jj: int| 0 <= jj < after.len() && stmts_visit(#[trigger] after[jj].statements@, false, q);
                        if jj < before.len() {
                            assert(after[jj] == before[jj]);
                        }
                    }
                    if bodies_visit(before, q) {
                        let jj = choose|jj: int| 0 <= jj < before.len() && stmts_visit(#[trigger] before[jj].statements@, false, q);
                        assert(after[jj] == before[jj]);
                    }
                }
                let es2 = es.push(errors@);
                assert forall|j: int| 0 <= j < after.len() implies #[trigger] body_walked(after[j], facts, es2[j], es2[j + 1]) by {
                    if j < before.len() {
                        assert(after[j] == before[j]);
                        assert(es2[j] == es[j] && es2[j + 1] == es[j + 1]);
                    }
                }
                es = es2;
            }
        } else {
            proof {
                assert(fn_bodies(program.functions@.take(i + 1)) =~= before);
                assert(plain_fns(program.functions@.take(i + 1)) =~= fbefore);
            }
        }
        i = i + 1;
    }
    proof {
        assert(program.functions@.take(program.functions@.len() as int) =~= program.functions@);
    }
    let ghost fb = fn_bodies(program.functions@);
    let ghost pf = plain_fns(program.functions@);
    proof {
        assert(program.impls@.take(0) =~= Seq::<ImplDef>::empty());
        assert(pf + impl_methods(program.impls@.take(0)) =~= pf);
    }
    let mut k: usize = 0;
    while k < program.impls.len()
        invariant
            program_nesting_ok(program),
            k <= program.impls@.len(),
            extends(e0, errors@),
            collector_run(program, c0, *inspect),
            fb == fn_bodies(program.functions@),
            bodies_trace(fb + method_bodies(program.impls@.take(k as int)), facts, es),
            es[0] == ep,
            es.last() == errors@,
            has_query(c0) ==> has_query(*inspect) && query_of(*inspect) == query_of(c0) && (found(*inspect) == (found(
                c0,
            ) || bodies_visit(fb + method_bodies(program.impls@.take(k as int)), query_of(c0)))),
            pf == plain_fns(program.functions@),
            is_verbose(c0) ==> is_verbose(*inspect) && verbose_trace(pf + impl_methods(program.impls@.take(k as int)), facts, vs)
                && vs[0] == c0->0.verbose_entries@ && vs.last() == inspect->0.verbose_entries@,
            has_query(c0) ==> fns_answered(pf + impl_methods(program.impls@.take(k as int)), facts, query_of(c0), inspect->0.query_result->0),
        decreases program.impls@.len() - k,
    {
        let imp = &program.impls[k];
        let ghost base = fb + method_bodies(program.impls@.take(k as int));
        let ghost fbase = pf + impl_methods(program.impls@.take(k as int));
        proof {
            assert(program.impls@.take(k + 1).drop_last() =~= program.impls@.take(k as int));
            assert(program.impls@.take(k + 1).last() == *imp);
            assert(bodies_of(imp.methods@.take(0)) =~= Seq::<Block>::empty());
            assert(base + bodies_of(imp.methods@.take(0)) =~= base);
            assert(fbase + imp.methods@.take(0) =~= fbase);
        }
        let mut j: usize = 0;
        while j < imp.methods.len()
            invariant
                program_nesting_ok(program),
                k < program.impls@.len(),
                imp == &program.impls@[k as int],
                j <= imp.methods@.len(),
                extends(e0, errors@),
                collector_run(program, c0, *inspect),
                base == fb + method_bodies(program.impls@.take(k as int)),
                bodies_trace(base + bodies_of(imp.methods@.take(j as int)), facts, es),
                es[0] == ep,
                es.last() == errors@,
                has_query(c0) ==> has_query(*inspect) && query_of(*inspect) == query_of(c0) && (found(*inspect) == (found(
                    c0,
                ) || bodies_visit(base + bodies_of(imp.methods@.take(j as int)), query_of(c0)))),
                fbase == pf + impl_methods(program.impls@.take(k as int)),
                is_verbose(c0) ==> is_verbose(*inspect) && verbose_trace(fbase + imp.methods@.take(j as int), facts, vs)
                    && vs[0] == c0->0.verbose_entries@ && vs.last() == inspect->0.verbose_entries@,
                has_query(c0) ==> fns_answered(fbase + imp.methods@.take(j as int), facts, query_of(c0), inspect->0.query_result->0),
            decreases imp.methods@.len() - j,
        {
            let method = &imp.methods[j];
            let ghost c1 = *inspect;
            match inspect {
                Some(c) => c.set_func(method.name.as_str()),
                None => {},
            }
            let ghost c2 = *inspect;
            assert(set_to(c1, c2, method.name@));
            assert(names_a_function(program, method.name@)) by {
                assert(program.impls@[k as int].methods@[j as int] == *method);
            }
            let mut st = BorrowState::new(facts.unknown_kind());
            let ghost sa = st;
            let ghost ea = errors@;
            check_block(&method.body, &mut st, facts, inspect, errors);
            proof {
                lemma_extends_trans(e0, ea, errors@);
                lemma_collector_run_extend(program, c0, c1, c2, *inspect, method.name@);
                assert(fresh_state(sa));
                assert(body_walked(method.body, facts, ea, errors@));
                let before = base + bodies_of(imp.methods@.take(j as int));
                let after = base + bodies_of(imp.methods@.take(j + 1));
                assert(imp.methods@.take(j + 1) =~= imp.methods@.take(j as int).push(*method));
                assert(fbase + imp.methods@.take(j + 1) =~= (fbase + imp.methods@.take(j as int)).push(*method));
                if has_query(c0) {
                    assert(!in_unsafe(sa));
                    assert(query_of(c2) == query_of(c0));
                    assert(c2->0.current_func@ == method.name@);
                    assert forall|k: int| #[trigger] last_touch(method.body.statements@, false, query_of(c0), k) && at_query(
                        &method.body.statements@[k],
                        query_of(c0),
                    ) implies block_answered(&method.body, facts, sa, st, ea, errors@, query_of(c0), method.name@, inspect->0.query_result->0, k) by {
                        assert(last_touch(method.body.statements@, in_unsafe(sa), query_of(c2), k));
                    }
                    lemma_fns_answered_push(fbase + imp.methods@.take(j as int), facts, query_of(c0), c1->0.query_result, *method, inspect->0.query_result, sa, st, ea, errors@);
                }
                if is_verbose(c0) {
                    lemma_exit_logged(*method, facts, c2, *inspect, sa, st, ea, errors@);
                    lemma_verbose_trace_push(fbase + imp.methods@.take(j as int), facts, vs, *method, inspect->0.verbose_entries@);
                    vs = vs.push(inspect->0.verbose_entries@);
                }
                assert(after =~= before.push(method.body));
                if has_query(c0) {
                    let q = query_of(c0);
                    assert(after[before.len() as int] == method.body);
                    if bodies_visit(after, q) {
                        let jj = choose|jj: int| 0 <= jj < after.len() && stmts_visit(#[trigger] after[jj].statements@, false, q);
                        if jj < before.len() {
                            assert(after[jj] == before[jj]);
                        }
                    }
                    if bodies_visit(before, q) {
                        let jj = choose|jj: int| 0 <= jj < before.len() && stmts_visit(#[trigger] before[jj].statements@, false, q);
                        assert(after[jj] == before[jj]);
                    }
                }
                let es2 = es.push(errors@);
                assert forall|t: int| 0 <= t < after.len() implies #[trigger] body_walked(after[t], facts, es2[t], es2[t + 1]) by {
                    if t < before.len() {
                        assert(after[t] == before[t]);
                        assert(es2[t] == es[t] && es2[t + 1] == es[t + 1]);
                    }
                }
                es = es2;
            }
            j = j + 1;
        }
        proof {
            assert(imp.methods@.take(imp.methods@.len() as int) =~= imp.methods@);
            assert(method_bodies(program.impls@.take(k + 1)) == method_bodies(program.impls@.take(k as int)) + bodies_of(
                imp.methods@,
            ));
            assert(base + bodies_of(imp.methods@) =~= fb + method_bodies(program.impls@.take(k + 1)));
            assert(impl_methods(program.impls@.take(k + 1)) == impl_methods(program.impls@.take(k as int)) + imp.methods@);
            assert(fbase + imp.methods@ =~= pf + impl_methods(program.impls@.take(k + 1)));
        }
        k = k + 1;
    }
    proof {
        assert(program.impls@.take(program.impls@.len() as int) =~= program.impls@);
        assert(bodies_trace(checked_bodies(program), facts, es));
        if is_verbose(c0) {
            assert(verbose_trace(checked_fns(program), facts, vs));
        }
        if has_query(c0) {
            assert(fns_answered(checked_fns(program), facts, query_of(c0), inspect->0.query_result->0));
        }
    }
}

/// Borrow and move checking of a program (see [`check_program_with_collector`]).
pub fn check_program<F: OwnershipFacts>(program: &Program, facts: &F, errors: &mut Vec<BorrowError>)
    requires
        program_nesting_ok(program),
    ensures
        extends(old(errors)@, final(errors)@),
        program_walk(program, facts, old(errors)@, final(errors)@),
{
    let mut none: Option<InspectCollector> = None;
    check_program_with_collector(program, facts, errors, &mut none);
}

fn copy_query(q: &InspectQuery) -> (r: InspectQuery)
    ensures
        r == *q,
{
    InspectQuery { file: q.file.clone(), line: q.line, name: q.name.clone() }
}

/// Borrow checking that also answers an inspection query: the report of the
/// queried binding at the queried line, if a statement there was checked.
pub fn check_program_inspect<F: OwnershipFacts>(
    program: &Program,
    facts: &F,
    errors: &mut Vec<BorrowError>,
    query: Option<&InspectQuery>,
) -> (r: Option<BindingInspectReport>)
    requires
        program_nesting_ok(program),
    ensures
        extends(old(errors)@, final(errors)@),
        program_walk(program, facts, old(errors)@, final(errors)@),
        query is None ==> r is None,
        query matches Some(q) ==> (r is Some <==> bodies_visit(checked_bodies(program), *q)),
        query matches Some(q) ==> (r matches Some(rep) ==> report_answers(rep, *q) && names_a_function(
            program,
            rep.func@,
        )),
        query matches Some(q) ==> (r matches Some(rep) ==> fns_answered(checked_fns(program), facts, *q, rep)),
{
    let q = match query {
        Some(q) => q,
        None => {
            check_program(program, facts, errors);
            return None;
        },
    };
    let mut collector: Option<InspectCollector> = Some(InspectCollector::for_query(copy_query(q)));
    let ghost c0 = collector;
    assert(collected_ok(program, c0->0));
    check_program_with_collector(program, facts, errors, &mut collector);
    match collector {
        Some(c) => c.query_result,
        None => None,
    }
}

/// The text of the error when the queried binding is not in scope at the
/// queried line: ``binding `name` not in scope at file:line``.
pub open spec fn not_in_scope_message(q: InspectQuery) -> Seq<char> {
    "binding `"@ + q.name@ + "` not in scope at "@ + q.file@ + ":"@ + crate::num::decimal_string(q.line as nat)
}

/// The ownership report of the queried binding at the queried line, or the
/// error saying it is not in scope there.
pub fn inspect_binding<F: OwnershipFacts>(program: &Program, facts: &F, query: &InspectQuery) -> (r: Result<
    BindingInspectReport,
    String,
>)
    requires
        program_nesting_ok(program),
    ensures
        r matches Err(m) ==> m@ == not_in_scope_message(*query),
        r matches Ok(rep) ==> report_answers(rep, *query) && names_a_function(program, rep.func@),
        r matches Ok(rep) ==> fns_answered(checked_fns(program), facts, *query, rep),
        r is Ok <==> bodies_visit(checked_bodies(program), *query),
{
    let mut collector = Some(InspectCollector::for_query(copy_query(query)));
    let ghost c0 = collector;
    assert(collected_ok(program, c0->0));
    let mut errors: Vec<BorrowError> = Vec::new();
    check_program_with_collector(program, facts, &mut errors, &mut collector);
    let result = match collector {
        Some(c) => c.query_result,
        None => None,
    };
    match result {
        Some(rep) => Ok(rep),
        None => {
            let line = crate::num::decimal_of(query.line as u64);
            Err(
                String::from_str("binding `").concat(query.name.as_str()).concat("` not in scope at ").concat(
                    query.file.as_str(),
                ).concat(":").concat(line.as_str()),
            )
        },
    }
}

/// The bindings alive at every block exit of the program's functions, for
/// `--ownership-verbose`: for each checked function in turn, the entries of
/// its blocks, the last of them one per binding alive when its body is left.
pub fn analyze_ownership_verbose<F: OwnershipFacts>(program: &Program, facts: &F) -> (r: OwnershipVerbosePlan)
    requires
        program_nesting_ok(program),
    ensures
        forall|k: int| 0 <= k < r.entries@.len() ==> names_a_function(program, (#[trigger] r.entries@[k]).func@),
        verbose_run(program, facts, Seq::empty(), r.entries@),
{
    let mut collector = Some(InspectCollector::verbose());
    let ghost c0 = collector;
    assert(collected_ok(program, c0->0));
    assert(c0->0.verbose_entries@ =~= Seq::<VerboseEntry>::empty());
    let mut errors: Vec<BorrowError> = Vec::new();
    check_program_with_collector(program, facts, &mut errors, &mut collector);
    match collector {
        Some(c) => c.into_verbose_plan(),
        None => OwnershipVerbosePlan { entries: Vec::new() },
    }
}

} // verus!
