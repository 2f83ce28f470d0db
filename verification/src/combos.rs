//! Trait-object combinations (`dyn A + B`) that a program mentions: each needs
//! its own combined vtable.
use vstd::prelude::*;
use crate::analysis::{lemma_lex_irrefl, lemma_lex_total, lemma_lex_trans, lex_lt};
use crate::names::{texts, NameSet};
use crate::text::{chars_eq_str, chars_of};
use crate::ast::{
    ArrowBody, Block, Expression, ForKind, Function, MatchArm, Param, Program, Statement,
    TemplatePart, TraitDef, TraitMethodSig, TypeAnnotation,
};

verus! {

/// Lexicographic order of lists of names, element by element (`Vec<String>`'s `Ord`).
pub open spec fn names_lt(a: Seq<Seq<char>>, b: Seq<Seq<char>>) -> bool
    decreases a.len(),
{
    if a.len() == 0 {
        b.len() > 0
    } else if b.len() == 0 {
        false
    } else if a[0] != b[0] {
        lex_lt(a[0], b[0])
    } else {
        names_lt(a.drop_first(), b.drop_first())
    }
}

pub proof fn lemma_names_irrefl(a: Seq<Seq<char>>)
    ensures
        !names_lt(a, a),
    decreases a.len(),
{
    if a.len() > 0 {
        lemma_names_irrefl(a.drop_first());
    }
}

pub proof fn lemma_names_total(a: Seq<Seq<char>>, b: Seq<Seq<char>>)
    ensures
        names_lt(a, b) || names_lt(b, a) || a == b,
        !(names_lt(a, b) && names_lt(b, a)),
    decreases a.len(),
{
    if a.len() > 0 && b.len() > 0 {
        lemma_names_total(a.drop_first(), b.drop_first());
        lemma_lex_total(a[0], b[0]);
        if a[0] == b[0] && a.drop_first() == b.drop_first() {
            assert(a =~= seq![a[0]] + a.drop_first());
            assert(b =~= seq![b[0]] + b.drop_first());
        }
    } else if a.len() == 0 && b.len() == 0 {
        assert(a =~= b);
    }
}

pub proof fn lemma_names_trans(a: Seq<Seq<char>>, b: Seq<Seq<char>>, c: Seq<Seq<char>>)
    requires
        names_lt(a, b),
        names_lt(b, c),
    ensures
        names_lt(a, c),
    decreases a.len(),
{
    if a.len() > 0 && b.len() > 0 && c.len() > 0 {
        if a[0] == b[0] && b[0] == c[0] {
            lemma_names_trans(a.drop_first(), b.drop_first(), c.drop_first());
        } else if a[0] == b[0] {
        } else if b[0] == c[0] {
        } else {
            lemma_lex_trans(a[0], b[0], c[0]);
            lemma_lex_total(a[0], c[0]);
            if a[0] == c[0] {
                lemma_lex_total(a[0], b[0]);
            }
        }
    }
}

fn names_lt_exec(a: &Vec<String>, b: &Vec<String>) -> (r: bool)
    ensures
        r == names_lt(texts(a@), texts(b@)),
{
    let ghost ta = texts(a@);
    let ghost tb = texts(b@);
    let mut i: usize = 0;
    proof {
        assert(ta.skip(0) =~= ta);
        assert(tb.skip(0) =~= tb);
    }
    while i < a.len() && i < b.len()
        invariant
            ta == texts(a@),
            tb == texts(b@),
            i <= a@.len(),
            i <= b@.len(),
            names_lt(ta, tb) == names_lt(ta.skip(i as int), tb.skip(i as int)),
        decreases a@.len() - i,
    {
        let ca = chars_of(a[i].as_str());
        let cb = chars_of(b[i].as_str());
        if !crate::text::chars_eq(ca.as_slice(), cb.as_slice()) {
            return crate::analysis::lex_lt_exec(ca.as_slice(), cb.as_slice());
        }
        proof {
            assert(ta.skip(i as int).drop_first() =~= ta.skip(i + 1));
            assert(tb.skip(i as int).drop_first() =~= tb.skip(i + 1));
        }
        i = i + 1;
    }
    i == a.len() && i < b.len()
}

/// A combination proper: at least two traits, neither of them `Drop` nor `Clone`.
pub open spec fn clean_combo(c: Seq<Seq<char>>) -> bool {
    c.len() > 1 && forall|j: int| 0 <= j < c.len() ==> #[trigger] c[j] != "Drop"@ && c[j] != "Clone"@
}

/// A set of trait combinations, kept in ascending order without repeats (the
/// iteration order of an ordered set).
#[derive(Debug)]
pub struct ComboSet {
    pub items: Vec<Vec<String>>,
}

/// The combinations of `v` as lists of names.
pub open spec fn combo_texts(v: Seq<Vec<String>>) -> Seq<Seq<Seq<char>>> {
    v.map_values(|c: Vec<String>| texts(c@))
}

impl ComboSet {
    /// Ascending, without repeats, and each a real combination (see [`clean_combo`]).
    pub open spec fn wf(&self) -> bool {
        let t = combo_texts(self.items@);
        &&& forall|i: int, j: int| 0 <= i < j < t.len() ==> names_lt(#[trigger] t[i], #[trigger] t[j])
        &&& forall|i: int| 0 <= i < t.len() ==> clean_combo(#[trigger] t[i])
    }

    /// The combinations held.
    pub open spec fn view(&self) -> Set<Seq<Seq<char>>> {
        combo_texts(self.items@).to_set()
    }

    pub fn new() -> (r: ComboSet)
        ensures
            r.wf(),
            r@ == Set::<Seq<Seq<char>>>::empty(),
    {
        let r = ComboSet { items: Vec::new() };
        assert(combo_texts(r.items@) =~= Seq::<Seq<Seq<char>>>::empty());
        r
    }

    /// Adds `x` unless it is there already.
    pub fn insert(&mut self, x: Vec<String>)
        requires
            old(self).wf(),
            clean_combo(texts(x@)),
        ensures
            final(self).wf(),
            final(self)@ == old(self)@.insert(texts(x@)),
    {
        let ghost xt = texts(x@);
        let mut j: usize = 0;
        while j < self.items.len()
            invariant
                self.items@ == old(self).items@,
                xt == texts(x@),
                self.wf(),
                j <= self.items@.len(),
                forall|k: int| 0 <= k < j ==> names_lt(#[trigger] combo_texts(self.items@)[k], xt),
            ensures
                j < self.items@.len() ==> !names_lt(combo_texts(self.items@)[j as int], xt),
            decreases self.items@.len() - j,
        {
            let lt = names_lt_exec(&self.items[j], &x);
            assert(combo_texts(self.items@)[j as int] == texts(self.items@[j as int]@));
            if !lt {
                break;
            }
            j = j + 1;
        }
        let ghost tv = combo_texts(self.items@);
        if j < self.items.len() {
            proof {
                lemma_names_total(tv[j as int], xt);
            }
            if !names_lt_exec(&x, &self.items[j]) {
                proof {
                    assert(tv[j as int] == xt);
                    assert(self@ =~= old(self)@.insert(xt));
                }
                return;
            }
        }
        self.items.insert(j, x);
        proof {
            let nv = combo_texts(self.items@);
            assert(nv =~= tv.insert(j as int, xt));
            assert forall|a: int| 0 <= a < nv.len() implies clean_combo(#[trigger] nv[a]) by {
                if a < j {
                    assert(nv[a] == tv[a]);
                } else if a > j {
                    assert(nv[a] == tv[a - 1]);
                }
            }
            assert forall|a: int, b: int| 0 <= a < b < nv.len() implies names_lt(#[trigger] nv[a], #[trigger] nv[b]) by {
                if b > j {
                    if b - 1 > j {
                        lemma_names_trans(xt, tv[j as int], tv[b - 1]);
                    }
                    assert(names_lt(xt, tv[b - 1]));
                }
                if a < j && b > j {
                    lemma_names_trans(tv[a], xt, tv[b - 1]);
                }
            }
            assert forall|t: Seq<Seq<char>>| nv.to_set().contains(t) <==> tv.to_set().insert(xt).contains(t) by {
                if nv.contains(t) {
                    let k = choose|k: int| 0 <= k < nv.len() && nv[k] == t;
                    if k < j {
                        assert(tv[k] == t);
                    } else if k > j {
                        assert(tv[k - 1] == t);
                    }
                }
                if tv.contains(t) {
                    let k = choose|k: int| 0 <= k < tv.len() && tv[k] == t;
                    if k < j {
                        assert(nv[k] == t);
                    } else {
                        assert(nv[k + 1] == t);
                    }
                }
                if t == xt {
                    assert(nv[j as int] == t);
                }
            }
            assert(self@ =~= old(self)@.insert(xt));
        }
    }
}

/// `ts` without the marker traits `Drop` and `Clone`.
pub open spec fn without_markers(ts: Seq<Seq<char>>) -> Seq<Seq<char>>
    decreases ts.len(),
{
    if ts.len() == 0 {
        ts
    } else {
        let rest = without_markers(ts.drop_last());
        if ts.last() != "Drop"@ && ts.last() != "Clone"@ {
            rest.push(ts.last())
        } else {
            rest
        }
    }
}

/// Law: the marker traits never remain after [`without_markers`].
pub proof fn lemma_without_markers_clean(ts: Seq<Seq<char>>)
    ensures
        forall|j: int| 0 <= j < without_markers(ts).len() ==> #[trigger] without_markers(ts)[j] != "Drop"@
            && without_markers(ts)[j] != "Clone"@,
    decreases ts.len(),
{
    if ts.len() > 0 {
        lemma_without_markers_clean(ts.drop_last());
        let rest = without_markers(ts.drop_last());
        let w = without_markers(ts);
        assert forall|j: int| 0 <= j < w.len() implies #[trigger] w[j] != "Drop"@ && w[j] != "Clone"@ by {
            if j < rest.len() {
                assert(w[j] == rest[j]);
            }
        }
    }
}

/// The combination that a trait list contributes: its non-marker traits, when
/// there are at least two of them.
pub open spec fn combo_of(ts: Seq<Seq<char>>) -> Set<Seq<Seq<char>>> {
    if without_markers(ts).len() > 1 {
        set![without_markers(ts)]
    } else {
        Set::empty()
    }
}

/// Records the combination of `traits` (see [`combo_of`]).
pub fn insert_combo(out: &mut ComboSet, traits: Vec<String>)
    requires
        old(out).wf(),
    ensures
        final(out).wf(),
        final(out)@ == old(out)@.union(combo_of(texts(traits@))),
{
    let mut filtered: Vec<String> = Vec::new();
    let mut i: usize = 0;
    while i < traits.len()
        invariant
            i <= traits@.len(),
            texts(filtered@) == without_markers(texts(traits@).take(i as int)),
        decreases traits@.len() - i,
    {
        let c = chars_of(traits[i].as_str());
        proof {
            assert(texts(traits@).take(i + 1).drop_last() =~= texts(traits@).take(i as int));
        }
        if !chars_eq_str(c.as_slice(), "Drop") && !chars_eq_str(c.as_slice(), "Clone") {
            filtered.push(traits[i].clone());
            proof {
                assert(texts(filtered@) =~= without_markers(texts(traits@).take(i as int)).push(traits@[i as int]@));
            }
        }
        i = i + 1;
    }
    proof {
        assert(texts(traits@).take(traits@.len() as int) =~= texts(traits@));
    }
    if filtered.len() > 1 {
        proof {
            lemma_without_markers_clean(texts(traits@));
        }
        out.insert(filtered);
        assert(final(out)@ =~= old(out)@.union(combo_of(texts(traits@))));
    } else {
        assert(out@ =~= old(out)@.union(combo_of(texts(traits@))));
    }
}


/// Combinations named by `dyn` types inside a type annotation.
pub open spec fn type_combos(ann: &TypeAnnotation) -> Set<Seq<Seq<char>>>
    decreases ann,
{
    match ann {
        TypeAnnotation::DynTrait { trait_name, bounds } => combo_of(seq![trait_name@] + texts(bounds@)),
        TypeAnnotation::Applied { args, .. } => types_combos(args@),
        TypeAnnotation::Array { elem, .. } => type_combos(elem),
        TypeAnnotation::Tuple(elems) => types_combos(elems@),
        TypeAnnotation::Ref { inner, .. } => type_combos(inner),
        TypeAnnotation::RawPtr { inner } => type_combos(inner),
        TypeAnnotation::ForAll { inner, .. } => type_combos(inner),
        TypeAnnotation::FnPtr { params, return_type, .. } => types_combos(params@).union(
            match return_type {
                Some(rt) => type_combos(rt),
                None => Set::empty(),
            },
        ),
        _ => Set::empty(),
    }
}

/// Combinations named inside a list of type annotations.
pub open spec fn types_combos(s: Seq<TypeAnnotation>) -> Set<Seq<Seq<char>>>
    decreases s,
{
    if s.len() == 0 {
        Set::empty()
    } else {
        types_combos(s.subrange(0, s.len() - 1)).union(type_combos(&s[s.len() - 1]))
    }
}

/// Records the `dyn` combinations of a type annotation.
pub fn collect_from_type(ann: &TypeAnnotation, out: &mut ComboSet)
    requires
        old(out).wf(),
    ensures
        final(out).wf(),
        final(out)@ == old(out)@.union(type_combos(ann)),
    decreases ann,
{
    match ann {
        TypeAnnotation::DynTrait { trait_name, bounds } => {
            let mut traits: Vec<String> = Vec::new();
            traits.push(trait_name.clone());
            let mut i: usize = 0;
            while i < bounds.len()
                invariant
                    i <= bounds@.len(),
                    texts(traits@) == seq![trait_name@] + texts(bounds@.take(i as int)),
                decreases bounds@.len() - i,
            {
                let ghost before = traits@;
                traits.push(bounds[i].clone());
                proof {
                    assert(texts(traits@) =~= texts(before).push(bounds@[i as int]@));
                    assert(texts(bounds@.take(i + 1)) =~= texts(bounds@.take(i as int)).push(bounds@[i as int]@));
                    assert(texts(traits@) =~= seq![trait_name@] + texts(bounds@.take(i + 1)));
                }
                i = i + 1;
            }
            proof {
                assert(bounds@.take(bounds@.len() as int) =~= bounds@);
            }
            insert_combo(out, traits);
        },
        TypeAnnotation::Applied { args, .. } => collect_from_types(args, out),
        TypeAnnotation::Array { elem, .. } => collect_from_type(elem, out),
        TypeAnnotation::Tuple(elems) => collect_from_types(elems, out),
        TypeAnnotation::Ref { inner, .. } => collect_from_type(inner, out),
        TypeAnnotation::RawPtr { inner } => collect_from_type(inner, out),
        TypeAnnotation::ForAll { inner, .. } => collect_from_type(inner, out),
        TypeAnnotation::FnPtr { params, return_type, .. } => {
            collect_from_types(params, out);
            match return_type {
                Some(rt) => collect_from_type(rt, out),
                None => {},
            }
            assert(out@ =~= old(out)@.union(type_combos(ann)));
        },
        _ => {
            assert(out@ =~= old(out)@.union(type_combos(ann)));
        },
    }
}

fn collect_from_types(v: &Vec<TypeAnnotation>, out: &mut ComboSet)
    requires
        old(out).wf(),
    ensures
        final(out).wf(),
        final(out)@ == old(out)@.union(types_combos(v@)),
    decreases v,
{
    let mut i: usize = 0;
    proof {
        assert(v@.take(0) =~= Seq::<TypeAnnotation>::empty());
        assert(out@ =~= old(out)@.union(types_combos(v@.take(0))));
    }
    while i < v.len()
        invariant
            i <= v@.len(),
            out.wf(),
            out@ == old(out)@.union(types_combos(v@.take(i as int))),
        decreases v@.len() - i,
    {
        collect_from_type(&v[i], out);
        proof {
            assert(v@.take(i + 1).subrange(0, i as int) =~= v@.take(i as int));
            assert(out@ =~= old(out)@.union(types_combos(v@.take(i + 1))));
        }
        i = i + 1;
    }
    proof {
        assert(v@.take(v@.len() as int) =~= v@);
    }
}


/// Combinations named by the types of a parameter list.
pub open spec fn params_combos(s: Seq<Param>) -> Set<Seq<Seq<char>>>
    decreases s.len(),
{
    if s.len() == 0 {
        Set::empty()
    } else {
        params_combos(s.drop_last()).union(type_combos(&s.last().ty))
    }
}

fn collect_from_params(v: &Vec<Param>, out: &mut ComboSet)
    requires
        old(out).wf(),
    ensures
        final(out).wf(),
        final(out)@ == old(out)@.union(params_combos(v@)),
{
    let mut i: usize = 0;
    proof {
        assert(v@.take(0) =~= Seq::<Param>::empty());
        assert(out@ =~= old(out)@.union(params_combos(v@.take(0))));
    }
    while i < v.len()
        invariant
            i <= v@.len(),
            out.wf(),
            out@ == old(out)@.union(params_combos(v@.take(i as int))),
        decreases v@.len() - i,
    {
        collect_from_type(&v[i].ty, out);
        proof {
            assert(v@.take(i + 1).drop_last() =~= v@.take(i as int));
            assert(out@ =~= old(out)@.union(params_combos(v@.take(i + 1))));
        }
        i = i + 1;
    }
    proof {
        assert(v@.take(v@.len() as int) =~= v@);
    }
}

/// Combinations named inside an expression (types of casts, call type
/// arguments and arrow parameters, through every sub-expression and nested block).
pub open spec fn expr_combos(e: &Expression) -> Set<Seq<Seq<char>>>
    decreases e,
{
    match e {
        Expression::Cast(c) => type_combos(&c.target_type).union(expr_combos(&c.expr)),
        Expression::Call(c) => types_combos(c.type_args@).union(exprs_combos(c.args@)),
        Expression::MethodCall(mc) => expr_combos(&mc.object).union(exprs_combos(mc.args@)),
        Expression::Binary(b) => expr_combos(&b.left).union(expr_combos(&b.right)),
        Expression::Unary(u) => expr_combos(&u.operand),
        Expression::FieldAccess(f) => expr_combos(&f.object),
        Expression::StructLiteral(sl) => exprs_combos(sl.spreads@).union(fields_combos(sl.fields@)),
        Expression::Index(ix) => expr_combos(&ix.object).union(expr_combos(&ix.index)),
        Expression::ArrayLiteral(a) => exprs_combos(a.spreads@).union(exprs_combos(a.elems@)),
        Expression::ArrayRepeat { element, count_expr, .. } => expr_combos(element).union(
            match count_expr {
                Some(ce) => expr_combos(ce),
                None => Set::empty(),
            },
        ),
        Expression::TupleLiteral(elems) => exprs_combos(elems@),
        Expression::Grouped(g) => expr_combos(g),
        Expression::Await(g) => expr_combos(g),
        Expression::If(i) => expr_combos(&i.condition).union(block_combos(&i.then_block)).union(
            block_combos(&i.else_block),
        ),
        Expression::Match(m) => expr_combos(&m.scrutinee).union(arms_combos(m.arms@)),
        Expression::ArrowFn(a) => params_combos(a.params@).union(
            match &a.body {
                ArrowBody::Expr(x) => expr_combos(x),
                ArrowBody::Block(b) => block_combos(b),
            },
        ),
        Expression::ComptimeBlock { body, .. } => block_combos(body),
        Expression::TemplateLiteral(t) => parts_combos(t.parts@),
        Expression::EnumVariant(ev) => exprs_combos(ev.args@),
        _ => Set::empty(),
    }
}

/// Combinations named inside a list of expressions.
pub open spec fn exprs_combos(s: Seq<Expression>) -> Set<Seq<Seq<char>>>
    decreases s,
{
    if s.len() == 0 {
        Set::empty()
    } else {
        exprs_combos(s.subrange(0, s.len() - 1)).union(expr_combos(&s[s.len() - 1]))
    }
}

/// Combinations named inside the values of struct-literal fields.
pub open spec fn fields_combos(s: Seq<(String, Expression)>) -> Set<Seq<Seq<char>>>
    decreases s,
{
    if s.len() == 0 {
        Set::empty()
    } else {
        fields_combos(s.subrange(0, s.len() - 1)).union(expr_combos(&s[s.len() - 1].1))
    }
}

/// Combinations named inside `match` arms (guards and bodies).
pub open spec fn arms_combos(s: Seq<MatchArm>) -> Set<Seq<Seq<char>>>
    decreases s,
{
    if s.len() == 0 {
        Set::empty()
    } else {
        arms_combos(s.subrange(0, s.len() - 1)).union(
            match &s[s.len() - 1].guard {
                Some(g) => expr_combos(g),
                None => Set::empty(),
            },
        ).union(block_combos(&s[s.len() - 1].body))
    }
}

/// Combinations named inside the interpolations of a template literal.
pub open spec fn parts_combos(s: Seq<TemplatePart>) -> Set<Seq<Seq<char>>>
    decreases s,
{
    if s.len() == 0 {
        Set::empty()
    } else {
        parts_combos(s.subrange(0, s.len() - 1)).union(
            match &s[s.len() - 1] {
                TemplatePart::Interpolation(x) => expr_combos(x),
                TemplatePart::Static(_) => Set::empty(),
            },
        )
    }
}

/// Combinations named inside the expressions of a block's statements.
pub open spec fn block_combos(b: &Block) -> Set<Seq<Seq<char>>>
    decreases b,
{
    stmts_combos(b.statements@)
}

/// Combinations named inside the expressions of a list of statements.
pub open spec fn stmts_combos(s: Seq<Statement>) -> Set<Seq<Seq<char>>>
    decreases s,
{
    if s.len() == 0 {
        Set::empty()
    } else {
        stmts_combos(s.subrange(0, s.len() - 1)).union(stmt_combos(&s[s.len() - 1]))
    }
}

/// Combinations named inside the expressions of a statement and its nested blocks.
pub open spec fn stmt_combos(st: &Statement) -> Set<Seq<Seq<char>>>
    decreases st,
{
    match st {
        Statement::Let(l) => expr_combos(&l.value),
        Statement::Const(l) => expr_combos(&l.value),
        Statement::Assign(a) => expr_combos(&a.target).union(expr_combos(&a.value)),
        Statement::Return(r) => match &r.value {
            Some(v) => expr_combos(v),
            None => Set::empty(),
        },
        Statement::If(i) => expr_combos(&i.condition).union(block_combos(&i.then_block)).union(
            match &i.else_block {
                Some(el) => block_combos(el),
                None => Set::empty(),
            },
        ),
        Statement::While(w) => expr_combos(&w.condition).union(block_combos(&w.body)),
        Statement::For(fo) => match &fo.kind {
            ForKind::Range { start, end } => expr_combos(start).union(expr_combos(end)),
            ForKind::Iterable { iterable } => expr_combos(iterable),
        }.union(block_combos(&fo.body)),
        Statement::Expression(x) => expr_combos(x),
        Statement::Defer(x) => expr_combos(x),
        Statement::Print(p) => exprs_combos(p.args@).union(
            match &p.color {
                Some(c) => expr_combos(c),
                None => Set::empty(),
            },
        ),
        Statement::Spawn(b) => block_combos(b),
        Statement::Unsafe(b) => block_combos(b),
        Statement::Benchmark(b) => block_combos(b),
        _ => Set::empty(),
    }
}

/// Records the combinations named inside an expression.
pub fn collect_from_expr(e: &Expression, out: &mut ComboSet)
    requires
        old(out).wf(),
    ensures
        final(out).wf(),
        final(out)@ == old(out)@.union(expr_combos(e)),
    decreases e,
{
    let ghost o = out@;
    match e {
        Expression::Cast(c) => {
            collect_from_type(&c.target_type, out);
            collect_from_expr(&c.expr, out);
        },
        Expression::Call(c) => {
            collect_from_types(&c.type_args, out);
            collect_from_exprs(&c.args, out);
        },
        Expression::MethodCall(mc) => {
            collect_from_expr(&mc.object, out);
            collect_from_exprs(&mc.args, out);
        },
        Expression::Binary(b) => {
            collect_from_expr(&b.left, out);
            collect_from_expr(&b.right, out);
        },
        Expression::Unary(u) => collect_from_expr(&u.operand, out),
        Expression::FieldAccess(f) => collect_from_expr(&f.object, out),
        Expression::StructLiteral(sl) => {
            collect_from_exprs(&sl.spreads, out);
            collect_from_fields(&sl.fields, out);
        },
        Expression::Index(ix) => {
            collect_from_expr(&ix.object, out);
            collect_from_expr(&ix.index, out);
        },
        Expression::ArrayLiteral(a) => {
            collect_from_exprs(&a.spreads, out);
            collect_from_exprs(&a.elems, out);
        },
        Expression::ArrayRepeat { element, count_expr, .. } => {
            collect_from_expr(element, out);
            match count_expr {
                Some(ce) => collect_from_expr(ce, out),
                None => {},
            }
        },
        Expression::TupleLiteral(elems) => collect_from_exprs(elems, out),
        Expression::Grouped(g) => collect_from_expr(g, out),
        Expression::Await(g) => collect_from_expr(g, out),
        Expression::If(i) => {
            collect_from_expr(&i.condition, out);
            collect_in_block(&i.then_block, out);
            collect_in_block(&i.else_block, out);
        },
        Expression::Match(m) => {
            collect_from_expr(&m.scrutinee, out);
            collect_from_arms(&m.arms, out);
        },
        Expression::ArrowFn(a) => {
            collect_from_params(&a.params, out);
            match &a.body {
                ArrowBody::Expr(x) => collect_from_expr(x, out),
                ArrowBody::Block(b) => collect_in_block(b, out),
            }
        },
        Expression::ComptimeBlock { body, .. } => collect_in_block(body, out),
        Expression::TemplateLiteral(t) => collect_from_parts(&t.parts, out),
        Expression::EnumVariant(ev) => collect_from_exprs(&ev.args, out),
        _ => {},
    }
    assert(out@ =~= o.union(expr_combos(e)));
}

fn collect_from_exprs(v: &Vec<Expression>, out: &mut ComboSet)
    requires
        old(out).wf(),
    ensures
        final(out).wf(),
        final(out)@ == old(out)@.union(exprs_combos(v@)),
    decreases v,
{
    let mut i: usize = 0;
    proof {
        assert(v@.take(0) =~= Seq::<Expression>::empty());
        assert(out@ =~= old(out)@.union(exprs_combos(v@.take(0))));
    }
    while i < v.len()
        invariant
            i <= v@.len(),
            out.wf(),
            out@ == old(out)@.union(exprs_combos(v@.take(i as int))),
        decreases v@.len() - i,
    {
        collect_from_expr(&v[i], out);
        proof {
            assert(v@.take(i + 1).subrange(0, i as int) =~= v@.take(i as int));
            assert(out@ =~= old(out)@.union(exprs_combos(v@.take(i + 1))));
        }
        i = i + 1;
    }
    proof {
        assert(v@.take(v@.len() as int) =~= v@);
    }
}

fn collect_from_fields(v: &Vec<(String, Expression)>, out: &mut ComboSet)
    requires
        old(out).wf(),
    ensures
        final(out).wf(),
        final(out)@ == old(out)@.union(fields_combos(v@)),
    decreases v,
{
    let mut i: usize = 0;
    proof {
        assert(v@.take(0) =~= Seq::<(String, Expression)>::empty());
        assert(out@ =~= old(out)@.union(fields_combos(v@.take(0))));
    }
    while i < v.len()
        invariant
            i <= v@.len(),
            out.wf(),
            out@ == old(out)@.union(fields_combos(v@.take(i as int))),
        decreases v@.len() - i,
    {
        collect_from_expr(&v[i].1, out);
        proof {
            assert(v@.take(i + 1).subrange(0, i as int) =~= v@.take(i as int));
            assert(out@ =~= old(out)@.union(fields_combos(v@.take(i + 1))));
        }
        i = i + 1;
    }
    proof {
        assert(v@.take(v@.len() as int) =~= v@);
    }
}

fn collect_from_arms(v: &Vec<MatchArm>, out: &mut ComboSet)
    requires
        old(out).wf(),
    ensures
        final(out).wf(),
        final(out)@ == old(out)@.union(arms_combos(v@)),
    decreases v,
{
    let mut i: usize = 0;
    proof {
        assert(v@.take(0) =~= Seq::<MatchArm>::empty());
        assert(out@ =~= old(out)@.union(arms_combos(v@.take(0))));
    }
    while i < v.len()
        invariant
            i <= v@.len(),
            out.wf(),
            out@ == old(out)@.union(arms_combos(v@.take(i as int))),
        decreases v@.len() - i,
    {
        let arm = &v[i];
        match &arm.guard {
            Some(g) => collect_from_expr(g, out),
            None => {},
        }
        collect_in_block(&arm.body, out);
        proof {
            assert(v@.take(i + 1).subrange(0, i as int) =~= v@.take(i as int));
            assert(out@ =~= old(out)@.union(arms_combos(v@.take(i + 1))));
        }
        i = i + 1;
    }
    proof {
        assert(v@.take(v@.len() as int) =~= v@);
    }
}

fn collect_from_parts(v: &Vec<TemplatePart>, out: &mut ComboSet)
    requires
        old(out).wf(),
    ensures
        final(out).wf(),
        final(out)@ == old(out)@.union(parts_combos(v@)),
    decreases v,
{
    let mut i: usize = 0;
    proof {
        assert(v@.take(0) =~= Seq::<TemplatePart>::empty());
        assert(out@ =~= old(out)@.union(parts_combos(v@.take(0))));
    }
    while i < v.len()
        invariant
            i <= v@.len(),
            out.wf(),
            out@ == old(out)@.union(parts_combos(v@.take(i as int))),
        decreases v@.len() - i,
    {
        match &v[i] {
            TemplatePart::Interpolation(x) => collect_from_expr(x, out),
            TemplatePart::Static(_) => {},
        }
        proof {
            assert(v@.take(i + 1).subrange(0, i as int) =~= v@.take(i as int));
            assert(out@ =~= old(out)@.union(parts_combos(v@.take(i + 1))));
        }
        i = i + 1;
    }
    proof {
        assert(v@.take(v@.len() as int) =~= v@);
    }
}

/// Records the combinations named inside the expressions of a block.
fn collect_in_block(b: &Block, out: &mut ComboSet)
    requires
        old(out).wf(),
    ensures
        final(out).wf(),
        final(out)@ == old(out)@.union(block_combos(b)),
    decreases b,
{
    let v = &b.statements;
    let mut i: usize = 0;
    proof {
        assert(v@.take(0) =~= Seq::<Statement>::empty());
        assert(out@ =~= old(out)@.union(stmts_combos(v@.take(0))));
    }
    while i < v.len()
        invariant
            v == &b.statements,
            i <= v@.len(),
            out.wf(),
            out@ == old(out)@.union(stmts_combos(v@.take(i as int))),
        decreases v@.len() - i,
    {
        collect_in_stmt(&v[i], out);
        proof {
            assert(v@.take(i + 1).subrange(0, i as int) =~= v@.take(i as int));
            assert(out@ =~= old(out)@.union(stmts_combos(v@.take(i + 1))));
        }
        i = i + 1;
    }
    proof {
        assert(v@.take(v@.len() as int) =~= v@);
    }
}

fn collect_in_stmt(st: &Statement, out: &mut ComboSet)
    requires
        old(out).wf(),
    ensures
        final(out).wf(),
        final(out)@ == old(out)@.union(stmt_combos(st)),
    decreases st,
{
    let ghost o = out@;
    match st {
        Statement::Let(l) => collect_from_expr(&l.value, out),
        Statement::Const(l) => collect_from_expr(&l.value, out),
        Statement::Assign(a) => {
            collect_from_expr(&a.target, out);
            collect_from_expr(&a.value, out);
        },
        Statement::Return(r) => match &r.value {
            Some(v) => collect_from_expr(v, out),
            None => {},
        },
        Statement::If(i) => {
            collect_from_expr(&i.condition, out);
            collect_in_block(&i.then_block, out);
            match &i.else_block {
                Some(el) => collect_in_block(el, out),
                None => {},
            }
        },
        Statement::While(w) => {
            collect_from_expr(&w.condition, out);
            collect_in_block(&w.body, out);
        },
        Statement::For(fo) => {
            match &fo.kind {
                ForKind::Range { start, end } => {
                    collect_from_expr(start, out);
                    collect_from_expr(end, out);
                },
                ForKind::Iterable { iterable } => collect_from_expr(iterable, out),
            }
            collect_in_block(&fo.body, out);
        },
        Statement::Expression(x) => collect_from_expr(x, out),
        Statement::Defer(x) => collect_from_expr(x, out),
        Statement::Print(p) => {
            collect_from_exprs(&p.args, out);
            match &p.color {
                Some(c) => collect_from_expr(c, out),
                None => {},
            }
        },
        Statement::Spawn(b) => collect_in_block(b, out),
        Statement::Unsafe(b) => collect_in_block(b, out),
        Statement::Benchmark(b) => collect_in_block(b, out),
        _ => {},
    }
    assert(out@ =~= o.union(stmt_combos(st)));
}


/// Combinations a top-level statement of a function names: those of
/// [`stmt_combos`], and the declared type of a `let` / `const`.
pub open spec fn top_stmt_combos(st: &Statement) -> Set<Seq<Seq<char>>> {
    match st {
        Statement::Let(l) => match &l.ty {
            Some(t) => type_combos(t),
            None => Set::empty(),
        }.union(stmt_combos(st)),
        Statement::Const(l) => match &l.ty {
            Some(t) => type_combos(t),
            None => Set::empty(),
        }.union(stmt_combos(st)),
        _ => stmt_combos(st),
    }
}

/// Records the combinations of a top-level statement.
pub fn collect_from_stmt(st: &Statement, out: &mut ComboSet)
    requires
        old(out).wf(),
    ensures
        final(out).wf(),
        final(out)@ == old(out)@.union(top_stmt_combos(st)),
{
    let ghost o = out@;
    match st {
        Statement::Let(l) => match &l.ty {
            Some(t) => collect_from_type(t, out),
            None => {},
        },
        Statement::Const(l) => match &l.ty {
            Some(t) => collect_from_type(t, out),
            None => {},
        },
        _ => {},
    }
    collect_in_stmt(st, out);
    assert(out@ =~= o.union(top_stmt_combos(st)));
}

/// Combinations named by a list of top-level statements.
pub open spec fn top_stmts_combos(s: Seq<Statement>) -> Set<Seq<Seq<char>>>
    decreases s.len(),
{
    if s.len() == 0 {
        Set::empty()
    } else {
        top_stmts_combos(s.drop_last()).union(top_stmt_combos(&s.last()))
    }
}

/// Combinations a function names: parameter and return types, and its body.
pub open spec fn function_combos(f: &Function) -> Set<Seq<Seq<char>>> {
    params_combos(f.params@).union(
        match &f.return_type {
            Some(rt) => type_combos(rt),
            None => Set::empty(),
        },
    ).union(top_stmts_combos(f.body.statements@))
}

/// Records the combinations a function names.
pub fn collect_from_function(f: &Function, out: &mut ComboSet)
    requires
        old(out).wf(),
    ensures
        final(out).wf(),
        final(out)@ == old(out)@.union(function_combos(f)),
{
    let ghost o = out@;
    collect_from_params(&f.params, out);
    match &f.return_type {
        Some(rt) => collect_from_type(rt, out),
        None => {},
    }
    let ghost mid = out@;
    let v = &f.body.statements;
    let mut i: usize = 0;
    proof {
        assert(v@.take(0) =~= Seq::<Statement>::empty());
        assert(out@ =~= mid.union(top_stmts_combos(v@.take(0))));
    }
    while i < v.len()
        invariant
            v == &f.body.statements,
            i <= v@.len(),
            out.wf(),
            out@ == mid.union(top_stmts_combos(v@.take(i as int))),
        decreases v@.len() - i,
    {
        collect_from_stmt(&v[i], out);
        proof {
            assert(v@.take(i + 1).drop_last() =~= v@.take(i as int));
            assert(out@ =~= mid.union(top_stmts_combos(v@.take(i + 1))));
        }
        i = i + 1;
    }
    proof {
        assert(v@.take(v@.len() as int) =~= v@);
    }
    assert(out@ =~= o.union(function_combos(f)));
}

/// Union of `f` over the first `n` items of `s`.
pub open spec fn union_over<A>(s: Seq<A>, n: int, f: spec_fn(A) -> Set<Seq<Seq<char>>>) -> Set<Seq<Seq<char>>>
    decreases n,
{
    if n <= 0 || n > s.len() {
        Set::empty()
    } else {
        union_over(s, n - 1, f).union(f(s[n - 1]))
    }
}

/// Union of `f` over all of `s`.
pub open spec fn union_all<A>(s: Seq<A>, f: spec_fn(A) -> Set<Seq<Seq<char>>>) -> Set<Seq<Seq<char>>> {
    union_over(s, s.len() as int, f)
}

/// Combinations a program names anywhere: constants, struct fields, extern
/// and trait signatures, and every function and method.
pub open spec fn program_combos(p: &Program) -> Set<Seq<Seq<char>>> {
    union_all(p.consts@, |c: crate::ast::ConstDef| match &c.ty {
        Some(t) => type_combos(t),
        None => Set::empty(),
    }.union(expr_combos(&c.value)))
    .union(union_all(p.structs@, |sd: crate::ast::StructDef| union_all(sd.fields@, |fd: crate::ast::StructField| type_combos(&fd.ty))))
    .union(union_all(p.externs@, |x: crate::ast::ExternFn| params_combos(x.params@).union(match &x.return_type {
        Some(rt) => type_combos(rt),
        None => Set::empty(),
    })))
    .union(union_all(p.traits@, |t: crate::ast::TraitDef| union_all(t.methods@, |m: crate::ast::TraitMethodSig| params_combos(m.params@).union(match &m.return_type {
        Some(rt) => type_combos(rt),
        None => Set::empty(),
    }))))
    .union(union_all(p.trait_impls@, |ti: crate::ast::TraitImpl| union_all(ti.methods@, |f: Function| function_combos(&f))))
    .union(union_all(p.impls@, |im: crate::ast::ImplDef| union_all(im.methods@, |f: Function| function_combos(&f))))
    .union(union_all(p.functions@, |f: Function| function_combos(&f)))
}

fn collect_from_functions(v: &Vec<Function>, out: &mut ComboSet)
    requires
        old(out).wf(),
    ensures
        final(out).wf(),
        final(out)@ == old(out)@.union(union_all(v@, |f: Function| function_combos(&f))),
{
    let mut i: usize = 0;
    while i < v.len()
        invariant
            i <= v@.len(),
            out.wf(),
            out@ == old(out)@.union(union_over(v@, i as int, |f: Function| function_combos(&f))),
        decreases v@.len() - i,
    {
        collect_from_function(&v[i], out);
        proof {
            assert(out@ =~= old(out)@.union(union_over(v@, i + 1, |f: Function| function_combos(&f))));
        }
        i = i + 1;
    }
}

/// Every `dyn` trait combination that `program` names, in ascending order.
pub fn collect_dyn_trait_combos(program: &Program) -> (r: ComboSet)
    ensures
        r.wf(),
        r@ == program_combos(program),
{
    let mut out = ComboSet::new();
    let ghost fc = |c: crate::ast::ConstDef| match &c.ty {
        Some(t) => type_combos(t),
        None => Set::empty(),
    }.union(expr_combos(&c.value));
    let mut i: usize = 0;
    while i < program.consts.len()
        invariant
            i <= program.consts@.len(),
            out.wf(),
            fc == (|c: crate::ast::ConstDef| match &c.ty {
                Some(t) => type_combos(t),
                None => Set::empty(),
            }.union(expr_combos(&c.value))),
            out@ == union_over(program.consts@, i as int, fc),
        decreases program.consts@.len() - i,
    {
        let c = &program.consts[i];
        let ghost o = out@;
        match &c.ty {
            Some(t) => collect_from_type(t, &mut out),
            None => {},
        }
        collect_from_expr(&c.value, &mut out);
        proof {
            assert(out@ =~= o.union(fc(program.consts@[i as int])));
        }
        i = i + 1;
    }
    let ghost s1 = out@;
    let ghost fs = |sd: crate::ast::StructDef| union_all(sd.fields@, |fd: crate::ast::StructField| type_combos(&fd.ty));
    let mut i: usize = 0;
    while i < program.structs.len()
        invariant
            i <= program.structs@.len(),
            out.wf(),
            fs == (|sd: crate::ast::StructDef| union_all(sd.fields@, |fd: crate::ast::StructField| type_combos(&fd.ty))),
            out@ == s1.union(union_over(program.structs@, i as int, fs)),
        decreases program.structs@.len() - i,
    {
        let sd = &program.structs[i];
        let ghost o = out@;
        let mut k: usize = 0;
        while k < sd.fields.len()
            invariant
                k <= sd.fields@.len(),
                out.wf(),
                out@ == o.union(union_over(sd.fields@, k as int, |fd: crate::ast::StructField| type_combos(&fd.ty))),
            decreases sd.fields@.len() - k,
        {
            collect_from_type(&sd.fields[k].ty, &mut out);
            proof {
                assert(out@ =~= o.union(union_over(sd.fields@, k + 1, |fd: crate::ast::StructField| type_combos(&fd.ty))));
            }
            k = k + 1;
        }
        proof {
            assert(out@ =~= s1.union(union_over(program.structs@, i + 1, fs)));
        }
        i = i + 1;
    }
    let ghost s2 = out@;
    let ghost fx = |x: crate::ast::ExternFn| params_combos(x.params@).union(match &x.return_type {
        Some(rt) => type_combos(rt),
        None => Set::empty(),
    });
    let mut i: usize = 0;
    while i < program.externs.len()
        invariant
            i <= program.externs@.len(),
            out.wf(),
            fx == (|x: crate::ast::ExternFn| params_combos(x.params@).union(match &x.return_type {
                Some(rt) => type_combos(rt),
                None => Set::empty(),
            })),
            out@ == s2.union(union_over(program.externs@, i as int, fx)),
        decreases program.externs@.len() - i,
    {
        let x = &program.externs[i];
        let ghost o = out@;
        collect_from_params(&x.params, &mut out);
        match &x.return_type {
            Some(rt) => collect_from_type(rt, &mut out),
            None => {},
        }
        proof {
            assert(out@ =~= s2.union(union_over(program.externs@, i + 1, fx)));
        }
        i = i + 1;
    }
    let ghost s3 = out@;
    let ghost fm = |m: crate::ast::TraitMethodSig| params_combos(m.params@).union(match &m.return_type {
        Some(rt) => type_combos(rt),
        None => Set::empty(),
    });
    let ghost ft = |t: crate::ast::TraitDef| union_all(t.methods@, fm);
    let mut i: usize = 0;
    while i < program.traits.len()
        invariant
            i <= program.traits@.len(),
            out.wf(),
            fm == (|m: crate::ast::TraitMethodSig| params_combos(m.params@).union(match &m.return_type {
                Some(rt) => type_combos(rt),
                None => Set::empty(),
            })),
            ft == (|t: crate::ast::TraitDef| union_all(t.methods@, fm)),
            out@ == s3.union(union_over(program.traits@, i as int, ft)),
        decreases program.traits@.len() - i,
    {
        let t = &program.traits[i];
        let ghost o = out@;
        let mut k: usize = 0;
        while k < t.methods.len()
            invariant
                k <= t.methods@.len(),
                out.wf(),
                fm == (|m: crate::ast::TraitMethodSig| params_combos(m.params@).union(match &m.return_type {
                    Some(rt) => type_combos(rt),
                    None => Set::empty(),
                })),
                out@ == o.union(union_over(t.methods@, k as int, fm)),
            decreases t.methods@.len() - k,
        {
            let m = &t.methods[k];
            collect_from_params(&m.params, &mut out);
            match &m.return_type {
                Some(rt) => collect_from_type(rt, &mut out),
                None => {},
            }
            proof {
                assert(out@ =~= o.union(union_over(t.methods@, k + 1, fm)));
            }
            k = k + 1;
        }
        proof {
            assert(out@ =~= s3.union(union_over(program.traits@, i + 1, ft)));
        }
        i = i + 1;
    }
    let ghost s4 = out@;
    let ghost fti = |ti: crate::ast::TraitImpl| union_all(ti.methods@, |f: Function| function_combos(&f));
    let mut i: usize = 0;
    while i < program.trait_impls.len()
        invariant
            i <= program.trait_impls@.len(),
            out.wf(),
            fti == (|ti: crate::ast::TraitImpl| union_all(ti.methods@, |f: Function| function_combos(&f))),
            out@ == s4.union(union_over(program.trait_impls@, i as int, fti)),
        decreases program.trait_impls@.len() - i,
    {
        collect_from_functions(&program.trait_impls[i].methods, &mut out);
        proof {
            assert(out@ =~= s4.union(union_over(program.trait_impls@, i + 1, fti)));
        }
        i = i + 1;
    }
    let ghost s5 = out@;
    let ghost fim = |im: crate::ast::ImplDef| union_all(im.methods@, |f: Function| function_combos(&f));
    let mut i: usize = 0;
    while i < program.impls.len()
        invariant
            i <= program.impls@.len(),
            out.wf(),
            fim == (|im: crate::ast::ImplDef| union_all(im.methods@, |f: Function| function_combos(&f))),
            out@ == s5.union(union_over(program.impls@, i as int, fim)),
        decreases program.impls@.len() - i,
    {
        collect_from_functions(&program.impls[i].methods, &mut out);
        proof {
            assert(out@ =~= s5.union(union_over(program.impls@, i + 1, fim)));
        }
        i = i + 1;
    }
    collect_from_functions(&program.functions, &mut out);
    assert(out@ =~= program_combos(program));
    out
}


/// Does `program` implement every trait of `traits` for type `self_type`?
pub open spec fn implements_all(program: &Program, self_type: Seq<char>, traits: Seq<Seq<char>>) -> bool {
    forall|i: int| 0 <= i < traits.len() ==> #[trigger] has_impl(program, self_type, traits[i])
}

/// Does `program` hold `impl trait_name for self_type`?
pub open spec fn has_impl(program: &Program, self_type: Seq<char>, trait_name: Seq<char>) -> bool {
    exists|j: int| 0 <= j < program.trait_impls@.len()
        && (#[trigger] program.trait_impls@[j]).trait_name@ == trait_name
        && program.trait_impls@[j].self_type@ == self_type
}

pub fn type_implements_all_traits(program: &Program, self_type: &str, traits: &[String]) -> (r: bool)
    ensures
        r == implements_all(program, self_type@, texts(traits@)),
{
    let mut i: usize = 0;
    while i < traits.len()
        invariant
            i <= traits@.len(),
            forall|k: int| 0 <= k < i ==> #[trigger] has_impl(program, self_type@, texts(traits@)[k]),
        decreases traits@.len() - i,
    {
        let mut found = false;
        let mut j: usize = 0;
        while j < program.trait_impls.len()
            invariant
                i < traits@.len(),
                j <= program.trait_impls@.len(),
                found ==> has_impl(program, self_type@, traits@[i as int]@),
                !found ==> forall|m: int| 0 <= m < j ==> !((#[trigger] program.trait_impls@[m]).trait_name@ == traits@[i as int]@
                    && program.trait_impls@[m].self_type@ == self_type@),
            decreases program.trait_impls@.len() - j,
        {
            let ti = &program.trait_impls[j];
            if crate::text::str_eq(ti.trait_name.as_str(), traits[i].as_str()) && crate::text::str_eq(ti.self_type.as_str(), self_type) {
                found = true;
            }
            j = j + 1;
        }
        assert(texts(traits@)[i as int] == traits@[i as int]@);
        if !found {
            assert(!has_impl(program, self_type@, texts(traits@)[i as int]));
            return false;
        }
        i = i + 1;
    }
    true
}

/// A method of a trait combination, with the trait that declares it.
#[derive(Debug)]
pub struct ComboMethod<'a> {
    pub trait_name: String,
    pub method: &'a TraitMethodSig,
}

/// Index of the first trait declaration named `name`.
pub open spec fn first_trait(ts: Seq<TraitDef>, name: Seq<char>, i: int) -> Option<int>
    decreases ts.len() - i,
{
    if i < 0 || i >= ts.len() {
        None
    } else if ts[i].name@ == name {
        Some(i)
    } else {
        first_trait(ts, name, i + 1)
    }
}

/// Methods `ms[..k]` of trait `tname` added to (names seen, methods kept): a
/// method whose name was seen is skipped.
pub open spec fn add_methods(
    st: (Set<Seq<char>>, Seq<(Seq<char>, TraitMethodSig)>),
    tname: Seq<char>,
    ms: Seq<TraitMethodSig>,
    k: int,
) -> (Set<Seq<char>>, Seq<(Seq<char>, TraitMethodSig)>)
    decreases k,
{
    if k <= 0 || k > ms.len() {
        st
    } else {
        let p = add_methods(st, tname, ms, k - 1);
        if p.0.contains(ms[k - 1].name@) {
            p
        } else {
            (p.0.insert(ms[k - 1].name@), p.1.push((tname, ms[k - 1])))
        }
    }
}

/// The methods of the first `n` traits of a combination, first declaration of
/// each method name winning; traits without a declaration are skipped.
pub open spec fn combo_methods_upto(ts: Seq<TraitDef>, names: Seq<Seq<char>>, n: int) -> (Set<Seq<char>>, Seq<(Seq<char>, TraitMethodSig)>)
    decreases n,
{
    if n <= 0 || n > names.len() {
        (Set::empty(), seq![])
    } else {
        let p = combo_methods_upto(ts, names, n - 1);
        match first_trait(ts, names[n - 1], 0) {
            Some(t) => add_methods(p, names[n - 1], ts[t].methods@, ts[t].methods@.len() as int),
            None => p,
        }
    }
}

/// A combination method as plain values.
pub open spec fn combo_method_view(m: ComboMethod) -> (Seq<char>, TraitMethodSig) {
    (m.trait_name@, *m.method)
}

fn find_trait<'a>(program: &'a Program, name: &str) -> (r: Option<&'a TraitDef>)
    ensures
        match first_trait(program.traits@, name@, 0) {
            Some(t) => r == Some(&program.traits@[t]),
            None => r is None,
        },
{
    let mut i: usize = 0;
    while i < program.traits.len()
        invariant
            i <= program.traits@.len(),
            first_trait(program.traits@, name@, 0) == first_trait(program.traits@, name@, i as int),
        decreases program.traits@.len() - i,
    {
        if crate::text::str_eq(program.traits[i].name.as_str(), name) {
            return Some(&program.traits[i]);
        }
        i = i + 1;
    }
    None
}

/// The methods a combined vtable for `traits` holds (see [`combo_methods_upto`]).
pub fn combo_methods<'a>(program: &'a Program, traits: &[String]) -> (r: Vec<ComboMethod<'a>>)
    ensures
        r@.map_values(|m: ComboMethod| combo_method_view(m)) == combo_methods_upto(program.traits@, texts(traits@), traits@.len() as int).1,
{
    let mut seen = NameSet::new();
    let mut out: Vec<ComboMethod<'a>> = Vec::new();
    let ghost names = texts(traits@);
    let mut i: usize = 0;
    while i < traits.len()
        invariant
            names == texts(traits@),
            i <= traits@.len(),
            seen.wf(),
            seen@ == combo_methods_upto(program.traits@, names, i as int).0,
            out@.map_values(|m: ComboMethod| combo_method_view(m)) == combo_methods_upto(program.traits@, names, i as int).1,
        decreases traits@.len() - i,
    {
        let tname = &traits[i];
        assert(names[i as int] == tname@);
        match find_trait(program, tname.as_str()) {
            Some(t) => {
                let ghost st0 = combo_methods_upto(program.traits@, names, i as int);
                let mut k: usize = 0;
                while k < t.methods.len()
                    invariant
                        k <= t.methods@.len(),
                        seen.wf(),
                        seen@ == add_methods(st0, tname@, t.methods@, k as int).0,
                        out@.map_values(|m: ComboMethod| combo_method_view(m)) == add_methods(st0, tname@, t.methods@, k as int).1,
                    decreases t.methods@.len() - k,
                {
                    let m = &t.methods[k];
                    if !seen.contains(m.name.as_str()) {
                        seen.insert(m.name.as_str());
                        let ghost before = out@.map_values(|m: ComboMethod| combo_method_view(m));
                        out.push(ComboMethod { trait_name: tname.clone(), method: m });
                        proof {
                            assert(out@.map_values(|m: ComboMethod| combo_method_view(m)) =~= before.push((tname@, *m)));
                        }
                    }
                    k = k + 1;
                }
            },
            None => {},
        }
        i = i + 1;
    }
    out
}

} // verus!
