//! Inlay hints: inferred types after bindings and parameter names before arguments.
use vstd::prelude::*;
use crate::ast::{
    expr_span, spec_expr_span, Block, Expression, ForKind, Function, ImplDef, MatchArm, Program,
    Statement, TraitImpl,
};
use crate::names::{texts, NameMap};
use crate::span::Span;
use crate::text::str_eq;

verus! {

/// Kind of an inlay hint.
#[derive(Debug, Clone, Copy, PartialEq, Eq, Structural)]
pub enum InlayHintKind {
    Type,
    Parameter,
}

impl InlayHintKind {
    /// Rank used to order hints at the same position: parameter hints first.
    pub open spec fn rank(self) -> u8 {
        match self {
            InlayHintKind::Parameter => 0,
            InlayHintKind::Type => 1,
        }
    }

    pub fn cmp_rank(self) -> (r: u8)
        ensures
            r == self.rank(),
    {
        match self {
            InlayHintKind::Parameter => 0,
            InlayHintKind::Type => 1,
        }
    }
}

/// One inlay hint at a 0-based position.
#[derive(Debug)]
pub struct InlayHintInfo {
    pub line: u32,
    pub character: u32,
    pub label: String,
    pub kind: InlayHintKind,
}

impl Clone for InlayHintInfo {
    fn clone(&self) -> (r: Self)
        ensures
            r == *self,
    {
        InlayHintInfo {
            line: self.line,
            character: self.character,
            label: self.label.clone(),
            kind: self.kind,
        }
    }
}


/// An inlay hint as plain values: line, character, label and kind.
pub open spec fn hint_view(h: InlayHintInfo) -> (u32, u32, Seq<char>, InlayHintKind) {
    (h.line, h.character, h.label@, h.kind)
}

/// The hints of `v` as plain values.
pub open spec fn hints_view(v: Seq<InlayHintInfo>) -> Seq<(u32, u32, Seq<char>, InlayHintKind)> {
    v.map_values(|h: InlayHintInfo| hint_view(h))
}

/// Names of a function's parameters other than `self`.
pub open spec fn spec_param_names(f: &Function) -> Seq<Seq<char>> {
    f.params@.filter_map(|p: crate::ast::Param| if p.name@ == "self"@ { None } else { Some(p.name@) })
}

pub fn param_names(f: &Function) -> (r: Vec<String>)
    ensures
        texts(r@) == spec_param_names(f),
{
    let mut out: Vec<String> = Vec::new();
    let mut i: usize = 0;
    while i < f.params.len()
        invariant
            i <= f.params@.len(),
            texts(out@) == f.params@.take(i as int).filter_map(
                |p: crate::ast::Param| if p.name@ == "self"@ { None } else { Some(p.name@) },
            ),
        decreases f.params@.len() - i,
    {
        proof {
            assert(f.params@.take(i + 1).drop_last() =~= f.params@.take(i as int));
        }
        if !str_eq(f.params[i].name.as_str(), "self") {
            let ghost before = out@;
            out.push(f.params[i].name.clone());
            proof {
                assert(texts(out@) =~= texts(before) + seq![f.params@[i as int].name@]);
            }
        }
        i = i + 1;
    }
    proof {
        assert(f.params@.take(f.params@.len() as int) =~= f.params@);
    }
    out
}

/// The parameter-name hint before argument `arg` of parameter `name`: none for
/// names starting with `_`, for an argument that is a variable of that very
/// name, or for an argument without a location.
pub open spec fn arg_hint(arg: &Expression, name: Seq<char>) -> Seq<(u32, u32, Seq<char>, InlayHintKind)> {
    if name.len() == 0 || name[0] == '_' {
        seq![]
    } else if arg matches Expression::Variable { name: v, .. } && v@ == name {
        seq![]
    } else {
        match spec_expr_span(arg) {
            Some(sp) => if sp.start.line == 0 {
                seq![]
            } else {
                seq![(
                    (sp.start.line - 1) as u32,
                    (if sp.start.column == 0 { 0 } else { sp.start.column - 1 }) as u32,
                    name + ":"@,
                    InlayHintKind::Parameter,
                )]
            },
            None => seq![],
        }
    }
}

/// Parameter-name hints for arguments `i..` of a call whose parameters are `names`.
pub open spec fn arg_hints(args: Seq<Expression>, names: Seq<Seq<char>>, i: int) -> Seq<(u32, u32, Seq<char>, InlayHintKind)>
    decreases args.len() - i,
{
    if i < 0 || i >= args.len() || i >= names.len() {
        seq![]
    } else {
        arg_hint(&args[i], names[i]) + arg_hints(args, names, i + 1)
    }
}

/// Appends the parameter-name hints for `args`, given the callee's parameter names.
pub fn push_arg_hints(args: &Vec<Expression>, names: &Vec<String>, out: &mut Vec<InlayHintInfo>)
    ensures
        hints_view(final(out)@) == hints_view(old(out)@) + arg_hints(args@, texts(names@), 0),
{
    let ghost nm = texts(names@);
    let mut i: usize = 0;
    while i < args.len()
        invariant_except_break
            hints_view(out@) + arg_hints(args@, nm, i as int) == hints_view(old(out)@) + arg_hints(args@, nm, 0),
        invariant
            nm == texts(names@),
            i <= args@.len(),
        ensures
            hints_view(out@) == hints_view(old(out)@) + arg_hints(args@, nm, 0),
        decreases args@.len() - i,
    {
        if i >= names.len() {
            assert(arg_hints(args@, nm, i as int) =~= seq![]);
            assert(hints_view(out@) + seq![] =~= hints_view(out@));
            break;
        }
        let name = &names[i];
        let arg = &args[i];
        let ghost before = hints_view(out@);
        let skip_name = match crate::text::first_char(name.as_str()) {
            Some(c) => c == '_',
            None => true,
        };
        let same_var = match arg {
            Expression::Variable { name: v, .. } => str_eq(v.as_str(), name.as_str()),
            _ => false,
        };
        if !skip_name && !same_var {
            let sp = expr_span(arg);
            if sp.start.line != 0 {
                let col: usize = if sp.start.column == 0 { 0 } else { sp.start.column - 1 };
                let h = InlayHintInfo {
                    line: (sp.start.line - 1) as u32,
                    character: col as u32,
                    label: name.clone().concat(":"),
                    kind: InlayHintKind::Parameter,
                };
                out.push(h);
                proof {
                    assert(hints_view(out@) =~= before.push(hint_view(h)));
                    assert(arg_hint(&args@[i as int], nm[i as int]) =~= seq![hint_view(h)]);
                }
            } else {
                assert(arg_hint(&args@[i as int], nm[i as int]) =~= seq![]);
            }
        } else {
            assert(arg_hint(&args@[i as int], nm[i as int]) =~= seq![]);
        }
        proof {
            assert(arg_hints(args@, nm, i as int) == arg_hint(&args@[i as int], nm[i as int]) + arg_hints(args@, nm, i + 1));
            assert(hints_view(out@) + arg_hints(args@, nm, i + 1) =~= before + arg_hints(args@, nm, i as int));
        }
        i = i + 1;
        if i == args.len() {
            proof {
                assert(arg_hints(args@, nm, i as int) =~= seq![]);
                assert(hints_view(out@) + seq![] =~= hints_view(out@));
            }
        }
    }
}


/// A table of parameter names per callee, as texts.
pub open spec fn param_table(t: &NameMap<Vec<String>>) -> Map<Seq<char>, Seq<Seq<char>>> {
    t@.map_values(|v: Vec<String>| texts(v@))
}

/// Hints for a call of `callee` with `args`, when its parameters are known.
pub open spec fn call_hints(callee: Seq<char>, args: Seq<Expression>, m: Map<Seq<char>, Seq<Seq<char>>>) -> Seq<(u32, u32, Seq<char>, InlayHintKind)> {
    if m.contains_key(callee) {
        arg_hints(args, m[callee], 0)
    } else {
        seq![]
    }
}

/// Parameter-name hints of the calls inside an expression, in visiting order.
pub open spec fn hints_expr(e: &Expression, m: Map<Seq<char>, Seq<Seq<char>>>) -> Seq<(u32, u32, Seq<char>, InlayHintKind)>
    decreases e,
{
    match e {
        Expression::Call(c) => call_hints(c.callee@, c.args@, m) + hints_exprs(c.args@, m),
        Expression::MethodCall(mc) => call_hints(mc.method@, mc.args@, m) + hints_expr(&mc.object, m)
            + hints_exprs(mc.args@, m),
        Expression::Binary(b) => hints_expr(&b.left, m) + hints_expr(&b.right, m),
        Expression::Unary(u) => hints_expr(&u.operand, m),
        Expression::Grouped(g) => hints_expr(g, m),
        Expression::Await(g) => hints_expr(g, m),
        Expression::FieldAccess(f) => hints_expr(&f.object, m),
        Expression::Index(ix) => hints_expr(&ix.object, m) + hints_expr(&ix.index, m),
        Expression::StructLiteral(sl) => hints_fields(sl.fields@, m),
        Expression::ArrayLiteral(a) => hints_exprs(a.elems@, m),
        Expression::TupleLiteral(es) => hints_exprs(es@, m),
        Expression::Cast(c) => hints_expr(&c.expr, m),
        Expression::If(i) => hints_expr(&i.condition, m) + hints_block(&i.then_block, m) + hints_block(&i.else_block, m),
        Expression::Match(mt) => hints_expr(&mt.scrutinee, m) + hints_arms(mt.arms@, m),
        _ => seq![],
    }
}

pub open spec fn hints_exprs(s: Seq<Expression>, m: Map<Seq<char>, Seq<Seq<char>>>) -> Seq<(u32, u32, Seq<char>, InlayHintKind)>
    decreases s,
{
    if s.len() == 0 {
        seq![]
    } else {
        hints_exprs(s.subrange(0, s.len() - 1), m) + hints_expr(&s[s.len() - 1], m)
    }
}

pub open spec fn hints_fields(s: Seq<(String, Expression)>, m: Map<Seq<char>, Seq<Seq<char>>>) -> Seq<(u32, u32, Seq<char>, InlayHintKind)>
    decreases s,
{
    if s.len() == 0 {
        seq![]
    } else {
        hints_fields(s.subrange(0, s.len() - 1), m) + hints_expr(&s[s.len() - 1].1, m)
    }
}

pub open spec fn hints_arms(s: Seq<MatchArm>, m: Map<Seq<char>, Seq<Seq<char>>>) -> Seq<(u32, u32, Seq<char>, InlayHintKind)>
    decreases s,
{
    if s.len() == 0 {
        seq![]
    } else {
        hints_arms(s.subrange(0, s.len() - 1), m) + hints_block(&s[s.len() - 1].body, m)
    }
}

/// Hints of the expressions of a block, statement by statement.
pub open spec fn hints_block(b: &Block, m: Map<Seq<char>, Seq<Seq<char>>>) -> Seq<(u32, u32, Seq<char>, InlayHintKind)>
    decreases b,
{
    hints_stmts(b.statements@, m)
}

pub open spec fn hints_stmts(s: Seq<Statement>, m: Map<Seq<char>, Seq<Seq<char>>>) -> Seq<(u32, u32, Seq<char>, InlayHintKind)>
    decreases s,
{
    if s.len() == 0 {
        seq![]
    } else {
        hints_stmts(s.subrange(0, s.len() - 1), m) + hints_stmt(&s[s.len() - 1], m)
    }
}

/// Hints of the expressions of a statement and of its nested blocks.
pub open spec fn hints_stmt(st: &Statement, m: Map<Seq<char>, Seq<Seq<char>>>) -> Seq<(u32, u32, Seq<char>, InlayHintKind)>
    decreases st,
{
    match st {
        Statement::Let(l) => hints_expr(&l.value, m),
        Statement::Const(l) => hints_expr(&l.value, m),
        Statement::Assign(a) => hints_expr(&a.target, m) + hints_expr(&a.value, m),
        Statement::Return(r) => match &r.value {
            Some(v) => hints_expr(v, m),
            None => seq![],
        },
        Statement::If(i) => hints_expr(&i.condition, m) + hints_block(&i.then_block, m) + match &i.else_block {
            Some(el) => hints_block(el, m),
            None => seq![],
        },
        Statement::While(w) => hints_expr(&w.condition, m) + hints_block(&w.body, m),
        Statement::For(fo) => (match &fo.kind {
            ForKind::Range { start, end } => hints_expr(start, m) + hints_expr(end, m),
            ForKind::Iterable { iterable } => hints_expr(iterable, m),
        }) + hints_block(&fo.body, m),
        Statement::Expression(x) => hints_expr(x, m),
        Statement::Defer(x) => hints_expr(x, m),
        Statement::Print(p) => hints_exprs(p.args@, m) + match &p.color {
            Some(c) => hints_expr(c, m),
            None => seq![],
        },
        Statement::Spawn(b) => hints_block(b, m),
        Statement::Unsafe(b) => hints_block(b, m),
        Statement::Benchmark(b) => hints_block(b, m),
        _ => seq![],
    }
}

/// `out` grew by exactly `h`.
pub open spec fn grew(old: Seq<InlayHintInfo>, new: Seq<InlayHintInfo>, h: Seq<(u32, u32, Seq<char>, InlayHintKind)>) -> bool {
    hints_view(new) == hints_view(old) + h
}

proof fn lemma_grew_trans(
    a: Seq<InlayHintInfo>,
    b: Seq<InlayHintInfo>,
    c: Seq<InlayHintInfo>,
    x: Seq<(u32, u32, Seq<char>, InlayHintKind)>,
    y: Seq<(u32, u32, Seq<char>, InlayHintKind)>,
)
    requires
        grew(a, b, x),
        grew(b, c, y),
    ensures
        grew(a, c, x + y),
{
    assert(hints_view(a) + x + y =~= hints_view(a) + (x + y));
}

proof fn lemma_grew_refl(a: Seq<InlayHintInfo>)
    ensures
        grew(a, a, seq![]),
{
    assert(hints_view(a) + seq![] =~= hints_view(a));
}

fn push_call_hints(callee: &str, args: &Vec<Expression>, fn_params: &NameMap<Vec<String>>, out: &mut Vec<InlayHintInfo>)
    requires
        fn_params.wf(),
    ensures
        grew(old(out)@, final(out)@, call_hints(callee@, args@, param_table(fn_params))),
{
    match fn_params.get(callee) {
        Some(names) => push_arg_hints(args, names, out),
        None => {
            proof {
                lemma_grew_refl(out@);
            }
        },
    }
}

/// Appends the parameter-name hints of the calls inside an expression.
pub fn collect_call_param_hints(e: &Expression, fn_params: &NameMap<Vec<String>>, out: &mut Vec<InlayHintInfo>)
    requires
        fn_params.wf(),
    ensures
        grew(old(out)@, final(out)@, hints_expr(e, param_table(fn_params))),
    decreases e,
{
    let ghost m = param_table(fn_params);
    let ghost o0 = out@;
    match e {
        Expression::Call(c) => {
            push_call_hints(c.callee.as_str(), &c.args, fn_params, out);
            let ghost o1 = out@;
            hints_in_exprs(&c.args, fn_params, out);
            proof {
                lemma_grew_trans(o0, o1, out@, call_hints(c.callee@, c.args@, m), hints_exprs(c.args@, m));
            }
        },
        Expression::MethodCall(mc) => {
            push_call_hints(mc.method.as_str(), &mc.args, fn_params, out);
            let ghost o1 = out@;
            collect_call_param_hints(&mc.object, fn_params, out);
            let ghost o2 = out@;
            proof {
                lemma_grew_trans(o0, o1, o2, call_hints(mc.method@, mc.args@, m), hints_expr(&mc.object, m));
            }
            hints_in_exprs(&mc.args, fn_params, out);
            proof {
                lemma_grew_trans(
                    o0,
                    o2,
                    out@,
                    call_hints(mc.method@, mc.args@, m) + hints_expr(&mc.object, m),
                    hints_exprs(mc.args@, m),
                );
            }
        },
        Expression::Binary(b) => {
            collect_call_param_hints(&b.left, fn_params, out);
            let ghost o1 = out@;
            collect_call_param_hints(&b.right, fn_params, out);
            proof {
                lemma_grew_trans(o0, o1, out@, hints_expr(&b.left, m), hints_expr(&b.right, m));
            }
        },
        Expression::Unary(u) => collect_call_param_hints(&u.operand, fn_params, out),
        Expression::Grouped(g) => collect_call_param_hints(g, fn_params, out),
        Expression::Await(g) => collect_call_param_hints(g, fn_params, out),
        Expression::FieldAccess(f) => collect_call_param_hints(&f.object, fn_params, out),
        Expression::Index(ix) => {
            collect_call_param_hints(&ix.object, fn_params, out);
            let ghost o1 = out@;
            collect_call_param_hints(&ix.index, fn_params, out);
            proof {
                lemma_grew_trans(o0, o1, out@, hints_expr(&ix.object, m), hints_expr(&ix.index, m));
            }
        },
        Expression::StructLiteral(sl) => hints_in_fields(&sl.fields, fn_params, out),
        Expression::ArrayLiteral(a) => hints_in_exprs(&a.elems, fn_params, out),
        Expression::TupleLiteral(es) => hints_in_exprs(es, fn_params, out),
        Expression::Cast(c) => collect_call_param_hints(&c.expr, fn_params, out),
        Expression::If(i) => {
            collect_call_param_hints(&i.condition, fn_params, out);
            let ghost o1 = out@;
            hints_in_block(&i.then_block, fn_params, out);
            let ghost o2 = out@;
            proof {
                lemma_grew_trans(o0, o1, o2, hints_expr(&i.condition, m), hints_block(&i.then_block, m));
            }
            hints_in_block(&i.else_block, fn_params, out);
            proof {
                lemma_grew_trans(
                    o0,
                    o2,
                    out@,
                    hints_expr(&i.condition, m) + hints_block(&i.then_block, m),
                    hints_block(&i.else_block, m),
                );
            }
        },
        Expression::Match(mt) => {
            collect_call_param_hints(&mt.scrutinee, fn_params, out);
            let ghost o1 = out@;
            hints_in_arms(&mt.arms, fn_params, out);
            proof {
                lemma_grew_trans(o0, o1, out@, hints_expr(&mt.scrutinee, m), hints_arms(mt.arms@, m));
            }
        },
        _ => {
            proof {
                lemma_grew_refl(out@);
            }
        },
    }
}

fn hints_in_exprs(v: &Vec<Expression>, fn_params: &NameMap<Vec<String>>, out: &mut Vec<InlayHintInfo>)
    requires
        fn_params.wf(),
    ensures
        grew(old(out)@, final(out)@, hints_exprs(v@, param_table(fn_params))),
    decreases v,
{
    let ghost o0 = out@;
    let mut i: usize = 0;
    proof {
        lemma_grew_refl(out@);
        assert(v@.take(0) =~= Seq::<Expression>::empty());
    }
    while i < v.len()
        invariant
            fn_params.wf(),
            i <= v@.len(),
            grew(o0, out@, hints_exprs(v@.take(i as int), param_table(fn_params))),
        decreases v@.len() - i,
    {
        let ghost o1 = out@;
        collect_call_param_hints(&v[i], fn_params, out);
        proof {
            assert(v@.take(i + 1).subrange(0, i as int) =~= v@.take(i as int));
            lemma_grew_trans(o0, o1, out@, hints_exprs(v@.take(i as int), param_table(fn_params)), hints_expr(&v@[i as int], param_table(fn_params)));
        }
        i = i + 1;
    }
    proof {
        assert(v@.take(v@.len() as int) =~= v@);
    }
}

fn hints_in_fields(v: &Vec<(String, Expression)>, fn_params: &NameMap<Vec<String>>, out: &mut Vec<InlayHintInfo>)
    requires
        fn_params.wf(),
    ensures
        grew(old(out)@, final(out)@, hints_fields(v@, param_table(fn_params))),
    decreases v,
{
    let ghost o0 = out@;
    let mut i: usize = 0;
    proof {
        lemma_grew_refl(out@);
        assert(v@.take(0) =~= Seq::<(String, Expression)>::empty());
    }
    while i < v.len()
        invariant
            fn_params.wf(),
            i <= v@.len(),
            grew(o0, out@, hints_fields(v@.take(i as int), param_table(fn_params))),
        decreases v@.len() - i,
    {
        let ghost o1 = out@;
        collect_call_param_hints(&v[i].1, fn_params, out);
        proof {
            assert(v@.take(i + 1).subrange(0, i as int) =~= v@.take(i as int));
            lemma_grew_trans(o0, o1, out@, hints_fields(v@.take(i as int), param_table(fn_params)), hints_expr(&v@[i as int].1, param_table(fn_params)));
        }
        i = i + 1;
    }
    proof {
        assert(v@.take(v@.len() as int) =~= v@);
    }
}

fn hints_in_arms(v: &Vec<MatchArm>, fn_params: &NameMap<Vec<String>>, out: &mut Vec<InlayHintInfo>)
    requires
        fn_params.wf(),
    ensures
        grew(old(out)@, final(out)@, hints_arms(v@, param_table(fn_params))),
    decreases v,
{
    let ghost o0 = out@;
    let mut i: usize = 0;
    proof {
        lemma_grew_refl(out@);
        assert(v@.take(0) =~= Seq::<MatchArm>::empty());
    }
    while i < v.len()
        invariant
            fn_params.wf(),
            i <= v@.len(),
            grew(o0, out@, hints_arms(v@.take(i as int), param_table(fn_params))),
        decreases v@.len() - i,
    {
        let ghost o1 = out@;
        hints_in_block(&v[i].body, fn_params, out);
        proof {
            assert(v@.take(i + 1).subrange(0, i as int) =~= v@.take(i as int));
            lemma_grew_trans(o0, o1, out@, hints_arms(v@.take(i as int), param_table(fn_params)), hints_block(&v@[i as int].body, param_table(fn_params)));
        }
        i = i + 1;
    }
    proof {
        assert(v@.take(v@.len() as int) =~= v@);
    }
}

/// Appends the hints of the expressions of a block (`for_each_expr_in_block`).
pub fn hints_in_block(b: &Block, fn_params: &NameMap<Vec<String>>, out: &mut Vec<InlayHintInfo>)
    requires
        fn_params.wf(),
    ensures
        grew(old(out)@, final(out)@, hints_block(b, param_table(fn_params))),
    decreases b,
{
    let v = &b.statements;
    let ghost o0 = out@;
    let mut i: usize = 0;
    proof {
        lemma_grew_refl(out@);
        assert(v@.take(0) =~= Seq::<Statement>::empty());
    }
    while i < v.len()
        invariant
            v == &b.statements,
            fn_params.wf(),
            i <= v@.len(),
            grew(o0, out@, hints_stmts(v@.take(i as int), param_table(fn_params))),
        decreases v@.len() - i,
    {
        let ghost o1 = out@;
        hints_in_stmt(&v[i], fn_params, out);
        proof {
            assert(v@.take(i + 1).subrange(0, i as int) =~= v@.take(i as int));
            lemma_grew_trans(o0, o1, out@, hints_stmts(v@.take(i as int), param_table(fn_params)), hints_stmt(&v@[i as int], param_table(fn_params)));
        }
        i = i + 1;
    }
    proof {
        assert(v@.take(v@.len() as int) =~= v@);
    }
}

fn hints_in_opt(o: &Option<Expression>, fn_params: &NameMap<Vec<String>>, out: &mut Vec<InlayHintInfo>)
    requires
        fn_params.wf(),
    ensures
        grew(old(out)@, final(out)@, match o {
            Some(x) => hints_expr(x, param_table(fn_params)),
            None => seq![],
        }),
    decreases o,
{
    match o {
        Some(x) => collect_call_param_hints(x, fn_params, out),
        None => {
            proof {
                lemma_grew_refl(out@);
            }
        },
    }
}

fn hints_in_stmt(st: &Statement, fn_params: &NameMap<Vec<String>>, out: &mut Vec<InlayHintInfo>)
    requires
        fn_params.wf(),
    ensures
        grew(old(out)@, final(out)@, hints_stmt(st, param_table(fn_params))),
    decreases st,
{
    let ghost m = param_table(fn_params);
    let ghost o0 = out@;
    match st {
        Statement::Let(l) => collect_call_param_hints(&l.value, fn_params, out),
        Statement::Const(l) => collect_call_param_hints(&l.value, fn_params, out),
        Statement::Assign(a) => {
            collect_call_param_hints(&a.target, fn_params, out);
            let ghost o1 = out@;
            collect_call_param_hints(&a.value, fn_params, out);
            proof {
                lemma_grew_trans(o0, o1, out@, hints_expr(&a.target, m), hints_expr(&a.value, m));
            }
        },
        Statement::Return(r) => hints_in_opt(&r.value, fn_params, out),
        Statement::If(i) => {
            collect_call_param_hints(&i.condition, fn_params, out);
            let ghost o1 = out@;
            hints_in_block(&i.then_block, fn_params, out);
            let ghost o2 = out@;
            proof {
                lemma_grew_trans(o0, o1, o2, hints_expr(&i.condition, m), hints_block(&i.then_block, m));
            }
            match &i.else_block {
                Some(el) => hints_in_block(el, fn_params, out),
                None => {
                    proof {
                        lemma_grew_refl(out@);
                    }
                },
            }
            proof {
                lemma_grew_trans(
                    o0,
                    o2,
                    out@,
                    hints_expr(&i.condition, m) + hints_block(&i.then_block, m),
                    match &i.else_block {
                        Some(el) => hints_block(el, m),
                        None => seq![],
                    },
                );
            }
        },
        Statement::While(w) => {
            collect_call_param_hints(&w.condition, fn_params, out);
            let ghost o1 = out@;
            hints_in_block(&w.body, fn_params, out);
            proof {
                lemma_grew_trans(o0, o1, out@, hints_expr(&w.condition, m), hints_block(&w.body, m));
            }
        },
        Statement::For(fo) => {
            let ghost hk = match &fo.kind {
                ForKind::Range { start, end } => hints_expr(start, m) + hints_expr(end, m),
                ForKind::Iterable { iterable } => hints_expr(iterable, m),
            };
            match &fo.kind {
                ForKind::Range { start, end } => {
                    collect_call_param_hints(start, fn_params, out);
                    let ghost oa = out@;
                    collect_call_param_hints(end, fn_params, out);
                    proof {
                        lemma_grew_trans(o0, oa, out@, hints_expr(start, m), hints_expr(end, m));
                    }
                },
                ForKind::Iterable { iterable } => collect_call_param_hints(iterable, fn_params, out),
            }
            let ghost o1 = out@;
            hints_in_block(&fo.body, fn_params, out);
            proof {
                lemma_grew_trans(o0, o1, out@, hk, hints_block(&fo.body, m));
            }
        },
        Statement::Expression(x) => collect_call_param_hints(x, fn_params, out),
        Statement::Defer(x) => collect_call_param_hints(x, fn_params, out),
        Statement::Print(p) => {
            hints_in_exprs(&p.args, fn_params, out);
            let ghost o1 = out@;
            hints_in_opt(&p.color, fn_params, out);
            proof {
                lemma_grew_trans(o0, o1, out@, hints_exprs(p.args@, m), match &p.color {
                    Some(c) => hints_expr(c, m),
                    None => seq![],
                });
            }
        },
        Statement::Spawn(b) => hints_in_block(b, fn_params, out),
        Statement::Unsafe(b) => hints_in_block(b, fn_params, out),
        Statement::Benchmark(b) => hints_in_block(b, fn_params, out),
        _ => {
            proof {
                lemma_grew_refl(out@);
            }
        },
    }
}


/// Parameter table after registering free functions by name.
pub open spec fn table_functions(fs: Seq<Function>, m: Map<Seq<char>, Seq<Seq<char>>>) -> Map<Seq<char>, Seq<Seq<char>>>
    decreases fs.len(),
{
    if fs.len() == 0 {
        m
    } else {
        table_functions(fs.drop_last(), m).insert(fs.last().name@, spec_param_names(&fs.last()))
    }
}

/// Parameter table after registering the methods of an `impl` of type `ty`:
/// by bare name, and as `Type_method` unless that is taken.
pub open spec fn table_impl_methods(ty: Seq<char>, ms: Seq<Function>, m: Map<Seq<char>, Seq<Seq<char>>>) -> Map<Seq<char>, Seq<Seq<char>>>
    decreases ms.len(),
{
    if ms.len() == 0 {
        m
    } else {
        let f = ms.last();
        let m1 = table_impl_methods(ty, ms.drop_last(), m).insert(f.name@, spec_param_names(&f));
        let key = ty + "_"@ + f.name@;
        if m1.contains_key(key) {
            m1
        } else {
            m1.insert(key, spec_param_names(&f))
        }
    }
}

pub open spec fn table_impls(is: Seq<ImplDef>, m: Map<Seq<char>, Seq<Seq<char>>>) -> Map<Seq<char>, Seq<Seq<char>>>
    decreases is.len(),
{
    if is.len() == 0 {
        m
    } else {
        table_impl_methods(is.last().self_type@, is.last().methods@, table_impls(is.drop_last(), m))
    }
}

/// Parameter table after registering the methods of `impl Trait for Type`:
/// by bare name and as `Trait_Type_method`.
pub open spec fn table_trait_methods(tn: Seq<char>, ty: Seq<char>, ms: Seq<Function>, m: Map<Seq<char>, Seq<Seq<char>>>) -> Map<Seq<char>, Seq<Seq<char>>>
    decreases ms.len(),
{
    if ms.len() == 0 {
        m
    } else {
        let f = ms.last();
        table_trait_methods(tn, ty, ms.drop_last(), m).insert(f.name@, spec_param_names(&f)).insert(
            tn + "_"@ + ty + "_"@ + f.name@,
            spec_param_names(&f),
        )
    }
}

pub open spec fn table_trait_impls(ts: Seq<TraitImpl>, m: Map<Seq<char>, Seq<Seq<char>>>) -> Map<Seq<char>, Seq<Seq<char>>>
    decreases ts.len(),
{
    if ts.len() == 0 {
        m
    } else {
        let t = ts.last();
        table_trait_methods(t.trait_name@, t.self_type@, t.methods@, table_trait_impls(ts.drop_last(), m))
    }
}

/// Parameter names of every callable of a program, by the names calls use.
pub open spec fn program_param_table(p: &Program) -> Map<Seq<char>, Seq<Seq<char>>> {
    table_trait_impls(p.trait_impls@, table_impls(p.impls@, table_functions(p.functions@, Map::empty())))
}

/// Hints of the bodies of a list of functions.
pub open spec fn hints_functions(fs: Seq<Function>, m: Map<Seq<char>, Seq<Seq<char>>>) -> Seq<(u32, u32, Seq<char>, InlayHintKind)>
    decreases fs.len(),
{
    if fs.len() == 0 {
        seq![]
    } else {
        hints_functions(fs.drop_last(), m) + hints_block(&fs.last().body, m)
    }
}

pub open spec fn hints_impls(is: Seq<ImplDef>, m: Map<Seq<char>, Seq<Seq<char>>>) -> Seq<(u32, u32, Seq<char>, InlayHintKind)>
    decreases is.len(),
{
    if is.len() == 0 {
        seq![]
    } else {
        hints_impls(is.drop_last(), m) + hints_functions(is.last().methods@, m)
    }
}

pub open spec fn hints_trait_impls(ts: Seq<TraitImpl>, m: Map<Seq<char>, Seq<Seq<char>>>) -> Seq<(u32, u32, Seq<char>, InlayHintKind)>
    decreases ts.len(),
{
    if ts.len() == 0 {
        seq![]
    } else {
        hints_trait_impls(ts.drop_last(), m) + hints_functions(ts.last().methods@, m)
    }
}

/// Parameter-name hints of a program: functions, then `impl` methods, then
/// trait `impl` methods.
pub open spec fn program_param_hints(p: &Program) -> Seq<(u32, u32, Seq<char>, InlayHintKind)> {
    let m = program_param_table(p);
    hints_functions(p.functions@, m) + hints_impls(p.impls@, m) + hints_trait_impls(p.trait_impls@, m)
}

fn table_insert(t: &mut NameMap<Vec<String>>, key: &str, names: Vec<String>)
    requires
        old(t).wf(),
    ensures
        final(t).wf(),
        param_table(final(t)) == param_table(old(t)).insert(key@, texts(names@)),
{
    let ghost nv = texts(names@);
    t.insert(key, names);
    assert(param_table(t) =~= param_table(old(t)).insert(key@, nv));
}

fn register_impl_methods(t: &mut NameMap<Vec<String>>, ty: &str, ms: &Vec<Function>)
    requires
        old(t).wf(),
    ensures
        final(t).wf(),
        param_table(final(t)) == table_impl_methods(ty@, ms@, param_table(old(t))),
{
    let ghost m0 = param_table(t);
    let mut i: usize = 0;
    while i < ms.len()
        invariant
            t.wf(),
            i <= ms@.len(),
            param_table(t) == table_impl_methods(ty@, ms@.take(i as int), m0),
        decreases ms@.len() - i,
    {
        let f = &ms[i];
        proof {
            assert(ms@.take(i + 1).drop_last() =~= ms@.take(i as int));
        }
        table_insert(t, f.name.as_str(), param_names(f));
        let key = String::from_str(ty).concat("_").concat(f.name.as_str());
        if !t.contains_key(key.as_str()) {
            table_insert(t, key.as_str(), param_names(f));
        }
        proof {
            assert(t@.contains_key(key@) == param_table(t).contains_key(key@));
        }
        i = i + 1;
    }
    proof {
        assert(ms@.take(ms@.len() as int) =~= ms@);
    }
}

fn register_trait_impl_params(t: &mut NameMap<Vec<String>>, ti: &TraitImpl)
    requires
        old(t).wf(),
    ensures
        final(t).wf(),
        param_table(final(t)) == table_trait_methods(ti.trait_name@, ti.self_type@, ti.methods@, param_table(old(t))),
{
    let ghost m0 = param_table(t);
    let ms = &ti.methods;
    let mut i: usize = 0;
    while i < ms.len()
        invariant
            ms == &ti.methods,
            t.wf(),
            i <= ms@.len(),
            param_table(t) == table_trait_methods(ti.trait_name@, ti.self_type@, ms@.take(i as int), m0),
        decreases ms@.len() - i,
    {
        let f = &ms[i];
        proof {
            assert(ms@.take(i + 1).drop_last() =~= ms@.take(i as int));
        }
        table_insert(t, f.name.as_str(), param_names(f));
        let key = ti.trait_name.clone().concat("_").concat(ti.self_type.as_str()).concat("_").concat(f.name.as_str());
        table_insert(t, key.as_str(), param_names(f));
        i = i + 1;
    }
    proof {
        assert(ms@.take(ms@.len() as int) =~= ms@);
    }
}

fn hints_in_functions(fs: &Vec<Function>, fn_params: &NameMap<Vec<String>>, out: &mut Vec<InlayHintInfo>)
    requires
        fn_params.wf(),
    ensures
        grew(old(out)@, final(out)@, hints_functions(fs@, param_table(fn_params))),
{
    let ghost o0 = out@;
    let mut i: usize = 0;
    proof {
        lemma_grew_refl(out@);
        assert(fs@.take(0) =~= Seq::<Function>::empty());
    }
    while i < fs.len()
        invariant
            fn_params.wf(),
            i <= fs@.len(),
            grew(o0, out@, hints_functions(fs@.take(i as int), param_table(fn_params))),
        decreases fs@.len() - i,
    {
        let ghost o1 = out@;
        hints_in_block(&fs[i].body, fn_params, out);
        proof {
            assert(fs@.take(i + 1).drop_last() =~= fs@.take(i as int));
            lemma_grew_trans(o0, o1, out@, hints_functions(fs@.take(i as int), param_table(fn_params)), hints_block(&fs@[i as int].body, param_table(fn_params)));
        }
        i = i + 1;
    }
    proof {
        assert(fs@.take(fs@.len() as int) =~= fs@);
    }
}

/// Parameter-name hints for every call in a program whose callee's parameters are known.
pub fn collect_parameter_hints(program: &Program) -> (r: Vec<InlayHintInfo>)
    ensures
        hints_view(r@) == program_param_hints(program),
{
    let mut t: NameMap<Vec<String>> = NameMap::new();
    proof {
        assert(param_table(&t) =~= Map::<Seq<char>, Seq<Seq<char>>>::empty());
    }
    let fs = &program.functions;
    let mut i: usize = 0;
    while i < fs.len()
        invariant
            fs == &program.functions,
            t.wf(),
            i <= fs@.len(),
            param_table(&t) == table_functions(fs@.take(i as int), Map::empty()),
        decreases fs@.len() - i,
    {
        proof {
            assert(fs@.take(i + 1).drop_last() =~= fs@.take(i as int));
        }
        table_insert(&mut t, fs[i].name.as_str(), param_names(&fs[i]));
        i = i + 1;
    }
    proof {
        assert(fs@.take(fs@.len() as int) =~= fs@);
    }
    let ghost m1 = param_table(&t);
    let is = &program.impls;
    let mut i: usize = 0;
    while i < is.len()
        invariant
            is == &program.impls,
            t.wf(),
            i <= is@.len(),
            param_table(&t) == table_impls(is@.take(i as int), m1),
        decreases is@.len() - i,
    {
        proof {
            assert(is@.take(i + 1).drop_last() =~= is@.take(i as int));
        }
        register_impl_methods(&mut t, is[i].self_type.as_str(), &is[i].methods);
        i = i + 1;
    }
    proof {
        assert(is@.take(is@.len() as int) =~= is@);
    }
    let ghost m2 = param_table(&t);
    let ts = &program.trait_impls;
    let mut i: usize = 0;
    while i < ts.len()
        invariant
            ts == &program.trait_impls,
            t.wf(),
            i <= ts@.len(),
            param_table(&t) == table_trait_impls(ts@.take(i as int), m2),
        decreases ts@.len() - i,
    {
        proof {
            assert(ts@.take(i + 1).drop_last() =~= ts@.take(i as int));
        }
        register_trait_impl_params(&mut t, &ts[i]);
        i = i + 1;
    }
    proof {
        assert(ts@.take(ts@.len() as int) =~= ts@);
    }
    let ghost m = param_table(&t);
    let mut out: Vec<InlayHintInfo> = Vec::new();
    hints_in_functions(&program.functions, &t, &mut out);
    let ghost o1 = out@;
    let mut i: usize = 0;
    proof {
        assert(hints_view(Seq::<InlayHintInfo>::empty()) =~= seq![]);
        assert(program.impls@.take(0) =~= Seq::<ImplDef>::empty());
        lemma_grew_refl(out@);
    }
    while i < program.impls.len()
        invariant
            t.wf(),
            param_table(&t) == m,
            i <= program.impls@.len(),
            grew(o1, out@, hints_impls(program.impls@.take(i as int), m)),
        decreases program.impls@.len() - i,
    {
        let ghost oa = out@;
        hints_in_functions(&program.impls[i].methods, &t, &mut out);
        proof {
            assert(program.impls@.take(i + 1).drop_last() =~= program.impls@.take(i as int));
            lemma_grew_trans(o1, oa, out@, hints_impls(program.impls@.take(i as int), m), hints_functions(program.impls@[i as int].methods@, m));
        }
        i = i + 1;
    }
    proof {
        assert(program.impls@.take(program.impls@.len() as int) =~= program.impls@);
    }
    let ghost o2 = out@;
    let mut i: usize = 0;
    proof {
        assert(program.trait_impls@.take(0) =~= Seq::<TraitImpl>::empty());
        lemma_grew_refl(out@);
    }
    while i < program.trait_impls.len()
        invariant
            t.wf(),
            param_table(&t) == m,
            i <= program.trait_impls@.len(),
            grew(o2, out@, hints_trait_impls(program.trait_impls@.take(i as int), m)),
        decreases program.trait_impls@.len() - i,
    {
        let ghost oa = out@;
        hints_in_functions(&program.trait_impls[i].methods, &t, &mut out);
        proof {
            assert(program.trait_impls@.take(i + 1).drop_last() =~= program.trait_impls@.take(i as int));
            lemma_grew_trans(o2, oa, out@, hints_trait_impls(program.trait_impls@.take(i as int), m), hints_functions(program.trait_impls@[i as int].methods@, m));
        }
        i = i + 1;
    }
    proof {
        assert(program.trait_impls@.take(program.trait_impls@.len() as int) =~= program.trait_impls@);
        lemma_grew_trans(Seq::<InlayHintInfo>::empty(), o1, o2, hints_functions(program.functions@, m), hints_impls(program.impls@, m));
        lemma_grew_trans(Seq::<InlayHintInfo>::empty(), o2, out@, hints_functions(program.functions@, m) + hints_impls(program.impls@, m), hints_trait_impls(program.trait_impls@, m));
        assert(hints_view(out@) =~= program_param_hints(program));
    }
    out
}


/// Order of hints: by line, then character, then kind rank.
pub open spec fn hint_le(a: (u32, u32, Seq<char>, InlayHintKind), b: (u32, u32, Seq<char>, InlayHintKind)) -> bool {
    a.0 < b.0 || (a.0 == b.0 && (a.1 < b.1 || (a.1 == b.1 && a.3.rank() <= b.3.rank())))
}

/// `x` inserted into `s` after the last element that is not after it.
pub open spec fn insert_stable(s: Seq<(u32, u32, Seq<char>, InlayHintKind)>, x: (u32, u32, Seq<char>, InlayHintKind)) -> Seq<(u32, u32, Seq<char>, InlayHintKind)>
    decreases s.len(),
{
    if s.len() == 0 {
        seq![x]
    } else if hint_le(s.last(), x) {
        s.push(x)
    } else {
        insert_stable(s.drop_last(), x).push(s.last())
    }
}

/// Stable sort of hints by [`hint_le`] (equal keys keep their order).
pub open spec fn sort_hints(s: Seq<(u32, u32, Seq<char>, InlayHintKind)>) -> Seq<(u32, u32, Seq<char>, InlayHintKind)>
    decreases s.len(),
{
    if s.len() == 0 {
        seq![]
    } else {
        insert_stable(sort_hints(s.drop_last()), s.last())
    }
}

fn hint_le_exec(a: &InlayHintInfo, b: &InlayHintInfo) -> (r: bool)
    ensures
        r == hint_le(hint_view(*a), hint_view(*b)),
{
    a.line < b.line || (a.line == b.line && (a.character < b.character || (a.character == b.character
        && a.kind.cmp_rank() <= b.kind.cmp_rank())))
}

proof fn lemma_insert_stable_split(s: Seq<(u32, u32, Seq<char>, InlayHintKind)>, x: (u32, u32, Seq<char>, InlayHintKind), j: int)
    requires
        0 <= j <= s.len(),
        forall|k: int| j <= k < s.len() ==> !hint_le(#[trigger] s[k], x),
    ensures
        insert_stable(s, x) == insert_stable(s.take(j), x) + s.skip(j),
    decreases s.len() - j,
{
    if j < s.len() {
        assert(!hint_le(s.last(), x));
        lemma_insert_stable_split(s.drop_last(), x, j);
        assert(s.drop_last().take(j) =~= s.take(j));
        assert(insert_stable(s.take(j), x) + s.skip(j) =~= (insert_stable(s.take(j), x) + s.drop_last().skip(j)).push(s.last()));
    } else {
        assert(s.take(j) =~= s);
        assert(s.skip(j) =~= Seq::<(u32, u32, Seq<char>, InlayHintKind)>::empty());
    }
}

/// Inserts `h` into the sorted `out` keeping equal keys in arrival order.
fn insert_hint(out: &mut Vec<InlayHintInfo>, h: InlayHintInfo)
    ensures
        hints_view(final(out)@) == insert_stable(hints_view(old(out)@), hint_view(h)),
{
    let ghost v = hints_view(out@);
    let ghost x = hint_view(h);
    let mut j: usize = out.len();
    while j > 0 && !hint_le_exec(&out[j - 1], &h)
        invariant
            out@ == old(out)@,
            v == hints_view(out@),
            x == hint_view(h),
            j <= out@.len(),
            forall|k: int| j <= k < v.len() ==> !hint_le(#[trigger] v[k], x),
        decreases j,
    {
        j = j - 1;
    }
    proof {
        lemma_insert_stable_split(v, x, j as int);
        if j > 0 {
            assert(hint_le(v.take(j as int).last(), x));
            assert(insert_stable(v.take(j as int), x) =~= v.take(j as int).push(x));
        } else {
            assert(insert_stable(v.take(0), x) =~= seq![x]);
        }
    }
    out.insert(j, h);
    proof {
        assert(hints_view(out@) =~= v.take(j as int).push(x) + v.skip(j as int));
    }
}

/// A binding whose type the type checker inferred: where it is, its type as
/// printed, and whether that type is known.
pub struct InferredBinding {
    pub span: Span,
    pub ty: String,
    pub known: bool,
}

/// `n - 1`, or 0 for 0.
pub open spec fn pred_or_zero(n: usize) -> usize {
    if n == 0 {
        0
    } else {
        (n - 1) as usize
    }
}

/// The type hint of an inferred binding: at the 0-based line of its start and
/// the 0-based column of its end, `: type`.
pub open spec fn type_hint_view(b: InferredBinding) -> (u32, u32, Seq<char>, InlayHintKind) {
    (pred_or_zero(b.span.start.line) as u32, pred_or_zero(b.span.end.column) as u32, ": "@ + b.ty@, InlayHintKind::Type)
}

/// The type hints of the inferred bindings whose type is known, in order.
pub open spec fn type_hint_views(bs: Seq<InferredBinding>) -> Seq<(u32, u32, Seq<char>, InlayHintKind)>
    decreases bs.len(),
{
    if bs.len() == 0 {
        seq![]
    } else if bs.last().known {
        type_hint_views(bs.drop_last()).push(type_hint_view(bs.last()))
    } else {
        type_hint_views(bs.drop_last())
    }
}

/// The inferred-type hints: one per binding whose type is known.
pub fn type_hints(bindings: &[InferredBinding]) -> (r: Vec<InlayHintInfo>)
    ensures
        hints_view(r@) == type_hint_views(bindings@),
{
    let mut out: Vec<InlayHintInfo> = Vec::new();
    let mut i: usize = 0;
    while i < bindings.len()
        invariant
            i <= bindings@.len(),
            hints_view(out@) == type_hint_views(bindings@.take(i as int)),
        decreases bindings@.len() - i,
    {
        let b = &bindings[i];
        proof {
            assert(bindings@.take(i + 1).drop_last() =~= bindings@.take(i as int));
            assert(bindings@.take(i + 1).last() == *b);
        }
        if b.known {
            let line: usize = if b.span.start.line == 0 {
                0
            } else {
                b.span.start.line - 1
            };
            let character: usize = if b.span.end.column == 0 {
                0
            } else {
                b.span.end.column - 1
            };
            let h = InlayHintInfo {
                line: line as u32,
                character: character as u32,
                label: String::from_str(": ").concat(b.ty.as_str()),
                kind: InlayHintKind::Type,
            };
            let ghost before = hints_view(out@);
            out.push(h);
            assert(hints_view(out@) =~= before.push(type_hint_view(*b)));
        }
        i = i + 1;
    }
    assert(bindings@.take(bindings@.len() as int) =~= bindings@);
    out
}

/// All inlay hints of a document: the type hints of the inferred bindings
/// (see [`type_hints`]), then the
/// parameter-name hints of the program, stably ordered by line, character and
/// kind (parameter hints first).
pub fn collect_inlay_hints(inferred: &[InferredBinding], program: &Program) -> (r: Vec<InlayHintInfo>)
    ensures
        hints_view(r@) == sort_hints(type_hint_views(inferred@) + program_param_hints(program)),
{
    let mut all = type_hints(inferred);
    let ghost t0 = hints_view(all@);
    let params = collect_parameter_hints(program);
    let mut k: usize = 0;
    while k < params.len()
        invariant
            k <= params@.len(),
            hints_view(all@) == t0 + hints_view(params@.take(k as int)),
        decreases params@.len() - k,
    {
        let ghost before = hints_view(all@);
        all.push(params[k].clone());
        proof {
            assert(hints_view(all@) =~= before.push(hint_view(params@[k as int])));
            assert(hints_view(params@.take(k + 1)) =~= hints_view(params@.take(k as int)).push(hint_view(params@[k as int])));
        }
        k = k + 1;
    }
    proof {
        assert(params@.take(params@.len() as int) =~= params@);
    }
    let ghost input = hints_view(all@);
    let mut out: Vec<InlayHintInfo> = Vec::new();
    let mut i: usize = 0;
    proof {
        assert(input.take(0) =~= Seq::<(u32, u32, Seq<char>, InlayHintKind)>::empty());
        assert(hints_view(out@) =~= seq![]);
    }
    while i < all.len()
        invariant
            input == hints_view(all@),
            i <= all@.len(),
            hints_view(out@) == sort_hints(input.take(i as int)),
        decreases all@.len() - i,
    {
        insert_hint(&mut out, all[i].clone());
        proof {
            assert(input.take(i + 1).drop_last() =~= input.take(i as int));
            assert(input.take(i + 1).last() == hint_view(all@[i as int]));
        }
        i = i + 1;
    }
    proof {
        assert(input.take(input.len() as int) =~= input);
    }
    out
}

/// Law: the hints come out ordered: each is at or before the next.
pub proof fn lemma_sort_hints_sorted(s: Seq<(u32, u32, Seq<char>, InlayHintKind)>)
    ensures
        forall|i: int| 0 <= i < sort_hints(s).len() - 1 ==> hint_le(#[trigger] sort_hints(s)[i], sort_hints(s)[i + 1]),
        sort_hints(s).len() == s.len(),
    decreases s.len(),
{
    if s.len() > 0 {
        lemma_sort_hints_sorted(s.drop_last());
        lemma_insert_stable_sorted(sort_hints(s.drop_last()), s.last());
    }
}

proof fn lemma_insert_stable_sorted(s: Seq<(u32, u32, Seq<char>, InlayHintKind)>, x: (u32, u32, Seq<char>, InlayHintKind))
    requires
        forall|i: int| 0 <= i < s.len() - 1 ==> hint_le(#[trigger] s[i], s[i + 1]),
    ensures
        forall|i: int| 0 <= i < insert_stable(s, x).len() - 1 ==> hint_le(#[trigger] insert_stable(s, x)[i], insert_stable(s, x)[i + 1]),
        insert_stable(s, x).len() == s.len() + 1,
        insert_stable(s, x).len() > 0 && (insert_stable(s, x).last() == x || (s.len() > 0 && insert_stable(s, x).last() == s.last())),
    decreases s.len(),
{
    if s.len() > 0 && !hint_le(s.last(), x) {
        let p = s.drop_last();
        assert forall|i: int| 0 <= i < p.len() - 1 implies hint_le(#[trigger] p[i], p[i + 1]) by {
            assert(p[i] == s[i] && p[i + 1] == s[i + 1]);
        }
        lemma_insert_stable_sorted(p, x);
        let r = insert_stable(p, x);
        let out = r.push(s.last());
        assert forall|i: int| 0 <= i < out.len() - 1 implies hint_le(#[trigger] out[i], out[i + 1]) by {
            if i == out.len() - 2 {
                assert(out[i] == r.last());
                if r.last() == x {
                } else {
                    assert(r.last() == p.last());
                    assert(p.last() == s[s.len() - 2]);
                    assert(hint_le(s[s.len() - 2], s[s.len() - 1]));
                }
            } else {
                assert(out[i] == r[i] && out[i + 1] == r[i + 1]);
            }
        }
    } else if s.len() > 0 {
        let out = s.push(x);
        assert forall|i: int| 0 <= i < out.len() - 1 implies hint_le(#[trigger] out[i], out[i + 1]) by {
            if i < s.len() - 1 {
                assert(out[i] == s[i] && out[i + 1] == s[i + 1]);
            }
        }
    }
}

/// The hints of a list of expressions hold the hints of each of them.
proof fn lemma_hints_exprs_contain(s: Seq<Expression>, m: Map<Seq<char>, Seq<Seq<char>>>, k: int, h: (u32, u32, Seq<char>, InlayHintKind))
    requires
        0 <= k < s.len(),
        hints_expr(&s[k], m).contains(h),
    ensures
        hints_exprs(s, m).contains(h),
    decreases s.len(),
{
    let init = s.subrange(0, s.len() - 1);
    if k < s.len() - 1 {
        assert(init[k] == s[k]);
        lemma_hints_exprs_contain(init, m, k, h);
        let i = choose|i: int| 0 <= i < hints_exprs(init, m).len() && hints_exprs(init, m)[i] == h;
        assert((hints_exprs(init, m) + hints_expr(&s[s.len() - 1], m))[i] == h);
    } else {
        let i = choose|i: int| 0 <= i < hints_expr(&s[k], m).len() && hints_expr(&s[k], m)[i] == h;
        let pre = hints_exprs(init, m);
        assert((pre + hints_expr(&s[s.len() - 1], m))[pre.len() + i] == h);
    }
}

/// Parameter-name hints reach calls at any depth: every hint collected in an
/// argument of a call (including those of calls nested in that argument) is
/// also a hint of the call.
pub proof fn law_call_hints_include_argument_hints(
    e: Expression,
    m: Map<Seq<char>, Seq<Seq<char>>>,
    k: int,
    h: (u32, u32, Seq<char>, InlayHintKind),
)
    requires
        e matches Expression::Call(c) && 0 <= k < c.args@.len() && hints_expr(&c.args@[k], m).contains(h),
    ensures
        hints_expr(&e, m).contains(h),
{
    if let Expression::Call(c) = e {
        lemma_hints_exprs_contain(c.args@, m, k, h);
        let own = call_hints(c.callee@, c.args@, m);
        let i = choose|i: int| 0 <= i < hints_exprs(c.args@, m).len() && hints_exprs(c.args@, m)[i] == h;
        assert((own + hints_exprs(c.args@, m))[own.len() + i] == h);
    }
}

/// A call to a function with known parameters gets the parameter-name hints
/// of its own arguments, and so does every call passed as one of its
/// arguments: in `f(g(x))`, the hints of `g(x)` are among those of the whole.
pub proof fn law_nested_call_gets_its_hints(
    e: Expression,
    m: Map<Seq<char>, Seq<Seq<char>>>,
    k: int,
    h: (u32, u32, Seq<char>, InlayHintKind),
)
    requires
        e matches Expression::Call(c) && (call_hints(c.callee@, c.args@, m).contains(h) || (0 <= k < c.args@.len()
            && (c.args@[k] matches Expression::Call(d) && call_hints(d.callee@, d.args@, m).contains(h)))),
    ensures
        hints_expr(&e, m).contains(h),
{
    if let Expression::Call(c) = e {
        let own = call_hints(c.callee@, c.args@, m);
        if own.contains(h) {
            let i = choose|i: int| 0 <= i < own.len() && own[i] == h;
            assert((own + hints_exprs(c.args@, m))[i] == h);
        } else {
            if let Expression::Call(d) = c.args@[k] {
                let inner = call_hints(d.callee@, d.args@, m);
                let i = choose|i: int| 0 <= i < inner.len() && inner[i] == h;
                assert((inner + hints_exprs(d.args@, m))[i] == h);
                assert(hints_expr(&c.args@[k], m).contains(h));
                law_call_hints_include_argument_hints(e, m, k, h);
            }
        }
    }
}

} // verus!
