//! Document symbols of a parsed program: declarations, bindings and references.
use vstd::prelude::*;
use crate::analysis::{
    enum_detail, fn_sig_detail, keyword_symbols, spec_enum_detail, spec_fn_sig_detail,
    spec_keywords, spec_struct_detail, struct_detail, Symbol, SymbolKind,
};
use crate::ast::{
    ArrowBody, Block, EnumDef, Expression, ExternFn, ForKind, Function, LetStmt, MatchArm, Param,
    Program, Statement, StructDef, TemplatePart, TypeAnnotation,
};
use crate::names::texts;
use crate::span::{Position, Span};
use crate::analysis::DocumentAnalysis;
use crate::inlay::InlayHintInfo;

verus! {

/// `fmt` formats every type annotation, and always the same way.
pub open spec fn formats_types<F: Fn(&TypeAnnotation) -> String>(fmt: F) -> bool {
    &&& forall|t: &TypeAnnotation| #[trigger] call_requires(fmt, (t,))
    &&& forall|t: &TypeAnnotation, a: String, b: String|
        #[trigger] call_ensures(fmt, (t,), a) && #[trigger] call_ensures(fmt, (t,), b) ==> a@ == b@
}

/// The text `fmt` gives for type annotation `t`.
pub open spec fn type_text<F: Fn(&TypeAnnotation) -> String>(fmt: F, t: TypeAnnotation) -> Seq<char> {
    (choose|s: String| call_ensures(fmt, (&t,), s))@
}

/// Formats one type annotation with `fmt`.
fn text_of_type<F: Fn(&TypeAnnotation) -> String>(fmt: &F, t: &TypeAnnotation) -> (r: String)
    requires
        formats_types(*fmt),
    ensures
        r@ == type_text(*fmt, *t),
{
    let r = fmt(t);
    proof {
        let c = choose|s: String| call_ensures(*fmt, (t,), s);
        assert(call_ensures(*fmt, (t,), c));
    }
    r
}


/// A span as its file text and positions.
pub open spec fn span_view(sp: Span) -> (Seq<char>, Position, Position) {
    (sp.file@, sp.start, sp.end)
}

/// The view of the default span (no location).
pub open spec fn no_span() -> (Seq<char>, Position, Position) {
    (Seq::<char>::empty(), Position { line: 0, column: 0 }, Position { line: 0, column: 0 })
}

/// A symbol as plain values: name, kind, span, detail and renameability.
pub open spec fn sym_view(s: Symbol) -> (Seq<char>, SymbolKind, (Seq<char>, Position, Position), Option<Seq<char>>, bool) {
    (s.name@, s.kind, span_view(s.span), match s.detail {
        Some(d) => Some(d@),
        None => None,
    }, s.renameable)
}

/// Symbols as plain values.
pub open spec fn syms_view(v: Seq<Symbol>) -> Seq<(Seq<char>, SymbolKind, (Seq<char>, Position, Position), Option<Seq<char>>, bool)> {
    v.map_values(|s: Symbol| sym_view(s))
}

/// Formatted types of `ts`.
pub open spec fn type_texts<F: Fn(&TypeAnnotation) -> String>(fmt: F, ts: Seq<TypeAnnotation>) -> Seq<Seq<char>> {
    ts.map_values(|t: TypeAnnotation| type_text(fmt, t))
}

/// Detail of a function signature with the formatted parameter and return types.
pub open spec fn sig_detail<F: Fn(&TypeAnnotation) -> String>(fmt: F, params: Seq<Param>, ret: Option<TypeAnnotation>) -> Seq<char> {
    spec_fn_sig_detail(
        params.map_values(|p: Param| p.name@),
        params.map_values(|p: Param| type_text(fmt, p.ty)),
        match ret {
            Some(t) => Some(type_text(fmt, t)),
            None => None,
        },
    )
}

/// The symbol of a parameter binding `name` of type `ty`.
pub open spec fn param_sym<F: Fn(&TypeAnnotation) -> String>(fmt: F, name: Seq<char>, ty: TypeAnnotation) -> (Seq<char>, SymbolKind, (Seq<char>, Position, Position), Option<Seq<char>>, bool) {
    (name, SymbolKind::Parameter, no_span(), Some(type_text(fmt, ty)), true)
}

/// Symbols of a parameter list: each destructured name, or the parameter's name.
pub open spec fn params_syms<F: Fn(&TypeAnnotation) -> String>(fmt: F, ps: Seq<Param>) -> Seq<(Seq<char>, SymbolKind, (Seq<char>, Position, Position), Option<Seq<char>>, bool)>
    decreases ps.len(),
{
    if ps.len() == 0 {
        seq![]
    } else {
        let p = ps.last();
        params_syms(fmt, ps.drop_last()) + if p.destructure@.len() > 0 {
            texts(p.destructure@).map_values(|n: Seq<char>| param_sym(fmt, n, p.ty))
        } else {
            seq![param_sym(fmt, p.name@, p.ty)]
        }
    }
}

/// Symbols of a `let` / `const` binding: one per destructured name, or the name.
pub open spec fn let_syms<F: Fn(&TypeAnnotation) -> String>(fmt: F, ls: &LetStmt) -> Seq<(Seq<char>, SymbolKind, (Seq<char>, Position, Position), Option<Seq<char>>, bool)> {
    let detail = match &ls.ty {
        Some(t) => Some(type_text(fmt, *t)),
        None => None,
    };
    if ls.destructure@.len() > 0 {
        texts(ls.destructure@).map_values(|n: Seq<char>| (n, SymbolKind::Variable, span_view(ls.span), detail, true))
    } else {
        seq![(ls.name@, SymbolKind::Variable, span_view(ls.span), detail, true)]
    }
}

/// Reference symbols in an expression (variables read, functions called), and
/// the symbols of blocks inside closures and `comptime`.
pub open spec fn expr_refs<F: Fn(&TypeAnnotation) -> String>(fmt: F, e: &Expression) -> Seq<(Seq<char>, SymbolKind, (Seq<char>, Position, Position), Option<Seq<char>>, bool)>
    decreases e,
{
    match e {
        Expression::Variable { name, span } => seq![(name@, SymbolKind::Variable, span_view(*span), None, false)],
        Expression::Binary(b) => expr_refs(fmt, &b.left) + expr_refs(fmt, &b.right),
        Expression::Unary(u) => expr_refs(fmt, &u.operand),
        Expression::Call(c) => seq![(c.callee@, SymbolKind::Function, span_view(c.span), None, false)] + exprs_refs(fmt, c.args@),
        Expression::MethodCall(mc) => expr_refs(fmt, &mc.object) + exprs_refs(fmt, mc.args@),
        Expression::FieldAccess(f) => expr_refs(fmt, &f.object),
        Expression::StructLiteral(sl) => exprs_refs(fmt, sl.spreads@) + fields_refs(fmt, sl.fields@),
        Expression::EnumVariant(v) => exprs_refs(fmt, v.args@),
        Expression::Match(m) => expr_refs(fmt, &m.scrutinee) + arms_refs(fmt, m.arms@),
        Expression::If(i) => expr_refs(fmt, &i.condition) + each_refs(fmt, &i.then_block) + each_refs(fmt, &i.else_block),
        Expression::Index(ix) => expr_refs(fmt, &ix.object) + expr_refs(fmt, &ix.index),
        Expression::ArrayLiteral(al) => exprs_refs(fmt, al.spreads@) + exprs_refs(fmt, al.elems@),
        Expression::TupleLiteral(es) => exprs_refs(fmt, es@),
        Expression::ArrayRepeat { element, .. } => expr_refs(fmt, element),
        Expression::Grouped(g) => expr_refs(fmt, g),
        Expression::Await(g) => expr_refs(fmt, g),
        Expression::TemplateLiteral(t) => parts_refs(fmt, t.parts@),
        Expression::Cast(c) => expr_refs(fmt, &c.expr),
        Expression::ArrowFn(a) => match &a.body {
            ArrowBody::Expr(x) => expr_refs(fmt, x),
            ArrowBody::Block(b) => block_syms(fmt, b),
        },
        Expression::ComptimeBlock { body, .. } => block_syms(fmt, body),
        _ => seq![],
    }
}

pub open spec fn exprs_refs<F: Fn(&TypeAnnotation) -> String>(fmt: F, s: Seq<Expression>) -> Seq<(Seq<char>, SymbolKind, (Seq<char>, Position, Position), Option<Seq<char>>, bool)>
    decreases s,
{
    if s.len() == 0 {
        seq![]
    } else {
        exprs_refs(fmt, s.subrange(0, s.len() - 1)) + expr_refs(fmt, &s[s.len() - 1])
    }
}

pub open spec fn fields_refs<F: Fn(&TypeAnnotation) -> String>(fmt: F, s: Seq<(String, Expression)>) -> Seq<(Seq<char>, SymbolKind, (Seq<char>, Position, Position), Option<Seq<char>>, bool)>
    decreases s,
{
    if s.len() == 0 {
        seq![]
    } else {
        fields_refs(fmt, s.subrange(0, s.len() - 1)) + expr_refs(fmt, &s[s.len() - 1].1)
    }
}

/// `match` arms: references in each body, then in its guard.
pub open spec fn arms_refs<F: Fn(&TypeAnnotation) -> String>(fmt: F, s: Seq<MatchArm>) -> Seq<(Seq<char>, SymbolKind, (Seq<char>, Position, Position), Option<Seq<char>>, bool)>
    decreases s,
{
    if s.len() == 0 {
        seq![]
    } else {
        arms_refs(fmt, s.subrange(0, s.len() - 1)) + each_refs(fmt, &s[s.len() - 1].body) + match &s[s.len() - 1].guard {
            Some(g) => expr_refs(fmt, g),
            None => seq![],
        }
    }
}

pub open spec fn parts_refs<F: Fn(&TypeAnnotation) -> String>(fmt: F, s: Seq<TemplatePart>) -> Seq<(Seq<char>, SymbolKind, (Seq<char>, Position, Position), Option<Seq<char>>, bool)>
    decreases s,
{
    if s.len() == 0 {
        seq![]
    } else {
        parts_refs(fmt, s.subrange(0, s.len() - 1)) + match &s[s.len() - 1] {
            TemplatePart::Interpolation(x) => expr_refs(fmt, x),
            TemplatePart::Static(_) => seq![],
        }
    }
}

/// References in the expressions of a block's statements (`for_each_expr_in_block`).
pub open spec fn each_refs<F: Fn(&TypeAnnotation) -> String>(fmt: F, b: &Block) -> Seq<(Seq<char>, SymbolKind, (Seq<char>, Position, Position), Option<Seq<char>>, bool)>
    decreases b,
{
    each_stmts_refs(fmt, b.statements@)
}

pub open spec fn each_stmts_refs<F: Fn(&TypeAnnotation) -> String>(fmt: F, s: Seq<Statement>) -> Seq<(Seq<char>, SymbolKind, (Seq<char>, Position, Position), Option<Seq<char>>, bool)>
    decreases s,
{
    if s.len() == 0 {
        seq![]
    } else {
        each_stmts_refs(fmt, s.subrange(0, s.len() - 1)) + each_stmt_refs(fmt, &s[s.len() - 1])
    }
}

pub open spec fn each_stmt_refs<F: Fn(&TypeAnnotation) -> String>(fmt: F, st: &Statement) -> Seq<(Seq<char>, SymbolKind, (Seq<char>, Position, Position), Option<Seq<char>>, bool)>
    decreases st,
{
    match st {
        Statement::Let(l) => expr_refs(fmt, &l.value),
        Statement::Const(l) => expr_refs(fmt, &l.value),
        Statement::Assign(a) => expr_refs(fmt, &a.target) + expr_refs(fmt, &a.value),
        Statement::Return(r) => match &r.value {
            Some(v) => expr_refs(fmt, v),
            None => seq![],
        },
        Statement::If(i) => expr_refs(fmt, &i.condition) + each_refs(fmt, &i.then_block) + match &i.else_block {
            Some(el) => each_refs(fmt, el),
            None => seq![],
        },
        Statement::While(w) => expr_refs(fmt, &w.condition) + each_refs(fmt, &w.body),
        Statement::For(fo) => (match &fo.kind {
            ForKind::Range { start, end } => expr_refs(fmt, start) + expr_refs(fmt, end),
            ForKind::Iterable { iterable } => expr_refs(fmt, iterable),
        }) + each_refs(fmt, &fo.body),
        Statement::Expression(x) => expr_refs(fmt, x),
        Statement::Defer(x) => expr_refs(fmt, x),
        Statement::Print(p) => exprs_refs(fmt, p.args@) + match &p.color {
            Some(c) => expr_refs(fmt, c),
            None => seq![],
        },
        Statement::Spawn(b) => each_refs(fmt, b),
        Statement::Unsafe(b) => each_refs(fmt, b),
        Statement::Benchmark(b) => each_refs(fmt, b),
        _ => seq![],
    }
}

/// Symbols of a block: bindings it declares and references it makes.
pub open spec fn block_syms<F: Fn(&TypeAnnotation) -> String>(fmt: F, b: &Block) -> Seq<(Seq<char>, SymbolKind, (Seq<char>, Position, Position), Option<Seq<char>>, bool)>
    decreases b,
{
    stmts_syms(fmt, b.statements@)
}

pub open spec fn stmts_syms<F: Fn(&TypeAnnotation) -> String>(fmt: F, s: Seq<Statement>) -> Seq<(Seq<char>, SymbolKind, (Seq<char>, Position, Position), Option<Seq<char>>, bool)>
    decreases s,
{
    if s.len() == 0 {
        seq![]
    } else {
        stmts_syms(fmt, s.subrange(0, s.len() - 1)) + stmt_syms(fmt, &s[s.len() - 1])
    }
}

/// Symbols of a statement; a `for` loop variable is an `i32` variable.
pub open spec fn stmt_syms<F: Fn(&TypeAnnotation) -> String>(fmt: F, st: &Statement) -> Seq<(Seq<char>, SymbolKind, (Seq<char>, Position, Position), Option<Seq<char>>, bool)>
    decreases st,
{
    match st {
        Statement::Let(l) => let_syms(fmt, l) + expr_refs(fmt, &l.value),
        Statement::Const(l) => let_syms(fmt, l) + expr_refs(fmt, &l.value),
        Statement::Assign(a) => expr_refs(fmt, &a.target) + expr_refs(fmt, &a.value),
        Statement::Return(r) => match &r.value {
            Some(v) => expr_refs(fmt, v),
            None => seq![],
        },
        Statement::If(i) => expr_refs(fmt, &i.condition) + block_syms(fmt, &i.then_block) + match &i.else_block {
            Some(el) => block_syms(fmt, el),
            None => seq![],
        },
        Statement::While(w) => expr_refs(fmt, &w.condition) + block_syms(fmt, &w.body),
        Statement::For(fo) => (match &fo.kind {
            ForKind::Range { start, end } => expr_refs(fmt, start) + expr_refs(fmt, end),
            ForKind::Iterable { iterable } => expr_refs(fmt, iterable),
        }) + seq![(fo.var@, SymbolKind::Variable, no_span(), Some("i32"@), true)] + block_syms(fmt, &fo.body),
        Statement::Expression(x) => expr_refs(fmt, x),
        Statement::Defer(x) => expr_refs(fmt, x),
        Statement::Print(p) => exprs_refs(fmt, p.args@) + match &p.color {
            Some(c) => expr_refs(fmt, c),
            None => seq![],
        },
        Statement::Spawn(b) => block_syms(fmt, b),
        Statement::Unsafe(b) => block_syms(fmt, b),
        Statement::Benchmark(b) => block_syms(fmt, b),
        _ => seq![],
    }
}

/// Symbols of a function: itself, its parameters, and its body.
pub open spec fn function_syms<F: Fn(&TypeAnnotation) -> String>(fmt: F, f: &Function) -> Seq<(Seq<char>, SymbolKind, (Seq<char>, Position, Position), Option<Seq<char>>, bool)> {
    seq![(f.name@, SymbolKind::Function, span_view(f.span), Some(sig_detail(fmt, f.params@, f.return_type)), true)]
        + params_syms(fmt, f.params@) + block_syms(fmt, &f.body)
}

/// Symbols of a struct: itself, its fields, and its synthesized JSON helpers.
pub open spec fn struct_syms<F: Fn(&TypeAnnotation) -> String>(fmt: F, s: &StructDef) -> Seq<(Seq<char>, SymbolKind, (Seq<char>, Position, Position), Option<Seq<char>>, bool)> {
    let fields = s.fields@;
    let enc = s.name@ + "_json_encode"@;
    let dec = s.name@ + "_json_decode"@;
    seq![(
        s.name@,
        SymbolKind::Struct,
        no_span(),
        Some(spec_struct_detail(
            s.name@,
            fields.map_values(|f: crate::ast::StructField| f.name@),
            fields.map_values(|f: crate::ast::StructField| type_text(fmt, f.ty)),
        )),
        false,
    )] + fields.map_values(|f: crate::ast::StructField| (
        f.name@,
        SymbolKind::Field,
        no_span(),
        Some(s.name@ + ": "@ + type_text(fmt, f.ty)),
        false,
    )) + seq![
        (enc, SymbolKind::Function, no_span(), Some("fn "@ + enc + "(self: "@ + s.name@ + ") -> string  // synthesized JSON encode"@), false),
        (dec, SymbolKind::Function, no_span(), Some("fn "@ + dec + "(json: string) -> "@ + s.name@ + "  // synthesized JSON decode"@), false),
    ]
}

/// Symbol of an enum, with its variants in the detail.
pub open spec fn enum_sym<F: Fn(&TypeAnnotation) -> String>(fmt: F, e: EnumDef) -> (Seq<char>, SymbolKind, (Seq<char>, Position, Position), Option<Seq<char>>, bool) {
    (e.name@, SymbolKind::Enum, no_span(), Some(spec_enum_detail(
        e.name@,
        e.variants@.map_values(|v: crate::ast::EnumVariantDef| v.name@),
        e.variants@.map_values(|v: crate::ast::EnumVariantDef| type_texts(fmt, v.fields@)),
    )), false)
}

/// Symbol of an extern function, with its signature.
pub open spec fn extern_sym<F: Fn(&TypeAnnotation) -> String>(fmt: F, x: ExternFn) -> (Seq<char>, SymbolKind, (Seq<char>, Position, Position), Option<Seq<char>>, bool) {
    (x.name@, SymbolKind::Extern, no_span(), Some(sig_detail(fmt, x.params@, x.return_type)), false)
}

/// Concatenation of `f` over the first `n` items of `s`.
pub open spec fn concat_over<A>(
    s: Seq<A>,
    n: int,
    f: spec_fn(A) -> Seq<(Seq<char>, SymbolKind, (Seq<char>, Position, Position), Option<Seq<char>>, bool)>,
) -> Seq<(Seq<char>, SymbolKind, (Seq<char>, Position, Position), Option<Seq<char>>, bool)>
    decreases n,
{
    if n <= 0 || n > s.len() {
        seq![]
    } else {
        concat_over(s, n - 1, f) + f(s[n - 1])
    }
}

/// Symbols of a whole program, in declaration order: module, structs, enums,
/// externs, functions, methods, constants.
pub open spec fn program_syms<F: Fn(&TypeAnnotation) -> String>(fmt: F, p: &Program) -> Seq<(Seq<char>, SymbolKind, (Seq<char>, Position, Position), Option<Seq<char>>, bool)> {
    (match &p.module {
        Some(m) => seq![(m@, SymbolKind::Module, no_span(), None::<Seq<char>>, false)],
        None => seq![],
    }) + concat_over(p.structs@, p.structs@.len() as int, |s: StructDef| struct_syms(fmt, &s))
        + p.enums@.map_values(|e: EnumDef| enum_sym(fmt, e))
        + p.externs@.map_values(|x: ExternFn| extern_sym(fmt, x))
        + concat_over(p.functions@, p.functions@.len() as int, |f: Function| function_syms(fmt, &f))
        + concat_over(p.impls@, p.impls@.len() as int, |im: crate::ast::ImplDef|
            concat_over(im.methods@, im.methods@.len() as int, |f: Function| function_syms(fmt, &f)))
        + p.consts@.map_values(|c: crate::ast::ConstDef| (c.name@, SymbolKind::Constant, no_span(), match c.ty {
            Some(t) => Some(type_text(fmt, t)),
            None => None,
        }, true))
}


/// `new` is `old` followed by symbols `x`.
pub open spec fn grew_syms(old: Seq<Symbol>, new: Seq<Symbol>, x: Seq<(Seq<char>, SymbolKind, (Seq<char>, Position, Position), Option<Seq<char>>, bool)>) -> bool {
    syms_view(new) == syms_view(old) + x
}

proof fn lemma_sg_chain(a: Seq<Symbol>, b: Seq<Symbol>, c: Seq<Symbol>, x: Seq<(Seq<char>, SymbolKind, (Seq<char>, Position, Position), Option<Seq<char>>, bool)>, y: Seq<(Seq<char>, SymbolKind, (Seq<char>, Position, Position), Option<Seq<char>>, bool)>)
    requires
        grew_syms(a, b, x),
        grew_syms(b, c, y),
    ensures
        grew_syms(a, c, x + y),
{
    assert(syms_view(a) + x + y =~= syms_view(a) + (x + y));
}

proof fn lemma_sg_refl(a: Seq<Symbol>)
    ensures
        grew_syms(a, a, seq![]),
{
    assert(syms_view(a) + seq![] =~= syms_view(a));
}

fn push_sym(out: &mut Vec<Symbol>, s: Symbol)
    ensures
        grew_syms(old(out)@, final(out)@, seq![sym_view(s)]),
{
    let ghost o = out@;
    out.push(s);
    assert(syms_view(out@) =~= syms_view(o) + seq![sym_view(s)]);
}

fn texts_of_types<F: Fn(&TypeAnnotation) -> String>(fmt: &F, ts: &Vec<TypeAnnotation>) -> (r: Vec<String>)
    requires
        formats_types(*fmt),
    ensures
        texts(r@) == type_texts(*fmt, ts@),
{
    let mut out: Vec<String> = Vec::new();
    let mut i: usize = 0;
    while i < ts.len()
        invariant
            formats_types(*fmt),
            i <= ts@.len(),
            out@.len() == i,
            forall|j: int| 0 <= j < i ==> (#[trigger] out@[j])@ == type_text(*fmt, ts@[j]),
        decreases ts@.len() - i,
    {
        out.push(text_of_type(fmt, &ts[i]));
        i = i + 1;
    }
    assert(texts(out@) =~= type_texts(*fmt, ts@));
    out
}

fn sig_detail_of<F: Fn(&TypeAnnotation) -> String>(fmt: &F, params: &Vec<Param>, ret: &Option<TypeAnnotation>) -> (r: String)
    requires
        formats_types(*fmt),
    ensures
        r@ == sig_detail(*fmt, params@, *ret),
{
    let mut tys: Vec<String> = Vec::new();
    let mut i: usize = 0;
    while i < params.len()
        invariant
            formats_types(*fmt),
            i <= params@.len(),
            tys@.len() == i,
            forall|j: int| 0 <= j < i ==> (#[trigger] tys@[j])@ == type_text(*fmt, params@[j].ty),
        decreases params@.len() - i,
    {
        tys.push(text_of_type(fmt, &params[i].ty));
        i = i + 1;
    }
    assert(texts(tys@) =~= params@.map_values(|p: Param| type_text(*fmt, p.ty)));
    assert(crate::analysis::param_names_of(params@) =~= params@.map_values(|p: Param| p.name@));
    match ret {
        Some(t) => {
            let rt = text_of_type(fmt, t);
            fn_sig_detail(params.as_slice(), tys.as_slice(), Some(rt.as_str()))
        },
        None => fn_sig_detail(params.as_slice(), tys.as_slice(), None),
    }
}

/// The symbol of parameter `name` of type `ty`.
pub fn param_symbol<F: Fn(&TypeAnnotation) -> String>(fmt: &F, name: &str, ty: &TypeAnnotation) -> (r: Symbol)
    requires
        formats_types(*fmt),
    ensures
        sym_view(r) == param_sym(*fmt, name@, *ty),
{
    let sp = Span::none();
    Symbol {
        name: String::from_str(name),
        kind: SymbolKind::Parameter,
        span: sp,
        detail: Some(text_of_type(fmt, ty)),
        renameable: true,
    }
}

fn collect_params<F: Fn(&TypeAnnotation) -> String>(fmt: &F, ps: &Vec<Param>, out: &mut Vec<Symbol>)
    requires
        formats_types(*fmt),
    ensures
        grew_syms(old(out)@, final(out)@, params_syms(*fmt, ps@)),
{
    let ghost o0 = out@;
    let mut i: usize = 0;
    proof {
        lemma_sg_refl(out@);
        assert(ps@.take(0) =~= Seq::<Param>::empty());
    }
    while i < ps.len()
        invariant
            formats_types(*fmt),
            i <= ps@.len(),
            grew_syms(o0, out@, params_syms(*fmt, ps@.take(i as int))),
        decreases ps@.len() - i,
    {
        let p = &ps[i];
        let ghost o1 = out@;
        let ghost add = if p.destructure@.len() > 0 {
            texts(p.destructure@).map_values(|n: Seq<char>| param_sym(*fmt, n, p.ty))
        } else {
            seq![param_sym(*fmt, p.name@, p.ty)]
        };
        if p.destructure.len() > 0 {
            let mut k: usize = 0;
            proof {
                lemma_sg_refl(out@);
            }
            while k < p.destructure.len()
                invariant
                    formats_types(*fmt),
                    k <= p.destructure@.len(),
                    grew_syms(o1, out@, texts(p.destructure@.take(k as int)).map_values(|n: Seq<char>| param_sym(*fmt, n, p.ty))),
                decreases p.destructure@.len() - k,
            {
                let ghost o2 = out@;
                push_sym(out, param_symbol(fmt, p.destructure[k].as_str(), &p.ty));
                proof {
                    assert(texts(p.destructure@.take(k + 1)).map_values(|n: Seq<char>| param_sym(*fmt, n, p.ty)) =~=
                        texts(p.destructure@.take(k as int)).map_values(|n: Seq<char>| param_sym(*fmt, n, p.ty)) + seq![param_sym(*fmt, p.destructure@[k as int]@, p.ty)]);
                    lemma_sg_chain(o1, o2, out@, texts(p.destructure@.take(k as int)).map_values(|n: Seq<char>| param_sym(*fmt, n, p.ty)), seq![param_sym(*fmt, p.destructure@[k as int]@, p.ty)]);
                }
                k = k + 1;
            }
            proof {
                assert(p.destructure@.take(p.destructure@.len() as int) =~= p.destructure@);
            }
        } else {
            push_sym(out, param_symbol(fmt, p.name.as_str(), &p.ty));
        }
        proof {
            assert(ps@.take(i + 1).drop_last() =~= ps@.take(i as int));
            lemma_sg_chain(o0, o1, out@, params_syms(*fmt, ps@.take(i as int)), add);
        }
        i = i + 1;
    }
    proof {
        assert(ps@.take(ps@.len() as int) =~= ps@);
    }
}

/// Symbols of a `let` / `const` binding.
pub fn collect_let_symbols<F: Fn(&TypeAnnotation) -> String>(fmt: &F, ls: &LetStmt, out: &mut Vec<Symbol>)
    requires
        formats_types(*fmt),
    ensures
        grew_syms(old(out)@, final(out)@, let_syms(*fmt, ls)),
{
    let ghost o0 = out@;
    let ghost detail = match &ls.ty {
        Some(t) => Some(type_text(*fmt, *t)),
        None => None,
    };
    if ls.destructure.len() > 0 {
        let mut k: usize = 0;
        proof {
            lemma_sg_refl(out@);
        }
        while k < ls.destructure.len()
            invariant
                formats_types(*fmt),
                k <= ls.destructure@.len(),
                detail == match &ls.ty {
                    Some(t) => Some(type_text(*fmt, *t)),
                    None => None,
                },
                grew_syms(o0, out@, texts(ls.destructure@.take(k as int)).map_values(|n: Seq<char>| (n, SymbolKind::Variable, span_view(ls.span), detail, true))),
            decreases ls.destructure@.len() - k,
        {
            let ghost o2 = out@;
            let d = match &ls.ty {
                Some(t) => Some(text_of_type(fmt, t)),
                None => None,
            };
            let s = Symbol {
                name: ls.destructure[k].clone(),
                kind: SymbolKind::Variable,
                span: ls.span.clone(),
                detail: d,
                renameable: true,
            };
            push_sym(out, s);
            proof {
                let f = |n: Seq<char>| (n, SymbolKind::Variable, span_view(ls.span), detail, true);
                assert(texts(ls.destructure@.take(k + 1)).map_values(f) =~= texts(ls.destructure@.take(k as int)).map_values(f) + seq![f(ls.destructure@[k as int]@)]);
                lemma_sg_chain(o0, o2, out@, texts(ls.destructure@.take(k as int)).map_values(f), seq![f(ls.destructure@[k as int]@)]);
            }
            k = k + 1;
        }
        proof {
            assert(ls.destructure@.take(ls.destructure@.len() as int) =~= ls.destructure@);
        }
    } else {
        let d = match &ls.ty {
            Some(t) => Some(text_of_type(fmt, t)),
            None => None,
        };
        let s = Symbol { name: ls.name.clone(), kind: SymbolKind::Variable, span: ls.span.clone(), detail: d, renameable: true };
        push_sym(out, s);
    }
}


/// Appends the reference symbols of an expression (and the symbols of blocks
/// inside closures and `comptime`).
pub fn collect_expr_refs<F: Fn(&TypeAnnotation) -> String>(fmt: &F, e: &Expression, out: &mut Vec<Symbol>)
    requires
        formats_types(*fmt),
    ensures
        grew_syms(old(out)@, final(out)@, expr_refs(*fmt, e)),
    decreases e,
{
    let ghost f = *fmt;
    let ghost o0 = out@;
    match e {
        Expression::Variable { name, span } => {
            push_sym(out, Symbol { name: name.clone(), kind: SymbolKind::Variable, span: span.clone(), detail: None, renameable: false });
        },
        Expression::Binary(b) => {
            collect_expr_refs(fmt, &b.left, out);
            let ghost o1 = out@;
            collect_expr_refs(fmt, &b.right, out);
            proof { lemma_sg_chain(o0, o1, out@, expr_refs(f, &b.left), expr_refs(f, &b.right)); }
        },
        Expression::Unary(u) => collect_expr_refs(fmt, &u.operand, out),
        Expression::Call(c) => {
            push_sym(out, Symbol { name: c.callee.clone(), kind: SymbolKind::Function, span: c.span.clone(), detail: None, renameable: false });
            let ghost o1 = out@;
            refs_in_exprs(fmt, &c.args, out);
            proof { lemma_sg_chain(o0, o1, out@, seq![(c.callee@, SymbolKind::Function, span_view(c.span), None, false)], exprs_refs(f, c.args@)); }
        },
        Expression::MethodCall(mc) => {
            collect_expr_refs(fmt, &mc.object, out);
            let ghost o1 = out@;
            refs_in_exprs(fmt, &mc.args, out);
            proof { lemma_sg_chain(o0, o1, out@, expr_refs(f, &mc.object), exprs_refs(f, mc.args@)); }
        },
        Expression::FieldAccess(fa) => collect_expr_refs(fmt, &fa.object, out),
        Expression::StructLiteral(sl) => {
            refs_in_exprs(fmt, &sl.spreads, out);
            let ghost o1 = out@;
            refs_in_fields(fmt, &sl.fields, out);
            proof { lemma_sg_chain(o0, o1, out@, exprs_refs(f, sl.spreads@), fields_refs(f, sl.fields@)); }
        },
        Expression::EnumVariant(v) => refs_in_exprs(fmt, &v.args, out),
        Expression::Match(m) => {
            collect_expr_refs(fmt, &m.scrutinee, out);
            let ghost o1 = out@;
            refs_in_arms(fmt, &m.arms, out);
            proof { lemma_sg_chain(o0, o1, out@, expr_refs(f, &m.scrutinee), arms_refs(f, m.arms@)); }
        },
        Expression::If(i) => {
            collect_expr_refs(fmt, &i.condition, out);
            let ghost o1 = out@;
            refs_in_block(fmt, &i.then_block, out);
            let ghost o2 = out@;
            proof { lemma_sg_chain(o0, o1, o2, expr_refs(f, &i.condition), each_refs(f, &i.then_block)); }
            refs_in_block(fmt, &i.else_block, out);
            proof { lemma_sg_chain(o0, o2, out@, expr_refs(f, &i.condition) + each_refs(f, &i.then_block), each_refs(f, &i.else_block)); }
        },
        Expression::Index(ix) => {
            collect_expr_refs(fmt, &ix.object, out);
            let ghost o1 = out@;
            collect_expr_refs(fmt, &ix.index, out);
            proof { lemma_sg_chain(o0, o1, out@, expr_refs(f, &ix.object), expr_refs(f, &ix.index)); }
        },
        Expression::ArrayLiteral(al) => {
            refs_in_exprs(fmt, &al.spreads, out);
            let ghost o1 = out@;
            refs_in_exprs(fmt, &al.elems, out);
            proof { lemma_sg_chain(o0, o1, out@, exprs_refs(f, al.spreads@), exprs_refs(f, al.elems@)); }
        },
        Expression::TupleLiteral(es) => refs_in_exprs(fmt, es, out),
        Expression::ArrayRepeat { element, .. } => collect_expr_refs(fmt, element, out),
        Expression::Grouped(g) => collect_expr_refs(fmt, g, out),
        Expression::Await(g) => collect_expr_refs(fmt, g, out),
        Expression::TemplateLiteral(t) => refs_in_parts(fmt, &t.parts, out),
        Expression::Cast(c) => collect_expr_refs(fmt, &c.expr, out),
        Expression::ArrowFn(a) => match &a.body {
            ArrowBody::Expr(x) => collect_expr_refs(fmt, x, out),
            ArrowBody::Block(b) => collect_block_symbols(fmt, b, out),
        },
        Expression::ComptimeBlock { body, .. } => collect_block_symbols(fmt, body, out),
        _ => {
            proof { lemma_sg_refl(out@); }
        },
    }
}

fn refs_in_exprs<F: Fn(&TypeAnnotation) -> String>(fmt: &F, v: &Vec<Expression>, out: &mut Vec<Symbol>)
    requires
        formats_types(*fmt),
    ensures
        grew_syms(old(out)@, final(out)@, exprs_refs(*fmt, v@)),
    decreases v,
{
    let ghost o0 = out@;
    let mut i: usize = 0;
    proof {
        lemma_sg_refl(out@);
        assert(v@.take(0) =~= Seq::<Expression>::empty());
    }
    while i < v.len()
        invariant
            formats_types(*fmt),
            i <= v@.len(),
            grew_syms(o0, out@, exprs_refs(*fmt, v@.take(i as int))),
        decreases v@.len() - i,
    {
        let ghost o1 = out@;
        collect_expr_refs(fmt, &v[i], out);
        proof {
            assert(v@.take(i + 1).subrange(0, i as int) =~= v@.take(i as int));
            lemma_sg_chain(o0, o1, out@, exprs_refs(*fmt, v@.take(i as int)), expr_refs(*fmt, &v@[i as int]));
        }
        i = i + 1;
    }
    proof { assert(v@.take(v@.len() as int) =~= v@); }
}

fn refs_in_fields<F: Fn(&TypeAnnotation) -> String>(fmt: &F, v: &Vec<(String, Expression)>, out: &mut Vec<Symbol>)
    requires
        formats_types(*fmt),
    ensures
        grew_syms(old(out)@, final(out)@, fields_refs(*fmt, v@)),
    decreases v,
{
    let ghost o0 = out@;
    let mut i: usize = 0;
    proof {
        lemma_sg_refl(out@);
        assert(v@.take(0) =~= Seq::<(String, Expression)>::empty());
    }
    while i < v.len()
        invariant
            formats_types(*fmt),
            i <= v@.len(),
            grew_syms(o0, out@, fields_refs(*fmt, v@.take(i as int))),
        decreases v@.len() - i,
    {
        let ghost o1 = out@;
        collect_expr_refs(fmt, &v[i].1, out);
        proof {
            assert(v@.take(i + 1).subrange(0, i as int) =~= v@.take(i as int));
            lemma_sg_chain(o0, o1, out@, fields_refs(*fmt, v@.take(i as int)), expr_refs(*fmt, &v@[i as int].1));
        }
        i = i + 1;
    }
    proof { assert(v@.take(v@.len() as int) =~= v@); }
}

fn refs_in_arms<F: Fn(&TypeAnnotation) -> String>(fmt: &F, v: &Vec<MatchArm>, out: &mut Vec<Symbol>)
    requires
        formats_types(*fmt),
    ensures
        grew_syms(old(out)@, final(out)@, arms_refs(*fmt, v@)),
    decreases v,
{
    let ghost o0 = out@;
    let mut i: usize = 0;
    proof {
        lemma_sg_refl(out@);
        assert(v@.take(0) =~= Seq::<MatchArm>::empty());
    }
    while i < v.len()
        invariant
            formats_types(*fmt),
            i <= v@.len(),
            grew_syms(o0, out@, arms_refs(*fmt, v@.take(i as int))),
        decreases v@.len() - i,
    {
        let ghost o1 = out@;
        let arm = &v[i];
        refs_in_block(fmt, &arm.body, out);
        let ghost o2 = out@;
        match &arm.guard {
            Some(g) => collect_expr_refs(fmt, g, out),
            None => {
                proof { lemma_sg_refl(out@); }
            },
        }
        proof {
            assert(v@.take(i + 1).subrange(0, i as int) =~= v@.take(i as int));
            let g = match &arm.guard {
                Some(g) => expr_refs(*fmt, g),
                None => seq![],
            };
            lemma_sg_chain(o1, o2, out@, each_refs(*fmt, &arm.body), g);
            lemma_sg_chain(o0, o1, out@, arms_refs(*fmt, v@.take(i as int)), each_refs(*fmt, &arm.body) + g);
            assert(arms_refs(*fmt, v@.take(i as int)) + (each_refs(*fmt, &arm.body) + g) =~= arms_refs(*fmt, v@.take(i as int)) + each_refs(*fmt, &arm.body) + g);
        }
        i = i + 1;
    }
    proof { assert(v@.take(v@.len() as int) =~= v@); }
}

fn refs_in_parts<F: Fn(&TypeAnnotation) -> String>(fmt: &F, v: &Vec<TemplatePart>, out: &mut Vec<Symbol>)
    requires
        formats_types(*fmt),
    ensures
        grew_syms(old(out)@, final(out)@, parts_refs(*fmt, v@)),
    decreases v,
{
    let ghost o0 = out@;
    let mut i: usize = 0;
    proof {
        lemma_sg_refl(out@);
        assert(v@.take(0) =~= Seq::<TemplatePart>::empty());
    }
    while i < v.len()
        invariant
            formats_types(*fmt),
            i <= v@.len(),
            grew_syms(o0, out@, parts_refs(*fmt, v@.take(i as int))),
        decreases v@.len() - i,
    {
        let ghost o1 = out@;
        match &v[i] {
            TemplatePart::Interpolation(x) => collect_expr_refs(fmt, x, out),
            TemplatePart::Static(_) => {
                proof { lemma_sg_refl(out@); }
            },
        }
        proof {
            assert(v@.take(i + 1).subrange(0, i as int) =~= v@.take(i as int));
            lemma_sg_chain(o0, o1, out@, parts_refs(*fmt, v@.take(i as int)), match &v@[i as int] {
                TemplatePart::Interpolation(x) => expr_refs(*fmt, x),
                TemplatePart::Static(_) => seq![],
            });
        }
        i = i + 1;
    }
    proof { assert(v@.take(v@.len() as int) =~= v@); }
}

fn refs_in_block<F: Fn(&TypeAnnotation) -> String>(fmt: &F, b: &Block, out: &mut Vec<Symbol>)
    requires
        formats_types(*fmt),
    ensures
        grew_syms(old(out)@, final(out)@, each_refs(*fmt, b)),
    decreases b,
{
    let v = &b.statements;
    let ghost o0 = out@;
    let mut i: usize = 0;
    proof {
        lemma_sg_refl(out@);
        assert(v@.take(0) =~= Seq::<Statement>::empty());
    }
    while i < v.len()
        invariant
            v == &b.statements,
            formats_types(*fmt),
            i <= v@.len(),
            grew_syms(o0, out@, each_stmts_refs(*fmt, v@.take(i as int))),
        decreases v@.len() - i,
    {
        let ghost o1 = out@;
        refs_in_stmt(fmt, &v[i], out);
        proof {
            assert(v@.take(i + 1).subrange(0, i as int) =~= v@.take(i as int));
            lemma_sg_chain(o0, o1, out@, each_stmts_refs(*fmt, v@.take(i as int)), each_stmt_refs(*fmt, &v@[i as int]));
        }
        i = i + 1;
    }
    proof { assert(v@.take(v@.len() as int) =~= v@); }
}

fn refs_in_opt<F: Fn(&TypeAnnotation) -> String>(fmt: &F, o: &Option<Expression>, out: &mut Vec<Symbol>)
    requires
        formats_types(*fmt),
    ensures
        grew_syms(old(out)@, final(out)@, match o {
            Some(x) => expr_refs(*fmt, x),
            None => seq![],
        }),
    decreases o,
{
    match o {
        Some(x) => collect_expr_refs(fmt, x, out),
        None => {
            proof { lemma_sg_refl(out@); }
        },
    }
}

fn refs_in_stmt<F: Fn(&TypeAnnotation) -> String>(fmt: &F, st: &Statement, out: &mut Vec<Symbol>)
    requires
        formats_types(*fmt),
    ensures
        grew_syms(old(out)@, final(out)@, each_stmt_refs(*fmt, st)),
    decreases st,
{
    let ghost f = *fmt;
    let ghost o0 = out@;
    match st {
        Statement::Let(l) => collect_expr_refs(fmt, &l.value, out),
        Statement::Const(l) => collect_expr_refs(fmt, &l.value, out),
        Statement::Assign(a) => {
            collect_expr_refs(fmt, &a.target, out);
            let ghost o1 = out@;
            collect_expr_refs(fmt, &a.value, out);
            proof { lemma_sg_chain(o0, o1, out@, expr_refs(f, &a.target), expr_refs(f, &a.value)); }
        },
        Statement::Return(r) => refs_in_opt(fmt, &r.value, out),
        Statement::If(i) => {
            collect_expr_refs(fmt, &i.condition, out);
            let ghost o1 = out@;
            refs_in_block(fmt, &i.then_block, out);
            let ghost o2 = out@;
            proof { lemma_sg_chain(o0, o1, o2, expr_refs(f, &i.condition), each_refs(f, &i.then_block)); }
            match &i.else_block {
                Some(el) => refs_in_block(fmt, el, out),
                None => {
                    proof { lemma_sg_refl(out@); }
                },
            }
            proof {
                lemma_sg_chain(o0, o2, out@, expr_refs(f, &i.condition) + each_refs(f, &i.then_block), match &i.else_block {
                    Some(el) => each_refs(f, el),
                    None => seq![],
                });
            }
        },
        Statement::While(w) => {
            collect_expr_refs(fmt, &w.condition, out);
            let ghost o1 = out@;
            refs_in_block(fmt, &w.body, out);
            proof { lemma_sg_chain(o0, o1, out@, expr_refs(f, &w.condition), each_refs(f, &w.body)); }
        },
        Statement::For(fo) => {
            let ghost hk = match &fo.kind {
                ForKind::Range { start, end } => expr_refs(f, start) + expr_refs(f, end),
                ForKind::Iterable { iterable } => expr_refs(f, iterable),
            };
            match &fo.kind {
                ForKind::Range { start, end } => {
                    collect_expr_refs(fmt, start, out);
                    let ghost oa = out@;
                    collect_expr_refs(fmt, end, out);
                    proof { lemma_sg_chain(o0, oa, out@, expr_refs(f, start), expr_refs(f, end)); }
                },
                ForKind::Iterable { iterable } => collect_expr_refs(fmt, iterable, out),
            }
            let ghost o1 = out@;
            refs_in_block(fmt, &fo.body, out);
            proof { lemma_sg_chain(o0, o1, out@, hk, each_refs(f, &fo.body)); }
        },
        Statement::Expression(x) => collect_expr_refs(fmt, x, out),
        Statement::Defer(x) => collect_expr_refs(fmt, x, out),
        Statement::Print(p) => {
            refs_in_exprs(fmt, &p.args, out);
            let ghost o1 = out@;
            refs_in_opt(fmt, &p.color, out);
            proof {
                lemma_sg_chain(o0, o1, out@, exprs_refs(f, p.args@), match &p.color {
                    Some(c) => expr_refs(f, c),
                    None => seq![],
                });
            }
        },
        Statement::Spawn(b) => refs_in_block(fmt, b, out),
        Statement::Unsafe(b) => refs_in_block(fmt, b, out),
        Statement::Benchmark(b) => refs_in_block(fmt, b, out),
        _ => {
            proof { lemma_sg_refl(out@); }
        },
    }
}

/// Appends the symbols of a block: bindings it declares and references it makes.
pub fn collect_block_symbols<F: Fn(&TypeAnnotation) -> String>(fmt: &F, b: &Block, out: &mut Vec<Symbol>)
    requires
        formats_types(*fmt),
    ensures
        grew_syms(old(out)@, final(out)@, block_syms(*fmt, b)),
    decreases b,
{
    let v = &b.statements;
    let ghost o0 = out@;
    let mut i: usize = 0;
    proof {
        lemma_sg_refl(out@);
        assert(v@.take(0) =~= Seq::<Statement>::empty());
    }
    while i < v.len()
        invariant
            v == &b.statements,
            formats_types(*fmt),
            i <= v@.len(),
            grew_syms(o0, out@, stmts_syms(*fmt, v@.take(i as int))),
        decreases v@.len() - i,
    {
        let ghost o1 = out@;
        collect_stmt_symbols(fmt, &v[i], out);
        proof {
            assert(v@.take(i + 1).subrange(0, i as int) =~= v@.take(i as int));
            lemma_sg_chain(o0, o1, out@, stmts_syms(*fmt, v@.take(i as int)), stmt_syms(*fmt, &v@[i as int]));
        }
        i = i + 1;
    }
    proof { assert(v@.take(v@.len() as int) =~= v@); }
}

/// Appends the symbols of a statement.
pub fn collect_stmt_symbols<F: Fn(&TypeAnnotation) -> String>(fmt: &F, st: &Statement, out: &mut Vec<Symbol>)
    requires
        formats_types(*fmt),
    ensures
        grew_syms(old(out)@, final(out)@, stmt_syms(*fmt, st)),
    decreases st,
{
    let ghost f = *fmt;
    let ghost o0 = out@;
    match st {
        Statement::Let(l) => {
            collect_let_symbols(fmt, l, out);
            let ghost o1 = out@;
            collect_expr_refs(fmt, &l.value, out);
            proof { lemma_sg_chain(o0, o1, out@, let_syms(f, l), expr_refs(f, &l.value)); }
        },
        Statement::Const(l) => {
            collect_let_symbols(fmt, l, out);
            let ghost o1 = out@;
            collect_expr_refs(fmt, &l.value, out);
            proof { lemma_sg_chain(o0, o1, out@, let_syms(f, l), expr_refs(f, &l.value)); }
        },
        Statement::Assign(a) => {
            collect_expr_refs(fmt, &a.target, out);
            let ghost o1 = out@;
            collect_expr_refs(fmt, &a.value, out);
            proof { lemma_sg_chain(o0, o1, out@, expr_refs(f, &a.target), expr_refs(f, &a.value)); }
        },
        Statement::Return(r) => refs_in_opt(fmt, &r.value, out),
        Statement::If(i) => {
            collect_expr_refs(fmt, &i.condition, out);
            let ghost o1 = out@;
            collect_block_symbols(fmt, &i.then_block, out);
            let ghost o2 = out@;
            proof { lemma_sg_chain(o0, o1, o2, expr_refs(f, &i.condition), block_syms(f, &i.then_block)); }
            match &i.else_block {
                Some(el) => collect_block_symbols(fmt, el, out),
                None => {
                    proof { lemma_sg_refl(out@); }
                },
            }
            proof {
                lemma_sg_chain(o0, o2, out@, expr_refs(f, &i.condition) + block_syms(f, &i.then_block), match &i.else_block {
                    Some(el) => block_syms(f, el),
                    None => seq![],
                });
            }
        },
        Statement::While(w) => {
            collect_expr_refs(fmt, &w.condition, out);
            let ghost o1 = out@;
            collect_block_symbols(fmt, &w.body, out);
            proof { lemma_sg_chain(o0, o1, out@, expr_refs(f, &w.condition), block_syms(f, &w.body)); }
        },
        Statement::For(fo) => {
            let ghost hk = match &fo.kind {
                ForKind::Range { start, end } => expr_refs(f, start) + expr_refs(f, end),
                ForKind::Iterable { iterable } => expr_refs(f, iterable),
            };
            match &fo.kind {
                ForKind::Range { start, end } => {
                    collect_expr_refs(fmt, start, out);
                    let ghost oa = out@;
                    collect_expr_refs(fmt, end, out);
                    proof { lemma_sg_chain(o0, oa, out@, expr_refs(f, start), expr_refs(f, end)); }
                },
                ForKind::Iterable { iterable } => collect_expr_refs(fmt, iterable, out),
            }
            let ghost o1 = out@;
            let sp = Span::none();
            let var = Symbol {
                name: fo.var.clone(),
                kind: SymbolKind::Variable,
                span: sp,
                detail: Some(String::from_str("i32")),
                renameable: true,
            };
            push_sym(out, var);
            let ghost o2 = out@;
            let ghost vs = seq![(fo.var@, SymbolKind::Variable, no_span(), Some("i32"@), true)];
            proof { lemma_sg_chain(o0, o1, o2, hk, vs); }
            collect_block_symbols(fmt, &fo.body, out);
            proof { lemma_sg_chain(o0, o2, out@, hk + vs, block_syms(f, &fo.body)); }
        },
        Statement::Expression(x) => collect_expr_refs(fmt, x, out),
        Statement::Defer(x) => collect_expr_refs(fmt, x, out),
        Statement::Print(p) => {
            refs_in_exprs(fmt, &p.args, out);
            let ghost o1 = out@;
            refs_in_opt(fmt, &p.color, out);
            proof {
                lemma_sg_chain(o0, o1, out@, exprs_refs(f, p.args@), match &p.color {
                    Some(c) => expr_refs(f, c),
                    None => seq![],
                });
            }
        },
        Statement::Spawn(b) => collect_block_symbols(fmt, b, out),
        Statement::Unsafe(b) => collect_block_symbols(fmt, b, out),
        Statement::Benchmark(b) => collect_block_symbols(fmt, b, out),
        _ => {
            proof { lemma_sg_refl(out@); }
        },
    }
}


/// Appends the symbols of a function: itself, its parameters and its body.
pub fn collect_function<F: Fn(&TypeAnnotation) -> String>(fmt: &F, f: &Function, out: &mut Vec<Symbol>)
    requires
        formats_types(*fmt),
    ensures
        grew_syms(old(out)@, final(out)@, function_syms(*fmt, f)),
{
    let ghost o0 = out@;
    let d = sig_detail_of(fmt, &f.params, &f.return_type);
    push_sym(out, Symbol { name: f.name.clone(), kind: SymbolKind::Function, span: f.span.clone(), detail: Some(d), renameable: true });
    let ghost o1 = out@;
    let ghost head = seq![(f.name@, SymbolKind::Function, span_view(f.span), Some(sig_detail(*fmt, f.params@, f.return_type)), true)];
    collect_params(fmt, &f.params, out);
    let ghost o2 = out@;
    proof { lemma_sg_chain(o0, o1, o2, head, params_syms(*fmt, f.params@)); }
    collect_block_symbols(fmt, &f.body, out);
    proof { lemma_sg_chain(o0, o2, out@, head + params_syms(*fmt, f.params@), block_syms(*fmt, &f.body)); }
}

/// Appends the symbols of a struct: itself, its fields and its JSON helpers.
pub fn collect_struct<F: Fn(&TypeAnnotation) -> String>(fmt: &F, sd: &StructDef, out: &mut Vec<Symbol>)
    requires
        formats_types(*fmt),
    ensures
        grew_syms(old(out)@, final(out)@, struct_syms(*fmt, sd)),
{
    let ghost o0 = out@;
    let mut tys: Vec<String> = Vec::new();
    let mut i: usize = 0;
    while i < sd.fields.len()
        invariant
            formats_types(*fmt),
            i <= sd.fields@.len(),
            tys@.len() == i,
            forall|j: int| 0 <= j < i ==> (#[trigger] tys@[j])@ == type_text(*fmt, sd.fields@[j].ty),
        decreases sd.fields@.len() - i,
    {
        tys.push(text_of_type(fmt, &sd.fields[i].ty));
        i = i + 1;
    }
    assert(texts(tys@) =~= sd.fields@.map_values(|fd: crate::ast::StructField| type_text(*fmt, fd.ty)));
    let detail = struct_detail(sd, tys.as_slice());
    push_sym(out, Symbol { name: sd.name.clone(), kind: SymbolKind::Struct, span: Span::none(), detail: Some(detail), renameable: false });
    let ghost o1 = out@;
    let ghost fview = sd.fields@.map_values(|fd: crate::ast::StructField| (
        fd.name@,
        SymbolKind::Field,
        no_span(),
        Some(sd.name@ + ": "@ + type_text(*fmt, fd.ty)),
        false,
    ));
    let mut k: usize = 0;
    proof {
        lemma_sg_refl(out@);
    }
    while k < sd.fields.len()
        invariant
            formats_types(*fmt),
            k <= sd.fields@.len(),
            tys@.len() == sd.fields@.len(),
            forall|j: int| 0 <= j < tys@.len() ==> (#[trigger] tys@[j])@ == type_text(*fmt, sd.fields@[j].ty),
            fview == sd.fields@.map_values(|fd: crate::ast::StructField| (
                fd.name@,
                SymbolKind::Field,
                no_span(),
                Some(sd.name@ + ": "@ + type_text(*fmt, fd.ty)),
                false,
            )),
            grew_syms(o1, out@, fview.take(k as int)),
        decreases sd.fields@.len() - k,
    {
        let ghost oa = out@;
        let fd = &sd.fields[k];
        let d = sd.name.clone().concat(": ").concat(tys[k].as_str());
        push_sym(out, Symbol { name: fd.name.clone(), kind: SymbolKind::Field, span: Span::none(), detail: Some(d), renameable: false });
        proof {
            assert(fview.take(k + 1) =~= fview.take(k as int) + seq![fview[k as int]]);
            lemma_sg_chain(o1, oa, out@, fview.take(k as int), seq![fview[k as int]]);
        }
        k = k + 1;
    }
    proof {
        assert(fview.take(fview.len() as int) =~= fview);
    }
    let ghost o2 = out@;
    let enc = sd.name.clone().concat("_json_encode");
    let dec = sd.name.clone().concat("_json_decode");
    let enc_detail = String::from_str("fn ").concat(enc.as_str()).concat("(self: ").concat(sd.name.as_str()).concat(
        ") -> string  // synthesized JSON encode",
    );
    let dec_detail = String::from_str("fn ").concat(dec.as_str()).concat("(json: string) -> ").concat(sd.name.as_str()).concat(
        "  // synthesized JSON decode",
    );
    push_sym(out, Symbol { name: enc, kind: SymbolKind::Function, span: Span::none(), detail: Some(enc_detail), renameable: false });
    let ghost o3 = out@;
    push_sym(out, Symbol { name: dec, kind: SymbolKind::Function, span: Span::none(), detail: Some(dec_detail), renameable: false });
    proof {
        let head = seq![(
            sd.name@,
            SymbolKind::Struct,
            no_span(),
            Some(spec_struct_detail(
                sd.name@,
                sd.fields@.map_values(|fd: crate::ast::StructField| fd.name@),
                sd.fields@.map_values(|fd: crate::ast::StructField| type_text(*fmt, fd.ty)),
            )),
            false,
        )];
        let e1 = seq![syms_view(o3).last()];
        let e2 = seq![syms_view(out@).last()];
        assert(syms_view(o3) =~= syms_view(o2) + e1);
        assert(syms_view(out@) =~= syms_view(o3) + e2);
        lemma_sg_chain(o0, o1, o2, head, fview);
        lemma_sg_chain(o0, o2, o3, head + fview, e1);
        lemma_sg_chain(o0, o3, out@, head + fview + e1, e2);
        assert(head + fview + e1 + e2 =~= struct_syms(*fmt, sd));
    }
}

/// Symbols of a whole program (see [`program_syms`]), each detail using `fmt`
/// for the type annotations.
pub fn collect_symbols<F: Fn(&TypeAnnotation) -> String>(fmt: &F, program: &Program) -> (r: Vec<Symbol>)
    requires
        formats_types(*fmt),
    ensures
        syms_view(r@) == program_syms(*fmt, program),
{
    let mut out: Vec<Symbol> = Vec::new();
    let ghost f = *fmt;
    match &program.module {
        Some(m) => {
            push_sym(&mut out, Symbol { name: m.clone(), kind: SymbolKind::Module, span: Span::none(), detail: None, renameable: false });
        },
        None => {},
    }
    let ghost part0 = match &program.module {
        Some(m) => seq![(m@, SymbolKind::Module, no_span(), None::<Seq<char>>, false)],
        None => seq![],
    };
    proof {
        assert(syms_view(out@) =~= part0);
    }
    let ghost o0 = out@;
    let mut i: usize = 0;
    while i < program.structs.len()
        invariant
            formats_types(*fmt),
            f == *fmt,
            i <= program.structs@.len(),
            grew_syms(o0, out@, concat_over(program.structs@, i as int, |sd: StructDef| struct_syms(f, &sd))),
        decreases program.structs@.len() - i,
    {
        let ghost oa = out@;
        collect_struct(fmt, &program.structs[i], &mut out);
        proof {
            lemma_sg_chain(o0, oa, out@, concat_over(program.structs@, i as int, |sd: StructDef| struct_syms(f, &sd)), struct_syms(f, &program.structs@[i as int]));
        }
        i = i + 1;
    }
    let ghost o1 = out@;
    let ghost es = program.enums@.map_values(|e: EnumDef| enum_sym(f, e));
    let mut i: usize = 0;
    proof { lemma_sg_refl(out@); }
    while i < program.enums.len()
        invariant
            formats_types(*fmt),
            f == *fmt,
            i <= program.enums@.len(),
            es == program.enums@.map_values(|e: EnumDef| enum_sym(f, e)),
            grew_syms(o1, out@, es.take(i as int)),
        decreases program.enums@.len() - i,
    {
        let ghost oa = out@;
        let e = &program.enums[i];
        let mut vt: Vec<Vec<String>> = Vec::new();
        let mut k: usize = 0;
        while k < e.variants.len()
            invariant
                formats_types(*fmt),
                f == *fmt,
                k <= e.variants@.len(),
                vt@.len() == k,
                forall|j: int| 0 <= j < k ==> texts((#[trigger] vt@[j])@) == type_texts(f, e.variants@[j].fields@),
            decreases e.variants@.len() - k,
        {
            vt.push(texts_of_types(fmt, &e.variants[k].fields));
            k = k + 1;
        }
        assert(vt@.map_values(|v: Vec<String>| texts(v@)) =~= e.variants@.map_values(|v: crate::ast::EnumVariantDef| type_texts(f, v.fields@)));
        let d = enum_detail(e, vt.as_slice());
        push_sym(&mut out, Symbol { name: e.name.clone(), kind: SymbolKind::Enum, span: Span::none(), detail: Some(d), renameable: false });
        proof {
            assert(es.take(i + 1) =~= es.take(i as int) + seq![es[i as int]]);
            lemma_sg_chain(o1, oa, out@, es.take(i as int), seq![es[i as int]]);
        }
        i = i + 1;
    }
    proof { assert(es.take(es.len() as int) =~= es); }
    let ghost o2 = out@;
    let ghost xs = program.externs@.map_values(|x: ExternFn| extern_sym(f, x));
    let mut i: usize = 0;
    proof { lemma_sg_refl(out@); }
    while i < program.externs.len()
        invariant
            formats_types(*fmt),
            f == *fmt,
            i <= program.externs@.len(),
            xs == program.externs@.map_values(|x: ExternFn| extern_sym(f, x)),
            grew_syms(o2, out@, xs.take(i as int)),
        decreases program.externs@.len() - i,
    {
        let ghost oa = out@;
        let x = &program.externs[i];
        let d = sig_detail_of(fmt, &x.params, &x.return_type);
        push_sym(&mut out, Symbol { name: x.name.clone(), kind: SymbolKind::Extern, span: Span::none(), detail: Some(d), renameable: false });
        proof {
            assert(xs.take(i + 1) =~= xs.take(i as int) + seq![xs[i as int]]);
            lemma_sg_chain(o2, oa, out@, xs.take(i as int), seq![xs[i as int]]);
        }
        i = i + 1;
    }
    proof { assert(xs.take(xs.len() as int) =~= xs); }
    let ghost o3 = out@;
    let mut i: usize = 0;
    while i < program.functions.len()
        invariant
            formats_types(*fmt),
            f == *fmt,
            i <= program.functions@.len(),
            grew_syms(o3, out@, concat_over(program.functions@, i as int, |g: Function| function_syms(f, &g))),
        decreases program.functions@.len() - i,
    {
        let ghost oa = out@;
        collect_function(fmt, &program.functions[i], &mut out);
        proof {
            lemma_sg_chain(o3, oa, out@, concat_over(program.functions@, i as int, |g: Function| function_syms(f, &g)), function_syms(f, &program.functions@[i as int]));
        }
        i = i + 1;
    }
    let ghost o4 = out@;
    let ghost fi = |im: crate::ast::ImplDef| concat_over(im.methods@, im.methods@.len() as int, |g: Function| function_syms(f, &g));
    let mut i: usize = 0;
    while i < program.impls.len()
        invariant
            formats_types(*fmt),
            f == *fmt,
            i <= program.impls@.len(),
            fi == (|im: crate::ast::ImplDef| concat_over(im.methods@, im.methods@.len() as int, |g: Function| function_syms(f, &g))),
            grew_syms(o4, out@, concat_over(program.impls@, i as int, fi)),
        decreases program.impls@.len() - i,
    {
        let ghost oa = out@;
        let im = &program.impls[i];
        let mut k: usize = 0;
        proof { lemma_sg_refl(out@); }
        while k < im.methods.len()
            invariant
                formats_types(*fmt),
                f == *fmt,
                k <= im.methods@.len(),
                grew_syms(oa, out@, concat_over(im.methods@, k as int, |g: Function| function_syms(f, &g))),
            decreases im.methods@.len() - k,
        {
            let ghost ob = out@;
            collect_function(fmt, &im.methods[k], &mut out);
            proof {
                lemma_sg_chain(oa, ob, out@, concat_over(im.methods@, k as int, |g: Function| function_syms(f, &g)), function_syms(f, &im.methods@[k as int]));
            }
            k = k + 1;
        }
        proof {
            lemma_sg_chain(o4, oa, out@, concat_over(program.impls@, i as int, fi), fi(program.impls@[i as int]));
        }
        i = i + 1;
    }
    let ghost o5 = out@;
    let ghost cs = program.consts@.map_values(|c: crate::ast::ConstDef| (c.name@, SymbolKind::Constant, no_span(), match c.ty {
        Some(t) => Some(type_text(f, t)),
        None => None,
    }, true));
    let mut i: usize = 0;
    proof { lemma_sg_refl(out@); }
    while i < program.consts.len()
        invariant
            formats_types(*fmt),
            f == *fmt,
            i <= program.consts@.len(),
            cs == program.consts@.map_values(|c: crate::ast::ConstDef| (c.name@, SymbolKind::Constant, no_span(), match c.ty {
                Some(t) => Some(type_text(f, t)),
                None => None,
            }, true)),
            grew_syms(o5, out@, cs.take(i as int)),
        decreases program.consts@.len() - i,
    {
        let ghost oa = out@;
        let c = &program.consts[i];
        let d = match &c.ty {
            Some(t) => Some(text_of_type(fmt, t)),
            None => None,
        };
        push_sym(&mut out, Symbol { name: c.name.clone(), kind: SymbolKind::Constant, span: Span::none(), detail: d, renameable: true });
        proof {
            assert(cs.take(i + 1) =~= cs.take(i as int) + seq![cs[i as int]]);
            lemma_sg_chain(o5, oa, out@, cs.take(i as int), seq![cs[i as int]]);
        }
        i = i + 1;
    }
    proof {
        assert(cs.take(cs.len() as int) =~= cs);
        let a1 = concat_over(program.structs@, program.structs@.len() as int, |sd: StructDef| struct_syms(f, &sd));
        let a4 = concat_over(program.functions@, program.functions@.len() as int, |g: Function| function_syms(f, &g));
        let a5 = concat_over(program.impls@, program.impls@.len() as int, fi);
        lemma_sg_chain(o0, o1, o2, a1, es);
        lemma_sg_chain(o0, o2, o3, a1 + es, xs);
        lemma_sg_chain(o0, o3, o4, a1 + es + xs, a4);
        lemma_sg_chain(o0, o4, o5, a1 + es + xs + a4, a5);
        lemma_sg_chain(o0, o5, out@, a1 + es + xs + a4 + a5, cs);
        assert(syms_view(out@) =~= program_syms(f, program));
    }
    out
}


/// Order of symbols: by start line, then start column.
pub open spec fn sym_le(a: (Seq<char>, SymbolKind, (Seq<char>, Position, Position), Option<Seq<char>>, bool), b: (Seq<char>, SymbolKind, (Seq<char>, Position, Position), Option<Seq<char>>, bool)) -> bool {
    a.2.1.line < b.2.1.line || (a.2.1.line == b.2.1.line && a.2.1.column <= b.2.1.column)
}

/// `x` inserted into `s` after the last element that is not after it.
pub open spec fn insert_sym(s: Seq<(Seq<char>, SymbolKind, (Seq<char>, Position, Position), Option<Seq<char>>, bool)>, x: (Seq<char>, SymbolKind, (Seq<char>, Position, Position), Option<Seq<char>>, bool)) -> Seq<(Seq<char>, SymbolKind, (Seq<char>, Position, Position), Option<Seq<char>>, bool)>
    decreases s.len(),
{
    if s.len() == 0 {
        seq![x]
    } else if sym_le(s.last(), x) {
        s.push(x)
    } else {
        insert_sym(s.drop_last(), x).push(s.last())
    }
}

/// Stable sort of symbols by position.
pub open spec fn sort_syms(s: Seq<(Seq<char>, SymbolKind, (Seq<char>, Position, Position), Option<Seq<char>>, bool)>) -> Seq<(Seq<char>, SymbolKind, (Seq<char>, Position, Position), Option<Seq<char>>, bool)>
    decreases s.len(),
{
    if s.len() == 0 {
        seq![]
    } else {
        insert_sym(sort_syms(s.drop_last()), s.last())
    }
}

proof fn lemma_insert_sym_split(s: Seq<(Seq<char>, SymbolKind, (Seq<char>, Position, Position), Option<Seq<char>>, bool)>, x: (Seq<char>, SymbolKind, (Seq<char>, Position, Position), Option<Seq<char>>, bool), j: int)
    requires
        0 <= j <= s.len(),
        forall|k: int| j <= k < s.len() ==> !sym_le(#[trigger] s[k], x),
    ensures
        insert_sym(s, x) == insert_sym(s.take(j), x) + s.skip(j),
    decreases s.len() - j,
{
    if j < s.len() {
        assert(!sym_le(s.last(), x));
        lemma_insert_sym_split(s.drop_last(), x, j);
        assert(s.drop_last().take(j) =~= s.take(j));
        assert(insert_sym(s.take(j), x) + s.skip(j) =~= (insert_sym(s.take(j), x) + s.drop_last().skip(j)).push(s.last()));
    } else {
        assert(s.take(j) =~= s);
        assert(s.skip(j) =~= Seq::<(Seq<char>, SymbolKind, (Seq<char>, Position, Position), Option<Seq<char>>, bool)>::empty());
    }
}

fn insert_symbol(out: &mut Vec<Symbol>, sym: Symbol)
    ensures
        syms_view(final(out)@) == insert_sym(syms_view(old(out)@), sym_view(sym)),
{
    let ghost v = syms_view(out@);
    let ghost x = sym_view(sym);
    let mut j: usize = out.len();
    while j > 0 && !(out[j - 1].span.start.line < sym.span.start.line || (out[j - 1].span.start.line
        == sym.span.start.line && out[j - 1].span.start.column <= sym.span.start.column))
        invariant
            out@ == old(out)@,
            v == syms_view(out@),
            x == sym_view(sym),
            j <= out@.len(),
            forall|k: int| j <= k < v.len() ==> !sym_le(#[trigger] v[k], x),
        decreases j,
    {
        j = j - 1;
    }
    proof {
        lemma_insert_sym_split(v, x, j as int);
        if j > 0 {
            assert(sym_le(v.take(j as int).last(), x));
            assert(insert_sym(v.take(j as int), x) =~= v.take(j as int).push(x));
        } else {
            assert(insert_sym(v.take(0), x) =~= seq![x]);
        }
    }
    out.insert(j, sym);
    proof {
        assert(syms_view(out@) =~= v.take(j as int).push(x) + v.skip(j as int));
    }
}

impl DocumentAnalysis {
    /// The analysis of a parsed (and expanded) program: its symbols and the
    /// keyword symbols, stably ordered by position; the parameter-name hints
    /// merged with the type hints of the inferred bindings.
    pub fn from_program<F: Fn(&TypeAnnotation) -> String>(
        program: &Program,
        fmt: &F,
        typecheck_ok: bool,
        inferred: &[crate::inlay::InferredBinding],
    ) -> (r: Self)
        requires
            formats_types(*fmt),
        ensures
            r.parse_ok,
            r.typecheck_ok == typecheck_ok,
            syms_view(r.symbols@) == sort_syms(program_syms(*fmt, program) + keyword_views()),
            crate::inlay::hints_view(r.inlay_hints@) == crate::inlay::sort_hints(
                crate::inlay::type_hint_views(inferred@) + crate::inlay::program_param_hints(program),
            ),
    {
        let inlay_hints = crate::inlay::collect_inlay_hints(inferred, program);
        let mut all = collect_symbols(fmt, program);
        let kws = keyword_symbols();
        let ghost a0 = syms_view(all@);
        let mut k: usize = 0;
        while k < kws.len()
            invariant
                k <= kws@.len(),
                syms_view(all@) == a0 + syms_view(kws@.take(k as int)),
            decreases kws@.len() - k,
        {
            let ghost before = syms_view(all@);
            all.push(kws[k].clone());
            proof {
                assert(syms_view(all@) =~= before.push(sym_view(kws@[k as int])));
                assert(syms_view(kws@.take(k + 1)) =~= syms_view(kws@.take(k as int)).push(sym_view(kws@[k as int])));
            }
            k = k + 1;
        }
        proof {
            assert(kws@.take(kws@.len() as int) =~= kws@);
            lemma_keyword_views(kws@);
        }
        let ghost input = syms_view(all@);
        let mut symbols: Vec<Symbol> = Vec::new();
        let mut i: usize = 0;
        proof {
            assert(input.take(0) =~= Seq::<(Seq<char>, SymbolKind, (Seq<char>, Position, Position), Option<Seq<char>>, bool)>::empty());
            assert(syms_view(symbols@) =~= seq![]);
        }
        while i < all.len()
            invariant
                input == syms_view(all@),
                i <= all@.len(),
                syms_view(symbols@) == sort_syms(input.take(i as int)),
            decreases all@.len() - i,
        {
            insert_symbol(&mut symbols, all[i].clone());
            proof {
                assert(input.take(i + 1).drop_last() =~= input.take(i as int));
                assert(input.take(i + 1).last() == sym_view(all@[i as int]));
            }
            i = i + 1;
        }
        proof {
            assert(input.take(input.len() as int) =~= input);
        }
        DocumentAnalysis { symbols, parse_ok: true, typecheck_ok, inlay_hints }
    }
}

/// The keyword symbols as plain values.
pub open spec fn keyword_views() -> Seq<(Seq<char>, SymbolKind, (Seq<char>, Position, Position), Option<Seq<char>>, bool)> {
    spec_keywords().map_values(|k: Seq<char>| (k, SymbolKind::Keyword, no_span(), Some("keyword"@), false))
}

proof fn lemma_keyword_views(kws: Seq<Symbol>)
    requires
        kws.len() == spec_keywords().len(),
        forall|i: int| 0 <= i < kws.len() ==> crate::analysis::is_keyword_symbol(#[trigger] kws[i], spec_keywords()[i]),
    ensures
        syms_view(kws) == keyword_views(),
{
    assert forall|i: int| 0 <= i < kws.len() implies #[trigger] syms_view(kws)[i] == keyword_views()[i] by {
        assert(crate::analysis::is_keyword_symbol(kws[i], spec_keywords()[i]));
    }
    assert(syms_view(kws) =~= keyword_views());
}

} // verus!
