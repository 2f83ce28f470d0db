//! Math intrinsics (`abs`, `min`, `max`, `clamp`, `sin`, `cos`, `tan`,
//! `atan2`): which one a call means, how many arguments it takes, and the IR
//! that lowers it once its arguments are lowered.
use vstd::prelude::*;
use crate::ast::CallExpr;
use crate::lowering::{infer_expr_llvm_ty, spec_expr_llvm_ty, ExprValue, TypeScope};
use crate::num::{decimal_of, decimal_string};
use crate::text::str_eq;

verus! {

/// A math builtin lowered to an LLVM intrinsic or a runtime call.
#[derive(Debug, PartialEq, Eq, Copy, Structural)]
pub enum MathIntrinsic {
    AbsI32,
    AbsF64,
    MinI32,
    MaxI32,
    MinF64,
    MaxF64,
    SinF64,
    CosF64,
    TanF64,
    Atan2F64,
    ClampI32,
}

impl Clone for MathIntrinsic {
    fn clone(&self) -> (r: Self)
        ensures
            r == *self,
    {
        *self
    }
}

/// Number of arguments each intrinsic takes.
pub open spec fn spec_math_arity(k: MathIntrinsic) -> nat {
    match k {
        MathIntrinsic::AbsI32 | MathIntrinsic::AbsF64 | MathIntrinsic::SinF64 | MathIntrinsic::CosF64
        | MathIntrinsic::TanF64 => 1,
        MathIntrinsic::MinI32 | MathIntrinsic::MaxI32 | MathIntrinsic::MinF64 | MathIntrinsic::MaxF64
        | MathIntrinsic::Atan2F64 => 2,
        MathIntrinsic::ClampI32 => 3,
    }
}

/// Number of arguments intrinsic `k` takes (a call with another count is not
/// lowered as that intrinsic).
pub fn math_intrinsic_arity(k: MathIntrinsic) -> (r: usize)
    ensures
        r == spec_math_arity(k),
{
    match k {
        MathIntrinsic::AbsI32 | MathIntrinsic::AbsF64 | MathIntrinsic::SinF64 | MathIntrinsic::CosF64
        | MathIntrinsic::TanF64 => 1,
        MathIntrinsic::MinI32 | MathIntrinsic::MaxI32 | MathIntrinsic::MinF64 | MathIntrinsic::MaxF64
        | MathIntrinsic::Atan2F64 => 2,
        MathIntrinsic::ClampI32 => 3,
    }
}

/// The intrinsic a call means: `abs` with one argument is `AbsF64` when the
/// argument is a `double` and `AbsI32` otherwise; any other call is what
/// resolving its name gave (`resolved`).
pub open spec fn spec_select_math(
    sc: &TypeScope,
    call: &CallExpr,
    resolved: Option<MathIntrinsic>,
) -> Option<MathIntrinsic> {
    if call.callee@ == "abs"@ && call.args@.len() == 1 {
        if spec_expr_llvm_ty(sc, &call.args@[0]) == "double"@ {
            Some(MathIntrinsic::AbsF64)
        } else {
            Some(MathIntrinsic::AbsI32)
        }
    } else {
        resolved
    }
}

/// The intrinsic a call means (see `spec_select_math`); `resolved` is the
/// intrinsic its callee's name resolves to, if any.
pub fn select_math_intrinsic(sc: &TypeScope, call: &CallExpr, resolved: Option<MathIntrinsic>) -> (r: Option<
    MathIntrinsic,
>)
    requires
        sc.wf(),
    ensures
        r == spec_select_math(sc, call, resolved),
{
    if str_eq(call.callee.as_str(), "abs") && call.args.len() == 1 {
        let ty = infer_expr_llvm_ty(sc, &call.args[0]);
        if str_eq(ty.as_str(), "double") {
            Some(MathIntrinsic::AbsF64)
        } else {
            Some(MathIntrinsic::AbsI32)
        }
    } else {
        resolved
    }
}

/// What lowering one intrinsic call emits: the intrinsic declarations it
/// needs (name, declaration), the runtime function it calls if any, the IR
/// lines, the resulting value, and how many temporaries it numbered.
pub struct MathLowering {
    pub decls: Vec<(String, String)>,
    pub runtime: Option<String>,
    pub lines: Vec<String>,
    pub value: ExprValue,
    pub temps: u64,
}

/// The temporary `prefix.n`.
pub open spec fn temp_name(prefix: Seq<char>, n: nat) -> Seq<char> {
    prefix + "."@ + decimal_string(n)
}

/// The lowering of intrinsic `k` on argument operands `a` with temporaries
/// numbered from `n`, as plain values: declarations, runtime function, lines,
/// result operand, result type, temporaries used.
pub open spec fn spec_math_lowering(k: MathIntrinsic, a: Seq<Seq<char>>, n: nat) -> (
    Seq<(Seq<char>, Seq<char>)>,
    Option<Seq<char>>,
    Seq<Seq<char>>,
    Seq<char>,
    Seq<char>,
    nat,
) {
    match k {
        MathIntrinsic::AbsI32 => {
            let r = temp_name("abs"@, n);
            (
                seq![("llvm.abs.i32"@, "declare i32 @llvm.abs.i32(i32, i1)"@)],
                None,
                seq!["  %"@ + r + " = call i32 @llvm.abs.i32(i32 "@ + a[0] + ", i1 true)"@],
                "%"@ + r,
                "i32"@,
                1,
            )
        },
        MathIntrinsic::AbsF64 => {
            let r = temp_name("fabs"@, n);
            (
                seq![("llvm.fabs.f64"@, "declare double @llvm.fabs.f64(double)"@)],
                None,
                seq!["  %"@ + r + " = call double @llvm.fabs.f64(double "@ + a[0] + ")"@],
                "%"@ + r,
                "double"@,
                1,
            )
        },
        MathIntrinsic::MinI32 | MathIntrinsic::MaxI32 => {
            let i = if k == MathIntrinsic::MinI32 {
                "llvm.smin.i32"@
            } else {
                "llvm.smax.i32"@
            };
            let r = temp_name("mm"@, n);
            (
                seq![(i, "declare i32 @"@ + i + "(i32, i32)"@)],
                None,
                seq!["  %"@ + r + " = call i32 @"@ + i + "(i32 "@ + a[0] + ", i32 "@ + a[1] + ")"@],
                "%"@ + r,
                "i32"@,
                1,
            )
        },
        MathIntrinsic::MinF64 | MathIntrinsic::MaxF64 => {
            let i = if k == MathIntrinsic::MinF64 {
                "llvm.minnum.f64"@
            } else {
                "llvm.maxnum.f64"@
            };
            let r = temp_name("mm"@, n);
            (
                seq![(i, "declare double @"@ + i + "(double, double)"@)],
                None,
                seq!["  %"@ + r + " = call double @"@ + i + "(double "@ + a[0] + ", double "@ + a[1] + ")"@],
                "%"@ + r,
                "double"@,
                1,
            )
        },
        MathIntrinsic::SinF64 | MathIntrinsic::CosF64 | MathIntrinsic::TanF64 => {
            let base = if k == MathIntrinsic::SinF64 {
                "sin"@
            } else if k == MathIntrinsic::CosF64 {
                "cos"@
            } else {
                "tan"@
            };
            let f = base + "_f64"@;
            let r = temp_name(base, n);
            (
                seq![],
                Some(f),
                seq!["  %"@ + r + " = call double @"@ + f + "(double "@ + a[0] + ")"@],
                "%"@ + r,
                "double"@,
                1,
            )
        },
        MathIntrinsic::Atan2F64 => {
            let r = temp_name("atan2"@, n);
            (
                seq![],
                Some("atan2_f64"@),
                seq!["  %"@ + r + " = call double @atan2_f64(double "@ + a[0] + ", double "@ + a[1] + ")"@],
                "%"@ + r,
                "double"@,
                1,
            )
        },
        MathIntrinsic::ClampI32 => {
            let t1 = temp_name("clamp"@, n);
            let t2 = temp_name("clamp"@, n + 1);
            (
                seq![
                    ("llvm.smax.i32"@, "declare i32 @llvm.smax.i32(i32, i32)"@),
                    ("llvm.smin.i32"@, "declare i32 @llvm.smin.i32(i32, i32)"@),
                ],
                None,
                seq![
                    "  %"@ + t1 + " = call i32 @llvm.smax.i32(i32 "@ + a[0] + ", i32 "@ + a[1] + ")"@,
                    "  %"@ + t2 + " = call i32 @llvm.smin.i32(i32 %"@ + t1 + ", i32 "@ + a[2] + ")"@,
                ],
                "%"@ + t2,
                "i32"@,
                2,
            )
        },
    }
}

/// The operands of lowered values.
pub open spec fn regs_of(args: Seq<ExprValue>) -> Seq<Seq<char>> {
    args.map_values(|v: ExprValue| v.reg@)
}

/// The declarations of a lowering as plain values.
pub open spec fn decl_views(d: Seq<(String, String)>) -> Seq<(Seq<char>, Seq<char>)> {
    d.map_values(|p: (String, String)| (p.0@, p.1@))
}

/// The lowering as plain values (see `spec_math_lowering`).
pub open spec fn lowering_view(m: MathLowering) -> (
    Seq<(Seq<char>, Seq<char>)>,
    Option<Seq<char>>,
    Seq<Seq<char>>,
    Seq<char>,
    Seq<char>,
    nat,
) {
    (
        decl_views(m.decls@),
        match m.runtime {
            Some(f) => Some(f@),
            None => None,
        },
        m.lines@.map_values(|l: String| l@),
        m.value.reg@,
        m.value.ty@,
        m.temps as nat,
    )
}

fn temp(prefix: &str, n: u64) -> (r: String)
    ensures
        r@ == temp_name(prefix@, n as nat),
{
    String::from_str(prefix).concat(".").concat(decimal_of(n).as_str())
}

fn one_line(l: String) -> (r: Vec<String>)
    ensures
        r@.map_values(|s: String| s@) == seq![l@],
{
    let mut v: Vec<String> = Vec::new();
    v.push(l);
    assert(v@.map_values(|s: String| s@) =~= seq![l@]);
    v
}

fn one_decl(name: &str, decl: String) -> (r: Vec<(String, String)>)
    ensures
        decl_views(r@) == seq![(name@, decl@)],
{
    let mut v: Vec<(String, String)> = Vec::new();
    v.push((String::from_str(name), decl));
    assert(decl_views(v@) =~= seq![(name@, decl@)]);
    v
}

fn no_decls() -> (r: Vec<(String, String)>)
    ensures
        decl_views(r@) == Seq::<(Seq<char>, Seq<char>)>::empty(),
{
    let v: Vec<(String, String)> = Vec::new();
    assert(decl_views(v@) =~= Seq::<(Seq<char>, Seq<char>)>::empty());
    v
}

/// The IR that lowers intrinsic `k` on the lowered arguments `args`, its
/// temporaries numbered from `first_temp` (see `spec_math_lowering`).
pub fn lower_math_intrinsic(k: MathIntrinsic, args: &[ExprValue], first_temp: u64) -> (r: MathLowering)
    requires
        args@.len() == spec_math_arity(k),
        first_temp < u64::MAX,
    ensures
        lowering_view(r) == spec_math_lowering(k, regs_of(args@), first_temp as nat),
{
    let ghost a = regs_of(args@);
    assert(forall|i: int| 0 <= i < args@.len() ==> a[i] == args@[i].reg@);
    match k {
        MathIntrinsic::AbsI32 => {
            let r = temp("abs", first_temp);
            let line = String::from_str("  %").concat(r.as_str()).concat(" = call i32 @llvm.abs.i32(i32 ").concat(
                args[0].reg.as_str(),
            ).concat(", i1 true)");
            MathLowering {
                decls: one_decl("llvm.abs.i32", String::from_str("declare i32 @llvm.abs.i32(i32, i1)")),
                runtime: None,
                lines: one_line(line),
                value: ExprValue { reg: String::from_str("%").concat(r.as_str()), ty: String::from_str("i32") },
                temps: 1,
            }
        },
        MathIntrinsic::AbsF64 => {
            let r = temp("fabs", first_temp);
            let line = String::from_str("  %").concat(r.as_str()).concat(" = call double @llvm.fabs.f64(double ").concat(
                args[0].reg.as_str(),
            ).concat(")");
            MathLowering {
                decls: one_decl("llvm.fabs.f64", String::from_str("declare double @llvm.fabs.f64(double)")),
                runtime: None,
                lines: one_line(line),
                value: ExprValue { reg: String::from_str("%").concat(r.as_str()), ty: String::from_str("double") },
                temps: 1,
            }
        },
        MathIntrinsic::MinI32 | MathIntrinsic::MaxI32 => {
            let i = if k == MathIntrinsic::MinI32 {
                "llvm.smin.i32"
            } else {
                "llvm.smax.i32"
            };
            let r = temp("mm", first_temp);
            let line = String::from_str("  %").concat(r.as_str()).concat(" = call i32 @").concat(i).concat("(i32 ").concat(
                args[0].reg.as_str(),
            ).concat(", i32 ").concat(args[1].reg.as_str()).concat(")");
            MathLowering {
                decls: one_decl(i, String::from_str("declare i32 @").concat(i).concat("(i32, i32)")),
                runtime: None,
                lines: one_line(line),
                value: ExprValue { reg: String::from_str("%").concat(r.as_str()), ty: String::from_str("i32") },
                temps: 1,
            }
        },
        MathIntrinsic::MinF64 | MathIntrinsic::MaxF64 => {
            let i = if k == MathIntrinsic::MinF64 {
                "llvm.minnum.f64"
            } else {
                "llvm.maxnum.f64"
            };
            let r = temp("mm", first_temp);
            let line = String::from_str("  %").concat(r.as_str()).concat(" = call double @").concat(i).concat(
                "(double ",
            ).concat(args[0].reg.as_str()).concat(", double ").concat(args[1].reg.as_str()).concat(")");
            MathLowering {
                decls: one_decl(i, String::from_str("declare double @").concat(i).concat("(double, double)")),
                runtime: None,
                lines: one_line(line),
                value: ExprValue { reg: String::from_str("%").concat(r.as_str()), ty: String::from_str("double") },
                temps: 1,
            }
        },
        MathIntrinsic::SinF64 | MathIntrinsic::CosF64 | MathIntrinsic::TanF64 => {
            let base = if k == MathIntrinsic::SinF64 {
                "sin"
            } else if k == MathIntrinsic::CosF64 {
                "cos"
            } else {
                "tan"
            };
            let f = String::from_str(base).concat("_f64");
            let r = temp(base, first_temp);
            let line = String::from_str("  %").concat(r.as_str()).concat(" = call double @").concat(f.as_str()).concat(
                "(double ",
            ).concat(args[0].reg.as_str()).concat(")");
            MathLowering {
                decls: no_decls(),
                runtime: Some(f),
                lines: one_line(line),
                value: ExprValue { reg: String::from_str("%").concat(r.as_str()), ty: String::from_str("double") },
                temps: 1,
            }
        },
        MathIntrinsic::Atan2F64 => {
            let r = temp("atan2", first_temp);
            let line = String::from_str("  %").concat(r.as_str()).concat(" = call double @atan2_f64(double ").concat(
                args[0].reg.as_str(),
            ).concat(", double ").concat(args[1].reg.as_str()).concat(")");
            MathLowering {
                decls: no_decls(),
                runtime: Some(String::from_str("atan2_f64")),
                lines: one_line(line),
                value: ExprValue { reg: String::from_str("%").concat(r.as_str()), ty: String::from_str("double") },
                temps: 1,
            }
        },
        MathIntrinsic::ClampI32 => {
            let t1 = temp("clamp", first_temp);
            let t2 = temp("clamp", first_temp + 1);
            let mut decls: Vec<(String, String)> = Vec::new();
            decls.push((String::from_str("llvm.smax.i32"), String::from_str("declare i32 @llvm.smax.i32(i32, i32)")));
            decls.push((String::from_str("llvm.smin.i32"), String::from_str("declare i32 @llvm.smin.i32(i32, i32)")));
            let l1 = String::from_str("  %").concat(t1.as_str()).concat(" = call i32 @llvm.smax.i32(i32 ").concat(
                args[0].reg.as_str(),
            ).concat(", i32 ").concat(args[1].reg.as_str()).concat(")");
            let l2 = String::from_str("  %").concat(t2.as_str()).concat(" = call i32 @llvm.smin.i32(i32 %").concat(
                t1.as_str(),
            ).concat(", i32 ").concat(args[2].reg.as_str()).concat(")");
            let mut lines: Vec<String> = Vec::new();
            lines.push(l1);
            lines.push(l2);
            let m = MathLowering {
                decls,
                runtime: None,
                lines,
                value: ExprValue { reg: String::from_str("%").concat(t2.as_str()), ty: String::from_str("i32") },
                temps: 2,
            };
            assert(decl_views(m.decls@) =~= spec_math_lowering(k, a, first_temp as nat).0);
            assert(m.lines@.map_values(|l: String| l@) =~= spec_math_lowering(k, a, first_temp as nat).2);
            m
        },
    }
}

/// `w` occurs in `s`.
pub open spec fn has_word(s: Seq<char>, w: Seq<char>) -> bool {
    exists|p: int| 0 <= p && p + w.len() <= s.len() && #[trigger] s.subrange(p, p + w.len()) == w
}

/// `min` and `max` never lower to the same intrinsic: the intrinsic that
/// `max` calls and declares is a maximum (its name says `max`), the one that
/// `min` calls is a minimum, on `i32` and on `f64` alike.
pub proof fn law_min_max_lower_apart(a: Seq<Seq<char>>, n: nat)
    ensures
        spec_math_lowering(MathIntrinsic::MaxI32, a, n).0[0].0 != spec_math_lowering(MathIntrinsic::MinI32, a, n).0[0].0,
        has_word(spec_math_lowering(MathIntrinsic::MaxI32, a, n).0[0].0, "max"@),
        has_word(spec_math_lowering(MathIntrinsic::MinI32, a, n).0[0].0, "min"@),
        spec_math_lowering(MathIntrinsic::MaxF64, a, n).0[0].0 != spec_math_lowering(MathIntrinsic::MinF64, a, n).0[0].0,
        has_word(spec_math_lowering(MathIntrinsic::MaxF64, a, n).0[0].0, "max"@),
        has_word(spec_math_lowering(MathIntrinsic::MinF64, a, n).0[0].0, "min"@),
{
    reveal_strlit("llvm.smax.i32");
    reveal_strlit("llvm.smin.i32");
    reveal_strlit("llvm.maxnum.f64");
    reveal_strlit("llvm.minnum.f64");
    reveal_strlit("max");
    reveal_strlit("min");
    let xi = spec_math_lowering(MathIntrinsic::MaxI32, a, n).0[0].0;
    let ni = spec_math_lowering(MathIntrinsic::MinI32, a, n).0[0].0;
    let xf = spec_math_lowering(MathIntrinsic::MaxF64, a, n).0[0].0;
    let nf = spec_math_lowering(MathIntrinsic::MinF64, a, n).0[0].0;
    assert(xi[7] != ni[7]);
    assert(xf[6] != nf[6]);
    assert(xi.subrange(6, 9) =~= "max"@);
    assert(xi.subrange(6int, 6int + "max"@.len()) == "max"@);
    assert(has_word(xi, "max"@));
    assert(ni.subrange(6, 9) =~= "min"@);
    assert(ni.subrange(6int, 6int + "min"@.len()) == "min"@);
    assert(has_word(ni, "min"@));
    assert(xf.subrange(5, 8) =~= "max"@);
    assert(xf.subrange(5int, 5int + "max"@.len()) == "max"@);
    assert(has_word(xf, "max"@));
    assert(nf.subrange(5, 8) =~= "min"@);
    assert(nf.subrange(5int, 5int + "min"@.len()) == "min"@);
    assert(has_word(nf, "min"@));
}

proof fn lemma_has_word_mid(x: Seq<char>, w: Seq<char>, y: Seq<char>)
    ensures
        has_word(x + w + y, w),
{
    assert((x + w + y).subrange(x.len() as int, x.len() + w.len() as int) =~= w);
}

/// The trigonometric builtins call runtime functions of their own: `sin`,
/// `cos`, `tan` and `atan2` each call a different function, named after the
/// operation, and the call line calls exactly that function.
pub proof fn law_trig_runtime_apart(a: Seq<Seq<char>>, n: nat)
    ensures
        spec_math_lowering(MathIntrinsic::SinF64, a, n).1 matches Some(f) && has_word(f, "sin"@)
            && has_word(spec_math_lowering(MathIntrinsic::SinF64, a, n).2[0], "@"@ + f + "("@),
        spec_math_lowering(MathIntrinsic::CosF64, a, n).1 matches Some(f) && has_word(f, "cos"@)
            && has_word(spec_math_lowering(MathIntrinsic::CosF64, a, n).2[0], "@"@ + f + "("@),
        spec_math_lowering(MathIntrinsic::TanF64, a, n).1 matches Some(f) && has_word(f, "tan"@)
            && has_word(spec_math_lowering(MathIntrinsic::TanF64, a, n).2[0], "@"@ + f + "("@),
        spec_math_lowering(MathIntrinsic::Atan2F64, a, n).1 matches Some(f) && has_word(f, "atan2"@)
            && has_word(spec_math_lowering(MathIntrinsic::Atan2F64, a, n).2[0], "@"@ + f + "("@),
        spec_math_lowering(MathIntrinsic::SinF64, a, n).1 != spec_math_lowering(MathIntrinsic::CosF64, a, n).1,
        spec_math_lowering(MathIntrinsic::SinF64, a, n).1 != spec_math_lowering(MathIntrinsic::TanF64, a, n).1,
        spec_math_lowering(MathIntrinsic::CosF64, a, n).1 != spec_math_lowering(MathIntrinsic::TanF64, a, n).1,
{
    reveal_strlit("sin");
    reveal_strlit("cos");
    reveal_strlit("tan");
    reveal_strlit("atan2");
    reveal_strlit("_f64");
    reveal_strlit("atan2_f64");
    reveal_strlit("  %");
    reveal_strlit(" = call double @");
    reveal_strlit(" = call double ");
    reveal_strlit("@");
    reveal_strlit("(");
    reveal_strlit("(double ");
    reveal_strlit("double ");
    reveal_strlit(")");
    reveal_strlit(", double ");
    reveal_strlit(" = call double @atan2_f64(double ");
    {
        let l = spec_math_lowering(MathIntrinsic::SinF64, a, n);
        let f = l.1->0;
        lemma_has_word_mid(Seq::empty(), "sin"@, f.skip(3));
        assert(f =~= Seq::<char>::empty() + "sin"@ + f.skip(3));
        let x = "  %"@ + temp_name("sin"@, n) + " = call double "@;
        let key = "@"@ + f + "("@;
        let y = "double "@ + a[0] + ")"@;
        lemma_has_word_mid(x, key, y);
        assert(l.2[0] =~= x + key + y);
    }
    {
        let l = spec_math_lowering(MathIntrinsic::CosF64, a, n);
        let f = l.1->0;
        lemma_has_word_mid(Seq::empty(), "cos"@, f.skip(3));
        assert(f =~= Seq::<char>::empty() + "cos"@ + f.skip(3));
        let x = "  %"@ + temp_name("cos"@, n) + " = call double "@;
        let key = "@"@ + f + "("@;
        let y = "double "@ + a[0] + ")"@;
        lemma_has_word_mid(x, key, y);
        assert(l.2[0] =~= x + key + y);
    }
    {
        let l = spec_math_lowering(MathIntrinsic::TanF64, a, n);
        let f = l.1->0;
        lemma_has_word_mid(Seq::empty(), "tan"@, f.skip(3));
        assert(f =~= Seq::<char>::empty() + "tan"@ + f.skip(3));
        let x = "  %"@ + temp_name("tan"@, n) + " = call double "@;
        let key = "@"@ + f + "("@;
        let y = "double "@ + a[0] + ")"@;
        lemma_has_word_mid(x, key, y);
        assert(l.2[0] =~= x + key + y);
    }
    {
        let l = spec_math_lowering(MathIntrinsic::Atan2F64, a, n);
        let f = l.1->0;
        lemma_has_word_mid(Seq::empty(), "atan2"@, f.skip(5));
        assert(f =~= Seq::<char>::empty() + "atan2"@ + f.skip(5));
        let x = "  %"@ + temp_name("atan2"@, n) + " = call double "@;
        let key = "@"@ + f + "("@;
        let y = "double "@ + a[0] + ", double "@ + a[1] + ")"@;
        lemma_has_word_mid(x, key, y);
        assert(l.2[0] =~= x + key + y);
    }
    let fs = spec_math_lowering(MathIntrinsic::SinF64, a, n).1->0;
    let fc = spec_math_lowering(MathIntrinsic::CosF64, a, n).1->0;
    let ft = spec_math_lowering(MathIntrinsic::TanF64, a, n).1->0;
    assert(fs[0] != fc[0] && fs[0] != ft[0] && fc[0] != ft[0]);
}

/// The `min`/`max` call line calls the intrinsic that the lowering declares.
pub proof fn law_min_max_call_declared(a: Seq<Seq<char>>, n: nat)
    ensures
        has_word(spec_math_lowering(MathIntrinsic::MaxI32, a, n).2[0], "@"@ + spec_math_lowering(MathIntrinsic::MaxI32, a, n).0[0].0 + "("@),
        has_word(spec_math_lowering(MathIntrinsic::MinI32, a, n).2[0], "@"@ + spec_math_lowering(MathIntrinsic::MinI32, a, n).0[0].0 + "("@),
        has_word(spec_math_lowering(MathIntrinsic::MaxF64, a, n).2[0], "@"@ + spec_math_lowering(MathIntrinsic::MaxF64, a, n).0[0].0 + "("@),
        has_word(spec_math_lowering(MathIntrinsic::MinF64, a, n).2[0], "@"@ + spec_math_lowering(MathIntrinsic::MinF64, a, n).0[0].0 + "("@),
{
    reveal_strlit("  %");
    reveal_strlit(" = call i32 @");
    reveal_strlit(" = call i32 ");
    reveal_strlit(" = call double @");
    reveal_strlit(" = call double ");
    reveal_strlit("@");
    reveal_strlit("(");
    reveal_strlit("(i32 ");
    reveal_strlit("i32 ");
    reveal_strlit("(double ");
    reveal_strlit("double ");
    {
        let l = spec_math_lowering(MathIntrinsic::MaxI32, a, n);
        let i = l.0[0].0;
        let x = "  %"@ + temp_name("mm"@, n) + " = call i32 "@;
        let key = "@"@ + i + "("@;
        let y = "i32 "@ + a[0] + ", i32 "@ + a[1] + ")"@;
        lemma_has_word_mid(x, key, y);
        assert(l.2[0] =~= x + key + y);
    }
    {
        let l = spec_math_lowering(MathIntrinsic::MinI32, a, n);
        let i = l.0[0].0;
        let x = "  %"@ + temp_name("mm"@, n) + " = call i32 "@;
        let key = "@"@ + i + "("@;
        let y = "i32 "@ + a[0] + ", i32 "@ + a[1] + ")"@;
        lemma_has_word_mid(x, key, y);
        assert(l.2[0] =~= x + key + y);
    }
    {
        let l = spec_math_lowering(MathIntrinsic::MaxF64, a, n);
        let i = l.0[0].0;
        let x = "  %"@ + temp_name("mm"@, n) + " = call double "@;
        let key = "@"@ + i + "("@;
        let y = "double "@ + a[0] + ", double "@ + a[1] + ")"@;
        lemma_has_word_mid(x, key, y);
        assert(l.2[0] =~= x + key + y);
    }
    {
        let l = spec_math_lowering(MathIntrinsic::MinF64, a, n);
        let i = l.0[0].0;
        let x = "  %"@ + temp_name("mm"@, n) + " = call double "@;
        let key = "@"@ + i + "("@;
        let y = "double "@ + a[0] + ", double "@ + a[1] + ")"@;
        lemma_has_word_mid(x, key, y);
        assert(l.2[0] =~= x + key + y);
    }
}

} // verus!
