use nyra::ast::{CallExpr, Expression, FloatKind, Literal};
use nyra::intrinsics::{lower_math_intrinsic, math_intrinsic_arity, select_math_intrinsic, MathIntrinsic};
use nyra::lowering::{ExprValue, KindNames, TypeScope};
use nyra::names::{NameMap, NameSet};
use nyra::span::Span;

fn text(s: &str) -> String {
    s.to_string()
}

fn plain_scope() -> TypeScope {
    TypeScope {
        env: NameMap::new(),
        call_returns: NameMap::new(),
        enum_has_payload: NameMap::new(),
        names: KindNames {
            i8: text("i8"),
            i16: text("i16"),
            i32: text("i32"),
            i64: text("i64"),
            i128: text("i128"),
            isize: text("i64"),
            u8: text("i8"),
            u16: text("i16"),
            u32: text("i32"),
            u64: text("i64"),
            u128: text("i128"),
            usize: text("i64"),
            float32: text("float"),
            float64: text("double"),
        },
        struct_fields: NameMap::new(),
        fn_ptrs: NameSet::new(),
    }
}

fn call_with(callee: &str, args: Vec<Expression>) -> CallExpr {
    CallExpr { callee: callee.to_string(), type_args: vec![], args, span: Span::default() }
}

fn operand(reg: &str, ty: &str) -> ExprValue {
    ExprValue { reg: text(reg), ty: text(ty) }
}

#[test]
fn abs_picks_its_intrinsic_by_argument_type() {
    let sc = plain_scope();
    let float = Expression::Literal(Literal::Float(0, FloatKind::F64));
    let int = Expression::Literal(Literal::Int(3));
    assert_eq!(select_math_intrinsic(&sc, &call_with("abs", vec![float]), None), Some(MathIntrinsic::AbsF64));
    assert_eq!(select_math_intrinsic(&sc, &call_with("abs", vec![int]), None), Some(MathIntrinsic::AbsI32));
    assert_eq!(
        select_math_intrinsic(&sc, &call_with("abs", vec![]), Some(MathIntrinsic::MinI32)),
        Some(MathIntrinsic::MinI32)
    );
    assert_eq!(select_math_intrinsic(&sc, &call_with("sin", vec![]), Some(MathIntrinsic::SinF64)), Some(MathIntrinsic::SinF64));
    assert_eq!(select_math_intrinsic(&sc, &call_with("other", vec![]), None), None);
    assert_eq!(math_intrinsic_arity(MathIntrinsic::AbsI32), 1);
    assert_eq!(math_intrinsic_arity(MathIntrinsic::Atan2F64), 2);
    assert_eq!(math_intrinsic_arity(MathIntrinsic::ClampI32), 3);
}

#[test]
fn intrinsic_calls_lower_to_llvm_intrinsics() {
    let abs = lower_math_intrinsic(MathIntrinsic::AbsI32, &[operand("%x", "i32")], 4);
    assert_eq!(abs.decls, vec![(text("llvm.abs.i32"), text("declare i32 @llvm.abs.i32(i32, i1)"))]);
    assert_eq!(abs.runtime, None);
    assert_eq!(abs.lines, vec![text("  %abs.4 = call i32 @llvm.abs.i32(i32 %x, i1 true)")]);
    assert_eq!((abs.value.reg.as_str(), abs.value.ty.as_str(), abs.temps), ("%abs.4", "i32", 1));

    let fabs = lower_math_intrinsic(MathIntrinsic::AbsF64, &[operand("%d", "double")], 0);
    assert_eq!(fabs.lines, vec![text("  %fabs.0 = call double @llvm.fabs.f64(double %d)")]);

    let max = lower_math_intrinsic(MathIntrinsic::MaxF64, &[operand("%a", "double"), operand("1.0", "double")], 9);
    assert_eq!(max.decls, vec![(text("llvm.maxnum.f64"), text("declare double @llvm.maxnum.f64(double, double)"))]);
    assert_eq!(max.lines, vec![text("  %mm.9 = call double @llvm.maxnum.f64(double %a, double 1.0)")]);

    let min = lower_math_intrinsic(MathIntrinsic::MinI32, &[operand("%a", "i32"), operand("%b", "i32")], 2);
    assert_eq!(min.lines, vec![text("  %mm.2 = call i32 @llvm.smin.i32(i32 %a, i32 %b)")]);

    let clamp = lower_math_intrinsic(
        MathIntrinsic::ClampI32,
        &[operand("%x", "i32"), operand("0", "i32"), operand("10", "i32")],
        7,
    );
    assert_eq!(
        clamp.lines,
        vec![
            text("  %clamp.7 = call i32 @llvm.smax.i32(i32 %x, i32 0)"),
            text("  %clamp.8 = call i32 @llvm.smin.i32(i32 %clamp.7, i32 10)"),
        ]
    );
    assert_eq!((clamp.value.reg.as_str(), clamp.temps), ("%clamp.8", 2));
    assert_eq!(clamp.decls.len(), 2);
}

#[test]
fn trigonometry_calls_the_runtime() {
    let cos = lower_math_intrinsic(MathIntrinsic::CosF64, &[operand("%t", "double")], 1);
    assert!(cos.decls.is_empty());
    assert_eq!(cos.runtime.as_deref(), Some("cos_f64"));
    assert_eq!(cos.lines, vec![text("  %cos.1 = call double @cos_f64(double %t)")]);
    let atan2 = lower_math_intrinsic(MathIntrinsic::Atan2F64, &[operand("%y", "double"), operand("%x", "double")], 3);
    assert_eq!(atan2.runtime.as_deref(), Some("atan2_f64"));
    assert_eq!(atan2.lines, vec![text("  %atan2.3 = call double @atan2_f64(double %y, double %x)")]);
    assert_eq!(atan2.value.ty, "double");
}
