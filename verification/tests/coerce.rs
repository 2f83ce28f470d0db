use nyra::coerce::{coerce_expr_to_llvm_type, coerce_value_reg_to_type, materialize_struct_ssa_slot};
use nyra::lowering::ExprValue;

fn v(reg: &str, ty: &str) -> ExprValue {
    ExprValue { reg: reg.to_string(), ty: ty.to_string() }
}

fn coerce(reg: &str, from: &str, to: &str, n: u64) -> (String, Option<String>) {
    coerce_value_reg_to_type(reg, from, to, n)
}

#[test]
fn register_coercions_pick_the_conversion() {
    assert_eq!(coerce("%x", "i32", "i32", 0), ("%x".to_string(), None));
    assert_eq!(coerce("%x", "char", "i32", 0), ("%x".to_string(), None));
    assert_eq!(
        coerce("%d", "double", "i64", 3),
        ("%cast.3".to_string(), Some("  %cast.3 = fptosi double %d to i64".to_string()))
    );
    assert_eq!(coerce("%d", "double", "float", 3), ("%d".to_string(), None));
    assert_eq!(coerce("%a", "i64", "i32", 1).1.as_deref(), Some("  %cast.1 = trunc i64 %a to i32"));
    assert_eq!(coerce("%b", "i8", "i32", 2).1.as_deref(), Some("  %cast.2 = zext i8 %b to i32"));
    assert_eq!(coerce("%b", "i16", "i64", 2).1.as_deref(), Some("  %cast.2 = zext i16 %b to i64"));
    assert_eq!(coerce("%c", "i32", "i64", 4).1.as_deref(), Some("  %cast.4 = sext i32 %c to i64"));
    assert_eq!(
        coerce("%c", "i32", "double", 5),
        ("%sitofp.5".to_string(), Some("  %sitofp.5 = sitofp i32 %c to double".to_string()))
    );
    assert_eq!(coerce("%c", "i32", "float", 6).1.as_deref(), Some("  %sitofp.6 = sitofp i32 %c to float"));
    assert_eq!(coerce("%p", "ptr", "i32", 0), ("%p".to_string(), None));
}

#[test]
fn struct_values_spill_to_a_slot() {
    let (slot, lines) = materialize_struct_ssa_slot(&v("%v", "%Point"), 2);
    assert_eq!(slot, "arg.tmp.2");
    assert_eq!(lines, vec!["  %arg.tmp.2 = alloca %Point".to_string(), "  store %Point %v, %Point* %arg.tmp.2".to_string()]);
}

#[test]
fn value_coercions_follow_the_type_pair() {
    let (same, lines) = coerce_expr_to_llvm_type(v("%x", "i32"), "i32", 0);
    assert_eq!((same.reg.as_str(), same.ty.as_str(), lines.len()), ("%x", "i32", 0));

    let (spilled, lines) = coerce_expr_to_llvm_type(v("%v", "%Point"), "ptr", 7);
    assert_eq!((spilled.reg.as_str(), spilled.ty.as_str(), lines.len()), ("arg.tmp.7", "%Point*", 2));

    let (kept, lines) = coerce_expr_to_llvm_type(v("%v", "%Point*"), "ptr", 7);
    assert_eq!((kept.reg.as_str(), kept.ty.as_str(), lines.len()), ("%v", "%Point*", 0));

    let (to_float, lines) = coerce_expr_to_llvm_type(v("5", "i32"), "double", 1);
    assert_eq!((to_float.reg.as_str(), to_float.ty.as_str()), ("%sitofp.1", "double"));
    assert_eq!(lines, vec!["  %sitofp.1 = sitofp i32 %5 to double".to_string()]);

    let (from_double, lines) = coerce_expr_to_llvm_type(v("%d", "double"), "i32", 0);
    assert_eq!((from_double.reg.as_str(), from_double.ty.as_str(), lines.len()), ("%d", "double", 0));

    let (widened, lines) = coerce_expr_to_llvm_type(v("7", "i32"), "i64", 2);
    assert_eq!((widened.reg.as_str(), widened.ty.as_str()), ("%cast.2", "i64"));
    assert_eq!(lines, vec!["  %cast.2 = sext i32 7 to i64".to_string()]);

    let (named, lines) = coerce_expr_to_llvm_type(v("x.1", "i8"), "i32", 3);
    assert_eq!(named.reg, "%cast.3");
    assert_eq!(lines, vec!["  %cast.3 = zext i8 %x.1 to i32".to_string()]);

    let (chars, lines) = coerce_expr_to_llvm_type(v("%c", "char"), "i32", 0);
    assert_eq!((chars.reg.as_str(), chars.ty.as_str(), lines.len()), ("%c", "char", 0));
}

use nyra::coerce::{lower_cast, materialize_ptr_reg};
use nyra::names::NameSet;

fn fn_names(v: &[&str]) -> NameSet {
    let mut s = NameSet::new();
    for n in v {
        s.insert(n);
    }
    s
}

#[test]
fn pointer_operands_for_globals_and_functions() {
    let fns = fn_names(&["main"]);
    assert_eq!(materialize_ptr_reg(&fns, "@main", 0), ("@main".to_string(), vec![]));
    assert_eq!(
        materialize_ptr_reg(&fns, "@.str.1", 4),
        ("%str.4".to_string(), vec!["  %str.4 = getelementptr inbounds i8, ptr @.str.1, i64 0".to_string()])
    );
    assert_eq!(materialize_ptr_reg(&fns, "%p", 4).1.len(), 0);
}

#[test]
fn casts_choose_their_instruction() {
    let fns = fn_names(&[]);
    let (p, lines, used) = lower_cast(&fns, v("%n", "i64"), "ptr", 3);
    assert_eq!((p.reg.as_str(), p.ty.as_str(), used), ("%cast.3", "ptr", 1));
    assert_eq!(lines, vec!["  %cast.3 = inttoptr i64 %n to ptr".to_string()]);

    let (i, lines, used) = lower_cast(&fns, v("@g", "ptr"), "i64", 3);
    assert_eq!((i.reg.as_str(), used), ("%cast.3", 2));
    assert_eq!(
        lines,
        vec![
            "  %str.4 = getelementptr inbounds i8, ptr @g, i64 0".to_string(),
            "  %cast.3 = ptrtoint ptr %str.4 to i64".to_string(),
        ]
    );

    let (same, lines, used) = lower_cast(&fns, v("%x", "i32"), "i32", 0);
    assert_eq!((same.reg.as_str(), lines.len(), used), ("%x", 0, 1));

    let (wide, lines, used) = lower_cast(&fns, v("%x", "i32"), "i64", 0);
    assert_eq!((wide.reg.as_str(), wide.ty.as_str(), used), ("%cast.1", "i64", 2));
    assert_eq!(lines, vec!["  %cast.1 = sext i32 %x to i64".to_string()]);

    let (bits, lines, used) = lower_cast(&fns, v("%f", "float"), "i1", 5);
    assert_eq!((bits.reg.as_str(), used), ("%cast.5", 1));
    assert_eq!(lines, vec!["  %cast.5 = bitcast float %f to i1".to_string()]);
}

use nyra::coerce::emit_compare_call_operand;

#[test]
fn comparison_callbacks_get_struct_pointers() {
    let (reg, ty, lines) = emit_compare_call_operand(&v("%p", "%Point"), "%Point*", 6);
    assert_eq!((reg.as_str(), ty.as_str()), ("%cmp.arg.6", "%Point*"));
    assert_eq!(
        lines,
        vec!["  %cmp.arg.6 = alloca %Point".to_string(), "  store %Point %p, %Point* %cmp.arg.6".to_string()]
    );
    let (reg, ty, lines) = emit_compare_call_operand(&v("%q", "%Point*"), "%Point*", 6);
    assert_eq!((reg.as_str(), ty.as_str(), lines.len()), ("%q", "%Point*", 0));
    let (reg, ty, lines) = emit_compare_call_operand(&v("%i", "i32"), "i32", 6);
    assert_eq!((reg.as_str(), ty.as_str(), lines.len()), ("%i", "i32", 0));
}
