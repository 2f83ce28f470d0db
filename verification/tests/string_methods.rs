use nyra::lowering::ExprValue;
use nyra::string_methods::{lower_string_method, string_method_arity};

fn value(reg: &str) -> ExprValue {
    ExprValue { reg: reg.to_string(), ty: "ptr".to_string() }
}

#[test]
fn string_methods_lower_to_runtime_calls() {
    let trim = lower_string_method("trim", "%s", &[], 3);
    assert_eq!(trim.call, Some(("str_trim".to_string(), "  %trim.3 = call ptr @str_trim(ptr %s)".to_string())));
    assert_eq!((trim.value.reg.as_str(), trim.value.ty.as_str()), ("%trim.3", "ptr"));

    let split = lower_string_method("split", "%s", &[value("%sep")], 0);
    assert_eq!(split.call.unwrap().1, "  %split.0 = call ptr @str_split(ptr %s, ptr %sep)");
    assert_eq!(split.value.ty, "vec_str");

    let upper = lower_string_method("to_upper", "%s", &[], 1);
    assert_eq!(upper.call.unwrap().1, "  %upper.1 = call ptr @str_to_upper(ptr %s)");

    let replacen = lower_string_method("replacen", "%s", &[value("%a"), value("%b"), value("2")], 5);
    assert_eq!(
        replacen.call.unwrap().1,
        "  %replacen.5 = call ptr @str_replacen(ptr %s, ptr %a, ptr %b, i32 2)"
    );

    let pad = lower_string_method("pad_end", "%s", &[value("8"), value("%fill")], 2);
    assert_eq!(pad.call.unwrap().1, "  %pad_end.2 = call ptr @str_pad_end(ptr %s, i32 8, ptr %fill)");

    let contains = lower_string_method("contains", "%s", &[value("%x")], 4);
    assert_eq!(contains.call.unwrap().1, "  %contains.4 = call i32 @str_contains(ptr %s, ptr %x)");
    assert_eq!(contains.value.ty, "i32");

    let once = lower_string_method("split_once", "%s", &[value("%x")], 6);
    assert_eq!(once.call.unwrap().0, "str_before_sep");

    let char_at = lower_string_method("char_at", "%s", &[value("%i")], 7);
    assert_eq!(char_at.call.unwrap().1, "  %char_at.7 = call i32 @char_at(ptr %s, i32 %i)");
}

#[test]
fn unknown_string_methods_yield_zero() {
    let r = lower_string_method("frobnicate", "%s", &[], 0);
    assert_eq!(r.call, None);
    assert_eq!((r.value.reg.as_str(), r.value.ty.as_str()), ("0", "i32"));
    assert_eq!(string_method_arity("frobnicate"), 0);
    assert_eq!(string_method_arity("trim"), 0);
    assert_eq!(string_method_arity("split"), 1);
    assert_eq!(string_method_arity("splitn"), 2);
    assert_eq!(string_method_arity("replacen"), 3);
}
