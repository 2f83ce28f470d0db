use nyra::llvm_util::{
    array_elem_from_ty, array_len_from_ty, escape_string, is_array_ty, is_float_llvm_ty,
    is_string_builtin_method, is_struct_pointer_type, llvm_arith_rhs, llvm_binop_operand,
    llvm_cmp_operand, llvm_field_size_align, llvm_float_storage_ty, llvm_fn_link_name,
    llvm_pointee_ty, llvm_ptr, llvm_ptr_reg, llvm_scalar_materialize_op, llvm_storage_ty,
    llvm_string_len, llvm_struct_size_bytes, llvm_type_align_bytes, llvm_type_size_bytes,
    llvm_typed_zero, llvm_value_operand, resolve_struct_field_name, struct_name_from_llvm_ty,
    struct_ptr_type, struct_value_type, target_triple_for,
};

#[test]
fn windows_crt_collision_gets_nyra_prefix() {
    assert_eq!(
        llvm_fn_link_name("atoi", "x86_64-pc-windows-gnu"),
        "nyra_atoi"
    );
}

#[test]
fn unix_triple_keeps_source_name() {
    assert_eq!(llvm_fn_link_name("atoi", "aarch64-apple-darwin"), "atoi");
}

#[test]
fn escape_string_uses_utf8_bytes_for_non_ascii() {
    assert_eq!(escape_string("█"), "\\E2\\96\\88");
    assert_eq!(escape_string("╗"), "\\E2\\95\\97");
    assert_eq!(escape_string("Nyra"), "Nyra");
}

#[test]
fn escape_string_escapes_ascii_controls() {
    assert_eq!(escape_string("a\\b\"c\nd"), "a\\\\b\\22c\\0Ad");
}

#[test]
fn llvm_ptr_reg_formats_bare_ssa_numbers() {
    assert_eq!(llvm_ptr_reg("0"), "%0");
    assert_eq!(llvm_ptr_reg("%1"), "%1");
    assert_eq!(llvm_ptr_reg("null"), "null");
}

#[test]
fn link_name_lowercases_triple_and_checks_all_collisions() {
    assert_eq!(llvm_fn_link_name("atoll", "X86_64-PC-WINDOWS-MSVC"), "nyra_atoll");
    assert_eq!(llvm_fn_link_name("main", "x86_64-pc-windows-gnu"), "main");
    assert_eq!(llvm_fn_link_name("atof", "x86_64-unknown-linux-gnu"), "atof");
}

#[test]
fn escape_string_carriage_return_and_empty() {
    assert_eq!(escape_string("a\rb"), "a\\0Db");
    assert_eq!(escape_string(""), "");
    assert_eq!(escape_string("é"), "\\C3\\A9");
}

#[test]
fn string_len_counts_bytes_plus_nul() {
    assert_eq!(llvm_string_len("abc"), 4);
    assert_eq!(llvm_string_len(""), 1);
    assert_eq!(llvm_string_len("█"), 4);
}

#[test]
fn array_type_parts() {
    assert_eq!(array_len_from_ty("[4 x i32]"), Some(4));
    assert_eq!(array_elem_from_ty("[4 x i32]"), Some("i32".to_string()));
    assert_eq!(array_len_from_ty("[2 x [3 x i8]]"), Some(2));
    assert_eq!(array_elem_from_ty("[2 x [3 x i8]]"), Some("[3 x i8]".to_string()));
    assert_eq!(array_len_from_ty("[+7 x i8]"), Some(7));
    assert_eq!(array_len_from_ty("[x x i8]"), None);
    assert_eq!(array_len_from_ty("i32"), None);
    assert_eq!(array_elem_from_ty("[4]"), None);
    assert_eq!(array_elem_from_ty("i32"), None);
}

#[test]
fn field_layouts() {
    assert_eq!(llvm_field_size_align("ptr"), (8, 8));
    assert_eq!(llvm_field_size_align("i8*"), (8, 8));
    assert_eq!(llvm_field_size_align("i1"), (1, 1));
    assert_eq!(llvm_field_size_align("i8"), (1, 1));
    assert_eq!(llvm_field_size_align("double"), (8, 8));
    assert_eq!(llvm_field_size_align("float"), (4, 4));
    assert_eq!(llvm_field_size_align("%Point"), (8, 8));
    assert_eq!(llvm_field_size_align("i64"), (8, 8));
    assert_eq!(llvm_field_size_align("i16"), (2, 2));
    assert_eq!(llvm_field_size_align("i32"), (4, 4));
    assert_eq!(llvm_field_size_align("i128"), (16, 16));
    assert_eq!(llvm_field_size_align("void"), (4, 4));
    assert_eq!(llvm_field_size_align("[3 x i8]"), (1, 3));
    assert_eq!(llvm_field_size_align("[5 x double]"), (8, 40));
    assert_eq!(llvm_field_size_align("[2 x [3 x i16]]"), (2, 12));
}

#[test]
fn type_sizes_and_alignments() {
    assert_eq!(llvm_type_size_bytes("i32"), 4);
    assert_eq!(llvm_type_size_bytes("[4 x i32]"), 16);
    assert_eq!(llvm_type_size_bytes("[2 x [3 x i8]]"), 6);
    assert_eq!(llvm_type_size_bytes("[2 x [3 x i64]]"), 48);
    assert_eq!(llvm_type_size_bytes("<4 x float>"), 16);
    assert_eq!(llvm_type_size_bytes("<2 x double>"), 16);
    assert_eq!(llvm_type_size_bytes("<x x i8>"), 4);
    assert_eq!(llvm_type_align_bytes("<4 x float>"), 16);
    assert_eq!(llvm_type_align_bytes("double"), 8);
    assert_eq!(llvm_type_align_bytes("[2 x i8]"), 1);
}

#[test]
fn struct_sizes_pad_fields_and_total() {
    let f = |v: &[&str]| v.iter().map(|s| s.to_string()).collect::<Vec<String>>();
    assert_eq!(llvm_struct_size_bytes(&f(&["i8", "i32"])), 8);
    assert_eq!(llvm_struct_size_bytes(&f(&["i8", "ptr", "i8"])), 24);
    assert_eq!(llvm_struct_size_bytes(&f(&[])), 0);
    assert_eq!(llvm_struct_size_bytes(&f(&["i1"])), 8);
    assert_eq!(llvm_struct_size_bytes(&f(&["i32", "i64"])), 16);
    assert_eq!(llvm_struct_size_bytes(&f(&["i8", "i16", "i64"])), 16);
}

#[test]
fn date_field_aliases() {
    assert_eq!(resolve_struct_field_name("Date", "minutes"), "minute");
    assert_eq!(resolve_struct_field_name("Date", "seconds"), "second");
    assert_eq!(resolve_struct_field_name("Date", "weekday"), "week");
    assert_eq!(resolve_struct_field_name("Date", "year"), "year");
    assert_eq!(resolve_struct_field_name("Time", "minutes"), "minutes");
}

#[test]
fn string_builtin_methods() {
    assert!(is_string_builtin_method("split"));
    assert!(is_string_builtin_method("to_dot_case"));
    assert!(!is_string_builtin_method("len"));
}

#[test]
fn value_operands() {
    assert_eq!(llvm_value_operand("%x"), "%x");
    assert_eq!(llvm_value_operand("@g"), "@g");
    assert_eq!(llvm_value_operand("-1.5"), "-1.5");
    assert_eq!(llvm_value_operand("add.3"), "%add.3");
    assert_eq!(llvm_binop_operand("x"), "x");
    assert_eq!(llvm_cmp_operand("%y"), "%y");
    assert_eq!(llvm_arith_rhs("char", "%a", "1"), "i32 %a, 1");
    assert_eq!(llvm_arith_rhs("double", "%a", "%b"), "double %a, %b");
}

#[test]
fn storage_and_float_types() {
    assert_eq!(llvm_storage_ty("char"), "i32");
    assert_eq!(llvm_storage_ty("string"), "ptr");
    assert_eq!(llvm_storage_ty("join_handle"), "ptr");
    assert_eq!(llvm_storage_ty("i64"), "i64");
    assert!(is_float_llvm_ty("f32"));
    assert!(!is_float_llvm_ty("i32"));
    assert_eq!(llvm_float_storage_ty("f64"), "double");
    assert_eq!(llvm_float_storage_ty("f32"), "float");
    assert_eq!(llvm_float_storage_ty("i8"), "i8");
    assert_eq!(llvm_typed_zero("double"), "0.0");
    assert_eq!(llvm_typed_zero("i32"), "0");
    assert_eq!(llvm_scalar_materialize_op("float"), "fadd");
    assert_eq!(llvm_scalar_materialize_op("i64"), "add");
}

#[test]
fn pointer_types() {
    assert!(is_array_ty("[2 x i8]"));
    assert!(!is_array_ty("i8"));
    assert_eq!(llvm_ptr("string"), "ptr");
    assert_eq!(llvm_ptr("i32"), "i32*");
    assert_eq!(llvm_pointee_ty("i32*"), "i32");
    assert_eq!(llvm_pointee_ty("ptr"), "i32");
    assert_eq!(llvm_pointee_ty("%i8*"), "i32");
    assert_eq!(llvm_pointee_ty("%Point*"), "Point");
    assert_eq!(llvm_pointee_ty("*"), "*");
    assert_eq!(struct_value_type("%Point*"), "%Point");
    assert_eq!(struct_value_type("i32*"), "i32*");
    assert!(is_struct_pointer_type("%P*"));
    assert!(!is_struct_pointer_type("%P"));
    assert_eq!(struct_ptr_type("%P"), "%P*");
    assert_eq!(struct_ptr_type("P"), "%P*");
    assert_eq!(struct_name_from_llvm_ty("%P*"), Some("P".to_string()));
    assert_eq!(struct_name_from_llvm_ty("%P"), Some("P".to_string()));
    assert_eq!(struct_name_from_llvm_ty("i32"), None);
}

#[test]
fn host_triples() {
    assert_eq!(target_triple_for("aarch64", "macos"), "arm64-apple-darwin");
    assert_eq!(target_triple_for("x86_64", "macos"), "x86_64-apple-darwin");
    assert_eq!(target_triple_for("amd64", "windows"), "x86_64-pc-windows-gnu");
    assert_eq!(target_triple_for("arm64", "linux"), "aarch64-unknown-linux-gnu");
    assert_eq!(target_triple_for("riscv64", "freebsd"), "riscv64-unknown-linux-gnu");
}
