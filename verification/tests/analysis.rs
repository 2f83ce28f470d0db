use nyra::analysis::{
    enum_detail, find_name_occurrences, fn_sig_detail, hover_at, is_ident_char, is_valid_ident,
    keyword_symbols, keywords, offset_at_position, position_in_span, struct_detail, word_at,
    DocumentAnalysis, Symbol, SymbolKind,
};
use nyra::ast::{EnumDef, EnumVariantDef, IntKind, Param, StructAttrs, StructDef, StructField, TypeAnnotation};
use nyra::inlay::InlayHintKind;
use nyra::span::{Position, Span};

fn span(l1: usize, c1: usize, l2: usize, c2: usize) -> Span {
    Span {
        file: "t.ny".to_string(),
        start: Position { line: l1, column: c1 },
        end: Position { line: l2, column: c2 },
    }
}

fn sym(name: &str, kind: SymbolKind, sp: Span, detail: Option<&str>, renameable: bool) -> Symbol {
    Symbol {
        name: name.to_string(),
        kind,
        span: sp,
        detail: detail.map(|d| d.to_string()),
        renameable,
    }
}

fn analysis(symbols: Vec<Symbol>) -> DocumentAnalysis {
    DocumentAnalysis { symbols, parse_ok: true, typecheck_ok: true, inlay_hints: vec![] }
}

fn param(name: &str) -> Param {
    Param {
        name: name.to_string(),
        ty: TypeAnnotation::Integer(IntKind::I32),
        destructure: vec![],
        no_escape: false,
        mutable: false,
    }
}

#[test]
fn offset_at_position_counts_bytes() {
    let src = "fn main() {\n    let x = 1\n}\n";
    assert_eq!(offset_at_position(src, 0, 0), Some(0));
    assert_eq!(offset_at_position(src, 1, 4), Some(16));
    assert_eq!(offset_at_position(src, 3, 0), Some(src.len()));
    assert_eq!(offset_at_position(src, 9, 0), None);
    assert_eq!(offset_at_position("é\nx", 1, 0), Some(3));
    assert_eq!(offset_at_position("ab", 0, 5), None);
}

#[test]
fn word_at_finds_identifier_around_column() {
    let src = "fn main() {\n    let counter = 0\n}\n";
    assert_eq!(word_at(src, 1, 9).as_deref(), Some("counter"));
    assert_eq!(word_at(src, 1, 4).as_deref(), Some("let"));
    assert_eq!(word_at(src, 0, 0).as_deref(), Some("fn"));
    assert_eq!(word_at(src, 5, 0), None);
    assert_eq!(word_at(src, 1, 200), None);
    assert_eq!(word_at("", 0, 0), None);
    assert_eq!(word_at("a + b", 0, 2), None);
    // a space between words joins them, as the original scan does
    assert_eq!(word_at("ab cd", 0, 2).as_deref(), Some("ab cd"));
    assert_eq!(word_at("line\r\nnext", 0, 2).as_deref(), Some("line"));
}

#[test]
fn ident_checks() {
    assert!(is_ident_char(b'a'));
    assert!(is_ident_char(b'Z'));
    assert!(is_ident_char(b'7'));
    assert!(is_ident_char(b'_'));
    assert!(!is_ident_char(b'-'));
    assert!(!is_ident_char(0xC3));
    assert!(is_valid_ident("_foo1"));
    assert!(is_valid_ident("Bar"));
    assert!(!is_valid_ident(""));
    assert!(!is_valid_ident("1abc"));
    assert!(!is_valid_ident("a-b"));
}

#[test]
fn position_in_span_edges() {
    let sp = span(2, 5, 2, 10);
    assert!(position_in_span(2, 5, &sp));
    assert!(position_in_span(2, 10, &sp));
    assert!(!position_in_span(2, 4, &sp));
    assert!(!position_in_span(2, 11, &sp));
    assert!(!position_in_span(1, 5, &sp));
    assert!(!position_in_span(1, 1, &Span::default()));
}

#[test]
fn keywords_are_listed_in_order() {
    let k = keywords();
    assert_eq!(k.len(), 31);
    assert_eq!(k[0], "fn");
    assert_eq!(k[30], "void");
    let syms = keyword_symbols();
    assert_eq!(syms.len(), 31);
    assert_eq!(syms[1].name, "let");
    assert_eq!(syms[1].kind, SymbolKind::Keyword);
    assert_eq!(syms[1].detail.as_deref(), Some("keyword"));
    assert!(!syms[1].renameable);
    let only = DocumentAnalysis::keywords_only();
    assert!(!only.parse_ok);
    assert_eq!(only.symbols.len(), 31);
}

#[test]
fn symbol_lookup_by_span_then_word() {
    let a = analysis(vec![
        sym("main", SymbolKind::Function, span(1, 1, 1, 5), Some("fn() -> void"), true),
        sym("counter", SymbolKind::Field, Span::default(), None, false),
        sym("counter", SymbolKind::Variable, Span::default(), Some("i32"), true),
        sym("counter", SymbolKind::Struct, Span::default(), None, false),
    ]);
    let src = "main()\nlet counter = 0\n";
    assert_eq!(a.symbol_at(0, 2).map(|s| s.name.as_str()), Some("main"));
    assert!(a.symbol_at(1, 6).is_none());
    let s = a.symbol_at_position(src, 1, 6).unwrap();
    assert_eq!(s.kind, SymbolKind::Variable);
    assert!(a.symbol_at_position(src, 1, 13).is_none());
}

#[test]
fn best_named_prefers_last_of_highest_priority() {
    let a = analysis(vec![
        sym("x", SymbolKind::Variable, Span::default(), Some("first"), true),
        sym("x", SymbolKind::Parameter, Span::default(), Some("second"), true),
        sym("x", SymbolKind::Enum, Span::default(), None, false),
    ]);
    let s = a.symbol_at_position("x", 0, 0).unwrap();
    assert_eq!(s.detail.as_deref(), Some("second"));
}

#[test]
fn hover_texts() {
    let a = analysis(vec![
        sym("main", SymbolKind::Function, Span::default(), Some("fn() -> void"), true),
        sym("Point", SymbolKind::Struct, Span::default(), None, false),
    ]);
    assert_eq!(
        hover_at(&a, "main()", 0, 1).as_deref(),
        Some("**function** `main`\n\n```ny\nfn() -> void\n```")
    );
    assert_eq!(hover_at(&a, "Point", 0, 0).as_deref(), Some("**struct** `Point`"));
    assert_eq!(
        hover_at(&a, "Point_json_encode(p)", 0, 3).as_deref(),
        Some("**synthesized** `Point_json_encode`\n\nJSON encode for struct `Point` (compiler-generated when fields are `string` / `i32` / `bool` / nested structs).")
    );
    assert_eq!(
        hover_at(&a, "Point_json_decode(s)", 0, 3).as_deref(),
        Some("**synthesized** `Point_json_decode`\n\nJSON decode for struct `Point` (compiler-generated).")
    );
    assert_eq!(hover_at(&a, "nothing", 0, 1), None);
}

#[test]
fn rename_ranges_follow_name_and_kind() {
    let a = analysis(vec![
        sym("x", SymbolKind::Variable, span(1, 1, 1, 2), None, true),
        sym("x", SymbolKind::Function, span(2, 1, 2, 2), None, true),
        sym("x", SymbolKind::Variable, span(3, 4, 3, 5), None, false),
        sym("y", SymbolKind::Variable, span(4, 1, 4, 2), None, true),
    ]);
    let target = sym("x", SymbolKind::Variable, Span::default(), None, true);
    let r = a.rename_ranges(&target);
    assert_eq!(r.len(), 2);
    assert_eq!(r[0].start.line, 1);
    assert_eq!(r[1].start.line, 3);
    let fixed = sym("x", SymbolKind::Variable, Span::default(), None, false);
    assert!(a.rename_ranges(&fixed).is_empty());
}

#[test]
fn completions_are_sorted_unique_and_case_insensitive() {
    let a = analysis(vec![
        sym("counter", SymbolKind::Variable, Span::default(), None, true),
        sym("Count", SymbolKind::Struct, Span::default(), None, false),
        sym("counter", SymbolKind::Field, Span::default(), None, false),
        sym("other", SymbolKind::Variable, Span::default(), None, true),
    ]);
    assert_eq!(a.completions("cou"), vec!["Count".to_string(), "counter".to_string()]);
    assert_eq!(a.completions("COU"), vec!["Count".to_string(), "counter".to_string()]);
    assert!(a.completions("zz").is_empty());
    assert_eq!(a.completions("").len(), 3);
}

#[test]
fn find_name_occurrences_matches_whole_words() {
    let src = "let x = xx + x\n  x\n";
    let spans = find_name_occurrences(src, "f.ny", "x");
    assert_eq!(spans.len(), 3);
    assert_eq!((spans[0].start.line, spans[0].start.column, spans[0].end.column), (1, 5, 6));
    assert_eq!((spans[1].start.line, spans[1].start.column), (1, 14));
    assert_eq!((spans[2].start.line, spans[2].start.column), (2, 3));
    assert_eq!(spans[2].file, "f.ny");
    assert!(find_name_occurrences(src, "f.ny", "").is_empty());
    let u = find_name_occurrences("é x", "f.ny", "x");
    assert_eq!(u[0].start.column, 4);
}

#[test]
fn detail_texts() {
    let ps = vec![param("a"), param("b")];
    let tys = vec!["i32".to_string(), "string".to_string()];
    assert_eq!(fn_sig_detail(&ps, &tys, Some("bool")), "fn(a: i32, b: string) -> bool");
    assert_eq!(fn_sig_detail(&[], &[], None), "fn() -> void");
    let s = StructDef {
        name: "P".to_string(),
        type_params: vec![],
        attrs: StructAttrs::default(),
        fields: vec![
            StructField { name: "x".to_string(), ty: TypeAnnotation::Integer(IntKind::I32) },
            StructField { name: "y".to_string(), ty: TypeAnnotation::Integer(IntKind::I32) },
        ],
        doc: None,
        public: true,
    };
    assert_eq!(struct_detail(&s, &["i32".to_string(), "i32".to_string()]), "struct P { x: i32, y: i32 }");
    let e = EnumDef {
        name: "E".to_string(),
        type_params: vec![],
        variants: vec![
            EnumVariantDef { name: "A".to_string(), fields: vec![] },
            EnumVariantDef {
                name: "B".to_string(),
                fields: vec![TypeAnnotation::Integer(IntKind::I32), TypeAnnotation::String],
            },
        ],
        public: true,
    };
    assert_eq!(
        enum_detail(&e, &[vec![], vec!["i32".to_string(), "string".to_string()]]),
        "enum E { A, B(i32, string) }"
    );
}

#[test]
fn inlay_kind_rank_puts_parameters_first() {
    assert_eq!(InlayHintKind::Parameter.cmp_rank(), 0);
    assert_eq!(InlayHintKind::Type.cmp_rank(), 1);
}

use nyra::rename::apply_rename;

#[test]
fn rename_replaces_every_occurrence() {
    let source = "// ü\nlet x = 1\nprint(x)\n";
    let x_def = sym("x", SymbolKind::Variable, span(2, 5, 2, 6), None, true);
    let x_use = sym("x", SymbolKind::Variable, span(3, 7, 3, 8), None, true);
    let other = sym("print", SymbolKind::Function, span(3, 1, 3, 6), None, true);
    let a = analysis(vec![x_def, other, x_use]);
    let target = sym("x", SymbolKind::Variable, span(2, 5, 2, 6), None, true);
    assert_eq!(apply_rename(source, &a, &target, "count"), "// ü\nlet count = 1\nprint(count)\n");
    assert_eq!(apply_rename(source, &a, &target, "1x"), source);
    assert_eq!(apply_rename(source, &a, &target, ""), source);
    let fixed = sym("x", SymbolKind::Variable, span(2, 5, 2, 6), None, false);
    assert_eq!(apply_rename(source, &a, &fixed, "count"), source);
    let unknown = sym("y", SymbolKind::Variable, span(1, 1, 1, 2), None, true);
    assert_eq!(apply_rename(source, &a, &unknown, "count"), source);
}
