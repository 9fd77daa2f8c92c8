use pata::build_cache::{build_manifest_text, cache_key, input_hash_parts, modules_in_name_order, resolve_target, stored_input_hash};
use pata::diagnostics::{
    asili_diagnostics_to_lsp_with_source, extract_symbol_from_message, find_symbol_on_line, is_interface_stub,
    SourceDiagnostic,
};
use pata::document_format::{Position, Range};
use pata::format::Token;
use pata::resolution::{dependency_order, orderable, ModuleImports};
use pata::signature::{active_call_at, signature_from_params};
use pata::symbols::{can_rename, folding_ranges, rename_locations, word_at};

fn tok(lexeme: &str, line: usize, column: usize) -> Token {
    Token { lexeme: lexeme.to_string(), line, column }
}

#[test]
fn rename_finds_all_token_spans() {
    // "weka x = 1\nx + x"
    let tokens = vec![
        tok("weka", 1, 1),
        tok("x", 1, 6),
        tok("=", 1, 8),
        tok("1", 1, 10),
        tok("x", 2, 1),
        tok("+", 2, 3),
        tok("x", 2, 5),
    ];
    let ranges = rename_locations(&tokens, "x");
    assert_eq!(ranges.len(), 3, "should find 3 spans of 'x'");
    assert_eq!((ranges[1].line, ranges[1].start, ranges[1].end), (1, 0, 1));
}

#[test]
fn token_extents_count_utf8_bytes() {
    // "weka jé = 1": the lexer's columns count bytes, so `jé` spans columns 6..=8.
    let tokens = vec![tok("weka", 1, 1), tok("jé", 1, 6), tok("=", 1, 10), tok("1", 1, 12)];
    assert_eq!(word_at(&tokens, 0, 8).as_deref(), Some("jé"));
    assert_eq!(word_at(&tokens, 0, 9).as_deref(), Some("="));
    let spans = rename_locations(&tokens, "jé");
    assert_eq!((spans[0].line, spans[0].start, spans[0].end), (0, 5, 8));
}

#[test]
fn word_at_returns_token_under_cursor() {
    // line 2 (1-based) of the sample source: "kazi salamu(jina: Neno) -> Neno {"
    let tokens = vec![
        tok("kazi", 2, 1),
        tok("salamu", 2, 6),
        tok("(", 2, 12),
        tok("jina", 2, 13),
        tok(":", 2, 17),
        tok("Neno", 2, 19),
        tok(")", 2, 23),
        tok("->", 2, 25),
        tok("Neno", 2, 28),
        tok("{", 2, 33),
    ];
    let word = word_at(&tokens, 1, 5);
    assert_eq!(word.as_deref(), Some("salamu"));
    assert_eq!(word_at(&tokens, 0, 0), None);
}

#[test]
fn keywords_and_builtin_types_cannot_be_renamed() {
    assert!(!can_rename("kazi"));
    assert!(!can_rename("Namba"));
    assert!(can_rename("salamu"));
}

#[test]
fn folding_regions_span_multi_line_braces() {
    let src = "kazi f() {\n  ikiwa x {\n    y\n  }\n}\nweka s = \"{\"\n";
    let regions = folding_ranges(src);
    let got: Vec<(usize, usize)> = regions.iter().map(|r| (r.start_line, r.end_line)).collect();
    assert_eq!(got, vec![(1, 3), (0, 4)]);
}

#[test]
fn active_call_counts_commas_of_the_innermost_call() {
    let src = "jumla(1, f(2), ";
    assert_eq!(active_call_at(src, 0, 15), Some(("jumla".to_string(), 2)));
    assert_eq!(active_call_at("weka x = 1", 0, 5), None);
}

#[test]
fn signature_labels_list_parameters() {
    let params = vec![("a".to_string(), "Namba".to_string()), ("b".to_string(), "Neno".to_string())];
    let sig = signature_from_params("jumla", &params, "Namba", 1);
    assert_eq!(sig.label, "kazi jumla(a: Namba, b: Neno) -> Namba");
    assert_eq!(sig.params, vec!["a: Namba".to_string(), "b: Neno".to_string()]);
    assert_eq!(sig.active_param, 1);
}

#[test]
fn message_symbols_and_their_line_spans() {
    assert_eq!(extract_symbol_from_message("jina halijulikani: hesabu ").as_deref(), Some("hesabu"));
    assert_eq!(extract_symbol_from_message("a: b: c").as_deref(), Some("c"));
    assert_eq!(extract_symbol_from_message("hakuna koloni"), None);
    assert_eq!(find_symbol_on_line("weka hesabu2 = hesabu(1)", "hesabu"), Some((15, 21)));
    assert_eq!(find_symbol_on_line("weka x", ""), None);
    assert_eq!(find_symbol_on_line("abc", "b"), None);
}

#[test]
fn symbol_spans_count_utf8_bytes() {
    assert_eq!(find_symbol_on_line("weka é = hesabu", "hesabu"), Some((10, 16)));
    assert_eq!(find_symbol_on_line("ñ_x x", "x"), Some((5, 6)));
}

fn diag(message: &str, span: Option<(usize, usize)>) -> SourceDiagnostic {
    SourceDiagnostic { code: "SEM001".to_string(), stage: "semantiki".to_string(), message: message.to_string(), span }
}

fn range(line: u32, start: u32, end: u32) -> Range {
    Range { start: Position { line, character: start }, end: Position { line, character: end } }
}

#[test]
fn diagnostics_are_placed_on_their_symbol_column_or_first_word() {
    let source = "kazi kuu() -> Tupu {\n    weka y = hesabu(1)\n  \u{e9}l\u{e9} = 2\n}";
    let diags = vec![
        diag("jina halijulikani: hesabu", Some((2, 0))),
        diag("kosa la aina", Some((2, 7))),
        diag("hakuna", None),
        diag("jina halijulikani: zzz", Some((3, 1))),
        diag("jina halijulikani: x", Some((9, 0))),
    ];
    let out = asili_diagnostics_to_lsp_with_source(&diags, source);
    assert_eq!(out.len(), 5);
    assert!(out[0].range == range(1, 13, 19));
    assert!(out[1].range == range(1, 6, 7));
    assert!(out[2].range == range(0, 0, 1));
    assert!(out[3].range == range(2, 2, 7));
    assert!(out[4].range == range(8, 0, 1));
    assert_eq!(out[0].code, "SEM001");
    assert_eq!(out[0].source, "semantiki");
    assert_eq!(out[0].message, "jina halijulikani: hesabu");
}

#[test]
fn interface_stubs_are_recognised_by_extension() {
    assert!(is_interface_stub("file:///lib/std/msingi.asi"));
    assert!(!is_interface_stub("file:///src/kuu.as"));
}

#[test]
fn cache_key_is_the_hex_of_the_first_eight_digest_bytes() {
    // SHA-256("abc") starts ba 78 16 bf 8f 01 cf ea.
    assert_eq!(cache_key("a", "b", "c"), "ba7816bf8f01cfea");
    assert_eq!(cache_key("ab", "", "c"), cache_key("a", "bc", ""));
    assert_ne!(cache_key("x", "", ""), cache_key("y", "", ""));
}

#[test]
fn build_target_prefers_flag_then_manifest() {
    assert_eq!(resolve_target(Some("wasm"), Some("native")).0, "wasm");
    assert_eq!(resolve_target(None, Some("embedded")).0, "embedded");
    assert_eq!(resolve_target(None, None).0, "native");
}

fn module(name: &str, imports: &[&str]) -> ModuleImports {
    ModuleImports { name: name.to_string(), imports: imports.iter().map(|s| s.to_string()).collect() }
}

#[test]
fn dependency_order_puts_dependencies_first() {
    let modules = vec![
        module("app", &["util", "msingi"]),
        module("util", &["core"]),
        module("core", &[]),
    ];
    let order = dependency_order(&modules);
    assert_eq!(order, vec!["core".to_string(), "util".to_string(), "app".to_string()]);
}

#[test]
fn build_manifest_records_and_returns_the_input_hash() {
    let text = build_manifest_text("app", "src/kuu.as", 3, Some("00ff"));
    assert_eq!(text, "mradi=app\nkuingia=src/kuu.as\nkazi=3\nkilele=app.asb\nhashi_chanzo=00ff\n");
    assert_eq!(stored_input_hash(&text).as_deref(), Some("00ff"));
    let plain = build_manifest_text("x", "x.as", 0, None);
    assert_eq!(plain, "mradi=x\nkuingia=x.as\nkazi=0\nkilele=x.asb\n");
    assert_eq!(stored_input_hash(&plain), None);
    assert_eq!(stored_input_hash("a=1\r\nhashi_chanzo=  ab \r\nhashi_chanzo=cd\n").as_deref(), Some("ab"));
}

#[test]
fn input_hash_reads_modules_in_name_order() {
    let p = |n: &str, t: &str| (n.to_string(), t.to_string());
    let sorted = modules_in_name_order(&vec![p("zana", "z"), p("hesabu", "builtin:hesabu"), p("msaada", "m"), p("Beta", "b")]);
    assert_eq!(sorted, vec![p("Beta", "b"), p("hesabu", "builtin:hesabu"), p("msaada", "m"), p("zana", "z")]);
    assert!(modules_in_name_order(&vec![]).is_empty());
}

#[test]
fn orderable_rejects_cycles_and_repeated_names() {
    let m = |n: &str, imports: &[&str]| ModuleImports { name: n.to_string(), imports: imports.iter().map(|s| s.to_string()).collect() };
    assert!(orderable(&vec![m("a", &["b"]), m("b", &["hesabu"]), m("c", &["a", "b"])]));
    assert!(orderable(&vec![]));
    assert!(!orderable(&vec![m("a", &["b"]), m("b", &["c"]), m("c", &["a"])]));
    assert!(!orderable(&vec![m("a", &["a"])]));
    assert!(!orderable(&vec![m("a", &[]), m("a", &[])]));
    assert!(orderable(&vec![m("x", &[]), m("a", &["b"]), m("b", &[])]));
}

#[test]
fn input_hash_parts_list_entry_target_then_modules_by_name() {
    let p = |n: &str, t: &str| (n.to_string(), t.to_string());
    let parts = input_hash_parts("/p/kuu.as", "kazi kuu() {}", "native", &vec![p("zana", "z"), p("hesabu", "builtin:hesabu")]);
    assert_eq!(parts, vec!["/p/kuu.as", "kazi kuu() {}", "native", "hesabu", "builtin:hesabu", "zana", "z"]);
}
