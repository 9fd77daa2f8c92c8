use pata::code_lens::test_code_lenses;
use pata::document_format::{Position, Range};
use pata::exports::FnContract;
use pata::signature::compute_signature_help;
use pata::completion::{completion_items, CompletionKind};
use pata::format::Token;
use pata::navigation::{
    find_references, find_references_in, goto_definition, is_exported_declaration,
    workspace_symbols, word_at_range,
};
use pata::outline::{ConstDecl, FnDecl, ModuleOutline, StructDecl, TraitDecl};
use pata::outline_symbols::OutlineKind;

const SOURCE: &str = "
kazi salamu(jina: Neno) -> Neno {
  rejesha jina
}

umbo Mtu { jina: Neno, umri: Namba }

thabiti IDADI: Namba = 42
";

/// Identifiers, numbers and single punctuation characters, with 1-based line and column.
fn toks(src: &str) -> Vec<Token> {
    let mut out = Vec::new();
    for (li, line) in src.split('\n').enumerate() {
        let chars: Vec<char> = line.chars().collect();
        let mut i = 0;
        while i < chars.len() {
            let c = chars[i];
            if c.is_whitespace() {
                i += 1;
            } else if c.is_alphanumeric() || c == '_' {
                let start = i;
                while i < chars.len() && (chars[i].is_alphanumeric() || chars[i] == '_') {
                    i += 1;
                }
                out.push(Token {
                    lexeme: chars[start..i].iter().collect(),
                    line: li + 1,
                    column: start + 1,
                });
            } else {
                out.push(Token { lexeme: c.to_string(), line: li + 1, column: i + 1 });
                i += 1;
            }
        }
    }
    out
}

fn func(name: &str, line: usize, params: &[(&str, &str)], ret: &str, public: bool) -> FnDecl {
    FnDecl {
        name: name.to_string(),
        line,
        is_public: public,
        attrs: vec![],
        params: params.iter().map(|(n, t)| (n.to_string(), t.to_string())).collect(),
        return_type: ret.to_string(),
        statement_count: 1,
    }
}

fn source_module() -> ModuleOutline {
    ModuleOutline {
        imports: vec![],
        constants: vec![ConstDecl { name: "IDADI".to_string(), line: 8, ty: "Namba".to_string() }],
        enums: vec![],
        functions: vec![func("salamu", 2, &[("jina", "Neno")], "Neno", false)],
        structs: vec![StructDecl {
            name: "Mtu".to_string(),
            line: 6,
            is_public: true,
            fields: vec![
                ("jina".to_string(), Some("Neno".to_string())),
                ("umri".to_string(), Some("Namba".to_string())),
            ],
        }],
        traits: vec![],
        impls: vec![],
    }
}

fn labels(m: &Option<ModuleOutline>) -> Vec<String> {
    completion_items(m).into_iter().map(|i| i.label).collect()
}

#[test]
fn completion_includes_keywords() {
    let l = labels(&Some(source_module()));
    assert!(l.iter().any(|x| x == "kazi"));
    assert!(l.iter().any(|x| x == "ikiwa"));
    assert!(l.iter().any(|x| x == "rejesha"));
}

#[test]
fn completion_includes_user_function() {
    let l = labels(&Some(source_module()));
    assert!(l.iter().any(|x| x == "salamu"));
}

#[test]
fn completion_includes_user_struct() {
    let l = labels(&Some(source_module()));
    assert!(l.iter().any(|x| x == "Mtu"));
}

#[test]
fn completion_includes_builtin_types() {
    let l = labels(&Some(source_module()));
    assert!(l.iter().any(|x| x == "Namba"));
    assert!(l.iter().any(|x| x == "Neno"));
}

#[test]
fn completion_details_and_order() {
    let items = completion_items(&Some(source_module()));
    assert_eq!(items.len(), 33 + 19 + 12 + 1 + 3 + 1);
    assert_eq!(items[0].label, "leta");
    assert_eq!(items[0].kind, CompletionKind::Keyword);
    assert_eq!(items[33].label, "Namba");
    assert_eq!(items[33].kind, CompletionKind::Class);
    assert_eq!(items[52].label, "chapisha");
    assert_eq!(items[52].detail.as_deref(), Some("(builtin)"));
    let f = &items[64];
    assert_eq!(f.label, "salamu");
    assert_eq!(f.detail.as_deref(), Some("kazi salamu(jina: Neno) -> Neno"));
    assert_eq!(items[65].detail.as_deref(), Some("umbo Mtu"));
    assert_eq!(items[66].label, "Mtu.jina");
    assert_eq!(items[66].kind, CompletionKind::Field);
    assert_eq!(items[66].detail.as_deref(), Some("jina: Neno"));
    assert_eq!(items[68].label, "IDADI");
    assert_eq!(items[68].detail.as_deref(), Some("thabiti IDADI: Namba"));
    assert_eq!(completion_items(&None).len(), 64);
}

#[test]
fn goto_definition_finds_function() {
    let loc = goto_definition(&toks(SOURCE), &source_module(), 1, 5);
    assert_eq!(loc, Some(1));
}

#[test]
fn goto_definition_unknown_returns_none() {
    let loc = goto_definition(&toks(SOURCE), &source_module(), 0, 0);
    assert!(loc.is_none());
}

#[test]
fn find_references_finds_all_occurrences() {
    let src = "weka x = 1\nx + x";
    let locs = find_references(&toks(src), &None, 0, 5, true);
    assert!(!locs.is_empty());
    assert!(locs.len() >= 3);
    assert_eq!((locs[1].line, locs[1].start, locs[1].end), (1, 0, 1));
}

#[test]
fn find_references_excludes_declaration() {
    let src = "kazi salamu(x: Namba) -> Namba { rejesha x }\nkazi a() -> Namba { rejesha salamu(1) }\nkazi b() -> Namba { rejesha salamu(2) }";
    let module = ModuleOutline {
        imports: vec![],
        constants: vec![],
        enums: vec![],
        functions: vec![
            func("salamu", 1, &[("x", "Namba")], "Namba", false),
            func("a", 2, &[], "Namba", false),
            func("b", 3, &[], "Namba", false),
        ],
        structs: vec![],
        traits: vec![],
        impls: vec![],
    };
    let t = toks(src);
    let m = Some(module);
    let with_decl = find_references(&t, &m, 0, 5, true);
    let without_decl = find_references(&t, &m, 0, 5, false);
    assert!(with_decl.len() > without_decl.len());
    assert_eq!(without_decl.len(), 2);
}

#[test]
fn references_in_another_file_and_word_range() {
    let t = toks("x + y\ny + y");
    assert_eq!(find_references_in("y", &t).len(), 3);
    let (w, span) = word_at_range(&t, 1, 4).expect("token under cursor");
    assert_eq!(w, "y");
    assert_eq!((span.line, span.start, span.end), (1, 4, 5));
    assert!(word_at_range(&t, 5, 0).is_none());
}

#[test]
fn exported_declarations() {
    let m = source_module();
    assert!(is_exported_declaration(&m, "Mtu"));
    assert!(is_exported_declaration(&m, "IDADI"));
    assert!(!is_exported_declaration(&m, "salamu"));
    assert!(!is_exported_declaration(&m, "jina"));
}

#[test]
fn workspace_symbols_finds_across_docs() {
    let mut other = source_module();
    other.functions = vec![func("hesabu", 1, &[], "Namba", false)];
    other.structs = vec![];
    other.constants = vec![];
    let docs = vec![
        ("file:///a.as".to_string(), source_module()),
        ("file:///b.as".to_string(), other),
    ];
    let syms = workspace_symbols(&docs, "");
    assert!(syms.iter().any(|s| s.name == "salamu"));
    assert!(syms.iter().any(|s| s.name == "hesabu" && s.uri == "file:///b.as"));
    assert_eq!(syms.len(), 4);
}

#[test]
fn workspace_symbols_filters_by_query() {
    let mut m = source_module();
    m.traits = vec![TraitDecl { name: "Salimu".to_string(), line: 10, is_public: false }];
    let docs = vec![("file:///a.as".to_string(), m)];
    let syms = workspace_symbols(&docs, "SAL");
    assert!(syms.iter().all(|s| s.name.to_lowercase().contains("sal")));
    assert_eq!(syms.len(), 2);
    assert_eq!(syms[1].kind, OutlineKind::Interface);
    assert_eq!(syms[1].line, 9);
}

#[test]
fn signature_help_prefers_the_current_module_then_the_workspace_then_builtins() {
    let src = "salamu(1, ";
    let sig = compute_signature_help(src, 0, 10, &Some(source_module()), &vec![], &vec![]).expect("signature");
    assert_eq!(sig.label, "kazi salamu(jina: Neno) -> Neno");
    assert_eq!(sig.params, vec!["jina: Neno".to_string()]);
    assert_eq!(sig.active_param, 1);

    let mut other = source_module();
    other.functions = vec![func("hesabu", 1, &[("a", "Namba")], "Namba", true)];
    let sig = compute_signature_help("hesabu(", 0, 7, &Some(source_module()), &vec![other], &vec![]).expect("signature");
    assert_eq!(sig.label, "kazi hesabu(a: Namba) -> Namba");

    let externs = vec![(
        "chapisha".to_string(),
        FnContract { params: vec!["Neno".to_string()], ret: "Tupu".to_string() },
    )];
    let sig = compute_signature_help("chapisha(", 0, 9, &Some(source_module()), &vec![], &externs).expect("signature");
    assert_eq!(sig.label, "kazi chapisha(Neno) -> Tupu");
    assert_eq!(sig.params, vec!["Neno".to_string()]);
    assert!(compute_signature_help("haipo(", 0, 6, &Some(source_module()), &vec![], &externs).is_none());
    assert!(compute_signature_help("salamu(", 0, 7, &None, &vec![], &externs).is_none());
}

#[test]
fn test_functions_get_a_run_lens_on_their_line() {
    let mut jaribio = func("jaribio_jumla", 4, &[], "Tupu", false);
    jaribio.attrs = vec!["jaribio".to_string()];
    let module = ModuleOutline {
        imports: vec![],
        constants: vec![],
        enums: vec![],
        functions: vec![func("kuu", 1, &[], "Tupu", false), jaribio],
        structs: vec![],
        traits: vec![],
        impls: vec![],
    };
    let lenses = test_code_lenses(&Some(module), "file:///kuu.as");
    assert_eq!(lenses.len(), 1);
    let end = Position { line: 3, character: 2147483647 };
    assert!(lenses[0].range == Range { start: Position { line: 3, character: 0 }, end });
    assert_eq!(lenses[0].title, "▶ Endesha Jaribio");
    assert_eq!(lenses[0].command, "asili.runTest");
    assert_eq!(lenses[0].arguments, vec!["file:///kuu.as".to_string(), "jaribio_jumla".to_string()]);
    assert!(test_code_lenses(&None, "file:///kuu.as").is_empty());
}

#[test]
fn completion_starts_with_fixed_words_in_order() {
    let bare = labels(&None);
    let with = labels(&Some(source_module()));
    assert_eq!(bare[0], "leta");
    assert_eq!(with[..bare.len()], bare[..]);
    let kw = bare.iter().position(|x| x == "kazi").unwrap();
    let ty = bare.iter().position(|x| x == "Namba").unwrap();
    let bf = bare.iter().position(|x| x == "chapisha").unwrap();
    assert!(kw < ty && ty < bf);
    assert_eq!(with[bare.len()], "salamu");
}
