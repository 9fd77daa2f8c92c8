use pata::commands::thibitisha::{
    check_file_docs, check_unparsed_docs, enforce_ffi_signatures, enforce_trait_completeness,
};
use pata::lint::{
    check_doc_comments, check_logic_errors, check_naming_conventions, check_style_issues,
    check_style_issues_with_limit, check_unused_imports, extract_string_literals, is_pascal_case,
    is_snake_case, is_swahili, is_upper_case, name_used_outside_import_line,
};
use pata::outline::{
    ConstDecl, EnumDecl, FnDecl, ImplDecl, ImportDecl, ModuleOutline, StructDecl, TraitDecl,
    VariantDecl,
};
use pata::outline_symbols::{document_symbols, OutlineKind};
use pata::stability::compare_with_baseline;

fn empty() -> ModuleOutline {
    ModuleOutline {
        imports: vec![],
        constants: vec![],
        enums: vec![],
        functions: vec![],
        structs: vec![],
        traits: vec![],
        impls: vec![],
    }
}

fn func(name: &str, line: usize, params: &[(&str, &str)], ret: &str) -> FnDecl {
    FnDecl {
        name: name.to_string(),
        line,
        is_public: false,
        attrs: vec![],
        params: params.iter().map(|(n, t)| (n.to_string(), t.to_string())).collect(),
        return_type: ret.to_string(),
        statement_count: 1,
    }
}

fn module_with_functions(fs: Vec<FnDecl>) -> ModuleOutline {
    let mut m = empty();
    m.functions = fs;
    m
}

fn selective_import(module: &str, names: &[&str], line: usize) -> ImportDecl {
    ImportDecl {
        module: module.to_string(),
        names: Some(names.iter().map(|s| s.to_string()).collect()),
        line,
    }
}

fn codes(d: &[pata::lint::LintDiagnostic], code: &str) -> usize {
    d.iter().filter(|x| x.code == code).count()
}

// `kazi undocumented() -> Tupu { rejesha Tupu }`
#[test]
fn lint202_flags_undocumented_function() {
    let src = "kazi undocumented() -> Tupu { rejesha Tupu }";
    let m = module_with_functions(vec![func("undocumented", 1, &[], "Tupu")]);
    let diags = check_doc_comments(&m, src);
    assert!(diags.iter().any(|d| d.code == "LINT202"));
}

#[test]
fn lint202_accepts_documented_function() {
    let src = "# This is documented\nkazi documented() -> Tupu { rejesha Tupu }";
    let m = module_with_functions(vec![func("documented", 2, &[], "Tupu")]);
    let diags = check_doc_comments(&m, src);
    assert!(!diags.iter().any(|d| d.code == "LINT202"));
}

#[test]
fn lint202_accepts_main_function() {
    let src = "kazi kuu() -> Tupu { rejesha Tupu }";
    let m = module_with_functions(vec![func("kuu", 1, &[], "Tupu")]);
    assert_eq!(codes(&check_doc_comments(&m, src), "LINT202"), 0);
}

#[test]
fn lint202_accepts_test_function() {
    let src = "#[jaribio]\nkazi test_something() -> Tupu { rejesha Tupu }";
    let m = module_with_functions(vec![func("test_something", 2, &[], "Tupu")]);
    assert_eq!(codes(&check_doc_comments(&m, src), "LINT202"), 0);
}

#[test]
fn lint202_skips_attribute_lines_above_the_function() {
    let src = "# Hati\n#[jaribio]\nkazi hesabu() -> Tupu { rejesha Tupu }\n#[jaribio]\nkazi nyingine() -> Tupu {}";
    let m = module_with_functions(vec![func("hesabu", 3, &[], "Tupu"), func("nyingine", 5, &[], "Tupu")]);
    let diags = check_doc_comments(&m, src);
    assert_eq!(diags.len(), 1);
    assert_eq!(diags[0].message, "kazi 'nyingine' haina maelezo (doc comment)");
    assert_eq!(diags[0].line, 5);
    assert_eq!(diags[0].stage, "ukaguzi");
}

#[test]
fn lint203_flags_unused_selective_import() {
    let src = "leta msingi::{chapisha}\nkazi kuu() -> Tupu { rejesha Tupu }";
    let mut m = module_with_functions(vec![func("kuu", 2, &[], "Tupu")]);
    m.imports = vec![selective_import("msingi", &["chapisha"], 1)];
    let diags = check_unused_imports(&m, src);
    assert!(diags.iter().any(|d| d.code == "LINT203" && d.message.contains("chapisha")));
}

#[test]
fn lint203_accepts_used_selective_import() {
    let src = "leta msingi::{chapisha}\nkazi kuu() -> Tupu { chapisha(\"hi\") }";
    let mut m = module_with_functions(vec![func("kuu", 2, &[], "Tupu")]);
    m.imports = vec![selective_import("msingi", &["chapisha"], 1)];
    assert_eq!(codes(&check_unused_imports(&m, src), "LINT203"), 0);
}

#[test]
fn lint203_flags_only_the_unused_name_in_a_mixed_import() {
    let src = "leta msingi::{chapisha, soma}\nkazi kuu() -> Tupu { chapisha(\"hi\") }";
    let mut m = module_with_functions(vec![func("kuu", 2, &[], "Tupu")]);
    m.imports = vec![selective_import("msingi", &["chapisha", "soma"], 1)];
    let diags = check_unused_imports(&m, src);
    let lint203: Vec<_> = diags.iter().filter(|d| d.code == "LINT203").collect();
    assert_eq!(lint203.len(), 1);
    assert!(lint203[0].message.contains("soma"));
}

#[test]
fn lint203_does_not_check_full_wildcard_imports() {
    let src = "leta msingi\nkazi kuu() -> Tupu { rejesha Tupu }";
    let mut m = module_with_functions(vec![func("kuu", 2, &[], "Tupu")]);
    m.imports = vec![ImportDecl { module: "msingi".to_string(), names: None, line: 1 }];
    assert_eq!(codes(&check_unused_imports(&m, src), "LINT203"), 0);
}

#[test]
fn whole_word_search_ignores_longer_identifiers() {
    let src = "leta m::{soma}\nweka somaji = 1";
    assert!(!name_used_outside_import_line(src, "soma", 1));
    assert!(name_used_outside_import_line("leta m::{soma}\nsoma()", "soma", 1));
}

#[test]
fn lint101_flags_long_function() {
    let mut f = func("ndefu", 1, &[], "Tupu");
    f.statement_count = 52;
    let diags = check_style_issues(&module_with_functions(vec![f]));
    assert!(diags.iter().any(|d| d.code == "LINT101"));
    assert_eq!(diags[0].message, "kazi 'ndefu' ina kauli 52 — fikiria kuigawanya");
}

#[test]
fn lint101_accepts_short_function() {
    let mut f = func("fupi", 1, &[], "Tupu");
    f.statement_count = 2;
    assert_eq!(codes(&check_style_issues(&module_with_functions(vec![f])), "LINT101"), 0);
}

#[test]
fn lint101_accepts_boundary_function() {
    let mut f = func("boundary", 1, &[], "Tupu");
    f.statement_count = 50;
    assert_eq!(codes(&check_style_issues(&module_with_functions(vec![f])), "LINT101"), 0);
}

#[test]
fn style_limit_is_exclusive() {
    let mut f = func("kati", 1, &[], "Tupu");
    f.statement_count = 11;
    assert_eq!(codes(&check_style_issues_with_limit(&module_with_functions(vec![f]), 10), "LINT101"), 1);
}

#[test]
fn logic_checks_placeholder() {
    let diags = check_logic_errors(&module_with_functions(vec![func("test", 1, &[], "Tupu")]));
    assert_eq!(diags.len(), 0);
}

#[test]
fn naming_rules() {
    assert!(is_snake_case("hesabu_2"));
    assert!(!is_snake_case("Hesabu"));
    assert!(is_pascal_case("Mtu_Mzima"));
    assert!(!is_pascal_case("mtu"));
    assert!(is_upper_case("IDADI_2"));
    assert!(!is_upper_case("Idadi"));
    assert!(is_swahili("ṅombe"));
    assert!(!is_swahili("ng'ombe"));
    let mut m = module_with_functions(vec![func("Hesabu", 3, &[], "Tupu"), func("sawa", 4, &[], "Tupu")]);
    m.structs = vec![StructDecl { name: "mtu".to_string(), line: 6, is_public: false, fields: vec![] }];
    m.constants = vec![ConstDecl { name: "idadi".to_string(), line: 8, ty: "Namba".to_string() }];
    let diags = check_naming_conventions(&m);
    let got: Vec<(&str, usize)> = diags.iter().map(|d| (d.code.as_str(), d.line)).collect();
    assert_eq!(got, vec![("LINT001", 3), ("LINT002", 6), ("LINT003", 8)]);
    assert_eq!(diags[0].message, "jina la kazi 'Hesabu' linapaswa kuwa snake_case au Kiswahili");
}

#[test]
fn string_literals_are_extracted_outside_comments() {
    let src = "chapisha(\"a\") # \"si hii\"\n#[sifa(\"ndiyo\")]\nweka s = \"x\\\"y\"";
    let lits = extract_string_literals(src);
    assert_eq!(lits, vec!["a".to_string(), "ndiyo".to_string(), "x\\\"y".to_string()]);
}

fn source_symbols() -> ModuleOutline {
    // kazi salamu(jina: Neno) -> Neno { ... }   (line 2)
    // umbo Mtu { jina: Neno, umri: Namba }      (line 6)
    // thabiti IDADI: Namba = 42                 (line 8)
    let mut m = module_with_functions(vec![func("salamu", 2, &[("jina", "Neno")], "Neno")]);
    m.structs = vec![StructDecl {
        name: "Mtu".to_string(),
        line: 6,
        is_public: false,
        fields: vec![
            ("jina".to_string(), Some("Neno".to_string())),
            ("umri".to_string(), Some("Namba".to_string())),
        ],
    }];
    m.constants = vec![ConstDecl { name: "IDADI".to_string(), line: 8, ty: "Namba".to_string() }];
    m
}

#[test]
fn document_symbols_finds_function() {
    let syms = document_symbols(&source_symbols());
    let found = syms.iter().any(|s| s.name == "salamu" && s.kind == OutlineKind::Function);
    assert!(found, "should find function 'salamu'");
}

#[test]
fn document_symbols_finds_struct_with_fields() {
    let syms = document_symbols(&source_symbols());
    let s = syms.iter().find(|s| s.name == "Mtu" && s.kind == OutlineKind::Struct);
    assert!(s.is_some(), "should find struct 'Mtu'");
    let children = s.unwrap().children.as_ref().expect("struct should have field children");
    assert!(children.iter().any(|c| c.name == "jina"), "should have field 'jina'");
    assert!(children.iter().any(|c| c.name == "umri"), "should have field 'umri'");
}

#[test]
fn document_symbols_finds_constant() {
    let syms = document_symbols(&source_symbols());
    let found = syms.iter().any(|s| s.name == "IDADI" && s.kind == OutlineKind::Constant);
    assert!(found, "should find constant 'IDADI'");
}

#[test]
fn document_symbols_details_lines_and_enum_variants() {
    let mut m = source_symbols();
    m.enums = vec![EnumDecl {
        name: "Rangi".to_string(),
        line: 10,
        is_public: false,
        variants: vec![
            VariantDecl { name: "Nyekundu".to_string(), line: 11, data: None },
            VariantDecl { name: "Nyingine".to_string(), line: 12, data: Some("Neno".to_string()) },
        ],
    }];
    let syms = document_symbols(&m);
    assert_eq!(syms.len(), 4);
    assert_eq!(syms[0].detail.as_deref(), Some("-> Neno"));
    assert_eq!(syms[0].line, 1);
    let e = &syms[3];
    assert_eq!(e.kind, OutlineKind::Enum);
    let v = e.children.as_ref().unwrap();
    assert_eq!(v[1].detail.as_deref(), Some("Neno"));
    assert_eq!(v[1].line, 11);
}

#[test]
fn trait_completeness_ignores_builtin_traits() {
    let mut m = empty();
    m.traits = vec![
        TraitDecl { name: "Inasomeka".to_string(), line: 0, is_public: true },
        TraitDecl { name: "Onyesha".to_string(), line: 3, is_public: true },
    ];
    let err = enforce_trait_completeness(&m).unwrap_err();
    assert_eq!(err.message, "sifa 'Onyesha' haina utekelezaji wowote kwenye mradi huu");
    m.impls = vec![ImplDecl { trait_name: Some("Onyesha".to_string()) }];
    assert!(enforce_trait_completeness(&m).is_ok());
}

#[test]
fn ffi_signatures_are_checked_for_foreign_functions_only() {
    let mut f = func("piga", 1, &[("x", "Namba"), ("orodha", "Orodha<Namba>")], "Tupu");
    let plain = module_with_functions(vec![f.clone()]);
    assert!(enforce_ffi_signatures(&plain).is_ok());
    f.attrs = vec!["kiunganishi".to_string()];
    let err = enforce_ffi_signatures(&module_with_functions(vec![f.clone()])).unwrap_err();
    assert_eq!(
        err.message,
        "kazi ya kiunganishi 'piga' hoja 'orodha' ina aina isiyo salama kwa ABI ya C: Orodha<Namba>"
    );
    f.params.pop();
    f.return_type = "Neno".to_string();
    let err = enforce_ffi_signatures(&module_with_functions(vec![f])).unwrap_err();
    assert_eq!(err.message, "kazi ya kiunganishi 'piga' aina ya kurejesha si salama kwa ABI ya C: Neno");
}

#[test]
fn public_items_need_doc_comments() {
    let lines: Vec<String> = ["/// Salamu", "umma kazi salamu() -> Tupu {}", "", "umma umbo Mtu {}"]
        .iter()
        .map(|s| s.to_string())
        .collect();
    let mut m = empty();
    let mut f = func("salamu", 2, &[], "Tupu");
    f.is_public = true;
    m.functions = vec![f];
    m.structs = vec![StructDecl { name: "Mtu".to_string(), line: 4, is_public: true, fields: vec![] }];
    let err = check_file_docs("src/kuu.as", &lines, &m).unwrap_err();
    assert_eq!(err.message, "nyaraka zimekosekana kwa umbo la umma 'Mtu' kwenye src/kuu.as:4");
    let err = check_unparsed_docs("src/kuu.as", &lines).unwrap_err();
    assert_eq!(err.message, "nyaraka zimekosekana kwa item ya umma kwenye src/kuu.as:4");
}

fn pub_func(name: &str, line: usize, params: &[(&str, &str)], ret: &str) -> FnDecl {
    let mut f = func(name, line, params, ret);
    f.is_public = true;
    f
}

#[test]
fn stability_detects_arity_change() {
    // Verify that parameter count mismatches are detected.
    let baseline = module_with_functions(vec![pub_func("jumla", 1, &[("a", "Namba")], "Namba")]);
    let current = module_with_functions(vec![pub_func("jumla", 1, &[("a", "Namba"), ("b", "Namba")], "Namba")]);
    let err = compare_with_baseline(&baseline, &current).unwrap_err();
    assert_eq!(err.message, "mabadiliko ya kukatika aiki yanayolingana:\nkazi 'jumla': muundo wa hoja umegeuka (1 → 2)");
    assert_eq!(err.exit_code, 1);
}

#[test]
fn stability_reports_removed_functions_and_ignores_tests() {
    let baseline = module_with_functions(vec![
        pub_func("ondoka", 1, &[], "Tupu"),
        pub_func("test_x", 2, &[], "Tupu"),
        pub_func("baki", 3, &[], "Tupu"),
    ]);
    let current = module_with_functions(vec![pub_func("baki", 1, &[], "Tupu"), pub_func("mpya", 2, &[("a", "Namba")], "Tupu")]);
    let err = compare_with_baseline(&baseline, &current).unwrap_err();
    assert_eq!(err.message, "mabadiliko ya kukatika aiki yanayolingana:\nkazi 'ondoka' iliondolewa");
    assert!(compare_with_baseline(&current, &current).is_ok());
}

#[test]
fn stability_ignores_private_functions() {
    let baseline = module_with_functions(vec![
        func("siri", 1, &[], "Tupu"),
        func("msaidizi", 2, &[("a", "Namba")], "Tupu"),
    ]);
    let current = module_with_functions(vec![func("msaidizi", 1, &[], "Tupu")]);
    assert!(compare_with_baseline(&baseline, &current).is_ok());
}
