use pata::exports::{
    build_export_table, check_duplicate_imports, merge_for_semantic, table_get, table_insert,
    ExportTable, FnContract, ResolvedModule,
};
use pata::outline::{ConstDecl, FnDecl, ImportDecl, ModuleOutline};

fn empty() -> ModuleOutline {
    ModuleOutline {
        imports: vec![],
        constants: vec![],
        enums: vec![],
        functions: vec![],
        structs: vec![],
        traits: vec![],
        impls: vec![],
    }
}

fn func(name: &str, public: bool, params: &[&str], ret: &str) -> FnDecl {
    FnDecl {
        name: name.to_string(),
        line: 1,
        is_public: public,
        attrs: vec![],
        params: params.iter().enumerate().map(|(i, t)| (format!("p{i}"), t.to_string())).collect(),
        return_type: ret.to_string(),
        statement_count: 1,
    }
}

fn contract(params: &[&str], ret: &str) -> FnContract {
    FnContract { params: params.iter().map(|s| s.to_string()).collect(), ret: ret.to_string() }
}

fn table(fns: &[&str], consts: &[&str]) -> ExportTable {
    ExportTable {
        functions: fns.iter().map(|n| (n.to_string(), contract(&[], "Tupu"))).collect(),
        constants: consts.iter().map(|n| (n.to_string(), "Namba".to_string())).collect(),
    }
}

fn resolved(name: &str, exports: ExportTable, is_stdlib: bool) -> (String, ResolvedModule) {
    (name.to_string(), ResolvedModule { module: empty(), exports, is_stdlib })
}

fn import(module: &str, names: Option<&[&str]>, line: usize) -> ImportDecl {
    ImportDecl {
        module: module.to_string(),
        names: names.map(|ns| ns.iter().map(|s| s.to_string()).collect()),
        line,
    }
}

#[test]
fn export_table_keeps_public_functions_and_every_constant() {
    let mut m = empty();
    m.functions = vec![func("wazi", true, &["Namba", "Neno"], "Ukweli"), func("siri", false, &[], "Tupu")];
    m.constants = vec![ConstDecl { name: "PI".to_string(), line: 3, ty: "Namba".to_string() }];
    let t = build_export_table(&m);
    assert_eq!(t.functions.len(), 1);
    let c = table_get(&t.functions, "wazi").expect("public function exported");
    assert_eq!(c.params, vec!["Namba".to_string(), "Neno".to_string()]);
    assert_eq!(c.ret, "Ukweli");
    assert!(table_get(&t.functions, "siri").is_none());
    assert_eq!(table_get(&t.constants, "PI").map(|s| s.as_str()), Some("Namba"));
}

#[test]
fn table_insert_replaces_an_existing_name() {
    let mut t: Vec<(String, String)> = vec![];
    table_insert(&mut t, "a".to_string(), "1".to_string());
    table_insert(&mut t, "b".to_string(), "2".to_string());
    table_insert(&mut t, "a".to_string(), "3".to_string());
    assert_eq!(t.len(), 2);
    assert_eq!(table_get(&t, "a").map(|s| s.as_str()), Some("3"));
}

#[test]
fn merge_brings_in_what_each_import_names() {
    let mut m = empty();
    m.imports = vec![import("hesabu", Some(&["jumla"]), 1), import("maandishi", None, 2), import("haipo", None, 3)];
    let res = vec![
        resolved("hesabu", table(&["jumla", "tofauti"], &["PI"]), false),
        resolved("maandishi", table(&["unganisha"], &["TUPU"]), true),
    ];
    let prelude = table(&["chapisha"], &[]);
    let env = merge_for_semantic(&m, &res, &prelude);
    let names: Vec<&str> = env.functions.iter().map(|(n, _)| n.as_str()).collect();
    assert_eq!(names, vec!["chapisha", "jumla", "unganisha"]);
    let consts: Vec<&str> = env.constants.iter().map(|(n, _)| n.as_str()).collect();
    assert_eq!(consts, vec!["TUPU"]);
}

#[test]
fn same_name_from_two_imports_is_a_clash() {
    let mut m = empty();
    m.imports = vec![import("a", None, 1), import("b", None, 2)];
    let res = vec![
        resolved("a", table(&["sawa"], &["K"]), false),
        resolved("b", table(&["sawa"], &["K"]), false),
    ];
    let errs = check_duplicate_imports(&m, &res, &table(&[], &[]));
    assert_eq!(errs.len(), 2);
    assert_eq!(errs[0].code, "SEM090");
    assert_eq!(errs[0].message, "jina lamerudia: 'sawa' limetoka a na b");
    assert_eq!(errs[0].line, 2);
    assert_eq!(errs[1].code, "SEM091");
    assert_eq!(errs[1].message, "jina lamerudia: 'K' (thabiti) limetoka a");
}

#[test]
fn prelude_names_may_come_again_from_the_standard_library_only() {
    let mut m = empty();
    m.imports = vec![import("std_mod", None, 4), import("mtumiaji", Some(&["chapisha"]), 5)];
    let res = vec![
        resolved("std_mod", table(&["chapisha"], &[]), true),
        resolved("mtumiaji", table(&["chapisha", "nyingine"], &[]), false),
    ];
    let errs = check_duplicate_imports(&m, &res, &table(&["chapisha"], &[]));
    assert_eq!(errs.len(), 1);
    assert_eq!(errs[0].message, "jina lamerudia: 'chapisha' limetoka msingi na mtumiaji");
    assert_eq!(errs[0].line, 5);
}
