use pata::outline::{FnDecl, ModuleOutline, StructDecl};
use pata::sharti::{filter_module_for_target, TargetVerdicts, Verdict};

fn func(name: &str, line: usize) -> FnDecl {
    FnDecl {
        name: name.to_string(),
        line,
        is_public: false,
        attrs: vec![],
        params: vec![],
        return_type: "Tupu".to_string(),
        statement_count: 1,
    }
}

fn empty() -> ModuleOutline {
    ModuleOutline { imports: vec![], constants: vec![], enums: vec![], functions: vec![], structs: vec![], traits: vec![], impls: vec![] }
}

/// The verdict of a `lengo = "<gate>"` predicate (or none) for `target`.
fn verdict(gate: Option<&str>, target: &str, line: usize) -> Verdict {
    (Ok(gate.map_or(true, |g| g == target)), line)
}

fn verdicts(functions: Vec<Verdict>, structs: Vec<Verdict>) -> TargetVerdicts {
    TargetVerdicts { enums: vec![], structs, traits: vec![], impls: vec![], functions }
}

#[test]
fn gated_function_filtered_by_target() {
    let mut module = empty();
    module.functions = vec![func("tu_wasm", 3), func("kuu", 6)];
    let mut native = module.clone();
    let v = verdicts(vec![verdict(Some("wasm"), "native", 3), verdict(None, "native", 6)], vec![]);
    filter_module_for_target(&mut native, &v).expect("filter ok");
    assert!(!native.functions.iter().any(|f| f.name == "tu_wasm"));
    assert!(native.functions.iter().any(|f| f.name == "kuu"));

    let v = verdicts(vec![verdict(Some("wasm"), "wasm", 3), verdict(None, "wasm", 6)], vec![]);
    filter_module_for_target(&mut module, &v).expect("filter ok");
    assert!(module.functions.iter().any(|f| f.name == "tu_wasm"));
}

#[test]
fn gated_struct_filtered_by_target() {
    let mut module = empty();
    module.structs = vec![StructDecl { name: "TuWasm".to_string(), line: 3, is_public: false, fields: vec![] }];
    let v = verdicts(vec![], vec![verdict(Some("wasm"), "native", 3)]);
    filter_module_for_target(&mut module, &v).expect("filter ok");
    assert!(module.structs.is_empty());
}

#[test]
fn unrecognized_predicate_key_is_an_error() {
    let mut module = empty();
    module.functions = vec![func("tu", 3)];
    let v = verdicts(vec![(Err("ufunguo usiojulikana 'bahati'".to_string()), 3)], vec![]);
    let result = filter_module_for_target(&mut module, &v);
    let errs = result.expect_err("bad predicate");
    assert_eq!(errs.len(), 1);
    assert_eq!(errs[0].message, "sharti isiyoeleweka: ufunguo usiojulikana 'bahati'");
    assert_eq!(errs[0].line, 3);
    assert_eq!(module.functions.len(), 1);
}
