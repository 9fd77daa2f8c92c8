use pata::resolver::{ModuleLookup, ModuleResolver, ResolveAction};

fn names(v: &[&str]) -> Vec<String> {
    v.iter().map(|s| s.to_string()).collect()
}

/// Run the walk, answering each lookup from `graph` (a module's imports), and record the lookups.
fn walk(entry: &[&str], graph: &[(&str, &[&str])]) -> (Vec<String>, ModuleResolver) {
    let mut r = ModuleResolver::new(names(entry));
    let mut asked = Vec::new();
    while let ResolveAction::Lookup(name) = r.next_action() {
        let imports = graph.iter().find(|(n, _)| *n == name).map(|(_, i)| names(i));
        asked.push(name.clone());
        match imports {
            Some(imports) => r.supply(ModuleLookup::Parsed { imports }),
            None => r.supply(ModuleLookup::Interface),
        }
    }
    (asked, r)
}

#[test]
fn a_module_imported_twice_is_looked_up_once() {
    let (asked, r) = walk(&["a", "b"], &[("a", &["b", "hesabu"]), ("b", &["hesabu"])]);
    assert_eq!(asked, vec!["a", "b", "hesabu"]);
    assert!(r.errors().is_empty());
    let done: Vec<&str> = r.resolved().iter().map(|(n, _)| n.as_str()).collect();
    assert_eq!(done, vec!["hesabu", "b", "a"]);
}

#[test]
fn a_module_being_loaded_is_reported_as_a_cycle() {
    let (asked, r) = walk(&["a"], &[("a", &["b"]), ("b", &["a"])]);
    assert_eq!(asked, vec!["a", "b"]);
    assert_eq!(r.errors().len(), 1);
    assert_eq!(r.errors()[0].code, "RES001");
}
