use pata::resolution::Dependency;
use pata::workspace::{affected_project_roots, read_entrypoint_and_deps, transitive_importers};

fn dep<'a>(deps: &'a [(String, Dependency)], name: &str) -> Option<&'a Dependency> {
    deps.iter().find(|(n, _)| n == name).map(|(_, d)| d)
}

#[test]
fn manifest_gives_entrypoint_and_dependencies() {
    let content = "# mradi\n[kifurushi]\njina = \"app\"\n\n[chanzo]\nkuingia = \"src/mwanzo.as\"\n\n[tegemezi]\nhesabu = \"1.2.3\"\nmaktaba = { path = \"../maktaba\" }\nhaijulikani = 5\n";
    let (entry, deps) = read_entrypoint_and_deps(content);
    assert_eq!(entry.as_deref(), Some("src/mwanzo.as"));
    assert_eq!(deps.len(), 2);
    assert!(matches!(dep(&deps, "hesabu"), Some(Dependency::Version(v)) if v == "1.2.3"));
    assert!(matches!(dep(&deps, "maktaba"), Some(Dependency::Path(p)) if p == "../maktaba"));
}

#[test]
fn manifest_without_entry_keeps_the_default() {
    let (entry, deps) = read_entrypoint_and_deps("[kifurushi]\nkuingia = \"x.as\"\n");
    assert!(entry.is_none());
    assert!(deps.is_empty());
    let (entry, _) = read_entrypoint_and_deps("");
    assert!(entry.is_none());
}

#[test]
fn later_dependency_entry_replaces_the_earlier() {
    let (_, deps) = read_entrypoint_and_deps("[tegemezi]\na = \"1\"\na = \"2\"\r\n");
    assert_eq!(deps.len(), 1);
    assert!(matches!(dep(&deps, "a"), Some(Dependency::Version(v)) if v == "2"));
}

fn rd(edges: &[(&str, &[&str])]) -> Vec<(String, Vec<String>)> {
    edges
        .iter()
        .map(|(m, imps)| (m.to_string(), imps.iter().map(|s| s.to_string()).collect()))
        .collect()
}

#[test]
fn transitive_importers_follow_chains_and_exclude_the_module_itself() {
    // b and c import a; d imports b; a imports d (a cycle back to a).
    let table = rd(&[("a", &["b", "c"]), ("b", &["d"]), ("d", &["a"]), ("x", &["y"])]);
    let mut got = transitive_importers(&table, "a");
    got.sort();
    assert_eq!(got, vec!["b".to_string(), "c".to_string(), "d".to_string()]);
    assert!(transitive_importers(&table, "c").is_empty());
    let mut from_d = transitive_importers(&table, "d");
    from_d.sort();
    assert_eq!(from_d, vec!["a".to_string(), "b".to_string(), "c".to_string()]);
}

#[test]
fn changed_files_map_to_distinct_sorted_roots() {
    let found = vec![
        Some("/w/b".to_string()),
        None,
        Some("/w/a".to_string()),
        Some("/w/b".to_string()),
    ];
    assert_eq!(affected_project_roots(&found), vec!["/w/a".to_string(), "/w/b".to_string()]);
    assert!(affected_project_roots(&vec![None, None]).is_empty());
}
