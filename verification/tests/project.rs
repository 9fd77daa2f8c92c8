use pata::project::{
    dependency_toml_line, project_config, remove_dependency, remove_dependency_entry,
    update_dependency, update_dependency_entry, update_dependency_git, update_message,
    validate_dep_name, validate_semver_like, workspace_at, DependencyValue, ManifestFields,
};
use pata::resolution::Dependency;
use pata::project::parse_manifest;
use pata::toml_doc::{parse_toml, TomlValue};

const MANIFEST: &str = "[jumla]\njina = \"app\"\ntoleo = \"0.1.0\"\nasili = \"1.1\"\n\n[tegemezi]\nmsaidizi = \"^0.1\"\n\n[jenga]\nlengo = \"native\"\n";

#[test]
fn dependency_names_and_versions_are_checked() {
    assert!(validate_dep_name("kitabu-cha_1").is_ok());
    assert_eq!(validate_dep_name("").unwrap_err().message, "jina la tegemezi haliwezi kuwa tupu");
    assert_eq!(
        validate_dep_name("kitabu cha").unwrap_err().message,
        "jina la tegemezi lazima litumie herufi/namba/-/_ pekee"
    );
    assert!(validate_semver_like(">=1.2.*").is_ok());
    assert_eq!(validate_semver_like("").unwrap_err().message, "toleo haliwezi kuwa tupu");
    assert_eq!(validate_semver_like("1.2 ").unwrap_err().message, "toleo lina alama zisizokubalika");
    assert_eq!(validate_semver_like("1.2 ").unwrap_err().exit_code, 2);
}

#[test]
fn dependency_lines_have_both_forms() {
    assert_eq!(dependency_toml_line("a", "^1", None), "a = \"^1\"");
    assert_eq!(
        dependency_toml_line("a", "^1", Some("https://g/a.git")),
        "a = { git = \"https://g/a.git\", version = \"^1\" }"
    );
}

#[test]
fn updating_an_existing_entry_replaces_it_in_place() {
    let (text, replaced) = update_dependency(MANIFEST, "msaidizi", "^0.2");
    assert!(replaced);
    assert_eq!(
        text,
        "[jumla]\njina = \"app\"\ntoleo = \"0.1.0\"\nasili = \"1.1\"\n\n[tegemezi]\nmsaidizi = \"^0.2\"\n\n[jenga]\nlengo = \"native\"\n"
    );
    assert_eq!(update_message("msaidizi", replaced), "tegemezi 'msaidizi' imesasishwa");
}

#[test]
fn adding_an_entry_puts_it_at_the_end_of_the_dependency_section() {
    let (text, replaced) = update_dependency_git(MANIFEST, "mpya", "^1.0", "https://g/mpya.git");
    assert!(!replaced);
    assert_eq!(
        text,
        "[jumla]\njina = \"app\"\ntoleo = \"0.1.0\"\nasili = \"1.1\"\n\n[tegemezi]\nmsaidizi = \"^0.1\"\n\nmpya = { git = \"https://g/mpya.git\", version = \"^1.0\" }\n[jenga]\nlengo = \"native\"\n"
    );
    assert_eq!(update_message("mpya", replaced), "tegemezi 'mpya' imeongezwa");
}

#[test]
fn a_manifest_without_dependencies_gets_a_section() {
    let (text, replaced) = update_dependency_entry("[jumla]\njina = \"app\"", "a", "a = \"1\"");
    assert!(!replaced);
    assert_eq!(text, "[jumla]\njina = \"app\"\n\n[tegemezi]\na = \"1\"\n");
}

#[test]
fn an_entry_in_the_last_section_is_appended() {
    let (text, _) = update_dependency_entry("[tegemezi]\nb = \"1\"\n", "a", "a = \"2\"");
    assert_eq!(text, "[tegemezi]\nb = \"1\"\na = \"2\"\n");
}

#[test]
fn removing_an_entry_keeps_every_other_line() {
    let text = remove_dependency_entry(MANIFEST, "msaidizi");
    assert_eq!(
        text,
        "[jumla]\njina = \"app\"\ntoleo = \"0.1.0\"\nasili = \"1.1\"\n\n[tegemezi]\n\n[jenga]\nlengo = \"native\"\n"
    );
}

fn fields() -> ManifestFields {
    ManifestFields {
        name: Some("app".to_string()),
        version: Some("0.1.0".to_string()),
        asili_version: Some("1.1".to_string()),
        entrypoint: None,
        target: Some("wasm".to_string()),
        members: None,
        dependencies: vec![
            ("a".to_string(), DependencyValue::Text("^1".to_string())),
            (
                "b".to_string(),
                DependencyValue::Table { path: Some("../b".to_string()), git: None, version: None },
            ),
            (
                "c".to_string(),
                DependencyValue::Table { path: None, git: Some("https://g/c".to_string()), version: None },
            ),
            ("d".to_string(), DependencyValue::Other),
        ],
    }
}

#[test]
fn project_config_reads_fields_and_dependencies() {
    let cfg = project_config(&fields()).unwrap();
    assert_eq!(cfg.name, "app");
    assert_eq!(cfg.entrypoint, "src/kuu.as");
    assert_eq!(cfg.target.as_deref(), Some("wasm"));
    assert_eq!(cfg.dependencies.len(), 3);
    assert!(matches!(&cfg.dependencies[0].1, Dependency::Version(v) if v == "^1"));
    assert!(matches!(&cfg.dependencies[1].1, Dependency::Path(p) if p == "../b"));
    assert!(matches!(&cfg.dependencies[2].1, Dependency::Git { url, version } if url == "https://g/c" && version == "*"));
}

#[test]
fn project_config_requires_name_version_and_language_version() {
    let mut f = fields();
    f.version = Some(String::new());
    let err = project_config(&f).unwrap_err();
    assert_eq!(err.message, "pata.toml haina [jumla].toleo");
    assert_eq!(err.exit_code, 2);
    let mut f = fields();
    f.name = None;
    f.asili_version = None;
    assert_eq!(project_config(&f).unwrap_err().message, "pata.toml haina [jumla].jina");
}

#[test]
fn removing_a_dependency_updates_text_and_configuration() {
    let mut cfg = project_config(&fields()).unwrap();
    let text = remove_dependency(&mut cfg, "[tegemezi]\na = \"^1\"\nb = { path = \"../b\" }\n", "a").unwrap();
    assert_eq!(text, "[tegemezi]\nb = { path = \"../b\" }\n");
    assert_eq!(cfg.dependencies.len(), 2);
    let err = remove_dependency(&mut cfg, "", "zz").unwrap_err();
    assert_eq!(err.message, "tegemezi 'zz' halipo kwenye pata.toml");
    assert_eq!(err.exit_code, 1);
}

#[test]
fn dependency_values_render_as_toml() {
    assert_eq!(Dependency::from("1.0").to_toml_value(), "\"1.0\"");
    assert_eq!(Dependency::Path("../x".to_string()).to_toml_value(), "{ path = \"../x\" }");
    assert_eq!(
        Dependency::Git { url: "u".to_string(), version: "^1".to_string() }.to_toml_value(),
        "{ git = \"u\", version = \"^1\" }"
    );
}

#[test]
fn workspace_lists_members_with_a_manifest_once_in_order() {
    let declared = vec!["zeta".to_string(), "alfa".to_string(), "beta".to_string(), "alfa".to_string()];
    let ws = workspace_at("/w".to_string(), &declared, &vec![true, true, false, true]).expect("workspace");
    assert_eq!(ws.root, "/w");
    assert_eq!(ws.members, vec!["alfa".to_string(), "zeta".to_string()]);
    assert!(workspace_at("/w".to_string(), &declared, &vec![false; 4]).is_none());
    assert!(workspace_at("/w".to_string(), &Vec::new(), &Vec::new()).is_none());
}

#[test]
fn manifest_text_is_parsed_into_the_configuration() {
    let text = "[jumla]\njina = \"app\"\ntoleo = \"0.1.0\"\nasili = \"1.1\"\n\n[chanzo]\nkuingia = \"src/mwanzo.as\"\n\n[tegemezi]\nzeta = \"^1\"\nalfa = { path = \"../alfa\" }\nbeta = { git = \"https://x/beta\" }\nmbaya = 3\n\n[jenga]\nlengo = \"wasm\"\n\n[eneo-kazi]\nwanachama = [\"a\", 1, \"b\"]\n";
    let cfg = parse_manifest("pata.toml", text).expect("config");
    assert_eq!(cfg.name, "app");
    assert_eq!(cfg.version, "0.1.0");
    assert_eq!(cfg.asili_version, "1.1");
    assert_eq!(cfg.entrypoint, "src/mwanzo.as");
    assert_eq!(cfg.target.as_deref(), Some("wasm"));
    assert_eq!(cfg.eneo_kazi, Some(vec!["a".to_string(), "b".to_string()]));
    let names: Vec<&str> = cfg.dependencies.iter().map(|(n, _)| n.as_str()).collect();
    assert_eq!(names, vec!["alfa", "beta", "zeta"]);
    assert!(matches!(&cfg.dependencies[0].1, Dependency::Path(p) if p == "../alfa"));
    assert!(matches!(&cfg.dependencies[1].1, Dependency::Git { url, version } if url == "https://x/beta" && version == "*"));
    assert!(matches!(&cfg.dependencies[2].1, Dependency::Version(v) if v == "^1"));
}

#[test]
fn manifest_defaults_and_errors() {
    let cfg = parse_manifest("pata.toml", "[jumla]\njina = \"x\"\ntoleo = \"1\"\nasili = \"1.1\"\n").expect("config");
    assert_eq!(cfg.entrypoint, "src/kuu.as");
    assert!(cfg.dependencies.is_empty() && cfg.target.is_none() && cfg.eneo_kazi.is_none());
    let err = parse_manifest("pata.toml", "[jumla]\ntoleo = \"1\"\n").unwrap_err();
    assert_eq!((err.message.as_str(), err.exit_code), ("pata.toml haina [jumla].jina", 2));
    let err = parse_manifest("/p/pata.toml", "[jumla\n").unwrap_err();
    assert_eq!(err.exit_code, 2);
    assert!(err.message.starts_with("hitilafu ya kuchambua /p/pata.toml: "));
}

#[test]
fn toml_documents_convert_value_for_value() {
    let doc = parse_toml("a = 1\nb = [true, 2.5]\n[t]\nk = \"v\"\n").expect("toml");
    match doc {
        TomlValue::Table(entries) => {
            assert_eq!(entries.len(), 3);
            assert!(matches!(entries[0], (ref k, TomlValue::Integer(1)) if k == "a"));
            assert!(matches!(&entries[1].1, TomlValue::Array(v) if matches!(v[..], [TomlValue::Bool(true), TomlValue::Other])));
            assert!(matches!(&entries[2].1, TomlValue::Table(t) if t.len() == 1 && matches!(&t[0].1, TomlValue::Str(s) if s == "v")));
        }
        _ => panic!("the root of a document is a table"),
    }
    assert!(parse_toml("= x").is_err());
}
