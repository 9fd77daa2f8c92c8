use pata::lint::{
    check_best_practices, check_repeated_literals, lint_source, lint_source_with_config,
    LintDiagnostic,
};
use pata::lint_config::{parse_lint_config, LintConfig, OptionValue, RuleConfig};
use pata::outline::{FnDecl, ModuleOutline, StructDecl};

fn empty() -> ModuleOutline {
    ModuleOutline {
        imports: vec![],
        constants: vec![],
        enums: vec![],
        functions: vec![],
        structs: vec![],
        traits: vec![],
        impls: vec![],
    }
}

fn func(name: &str, line: usize, statements: usize) -> FnDecl {
    FnDecl {
        name: name.to_string(),
        line,
        is_public: false,
        attrs: vec![],
        params: vec![],
        return_type: "Tupu".to_string(),
        statement_count: statements,
    }
}

fn has(d: &[LintDiagnostic], code: &str) -> bool {
    d.iter().any(|x| x.code == code)
}

/// `kazi ndefu() -> Tupu { ` with `n` lines `weka x = 1`, then `rejesha Tupu }`.
fn long_function(n: usize) -> (ModuleOutline, String) {
    let mut src = String::from("kazi ndefu() -> Tupu { ");
    for _ in 0..n {
        src.push_str("weka x = 1\n");
    }
    src.push_str("rejesha Tupu }");
    let mut m = empty();
    m.functions = vec![func("ndefu", 1, n + 1)];
    (m, src)
}

fn config_with(code: &str, rule: RuleConfig) -> LintConfig {
    LintConfig { rules: Some(vec![(code.to_string(), rule)]) }
}

#[test]
fn default_severity() {
    let cfg = LintConfig::new();
    assert_eq!(cfg.severity("LINT001"), "warning");
}

#[test]
fn custom_severity() {
    let cfg = config_with(
        "LINT001",
        RuleConfig { severity: Some("error".to_string()), options: None },
    );
    assert_eq!(cfg.severity("LINT001"), "error");
}

#[test]
fn disabled_rule() {
    let cfg = config_with(
        "LINT101",
        RuleConfig { severity: Some("ignore".to_string()), options: None },
    );
    assert!(!cfg.is_enabled("LINT101"));
}

#[test]
fn rule_options() {
    let cfg = config_with(
        "LINT101",
        RuleConfig {
            severity: None,
            options: Some(vec![("line_limit".to_string(), OptionValue::Integer(80))]),
        },
    );
    assert_eq!(cfg.option_int("LINT101", "line_limit"), Some(80));
}

#[test]
fn option_that_is_not_an_integer_reads_as_none() {
    let cfg = config_with(
        "LINT101",
        RuleConfig { severity: None, options: Some(vec![("line_limit".to_string(), OptionValue::Other)]) },
    );
    assert_eq!(cfg.option_int("LINT101", "line_limit"), None);
    assert_eq!(cfg.option("LINT101", "line_limit"), Some(&OptionValue::Other));
    assert_eq!(cfg.option("LINT101", "missing"), None);
    assert_eq!(cfg.severity("LINT101"), "warning");
    assert!(cfg.is_enabled("LINT101"));
}

#[test]
fn default_config_flags_at_50_statement_threshold() {
    let (m, src) = long_function(51);
    let diags = lint_source(&m, &src);
    assert!(has(&diags, "LINT101"));
}

#[test]
fn fifty_statements_are_not_flagged_by_default() {
    let (mut m, src) = long_function(49);
    m.functions[0].statement_count = 50;
    let diags = lint_source(&m, &src);
    assert!(!has(&diags, "LINT101"));
}

#[test]
fn custom_line_limit_flags_earlier() {
    let (m, src) = long_function(30);
    let cfg = config_with(
        "LINT101",
        RuleConfig {
            severity: None,
            options: Some(vec![("line_limit".to_string(), OptionValue::Integer(20))]),
        },
    );
    let diags = lint_source_with_config(&m, &src, &cfg);
    assert!(has(&diags, "LINT101"));
}

#[test]
fn negative_line_limit_falls_back_to_the_default() {
    let (m, src) = long_function(30);
    let cfg = config_with(
        "LINT101",
        RuleConfig {
            severity: None,
            options: Some(vec![("line_limit".to_string(), OptionValue::Integer(-5))]),
        },
    );
    let diags = lint_source_with_config(&m, &src, &cfg);
    assert!(!has(&diags, "LINT101"));
}

#[test]
fn ignored_rule_is_absent_from_output() {
    let (m, src) = long_function(51);
    let cfg = config_with(
        "LINT101",
        RuleConfig { severity: Some("ignore".to_string()), options: None },
    );
    let diags = lint_source_with_config(&m, &src, &cfg);
    assert!(!has(&diags, "LINT101"));
}

// `umbo not_pascal { }` / `kazi BadName() -> Tupu { rejesha Tupu }`
#[test]
fn ignoring_one_naming_code_does_not_silence_its_siblings() {
    let src = "umbo not_pascal { }\nkazi BadName() -> Tupu { rejesha Tupu }";
    let mut m = empty();
    m.structs = vec![StructDecl {
        name: "not_pascal".to_string(),
        line: 1,
        is_public: false,
        fields: vec![],
    }];
    m.functions = vec![func("BadName", 2, 1)];
    let cfg = config_with(
        "LINT002",
        RuleConfig { severity: Some("ignore".to_string()), options: None },
    );
    let diags = lint_source_with_config(&m, src, &cfg);
    assert!(!has(&diags, "LINT002"));
    assert!(has(&diags, "LINT001"));
    let all = lint_source(&m, src);
    assert!(has(&all, "LINT002"));
}

#[test]
fn lint201_accepts_unique_strings() {
    let src = r#"kazi example() -> Tupu { chapisha("a") chapisha("b") rejesha Tupu }"#;
    let mut m = empty();
    m.functions = vec![func("example", 1, 3)];
    let diags = check_best_practices(&m, src);
    assert!(!has(&diags, "LINT201"));
}

#[test]
fn lint201_reports_repeats_ranked_by_count() {
    let src = "chapisha(\"b\")\nchapisha(\"a\")\nchapisha(\"b\")\nchapisha(\"a\")\nchapisha(\"b\")\nchapisha(\"c\")\nchapisha(\" \")\nchapisha(\" \")";
    let diags = check_repeated_literals(src);
    assert_eq!(diags.len(), 1);
    assert_eq!(diags[0].code, "LINT201");
    assert_eq!(diags[0].stage, "ukaguzi");
    assert_eq!(
        diags[0].message,
        "maneno 2 yanarudiwa bila kubadilika — fikiria kuyafanya thabiti: \"b\" x3, \"a\" x2"
    );
}

#[test]
fn lint201_shows_at_most_five_repeats() {
    let mut src = String::new();
    for w in ["f", "e", "d", "c", "b", "a"] {
        src.push_str(&format!("x(\"{w}\") x(\"{w}\")\n"));
    }
    let diags = check_repeated_literals(&src);
    assert_eq!(
        diags[0].message,
        "maneno 6 yanarudiwa bila kubadilika — fikiria kuyafanya thabiti: \"a\" x2, \"b\" x2, \"c\" x2, \"d\" x2, \"e\" x2"
    );
}

#[test]
fn best_practices_keep_rule_order() {
    let src = "kazi kwanza() -> Tupu { x(\"k\") x(\"k\") }";
    let mut m = empty();
    m.functions = vec![func("kwanza", 1, 2)];
    let diags = check_best_practices(&m, src);
    let codes: Vec<&str> = diags.iter().map(|d| d.code.as_str()).collect();
    assert_eq!(codes, vec!["LINT201", "LINT202"]);
}

#[test]
fn lint_config_is_read_from_manifest_text() {
    let text = "[jumla]\njina = \"a\"\n\n[lint.rules.LINT101]\nseverity = \"error\"\n\n[lint.rules.LINT101.options]\nmax_length = 80\nstyle = \"x\"\n\n[lint.rules.LINT202]\nseverity = \"ignore\"\n";
    let cfg = parse_lint_config(text);
    assert_eq!(cfg.severity("LINT101"), "error");
    assert!(!cfg.is_enabled("LINT202"));
    assert_eq!(cfg.option_int("LINT101", "max_length"), Some(80));
    assert_eq!(cfg.option("LINT101", "style"), Some(&OptionValue::Other));
    assert_eq!(cfg.severity("LINT999"), "warning");
}

#[test]
fn lint_config_is_empty_without_rules_or_on_bad_toml() {
    assert!(parse_lint_config("[jumla]\njina = \"a\"\n").rules.is_none());
    assert!(parse_lint_config("[lint\n").rules.is_none());
    assert!(parse_lint_config("[lint]\nrules = 3\n").rules.is_none());
}
