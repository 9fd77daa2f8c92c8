use pata::format_config::FormatterConfig;

#[test]
fn default_config() {
    let cfg = FormatterConfig::default();
    assert_eq!(cfg.line_width(), 100);
    assert_eq!(cfg.indent_width(), 4);
    assert!(!cfg.use_tabs());
}

#[test]
fn custom_config() {
    let cfg = FormatterConfig {
        line_width: Some(80),
        indent_style: Some("tabs".to_string()),
        indent_width: Some(2),
    };
    assert_eq!(cfg.line_width(), 80);
    assert_eq!(cfg.indent_width(), 2);
    assert!(cfg.use_tabs());
}

#[test]
fn indent_unit_defaults_to_four_spaces() {
    assert_eq!(FormatterConfig::default().indent_unit(), "    ");
}

#[test]
fn indent_unit_uses_tab_when_style_is_tabs() {
    let cfg = FormatterConfig {
        line_width: None,
        indent_style: Some("tabs".to_string()),
        indent_width: Some(2),
    };
    assert_eq!(cfg.indent_unit(), "\t");
}

#[test]
fn indent_unit_respects_custom_width() {
    let cfg = FormatterConfig {
        line_width: None,
        indent_style: Some("spaces".to_string()),
        indent_width: Some(2),
    };
    assert_eq!(cfg.indent_unit(), "  ");
}

#[test]
fn unset_fields_fall_back_to_defaults() {
    let cfg = FormatterConfig { line_width: None, indent_style: None, indent_width: None };
    assert_eq!(cfg.line_width(), 100);
    assert_eq!(cfg.indent_unit(), "    ");
    assert!(!cfg.use_tabs());
}
