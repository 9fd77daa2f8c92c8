use pata::hover::{format_variable_hover, HoverInfo};
use pata::types::{format_type, ScopeContext, ValueType};

#[test]
fn test_format_simple_types() {
    assert_eq!(format_type(&ValueType::Namba), "Namba");
    assert_eq!(format_type(&ValueType::Neno), "Neno");
    assert_eq!(format_type(&ValueType::Ukweli), "Ukweli");
}

#[test]
fn test_format_generic_types() {
    let orodha_namba = ValueType::Orodha(Box::new(ValueType::Namba));
    assert_eq!(format_type(&orodha_namba), "Orodha<Namba>");

    let chaguo_neno = ValueType::Chaguo(Box::new(ValueType::Neno));
    assert_eq!(format_type(&chaguo_neno), "Neno?");
}

#[test]
fn nested_and_reference_types_are_written_out() {
    let t = ValueType::Kamusi(
        Box::new(ValueType::Neno),
        Box::new(ValueType::Orodha(Box::new(ValueType::Struct("Mtu".to_string())))),
    );
    assert_eq!(format_type(&t), "Kamusi<Neno, Orodha<Mtu>>");
    assert_eq!(format_type(&ValueType::NambaKuu), "Namba_Kuu");
    assert_eq!(format_type(&ValueType::Unknown), "Haijulikani");
}

#[test]
fn test_scope_context() {
    let mut scope = ScopeContext::new(1, Some("test_fn".to_string()));
    scope.bind("x".to_string(), ValueType::Namba);

    assert!(scope.get("x").is_some());
    assert!(scope.get("y").is_none());
}

#[test]
fn rebinding_replaces_the_earlier_type() {
    let mut scope = ScopeContext::new(2, None);
    scope.bind("x".to_string(), ValueType::Namba);
    scope.bind("y".to_string(), ValueType::Neno);
    scope.bind("x".to_string(), ValueType::Ukweli);
    let x = scope.get("x").expect("x bound");
    assert_eq!(format_type(&x.value_type), "Ukweli");
    assert_eq!(x.scope_depth, 2);
    assert_eq!(format_type(&scope.get("y").expect("y bound").value_type), "Neno");
    assert_eq!(scope.variables.len(), 2);
}

#[test]
fn test_hover_info_render() {
    let hover = HoverInfo::Variable { name: "count".to_string(), type_: ValueType::Namba };
    assert!(hover.render().contains("count"));
    assert!(hover.render().contains("Namba"));
}

#[test]
fn hover_render_shapes() {
    let f = HoverInfo::Function {
        name: "ongeza".to_string(),
        params: vec![("a".to_string(), ValueType::Namba), ("b".to_string(), ValueType::Namba)],
        return_type: ValueType::Namba,
    };
    assert_eq!(f.render(), "**Function:** `kazi ongeza(a: Namba, b: Namba) -> Namba`");
    let s = HoverInfo::Struct {
        name: "Mtu".to_string(),
        fields: vec![("jina".to_string(), ValueType::Neno), ("umri".to_string(), ValueType::Namba)],
    };
    assert_eq!(s.render(), "**Struct:** `umbo Mtu {\n  jina: Neno,\n  umri: Namba\n}`");
}

#[test]
fn test_format_variable_hover() {
    let hover = format_variable_hover("count", &ValueType::Namba);
    assert!(hover.contains("count"));
    assert!(hover.contains("Namba"));
    assert_eq!(hover, "**Variable:** `count: Namba`");
}
