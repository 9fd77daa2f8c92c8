use pata::exports::table_get;
use pata::interface::{parse_asi_content, parse_fn_sahihi, parse_thabiti_line};

#[test]
fn signature_line_gives_name_parameter_types_and_return() {
    let (name, sig) = parse_fn_sahihi("kazi jumla(a: Namba, b : Namba,) -> Namba").expect("signature");
    assert_eq!(name, "jumla");
    assert_eq!(sig.params, vec!["Namba".to_string(), "Namba".to_string()]);
    assert_eq!(sig.ret, "Namba");
}

#[test]
fn signature_without_arrow_returns_tupu_and_untyped_params_are_unknown() {
    let (name, sig) = parse_fn_sahihi("kazi chapisha (x, y: Neno)").expect("signature");
    assert_eq!(name, "chapisha");
    assert_eq!(sig.params, vec!["".to_string(), "Neno".to_string()]);
    assert_eq!(sig.ret, "Tupu");
    assert!(parse_fn_sahihi("kazi hakuna").is_none());
    assert!(parse_fn_sahihi("thabiti X: Namba").is_none());
}

#[test]
fn constant_line_gives_name_and_type() {
    assert_eq!(
        parse_thabiti_line("thabiti  PI : Namba "),
        Some(("PI".to_string(), "Namba".to_string()))
    );
    assert_eq!(parse_thabiti_line("thabiti PI"), None);
    assert_eq!(parse_thabiti_line("kazi f() -> Tupu"), None);
}

#[test]
fn interface_text_collects_signatures_and_constants() {
    let content = "# hesabu\n  kazi jumla(a: Namba, b: Namba) -> Namba\nthabiti PI: Namba\nkazi jumla(a: Namba) -> Namba\n\nmaelezo mengine\n";
    let t = parse_asi_content(content);
    assert_eq!(t.functions.len(), 1);
    let sig = table_get(&t.functions, "jumla").expect("jumla");
    assert_eq!(sig.params.len(), 1);
    assert_eq!(table_get(&t.constants, "PI").map(|s| s.as_str()), Some("Namba"));
}
