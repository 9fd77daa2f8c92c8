use pata::analyzer::{analyze_semantic_tokens, compute_hover, sort_tokens, RawToken};
use pata::format::Token;
use pata::semantic::TokenType;
use pata::syntax::{Expr, FnDef, ParamDef, SourceModule, Stmt, StructDef};

/// Identifiers, numbers and single punctuation characters, with 1-based line and column.
fn toks(src: &str) -> Vec<Token> {
    let mut out = Vec::new();
    for (li, line) in src.split('\n').enumerate() {
        let chars: Vec<char> = line.chars().collect();
        let mut i = 0;
        while i < chars.len() {
            let c = chars[i];
            if c.is_whitespace() {
                i += 1;
            } else if c.is_alphanumeric() || c == '_' {
                let start = i;
                while i < chars.len() && (chars[i].is_alphanumeric() || chars[i] == '_') {
                    i += 1;
                }
                out.push(Token { lexeme: chars[start..i].iter().collect(), line: li + 1, column: start + 1 });
            } else {
                out.push(Token { lexeme: c.to_string(), line: li + 1, column: i + 1 });
                i += 1;
            }
        }
    }
    out
}

fn module(functions: Vec<FnDef>, structs: Vec<StructDef>) -> SourceModule {
    SourceModule { functions, structs, enums: vec![], traits: vec![], constants: vec![] }
}

fn func(name: &str, line: usize, column: usize, params: Vec<ParamDef>, ret: &str, body: Vec<Stmt>) -> FnDef {
    FnDef { name: name.to_string(), line, column, params, return_type: ret.to_string(), body }
}

fn param(name: &str, ty: &str, line: usize, column: usize) -> ParamDef {
    ParamDef { name: name.to_string(), ty: ty.to_string(), line, column }
}

fn ident(name: &str, line: usize, column: usize) -> Expr {
    Expr::Ident { name: name.to_string(), line, column }
}

fn hover(code: &str, m: SourceModule, line: u32, ch: u32) -> Option<String> {
    compute_hover(&toks(code), m, vec!["chapisha".to_string()], line, ch).map(|(t, _)| t)
}

#[test]
fn test_hover_keyword() {
    let code = "kazi foo() -> Tupu { }";
    let m = module(vec![func("foo", 1, 6, vec![], "Tupu", vec![])], vec![]);
    let content = hover(code, m, 0, 0).expect("hover");
    assert!(content.contains("Keyword"));
    assert!(content.contains("kazi"));
}

#[test]
fn test_hover_function_signature() {
    let code = "kazi add(a: Nambari, b: Nambari) -> Nambari { rejesha a }";
    let m = module(
        vec![func(
            "add",
            1,
            6,
            vec![param("a", "Nambari", 1, 10), param("b", "Nambari", 1, 22)],
            "Nambari",
            vec![Stmt::Return(Some(ident("a", 1, 56)))],
        )],
        vec![],
    );
    let content = hover(code, m, 0, 5).expect("hover");
    assert!(content.contains("Function"));
    assert!(content.contains("add"));
    assert_eq!(content, "**Function:** `kazi add(a: Namba, b: Namba) -> Namba`");
}

fn let_stmt(name: &str, value: Expr, line: usize, column: usize) -> Stmt {
    Stmt::Let { name: name.to_string(), value, line, column, ty: None, mutable: true }
}

#[test]
fn test_hover_variable_type() {
    let code = "kazi foo() -> Tupu {\n    weka x = 42\n    weka y = x\n}";
    let m = module(
        vec![func(
            "foo",
            1,
            6,
            vec![],
            "Tupu",
            vec![let_stmt("x", Expr::Number, 2, 10), let_stmt("y", ident("x", 3, 14), 3, 10)],
        )],
        vec![],
    );
    let content = hover(code, m, 2, 14).expect("hover");
    assert!(content.contains("Variable") || content.contains("Identifier"));
}

#[test]
fn test_hover_struct_fields() {
    let code = "umbo Point {\n    x: Nambari,\n    y: Nambari,\n}\n\nkazi foo() -> Tupu {\n    weka p = Point { x: 1, y: 2 }\n}";
    let s = StructDef {
        name: "Point".to_string(),
        line: 1,
        column: 6,
        fields: vec![("x".to_string(), Some("Nambari".to_string())), ("y".to_string(), Some("Nambari".to_string()))],
    };
    let m = module(vec![func("foo", 6, 6, vec![], "Tupu", vec![])], vec![s]);
    let content = hover(code, m, 0, 5).expect("hover");
    assert!(content.contains("Struct") || content.contains("Point"));
    assert_eq!(content, "**Struct:** `umbo Point {\n  x: Namba,\n  y: Namba\n}`");
}

#[test]
fn test_hover_identifier_no_type() {
    let code = "kazi foo() -> Tupu { }";
    let m = module(vec![func("foo", 1, 6, vec![], "Tupu", vec![])], vec![]);
    let content = hover(code, m, 0, 5).expect("hover");
    assert!(content.contains("foo") || content.contains("Function"));
}

#[test]
fn test_hover_no_token_at_position() {
    let code = "kazi foo() -> Tupu { }";
    let m = module(vec![func("foo", 1, 6, vec![], "Tupu", vec![])], vec![]);
    assert!(hover(code, m, 0, 100).is_none());
}

#[test]
fn test_hover_nested_block_variable() {
    let code = "kazi foo() -> Tupu {\n    ikiwa kweli {\n        weka x = 10\n    }\n}";
    let body = vec![Stmt::If {
        cond: Expr::Bool,
        then_block: vec![let_stmt("x", Expr::Number, 3, 14)],
        else_if: vec![],
        else_block: None,
    }];
    let m = module(vec![func("foo", 1, 6, vec![], "Tupu", body)], vec![]);
    assert!(hover(code, m, 2, 14).is_some());
}

#[test]
fn test_hover_list_type() {
    let code = "kazi foo() -> Tupu {\n    weka nums = [1, 2, 3]\n}";
    let body = vec![let_stmt("nums", Expr::ListLiteral(vec![Expr::Number, Expr::Number, Expr::Number]), 2, 10)];
    let m = module(vec![func("foo", 1, 6, vec![], "Tupu", body)], vec![]);
    assert!(hover(code, m, 1, 14).is_some());
}

#[test]
fn test_hover_parameter() {
    let code = "kazi add(a: Nambari, b: Nambari) -> Nambari {\n    rejesha a\n}";
    let m = module(
        vec![func(
            "add",
            1,
            6,
            vec![param("a", "Nambari", 1, 10), param("b", "Nambari", 1, 22)],
            "Nambari",
            vec![Stmt::Return(Some(ident("a", 2, 13)))],
        )],
        vec![],
    );
    let content = hover(code, m, 1, 12).expect("hover");
    assert!(content.contains("Variable") || content.contains("Identifier") || content.contains("a"));
}

#[test]
fn semantic_tokens_are_sorted_and_delta_encoded() {
    // kazi f(a: Namba) -> Namba {      line 1
    //   thabiti b = a                  line 2
    //   chapisha(b)                    line 3
    // }
    let body = vec![
        Stmt::Let { name: "b".to_string(), value: ident("a", 2, 15), line: 2, column: 11, ty: None, mutable: false },
        Stmt::ExprStmt(Expr::Call {
            callee: Box::new(ident("chapisha", 3, 3)),
            args: vec![ident("b", 3, 12), ident("haijulikani", 3, 14)],
        }),
    ];
    let m = module(vec![func("f", 1, 6, vec![param("a", "Namba", 1, 8)], "Namba", body)], vec![]);
    let data = analyze_semantic_tokens(m, vec!["chapisha".to_string()]);
    let got: Vec<(u32, u32, u32, u32, u32)> = data
        .iter()
        .map(|d| (d.delta_line, d.delta_start, d.length, d.token_type, d.token_modifiers_bitset))
        .collect();
    assert_eq!(
        got,
        vec![
            (0, 5, 1, 2, 1),  // f: function declaration
            (0, 2, 1, 4, 1),  // a: parameter declaration
            (1, 10, 1, 3, 3), // b: read-only variable declaration
            (0, 4, 1, 4, 0),  // a: parameter use
            (1, 2, 8, 2, 4),  // chapisha: builtin
            (0, 9, 1, 3, 2),  // b: read-only variable use
        ]
    );
}

#[test]
fn sorting_keeps_the_order_of_tokens_at_one_position() {
    let t = |line, column, m| RawToken { line, column, token_type: TokenType::Variable, modifiers: m, length: 1 };
    let sorted = sort_tokens(&vec![t(2, 0, 0), t(0, 4, 1), t(0, 4, 2), t(0, 1, 3)]);
    let mods: Vec<u32> = sorted.iter().map(|x| x.modifiers).collect();
    assert_eq!(mods, vec![3, 1, 2, 0]);
}
