use pata::document_format::{format_document, format_to_edits, Position, Range};
use pata::format::{canonical_format, Comment, Token};
use pata::format_config::FormatterConfig;

/// Tokens and comment trivia of a small Asili source, as the lexer reports them: 1-based lines
/// and columns, string literals decoded between their quotes, char literals as `CHAR:<c>`,
/// comments anchored to the token before them. `None` for an unterminated literal.
fn lex(src: &str) -> Option<(Vec<Token>, Vec<Comment>)> {
    let cs: Vec<char> = src.chars().collect();
    let mut toks: Vec<Token> = Vec::new();
    let mut comments: Vec<Comment> = Vec::new();
    let (mut i, mut line, mut col) = (0usize, 1usize, 1usize);
    let two = ["->", "==", "!=", "<=", ">=", "&&", "||", "::", "+=", "-=", "=>"];
    while i < cs.len() {
        let c = cs[i];
        if c == '\n' {
            line += 1;
            col = 1;
            i += 1;
            continue;
        }
        if c.is_whitespace() {
            i += 1;
            col += 1;
            continue;
        }
        let start = col;
        let next = cs.get(i + 1).copied();
        if (c == '#' && next != Some('[')) || (c == '/' && next == Some('/')) {
            let mut text = String::new();
            while i < cs.len() && cs[i] != '\n' {
                text.push(cs[i]);
                i += 1;
                col += 1;
            }
            let after = if toks.is_empty() { None } else { Some(toks.len() - 1) };
            comments.push(Comment { text: text.trim_end().to_string(), after_token_index: after });
            continue;
        }
        let mut lexeme = String::new();
        if c == '"' || c == '\'' {
            let quote = c;
            let mut decoded = String::new();
            i += 1;
            col += 1;
            loop {
                let d = *cs.get(i)?;
                if d == '\n' {
                    return None;
                }
                i += 1;
                col += 1;
                if d == quote {
                    break;
                }
                if d == '\\' {
                    let e = *cs.get(i)?;
                    i += 1;
                    col += 1;
                    decoded.push(match e {
                        'n' => '\n',
                        't' => '\t',
                        other => other,
                    });
                } else {
                    decoded.push(d);
                }
            }
            lexeme = if quote == '"' { format!("\"{decoded}\"") } else { format!("CHAR:{decoded}") };
        } else if c.is_alphanumeric() || c == '_' {
            let numeric = c.is_ascii_digit();
            while i < cs.len() {
                let d = cs[i];
                let part_of_number = numeric && d == '.' && cs.get(i + 1).map(|x| x.is_ascii_digit()).unwrap_or(false);
                if !(d.is_alphanumeric() || d == '_' || part_of_number) {
                    break;
                }
                lexeme.push(d);
                i += 1;
                col += 1;
            }
        } else {
            let pair: String = cs[i..(i + 2).min(cs.len())].iter().collect();
            let width = if two.contains(&pair.as_str()) { 2 } else { 1 };
            lexeme = cs[i..i + width].iter().collect();
            i += width;
            col += width;
        }
        toks.push(Token { lexeme, line, column: start });
    }
    Some((toks, comments))
}

fn canonical(input: &str) -> String {
    canonical_format(input, &lex(input))
}

#[test]
fn test_format_spacing() {
    let input = "kazi foo()  { chapisha( \"x\" ) }";
    let output = canonical(input);
    assert!(output.contains("foo()"));
    assert!(output.contains("{\n"));
    assert!(output.contains("chapisha(\"x\")"));
}

#[test]
fn format_test_format_idempotent() {
    for input in ["kazi foo() -> Tupu { chapisha(\"x\") }\n", "kazi foo() -> Tupu { chapisha(\"x\") }"] {
        let a = canonical(input);
        let b = canonical(&a);
        assert_eq!(a, b);
        let config = FormatterConfig::default();
        let a = format_document(input, &lex(input), &config);
        let b = format_document(&a, &lex(&a), &config);
        assert_eq!(a, b);
    }
}

#[test]
fn test_format_blank_consolidation() {
    let input = "kazi foo() -> Tupu {\n\n\n  chapisha(\"x\")\n\n}";
    let output = canonical(input);
    assert!(output.matches('\n').count() <= 5);
}

#[test]
fn string_and_char_literals_survive_unchanged() {
    let input = "weka s = \"a, {b} c\"\nweka c = 'x'";
    let output = canonical(input);
    assert!(output.contains("\"a, {b} c\""), "string literal must survive verbatim: {output}");
}

#[test]
fn comments_are_preserved_not_deleted() {
    let input = "weka x = 1 # muhimu\nchapisha(x)\n";
    let output = canonical(input);
    assert!(output.contains("# muhimu"), "comment must be preserved, got: {output}");
    assert!(output.contains("chapisha(x)"));
}

#[test]
fn leading_file_comment_preserved() {
    let input = "# maelezo ya faili\nkazi kuu() -> Tupu { rejesha Tupu }\n";
    let output = canonical(input);
    assert!(output.starts_with("# maelezo ya faili"));
}

#[test]
fn slash_comment_preserved() {
    let input = "kazi foo() -> Tupu {\n    // maelezo\n    rejesha Tupu\n}\n";
    let output = canonical(input);
    assert!(output.contains("// maelezo"));
}

#[test]
fn invalid_source_falls_back_unchanged() {
    let input = "weka s = \"haijafungwa";
    assert!(lex(input).is_none());
    let output = canonical(input);
    assert_eq!(output, input);
}

#[test]
fn call_and_index_parens_hug_their_target() {
    let input = "weka a = orodha(10, 20, 30)\nrejesha a[0]?\n";
    let output = canonical(input);
    assert!(output.contains("orodha(10, 20, 30)"));
    assert!(output.contains("a[0]?"), "indexing must hug, got: {output}");
}

#[test]
fn grouping_paren_after_keyword_keeps_space() {
    let input = "kazi f() -> Namba {\n  rejesha (v kama Namba)\n}\n";
    let output = canonical(input);
    assert!(output.contains("rejesha (v kama Namba)"), "got: {output}");
}

#[test]
fn grouping_paren_after_operator_keeps_space() {
    let input = "chapisha(\"x = \" + (j kama Neno))\n";
    let output = canonical(input);
    assert!(output.contains("+ (j kama Neno)"), "got: {output}");
}

#[test]
fn array_literal_after_assignment_keeps_space() {
    let input = "weka a = [1, 2, 3]\n";
    let output = canonical(input);
    assert!(output.contains("= [1, 2, 3]"), "got: {output}");
}

#[test]
fn blank_line_between_top_level_items_preserved() {
    let input = "thabiti X: Namba = 1\n\numbo Pika {\n    x: Namba\n}\n";
    let output = canonical(input);
    assert!(
        output.contains("thabiti X: Namba = 1\n\numbo Pika"),
        "single blank line between top-level items must survive, got: {output}"
    );
}

#[test]
fn char_literal_round_trips_and_is_idempotent() {
    let input = "m.ingiza('A', \"Herufi\")\nrejesha m.pata('A')\n";
    let once = canonical(input);
    assert!(once.contains("'A'"), "char literal must render as 'A', got: {once}");
    assert!(!once.contains("CHAR:"), "internal lexeme must not leak into output: {once}");
    let twice = canonical(&once);
    assert_eq!(once, twice, "formatting a char literal must be idempotent");
}

#[test]
fn string_escape_sequences_round_trip_and_are_idempotent() {
    let input = r#"chapisha("Habari\nulimwengu\t\"ndani\"\\nje")"#;
    let once = canonical(input);
    assert!(once.contains(r#""Habari\nulimwengu\t\"ndani\"\\nje""#), "got: {once}");
    assert!(!once.contains('\n') || once.matches('\n').count() == 1, "must stay one line, got: {once:?}");
    let twice = canonical(&once);
    assert_eq!(once, twice);
}

#[test]
fn escaped_char_literals_round_trip() {
    for (src, expect) in [(r"'\n'", r"'\n'"), (r"'\''", r"'\''"), (r"'\\'", r"'\\'")] {
        let input = format!("weka c = {src}\n");
        let output = canonical(&input);
        assert!(output.contains(expect), "expected {expect} in output, got: {output}");
    }
}

#[test]
fn nested_blocks_indent_by_depth() {
    let input = "kazi foo() -> Tupu {\nkama kweli {\nchapisha(\"x\")\n}\n}\n";
    let output = canonical(input);
    assert!(output.contains("    kama kweli {\n        chapisha(\"x\")\n    }\n"), "got: {output}");
}

#[test]
fn generic_type_brackets_hug_no_spaces() {
    let input = "kazi kuu(hoja: Orodha<Neno>) -> Tupu {\n    rejesha Tupu\n}\n";
    let output = canonical(input);
    assert!(output.contains("Orodha<Neno>"), "got: {output}");
    assert!(!output.contains("Orodha <"), "got: {output}");
}

#[test]
fn nested_generic_brackets_hug() {
    let input = "weka m: Kamusi<Neno, Orodha<Namba>> = kamusi()\n";
    let output = canonical(input);
    assert!(output.contains("Kamusi<Neno, Orodha<Namba>>"), "got: {output}");
}

#[test]
fn comparison_operator_not_confused_with_generic_bracket() {
    let input = "kama Kiwango > x {\n    chapisha(\"kubwa\")\n}\n";
    let output = canonical(input);
    assert!(output.contains("Kiwango > x"), "got: {output}");
}

#[test]
fn method_call_named_like_a_keyword_hugs_its_parens() {
    let input = "b.weka(42.0)\n";
    let output = canonical(input);
    assert!(output.contains("b.weka(42.0)"), "got: {output}");
}

#[test]
fn no_trailing_whitespace_on_any_line() {
    let input = "kazi kuu(hoja: Orodha<Neno>) -> Tupu {\n  weka a = 1\n  chapisha(a)\n}\n";
    let output = canonical(input);
    for line in output.lines() {
        assert!(!line.ends_with(' '), "trailing whitespace on line: {line:?}");
    }
}

#[test]
fn full_example_is_idempotent_and_clean() {
    let input = "leta kasha_gc\nleta matumizi\n\nkazi kuu(hoja: Orodha<Neno>) -> Tupu {\n  weka a = kasha_gc_unda(0.0)\n  weka b = a.shirikisha()\n\n  b.weka(42.0)\n  chapisha(\"a.pata() baada ya b.weka(42.0): \" + (a.pata() kama Neno))\n}\n";
    let once = canonical(input);
    let twice = canonical(&once);
    assert_eq!(once, twice);
    assert!(once.contains("Orodha<Neno>"));
    assert!(once.contains("b.weka(42.0)"));
    for line in once.lines() {
        assert!(!line.ends_with(' '), "trailing whitespace on line: {line:?}");
    }
}

#[test]
fn format_is_idempotent() {
    let src = "kazi kuu(hoja: Orodha<Neno>) -> Tupu {\n    chapisha(\"x\")\n}\n";
    let a = canonical(src);
    let b = canonical(&a);
    assert_eq!(a, b);
}

#[test]
fn format_preserves_string_literal_contents() {
    let src = r#"chapisha("a, b {c}")"#;
    let formatted = canonical(src);
    assert!(formatted.contains(r#""a, b {c}""#), "string literal contents must survive formatting verbatim, got: {formatted}");
}

#[test]
fn test_format_simple() {
    let input = "kazi foo( ) -> Tupu {\n    chapisha( \"x\" )\n}";
    let output = format_document(input, &lex(input), &FormatterConfig::default());
    assert!(!output.is_empty());
}

#[test]
fn test_format_to_edits_same_content() {
    let input = "kazi foo() -> Tupu { chapisha(\"x\") }\n";
    let config = FormatterConfig::default();
    let formatted = format_document(input, &lex(input), &config);
    if formatted == input {
        let edits = format_to_edits(input, &lex(input), &config).expect("edits");
        assert!(edits.is_empty());
    }
    let edits = format_to_edits(&formatted, &lex(&formatted), &config).expect("edits");
    assert!(edits.is_empty());
}

#[test]
fn test_format_preserves_string_literal_contents() {
    let input = r#"chapisha("a, b {c}")"#;
    let output = format_document(input, &lex(input), &FormatterConfig::default());
    assert!(output.contains(r#""a, b {c}""#), "string literal contents must survive formatting verbatim, got: {output}");
}

#[test]
fn format_exact_layout_of_a_small_function() {
    let input = "kazi foo()  { chapisha( \"x\" ) }";
    assert_eq!(canonical(input), "kazi foo() {\n    chapisha(\"x\")\n}\n");
}

#[test]
fn tab_indent_from_settings() {
    let input = "kazi kuu() -> Tupu {\nweka x = 1\n}\n";
    let config = FormatterConfig { line_width: None, indent_style: Some("tabs".to_string()), indent_width: None };
    let output = format_document(input, &lex(input), &config);
    assert!(output.contains("\n\tweka x = 1"), "should use tab indent, got: {output:?}");
}

#[test]
fn edit_replaces_the_whole_document_up_to_its_last_line() {
    let input = "kazi foo( ) {\n  x\r\n  yé\n}";
    let edits = format_to_edits(input, &lex(input), &FormatterConfig::default()).expect("edits");
    assert_eq!(edits.len(), 1);
    let end = Position { line: 3, character: 1 };
    assert!(edits[0].range == Range { start: Position { line: 0, character: 0 }, end });
    assert_eq!(edits[0].new_text, canonical(input));
    let edits = format_to_edits("kazi foo( ) {\n  yé", &lex("kazi foo( ) {\n  yé"), &FormatterConfig::default()).expect("edits");
    assert!(edits[0].range.end == Position { line: 1, character: 5 });
}
