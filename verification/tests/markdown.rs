use pata::markdown::{render_markdown_text, render_markdown_to_terminal, repl_doc_path, repl_topic_ok, MdEvent};

#[test]
fn headings_code_and_paragraphs_render_with_terminal_styles() {
    let events = vec![
        MdEvent::StartHeading(1),
        MdEvent::Text("Kichwa".to_string()),
        MdEvent::EndHeading,
        MdEvent::Text("Tumia ".to_string()),
        MdEvent::Code("kazi".to_string()),
        MdEvent::SoftBreak,
        MdEvent::StartEmphasis,
        MdEvent::Text("sana".to_string()),
        MdEvent::EndEmphasis,
        MdEvent::EndParagraph,
        MdEvent::StartHeading(3),
        MdEvent::Text("Ndogo".to_string()),
        MdEvent::EndHeading,
    ];
    assert_eq!(
        render_markdown_to_terminal(&events),
        "\x1b[1m\x1b[36mKichwa\x1b[0m\nTumia \x1b[92m`kazi`\x1b[0m\n\x1b[3msana\x1b[0m\n\x1b[1mNdogo\x1b[0m\n"
    );
}

#[test]
fn paragraphs_inside_tables_add_no_newline() {
    let events = vec![
        MdEvent::StartTable,
        MdEvent::Text("a".to_string()),
        MdEvent::EndParagraph,
        MdEvent::EndTable,
        MdEvent::Text("b".to_string()),
        MdEvent::EndParagraph,
        MdEvent::StartCodeBlock,
        MdEvent::Text("x".to_string()),
        MdEvent::EndCodeBlock,
        MdEvent::Other,
    ];
    assert_eq!(render_markdown_to_terminal(&events), "ab\n\x1b[90mx\x1b[0m\n");
}

#[test]
fn actions_for_missing_doc() {
    let actions = pata::actions::code_actions_for_diagnostic("LINT202", "test.as");
    assert!(actions.iter().any(|a| a.title.contains("doc")));
    assert!(actions[0].is_preferred);
    let unused = pata::actions::code_actions_for_diagnostic("LINT203", "test.as");
    assert_eq!(unused[0].title, "Remove unused imports");
    assert!(pata::actions::code_actions_for_diagnostic("LINT101", "x.as").is_empty());
}

#[test]
fn help_pages_are_parsed_and_rendered() {
    assert_eq!(render_markdown_text("# Kichwa\n\nTumia `kazi`.\n"), "\x1b[1m\x1b[36mKichwa\x1b[0m\nTumia \x1b[92m`kazi`\x1b[0m.\n");
    assert_eq!(render_markdown_text(""), "");
}

#[test]
fn help_topics_name_a_page_without_separators() {
    assert!(repl_topic_ok("hisabati"));
    assert!(!repl_topic_ok(""));
    assert!(!repl_topic_ok("../siri"));
    assert!(!repl_topic_ok("a\\b"));
    assert_eq!(repl_doc_path("sw", "hisabati"), "docs/repl/sw/hisabati.md");
}
