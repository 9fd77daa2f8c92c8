use pata::text::{is_alphabetic, is_alphanumeric, is_lowercase, is_numeric, is_uppercase, is_whitespace, to_lowercase};

#[test]
fn ascii_character_classes() {
    for c in [' ', '\t', '\n', '\r'] {
        assert!(is_whitespace(c));
    }
    assert!(!is_whitespace('a'));
    assert!(is_alphabetic('q') && is_alphabetic('Q') && !is_alphabetic('7'));
    assert!(is_alphanumeric('7') && is_alphanumeric('z') && !is_alphanumeric('_'));
    assert!(is_lowercase('a') && !is_lowercase('A'));
    assert!(is_uppercase('Z') && !is_uppercase('z'));
    assert!(is_numeric('0') && !is_numeric('x'));
}

#[test]
fn unicode_character_classes() {
    assert!(is_whitespace('\u{A0}'));
    assert!(is_alphabetic('é'));
    assert!(is_numeric('²'));
    assert_eq!(to_lowercase("ΣΑΣ"), "σας");
}
