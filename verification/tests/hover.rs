use pata::hover::{format_identifier_hover, format_keyword_hover, format_trait_hover};
use pata::semantic::{TokenModifier, TokenType};

#[test]
fn test_format_keyword_hover() {
    let hover = format_keyword_hover("kazi");
    assert!(hover.contains("kazi"));
    assert!(hover.contains("Keyword"));
}

#[test]
fn hover_texts_have_their_exact_shape() {
    assert_eq!(format_keyword_hover("kazi"), "**Keyword:** `kazi`");
    assert_eq!(format_identifier_hover("x"), "**Identifier:** `x`");
    assert_eq!(format_trait_hover("Onyesha"), "**Trait:** `sifa Onyesha`");
}

#[test]
fn token_legend_numbers() {
    assert_eq!(TokenType::Keyword.to_u32(), 0);
    assert_eq!(TokenType::EnumMember.to_u32(), 6);
    assert_eq!(TokenModifier::Declaration.to_u32(), 1);
    assert_eq!(TokenModifier::Readonly.to_u32(), 2);
    assert_eq!(TokenModifier::DefaultLibrary.to_u32(), 4);
}
