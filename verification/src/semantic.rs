//! Semantic-token classes and modifiers, and the kinds of symbols the analyzer records.

use vstd::prelude::*;

verus! {

/// A semantic token's class, numbered as in the server's token legend.
#[derive(Clone, Copy, PartialEq, Eq, Debug, Structural)]
pub enum TokenType {
    Keyword,
    Type,
    Function,
    Variable,
    Parameter,
    Property,
    EnumMember,
}

/// The legend index of a token class.
pub open spec fn token_type_index(t: TokenType) -> u32 {
    match t {
        TokenType::Keyword => 0,
        TokenType::Type => 1,
        TokenType::Function => 2,
        TokenType::Variable => 3,
        TokenType::Parameter => 4,
        TokenType::Property => 5,
        TokenType::EnumMember => 6,
    }
}

impl TokenType {
    pub fn to_u32(self) -> (r: u32)
        ensures
            r == token_type_index(self),
    {
        match self {
            TokenType::Keyword => 0,
            TokenType::Type => 1,
            TokenType::Function => 2,
            TokenType::Variable => 3,
            TokenType::Parameter => 4,
            TokenType::Property => 5,
            TokenType::EnumMember => 6,
        }
    }
}

/// A semantic token modifier, as its bit in the modifier set.
#[derive(Clone, Copy, PartialEq, Eq, Debug, Structural)]
pub enum TokenModifier {
    Declaration,
    Readonly,
    DefaultLibrary,
}

/// The bit of a modifier.
pub open spec fn modifier_bit(m: TokenModifier) -> u32 {
    match m {
        TokenModifier::Declaration => 1,
        TokenModifier::Readonly => 2,
        TokenModifier::DefaultLibrary => 4,
    }
}

impl TokenModifier {
    pub fn to_u32(self) -> (r: u32)
        ensures
            r == modifier_bit(self),
    {
        match self {
            TokenModifier::Declaration => 1,
            TokenModifier::Readonly => 2,
            TokenModifier::DefaultLibrary => 4,
        }
    }
}

/// Kind of symbol the analyzer records.
#[derive(Clone, Copy, Debug, PartialEq, Eq, Structural)]
pub enum SymbolKind {
    Variable,
    Parameter,
    Function,
    Struct,
    Trait,
}

} // verus!
