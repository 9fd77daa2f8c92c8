//! The parts of a parsed Asili module that the toolchain's checks and editor features read:
//! declarations with their names, source lines and signatures, as plain values.

use vstd::prelude::*;

verus! {

/// A function declaration: name, 1-based line, visibility, attribute names, parameters as
/// `(name, type)`, return type, and the number of statements in its body.
#[derive(Clone, Debug)]
pub struct FnDecl {
    pub name: String,
    pub line: usize,
    pub is_public: bool,
    pub attrs: Vec<String>,
    pub params: Vec<(String, String)>,
    pub return_type: String,
    pub statement_count: usize,
}

/// A struct declaration with its fields as `(name, type if written)`.
#[derive(Clone, Debug)]
pub struct StructDecl {
    pub name: String,
    pub line: usize,
    pub is_public: bool,
    pub fields: Vec<(String, Option<String>)>,
}

/// A trait declaration (line 0 for the language's built-in traits).
#[derive(Clone, Debug)]
pub struct TraitDecl {
    pub name: String,
    pub line: usize,
    pub is_public: bool,
}

/// An impl block: the trait it implements, if any.
#[derive(Clone, Debug)]
pub struct ImplDecl {
    pub trait_name: Option<String>,
}

/// A module constant with its declared type.
#[derive(Clone, Debug)]
pub struct ConstDecl {
    pub name: String,
    pub line: usize,
    pub ty: String,
}

/// An enum variant with its payload type, if any.
#[derive(Clone, Debug)]
pub struct VariantDecl {
    pub name: String,
    pub line: usize,
    pub data: Option<String>,
}

/// An enum declaration.
#[derive(Clone, Debug)]
pub struct EnumDecl {
    pub name: String,
    pub line: usize,
    pub is_public: bool,
    pub variants: Vec<VariantDecl>,
}

/// An import: the module named, the names taken from it (`None` for the whole module), and
/// its line.
#[derive(Clone, Debug)]
pub struct ImportDecl {
    pub module: String,
    pub names: Option<Vec<String>>,
    pub line: usize,
}

/// A parsed module's declarations, each list in source order.
#[derive(Clone, Debug)]
pub struct ModuleOutline {
    pub imports: Vec<ImportDecl>,
    pub constants: Vec<ConstDecl>,
    pub enums: Vec<EnumDecl>,
    pub functions: Vec<FnDecl>,
    pub structs: Vec<StructDecl>,
    pub traits: Vec<TraitDecl>,
    pub impls: Vec<ImplDecl>,
}

} // verus!
