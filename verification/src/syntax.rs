//! The parts of a parsed function body the semantic analyzer walks: statements, expressions
//! and match patterns, with the 1-based positions of the names it colours; and a module's
//! declarations with their positions and bodies.

use vstd::prelude::*;

verus! {

/// An expression. Literals carry no value here (the analyzer only reads their kind).
#[derive(Debug)]
pub enum Expr {
    Number,
    Str,
    Char,
    Bool,
    Hamna,
    Ident { name: String, line: usize, column: usize },
    Call { callee: Box<Expr>, args: Vec<Expr> },
    MethodCall { receiver: Box<Expr>, args: Vec<Expr> },
    Binary { left: Box<Expr>, right: Box<Expr> },
    Unary(Box<Expr>),
    Cast(Box<Expr>),
    Index { base: Box<Expr>, index: Box<Expr> },
    FieldAccess { receiver: Box<Expr>, field: String, field_line: usize, field_column: usize },
    Group(Box<Expr>),
    Propagate(Box<Expr>),
    ListLiteral(Vec<Expr>),
    MapLiteral(Vec<(Expr, Expr)>),
    StructLiteral { fields: Vec<(String, Expr, usize, usize)> },
    EnumConstruct { variant_name: String, data: Option<Box<Expr>>, line: usize, column: usize },
    Other,
}

/// A match-arm pattern.
#[derive(Debug)]
pub enum Pattern {
    Ident { name: String, line: usize, column: usize },
    Enum { variant_name: String, data: Option<Box<Pattern>>, variant_line: usize, variant_column: usize },
    Struct { fields: Vec<(String, Pattern)> },
    Jozi(Box<Pattern>, Box<Pattern>),
    Wildcard,
    Literal,
}

/// What a `kwa` loop iterates: the elements of an expression, or a `kutoka .. hadi ..` range.
#[derive(Debug)]
pub enum ForMode {
    InExpr(Expr),
    Range { start: Expr, end: Expr },
}

/// A statement.
#[derive(Debug)]
pub enum Stmt {
    Let { name: String, value: Expr, line: usize, column: usize, ty: Option<String>, mutable: bool },
    Assign { name: String, value: Expr, line: usize, column: usize },
    If { cond: Expr, then_block: Vec<Stmt>, else_if: Vec<(Expr, Vec<Stmt>)>, else_block: Option<Vec<Stmt>> },
    While { cond: Expr, body: Vec<Stmt> },
    For { var: String, var_column: usize, mode: ForMode, body: Vec<Stmt>, line: usize },
    Match { expr: Expr, arms: Vec<(Pattern, Vec<Stmt>)> },
    Return(Option<Expr>),
    ExprStmt(Expr),
    Other,
}

/// A function parameter: name, written type, and 1-based position.
#[derive(Debug)]
pub struct ParamDef {
    pub name: String,
    pub ty: String,
    pub line: usize,
    pub column: usize,
}

/// A function with its position, signature and body.
#[derive(Debug)]
pub struct FnDef {
    pub name: String,
    pub line: usize,
    pub column: usize,
    pub params: Vec<ParamDef>,
    pub return_type: String,
    pub body: Vec<Stmt>,
}

/// A struct with its position and fields (`(name, type if written)`).
#[derive(Debug)]
pub struct StructDef {
    pub name: String,
    pub line: usize,
    pub column: usize,
    pub fields: Vec<(String, Option<String>)>,
}

/// An enum variant's name and position.
#[derive(Debug)]
pub struct VariantDef {
    pub name: String,
    pub line: usize,
    pub column: usize,
}

/// An enum with its position and variants.
#[derive(Debug)]
pub struct EnumDef {
    pub name: String,
    pub line: usize,
    pub column: usize,
    pub variants: Vec<VariantDef>,
}

/// A trait's name and position.
#[derive(Debug)]
pub struct TraitDef {
    pub name: String,
    pub line: usize,
    pub column: usize,
}

/// A module constant with its position and written type.
#[derive(Debug)]
pub struct ConstDef {
    pub name: String,
    pub line: usize,
    pub column: usize,
    pub ty: String,
}

/// A parsed module as the analyzer reads it (line 0 marks a declaration the parser adds
/// itself, with no place in the source).
#[derive(Debug)]
pub struct SourceModule {
    pub functions: Vec<FnDef>,
    pub structs: Vec<StructDef>,
    pub enums: Vec<EnumDef>,
    pub traits: Vec<TraitDef>,
    pub constants: Vec<ConstDef>,
}

} // verus!
