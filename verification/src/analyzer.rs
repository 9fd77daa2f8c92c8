//! The semantic analyzer behind editor highlighting and hover: it records every module-level
//! declaration, walks each function body with a stack of scopes, and emits one raw semantic
//! token per declaration and per resolvable use of a name, then sorts and delta-encodes them.

use vstd::prelude::*;
use crate::exports::{entry_from, table_get, table_insert, table_map};
use crate::hover::{render_spec, HoverInfo};
use crate::format::Token;
use crate::symbols::{first_under_cursor, span_view, Span};
use crate::semantic::{token_type_index, SymbolKind, TokenModifier, TokenType};
use crate::syntax::{ParamDef, ConstDef, EnumDef, Expr, FnDef, ForMode, Pattern, SourceModule, Stmt, StructDef, TraitDef, VariantDef};
use crate::types::{is_type_named, type_expr_to_value_type, ScopeContext, SymbolInfo, TypeInfo, ValueType};
use crate::text::{chars_eq, chars_of, views};

verus! {

/// The UTF-8 length of a character.
pub open spec fn char_utf8_len(c: char) -> nat {
    if (c as u32) < 0x80 {
        1
    } else if (c as u32) < 0x800 {
        2
    } else if (c as u32) < 0x10000 {
        3
    } else {
        4
    }
}

/// The UTF-8 length of a text (what `str::len` counts).
pub open spec fn utf8_len(s: Seq<char>) -> nat
    decreases s.len(),
{
    if s.len() == 0 {
        0
    } else {
        utf8_len(s.drop_last()) + char_utf8_len(s.last())
    }
}

proof fn lemma_utf8_len_first(s: Seq<char>)
    requires
        s.len() > 0,
    ensures
        utf8_len(s) == char_utf8_len(s[0]) + utf8_len(s.drop_first()),
    decreases s.len(),
{
    if s.len() > 1 {
        lemma_utf8_len_first(s.drop_last());
        assert(s.drop_last().drop_first() =~= s.drop_first().drop_last());
        assert(s.drop_last()[0] == s[0]);
        assert(s.drop_first().last() == s.last());
        assert(utf8_len(s.drop_first()) == utf8_len(s.drop_first().drop_last()) + char_utf8_len(s.drop_first().last()));
        assert(utf8_len(s) == utf8_len(s.drop_last()) + char_utf8_len(s.last()));
    } else {
        assert(s.drop_last().len() == 0);
        assert(s.drop_first().len() == 0);
        assert(utf8_len(s.drop_first()) == 0);
        assert(utf8_len(s.drop_last()) == 0);
        assert(s.last() == s[0]);
    }
}

/// The UTF-8 encoding vstd gives a text has `utf8_len` bytes.
proof fn lemma_encode_utf8_len(s: Seq<char>)
    ensures
        vstd::utf8::encode_utf8(s).len() == utf8_len(s),
    decreases s.len(),
{
    if s.len() > 0 {
        lemma_encode_utf8_len(s.drop_first());
        lemma_utf8_len_first(s);
        vstd::utf8::char_is_scalar(s[0]);
        assert(vstd::utf8::encode_scalar(s[0] as u32).len() == char_utf8_len(s[0]));
    }
}

/// The length of a text in UTF-8 bytes (`str::len`).
pub(crate) fn byte_len(s: &str) -> (r: usize)
    ensures
        r == utf8_len(s@),
{
    let b = s.as_bytes();
    proof {
        lemma_encode_utf8_len(s@);
    }
    b.len()
}

/// A token before delta encoding: 0-based line and column, class, modifier bits, byte length.
#[derive(Clone, Copy, Debug, PartialEq, Eq)]
pub struct RawToken {
    pub line: usize,
    pub column: usize,
    pub token_type: TokenType,
    pub modifiers: u32,
    pub length: usize,
}

pub type RawView = (int, int, TokenType, u32, int);

pub open spec fn raw_view(t: RawToken) -> RawView {
    (t.line as int, t.column as int, t.token_type, t.modifiers, t.length as int)
}

pub open spec fn raws_view(v: Seq<RawToken>) -> Seq<RawView> {
    v.map_values(|t: RawToken| raw_view(t))
}

/// The token for a name at a 1-based position.
pub open spec fn raw_at(line: usize, column: usize, t: TokenType, m: u32, len: nat) -> RawView {
    (if line >= 1 { line - 1 } else { 0 }, if column >= 1 { column - 1 } else { 0 }, t, m, len as int)
}

/// Names in scope while walking a body: the local frames (innermost last), the module-level
/// declarations, and the builtin function names.
pub type Decls = (Seq<Map<Seq<char>, (TokenType, u32)>>, Map<Seq<char>, (TokenType, u32)>, Seq<Seq<char>>);

/// The class and modifiers of the innermost local binding of `name` among `frames[..n]`.
pub open spec fn resolve_local(frames: Seq<Map<Seq<char>, (TokenType, u32)>>, name: Seq<char>, n: int) -> Option<(TokenType, u32)>
    decreases n,
{
    if n <= 0 || n > frames.len() {
        None
    } else if frames[n - 1].contains_key(name) {
        Some(frames[n - 1][name])
    } else {
        resolve_local(frames, name, n - 1)
    }
}

/// What a name resolves to: a local binding (innermost first), else a module-level
/// declaration, else a builtin function (with the default-library modifier).
pub open spec fn resolve_name(d: Decls, name: Seq<char>) -> Option<(TokenType, u32)> {
    match resolve_local(d.0, name, d.0.len() as int) {
        Some(x) => Some(x),
        None => if d.1.contains_key(name) {
            Some(d.1[name])
        } else if d.2.contains(name) {
            Some((TokenType::Function, 4u32))
        } else {
            None
        },
    }
}

/// The tokens an expression yields: each identifier that resolves (at its own position), each
/// field name as a property, each enum variant constructed as an enum member, in source order.
pub open spec fn expr_tokens(d: Decls, e: Expr) -> Seq<RawView>
    decreases e,
{
    match e {
        Expr::Ident { name, line, column } => match resolve_name(d, name@) {
            Some((t, m)) => seq![raw_at(line, column, t, m, utf8_len(name@))],
            None => Seq::empty(),
        },
        Expr::Call { callee, args } => (if *callee matches Expr::Ident { .. } {
            expr_tokens(d, *callee)
        } else {
            Seq::empty()
        }) + exprs_tokens(d, args@),
        Expr::MethodCall { receiver, args } => expr_tokens(d, *receiver) + exprs_tokens(d, args@),
        Expr::Binary { left, right } => expr_tokens(d, *left) + expr_tokens(d, *right),
        Expr::Unary(x) => expr_tokens(d, *x),
        Expr::Cast(x) => expr_tokens(d, *x),
        Expr::Index { base, index } => expr_tokens(d, *base) + expr_tokens(d, *index),
        Expr::FieldAccess { receiver, field, field_line, field_column } => expr_tokens(d, *receiver)
            + seq![raw_at(field_line, field_column, TokenType::Property, 0u32, utf8_len(field@))],
        Expr::Group(x) => expr_tokens(d, *x),
        Expr::Propagate(x) => expr_tokens(d, *x),
        Expr::ListLiteral(es) => exprs_tokens(d, es@),
        Expr::MapLiteral(entries) => entries_tokens(d, entries@),
        Expr::StructLiteral { fields } => fields_tokens(d, fields@),
        Expr::EnumConstruct { variant_name, data, line, column } => seq![
            raw_at(line, column, TokenType::EnumMember, 0u32, utf8_len(variant_name@)),
        ] + match data {
            Some(x) => expr_tokens(d, *x),
            None => Seq::empty(),
        },
        _ => Seq::empty(),
    }
}

pub open spec fn exprs_tokens(d: Decls, es: Seq<Expr>) -> Seq<RawView>
    decreases es,
{
    if es.len() == 0 {
        Seq::empty()
    } else {
        exprs_tokens(d, es.drop_last()) + expr_tokens(d, es.last())
    }
}

pub open spec fn entries_tokens(d: Decls, es: Seq<(Expr, Expr)>) -> Seq<RawView>
    decreases es,
{
    if es.len() == 0 {
        Seq::empty()
    } else {
        entries_tokens(d, es.drop_last()) + expr_tokens(d, es.last().0) + expr_tokens(d, es.last().1)
    }
}

pub open spec fn fields_tokens(d: Decls, fs: Seq<(String, Expr, usize, usize)>) -> Seq<RawView>
    decreases fs,
{
    if fs.len() == 0 {
        Seq::empty()
    } else {
        let f = fs.last();
        fields_tokens(d, fs.drop_last()) + seq![raw_at(f.2, f.3, TokenType::Property, 0u32, utf8_len(f.0@))]
            + expr_tokens(d, f.1)
    }
}

/// A pattern's effect on the innermost frame and the tokens it yields: each bound name is
/// declared as a variable there, each variant matched against is an enum member.
pub open spec fn pattern_walk(top: Map<Seq<char>, (TokenType, u32)>, p: Pattern) -> (Map<Seq<char>, (TokenType, u32)>, Seq<RawView>)
    decreases p,
{
    match p {
        Pattern::Ident { name, line, column } => (
            top.insert(name@, (TokenType::Variable, 0u32)),
            seq![raw_at(line, column, TokenType::Variable, 1u32, utf8_len(name@))],
        ),
        Pattern::Enum { variant_name, data, variant_line, variant_column } => {
            let t0 = seq![raw_at(variant_line, variant_column, TokenType::EnumMember, 0u32, utf8_len(variant_name@))];
            match data {
                Some(sub) => {
                    let r = pattern_walk(top, *sub);
                    (r.0, t0 + r.1)
                },
                None => (top, t0),
            }
        },
        Pattern::Struct { fields } => patterns_walk(top, fields@),
        Pattern::Jozi(a, b) => {
            let r1 = pattern_walk(top, *a);
            let r2 = pattern_walk(r1.0, *b);
            (r2.0, r1.1 + r2.1)
        },
        _ => (top, Seq::empty()),
    }
}

pub open spec fn patterns_walk(top: Map<Seq<char>, (TokenType, u32)>, fs: Seq<(String, Pattern)>) -> (Map<Seq<char>, (TokenType, u32)>, Seq<RawView>)
    decreases fs,
{
    if fs.len() == 0 {
        (top, Seq::empty())
    } else {
        let r1 = patterns_walk(top, fs.drop_last());
        let r2 = pattern_walk(r1.0, fs.last().1);
        (r2.0, r1.1 + r2.1)
    }
}

/// The module-level declarations and builtin names, fixed while bodies are walked.
pub type Fixed = (Map<Seq<char>, (TokenType, u32)>, Seq<Seq<char>>);

/// The walk's state: the local frames (innermost last) and the tokens so far.
pub type Walk = (Seq<Map<Seq<char>, (TokenType, u32)>>, Seq<RawView>);

pub open spec fn decls_of(fx: Fixed, w: Walk) -> Decls {
    (w.0, fx.0, fx.1)
}

/// `w` with the tokens of an expression added.
pub open spec fn with_expr(fx: Fixed, w: Walk, e: Expr) -> Walk {
    (w.0, w.1 + expr_tokens(decls_of(fx, w), e))
}

/// A statement's effect. A `weka`/`thabiti` binding declares a variable (read-only for
/// `thabiti`) in the innermost frame after its value; an assignment colours its target as it
/// resolves; every nested block runs in a frame of its own; a `kwa` loop declares its variable
/// in the loop's frame before its range or collection; each match arm binds its pattern in the
/// arm's frame.
pub open spec fn stmt_walk(fx: Fixed, w: Walk, s: Stmt) -> Walk
    decreases s,
{
    match s {
        Stmt::Let { name, value, line, column, ty, mutable } => {
            let w1 = with_expr(fx, w, value);
            let m: u32 = if mutable { 0 } else { 2 };
            (
                w1.0.update(w1.0.len() - 1, w1.0.last().insert(name@, (TokenType::Variable, m))),
                w1.1.push(raw_at(line, column, TokenType::Variable, if mutable { 1u32 } else { 3u32 }, utf8_len(name@))),
            )
        },
        Stmt::Assign { name, value, line, column } => {
            let t = match resolve_name(decls_of(fx, w), name@) {
                Some((tt, m)) => seq![raw_at(line, column, tt, m, utf8_len(name@))],
                None => Seq::empty(),
            };
            with_expr(fx, (w.0, w.1 + t), value)
        },
        Stmt::If { cond, then_block, else_if, else_block } => {
            let w1 = with_expr(fx, w, cond);
            let inner = block_walk(fx, (w1.0.push(Map::empty()), w1.1), then_block@);
            let w2 = (inner.0.drop_last(), inner.1);
            let w3 = else_ifs_walk(fx, w2, else_if@);
            match else_block {
                Some(b) => {
                    let inner2 = block_walk(fx, (w3.0.push(Map::empty()), w3.1), b@);
                    (inner2.0.drop_last(), inner2.1)
                },
                None => w3,
            }
        },
        Stmt::While { cond, body } => {
            let w1 = with_expr(fx, w, cond);
            let inner = block_walk(fx, (w1.0.push(Map::empty()), w1.1), body@);
            (inner.0.drop_last(), inner.1)
        },
        Stmt::For { var, var_column, mode, body, line } => {
            let w1 = (
                w.0.push(Map::empty().insert(var@, (TokenType::Variable, 0u32))),
                w.1.push(raw_at(line, var_column, TokenType::Variable, 1u32, utf8_len(var@))),
            );
            let w2 = match mode {
                ForMode::InExpr(x) => with_expr(fx, w1, x),
                ForMode::Range { start, end } => with_expr(fx, with_expr(fx, w1, start), end),
            };
            let inner = block_walk(fx, w2, body@);
            (inner.0.drop_last(), inner.1)
        },
        Stmt::Match { expr, arms } => arms_walk(fx, with_expr(fx, w, expr), arms@),
        Stmt::Return(Some(x)) => with_expr(fx, w, x),
        Stmt::ExprStmt(x) => with_expr(fx, w, x),
        _ => w,
    }
}

pub open spec fn block_walk(fx: Fixed, w: Walk, stmts: Seq<Stmt>) -> Walk
    decreases stmts,
{
    if stmts.len() == 0 {
        w
    } else {
        stmt_walk(fx, block_walk(fx, w, stmts.drop_last()), stmts.last())
    }
}

pub open spec fn else_ifs_walk(fx: Fixed, w: Walk, eis: Seq<(Expr, Vec<Stmt>)>) -> Walk
    decreases eis,
{
    if eis.len() == 0 {
        w
    } else {
        let w1 = with_expr(fx, else_ifs_walk(fx, w, eis.drop_last()), eis.last().0);
        let inner = block_walk(fx, (w1.0.push(Map::empty()), w1.1), eis.last().1@);
        (inner.0.drop_last(), inner.1)
    }
}

pub open spec fn arms_walk(fx: Fixed, w: Walk, arms: Seq<(Pattern, Vec<Stmt>)>) -> Walk
    decreases arms,
{
    if arms.len() == 0 {
        w
    } else {
        let w1 = arms_walk(fx, w, arms.drop_last());
        let p = pattern_walk(Map::empty(), arms.last().0);
        let inner = block_walk(fx, (w1.0.push(p.0), w1.1 + p.1), arms.last().1@);
        (inner.0.drop_last(), inner.1)
    }
}

/// The type bound to `name` in the innermost of `scopes[..n]` that binds it.
pub open spec fn scope_type(scopes: Seq<ScopeContext>, name: Seq<char>, n: int) -> Option<ValueType>
    decreases n,
{
    if n <= 0 || n > scopes.len() {
        None
    } else {
        match scopes[n - 1].binding(name) {
            Some(t) => Some(t.value_type),
            None => scope_type(scopes, name, n - 1),
        }
    }
}

/// The type an expression is taken to have when a binding gives none: literals' own types, a
/// name's bound type, an unknown-element list or map, a parenthesized expression's type;
/// anything else unknown.
pub open spec fn inferred_type(scopes: Seq<ScopeContext>, e: Expr) -> ValueType
    decreases e,
{
    match e {
        Expr::Number => ValueType::Namba,
        Expr::Str => ValueType::Neno,
        Expr::Char => ValueType::Herufi,
        Expr::Bool => ValueType::Ukweli,
        Expr::Hamna => ValueType::Hamna,
        Expr::Ident { name, .. } => match scope_type(scopes, name@, scopes.len() as int) {
            Some(t) => t,
            None => ValueType::Unknown,
        },
        Expr::ListLiteral(_) => ValueType::Orodha(Box::new(ValueType::Unknown)),
        Expr::MapLiteral(_) => ValueType::Kamusi(Box::new(ValueType::Unknown), Box::new(ValueType::Unknown)),
        Expr::Group(x) => inferred_type(scopes, *x),
        _ => ValueType::Unknown,
    }
}

/// `m` with each of `names` mapped to `v`, in order.
pub open spec fn insert_all<V>(m: Map<Seq<char>, V>, names: Seq<Seq<char>>, v: V) -> Map<Seq<char>, V>
    decreases names.len(),
{
    if names.len() == 0 {
        m
    } else {
        insert_all(m, names.drop_last(), v).insert(names.last(), v)
    }
}

pub open spec fn fn_names(m: SourceModule) -> Seq<Seq<char>> {
    m.functions@.map_values(|f: FnDef| f.name@)
}

pub open spec fn struct_names(m: SourceModule) -> Seq<Seq<char>> {
    m.structs@.map_values(|s: StructDef| s.name@)
}

pub open spec fn enum_names(m: SourceModule) -> Seq<Seq<char>> {
    m.enums@.map_values(|e: EnumDef| e.name@)
}

pub open spec fn trait_names(m: SourceModule) -> Seq<Seq<char>> {
    m.traits@.map_values(|t: TraitDef| t.name@)
}

pub open spec fn const_names(m: SourceModule) -> Seq<Seq<char>> {
    m.constants@.map_values(|c: ConstDef| c.name@)
}

/// The module-level declarations: functions, then structs, enums and traits as types, then
/// constants as read-only variables (a later declaration of a name replacing an earlier one).
pub open spec fn module_decls(m: SourceModule) -> Map<Seq<char>, (TokenType, u32)> {
    let a = insert_all(Map::empty(), fn_names(m), (TokenType::Function, 0u32));
    let b = insert_all(a, struct_names(m), (TokenType::Type, 0u32));
    let c = insert_all(b, enum_names(m), (TokenType::Type, 0u32));
    let d = insert_all(c, trait_names(m), (TokenType::Type, 0u32));
    insert_all(d, const_names(m), (TokenType::Variable, 2u32))
}

/// The kind recorded for each declared name: functions, structs (enums recorded as structs)
/// and traits.
pub open spec fn module_kinds(m: SourceModule) -> Map<Seq<char>, SymbolKind> {
    let a = insert_all(Map::empty(), fn_names(m), SymbolKind::Function);
    let b = insert_all(a, struct_names(m), SymbolKind::Struct);
    let c = insert_all(b, enum_names(m), SymbolKind::Struct);
    insert_all(c, trait_names(m), SymbolKind::Trait)
}

/// A declaration token, for declarations that have a place in the source (line above 0).
pub open spec fn decl_token(line: usize, column: usize, t: TokenType, m: u32, name: Seq<char>) -> Seq<RawView> {
    if line > 0 {
        seq![raw_at(line, column, t, m, utf8_len(name))]
    } else {
        Seq::empty()
    }
}

pub open spec fn fn_decl_tokens(fs: Seq<FnDef>) -> Seq<RawView>
    decreases fs.len(),
{
    if fs.len() == 0 {
        Seq::empty()
    } else {
        fn_decl_tokens(fs.drop_last()) + decl_token(fs.last().line, fs.last().column, TokenType::Function, 1u32, fs.last().name@)
    }
}

pub open spec fn struct_decl_tokens(ss: Seq<StructDef>) -> Seq<RawView>
    decreases ss.len(),
{
    if ss.len() == 0 {
        Seq::empty()
    } else {
        struct_decl_tokens(ss.drop_last()) + decl_token(ss.last().line, ss.last().column, TokenType::Type, 1u32, ss.last().name@)
    }
}

pub open spec fn variant_tokens(vs: Seq<VariantDef>) -> Seq<RawView>
    decreases vs.len(),
{
    if vs.len() == 0 {
        Seq::empty()
    } else {
        variant_tokens(vs.drop_last()) + decl_token(vs.last().line, vs.last().column, TokenType::EnumMember, 1u32, vs.last().name@)
    }
}

pub open spec fn enum_decl_tokens(es: Seq<EnumDef>) -> Seq<RawView>
    decreases es.len(),
{
    if es.len() == 0 {
        Seq::empty()
    } else {
        let e = es.last();
        enum_decl_tokens(es.drop_last()) + decl_token(e.line, e.column, TokenType::Type, 1u32, e.name@) + variant_tokens(e.variants@)
    }
}

pub open spec fn trait_decl_tokens(ts: Seq<TraitDef>) -> Seq<RawView>
    decreases ts.len(),
{
    if ts.len() == 0 {
        Seq::empty()
    } else {
        trait_decl_tokens(ts.drop_last()) + decl_token(ts.last().line, ts.last().column, TokenType::Type, 1u32, ts.last().name@)
    }
}

pub open spec fn const_decl_tokens(cs: Seq<ConstDef>) -> Seq<RawView>
    decreases cs.len(),
{
    if cs.len() == 0 {
        Seq::empty()
    } else {
        const_decl_tokens(cs.drop_last()) + decl_token(cs.last().line, cs.last().column, TokenType::Variable, 3u32, cs.last().name@)
    }
}

/// The declaration tokens, in the order declarations are recorded.
pub open spec fn module_decl_tokens(m: SourceModule) -> Seq<RawView> {
    fn_decl_tokens(m.functions@) + struct_decl_tokens(m.structs@) + enum_decl_tokens(m.enums@)
        + trait_decl_tokens(m.traits@) + const_decl_tokens(m.constants@)
}

/// The written type of the last constant named `n` among `cs`.
pub open spec fn const_type_text(cs: Seq<ConstDef>, n: Seq<char>) -> Option<Seq<char>>
    decreases cs.len(),
{
    if cs.len() == 0 {
        None
    } else if cs.last().name@ == n {
        Some(cs.last().ty@)
    } else {
        const_type_text(cs.drop_last(), n)
    }
}

/// A function's parameters declared in its frame, in order.
pub open spec fn params_walk(w: Walk, ps: Seq<ParamDef>) -> Walk
    decreases ps.len(),
{
    if ps.len() == 0 {
        w
    } else {
        let w1 = params_walk(w, ps.drop_last());
        let p = ps.last();
        (
            w1.0.update(w1.0.len() - 1, w1.0.last().insert(p.name@, (TokenType::Parameter, 0u32))),
            w1.1.push(raw_at(p.line, p.column, TokenType::Parameter, 1u32, utf8_len(p.name@))),
        )
    }
}

/// A function's walk: a frame of its own holding its parameters, then its body.
pub open spec fn fn_walk(fx: Fixed, w: Walk, f: FnDef) -> Walk {
    let w1 = params_walk((w.0.push(Map::empty()), w.1), f.params@);
    let inner = block_walk(fx, w1, f.body@);
    (inner.0.drop_last(), inner.1)
}

pub open spec fn fns_walk(fx: Fixed, w: Walk, fs: Seq<FnDef>) -> Walk
    decreases fs.len(),
{
    if fs.len() == 0 {
        w
    } else {
        fn_walk(fx, fns_walk(fx, w, fs.drop_last()), fs.last())
    }
}

/// `a` comes strictly after `b` in document order.
pub open spec fn after(a: RawView, b: RawView) -> bool {
    a.0 > b.0 || (a.0 == b.0 && a.1 > b.1)
}

/// `x` inserted into `t` after every token not after it (so equal positions keep their order).
pub open spec fn insert_sorted(t: Seq<RawView>, x: RawView) -> Seq<RawView>
    decreases t.len(),
{
    if t.len() == 0 || !after(t.last(), x) {
        t.push(x)
    } else {
        insert_sorted(t.drop_last(), x).push(t.last())
    }
}

/// The tokens in document order, tokens at the same position in the order they were found
/// (a stable sort by line, then column).
pub open spec fn sorted_tokens(s: Seq<RawView>) -> Seq<RawView>
    decreases s.len(),
{
    if s.len() == 0 {
        s
    } else {
        insert_sorted(sorted_tokens(s.drop_last()), s.last())
    }
}

/// A token as the protocol sends it: line and start relative to the previous token, length,
/// class index and modifier bits.
#[derive(Clone, Copy, Debug, PartialEq, Eq)]
pub struct SemanticTokenData {
    pub delta_line: u32,
    pub delta_start: u32,
    pub length: u32,
    pub token_type: u32,
    pub token_modifiers_bitset: u32,
}

pub open spec fn sat_sub(a: u32, b: u32) -> u32 {
    if a >= b {
        (a - b) as u32
    } else {
        0
    }
}

/// The encoding of the first `n` tokens, and the line and column of the last one (0, 0 before
/// any).
pub open spec fn encode_prefix(ts: Seq<RawView>, n: int) -> (Seq<(u32, u32, u32, u32, u32)>, int, int)
    decreases n,
{
    if n <= 0 || n > ts.len() {
        (Seq::empty(), 0, 0)
    } else {
        let prev = encode_prefix(ts, n - 1);
        let t = ts[n - 1];
        let dl = sat_sub(t.0 as u32, prev.1 as u32);
        let ds = if t.0 == prev.1 {
            sat_sub(t.1 as u32, prev.2 as u32)
        } else {
            t.1 as u32
        };
        (prev.0.push((dl, ds, t.4 as u32, token_type_index(t.2), t.3)), t.0, t.1)
    }
}

pub open spec fn encoded(ts: Seq<RawView>) -> Seq<(u32, u32, u32, u32, u32)> {
    encode_prefix(ts, ts.len() as int).0
}

pub open spec fn data_view(d: SemanticTokenData) -> (u32, u32, u32, u32, u32) {
    (d.delta_line, d.delta_start, d.length, d.token_type, d.token_modifiers_bitset)
}

proof fn lemma_insert_at(t: Seq<RawView>, x: RawView, j: int)
    requires
        0 <= j <= t.len(),
        forall|k: int| j <= k < t.len() ==> after(#[trigger] t[k], x),
        j == 0 || !after(t[j - 1], x),
    ensures
        insert_sorted(t, x) == t.subrange(0, j).push(x) + t.subrange(j, t.len() as int),
    decreases t.len(),
{
    if j == t.len() {
        assert(t.subrange(0, j) =~= t);
        assert(t.subrange(j, t.len() as int) =~= Seq::<RawView>::empty());
        assert(t.subrange(0, j).push(x) + t.subrange(j, t.len() as int) =~= t.push(x));
    } else {
        let d = t.drop_last();
        assert(after(t.last(), x));
        lemma_insert_at(d, x, j);
        assert(insert_sorted(t, x) == insert_sorted(d, x).push(t.last()));
        assert(d.subrange(0, j) =~= t.subrange(0, j));
        assert(t.subrange(0, j).push(x) + t.subrange(j, t.len() as int) =~= (d.subrange(0, j).push(x) + d.subrange(j, d.len() as int)).push(t.last()));
    }
}

fn is_after(a: &RawToken, b: &RawToken) -> (r: bool)
    ensures
        r == after(raw_view(*a), raw_view(*b)),
{
    a.line > b.line || (a.line == b.line && a.column > b.column)
}

/// Sort raw tokens into document order, keeping the order of tokens at the same position.
pub fn sort_tokens(tokens: &Vec<RawToken>) -> (r: Vec<RawToken>)
    ensures
        raws_view(r@) == sorted_tokens(raws_view(tokens@)),
{
    let mut out: Vec<RawToken> = Vec::new();
    let mut i: usize = 0;
    assert(raws_view(tokens@).subrange(0, 0) =~= Seq::<RawView>::empty());
    assert(raws_view(out@) =~= Seq::<RawView>::empty());
    while i < tokens.len()
        invariant
            i <= tokens.len(),
            raws_view(out@) == sorted_tokens(raws_view(tokens@).subrange(0, i as int)),
            out@.len() == i,
        decreases tokens.len() - i,
    {
        let x = tokens[i];
        let mut j = out.len();
        while j > 0 && is_after(&out[j - 1], &x)
            invariant
                j <= out.len(),
                forall|k: int| j <= k < out@.len() ==> after(#[trigger] raw_view(out@[k]), raw_view(x)),
            decreases j,
        {
            j = j - 1;
        }
        let ghost before = raws_view(out@);
        proof {
            assert forall|k: int| j <= k < before.len() implies after(#[trigger] before[k], raw_view(x)) by {
                assert(before[k] == raw_view(out@[k]));
            }
            if j > 0 {
                assert(before[j - 1] == raw_view(out@[j - 1]));
            }
            lemma_insert_at(before, raw_view(x), j as int);
        }
        out.insert(j, x);
        proof {
            let s = raws_view(tokens@).subrange(0, i + 1);
            assert(s.drop_last() =~= raws_view(tokens@).subrange(0, i as int));
            assert(s.last() == raw_view(x));
            assert(raws_view(out@) =~= before.subrange(0, j as int).push(raw_view(x)) + before.subrange(j as int, before.len() as int));
        }
        i = i + 1;
    }
    assert(raws_view(tokens@).subrange(0, tokens.len() as int) =~= raws_view(tokens@));
    out
}

/// Delta-encode tokens in document order.
pub fn encode_tokens(tokens: &Vec<RawToken>) -> (r: Vec<SemanticTokenData>)
    ensures
        r@.map_values(|d: SemanticTokenData| data_view(d)) == encoded(raws_view(tokens@)),
{
    let mut data: Vec<SemanticTokenData> = Vec::new();
    let mut prev_line: usize = 0;
    let mut prev_start: usize = 0;
    let mut i: usize = 0;
    assert(data@.map_values(|d: SemanticTokenData| data_view(d)) =~= Seq::<(u32, u32, u32, u32, u32)>::empty());
    while i < tokens.len()
        invariant
            i <= tokens.len(),
            ({
                let e = encode_prefix(raws_view(tokens@), i as int);
                &&& data@.map_values(|d: SemanticTokenData| data_view(d)) == e.0
                &&& prev_line == e.1
                &&& prev_start == e.2
            }),
        decreases tokens.len() - i,
    {
        let t = tokens[i];
        let line32 = t.line as u32;
        let prev32 = prev_line as u32;
        let delta_line = if line32 >= prev32 { line32 - prev32 } else { 0 };
        let col32 = t.column as u32;
        let start32 = prev_start as u32;
        let delta_start = if t.line == prev_line {
            if col32 >= start32 { col32 - start32 } else { 0 }
        } else {
            col32
        };
        let ghost before = data@.map_values(|d: SemanticTokenData| data_view(d));
        data.push(SemanticTokenData {
            delta_line,
            delta_start,
            length: t.length as u32,
            token_type: t.token_type.to_u32(),
            token_modifiers_bitset: t.modifiers,
        });
        assert(data@.map_values(|d: SemanticTokenData| data_view(d)) =~= before.push(data_view(data@.last())));
        assert(raws_view(tokens@)[i as int] == raw_view(t));
        prev_line = t.line;
        prev_start = t.column;
        i = i + 1;
    }
    data
}

/// Every raw token of a module, in the order found: its declarations, then each function's
/// parameters and body.
pub open spec fn analysis_tokens(m: SourceModule, builtins: Seq<Seq<char>>) -> Seq<RawView> {
    fns_walk(
        (module_decls(m), builtins),
        (seq![Map::empty()], module_decl_tokens(m)),
        m.functions@,
    ).1
}

/// Index of the first function named `n`, from `i` on.
pub open spec fn first_fn(fs: Seq<FnDef>, n: Seq<char>, i: int) -> Option<int>
    decreases fs.len() - i,
{
    if i < 0 || i >= fs.len() {
        None
    } else if fs[i].name@ == n {
        Some(i)
    } else {
        first_fn(fs, n, i + 1)
    }
}

pub open spec fn first_struct(ss: Seq<StructDef>, n: Seq<char>, i: int) -> Option<int>
    decreases ss.len() - i,
{
    if i < 0 || i >= ss.len() {
        None
    } else if ss[i].name@ == n {
        Some(i)
    } else {
        first_struct(ss, n, i + 1)
    }
}

pub open spec fn first_trait(ts: Seq<TraitDef>, n: Seq<char>, i: int) -> Option<int>
    decreases ts.len() - i,
{
    if i < 0 || i >= ts.len() {
        None
    } else if ts[i].name@ == n {
        Some(i)
    } else {
        first_trait(ts, n, i + 1)
    }
}

/// The hover for a function: its name, parameters with their types, and return type.
pub open spec fn fn_hover(f: FnDef, h: HoverInfo) -> bool {
    h matches HoverInfo::Function { name, params, return_type } && name@ == f.name@ && params@.len()
        == f.params@.len() && (forall|j: int| 0 <= j < params@.len() ==> (#[trigger] params@[j]).0@
        == f.params@[j].name@ && is_type_named(f.params@[j].ty@, params@[j].1)) && is_type_named(
        f.return_type@,
        return_type,
    )
}

/// The hover for a struct: its name and fields with their types (unknown when unwritten).
pub open spec fn struct_hover(s: StructDef, h: HoverInfo) -> bool {
    h matches HoverInfo::Struct { name, fields } && name@ == s.name@ && fields@.len() == s.fields@.len()
        && forall|j: int| 0 <= j < fields@.len() ==> (#[trigger] fields@[j]).0@ == s.fields@[j].0@
        && match s.fields@[j].1 {
        Some(t) => is_type_named(t@, fields@[j].1),
        None => fields@[j].1 == ValueType::Unknown,
    }
}

proof fn lemma_first_fn_bounds(fs: Seq<FnDef>, n: Seq<char>, i: int)
    requires
        0 <= i,
    ensures
        first_fn(fs, n, i) matches Some(k) ==> i <= k < fs.len() && fs[k].name@ == n,
    decreases fs.len() - i,
{
    if i < fs.len() && fs[i].name@ != n {
        lemma_first_fn_bounds(fs, n, i + 1);
    }
}

proof fn lemma_first_struct_bounds(ss: Seq<StructDef>, n: Seq<char>, i: int)
    requires
        0 <= i,
    ensures
        first_struct(ss, n, i) matches Some(k) ==> i <= k < ss.len() && ss[k].name@ == n,
    decreases ss.len() - i,
{
    if i < ss.len() && ss[i].name@ != n {
        lemma_first_struct_bounds(ss, n, i + 1);
    }
}

fn find_fn(fs: &Vec<FnDef>, n: &str) -> (r: Option<usize>)
    ensures
        match first_fn(fs@, n@, 0) {
            Some(k) => r matches Some(j) && j == k && 0 <= k < fs@.len(),
            None => r is None,
        },
        r matches Some(k) ==> k < fs@.len(),
{
    proof {
        lemma_first_fn_bounds(fs@, n@, 0);
    }
    let w = chars_of(n);
    let mut i: usize = 0;
    while i < fs.len()
        invariant
            i <= fs.len(),
            w@ == n@,
            first_fn(fs@, n@, 0) == first_fn(fs@, n@, i as int),
        decreases fs.len() - i,
    {
        if chars_eq(chars_of(fs[i].name.as_str()).as_slice(), w.as_slice()) {
            return Some(i);
        }
        i = i + 1;
    }
    None
}

fn find_struct(ss: &Vec<StructDef>, n: &str) -> (r: Option<usize>)
    ensures
        match first_struct(ss@, n@, 0) {
            Some(k) => r matches Some(j) && j == k && 0 <= k < ss@.len(),
            None => r is None,
        },
        r matches Some(k) ==> k < ss@.len(),
{
    proof {
        lemma_first_struct_bounds(ss@, n@, 0);
    }
    let w = chars_of(n);
    let mut i: usize = 0;
    while i < ss.len()
        invariant
            i <= ss.len(),
            w@ == n@,
            first_struct(ss@, n@, 0) == first_struct(ss@, n@, i as int),
        decreases ss.len() - i,
    {
        if chars_eq(chars_of(ss[i].name.as_str()).as_slice(), w.as_slice()) {
            return Some(i);
        }
        i = i + 1;
    }
    None
}

fn find_trait(ts: &Vec<TraitDef>, n: &str) -> (r: bool)
    ensures
        r == (first_trait(ts@, n@, 0) is Some),
{
    let w = chars_of(n);
    let mut i: usize = 0;
    while i < ts.len()
        invariant
            i <= ts.len(),
            w@ == n@,
            first_trait(ts@, n@, 0) == first_trait(ts@, n@, i as int),
        decreases ts.len() - i,
    {
        if chars_eq(chars_of(ts[i].name.as_str()).as_slice(), w.as_slice()) {
            return true;
        }
        i = i + 1;
    }
    false
}

/// The hover for a function declaration.
pub fn function_hover(f: &FnDef) -> (r: HoverInfo)
    ensures
        fn_hover(*f, r),
{
    let mut params: Vec<(String, ValueType)> = Vec::new();
    let mut j: usize = 0;
    while j < f.params.len()
        invariant
            j <= f.params.len(),
            params@.len() == j,
            forall|k: int| 0 <= k < j ==> (#[trigger] params@[k]).0@ == f.params@[k].name@ && is_type_named(
                f.params@[k].ty@,
                params@[k].1,
            ),
        decreases f.params.len() - j,
    {
        params.push((f.params[j].name.clone(), type_expr_to_value_type(f.params[j].ty.as_str())));
        j = j + 1;
    }
    HoverInfo::Function {
        name: f.name.clone(),
        params,
        return_type: type_expr_to_value_type(f.return_type.as_str()),
    }
}

/// The hover for a struct declaration.
pub fn structure_hover(s: &StructDef) -> (r: HoverInfo)
    ensures
        struct_hover(*s, r),
{
    let mut fields: Vec<(String, ValueType)> = Vec::new();
    let mut j: usize = 0;
    while j < s.fields.len()
        invariant
            j <= s.fields.len(),
            fields@.len() == j,
            forall|k: int| 0 <= k < j ==> (#[trigger] fields@[k]).0@ == s.fields@[k].0@ && match s.fields@[k].1 {
                Some(t) => is_type_named(t@, fields@[k].1),
                None => fields@[k].1 == ValueType::Unknown,
            },
        decreases s.fields.len() - j,
    {
        let t = match &s.fields[j].1 {
            Some(t) => type_expr_to_value_type(t.as_str()),
            None => ValueType::Unknown,
        };
        fields.push((s.fields[j].0.clone(), t));
        j = j + 1;
    }
    HoverInfo::Struct { name: s.name.clone(), fields }
}

/// The analyzer's state: the module, the tokens found so far, module-level declarations, one
/// frame of local declarations per open scope (innermost last) with the scope's bound types
/// beside it, the builtin function names, and the symbols recorded for hover.
pub struct SemanticAnalyzer {
    pub module: SourceModule,
    pub raw_tokens: Vec<RawToken>,
    pub global_decls: Vec<(String, (TokenType, u32))>,
    pub local_decls: Vec<Vec<(String, (TokenType, u32))>>,
    pub builtin_names: Vec<String>,
    pub scopes: Vec<ScopeContext>,
    pub symbol_table: Vec<(String, SymbolInfo)>,
}

pub open spec fn frames_view(f: Seq<Vec<(String, (TokenType, u32))>>) -> Seq<Map<Seq<char>, (TokenType, u32)>> {
    f.map_values(|v: Vec<(String, (TokenType, u32))>| table_map(v@))
}

impl SemanticAnalyzer {
    /// The names in scope.
    pub open spec fn decls(&self) -> Decls {
        (frames_view(self.local_decls@), table_map(self.global_decls@), views(self.builtin_names@))
    }

    /// Everything but the tokens is the same in `self` and `other`.
    pub open spec fn same_but_tokens(&self, other: &Self) -> bool {
        &&& self.module == other.module
        &&& self.global_decls == other.global_decls
        &&& self.local_decls == other.local_decls
        &&& self.builtin_names == other.builtin_names
        &&& self.scopes == other.scopes
        &&& self.symbol_table == other.symbol_table
    }

    fn push_raw(&mut self, line: usize, column: usize, token_type: TokenType, modifiers: u32, length: usize)
        ensures
            final(self).same_but_tokens(old(self)),
            raws_view(final(self).raw_tokens@) == raws_view(old(self).raw_tokens@).push(
                raw_at(line, column, token_type, modifiers, length as nat),
            ),
    {
        let ghost before = raws_view(self.raw_tokens@);
        let l = if line >= 1 { line - 1 } else { 0 };
        let c = if column >= 1 { column - 1 } else { 0 };
        self.raw_tokens.push(RawToken { line: l, column: c, token_type, modifiers, length });
        assert(raws_view(self.raw_tokens@) =~= before.push(raw_at(line, column, token_type, modifiers, length as nat)));
    }

    /// What `name` resolves to in the current scopes.
    fn resolve(&self, name: &str) -> (r: Option<(TokenType, u32)>)
        ensures
            r == resolve_name(self.decls(), name@),
    {
        let ghost d = self.decls();
        let mut n = self.local_decls.len();
        while n > 0
            invariant
                n <= self.local_decls.len(),
                d == self.decls(),
                resolve_local(d.0, name@, d.0.len() as int) == resolve_local(d.0, name@, n as int),
            decreases n,
        {
            match table_get(&self.local_decls[n - 1], name) {
                Some(x) => {
                    assert(d.0[n - 1] == table_map(self.local_decls@[n - 1]@));
                    return Some(*x);
                },
                None => {
                    assert(d.0[n - 1] == table_map(self.local_decls@[n - 1]@));
                },
            }
            n = n - 1;
        }
        match table_get(&self.global_decls, name) {
            Some(x) => Some(*x),
            None => {
                let w = chars_of(name);
                let mut i: usize = 0;
                while i < self.builtin_names.len()
                    invariant
                        i <= self.builtin_names.len(),
                        w@ == name@,
                        d == self.decls(),
                        resolve_local(d.0, name@, d.0.len() as int) is None,
                        !d.1.contains_key(name@),
                        forall|j: int| 0 <= j < i ==> (#[trigger] self.builtin_names@[j])@ != name@,
                    decreases self.builtin_names.len() - i,
                {
                    if chars_eq(chars_of(self.builtin_names[i].as_str()).as_slice(), w.as_slice()) {
                        assert(views(self.builtin_names@)[i as int] == name@);
                        assert(d.2.contains(name@));
                        return Some((TokenType::Function, TokenModifier::DefaultLibrary.to_u32()));
                    }
                    i = i + 1;
                }
                assert(!d.2.contains(name@)) by {
                    if d.2.contains(name@) {
                        let j = choose|j: int| 0 <= j < d.2.len() && d.2[j] == name@;
                        assert(self.builtin_names@[j]@ == name@);
                    }
                }
                None
            },
        }
    }

    fn scan_exprs(&mut self, es: &Vec<Expr>)
        ensures
            final(self).same_but_tokens(old(self)),
            raws_view(final(self).raw_tokens@) == raws_view(old(self).raw_tokens@) + exprs_tokens(old(self).decls(), es@),
        decreases es@,
    {
        let ghost start = raws_view(self.raw_tokens@);
        let ghost d = self.decls();
        let ghost s0 = *self;
        let mut i: usize = 0;
        while i < es.len()
            invariant
                i <= es.len(),
                self.same_but_tokens(&s0),
                d == s0.decls(),
                raws_view(self.raw_tokens@) == start + exprs_tokens(d, es@.subrange(0, i as int)),
            decreases es.len() - i,
        {
            self.scan_expr(&es[i]);
            assert(es@.subrange(0, i + 1).drop_last() =~= es@.subrange(0, i as int));
            i = i + 1;
        }
        assert(es@.subrange(0, es.len() as int) =~= es@);
    }

    fn scan_entries(&mut self, entries: &Vec<(Expr, Expr)>)
        ensures
            final(self).same_but_tokens(old(self)),
            raws_view(final(self).raw_tokens@) == raws_view(old(self).raw_tokens@) + entries_tokens(old(self).decls(), entries@),
        decreases entries@,
    {
        let ghost start = raws_view(self.raw_tokens@);
        let ghost d = self.decls();
        let ghost s0 = *self;
        let mut i: usize = 0;
        while i < entries.len()
            invariant
                i <= entries.len(),
                self.same_but_tokens(&s0),
                d == s0.decls(),
                raws_view(self.raw_tokens@) == start + entries_tokens(d, entries@.subrange(0, i as int)),
            decreases entries.len() - i,
        {
            self.scan_expr(&entries[i].0);
            self.scan_expr(&entries[i].1);
            assert(entries@.subrange(0, i + 1).drop_last() =~= entries@.subrange(0, i as int));
            i = i + 1;
        }
        assert(entries@.subrange(0, entries.len() as int) =~= entries@);
    }

    fn scan_fields(&mut self, fields: &Vec<(String, Expr, usize, usize)>)
        ensures
            final(self).same_but_tokens(old(self)),
            raws_view(final(self).raw_tokens@) == raws_view(old(self).raw_tokens@) + fields_tokens(old(self).decls(), fields@),
        decreases fields@,
    {
        let ghost start = raws_view(self.raw_tokens@);
        let ghost d = self.decls();
        let ghost s0 = *self;
        let mut i: usize = 0;
        while i < fields.len()
            invariant
                i <= fields.len(),
                self.same_but_tokens(&s0),
                d == s0.decls(),
                raws_view(self.raw_tokens@) == start + fields_tokens(d, fields@.subrange(0, i as int)),
            decreases fields.len() - i,
        {
            let len = byte_len(fields[i].0.as_str());
            self.push_raw(fields[i].2, fields[i].3, TokenType::Property, 0, len);
            self.scan_expr(&fields[i].1);
            assert(fields@.subrange(0, i + 1).drop_last() =~= fields@.subrange(0, i as int));
            i = i + 1;
        }
        assert(fields@.subrange(0, fields.len() as int) =~= fields@);
    }

    fn scan_expr(&mut self, e: &Expr)
        ensures
            final(self).same_but_tokens(old(self)),
            raws_view(final(self).raw_tokens@) == raws_view(old(self).raw_tokens@) + expr_tokens(old(self).decls(), *e),
        decreases e,
    {
        let ghost start = raws_view(self.raw_tokens@);
        match e {
            Expr::Ident { name, line, column } => {
                match self.resolve(name.as_str()) {
                    Some((t, m)) => {
                        let len = byte_len(name.as_str());
                        self.push_raw(*line, *column, t, m, len);
                    },
                    None => {
                        assert(raws_view(self.raw_tokens@) =~= start + Seq::empty());
                    },
                }
            },
            Expr::Call { callee, args } => {
                match &**callee {
                    Expr::Ident { .. } => self.scan_expr(callee),
                    _ => {},
                }
                self.scan_exprs(args);
            },
            Expr::MethodCall { receiver, args } => {
                self.scan_expr(receiver);
                self.scan_exprs(args);
            },
            Expr::Binary { left, right } => {
                self.scan_expr(left);
                self.scan_expr(right);
            },
            Expr::Unary(x) => self.scan_expr(x),
            Expr::Cast(x) => self.scan_expr(x),
            Expr::Index { base, index } => {
                self.scan_expr(base);
                self.scan_expr(index);
            },
            Expr::FieldAccess { receiver, field, field_line, field_column } => {
                self.scan_expr(receiver);
                let len = byte_len(field.as_str());
                self.push_raw(*field_line, *field_column, TokenType::Property, 0, len);
            },
            Expr::Group(x) => self.scan_expr(x),
            Expr::Propagate(x) => self.scan_expr(x),
            Expr::ListLiteral(es) => self.scan_exprs(es),
            Expr::MapLiteral(entries) => self.scan_entries(entries),
            Expr::StructLiteral { fields } => self.scan_fields(fields),
            Expr::EnumConstruct { variant_name, data, line, column } => {
                let len = byte_len(variant_name.as_str());
                self.push_raw(*line, *column, TokenType::EnumMember, 0, len);
                match data {
                    Some(x) => self.scan_expr(x),
                    None => {},
                }
            },
            _ => {},
        }
    }

    /// The fixed part of the names in scope.
    pub open spec fn fixed(&self) -> Fixed {
        (table_map(self.global_decls@), views(self.builtin_names@))
    }

    /// The walk's state.
    pub open spec fn walk(&self) -> Walk {
        (frames_view(self.local_decls@), raws_view(self.raw_tokens@))
    }

    /// Inside a function body: one type scope per frame, and at least the module's and the
    /// function's.
    pub open spec fn in_body(&self) -> bool {
        self.local_decls.len() == self.scopes.len() && self.scopes.len() >= 2
    }

    /// Only the walk's state (and the types of scopes above the module's) may differ.
    pub open spec fn walk_only(&self, other: &Self) -> bool {
        &&& self.module == other.module
        &&& self.global_decls == other.global_decls
        &&& self.builtin_names == other.builtin_names
        &&& self.symbol_table == other.symbol_table
        &&& self.local_decls.len() == other.local_decls.len()
        &&& self.scopes.len() == other.scopes.len()
        &&& self.scopes@[0] == other.scopes@[0]
    }

    fn bind_local(&mut self, name: String, token_type: TokenType, modifiers: u32)
        requires
            old(self).local_decls.len() >= 1,
        ensures
            final(self).same_but_frames(old(self)),
            final(self).local_decls.len() == old(self).local_decls.len(),
            frames_view(final(self).local_decls@) == frames_view(old(self).local_decls@).update(
                old(self).local_decls.len() - 1,
                frames_view(old(self).local_decls@).last().insert(name@, (token_type, modifiers)),
            ),
    {
        let ghost before = self.local_decls@;
        let mut top = self.local_decls.pop().unwrap();
        let ghost t0 = top@;
        table_insert(&mut top, name, (token_type, modifiers));
        self.local_decls.push(top);
        assert(frames_view(self.local_decls@) =~= frames_view(before).update(
            before.len() - 1,
            frames_view(before).last().insert(name@, (token_type, modifiers)),
        ));
    }

    /// Everything but the local frames is the same.
    pub open spec fn same_but_frames(&self, other: &Self) -> bool {
        &&& self.module == other.module
        &&& self.raw_tokens == other.raw_tokens
        &&& self.global_decls == other.global_decls
        &&& self.builtin_names == other.builtin_names
        &&& self.scopes == other.scopes
        &&& self.symbol_table == other.symbol_table
    }

    fn push_scope(&mut self, parent_fn: Option<String>)
        ensures
            final(self).module == old(self).module,
            final(self).raw_tokens == old(self).raw_tokens,
            final(self).global_decls == old(self).global_decls,
            final(self).builtin_names == old(self).builtin_names,
            final(self).symbol_table == old(self).symbol_table,
            final(self).scopes@ == old(self).scopes@.push(final(self).scopes@.last()),
            frames_view(final(self).local_decls@) == frames_view(old(self).local_decls@).push(Map::empty()),
            final(self).local_decls.len() == old(self).local_decls.len() + 1,
    {
        let depth = self.scopes.len();
        self.scopes.push(ScopeContext::new(depth, parent_fn));
        let ghost before = self.local_decls@;
        let fresh: Vec<(String, (TokenType, u32))> = Vec::new();
        assert(table_map(fresh@) =~= Map::empty());
        self.local_decls.push(fresh);
        assert(frames_view(self.local_decls@) =~= frames_view(before).push(Map::empty()));
    }

    fn pop_scope(&mut self)
        requires
            old(self).scopes.len() > 1,
            old(self).local_decls.len() == old(self).scopes.len(),
        ensures
            final(self).module == old(self).module,
            final(self).raw_tokens == old(self).raw_tokens,
            final(self).global_decls == old(self).global_decls,
            final(self).builtin_names == old(self).builtin_names,
            final(self).symbol_table == old(self).symbol_table,
            final(self).scopes@ == old(self).scopes@.drop_last(),
            frames_view(final(self).local_decls@) == frames_view(old(self).local_decls@).drop_last(),
            final(self).local_decls.len() == old(self).local_decls.len() - 1,
    {
        let ghost before = self.local_decls@;
        self.scopes.pop();
        self.local_decls.pop();
        assert(frames_view(self.local_decls@) =~= frames_view(before).drop_last());
    }

    fn scan_pattern(&mut self, p: &Pattern)
        requires
            old(self).local_decls.len() >= 1,
        ensures
            final(self).module == old(self).module,
            final(self).global_decls == old(self).global_decls,
            final(self).builtin_names == old(self).builtin_names,
            final(self).symbol_table == old(self).symbol_table,
            final(self).scopes == old(self).scopes,
            final(self).local_decls.len() == old(self).local_decls.len(),
            ({
                let r = pattern_walk(frames_view(old(self).local_decls@).last(), *p);
                &&& frames_view(final(self).local_decls@) == frames_view(old(self).local_decls@).update(
                    old(self).local_decls.len() - 1,
                    r.0,
                )
                &&& raws_view(final(self).raw_tokens@) == raws_view(old(self).raw_tokens@) + r.1
            }),
        decreases p,
    {
        let ghost f0 = frames_view(self.local_decls@);
        let ghost t0 = raws_view(self.raw_tokens@);
        match p {
            Pattern::Ident { name, line, column } => {
                self.bind_local(name.clone(), TokenType::Variable, 0);
                let len = byte_len(name.as_str());
                self.push_raw(*line, *column, TokenType::Variable, TokenModifier::Declaration.to_u32(), len);
            },
            Pattern::Enum { variant_name, data, variant_line, variant_column } => {
                let len = byte_len(variant_name.as_str());
                self.push_raw(*variant_line, *variant_column, TokenType::EnumMember, 0, len);
                match data {
                    Some(sub) => self.scan_pattern(sub),
                    None => {
                        assert(frames_view(self.local_decls@) =~= f0.update(f0.len() - 1, f0.last()));
                    },
                }
            },
            Pattern::Struct { fields } => self.scan_patterns(fields),
            Pattern::Jozi(a, b) => {
                self.scan_pattern(a);
                let ghost f1 = frames_view(self.local_decls@);
                self.scan_pattern(b);
                assert(frames_view(self.local_decls@) =~= f0.update(f0.len() - 1, pattern_walk(f1.last(), **b).0));
            },
            _ => {
                assert(frames_view(self.local_decls@) =~= f0.update(f0.len() - 1, f0.last()));
                assert(raws_view(self.raw_tokens@) =~= t0 + Seq::empty());
            },
        }
    }

    fn scan_patterns(&mut self, fields: &Vec<(String, Pattern)>)
        requires
            old(self).local_decls.len() >= 1,
        ensures
            final(self).module == old(self).module,
            final(self).global_decls == old(self).global_decls,
            final(self).builtin_names == old(self).builtin_names,
            final(self).symbol_table == old(self).symbol_table,
            final(self).scopes == old(self).scopes,
            final(self).local_decls.len() == old(self).local_decls.len(),
            ({
                let r = patterns_walk(frames_view(old(self).local_decls@).last(), fields@);
                &&& frames_view(final(self).local_decls@) == frames_view(old(self).local_decls@).update(
                    old(self).local_decls.len() - 1,
                    r.0,
                )
                &&& raws_view(final(self).raw_tokens@) == raws_view(old(self).raw_tokens@) + r.1
            }),
        decreases fields@,
    {
        let ghost f0 = frames_view(self.local_decls@);
        let ghost t0 = raws_view(self.raw_tokens@);
        let ghost s0 = *self;
        let mut i: usize = 0;
        assert(f0 =~= f0.update(f0.len() - 1, f0.last()));
        while i < fields.len()
            invariant
                i <= fields.len(),
                self.module == s0.module,
                self.global_decls == s0.global_decls,
                self.builtin_names == s0.builtin_names,
                self.symbol_table == s0.symbol_table,
                self.scopes == s0.scopes,
                self.local_decls.len() == s0.local_decls.len(),
                s0.local_decls.len() >= 1,
                f0 == frames_view(s0.local_decls@),
                t0 == raws_view(s0.raw_tokens@),
                ({
                    let r = patterns_walk(f0.last(), fields@.subrange(0, i as int));
                    &&& frames_view(self.local_decls@) == f0.update(f0.len() - 1, r.0)
                    &&& raws_view(self.raw_tokens@) == t0 + r.1
                }),
            decreases fields.len() - i,
        {
            self.scan_pattern(&fields[i].1);
            assert(fields@.subrange(0, i + 1).drop_last() =~= fields@.subrange(0, i as int));
            assert(frames_view(self.local_decls@) =~= f0.update(
                f0.len() - 1,
                patterns_walk(f0.last(), fields@.subrange(0, i + 1)).0,
            ));
            i = i + 1;
        }
        assert(fields@.subrange(0, fields.len() as int) =~= fields@);
    }

    /// The type of `name` in the innermost scope that binds it.
    pub fn get_type_at(&self, _line: usize, _col: usize, name: &str) -> (r: Option<ValueType>)
        ensures
            r == scope_type(self.scopes@, name@, self.scopes@.len() as int),
    {
        let mut n = self.scopes.len();
        while n > 0
            invariant
                n <= self.scopes.len(),
                scope_type(self.scopes@, name@, self.scopes@.len() as int) == scope_type(self.scopes@, name@, n as int),
            decreases n,
        {
            match self.scopes[n - 1].get(name) {
                Some(t) => {
                    return Some(t.value_type.clone_type());
                },
                None => {},
            }
            n = n - 1;
        }
        None
    }

    fn infer_expr_type(&self, e: &Expr) -> (r: ValueType)
        ensures
            r == inferred_type(self.scopes@, *e),
        decreases e,
    {
        match e {
            Expr::Number => ValueType::Namba,
            Expr::Str => ValueType::Neno,
            Expr::Char => ValueType::Herufi,
            Expr::Bool => ValueType::Ukweli,
            Expr::Hamna => ValueType::Hamna,
            Expr::Ident { name, .. } => match self.get_type_at(0, 0, name.as_str()) {
                Some(t) => t,
                None => ValueType::Unknown,
            },
            Expr::ListLiteral(_) => ValueType::Orodha(Box::new(ValueType::Unknown)),
            Expr::MapLiteral(_) => ValueType::Kamusi(Box::new(ValueType::Unknown), Box::new(ValueType::Unknown)),
            Expr::Group(x) => self.infer_expr_type(x),
            _ => ValueType::Unknown,
        }
    }

    fn bind_type(&mut self, name: String, t: ValueType)
        requires
            old(self).scopes.len() >= 2,
        ensures
            final(self).module == old(self).module,
            final(self).raw_tokens == old(self).raw_tokens,
            final(self).global_decls == old(self).global_decls,
            final(self).builtin_names == old(self).builtin_names,
            final(self).symbol_table == old(self).symbol_table,
            final(self).local_decls == old(self).local_decls,
            final(self).scopes.len() == old(self).scopes.len(),
            final(self).scopes@[0] == old(self).scopes@[0],
            forall|k: int| 0 <= k < old(self).scopes@.len() - 1 ==> #[trigger] final(self).scopes@[k] == old(self).scopes@[k],
            final(self).scopes@.last().depth == old(self).scopes@.last().depth,
            final(self).scopes@.last().parent_fn == old(self).scopes@.last().parent_fn,
            final(self).scopes@.last().binding(name@) == Some(
                TypeInfo { value_type: t, scope_depth: old(self).scopes@.last().depth },
            ),
            forall|n: Seq<char>| n != name@ ==> #[trigger] final(self).scopes@.last().binding(n)
                == old(self).scopes@.last().binding(n),
    {
        let mut top = self.scopes.pop().unwrap();
        top.bind(name, t);
        self.scopes.push(top);
    }

    fn parent_fn(&self) -> (r: Option<String>)
        requires
            self.scopes.len() >= 1,
        ensures
            crate::commands::opt_view(r) == crate::commands::opt_view(self.scopes@.last().parent_fn),
    {
        match &self.scopes[self.scopes.len() - 1].parent_fn {
            Some(n) => Some(n.clone()),
            None => None,
        }
    }

    fn scan_block(&mut self, stmts: &Vec<Stmt>)
        requires
            old(self).in_body(),
        ensures
            final(self).in_body(),
            final(self).walk_only(old(self)),
            final(self).walk() == block_walk(old(self).fixed(), old(self).walk(), stmts@),
        decreases stmts@,
    {
        let ghost s0 = *self;
        let mut i: usize = 0;
        while i < stmts.len()
            invariant
                i <= stmts.len(),
                self.in_body(),
                self.walk_only(&s0),
                self.walk() == block_walk(s0.fixed(), s0.walk(), stmts@.subrange(0, i as int)),
            decreases stmts.len() - i,
        {
            self.scan_stmt(&stmts[i]);
            assert(stmts@.subrange(0, i + 1).drop_last() =~= stmts@.subrange(0, i as int));
            i = i + 1;
        }
        assert(stmts@.subrange(0, stmts.len() as int) =~= stmts@);
    }

    fn scan_else_ifs(&mut self, eis: &Vec<(Expr, Vec<Stmt>)>)
        requires
            old(self).in_body(),
        ensures
            final(self).in_body(),
            final(self).walk_only(old(self)),
            final(self).walk() == else_ifs_walk(old(self).fixed(), old(self).walk(), eis@),
        decreases eis@,
    {
        let ghost s0 = *self;
        let mut i: usize = 0;
        while i < eis.len()
            invariant
                i <= eis.len(),
                self.in_body(),
                self.walk_only(&s0),
                self.walk() == else_ifs_walk(s0.fixed(), s0.walk(), eis@.subrange(0, i as int)),
            decreases eis.len() - i,
        {
            self.scan_expr(&eis[i].0);
            {
                let p = self.parent_fn();
                self.push_scope(p);
                self.scan_block(&eis[i].1);
                self.pop_scope();
            }
            assert(eis@.subrange(0, i + 1).drop_last() =~= eis@.subrange(0, i as int));
            i = i + 1;
        }
        assert(eis@.subrange(0, eis.len() as int) =~= eis@);
    }

    fn scan_arms(&mut self, arms: &Vec<(Pattern, Vec<Stmt>)>)
        requires
            old(self).in_body(),
        ensures
            final(self).in_body(),
            final(self).walk_only(old(self)),
            final(self).walk() == arms_walk(old(self).fixed(), old(self).walk(), arms@),
        decreases arms@,
    {
        let ghost s0 = *self;
        let mut i: usize = 0;
        while i < arms.len()
            invariant
                i <= arms.len(),
                self.in_body(),
                self.walk_only(&s0),
                self.walk() == arms_walk(s0.fixed(), s0.walk(), arms@.subrange(0, i as int)),
            decreases arms.len() - i,
        {
            let p = self.parent_fn();
            let ghost w0 = self.walk();
            self.push_scope(p);
            assert(frames_view(self.local_decls@).last() == Map::<Seq<char>, (TokenType, u32)>::empty());
            self.scan_pattern(&arms[i].0);
            assert(frames_view(self.local_decls@) =~= w0.0.push(pattern_walk(Map::empty(), arms@[i as int].0).0));
            self.scan_block(&arms[i].1);
            self.pop_scope();
            assert(arms@.subrange(0, i + 1).drop_last() =~= arms@.subrange(0, i as int));
            i = i + 1;
        }
        assert(arms@.subrange(0, arms.len() as int) =~= arms@);
    }

    fn scan_stmt(&mut self, s: &Stmt)
        requires
            old(self).in_body(),
        ensures
            final(self).in_body(),
            final(self).walk_only(old(self)),
            final(self).walk() == stmt_walk(old(self).fixed(), old(self).walk(), *s),
        decreases s,
    {
        let ghost w0 = self.walk();
        match s {
            Stmt::Let { name, value, line, column, ty, mutable } => {
                self.scan_expr(value);
                let inferred = match ty {
                    Some(t) => type_expr_to_value_type(t.as_str()),
                    None => self.infer_expr_type(value),
                };
                self.bind_type(name.clone(), inferred);
                let modifiers: u32 = if *mutable { 0 } else { TokenModifier::Readonly.to_u32() };
                let declared: u32 = if *mutable { 1 } else { 3 };
                self.bind_local(name.clone(), TokenType::Variable, modifiers);
                let len = byte_len(name.as_str());
                self.push_raw(*line, *column, TokenType::Variable, declared, len);
            },
            Stmt::Assign { name, value, line, column } => {
                match self.resolve(name.as_str()) {
                    Some((t, m)) => {
                        let len = byte_len(name.as_str());
                        self.push_raw(*line, *column, t, m, len);
                    },
                    None => {
                        assert(raws_view(self.raw_tokens@) =~= w0.1 + Seq::empty());
                    },
                }
                self.scan_expr(value);
            },
            Stmt::If { cond, then_block, else_if, else_block } => {
                self.scan_expr(cond);
                {
                    let p = self.parent_fn();
                    self.push_scope(p);
                    self.scan_block(then_block);
                    self.pop_scope();
                }
                self.scan_else_ifs(else_if);
                match else_block {
                    Some(b) => {
                        let p = self.parent_fn();
                        self.push_scope(p);
                        self.scan_block(b);
                        self.pop_scope();
                    },
                    None => {},
                }
            },
            Stmt::While { cond, body } => {
                self.scan_expr(cond);
                {
                    let p = self.parent_fn();
                    self.push_scope(p);
                    self.scan_block(body);
                    self.pop_scope();
                }
            },
            Stmt::For { var, var_column, mode, body, line } => {
                let var_ty = match mode {
                    ForMode::InExpr(x) => match self.infer_expr_type(x) {
                        ValueType::Orodha(inner) => *inner,
                        ValueType::Kamusi(k, v) => ValueType::Jozi(k, v),
                        _ => ValueType::Unknown,
                    },
                    ForMode::Range { .. } => ValueType::Namba,
                };
                let p = self.parent_fn();
                self.push_scope(p);
                self.bind_type(var.clone(), var_ty);
                self.bind_local(var.clone(), TokenType::Variable, 0);
                assert(frames_view(self.local_decls@) =~= w0.0.push(
                    Map::empty().insert(var@, (TokenType::Variable, 0u32)),
                ));
                let len = byte_len(var.as_str());
                self.push_raw(*line, *var_column, TokenType::Variable, TokenModifier::Declaration.to_u32(), len);
                match mode {
                    ForMode::InExpr(x) => self.scan_expr(x),
                    ForMode::Range { start, end } => {
                        self.scan_expr(start);
                        self.scan_expr(end);
                    },
                }
                self.scan_block(body);
                self.pop_scope();
            },
            Stmt::Match { expr, arms } => {
                self.scan_expr(expr);
                self.scan_arms(arms);
            },
            Stmt::Return(Some(x)) => self.scan_expr(x),
            Stmt::ExprStmt(x) => self.scan_expr(x),
            _ => {},
        }
    }

    /// The kind recorded for each name.
    pub open spec fn kinds(&self) -> Map<Seq<char>, SymbolKind> {
        table_map(self.symbol_table@).map_values(|si: SymbolInfo| si.kind)
    }

    /// The state of an analyzer that has not run yet.
    pub open spec fn fresh(&self) -> bool {
        &&& self.raw_tokens@.len() == 0
        &&& self.global_decls@.len() == 0
        &&& self.symbol_table@.len() == 0
        &&& self.local_decls@.len() == 1
        &&& self.local_decls@[0]@.len() == 0
        &&& self.scopes@.len() == 1
        &&& self.scopes@[0].variables@.len() == 0
        &&& self.scopes@[0].depth == 0
    }

    /// An analyzer for a module, with the builtin function names of the runtime.
    pub fn new(module: SourceModule, builtin_names: Vec<String>) -> (r: SemanticAnalyzer)
        ensures
            r.fresh(),
            r.module == module,
            r.builtin_names == builtin_names,
    {
        let mut local_decls: Vec<Vec<(String, (TokenType, u32))>> = Vec::new();
        local_decls.push(Vec::new());
        let mut scopes: Vec<ScopeContext> = Vec::new();
        scopes.push(ScopeContext::new(0, None));
        SemanticAnalyzer {
            module,
            raw_tokens: Vec::new(),
            global_decls: Vec::new(),
            local_decls,
            builtin_names,
            scopes,
            symbol_table: Vec::new(),
        }
    }

    fn declare(&mut self, name: &String, t: TokenType, m: u32, kind: Option<SymbolKind>, type_info: Option<TypeInfo>, line: usize)
        ensures
            final(self).module == old(self).module,
            final(self).raw_tokens == old(self).raw_tokens,
            final(self).builtin_names == old(self).builtin_names,
            final(self).local_decls == old(self).local_decls,
            final(self).scopes == old(self).scopes,
            table_map(final(self).global_decls@) == table_map(old(self).global_decls@).insert(name@, (t, m)),
            final(self).kinds() == match kind {
                Some(k) => old(self).kinds().insert(name@, k),
                None => old(self).kinds(),
            },
    {
        table_insert(&mut self.global_decls, name.clone(), (t, m));
        match kind {
            Some(k) => {
                let ghost t0 = self.symbol_table@;
                let si = SymbolInfo { name: name.clone(), kind: k, type_info, declaration_line: line };
                let ghost gsi = si;
                table_insert(&mut self.symbol_table, name.clone(), si);
                assert(self.kinds() =~= table_map(t0).map_values(|si: SymbolInfo| si.kind).insert(name@, k));
            },
            None => {},
        }
    }

    fn declaration_token(&mut self, line: usize, column: usize, t: TokenType, m: u32, name: &String)
        ensures
            final(self).same_but_tokens(old(self)),
            raws_view(final(self).raw_tokens@) == raws_view(old(self).raw_tokens@) + decl_token(line, column, t, m, name@),
    {
        if line > 0 {
            let len = byte_len(name.as_str());
            self.push_raw(line, column, t, m, len);
        } else {
            assert(raws_view(self.raw_tokens@) =~= raws_view(self.raw_tokens@) + decl_token(line, column, t, m, name@));
        }
    }

    /// Whether the module scope binds exactly the module's constants, each to its written type.
    pub open spec fn constants_bound(&self) -> bool {
        &&& self.scopes@.len() >= 1
        &&& forall|n: Seq<char>| match const_type_text(self.module.constants@, n) {
            Some(ty) => #[trigger] self.scopes@[0].binding(n) matches Some(ti) && is_type_named(ty, ti.value_type) && ti.scope_depth == 0,
            None => self.scopes@[0].binding(n) is None,
        }
    }

    fn collect_declarations(&mut self)
        requires
            old(self).fresh(),
        ensures
            final(self).module == old(self).module,
            final(self).builtin_names == old(self).builtin_names,
            final(self).local_decls == old(self).local_decls,
            final(self).scopes@.len() == 1,
            final(self).scopes@[0].depth == 0,
            final(self).constants_bound(),
            table_map(final(self).global_decls@) == module_decls(final(self).module),
            final(self).kinds() == module_kinds(final(self).module),
            raws_view(final(self).raw_tokens@) == module_decl_tokens(final(self).module),
    {
        let ghost s0 = *self;
        assert(table_map(self.global_decls@) =~= Map::empty());
        assert(self.kinds() =~= Map::empty());
        assert(raws_view(self.raw_tokens@) =~= Seq::empty());
        let ghost g0 = table_map(self.global_decls@);
        let ghost k0 = self.kinds();
        let ghost t0 = raws_view(self.raw_tokens@);
        let mut i: usize = 0;
        while i < self.module.functions.len()
            invariant
                i <= self.module.functions.len(),
                self.module == s0.module,
                self.builtin_names == s0.builtin_names,
                self.local_decls == s0.local_decls,
                table_map(self.global_decls@) == insert_all(g0, fn_names(self.module).subrange(0, i as int), (TokenType::Function, 0u32)),
                self.kinds() == insert_all(k0, fn_names(self.module).subrange(0, i as int), SymbolKind::Function),
                raws_view(self.raw_tokens@) == t0 + fn_decl_tokens(self.module.functions@.subrange(0, i as int)),
                self.scopes == s0.scopes,
            decreases self.module.functions.len() - i,
        {
            let name = self.module.functions[i].name.clone();
            let line = self.module.functions[i].line;
            let column = self.module.functions[i].column;
            let ti = Some(TypeInfo { value_type: type_expr_to_value_type(self.module.functions[i].return_type.as_str()), scope_depth: 0 });
            self.declare(&name, TokenType::Function, 0, Some(SymbolKind::Function), ti, line);
            self.declaration_token(line, column, TokenType::Function, 1, &name);
            assert(fn_names(self.module).subrange(0, i + 1).drop_last() =~= fn_names(self.module).subrange(0, i as int));
            assert(fn_names(self.module).subrange(0, i + 1).last() == name@);
            assert(self.module.functions@.subrange(0, i + 1).drop_last() =~= self.module.functions@.subrange(0, i as int));
            i = i + 1;
        }
        assert(self.module.functions@.subrange(0, self.module.functions.len() as int) =~= self.module.functions@);
        assert(fn_names(self.module).subrange(0, self.module.functions.len() as int) =~= fn_names(self.module));
        let ghost g0 = table_map(self.global_decls@);
        let ghost k0 = self.kinds();
        let ghost t0 = raws_view(self.raw_tokens@);
        let mut i: usize = 0;
        while i < self.module.structs.len()
            invariant
                i <= self.module.structs.len(),
                self.module == s0.module,
                self.builtin_names == s0.builtin_names,
                self.local_decls == s0.local_decls,
                table_map(self.global_decls@) == insert_all(g0, struct_names(self.module).subrange(0, i as int), (TokenType::Type, 0u32)),
                self.kinds() == insert_all(k0, struct_names(self.module).subrange(0, i as int), SymbolKind::Struct),
                raws_view(self.raw_tokens@) == t0 + struct_decl_tokens(self.module.structs@.subrange(0, i as int)),
                self.scopes == s0.scopes,
            decreases self.module.structs.len() - i,
        {
            let name = self.module.structs[i].name.clone();
            let line = self.module.structs[i].line;
            let column = self.module.structs[i].column;
            let ti: Option<TypeInfo> = None;
            self.declare(&name, TokenType::Type, 0, Some(SymbolKind::Struct), ti, line);
            self.declaration_token(line, column, TokenType::Type, 1, &name);
            assert(struct_names(self.module).subrange(0, i + 1).drop_last() =~= struct_names(self.module).subrange(0, i as int));
            assert(struct_names(self.module).subrange(0, i + 1).last() == name@);
            assert(self.module.structs@.subrange(0, i + 1).drop_last() =~= self.module.structs@.subrange(0, i as int));
            i = i + 1;
        }
        assert(self.module.structs@.subrange(0, self.module.structs.len() as int) =~= self.module.structs@);
        assert(struct_names(self.module).subrange(0, self.module.structs.len() as int) =~= struct_names(self.module));
        let ghost g0 = table_map(self.global_decls@);
        let ghost k0 = self.kinds();
        let ghost t0 = raws_view(self.raw_tokens@);
        let mut i: usize = 0;
        while i < self.module.enums.len()
            invariant
                i <= self.module.enums.len(),
                self.module == s0.module,
                self.builtin_names == s0.builtin_names,
                self.local_decls == s0.local_decls,
                table_map(self.global_decls@) == insert_all(g0, enum_names(self.module).subrange(0, i as int), (TokenType::Type, 0u32)),
                self.kinds() == insert_all(k0, enum_names(self.module).subrange(0, i as int), SymbolKind::Struct),
                raws_view(self.raw_tokens@) == t0 + enum_decl_tokens(self.module.enums@.subrange(0, i as int)),
                self.scopes == s0.scopes,
            decreases self.module.enums.len() - i,
        {
            let name = self.module.enums[i].name.clone();
            let line = self.module.enums[i].line;
            let column = self.module.enums[i].column;
            let ti: Option<TypeInfo> = None;
            self.declare(&name, TokenType::Type, 0, Some(SymbolKind::Struct), ti, line);
            self.declaration_token(line, column, TokenType::Type, 1, &name);
            let ghost old_globals_i = self.global_decls;
            let ghost old_symbols_i = self.symbol_table;
            let ghost tv = raws_view(self.raw_tokens@);
            let mut j: usize = 0;
            while j < self.module.enums[i].variants.len()
                invariant
                    i < self.module.enums.len(),
                    j <= self.module.enums@[i as int].variants.len(),
                    self.module == s0.module,
                    self.builtin_names == s0.builtin_names,
                    self.local_decls == s0.local_decls,
                    self.scopes == s0.scopes,
                    self.global_decls == old_globals_i,
                    self.symbol_table == old_symbols_i,
                    raws_view(self.raw_tokens@) == tv + variant_tokens(self.module.enums@[i as int].variants@.subrange(0, j as int)),
                decreases self.module.enums@[i as int].variants.len() - j,
            {
                let vname = self.module.enums[i].variants[j].name.clone();
                let vl = self.module.enums[i].variants[j].line;
                let vc = self.module.enums[i].variants[j].column;
                self.declaration_token(vl, vc, TokenType::EnumMember, 1, &vname);
                assert(self.module.enums@[i as int].variants@.subrange(0, j + 1).drop_last() =~= self.module.enums@[i as int].variants@.subrange(0, j as int));
                j = j + 1;
            }
            assert(self.module.enums@[i as int].variants@.subrange(0, self.module.enums@[i as int].variants@.len() as int) =~= self.module.enums@[i as int].variants@);
            assert(enum_names(self.module).subrange(0, i + 1).drop_last() =~= enum_names(self.module).subrange(0, i as int));
            assert(enum_names(self.module).subrange(0, i + 1).last() == name@);
            assert(self.module.enums@.subrange(0, i + 1).drop_last() =~= self.module.enums@.subrange(0, i as int));
            i = i + 1;
        }
        assert(self.module.enums@.subrange(0, self.module.enums.len() as int) =~= self.module.enums@);
        assert(enum_names(self.module).subrange(0, self.module.enums.len() as int) =~= enum_names(self.module));
        let ghost g0 = table_map(self.global_decls@);
        let ghost k0 = self.kinds();
        let ghost t0 = raws_view(self.raw_tokens@);
        let mut i: usize = 0;
        while i < self.module.traits.len()
            invariant
                i <= self.module.traits.len(),
                self.module == s0.module,
                self.builtin_names == s0.builtin_names,
                self.local_decls == s0.local_decls,
                table_map(self.global_decls@) == insert_all(g0, trait_names(self.module).subrange(0, i as int), (TokenType::Type, 0u32)),
                self.kinds() == insert_all(k0, trait_names(self.module).subrange(0, i as int), SymbolKind::Trait),
                raws_view(self.raw_tokens@) == t0 + trait_decl_tokens(self.module.traits@.subrange(0, i as int)),
                self.scopes == s0.scopes,
            decreases self.module.traits.len() - i,
        {
            let name = self.module.traits[i].name.clone();
            let line = self.module.traits[i].line;
            let column = self.module.traits[i].column;
            let ti: Option<TypeInfo> = None;
            self.declare(&name, TokenType::Type, 0, Some(SymbolKind::Trait), ti, line);
            self.declaration_token(line, column, TokenType::Type, 1, &name);
            assert(trait_names(self.module).subrange(0, i + 1).drop_last() =~= trait_names(self.module).subrange(0, i as int));
            assert(trait_names(self.module).subrange(0, i + 1).last() == name@);
            assert(self.module.traits@.subrange(0, i + 1).drop_last() =~= self.module.traits@.subrange(0, i as int));
            i = i + 1;
        }
        assert(self.module.traits@.subrange(0, self.module.traits.len() as int) =~= self.module.traits@);
        assert(trait_names(self.module).subrange(0, self.module.traits.len() as int) =~= trait_names(self.module));
        proof {
            assert forall|n: Seq<char>| #[trigger] self.scopes@[0].binding(n) is None by {
                assert(self.scopes@[0].variables@.len() == 0);
            }
            assert forall|n: Seq<char>| #[trigger] const_type_text(self.module.constants@.subrange(0, 0), n) is None by {}
        }
        let ghost g0 = table_map(self.global_decls@);
        let ghost k0 = self.kinds();
        let ghost t0 = raws_view(self.raw_tokens@);
        let mut i: usize = 0;
        while i < self.module.constants.len()
            invariant
                i <= self.module.constants.len(),
                self.module == s0.module,
                self.builtin_names == s0.builtin_names,
                self.local_decls == s0.local_decls,
                table_map(self.global_decls@) == insert_all(g0, const_names(self.module).subrange(0, i as int), (TokenType::Variable, 2u32)),
                self.kinds() == k0,
                raws_view(self.raw_tokens@) == t0 + const_decl_tokens(self.module.constants@.subrange(0, i as int)),
                self.scopes@.len() == 1,
                self.scopes@[0].depth == 0,
                forall|n: Seq<char>| match const_type_text(self.module.constants@.subrange(0, i as int), n) {
                    Some(ty) => #[trigger] self.scopes@[0].binding(n) matches Some(ti) && is_type_named(ty, ti.value_type) && ti.scope_depth == 0,
                    None => self.scopes@[0].binding(n) is None,
                },
            decreases self.module.constants.len() - i,
        {
            let name = self.module.constants[i].name.clone();
            let line = self.module.constants[i].line;
            let column = self.module.constants[i].column;
            let ti: Option<TypeInfo> = None;
            self.declare(&name, TokenType::Variable, 2, None, ti, line);
            self.declaration_token(line, column, TokenType::Variable, 3, &name);
            let t = type_expr_to_value_type(self.module.constants[i].ty.as_str());
            let mut sc = self.scopes.pop().unwrap();
            let ghost sc0 = sc;
            sc.bind(name.clone(), t);
            self.scopes.push(sc);
            proof {
                let cs = self.module.constants@.subrange(0, i + 1);
                assert(cs.drop_last() =~= self.module.constants@.subrange(0, i as int));
                assert forall|n: Seq<char>| #[trigger] const_type_text(cs, n) == if n == name@ {
                    Some(self.module.constants@[i as int].ty@)
                } else {
                    const_type_text(self.module.constants@.subrange(0, i as int), n)
                } by {}
            }
            assert(const_names(self.module).subrange(0, i + 1).drop_last() =~= const_names(self.module).subrange(0, i as int));
            assert(const_names(self.module).subrange(0, i + 1).last() == name@);
            assert(self.module.constants@.subrange(0, i + 1).drop_last() =~= self.module.constants@.subrange(0, i as int));
            i = i + 1;
        }
        assert(self.module.constants@.subrange(0, self.module.constants.len() as int) =~= self.module.constants@);
        assert(const_names(self.module).subrange(0, self.module.constants.len() as int) =~= const_names(self.module));
        assert(raws_view(self.raw_tokens@) =~= module_decl_tokens(self.module));
    }

    fn scan_function(&mut self, f: &FnDef)
        requires
            old(self).local_decls.len() == old(self).scopes.len(),
            old(self).scopes.len() >= 1,
        ensures
            final(self).walk_only(old(self)),
            final(self).walk() == fn_walk(old(self).fixed(), old(self).walk(), *f),
    {
        let ghost s0 = *self;
        self.push_scope(Some(f.name.clone()));
        let ghost w1 = self.walk();
        let mut i: usize = 0;
        while i < f.params.len()
            invariant
                i <= f.params.len(),
                self.in_body(),
                self.scopes@.len() == s0.scopes@.len() + 1,
                self.scopes@[0] == s0.scopes@[0],
                self.module == s0.module,
                self.global_decls == s0.global_decls,
                self.builtin_names == s0.builtin_names,
                self.symbol_table == s0.symbol_table,
                self.walk() == params_walk(w1, f.params@.subrange(0, i as int)),
            decreases f.params.len() - i,
        {
            let p = &f.params[i];
            self.bind_type(p.name.clone(), type_expr_to_value_type(p.ty.as_str()));
            self.bind_local(p.name.clone(), TokenType::Parameter, 0);
            let len = byte_len(p.name.as_str());
            self.push_raw(p.line, p.column, TokenType::Parameter, TokenModifier::Declaration.to_u32(), len);
            assert(f.params@.subrange(0, i + 1).drop_last() =~= f.params@.subrange(0, i as int));
            i = i + 1;
        }
        assert(f.params@.subrange(0, f.params.len() as int) =~= f.params@);
        self.scan_block(&f.body);
        self.pop_scope();
    }

    fn take_module(&mut self) -> (r: SourceModule)
        ensures
            r == old(self).module,
            final(self).raw_tokens == old(self).raw_tokens,
            final(self).global_decls == old(self).global_decls,
            final(self).local_decls == old(self).local_decls,
            final(self).builtin_names == old(self).builtin_names,
            final(self).scopes == old(self).scopes,
            final(self).symbol_table == old(self).symbol_table,
    {
        let mut m = SourceModule {
            functions: Vec::new(),
            structs: Vec::new(),
            enums: Vec::new(),
            traits: Vec::new(),
            constants: Vec::new(),
        };
        std::mem::swap(&mut m, &mut self.module);
        m
    }

    fn collect_tokens(&mut self)
        requires
            old(self).local_decls.len() == 1,
            old(self).scopes.len() == 1,
        ensures
            final(self).module == old(self).module,
            final(self).global_decls == old(self).global_decls,
            final(self).builtin_names == old(self).builtin_names,
            final(self).symbol_table == old(self).symbol_table,
            final(self).scopes@.len() == 1,
            final(self).scopes@[0] == old(self).scopes@[0],
            final(self).walk() == fns_walk(old(self).fixed(), old(self).walk(), old(self).module.functions@),
    {
        let ghost s0 = *self;
        let module = self.take_module();
        let mut i: usize = 0;
        while i < module.functions.len()
            invariant
                i <= module.functions.len(),
                module == s0.module,
                self.local_decls.len() == 1,
                self.scopes.len() == 1,
                self.scopes@[0] == s0.scopes@[0],
                self.global_decls == s0.global_decls,
                self.builtin_names == s0.builtin_names,
                self.symbol_table == s0.symbol_table,
                self.walk() == fns_walk(s0.fixed(), s0.walk(), module.functions@.subrange(0, i as int)),
            decreases module.functions.len() - i,
        {
            self.scan_function(&module.functions[i]);
            assert(module.functions@.subrange(0, i + 1).drop_last() =~= module.functions@.subrange(0, i as int));
            i = i + 1;
        }
        assert(module.functions@.subrange(0, module.functions.len() as int) =~= module.functions@);
        self.module = module;
    }

    /// Record the module's declarations, walk every function body, and return the tokens
    /// sorted into document order and delta-encoded.
    pub fn analyze(&mut self) -> (r: Vec<SemanticTokenData>)
        requires
            old(self).fresh(),
        ensures
            final(self).module == old(self).module,
            final(self).builtin_names == old(self).builtin_names,
            final(self).kinds() == module_kinds(old(self).module),
            final(self).constants_bound(),
            final(self).scopes@.len() == 1,
            r@.map_values(|d: SemanticTokenData| data_view(d)) == encoded(
                sorted_tokens(analysis_tokens(old(self).module, views(old(self).builtin_names@))),
            ),
    {
        self.collect_declarations();
        assert(frames_view(self.local_decls@) =~= seq![Map::<Seq<char>, (TokenType, u32)>::empty()]) by {
            assert(table_map(self.local_decls@[0]@) =~= Map::empty());
        }
        self.collect_tokens();
        let sorted = sort_tokens(&self.raw_tokens);
        encode_tokens(&sorted)
    }

    /// What hovering over `name` shows: for a recorded function, struct or trait, its
    /// declaration (the first of that name; none when no such declaration exists, as for an
    /// enum, recorded as a struct); otherwise a variable's type from the innermost scope that
    /// binds it.
    pub fn get_hover_info(&self, name: &str) -> (r: Option<HoverInfo>)
        ensures
            self.kinds().contains_key(name@) ==> match self.kinds()[name@] {
                SymbolKind::Function => match first_fn(self.module.functions@, name@, 0) {
                    Some(k) => r matches Some(h) && fn_hover(self.module.functions@[k], h),
                    None => r is None,
                },
                SymbolKind::Struct => match first_struct(self.module.structs@, name@, 0) {
                    Some(k) => r matches Some(h) && struct_hover(self.module.structs@[k], h),
                    None => r is None,
                },
                SymbolKind::Trait => if first_trait(self.module.traits@, name@, 0) is Some {
                    r matches Some(HoverInfo::Trait { name: n, methods }) && n@ == name@ && methods@.len() == 0
                } else {
                    r is None
                },
                _ => r is None,
            },
            !self.kinds().contains_key(name@) ==> match scope_type(self.scopes@, name@, self.scopes@.len() as int) {
                Some(t) => r matches Some(HoverInfo::Variable { name: n, type_ }) && n@ == name@ && type_ == t,
                None => r is None,
            },
    {
        match table_get(&self.symbol_table, name) {
            Some(symbol) => {
                assert(self.kinds().contains_key(name@));
                assert(self.kinds()[name@] == symbol.kind);
                match symbol.kind {
                    SymbolKind::Function => match find_fn(&self.module.functions, name) {
                        Some(k) => {
                            let h = function_hover(&self.module.functions[k]);
                            Some(h)
                        },
                        None => None,
                    },
                    SymbolKind::Struct => match find_struct(&self.module.structs, name) {
                        Some(k) => {
                            let h = structure_hover(&self.module.structs[k]);
                            Some(h)
                        },
                        None => None,
                    },
                    SymbolKind::Trait => if find_trait(&self.module.traits, name) {
                        let n = name.to_string();
                        let methods: Vec<crate::hover::MethodSig> = Vec::new();
                        assert(methods@.len() == 0);
                        Some(HoverInfo::Trait { name: n, methods })
                    } else {
                        None
                    },
                    _ => None,
                }
            },
            None => {
                assert(!self.kinds().contains_key(name@));
                match self.get_type_at(0, 0, name) {
                    Some(t) => Some(HoverInfo::Variable { name: name.to_string(), type_: t }),
                    None => None,
                }
            },
        }
    }
}

/// The words hover describes as keywords.
pub open spec fn hover_keywords() -> Seq<Seq<char>> {
    seq![
        "leta"@, "kazi"@, "umbo"@, "sifa"@, "shughuli"@, "ya"@, "weka"@, "thabiti"@, "rejesha"@,
        "ikiwa"@, "vinginevyo"@, "kwa"@, "wakati"@, "linganisha"@, "vunja"@, "endelea"@, "lebo"@,
        "tupa"@, "jaribu"@, "kama"@, "azima"@, "azima_tenda"@, "umma"@, "katika"@, "kutoka"@,
        "au_ikiwa"@, "chapisha"@, "paparika"@,
    ]
}

fn hover_keyword_list() -> (r: Vec<&'static str>)
    ensures
        r@.map_values(|w: &str| w@) == hover_keywords(),
{
    let r = vec![
        "leta", "kazi", "umbo", "sifa", "shughuli", "ya", "weka", "thabiti", "rejesha", "ikiwa",
        "vinginevyo", "kwa", "wakati", "linganisha", "vunja", "endelea", "lebo", "tupa", "jaribu",
        "kama", "azima", "azima_tenda", "umma", "katika", "kutoka", "au_ikiwa", "chapisha",
        "paparika",
    ];
    assert(r@.map_values(|w: &str| w@) =~= hover_keywords());
    r
}

fn is_hover_keyword(w: &str) -> (r: bool)
    ensures
        r == hover_keywords().contains(w@),
{
    let list = hover_keyword_list();
    let ghost lv = list@.map_values(|x: &str| x@);
    let mut i: usize = 0;
    while i < list.len()
        invariant
            i <= list.len(),
            lv == list@.map_values(|x: &str| x@),
            lv == hover_keywords(),
            forall|j: int| 0 <= j < i ==> lv[j] != w@,
        decreases list.len() - i,
    {
        if crate::text::str_is(w, list[i]) {
            assert(lv[i as int] == w@);
            return true;
        }
        i = i + 1;
    }
    false
}

/// The hover text for a word that names nothing the analysis recorded: a function of that name
/// shown by name alone, else a plain identifier.
pub open spec fn fallback_hover(m: SourceModule, w: Seq<char>) -> Seq<char> {
    if first_fn(m.functions@, w, 0) is Some {
        "**Function:** `"@ + w + "`"@
    } else {
        "**Identifier:** `"@ + w + "`"@
    }
}

/// Whether `text` is what hovering over the word `w` of module `m` shows: a keyword as such;
/// a recorded function, struct or trait by its declaration; a constant with its type; else the
/// fallback.
pub open spec fn hover_text(m: SourceModule, w: Seq<char>, text: Seq<char>) -> bool {
    if hover_keywords().contains(w) {
        text == "**Keyword:** `"@ + w + "`"@
    } else if module_kinds(m).contains_key(w) {
        match module_kinds(m)[w] {
            SymbolKind::Function => match first_fn(m.functions@, w, 0) {
                Some(k) => exists|h: HoverInfo| fn_hover(m.functions@[k], h) && text == render_spec(h),
                None => text == fallback_hover(m, w),
            },
            SymbolKind::Struct => match first_struct(m.structs@, w, 0) {
                Some(k) => exists|h: HoverInfo| struct_hover(m.structs@[k], h) && text == render_spec(h),
                None => text == fallback_hover(m, w),
            },
            SymbolKind::Trait => if first_trait(m.traits@, w, 0) is Some {
                text == "**Trait:** `sifa "@ + w + "`"@
            } else {
                text == fallback_hover(m, w)
            },
            _ => text == fallback_hover(m, w),
        }
    } else {
        match const_type_text(m.constants@, w) {
            Some(ty) => exists|t: ValueType| is_type_named(ty, t) && text == "**Variable:** `"@ + w + ": "@
                + crate::types::type_text(t) + "`"@,
            None => text == fallback_hover(m, w),
        }
    }
}

/// The hover for the 0-based cursor position: the text for the word under it and that word's
/// span (`None` when no token is there). The module is analyzed first, with the runtime's
/// builtin function names.
pub fn compute_hover(
    tokens: &[Token],
    module: SourceModule,
    builtin_names: Vec<String>,
    line_0: u32,
    character_0: u32,
) -> (r: Option<(String, Span)>)
    requires
        forall|k: int| 0 <= k < tokens@.len() ==> (#[trigger] tokens@[k]).column + utf8_len(tokens@[k].lexeme@)
            <= usize::MAX,
    ensures
        match first_under_cursor(tokens@, line_0 + 1, character_0 + 1, 0) {
            None => r is None,
            Some(k) => r matches Some((text, span)) && hover_text(module, tokens@[k].lexeme@, text@)
                && span.line == line_0 && span.start == (if tokens@[k].column >= 1 {
                tokens@[k].column - 1
            } else {
                0
            }) && span.end == span.start + utf8_len(tokens@[k].lexeme@),
        },
{
    let ghost m = module;
    let mut analyzer = SemanticAnalyzer::new(module, builtin_names);
    let _data = analyzer.analyze();
    proof {
        crate::navigation::lemma_first_under_cursor_bounds(tokens@, line_0 + 1, character_0 + 1, 0);
    }
    let line_1 = line_0 as u64 + 1;
    let col_1 = character_0 as u64 + 1;
    let mut i: usize = 0;
    while i < tokens.len()
        invariant
            i <= tokens.len(),
            line_1 == line_0 + 1,
            col_1 == character_0 + 1,
            first_under_cursor(tokens@, line_0 + 1, character_0 + 1, 0) == first_under_cursor(
                tokens@,
                line_0 + 1,
                character_0 + 1,
                i as int,
            ),
            analyzer.kinds() == module_kinds(analyzer.module),
            analyzer.constants_bound(),
            analyzer.scopes@.len() == 1,
            analyzer.module == m,
            m == module,
            forall|k: int| 0 <= k < tokens@.len() ==> (#[trigger] tokens@[k]).column + utf8_len(tokens@[k].lexeme@)
                <= usize::MAX,
        decreases tokens.len() - i,
    {
        let t = &tokens[i];
        let w_len = byte_len(t.lexeme.as_str());
        if t.line as u64 == line_1 && t.column as u64 <= col_1 && col_1 - t.column as u64 <= w_len as u64 {
            assert(first_under_cursor(tokens@, line_0 + 1, character_0 + 1, i as int) == Some(i as int));
            let lex = t.lexeme.as_str();
            let text = hover_content(&analyzer, lex);
            let start = if t.column >= 1 { t.column - 1 } else { 0 };
            let len = byte_len(lex);
            return Some((text, Span { line: line_0 as usize, start, end: start + len }));
        }
        i = i + 1;
    }
    None
}

fn hover_content(a: &SemanticAnalyzer, lex: &str) -> (r: String)
    requires
        a.kinds() == module_kinds(a.module),
        a.constants_bound(),
        a.scopes@.len() == 1,
    ensures
        hover_text(a.module, lex@, r@),
{
    let ghost m = a.module;
    let ghost w = lex@;
    if is_hover_keyword(lex) {
        return crate::hover::format_keyword_hover(lex);
    }
    proof {
        assert(scope_type(a.scopes@, w, 1) == match a.scopes@[0].binding(w) {
            Some(t) => Some(t.value_type),
            None => scope_type(a.scopes@, w, 0),
        });
    }
    let fallback = if find_fn(&a.module.functions, lex).is_some() {
        crate::text::concat3("**Function:** `", chars_of(lex).as_slice(), "`")
    } else {
        crate::hover::format_identifier_hover(lex)
    };
    assert(fallback@ == fallback_hover(m, w));
    match a.get_hover_info(lex) {
        Some(h) => {
            match h {
                HoverInfo::Trait { .. } => crate::hover::format_trait_hover(lex),
                _ => {
                    let text = h.render();
                    proof {
                        if module_kinds(m).contains_key(w) {
                            match module_kinds(m)[w] {
                                SymbolKind::Function => {
                                    let k = first_fn(m.functions@, w, 0)->0;
                                    assert(fn_hover(m.functions@[k], h) && text@ == render_spec(h));
                                },
                                SymbolKind::Struct => {
                                    let k = first_struct(m.structs@, w, 0)->0;
                                    assert(struct_hover(m.structs@[k], h) && text@ == render_spec(h));
                                },
                                _ => {},
                            }
                        } else {
                            let ty = const_type_text(m.constants@, w)->0;
                            let ti = a.scopes@[0].binding(w)->0;
                            assert(is_type_named(ty, ti.value_type) && text@ == "**Variable:** `"@ + w + ": "@
                                + crate::types::type_text(ti.value_type) + "`"@);
                        }
                    }
                    text
                },
            }
        },
        None => fallback,
    }
}

/// The semantic tokens of a module: its analysis, sorted and delta-encoded.
pub fn analyze_semantic_tokens(module: SourceModule, builtin_names: Vec<String>) -> (r: Vec<SemanticTokenData>)
    ensures
        r@.map_values(|d: SemanticTokenData| data_view(d)) == encoded(
            sorted_tokens(analysis_tokens(module, views(builtin_names@))),
        ),
{
    let mut analyzer = SemanticAnalyzer::new(module, builtin_names);
    analyzer.analyze()
}

} // verus!
