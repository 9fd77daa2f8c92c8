//! Go-to-definition, references and workspace symbols over a document's tokens and the
//! declarations of its parsed module.

use vstd::prelude::*;
use crate::analyzer::{byte_len, utf8_len};
use crate::format::Token;
use crate::outline::{ConstDecl, EnumDecl, FnDecl, ModuleOutline, StructDecl, TraitDecl};
use crate::outline_symbols::{line0, zero_based, OutlineKind};
use crate::symbols::{first_under_cursor, span_of, span_view, under_cursor, Span};
use crate::text::{chars_eq, chars_of, contains_text, lowercase_of, to_lowercase};

verus! {

/// The line of the first function named `w`, from index `i` on.
pub open spec fn fn_line(fs: Seq<FnDecl>, w: Seq<char>, i: int) -> Option<usize>
    decreases fs.len() - i,
{
    if i < 0 || i >= fs.len() {
        None
    } else if fs[i].name@ == w {
        Some(fs[i].line)
    } else {
        fn_line(fs, w, i + 1)
    }
}

pub open spec fn struct_line(ss: Seq<StructDecl>, w: Seq<char>, i: int) -> Option<usize>
    decreases ss.len() - i,
{
    if i < 0 || i >= ss.len() {
        None
    } else if ss[i].name@ == w {
        Some(ss[i].line)
    } else {
        struct_line(ss, w, i + 1)
    }
}

pub open spec fn trait_line(ts: Seq<TraitDecl>, w: Seq<char>, i: int) -> Option<usize>
    decreases ts.len() - i,
{
    if i < 0 || i >= ts.len() {
        None
    } else if ts[i].name@ == w {
        Some(ts[i].line)
    } else {
        trait_line(ts, w, i + 1)
    }
}

pub open spec fn enum_line(es: Seq<EnumDecl>, w: Seq<char>, i: int) -> Option<usize>
    decreases es.len() - i,
{
    if i < 0 || i >= es.len() {
        None
    } else if es[i].name@ == w {
        Some(es[i].line)
    } else {
        enum_line(es, w, i + 1)
    }
}

pub open spec fn const_line(cs: Seq<ConstDecl>, w: Seq<char>, i: int) -> Option<usize>
    decreases cs.len() - i,
{
    if i < 0 || i >= cs.len() {
        None
    } else if cs[i].name@ == w {
        Some(cs[i].line)
    } else {
        const_line(cs, w, i + 1)
    }
}

proof fn lemma_fn_line(xs: Seq<FnDecl>, w: Seq<char>, i: int)
    requires
        0 <= i <= xs.len(),
    ensures
        (forall|j: int| i <= j < xs.len() ==> (#[trigger] xs[j]).name@ != w) ==> fn_line(xs, w, i) is None,
        forall|k: int|
            i <= k < xs.len() && (#[trigger] xs[k]).name@ == w && (forall|j: int| i <= j < k ==> xs[j].name@ != w)
                ==> fn_line(xs, w, i) == Some(xs[k].line),
    decreases xs.len() - i,
{
    if i < xs.len() {
        lemma_fn_line(xs, w, i + 1);
    }
}

proof fn lemma_struct_line(xs: Seq<StructDecl>, w: Seq<char>, i: int)
    requires
        0 <= i <= xs.len(),
    ensures
        (forall|j: int| i <= j < xs.len() ==> (#[trigger] xs[j]).name@ != w) ==> struct_line(xs, w, i) is None,
        forall|k: int|
            i <= k < xs.len() && (#[trigger] xs[k]).name@ == w && (forall|j: int| i <= j < k ==> xs[j].name@ != w)
                ==> struct_line(xs, w, i) == Some(xs[k].line),
    decreases xs.len() - i,
{
    if i < xs.len() {
        lemma_struct_line(xs, w, i + 1);
    }
}

proof fn lemma_trait_line(xs: Seq<TraitDecl>, w: Seq<char>, i: int)
    requires
        0 <= i <= xs.len(),
    ensures
        (forall|j: int| i <= j < xs.len() ==> (#[trigger] xs[j]).name@ != w) ==> trait_line(xs, w, i) is None,
        forall|k: int|
            i <= k < xs.len() && (#[trigger] xs[k]).name@ == w && (forall|j: int| i <= j < k ==> xs[j].name@ != w)
                ==> trait_line(xs, w, i) == Some(xs[k].line),
    decreases xs.len() - i,
{
    if i < xs.len() {
        lemma_trait_line(xs, w, i + 1);
    }
}

proof fn lemma_enum_line(xs: Seq<EnumDecl>, w: Seq<char>, i: int)
    requires
        0 <= i <= xs.len(),
    ensures
        (forall|j: int| i <= j < xs.len() ==> (#[trigger] xs[j]).name@ != w) ==> enum_line(xs, w, i) is None,
        forall|k: int|
            i <= k < xs.len() && (#[trigger] xs[k]).name@ == w && (forall|j: int| i <= j < k ==> xs[j].name@ != w)
                ==> enum_line(xs, w, i) == Some(xs[k].line),
    decreases xs.len() - i,
{
    if i < xs.len() {
        lemma_enum_line(xs, w, i + 1);
    }
}

proof fn lemma_const_line(xs: Seq<ConstDecl>, w: Seq<char>, i: int)
    requires
        0 <= i <= xs.len(),
    ensures
        (forall|j: int| i <= j < xs.len() ==> (#[trigger] xs[j]).name@ != w) ==> const_line(xs, w, i) is None,
        forall|k: int|
            i <= k < xs.len() && (#[trigger] xs[k]).name@ == w && (forall|j: int| i <= j < k ==> xs[j].name@ != w)
                ==> const_line(xs, w, i) == Some(xs[k].line),
    decreases xs.len() - i,
{
    if i < xs.len() {
        lemma_const_line(xs, w, i + 1);
    }
}

/// The 1-based line where `w` is declared at module level: the first function of that name,
/// else struct, trait, enum, constant.
pub open spec fn declaration_line(m: ModuleOutline, w: Seq<char>) -> Option<usize> {
    match fn_line(m.functions@, w, 0) {
        Some(l) => Some(l),
        None => match struct_line(m.structs@, w, 0) {
            Some(l) => Some(l),
            None => match trait_line(m.traits@, w, 0) {
                Some(l) => Some(l),
                None => match enum_line(m.enums@, w, 0) {
                    Some(l) => Some(l),
                    None => const_line(m.constants@, w, 0),
                },
            },
        },
    }
}

/// Whether no item of the list is named `w`.
pub open spec fn none_named<T>(xs: Seq<T>, name_of: spec_fn(T) -> Seq<char>, w: Seq<char>) -> bool {
    forall|j: int| 0 <= j < xs.len() ==> name_of(#[trigger] xs[j]) != w
}

/// Item `k` is the first of the list named `w`.
pub open spec fn first_named<T>(xs: Seq<T>, name_of: spec_fn(T) -> Seq<char>, w: Seq<char>, k: int) -> bool {
    0 <= k < xs.len() && name_of(xs[k]) == w && forall|j: int| 0 <= j < k ==> name_of(#[trigger] xs[j]) != w
}

/// Go-to-definition finds every kind of module-level declaration: the line of the first
/// function named `w`; when no function is, of the first struct; then trait, enum, constant;
/// and nothing when no declaration has that name.
pub proof fn law_declaration_line(m: ModuleOutline, w: Seq<char>)
    ensures
        ({
            let fns = m.functions@;
            let sts = m.structs@;
            let trs = m.traits@;
            let ens = m.enums@;
            let cns = m.constants@;
            let nf = |f: FnDecl| f.name@;
            let ns = |x: StructDecl| x.name@;
            let nt = |x: TraitDecl| x.name@;
            let ne = |x: EnumDecl| x.name@;
            let nc = |x: ConstDecl| x.name@;
            &&& forall|k: int| #[trigger] first_named(fns, nf, w, k) ==> declaration_line(m, w) == Some(fns[k].line)
            &&& forall|k: int| none_named(fns, nf, w) && #[trigger] first_named(sts, ns, w, k)
                ==> declaration_line(m, w) == Some(sts[k].line)
            &&& forall|k: int| none_named(fns, nf, w) && none_named(sts, ns, w) && #[trigger] first_named(trs, nt, w, k)
                ==> declaration_line(m, w) == Some(trs[k].line)
            &&& forall|k: int| none_named(fns, nf, w) && none_named(sts, ns, w) && none_named(trs, nt, w)
                && #[trigger] first_named(ens, ne, w, k) ==> declaration_line(m, w) == Some(ens[k].line)
            &&& forall|k: int| none_named(fns, nf, w) && none_named(sts, ns, w) && none_named(trs, nt, w)
                && none_named(ens, ne, w) && #[trigger] first_named(cns, nc, w, k) ==> declaration_line(m, w)
                == Some(cns[k].line)
            &&& none_named(fns, nf, w) && none_named(sts, ns, w) && none_named(trs, nt, w) && none_named(ens, ne, w)
                && none_named(cns, nc, w) ==> declaration_line(m, w) is None
        }),
{
    lemma_fn_line(m.functions@, w, 0);
    lemma_struct_line(m.structs@, w, 0);
    lemma_trait_line(m.traits@, w, 0);
    lemma_enum_line(m.enums@, w, 0);
    lemma_const_line(m.constants@, w, 0);
}

fn find_fn_line(fs: &Vec<FnDecl>, w: &Vec<char>) -> (r: Option<usize>)
    ensures
        r == fn_line(fs@, w@, 0),
{
    let mut i: usize = 0;
    while i < fs.len()
        invariant
            i <= fs.len(),
            fn_line(fs@, w@, 0) == fn_line(fs@, w@, i as int),
        decreases fs.len() - i,
    {
        if chars_eq(chars_of(fs[i].name.as_str()).as_slice(), w.as_slice()) {
            return Some(fs[i].line);
        }
        i = i + 1;
    }
    None
}

fn find_struct_line(ss: &Vec<StructDecl>, w: &Vec<char>) -> (r: Option<usize>)
    ensures
        r == struct_line(ss@, w@, 0),
{
    let mut i: usize = 0;
    while i < ss.len()
        invariant
            i <= ss.len(),
            struct_line(ss@, w@, 0) == struct_line(ss@, w@, i as int),
        decreases ss.len() - i,
    {
        if chars_eq(chars_of(ss[i].name.as_str()).as_slice(), w.as_slice()) {
            return Some(ss[i].line);
        }
        i = i + 1;
    }
    None
}

fn find_trait_line(ts: &Vec<TraitDecl>, w: &Vec<char>) -> (r: Option<usize>)
    ensures
        r == trait_line(ts@, w@, 0),
{
    let mut i: usize = 0;
    while i < ts.len()
        invariant
            i <= ts.len(),
            trait_line(ts@, w@, 0) == trait_line(ts@, w@, i as int),
        decreases ts.len() - i,
    {
        if chars_eq(chars_of(ts[i].name.as_str()).as_slice(), w.as_slice()) {
            return Some(ts[i].line);
        }
        i = i + 1;
    }
    None
}

fn find_enum_line(es: &Vec<EnumDecl>, w: &Vec<char>) -> (r: Option<usize>)
    ensures
        r == enum_line(es@, w@, 0),
{
    let mut i: usize = 0;
    while i < es.len()
        invariant
            i <= es.len(),
            enum_line(es@, w@, 0) == enum_line(es@, w@, i as int),
        decreases es.len() - i,
    {
        if chars_eq(chars_of(es[i].name.as_str()).as_slice(), w.as_slice()) {
            return Some(es[i].line);
        }
        i = i + 1;
    }
    None
}

fn find_const_line(cs: &Vec<ConstDecl>, w: &Vec<char>) -> (r: Option<usize>)
    ensures
        r == const_line(cs@, w@, 0),
{
    let mut i: usize = 0;
    while i < cs.len()
        invariant
            i <= cs.len(),
            const_line(cs@, w@, 0) == const_line(cs@, w@, i as int),
        decreases cs.len() - i,
    {
        if chars_eq(chars_of(cs[i].name.as_str()).as_slice(), w.as_slice()) {
            return Some(cs[i].line);
        }
        i = i + 1;
    }
    None
}

/// The 1-based line of the module-level declaration of `word`, if any.
pub fn find_declaration_line(module: &ModuleOutline, word: &Vec<char>) -> (r: Option<usize>)
    ensures
        r == declaration_line(*module, word@),
{
    match find_fn_line(&module.functions, word) {
        Some(l) => Some(l),
        None => match find_struct_line(&module.structs, word) {
            Some(l) => Some(l),
            None => match find_trait_line(&module.traits, word) {
                Some(l) => Some(l),
                None => match find_enum_line(&module.enums, word) {
                    Some(l) => Some(l),
                    None => find_const_line(&module.constants, word),
                },
            },
        },
    }
}

pub proof fn lemma_first_under_cursor_bounds(toks: Seq<Token>, l: int, c: int, i: int)
    requires
        0 <= i,
    ensures
        first_under_cursor(toks, l, c, i) matches Some(k) ==> i <= k < toks.len(),
    decreases toks.len() - i,
{
    if i < toks.len() && !under_cursor(toks[i], l, c) {
        lemma_first_under_cursor_bounds(toks, l, c, i + 1);
    }
}

fn token_under_cursor(tokens: &[Token], line_0: u32, char_0: u32) -> (r: Option<usize>)
    ensures
        match first_under_cursor(tokens@, line_0 + 1, char_0 + 1, 0) {
            None => r is None,
            Some(k) => r matches Some(j) && j == k && k < tokens@.len(),
        },
{
    proof {
        lemma_first_under_cursor_bounds(tokens@, line_0 + 1, char_0 + 1, 0);
    }
    let line_1 = line_0 as u64 + 1;
    let col_1 = char_0 as u64 + 1;
    let mut i: usize = 0;
    while i < tokens.len()
        invariant
            i <= tokens.len(),
            line_1 == line_0 + 1,
            col_1 == char_0 + 1,
            first_under_cursor(tokens@, line_0 + 1, char_0 + 1, 0) == first_under_cursor(
                tokens@,
                line_0 + 1,
                char_0 + 1,
                i as int,
            ),
        decreases tokens.len() - i,
    {
        let t = &tokens[i];
        let w_len = byte_len(t.lexeme.as_str());
        if t.line as u64 == line_1 && t.column as u64 <= col_1 && col_1 - t.column as u64
            <= w_len as u64 {
            return Some(i);
        }
        i = i + 1;
    }
    None
}

/// The 0-based line of the declaration of the word under the 0-based cursor, when the token
/// there names a module-level declaration.
pub fn goto_definition(tokens: &[Token], module: &ModuleOutline, line_0: u32, char_0: u32) -> (r:
    Option<usize>)
    ensures
        match first_under_cursor(tokens@, line_0 + 1, char_0 + 1, 0) {
            None => r is None,
            Some(k) => match declaration_line(*module, tokens@[k].lexeme@) {
                Some(l) => r == Some(line0(l)),
                None => r is None,
            },
        },
{
    match token_under_cursor(tokens, line_0, char_0) {
        None => None,
        Some(k) => {
            let w = chars_of(tokens[k].lexeme.as_str());
            match find_declaration_line(module, &w) {
                Some(l) => Some(zero_based(l)),
                None => None,
            }
        },
    }
}

/// The token under the 0-based cursor with its span.
pub fn word_at_range(tokens: &[Token], line_0: u32, char_0: u32) -> (r: Option<(String, Span)>)
    requires
        forall|k: int| 0 <= k < tokens@.len() ==> (#[trigger] tokens@[k]).column + utf8_len(tokens@[k].lexeme@)
            <= usize::MAX,
    ensures
        match first_under_cursor(tokens@, line_0 + 1, char_0 + 1, 0) {
            None => r is None,
            Some(k) => r matches Some((w, s)) && w@ == tokens@[k].lexeme@ && span_view(s) == span_of(
                tokens@[k],
                utf8_len(tokens@[k].lexeme@) as int,
            ),
        },
{
    match token_under_cursor(tokens, line_0, char_0) {
        None => None,
        Some(k) => {
            let t = &tokens[k];
            let wl = byte_len(t.lexeme.as_str());
            let l = if t.line > 0 {
                t.line - 1
            } else {
                0
            };
            let sc = if t.column > 0 {
                t.column - 1
            } else {
                0
            };
            Some((t.lexeme.clone(), Span { line: l, start: sc, end: sc + wl }))
        },
    }
}

/// Spans of the tokens in `toks[..i]` whose lexeme is `word`, leaving out those on line
/// `skip_line` when one is given.
pub open spec fn reference_spans(toks: Seq<Token>, word: Seq<char>, skip_line: Option<usize>, i: int) -> Seq<
    (int, int, int),
>
    decreases i,
{
    if i <= 0 || i > toks.len() {
        Seq::empty()
    } else {
        let rest = reference_spans(toks, word, skip_line, i - 1);
        if toks[i - 1].lexeme@ == word && skip_line != Some(toks[i - 1].line) {
            rest.push(span_of(toks[i - 1], utf8_len(word) as int))
        } else {
            rest
        }
    }
}

fn spans_of(tokens: &[Token], word: &Vec<char>, skip_line: Option<usize>) -> (r: Vec<Span>)
    requires
        forall|k: int| 0 <= k < tokens@.len() ==> (#[trigger] tokens@[k]).column + utf8_len(word@)
            <= usize::MAX,
    ensures
        r@.map_values(|s: Span| span_view(s)) == reference_spans(
            tokens@,
            word@,
            skip_line,
            tokens@.len() as int,
        ),
{
    let wl = byte_len(crate::text::string_of(word.as_slice()).as_str());
    let mut out: Vec<Span> = Vec::new();
    let mut i: usize = 0;
    assert(out@.map_values(|s: Span| span_view(s)) =~= Seq::<(int, int, int)>::empty());
    while i < tokens.len()
        invariant
            i <= tokens.len(),
            wl == utf8_len(word@),
            forall|k: int| 0 <= k < tokens@.len() ==> (#[trigger] tokens@[k]).column + utf8_len(word@)
                <= usize::MAX,
            out@.map_values(|s: Span| span_view(s)) == reference_spans(tokens@, word@, skip_line, i as int),
        decreases tokens.len() - i,
    {
        let t = &tokens[i];
        let lex = chars_of(t.lexeme.as_str());
        let ghost before = out@.map_values(|s: Span| span_view(s));
        let keep = match skip_line {
            Some(l) => l != t.line,
            None => true,
        };
        if chars_eq(lex.as_slice(), word.as_slice()) && keep {
            let l = if t.line > 0 {
                t.line - 1
            } else {
                0
            };
            let sc = if t.column > 0 {
                t.column - 1
            } else {
                0
            };
            out.push(Span { line: l, start: sc, end: sc + wl });
            assert(out@.map_values(|s: Span| span_view(s)) =~= before.push(
                span_of(tokens@[i as int], utf8_len(word@) as int),
            ));
        }
        i = i + 1;
    }
    out
}

/// Every occurrence of the word under the 0-based cursor; without `include_declaration`, the
/// occurrences on the line of its module-level declaration are left out (when the module
/// parsed, `Some`). No word under the cursor gives no occurrences.
pub fn find_references(
    tokens: &[Token],
    module: &Option<ModuleOutline>,
    line_0: u32,
    char_0: u32,
    include_declaration: bool,
) -> (r: Vec<Span>)
    requires
        forall|k: int, j: int|
            0 <= k < tokens@.len() && 0 <= j < tokens@.len() ==> (#[trigger] tokens@[k]).column
                + utf8_len((#[trigger] tokens@[j]).lexeme@) <= usize::MAX,
    ensures
        match first_under_cursor(tokens@, line_0 + 1, char_0 + 1, 0) {
            None => r@.len() == 0,
            Some(k) => {
                let w = tokens@[k].lexeme@;
                let skip = if include_declaration {
                    None
                } else {
                    match *module {
                        Some(m) => declaration_line(m, w),
                        None => None,
                    }
                };
                r@.map_values(|s: Span| span_view(s)) == reference_spans(tokens@, w, skip, tokens@.len() as int)
            },
        },
{
    match token_under_cursor(tokens, line_0, char_0) {
        None => Vec::new(),
        Some(k) => {
            let w = chars_of(tokens[k].lexeme.as_str());
            let skip = if include_declaration {
                None
            } else {
                match module {
                    Some(m) => find_declaration_line(m, &w),
                    None => None,
                }
            };
            assert forall|i: int| 0 <= i < tokens@.len() implies (#[trigger] tokens@[i]).column + utf8_len(w@)
                <= usize::MAX by {
                assert(tokens@[i].column + utf8_len(tokens@[k as int].lexeme@) <= usize::MAX);
            }
            spans_of(tokens, &w, skip)
        },
    }
}

/// Every token occurrence of `word` in a file (the cross-file part of a references search).
pub fn find_references_in(word: &str, tokens: &[Token]) -> (r: Vec<Span>)
    requires
        forall|k: int| 0 <= k < tokens@.len() ==> (#[trigger] tokens@[k]).column + utf8_len(word@)
            <= usize::MAX,
    ensures
        r@.map_values(|s: Span| span_view(s)) == reference_spans(
            tokens@,
            word@,
            None,
            tokens@.len() as int,
        ),
{
    let w = chars_of(word);
    spans_of(tokens, &w, None)
}

/// Whether `word` names a public function, struct, trait or enum of the module, or any of its
/// constants (constants have no visibility).
pub open spec fn exported(m: ModuleOutline, word: Seq<char>) -> bool {
    ||| exists|i: int| 0 <= i < m.functions@.len() && #[trigger] m.functions@[i].name@ == word && m.functions@[i].is_public
    ||| exists|i: int| 0 <= i < m.structs@.len() && #[trigger] m.structs@[i].name@ == word && m.structs@[i].is_public
    ||| exists|i: int| 0 <= i < m.traits@.len() && #[trigger] m.traits@[i].name@ == word && m.traits@[i].is_public
    ||| exists|i: int| 0 <= i < m.enums@.len() && #[trigger] m.enums@[i].name@ == word && m.enums@[i].is_public
    ||| exists|i: int| 0 <= i < m.constants@.len() && #[trigger] m.constants@[i].name@ == word
}

/// Whether a references search for `word` should look beyond this module.
pub fn is_exported_declaration(module: &ModuleOutline, word: &str) -> (r: bool)
    ensures
        r == exported(*module, word@),
{
    let w = chars_of(word);
    let mut i: usize = 0;
    while i < module.functions.len()
        invariant
            i <= module.functions.len(),
            w@ == word@,
            forall|j: int| 0 <= j < i ==> !(#[trigger] module.functions@[j].name@ == word@ && module.functions@[j].is_public),
        decreases module.functions.len() - i,
    {
        if module.functions[i].is_public && chars_eq(chars_of(module.functions[i].name.as_str()).as_slice(), w.as_slice()) {
            return true;
        }
        i = i + 1;
    }
    let mut i: usize = 0;
    while i < module.structs.len()
        invariant
            i <= module.structs.len(),
            w@ == word@,
            forall|j: int| 0 <= j < i ==> !(#[trigger] module.structs@[j].name@ == word@ && module.structs@[j].is_public),
        decreases module.structs.len() - i,
    {
        if module.structs[i].is_public && chars_eq(chars_of(module.structs[i].name.as_str()).as_slice(), w.as_slice()) {
            return true;
        }
        i = i + 1;
    }
    let mut i: usize = 0;
    while i < module.traits.len()
        invariant
            i <= module.traits.len(),
            w@ == word@,
            forall|j: int| 0 <= j < i ==> !(#[trigger] module.traits@[j].name@ == word@ && module.traits@[j].is_public),
        decreases module.traits.len() - i,
    {
        if module.traits[i].is_public && chars_eq(chars_of(module.traits[i].name.as_str()).as_slice(), w.as_slice()) {
            return true;
        }
        i = i + 1;
    }
    let mut i: usize = 0;
    while i < module.enums.len()
        invariant
            i <= module.enums.len(),
            w@ == word@,
            forall|j: int| 0 <= j < i ==> !(#[trigger] module.enums@[j].name@ == word@ && module.enums@[j].is_public),
        decreases module.enums.len() - i,
    {
        if module.enums[i].is_public && chars_eq(chars_of(module.enums[i].name.as_str()).as_slice(), w.as_slice()) {
            return true;
        }
        i = i + 1;
    }
    let mut i: usize = 0;
    while i < module.constants.len()
        invariant
            i <= module.constants.len(),
            w@ == word@,
            forall|j: int| 0 <= j < i ==> !(#[trigger] module.constants@[j].name@ == word@),
        decreases module.constants.len() - i,
    {
        if chars_eq(chars_of(module.constants[i].name.as_str()).as_slice(), w.as_slice()) {
            return true;
        }
        i = i + 1;
    }
    false
}

/// A declaration found by a workspace symbol search: name, kind, document and 0-based line.
#[derive(Clone, Debug)]
pub struct WorkspaceSymbol {
    pub name: String,
    pub kind: OutlineKind,
    pub uri: String,
    pub line: usize,
}

pub type WorkspaceSymbolView = (Seq<char>, OutlineKind, Seq<char>, usize);

pub open spec fn workspace_symbol_view(s: WorkspaceSymbol) -> WorkspaceSymbolView {
    (s.name@, s.kind, s.uri@, s.line)
}

pub open spec fn workspace_symbols_view(v: Seq<WorkspaceSymbol>) -> Seq<WorkspaceSymbolView> {
    v.map_values(|s: WorkspaceSymbol| workspace_symbol_view(s))
}

/// Whether a name answers a (lowercase) query: the query is empty or occurs in the name's
/// lowercase form.
pub open spec fn answers(q: Seq<char>, name: Seq<char>) -> bool {
    q.len() == 0 || contains_text(lowercase_of(name), q)
}

/// The symbols for `(name, line)` pairs that answer `q`, in order.
pub open spec fn picked(nl: Seq<(Seq<char>, usize)>, kind: OutlineKind, uri: Seq<char>, q: Seq<char>) -> Seq<
    WorkspaceSymbolView,
>
    decreases nl.len(),
{
    if nl.len() == 0 {
        Seq::empty()
    } else {
        let rest = picked(nl.drop_last(), kind, uri, q);
        if answers(q, nl.last().0) {
            rest.push((nl.last().0, kind, uri, line0(nl.last().1)))
        } else {
            rest
        }
    }
}

/// A module's declarations answering `q`: functions, structs, traits, enums, then constants.
pub open spec fn module_symbols(m: ModuleOutline, uri: Seq<char>, q: Seq<char>) -> Seq<WorkspaceSymbolView> {
    picked(m.functions@.map_values(|f: FnDecl| (f.name@, f.line)), OutlineKind::Function, uri, q)
        + picked(m.structs@.map_values(|s: StructDecl| (s.name@, s.line)), OutlineKind::Struct, uri, q)
        + picked(m.traits@.map_values(|t: TraitDecl| (t.name@, t.line)), OutlineKind::Interface, uri, q)
        + picked(m.enums@.map_values(|e: EnumDecl| (e.name@, e.line)), OutlineKind::Enum, uri, q)
        + picked(m.constants@.map_values(|c: ConstDecl| (c.name@, c.line)), OutlineKind::Constant, uri, q)
}

fn push_if_answers(
    out: &mut Vec<WorkspaceSymbol>,
    name: &String,
    kind: OutlineKind,
    uri: &String,
    line: usize,
    q: &Vec<char>,
)
    ensures
        workspace_symbols_view(final(out)@) == workspace_symbols_view(old(out)@) + if answers(q@, name@) {
            seq![(name@, kind, uri@, line0(line))]
        } else {
            Seq::<WorkspaceSymbolView>::empty()
        },
{
    let ok = if q.len() == 0 {
        true
    } else {
        let low = chars_of(to_lowercase(name.as_str()).as_str());
        crate::text::text_contains(&low, crate::text::string_of(q.as_slice()).as_str())
    };
    let ghost before = out@;
    if ok {
        out.push(WorkspaceSymbol { name: name.clone(), kind, uri: uri.clone(), line: zero_based(line) });
        assert(workspace_symbols_view(out@) =~= workspace_symbols_view(before).push(
            workspace_symbol_view(out@.last()),
        ));
    } else {
        assert(workspace_symbols_view(out@) =~= workspace_symbols_view(before));
    }
}

/// Add the module's declarations whose name answers the lowercase query `q`, located at `uri`.
pub fn push_module_symbols(module: &ModuleOutline, uri: &String, q: &Vec<char>, out: &mut Vec<WorkspaceSymbol>)
    ensures
        workspace_symbols_view(final(out)@) == workspace_symbols_view(old(out)@) + module_symbols(
            *module,
            uri@,
            q@,
        ),
{
    let ghost qs = q@;
    let ghost start = workspace_symbols_view(out@);
    let ghost sf = workspace_symbols_view(out@);
    let ghost pf = |d: FnDecl| (d.name@, d.line);
    let mut i: usize = 0;
    while i < module.functions.len()
        invariant
            i <= module.functions.len(),
            q@ == qs,
            pf == (|d: FnDecl| (d.name@, d.line)),
            workspace_symbols_view(out@) == sf + picked(
                module.functions@.subrange(0, i as int).map_values(pf),
                OutlineKind::Function,
                uri@,
                qs,
            ),
        decreases module.functions.len() - i,
    {
        push_if_answers(out, &module.functions[i].name, OutlineKind::Function, uri, module.functions[i].line, q);
        assert(module.functions@.subrange(0, i + 1).map_values(pf).drop_last() =~= module.functions@.subrange(
            0,
            i as int,
        ).map_values(pf));
        i = i + 1;
    }
    assert(module.functions@.subrange(0, module.functions.len() as int) =~= module.functions@);
    let ghost ss = workspace_symbols_view(out@);
    let ghost ps = |d: StructDecl| (d.name@, d.line);
    let mut i: usize = 0;
    while i < module.structs.len()
        invariant
            i <= module.structs.len(),
            q@ == qs,
            ps == (|d: StructDecl| (d.name@, d.line)),
            workspace_symbols_view(out@) == ss + picked(
                module.structs@.subrange(0, i as int).map_values(ps),
                OutlineKind::Struct,
                uri@,
                qs,
            ),
        decreases module.structs.len() - i,
    {
        push_if_answers(out, &module.structs[i].name, OutlineKind::Struct, uri, module.structs[i].line, q);
        assert(module.structs@.subrange(0, i + 1).map_values(ps).drop_last() =~= module.structs@.subrange(
            0,
            i as int,
        ).map_values(ps));
        i = i + 1;
    }
    assert(module.structs@.subrange(0, module.structs.len() as int) =~= module.structs@);
    let ghost st = workspace_symbols_view(out@);
    let ghost pt = |d: TraitDecl| (d.name@, d.line);
    let mut i: usize = 0;
    while i < module.traits.len()
        invariant
            i <= module.traits.len(),
            q@ == qs,
            pt == (|d: TraitDecl| (d.name@, d.line)),
            workspace_symbols_view(out@) == st + picked(
                module.traits@.subrange(0, i as int).map_values(pt),
                OutlineKind::Interface,
                uri@,
                qs,
            ),
        decreases module.traits.len() - i,
    {
        push_if_answers(out, &module.traits[i].name, OutlineKind::Interface, uri, module.traits[i].line, q);
        assert(module.traits@.subrange(0, i + 1).map_values(pt).drop_last() =~= module.traits@.subrange(
            0,
            i as int,
        ).map_values(pt));
        i = i + 1;
    }
    assert(module.traits@.subrange(0, module.traits.len() as int) =~= module.traits@);
    let ghost se = workspace_symbols_view(out@);
    let ghost pe = |d: EnumDecl| (d.name@, d.line);
    let mut i: usize = 0;
    while i < module.enums.len()
        invariant
            i <= module.enums.len(),
            q@ == qs,
            pe == (|d: EnumDecl| (d.name@, d.line)),
            workspace_symbols_view(out@) == se + picked(
                module.enums@.subrange(0, i as int).map_values(pe),
                OutlineKind::Enum,
                uri@,
                qs,
            ),
        decreases module.enums.len() - i,
    {
        push_if_answers(out, &module.enums[i].name, OutlineKind::Enum, uri, module.enums[i].line, q);
        assert(module.enums@.subrange(0, i + 1).map_values(pe).drop_last() =~= module.enums@.subrange(
            0,
            i as int,
        ).map_values(pe));
        i = i + 1;
    }
    assert(module.enums@.subrange(0, module.enums.len() as int) =~= module.enums@);
    let ghost sc = workspace_symbols_view(out@);
    let ghost pc = |d: ConstDecl| (d.name@, d.line);
    let mut i: usize = 0;
    while i < module.constants.len()
        invariant
            i <= module.constants.len(),
            q@ == qs,
            pc == (|d: ConstDecl| (d.name@, d.line)),
            workspace_symbols_view(out@) == sc + picked(
                module.constants@.subrange(0, i as int).map_values(pc),
                OutlineKind::Constant,
                uri@,
                qs,
            ),
        decreases module.constants.len() - i,
    {
        push_if_answers(out, &module.constants[i].name, OutlineKind::Constant, uri, module.constants[i].line, q);
        assert(module.constants@.subrange(0, i + 1).map_values(pc).drop_last() =~= module.constants@.subrange(
            0,
            i as int,
        ).map_values(pc));
        i = i + 1;
    }
    assert(module.constants@.subrange(0, module.constants.len() as int) =~= module.constants@);
    assert(workspace_symbols_view(out@) =~= start + module_symbols(*module, uri@, q@));
}

/// The declarations answering `query` (case-insensitively) across parsed documents, given as
/// `(uri, module)` pairs, in document order.
pub fn workspace_symbols(docs: &Vec<(String, ModuleOutline)>, query: &str) -> (r: Vec<WorkspaceSymbol>)
    ensures
        workspace_symbols_view(r@) == docs_symbols(docs@, lowercase_of(query@)),
{
    let q = chars_of(to_lowercase(query).as_str());
    let mut out: Vec<WorkspaceSymbol> = Vec::new();
    let mut i: usize = 0;
    assert(workspace_symbols_view(out@) =~= Seq::<WorkspaceSymbolView>::empty());
    while i < docs.len()
        invariant
            i <= docs.len(),
            q@ == lowercase_of(query@),
            workspace_symbols_view(out@) == docs_symbols(docs@.subrange(0, i as int), q@),
        decreases docs.len() - i,
    {
        push_module_symbols(&docs[i].1, &docs[i].0, &q, &mut out);
        assert(docs@.subrange(0, i + 1).drop_last() =~= docs@.subrange(0, i as int));
        i = i + 1;
    }
    assert(docs@.subrange(0, docs.len() as int) =~= docs@);
    out
}

/// The symbols of each document in turn.
pub open spec fn docs_symbols(docs: Seq<(String, ModuleOutline)>, q: Seq<char>) -> Seq<WorkspaceSymbolView>
    decreases docs.len(),
{
    if docs.len() == 0 {
        Seq::empty()
    } else {
        docs_symbols(docs.drop_last(), q) + module_symbols(docs.last().1, docs.last().0@, q)
    }
}

} // verus!
