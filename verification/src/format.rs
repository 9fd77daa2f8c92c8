//! Canonical source formatting for Asili code.
//!
//! Token-stream driven: the lexer's tokens (lexeme and source line) and its comment trivia
//! (text and the index of the token each comment follows) are re-emitted with layout rules
//! driven by token kind and brace nesting depth. Punctuation hugs its neighbour, `(`/`[` hug a
//! call or index target, `<`/`>` around a type argument list hug their contents, `{` opens an
//! indented block, and the author's own line breaks between statements are kept (with at most
//! one blank line preserved between them).

use vstd::prelude::*;
use crate::text::{
    all_whitespace, char_is_alphabetic, char_is_uppercase, char_is_whitespace, chars_of, eq_lit,
    is_alphabetic, is_uppercase, is_whitespace, matches_at, push_all, slice_vec, starts_with,
};

verus! {

/// One lexer token: its lexeme (string literals already decoded, char literals folded into a
/// `CHAR:<c>` lexeme) and the 1-based source line and column it starts at.
#[derive(Clone, Debug)]
pub struct Token {
    pub lexeme: String,
    pub line: usize,
    pub column: usize,
}

/// One comment trivia item: its full text (including the `#` or `//` marker) and the index of
/// the token it follows (`None` for comments before the first token).
#[derive(Clone, Debug)]
pub struct Comment {
    pub text: String,
    pub after_token_index: Option<usize>,
}

// ---------------------------------------------------------------------------------------------
// Lexeme rendering
// ---------------------------------------------------------------------------------------------

/// The escaped form of one decoded string-literal character.
pub open spec fn escape_char(c: char) -> Seq<char> {
    if c == '\n' {
        seq!['\\', 'n']
    } else if c == '\t' {
        seq!['\\', 't']
    } else if c == '"' {
        seq!['\\', '"']
    } else if c == '\\' {
        seq!['\\', '\\']
    } else {
        seq![c]
    }
}

/// The escaped form of a decoded string literal's contents.
pub open spec fn escape_string(s: Seq<char>) -> Seq<char>
    decreases s.len(),
{
    if s.len() == 0 {
        Seq::empty()
    } else {
        escape_char(s[0]) + escape_string(s.drop_first())
    }
}

proof fn lemma_escape_push(s: Seq<char>, c: char)
    ensures
        escape_string(s.push(c)) == escape_string(s) + escape_char(c),
    decreases s.len(),
{
    if s.len() == 0 {
        assert(s.push(c).drop_first() =~= Seq::<char>::empty());
        assert(escape_string(Seq::<char>::empty()) =~= Seq::<char>::empty());
        assert(escape_char(c) + Seq::<char>::empty() =~= escape_char(c));
    } else {
        lemma_escape_push(s.drop_first(), c);
        assert(s.push(c).drop_first() =~= s.drop_first().push(c));
        assert(escape_char(s[0]) + (escape_string(s.drop_first()) + escape_char(c)) =~= (
        escape_char(s[0]) + escape_string(s.drop_first())) + escape_char(c));
    }
}

/// The character a backslash escape `\<c>` stands for in a string literal.
pub open spec fn unescape_char(c: char) -> char {
    if c == 'n' {
        '\n'
    } else if c == 't' {
        '\t'
    } else {
        c
    }
}

/// Decodes string-literal contents the way the lexer does: `\n`, `\t`, `\"` and `\\`
/// stand for newline, tab, quote and backslash.
pub open spec fn unescape_string(s: Seq<char>) -> Seq<char>
    decreases s.len(),
{
    if s.len() == 0 {
        Seq::empty()
    } else if s[0] == '\\' && s.len() >= 2 {
        seq![unescape_char(s[1])] + unescape_string(s.skip(2))
    } else {
        seq![s[0]] + unescape_string(s.drop_first())
    }
}

/// Law: re-escaping a decoded string literal round-trips: decoding the printed contents gives
/// back exactly the decoded contents the lexer produced.
pub proof fn law_escape_round_trip(s: Seq<char>)
    ensures
        unescape_string(escape_string(s)) == s,
    decreases s.len(),
{
    if s.len() > 0 {
        law_escape_round_trip(s.drop_first());
        let c = s[0];
        let rest = escape_string(s.drop_first());
        let e = escape_char(c) + rest;
        if escape_char(c).len() == 2 {
            assert(e[0] == '\\');
            assert(e.skip(2) =~= rest);
            assert(unescape_char(e[1]) == c);
        } else {
            assert(e.drop_first() =~= rest);
        }
        assert(seq![c] + s.drop_first() =~= s);
    }
}

/// Law: the printed form of a string-literal lexeme decodes back to the lexeme it was printed
/// from.
pub proof fn law_render_string_literal_round_trip(lex: Seq<char>)
    requires
        lex.len() >= 2,
        lex[0] == '"',
        lex.last() == '"',
        !starts_with(lex, char_prefix()),
    ensures
        ({
            let r = render_spec(lex);
            &&& r.len() >= 2 && r[0] == '"' && r.last() == '"'
            &&& seq!['"'] + unescape_string(r.subrange(1, r.len() - 1)) + seq!['"'] == lex
        }),
{
    let inner = lex.subrange(1, lex.len() - 1);
    let r = render_spec(lex);
    assert(r == seq!['"'] + escape_string(inner) + seq!['"']);
    assert(r.subrange(1, r.len() - 1) =~= escape_string(inner));
    law_escape_round_trip(inner);
    assert(seq!['"'] + inner + seq!['"'] =~= lex);
}

/// The source form of a char literal holding `c`.
pub open spec fn char_literal(c: char) -> Seq<char> {
    if c == '\n' {
        seq!['\'', '\\', 'n', '\'']
    } else if c == '\t' {
        seq!['\'', '\\', 't', '\'']
    } else if c == '\'' {
        seq!['\'', '\\', '\'', '\'']
    } else if c == '\\' {
        seq!['\'', '\\', '\\', '\'']
    } else {
        seq!['\'', c, '\'']
    }
}

pub open spec fn char_prefix() -> Seq<char> {
    seq!['C', 'H', 'A', 'R', ':']
}

/// The source syntax a lexeme came from: a folded `CHAR:<c>` lexeme becomes the char literal
/// `'<c>'` (`'\0'` when nothing follows the prefix), a decoded string literal `"..."` gets its
/// newline, tab, quote and backslash characters escaped again, and every other lexeme prints
/// as it is.
pub open spec fn render_spec(lex: Seq<char>) -> Seq<char> {
    if starts_with(lex, char_prefix()) {
        char_literal(if lex.len() > 5 { lex[5] } else { '\0' })
    } else if lex.len() >= 2 && lex[0] == '"' && lex.last() == '"' {
        seq!['"'] + escape_string(lex.subrange(1, lex.len() - 1)) + seq!['"']
    } else {
        lex
    }
}

fn is_special_string_char(c: char) -> (r: bool)
    ensures
        r == (escape_char(c) != seq![c]),
{
    let r = c == '\n' || c == '\t' || c == '"' || c == '\\';
    assert(r ==> escape_char(c).len() == 2);
    r
}

proof fn lemma_escape_identity(s: Seq<char>)
    requires
        forall|i: int| 0 <= i < s.len() ==> escape_char(#[trigger] s[i]) == seq![s[i]],
    ensures
        escape_string(s) == s,
    decreases s.len(),
{
    if s.len() > 0 {
        assert forall|i: int| 0 <= i < s.drop_first().len() implies escape_char(
            #[trigger] s.drop_first()[i],
        ) == seq![s.drop_first()[i]] by {
            assert(s.drop_first()[i] == s[i + 1]);
        }
        lemma_escape_identity(s.drop_first());
        assert(escape_char(s[0]) == seq![s[0]]);
        assert(seq![s[0]] + s.drop_first() =~= s);
    }
}

fn render_char_literal(c: char) -> (r: Vec<char>)
    ensures
        r@ == char_literal(c),
{
    let mut r: Vec<char> = Vec::new();
    r.push('\'');
    if c == '\n' {
        r.push('\\');
        r.push('n');
    } else if c == '\t' {
        r.push('\\');
        r.push('t');
    } else if c == '\'' {
        r.push('\\');
        r.push('\'');
    } else if c == '\\' {
        r.push('\\');
        r.push('\\');
    } else {
        r.push(c);
    }
    r.push('\'');
    assert(r@ =~= char_literal(c));
    r
}

/// Converts a lexeme back into the source syntax it came from (see `render_spec`).
pub fn render_lexeme(lex: &Vec<char>) -> (r: Vec<char>)
    ensures
        r@ == render_spec(lex@),
{
    let prefix: Vec<char> = vec!['C', 'H', 'A', 'R', ':'];
    assert(prefix@ =~= char_prefix());
    if matches_at(lex, 0, &prefix) {
        assert(lex@.subrange(0, 5) == char_prefix());
        let c = if lex.len() > 5 {
            lex[5]
        } else {
            '\0'
        };
        return render_char_literal(c);
    }
    assert(!starts_with(lex@, char_prefix()));
    let n = lex.len();
    if n >= 2 && lex[0] == '"' && lex[n - 1] == '"' {
        let ghost inner = lex@.subrange(1, n - 1);
        let mut special = false;
        let mut i: usize = 1;
        while i < n - 1
            invariant
                n == lex.len(),
                n >= 2,
                1 <= i <= n - 1,
                inner == lex@.subrange(1, n - 1),
                special == exists|j: int| 1 <= j < i && escape_char(#[trigger] lex@[j]) != seq![lex@[j]],
            decreases n - 1 - i,
        {
            if is_special_string_char(lex[i]) {
                special = true;
            }
            i = i + 1;
        }
        if !special {
            assert forall|j: int| 0 <= j < inner.len() implies escape_char(#[trigger] inner[j])
                == seq![inner[j]] by {
                assert(inner[j] == lex@[j + 1]);
                if escape_char(lex@[j + 1]) != seq![lex@[j + 1]] {
                    assert(1 <= j + 1 < i);
                }
            }
            proof {
                lemma_escape_identity(inner);
            }
            assert(seq!['"'] + inner + seq!['"'] =~= lex@);
            return slice_vec(lex, 0, n);
        }
        let mut out: Vec<char> = Vec::new();
        out.push('"');
        let mut k: usize = 1;
        while k < n - 1
            invariant
                n == lex.len(),
                n >= 2,
                1 <= k <= n - 1,
                out@ == seq!['"'] + escape_string(lex@.subrange(1, k as int)),
            decreases n - 1 - k,
        {
            let c = lex[k];
            let ghost before = out@;
            if c == '\n' {
                out.push('\\');
                out.push('n');
            } else if c == '\t' {
                out.push('\\');
                out.push('t');
            } else if c == '"' {
                out.push('\\');
                out.push('"');
            } else if c == '\\' {
                out.push('\\');
                out.push('\\');
            } else {
                out.push(c);
            }
            assert(out@ =~= before + escape_char(c));
            assert(lex@.subrange(1, k + 1) =~= lex@.subrange(1, k as int).push(c));
            proof {
                lemma_escape_push(lex@.subrange(1, k as int), c);
            }
            k = k + 1;
        }
        out.push('"');
        return out;
    }
    slice_vec(lex, 0, n)
}

// ---------------------------------------------------------------------------------------------
// Blank-line collapsing
// ---------------------------------------------------------------------------------------------

/// End (exclusive) of the line starting at `i`: one past its `'\n'`, or the end of `s`.
pub open spec fn line_end(s: Seq<char>, i: int) -> int
    decreases s.len() - i,
{
    if i >= s.len() {
        s.len() as int
    } else if s[i] == '\n' {
        i + 1
    } else {
        line_end(s, i + 1)
    }
}

pub proof fn lemma_line_end_bounds(s: Seq<char>, i: int)
    requires
        0 <= i < s.len(),
    ensures
        i < line_end(s, i) <= s.len(),
        forall|j: int| i <= j < line_end(s, i) - 1 ==> s[j] != '\n',
        line_end(s, i) < s.len() || s[line_end(s, i) - 1] == '\n' || line_end(s, i) == s.len(),
        s[line_end(s, i) - 1] == '\n' || line_end(s, i) == s.len(),
    decreases s.len() - i,
{
    if s[i] != '\n' {
        if i + 1 < s.len() {
            lemma_line_end_bounds(s, i + 1);
        } else {
            assert(line_end(s, i + 1) == s.len());
        }
        assert(line_end(s, i) == line_end(s, i + 1));
    }
}

proof fn lemma_all_whitespace_push(x: Seq<char>, c: char)
    ensures
        all_whitespace(x.push(c)) == (all_whitespace(x) && char_is_whitespace(c)),
{
    if all_whitespace(x.push(c)) {
        assert forall|j: int| 0 <= j < x.len() implies char_is_whitespace(#[trigger] x[j]) by {
            assert(x.push(c)[j] == x[j]);
        }
        assert(x.push(c)[x.len() as int] == c);
    }
    if all_whitespace(x) && char_is_whitespace(c) {
        assert forall|j: int| 0 <= j < x.push(c).len() implies char_is_whitespace(
            #[trigger] x.push(c)[j],
        ) by {
            if j < x.len() {
                assert(x.push(c)[j] == x[j]);
            }
        }
    }
}

/// `s[i..]` with every whitespace-only line that directly follows another whitespace-only line
/// removed; `prev_blank` says whether the line before position `i` was whitespace-only.
pub open spec fn collapse_from(s: Seq<char>, i: int, prev_blank: bool) -> Seq<char>
    decreases s.len() - i,
{
    if i < 0 || i >= s.len() {
        Seq::empty()
    } else {
        let e = line_end(s, i);
        if e <= i || e > s.len() {
            Seq::empty()
        } else {
            let line = s.subrange(i, e);
            let blank = all_whitespace(line);
            if blank && prev_blank {
                collapse_from(s, e, true)
            } else {
                line + collapse_from(s, e, blank)
            }
        }
    }
}

/// Runs of consecutive whitespace-only lines collapsed to their first line.
pub open spec fn collapse_spec(s: Seq<char>) -> Seq<char> {
    collapse_from(s, 0, false)
}

/// Collapses every run of consecutive blank (whitespace-only) lines down to one.
pub fn collapse_blank_lines(s: &Vec<char>) -> (r: Vec<char>)
    ensures
        r@ == collapse_spec(s@),
{
    let mut out: Vec<char> = Vec::new();
    let mut prev_blank = false;
    let mut i: usize = 0;
    while i < s.len()
        invariant
            i <= s.len(),
            out@ + collapse_from(s@, i as int, prev_blank) == collapse_spec(s@),
        decreases s.len() - i,
    {
        proof {
            lemma_line_end_bounds(s@, i as int);
        }
        let mut e = i;
        let mut blank = true;
        while e < s.len() && s[e] != '\n'
            invariant
                i <= e <= s.len(),
                line_end(s@, i as int) == line_end(s@, e as int),
                blank == all_whitespace(s@.subrange(i as int, e as int)),
            decreases s.len() - e,
        {
            if !is_whitespace(s[e]) {
                blank = false;
            }
            assert(s@.subrange(i as int, e + 1) =~= s@.subrange(i as int, e as int).push(s@[e as int]));
            proof {
                lemma_all_whitespace_push(s@.subrange(i as int, e as int), s@[e as int]);
            }
            e = e + 1;
        }
        if e < s.len() {
            assert(s@.subrange(i as int, e + 1) =~= s@.subrange(i as int, e as int).push(s@[e as int]));
            proof {
                lemma_all_whitespace_push(s@.subrange(i as int, e as int), s@[e as int]);
            }
            if !is_whitespace(s[e]) {
                blank = false;
            }
            e = e + 1;
        }
        assert(e == line_end(s@, i as int));
        let ghost line = s@.subrange(i as int, e as int);
        assert(blank == all_whitespace(line));
        assert(collapse_from(s@, i as int, prev_blank) == (if blank && prev_blank {
            collapse_from(s@, e as int, true)
        } else {
            line + collapse_from(s@, e as int, blank)
        }));
        if blank && prev_blank {
        } else {
            let ghost before = out@;
            let mut k = i;
            while k < e
                invariant
                    i <= k <= e <= s.len(),
                    out@ == before + s@.subrange(i as int, k as int),
                decreases e - k,
            {
                out.push(s[k]);
                k = k + 1;
                assert(out@ =~= before + s@.subrange(i as int, k as int));
            }
            assert(out@ + collapse_from(s@, e as int, blank) =~= before + (line + collapse_from(
                s@,
                e as int,
                blank,
            )));
        }
        prev_blank = blank;
        i = e;
    }
    assert(collapse_from(s@, i as int, prev_blank) == Seq::<char>::empty());
    assert(out@ + Seq::<char>::empty() =~= out@);
    out
}

// ---------------------------------------------------------------------------------------------
// Generic-bracket classification
// ---------------------------------------------------------------------------------------------

/// Starts like an identifier: a Unicode letter or `_`.
pub open spec fn identifier_like(l: Seq<char>) -> bool {
    l.len() > 0 && (char_is_alphabetic(l[0]) || l[0] == '_')
}

/// From token `j` onward, with `depth` `<` brackets still open since the `<` at `open`, the
/// index of the `>` that closes it. Only identifiers, `,` and nested `<`/`>` may sit between the
/// brackets, and the list may not run more than three source lines past the opening `<`;
/// anything else means the `<` was a comparison operator (`None`).
pub open spec fn generic_close_from(toks: Seq<Token>, open: int, j: int, depth: int) -> Option<int>
    decreases toks.len() - j,
{
    if j < 0 || j >= toks.len() || open < 0 || open >= toks.len() {
        None
    } else {
        let lex = toks[j].lexeme@;
        let too_far = toks[j].line > toks[open].line + 3;
        if lex == seq!['<'] {
            if too_far {
                None
            } else {
                generic_close_from(toks, open, j + 1, depth + 1)
            }
        } else if lex == seq!['>'] {
            if depth - 1 == 0 {
                Some(j)
            } else if too_far {
                None
            } else {
                generic_close_from(toks, open, j + 1, depth - 1)
            }
        } else if lex != seq![','] && !identifier_like(lex) {
            None
        } else if too_far {
            None
        } else {
            generic_close_from(toks, open, j + 1, depth)
        }
    }
}

pub proof fn lemma_generic_close_range(toks: Seq<Token>, open: int, j: int, depth: int)
    ensures
        generic_close_from(toks, open, j, depth) matches Some(c) ==> j <= c < toks.len(),
    decreases toks.len() - j,
{
    if !(j < 0 || j >= toks.len() || open < 0 || open >= toks.len()) {
        lemma_generic_close_range(toks, open, j + 1, depth + 1);
        lemma_generic_close_range(toks, open, j + 1, depth - 1);
        lemma_generic_close_range(toks, open, j + 1, depth);
    }
}

/// A `<` right after a capitalized identifier (this language's type-name convention) opens a
/// candidate type argument list.
pub open spec fn opens_generic(toks: Seq<Token>, i: int) -> bool {
    0 < i < toks.len() && toks[i].lexeme@ == seq!['<'] && toks[i - 1].lexeme@.len() > 0
        && char_is_uppercase(toks[i - 1].lexeme@[0])
}

/// The `<`/`>` tokens between `a` and `b` inclusive.
pub open spec fn angle_marks(toks: Seq<Token>, a: int, b: int) -> Set<int> {
    Set::new(
        |k: int|
            a <= k <= b && 0 <= k < toks.len() && (toks[k].lexeme@ == seq!['<']
                || toks[k].lexeme@ == seq!['>']),
    )
}

/// Indices, at or after `i`, of `<`/`>` tokens that are generic-type brackets
/// (`Orodha<Neno>`, `Kamusi<Neno, Orodha<Namba>>`) rather than comparison operators.
pub open spec fn generic_marks(toks: Seq<Token>, i: int) -> Set<int>
    decreases toks.len() - i,
{
    if i < 0 || i >= toks.len() {
        Set::empty()
    } else if opens_generic(toks, i) {
        match generic_close_from(toks, i, i + 1, 1) {
            Some(c) => if i < c < toks.len() {
                angle_marks(toks, i, c) + generic_marks(toks, c + 1)
            } else {
                generic_marks(toks, i + 1)
            },
            None => generic_marks(toks, i + 1),
        }
    } else {
        generic_marks(toks, i + 1)
    }
}

fn lex_is(l: &Vec<char>, c: char) -> (r: bool)
    ensures
        r == (l@ == seq![c]),
{
    let r = l.len() == 1 && l[0] == c;
    if r {
        assert(l@ =~= seq![c]);
    }
    r
}

fn is_identifier_like(l: &Vec<char>) -> (r: bool)
    ensures
        r == identifier_like(l@),
{
    l.len() > 0 && (is_alphabetic(l[0]) || l[0] == '_')
}

/// Lexemes of `toks` as character vectors.
fn lexemes_of(toks: &[Token]) -> (r: Vec<Vec<char>>)
    ensures
        r.len() == toks.len(),
        forall|k: int| 0 <= k < toks.len() ==> #[trigger] r@[k]@ == toks@[k].lexeme@,
{
    let mut r: Vec<Vec<char>> = Vec::new();
    let mut i: usize = 0;
    while i < toks.len()
        invariant
            i <= toks.len(),
            r.len() == i,
            forall|k: int| 0 <= k < i ==> #[trigger] r@[k]@ == toks@[k].lexeme@,
        decreases toks.len() - i,
    {
        r.push(chars_of(&toks[i].lexeme));
        i = i + 1;
    }
    r
}

/// From an opening `<` at `open_idx`, the index of its matching `>` when the tokens between
/// them form a type argument list (see `generic_close_from`).
fn find_matching_generic_close(toks: &[Token], lexes: &Vec<Vec<char>>, open_idx: usize) -> (r:
    Option<usize>)
    requires
        open_idx < toks.len(),
        lexes.len() == toks.len(),
        forall|k: int| 0 <= k < toks.len() ==> #[trigger] lexes@[k]@ == toks@[k].lexeme@,
    ensures
        r == (match generic_close_from(toks@, open_idx as int, open_idx + 1, 1) {
            Some(c) => Some(c as usize),
            None => None::<usize>,
        }),
{
    let open_line = toks[open_idx].line;
    let mut depth: usize = 1;
    let mut j = open_idx + 1;
    while j < toks.len()
        invariant
            open_idx < j <= toks.len(),
            lexes.len() == toks.len(),
            forall|k: int| 0 <= k < toks.len() ==> #[trigger] lexes@[k]@ == toks@[k].lexeme@,
            open_line == toks@[open_idx as int].line,
            1 <= depth <= j - open_idx,
            generic_close_from(toks@, open_idx as int, open_idx + 1, 1) == generic_close_from(
                toks@,
                open_idx as int,
                j as int,
                depth as int,
            ),
        decreases toks.len() - j,
    {
        let lex = &lexes[j];
        let too_far = toks[j].line > open_line && toks[j].line - open_line > 3;
        if lex_is(lex, '<') {
            if too_far {
                return None;
            }
            depth = depth + 1;
        } else if lex_is(lex, '>') {
            if depth == 1 {
                return Some(j);
            }
            if too_far {
                return None;
            }
            depth = depth - 1;
        } else if !lex_is(lex, ',') && !is_identifier_like(lex) {
            return None;
        } else if too_far {
            return None;
        }
        j = j + 1;
    }
    None
}

/// Marks (`r[k]` is true) every `<`/`>` token that is a generic-type bracket.
fn classify_generic_brackets(toks: &[Token], lexes: &Vec<Vec<char>>) -> (r: Vec<bool>)
    requires
        lexes.len() == toks.len(),
        forall|k: int| 0 <= k < toks.len() ==> #[trigger] lexes@[k]@ == toks@[k].lexeme@,
    ensures
        r.len() == toks.len(),
        forall|k: int| 0 <= k < toks.len() ==> (#[trigger] r@[k] <==> generic_marks(toks@, 0).contains(k)),
{
    let n = toks.len();
    let mut flags: Vec<bool> = Vec::new();
    let mut f: usize = 0;
    while f < n
        invariant
            f <= n,
            flags.len() == f,
            forall|k: int| 0 <= k < f ==> !#[trigger] flags@[k],
        decreases n - f,
    {
        flags.push(false);
        f = f + 1;
    }
    let ghost mut acc: Set<int> = Set::empty();
    let mut i: usize = 0;
    while i < n
        invariant
            n == toks.len(),
            i <= n,
            flags.len() == n,
            lexes.len() == toks.len(),
            forall|k: int| 0 <= k < toks.len() ==> #[trigger] lexes@[k]@ == toks@[k].lexeme@,
            forall|k: int| 0 <= k < n ==> (#[trigger] flags@[k] <==> acc.contains(k)),
            forall|k: int| acc.contains(k) ==> 0 <= k < i,
            acc + generic_marks(toks@, i as int) == generic_marks(toks@, 0),
        decreases n - i,
    {
        let ghost gi = generic_marks(toks@, i as int);
        let opens = i > 0 && lex_is(&lexes[i], '<') && lexes[i - 1].len() > 0 && is_uppercase(
            lexes[i - 1][0],
        );
        assert(opens == opens_generic(toks@, i as int));
        if opens {
            proof {
                lemma_generic_close_range(toks@, i as int, i + 1, 1);
            }
            match find_matching_generic_close(toks, lexes, i) {
                Some(close) => {
                    assert(gi == angle_marks(toks@, i as int, close as int) + generic_marks(
                        toks@,
                        close + 1,
                    ));
                    let ghost before = acc;
                    let mut k = i;
                    while k <= close
                        invariant
                            i <= k <= close + 1,
                            close < n,
                            n == toks.len(),
                            flags.len() == n,
                            lexes.len() == toks.len(),
                            forall|q: int| 0 <= q < toks.len() ==> #[trigger] lexes@[q]@ == toks@[q].lexeme@,
                            forall|q: int| 0 <= q < n ==> (#[trigger] flags@[q] <==> acc.contains(q)),
                            acc == before + angle_marks(toks@, i as int, k - 1),
                        decreases close + 1 - k,
                    {
                        let is_angle = lex_is(&lexes[k], '<') || lex_is(&lexes[k], '>');
                        if is_angle {
                            flags.set(k, true);
                        }
                        proof {
                            if is_angle {
                                acc = acc.insert(k as int);
                            }
                            assert(acc =~= before + angle_marks(toks@, i as int, k as int));
                        }
                        k = k + 1;
                    }
                    proof {
                        assert(acc + generic_marks(toks@, close + 1) =~= before + gi);
                    }
                    i = close + 1;
                    continue;
                },
                None => {},
            }
        }
        assert(gi == generic_marks(toks@, i + 1));
        i = i + 1;
    }
    assert(acc + generic_marks(toks@, i as int) =~= acc);
    flags
}

// ---------------------------------------------------------------------------------------------
// Layout rules
// ---------------------------------------------------------------------------------------------

/// Delimiters printed with no space before them.
pub open spec fn no_space_before(l: Seq<char>) -> bool {
    l.len() == 1 && (l[0] == ')' || l[0] == ']' || l[0] == ',' || l[0] == ';' || l[0] == ':'
        || l[0] == '.' || l[0] == '?')
}

/// Delimiters printed with no space after them.
pub open spec fn no_space_after(l: Seq<char>) -> bool {
    l.len() == 1 && (l[0] == '(' || l[0] == '[' || l[0] == '.' || l[0] == '#')
}

/// Statement keywords that may precede a grouping `(...)` or an array literal `[...]` without
/// that being call or index syntax.
pub open spec fn is_format_keyword(w: Seq<char>) -> bool {
    w == "_"@ || w == "au_ikiwa"@ || w == "endelea"@ || w == "ikiwa"@ || w == "jenum"@ || w
        == "kama"@ || w == "katika"@ || w == "kazi"@ || w == "kutoka"@ || w == "kwa"@ || w
        == "kweli"@ || w == "lebo"@ || w == "leta"@ || w == "linganisha"@ || w == "milele"@ || w
        == "rejesha"@ || w == "shughuli"@ || w == "sifa"@ || w == "si_kweli"@ || w
        == "thabiti"@ || w == "tupa"@ || w == "umbo"@ || w == "umma"@ || w == "vinginevyo"@
        || w == "vunja"@ || w == "wakati"@ || w == "weka"@ || w == "ya"@ || w == "jaribu"@
}

/// `(`/`[` at `idx` opens call or index syntax: it follows a closing `)`/`]`, or an identifier
/// that is a method name (right after `.`) or not a statement keyword.
pub open spec fn call_or_index_open(toks: Seq<Token>, l: Seq<char>, idx: int) -> bool {
    (l == seq!['('] || l == seq!['[']) && 1 <= idx <= toks.len() && {
        let prev = toks[idx - 1].lexeme@;
        prev == seq![')'] || prev == seq![']'] || (identifier_like(prev) && ((idx >= 2
            && toks[idx - 2].lexeme@ == seq!['.']) || !is_format_keyword(prev)))
    }
}

/// The next token sits on a later source line, and neither this token nor the next is a brace.
pub open spec fn starts_new_line_after(toks: Seq<Token>, idx: int) -> bool {
    0 <= idx && idx + 1 < toks.len() && toks[idx].lexeme@ != seq!['{'] && toks[idx
        + 1].lexeme@ != seq!['}'] && toks[idx + 1].line > toks[idx].line
}

/// The author left at least one blank line between token `idx` and the next.
pub open spec fn blank_gap_after(toks: Seq<Token>, idx: int) -> bool {
    0 <= idx && idx + 1 < toks.len() && toks[idx + 1].line > toks[idx].line + 1
}

/// The previous token already forbids a space after itself.
pub open spec fn prev_suppresses_space(toks: Seq<Token>, gb: Set<int>, idx: int) -> bool {
    1 <= idx <= toks.len() && (no_space_after(toks[idx - 1].lexeme@) || (toks[idx
        - 1].lexeme@ == seq!['<'] && gb.contains(idx - 1)))
}

/// `s` with its trailing spaces and tabs removed.
pub open spec fn trim_spaces(s: Seq<char>) -> Seq<char>
    decreases s.len(),
{
    if s.len() > 0 && (s.last() == ' ' || s.last() == '\t') {
        trim_spaces(s.drop_last())
    } else {
        s
    }
}

/// `unit` repeated `n` times.
pub open spec fn repeat_unit(unit: Seq<char>, n: nat) -> Seq<char>
    decreases n,
{
    if n == 0 {
        Seq::empty()
    } else {
        repeat_unit(unit, (n - 1) as nat) + unit
    }
}

pub open spec fn ends_in(s: Seq<char>, c: char) -> bool {
    s.len() > 0 && s.last() == c
}

/// Trailing spaces dropped, a newline (unless nothing has been printed yet), then `depth`
/// indent units.
pub open spec fn newline_indent(out: Seq<char>, depth: nat, unit: Seq<char>) -> Seq<char> {
    let t = trim_spaces(out);
    (if t.len() > 0 {
        t.push('\n')
    } else {
        t
    }) + repeat_unit(unit, depth)
}

/// Printer state after emitting token `idx`: the output so far and the brace depth.
pub open spec fn emit_token_spec(
    toks: Seq<Token>,
    gb: Set<int>,
    unit: Seq<char>,
    out: Seq<char>,
    depth: nat,
    idx: int,
) -> (Seq<char>, nat) {
    let r = render_spec(toks[idx].lexeme@);
    let d1: nat = if r == seq!['}'] && depth > 0 {
        (depth - 1) as nat
    } else {
        depth
    };
    let out1 = if r == seq!['}'] {
        let t = trim_spaces(out);
        if t.len() > 0 && !ends_in(t, '\n') {
            newline_indent(t, d1, unit)
        } else {
            t
        }
    } else {
        out
    };
    let g = gb.contains(idx);
    let hugs = no_space_before(r) || call_or_index_open(toks, r, idx) || g;
    let out2 = if hugs {
        trim_spaces(out1)
    } else {
        out1
    };
    let needs = idx > 0 && !ends_in(out2, '\n') && !ends_in(out2, ' ') && !ends_in(out2, '\t') && !hugs
        && !prev_suppresses_space(toks, gb, idx);
    let out3 = if needs {
        out2.push(' ')
    } else {
        out2
    };
    let out4 = out3 + r;
    if r == seq!['{'] {
        (newline_indent(out4, d1 + 1, unit), d1 + 1)
    } else if r == seq![';'] || starts_new_line_after(toks, idx) {
        let o = if blank_gap_after(toks, idx) {
            out4.push('\n')
        } else {
            out4
        };
        (newline_indent(o, d1, unit), d1)
    } else if !no_space_after(r) && !(r == seq!['<'] && g) {
        (out4.push(' '), d1)
    } else {
        (out4, d1)
    }
}

/// Output after printing comment `k` at brace depth `depth`.
pub open spec fn emit_comment_spec(
    cs: Seq<Comment>,
    unit: Seq<char>,
    out: Seq<char>,
    depth: nat,
    k: int,
) -> Seq<char> {
    let t = trim_spaces(out);
    let t2 = if t.len() > 0 && !ends_in(t, '\n') {
        t.push(' ')
    } else {
        t
    };
    newline_indent(t2 + cs[k].text@, depth, unit)
}

/// Prints every comment from index `next` on whose anchor is `anchor`, stopping at the first
/// that is anchored elsewhere; returns the output and the index of the next unprinted comment.
pub open spec fn comments_spec(
    cs: Seq<Comment>,
    unit: Seq<char>,
    out: Seq<char>,
    depth: nat,
    next: nat,
    anchor: Option<usize>,
) -> (Seq<char>, nat)
    decreases cs.len() - next,
{
    if next < cs.len() && cs[next as int].after_token_index == anchor {
        comments_spec(
            cs,
            unit,
            emit_comment_spec(cs, unit, out, depth, next as int),
            depth,
            next + 1,
            anchor,
        )
    } else {
        (out, next)
    }
}

/// Printer state (output, depth, next comment) after the leading comments and the first `i`
/// tokens, each followed by the comments anchored to it.
pub open spec fn print_state(
    toks: Seq<Token>,
    cs: Seq<Comment>,
    gb: Set<int>,
    unit: Seq<char>,
    i: nat,
) -> (Seq<char>, nat, nat)
    decreases i,
{
    if i == 0 {
        let (o, nx) = comments_spec(cs, unit, Seq::empty(), 0, 0, None);
        (o, 0, nx)
    } else {
        let (o, d, nx) = print_state(toks, cs, gb, unit, (i - 1) as nat);
        let (o2, d2) = emit_token_spec(toks, gb, unit, o, d, i - 1);
        let (o3, nx3) = comments_spec(cs, unit, o2, d2, nx, Some((i - 1) as usize));
        (o3, d2, nx3)
    }
}

/// Spaces are only trimmed from the end: a text not ending in a space or tab is kept.
proof fn lemma_trim_keeps(s: Seq<char>)
    requires
        s.len() > 0,
        s.last() != ' ',
        s.last() != '\t',
    ensures
        trim_spaces(s) == s,
{
}

/// No space follows `(`, `[`, `.` or `#`: when one of these tokens is followed on the same line
/// by a token that is not `}` (and no comment is anchored to either), the printed output holds
/// the first token immediately followed by the second's printed form. In particular an
/// attribute `#[...]` stays glued and is not turned into a `#` line comment.
pub proof fn law_openers_stay_glued(toks: Seq<Token>, cs: Seq<Comment>, unit: Seq<char>, i: int)
    requires
        0 <= i,
        i + 1 < toks.len(),
        toks[i].lexeme@ == seq!['('] || toks[i].lexeme@ == seq!['['] || toks[i].lexeme@ == seq!['.']
            || toks[i].lexeme@ == seq!['#'],
        render_spec(toks[i + 1].lexeme@).len() > 0,
        render_spec(toks[i + 1].lexeme@) != seq!['}'],
        render_spec(toks[i + 1].lexeme@).last() != ' ',
        render_spec(toks[i + 1].lexeme@).last() != '\t',
        toks[i + 1].line == toks[i].line,
        forall|k: int| 0 <= k < cs.len() ==> (#[trigger] cs[k]).after_token_index != Some(i as usize)
            && cs[k].after_token_index != Some((i + 1) as usize),
    ensures
        ({
            let o = print_state(toks, cs, generic_marks(toks, 0), unit, (i + 2) as nat).0;
            let c = toks[i].lexeme@[0];
            let r2 = render_spec(toks[i + 1].lexeme@);
            exists|p: int| 0 <= p && p + 1 < o.len() && #[trigger] o[p] == c && o[p + 1] == r2[0]
        }),
{
    let gb = generic_marks(toks, 0);
    let t = toks[i].lexeme@;
    let c = t[0];
    let r2 = render_spec(toks[i + 1].lexeme@);
    let st0 = print_state(toks, cs, gb, unit, i as nat);
    let e1 = emit_token_spec(toks, gb, unit, st0.0, st0.1, i);
    assert(!starts_with(t, char_prefix()));
    assert(render_spec(t) == t);
    assert(!starts_new_line_after(toks, i));
    let o1 = e1.0;
    assert(o1.len() > 0 && o1.last() == c);
    assert(comments_spec(cs, unit, o1, e1.1, st0.2, Some(i as usize)) == (o1, st0.2)) by {
        if st0.2 < cs.len() {
            assert(cs[st0.2 as int].after_token_index != Some(i as usize));
        }
    }
    let st1 = print_state(toks, cs, gb, unit, (i + 1) as nat);
    assert(st1 == (o1, e1.1, st0.2));
    lemma_trim_keeps(o1);
    assert(prev_suppresses_space(toks, gb, i + 1));
    let e2 = emit_token_spec(toks, gb, unit, o1, e1.1, i + 1);
    let out4 = o1 + r2;
    assert(out4[o1.len() - 1] == c && out4[o1.len() as int] == r2[0]);
    lemma_trim_keeps(out4);
    let o2 = e2.0;
    assert(o2.len() > o1.len() && o2[o1.len() - 1] == c && o2[o1.len() as int] == r2[0]) by {
        if r2 == seq!['{'] {
            assert(o2 == out4.push('\n') + repeat_unit(unit, e2.1));
            assert(o2[o1.len() - 1] == out4[o1.len() - 1]);
            assert(o2[o1.len() as int] == out4[o1.len() as int]);
        } else if r2 == seq![';'] || starts_new_line_after(toks, i + 1) {
            let o = if blank_gap_after(toks, i + 1) { out4.push('\n') } else { out4 };
            lemma_trim_keeps(o);
            assert(o2 == o.push('\n') + repeat_unit(unit, e2.1));
            assert(o2[o1.len() - 1] == o[o1.len() - 1]);
            assert(o2[o1.len() as int] == o[o1.len() as int]);
        } else if !no_space_after(r2) && !(r2 == seq!['<'] && gb.contains(i + 1)) {
            assert(o2 == out4.push(' '));
            assert(o2[o1.len() - 1] == out4[o1.len() - 1]);
            assert(o2[o1.len() as int] == out4[o1.len() as int]);
        } else {
            assert(o2 == out4);
        }
    }
    assert(comments_spec(cs, unit, o2, e2.1, st1.2, Some((i + 1) as usize)) == (o2, st1.2)) by {
        if st1.2 < cs.len() {
            assert(cs[st1.2 as int].after_token_index != Some((i + 1) as usize));
        }
    }
    let o = print_state(toks, cs, gb, unit, (i + 2) as nat).0;
    assert(o == o2);
    assert(o[o1.len() - 1] == c);
}

/// Trailing spaces dropped and a final newline ensured.
pub open spec fn finish_spec(o: Seq<char>) -> Seq<char> {
    let t = trim_spaces(o);
    if ends_in(t, '\n') {
        t
    } else {
        t.push('\n')
    }
}

/// The printed form of a token stream and its comments, indenting by `unit` per brace level.
pub open spec fn print_spec(toks: Seq<Token>, cs: Seq<Comment>, unit: Seq<char>) -> Seq<char> {
    collapse_spec(
        finish_spec(print_state(toks, cs, generic_marks(toks, 0), unit, toks.len()).0),
    )
}

/// Canonical layout of a lexed source: empty for a source with neither tokens nor comments,
/// otherwise the printed form (`print_spec`).
pub open spec fn format_tokens_spec(toks: Seq<Token>, cs: Seq<Comment>, unit: Seq<char>) -> Seq<
    char,
> {
    if toks.len() == 0 && cs.len() == 0 {
        Seq::empty()
    } else {
        print_spec(toks, cs, unit)
    }
}

// ---------------------------------------------------------------------------------------------
// Printer
// ---------------------------------------------------------------------------------------------

fn trim_trailing_space(out: &mut Vec<char>)
    ensures
        final(out)@ == trim_spaces(old(out)@),
{
    while out.len() > 0 && (out[out.len() - 1] == ' ' || out[out.len() - 1] == '\t')
        invariant
            trim_spaces(out@) == trim_spaces(old(out)@),
        decreases out.len(),
    {
        let ghost before = out@;
        out.pop();
        assert(out@ =~= before.drop_last());
    }
}

proof fn lemma_trim_spaces_idem(s: Seq<char>)
    ensures
        trim_spaces(trim_spaces(s)) == trim_spaces(s),
        !ends_in(trim_spaces(s), ' '),
    decreases s.len(),
{
    if s.len() > 0 && (s.last() == ' ' || s.last() == '\t') {
        lemma_trim_spaces_idem(s.drop_last());
    }
}

fn ends_with_char(out: &Vec<char>, c: char) -> (r: bool)
    ensures
        r == ends_in(out@, c),
{
    out.len() > 0 && out[out.len() - 1] == c
}

fn push_indent(out: &mut Vec<char>, unit: &Vec<char>, depth: usize)
    ensures
        final(out)@ == old(out)@ + repeat_unit(unit@, depth as nat),
{
    let mut k: usize = 0;
    while k < depth
        invariant
            k <= depth,
            out@ == old(out)@ + repeat_unit(unit@, k as nat),
        decreases depth - k,
    {
        push_all(out, unit.as_slice());
        k = k + 1;
        assert(out@ =~= old(out)@ + repeat_unit(unit@, k as nat));
    }
}

fn push_newline_indent(out: &mut Vec<char>, unit: &Vec<char>, depth: usize)
    ensures
        final(out)@ == newline_indent(old(out)@, depth as nat, unit@),
{
    trim_trailing_space(out);
    if out.len() > 0 {
        out.push('\n');
    }
    push_indent(out, unit, depth);
}

fn is_format_keyword_exec(w: &Vec<char>) -> (r: bool)
    ensures
        r == is_format_keyword(w@),
{
    eq_lit(w, "_") || eq_lit(w, "au_ikiwa") || eq_lit(w, "endelea") || eq_lit(w, "ikiwa")
        || eq_lit(w, "jenum") || eq_lit(w, "kama") || eq_lit(w, "katika") || eq_lit(w, "kazi")
        || eq_lit(w, "kutoka") || eq_lit(w, "kwa") || eq_lit(w, "kweli") || eq_lit(w, "lebo")
        || eq_lit(w, "leta") || eq_lit(w, "linganisha") || eq_lit(w, "milele") || eq_lit(
        w,
        "rejesha",
    ) || eq_lit(w, "shughuli") || eq_lit(w, "sifa") || eq_lit(w, "si_kweli") || eq_lit(
        w,
        "thabiti",
    ) || eq_lit(w, "tupa") || eq_lit(w, "umbo") || eq_lit(w, "umma") || eq_lit(w, "vinginevyo")
        || eq_lit(w, "vunja") || eq_lit(w, "wakati") || eq_lit(w, "weka") || eq_lit(w, "ya")
        || eq_lit(w, "jaribu")
}

fn is_no_space_before(l: &Vec<char>) -> (r: bool)
    ensures
        r == no_space_before(l@),
{
    l.len() == 1 && (l[0] == ')' || l[0] == ']' || l[0] == ',' || l[0] == ';' || l[0] == ':'
        || l[0] == '.' || l[0] == '?')
}

fn is_no_space_after(l: &Vec<char>) -> (r: bool)
    ensures
        r == no_space_after(l@),
{
    l.len() == 1 && (l[0] == '(' || l[0] == '[' || l[0] == '.' || l[0] == '#')
}

/// The printer's read-only inputs, with each token's lexeme already in character form and the
/// generic-bracket marks precomputed.
struct Layout<'a> {
    toks: &'a [Token],
    lexes: Vec<Vec<char>>,
    generic: Vec<bool>,
    unit: Vec<char>,
}

impl<'a> Layout<'a> {
    spec fn wf(&self) -> bool {
        &&& self.lexes.len() == self.toks.len()
        &&& self.generic.len() == self.toks.len()
        &&& forall|k: int|
            0 <= k < self.toks.len() ==> #[trigger] self.lexes@[k]@ == self.toks@[k].lexeme@
        &&& forall|k: int|
            0 <= k < self.toks.len() ==> (#[trigger] self.generic@[k] <==> generic_marks(
                self.toks@,
                0,
            ).contains(k))
    }

    fn is_call_or_index_open(&self, l: &Vec<char>, idx: usize) -> (r: bool)
        requires
            self.wf(),
            idx < self.toks.len(),
        ensures
            r == call_or_index_open(self.toks@, l@, idx as int),
    {
        if !lex_is(l, '(') && !lex_is(l, '[') {
            return false;
        }
        if idx == 0 {
            return false;
        }
        let prev = &self.lexes[idx - 1];
        if lex_is(prev, ')') || lex_is(prev, ']') {
            return true;
        }
        if !is_identifier_like(prev) {
            return false;
        }
        let is_method_name = idx >= 2 && lex_is(&self.lexes[idx - 2], '.');
        is_method_name || !is_format_keyword_exec(prev)
    }

    fn starts_new_line_after(&self, idx: usize) -> (r: bool)
        requires
            self.wf(),
            idx < self.toks.len(),
        ensures
            r == starts_new_line_after(self.toks@, idx as int),
    {
        if idx + 1 >= self.toks.len() {
            return false;
        }
        if lex_is(&self.lexes[idx], '{') || lex_is(&self.lexes[idx + 1], '}') {
            return false;
        }
        self.toks[idx + 1].line > self.toks[idx].line
    }

    fn has_blank_gap_after(&self, idx: usize) -> (r: bool)
        requires
            self.wf(),
            idx < self.toks.len(),
        ensures
            r == blank_gap_after(self.toks@, idx as int),
    {
        if idx + 1 >= self.toks.len() {
            return false;
        }
        let a = self.toks[idx].line;
        let b = self.toks[idx + 1].line;
        b > a && b - a > 1
    }

    fn prev_suppresses_space_after(&self, idx: usize) -> (r: bool)
        requires
            self.wf(),
            idx < self.toks.len(),
        ensures
            r == prev_suppresses_space(self.toks@, generic_marks(self.toks@, 0), idx as int),
    {
        idx > 0 && (is_no_space_after(&self.lexes[idx - 1]) || (lex_is(&self.lexes[idx - 1], '<')
            && self.generic[idx - 1]))
    }

    fn emit_token(&self, out: &mut Vec<char>, depth: &mut usize, idx: usize)
        requires
            self.wf(),
            idx < self.toks.len(),
            *old(depth) <= idx,
        ensures
            (final(out)@, *final(depth) as nat) == emit_token_spec(
                self.toks@,
                generic_marks(self.toks@, 0),
                self.unit@,
                old(out)@,
                *old(depth) as nat,
                idx as int,
            ),
            *final(depth) <= idx + 1,
    {
        let ghost gb = generic_marks(self.toks@, 0);
        let r = render_lexeme(&self.lexes[idx]);
        let is_close = lex_is(&r, '}');
        if is_close {
            if *depth > 0 {
                *depth = *depth - 1;
            }
            trim_trailing_space(out);
            if out.len() > 0 && !ends_with_char(out, '\n') {
                push_newline_indent(out, &self.unit, *depth);
            }
        }
        let g = self.generic[idx];
        let hugs = is_no_space_before(&r) || self.is_call_or_index_open(&r, idx) || g;
        if hugs {
            trim_trailing_space(out);
        }
        let needs = idx > 0 && !ends_with_char(out, '\n') && !ends_with_char(out, ' ') && !ends_with_char(out, '\t') && !hugs
            && !self.prev_suppresses_space_after(idx);
        if needs {
            out.push(' ');
        }
        push_all(out, r.as_slice());
        if lex_is(&r, '{') {
            *depth = *depth + 1;
            push_newline_indent(out, &self.unit, *depth);
        } else if lex_is(&r, ';') || self.starts_new_line_after(idx) {
            if self.has_blank_gap_after(idx) {
                out.push('\n');
            }
            push_newline_indent(out, &self.unit, *depth);
        } else if !is_no_space_after(&r) && !(lex_is(&r, '<') && g) {
            out.push(' ');
        }
    }
}

fn anchor_matches(a: Option<usize>, b: Option<usize>) -> (r: bool)
    ensures
        r == (a == b),
{
    match (a, b) {
        (None, None) => true,
        (Some(x), Some(y)) => x == y,
        _ => false,
    }
}

fn emit_comments_after(
    cs: &[Comment],
    unit: &Vec<char>,
    out: &mut Vec<char>,
    depth: usize,
    next: &mut usize,
    anchor: Option<usize>,
)
    requires
        *old(next) <= cs.len(),
    ensures
        (final(out)@, *final(next) as nat) == comments_spec(
            cs@,
            unit@,
            old(out)@,
            depth as nat,
            *old(next) as nat,
            anchor,
        ),
        *final(next) <= cs.len(),
{
    while *next < cs.len() && anchor_matches(cs[*next].after_token_index, anchor)
        invariant
            *next <= cs.len(),
            comments_spec(cs@, unit@, out@, depth as nat, *next as nat, anchor) == comments_spec(
                cs@,
                unit@,
                old(out)@,
                depth as nat,
                *old(next) as nat,
                anchor,
            ),
        decreases cs.len() - *next,
    {
        let ghost before = out@;
        trim_trailing_space(out);
        if out.len() > 0 && !ends_with_char(out, '\n') {
            out.push(' ');
        }
        let text = chars_of(&cs[*next].text);
        push_all(out, text.as_slice());
        push_newline_indent(out, unit, depth);
        assert(out@ == emit_comment_spec(cs@, unit@, before, depth as nat, *next as int));
        *next = *next + 1;
    }
}

/// Lays out a lexed source: `tokens` with their `comments` interleaved after the tokens they
/// follow, indenting by `indent_unit` per brace level (see `format_tokens_spec`).
pub fn format_tokens(tokens: &[Token], comments: &[Comment], indent_unit: &str) -> (r: String)
    ensures
        r@ == format_tokens_spec(tokens@, comments@, indent_unit@),
{
    if tokens.len() == 0 && comments.len() == 0 {
        return string_of_empty();
    }
    let lexes = lexemes_of(tokens);
    let generic = classify_generic_brackets(tokens, &lexes);
    let layout = Layout { toks: tokens, lexes, generic, unit: chars_of(indent_unit) };
    let ghost gb = generic_marks(tokens@, 0);
    let mut out: Vec<char> = Vec::new();
    let mut depth: usize = 0;
    let mut next: usize = 0;
    emit_comments_after(comments, &layout.unit, &mut out, depth, &mut next, None);
    let mut i: usize = 0;
    while i < tokens.len()
        invariant
            layout.wf(),
            layout.toks@ == tokens@,
            layout.unit@ == indent_unit@,
            gb == generic_marks(tokens@, 0),
            i <= tokens.len(),
            depth <= i,
            next <= comments.len(),
            (out@, depth as nat, next as nat) == print_state(
                tokens@,
                comments@,
                gb,
                indent_unit@,
                i as nat,
            ),
        decreases tokens.len() - i,
    {
        layout.emit_token(&mut out, &mut depth, i);
        emit_comments_after(comments, &layout.unit, &mut out, depth, &mut next, Some(i));
        i = i + 1;
    }
    trim_trailing_space(&mut out);
    if !ends_with_char(&out, '\n') {
        out.push('\n');
    }
    let collapsed = collapse_blank_lines(&out);
    crate::text::string_of(collapsed.as_slice())
}

fn string_of_empty() -> (r: String)
    ensures
        r@ == Seq::<char>::empty(),
{
    String::new()
}

/// The layout of `input` given what the lexer produced for it: `None` (the source does not
/// lex, e.g. an unterminated string) leaves the input unchanged, so formatting is always safe
/// on in-progress source.
pub open spec fn canonical_format_spec(
    input: Seq<char>,
    lexed: Option<(Seq<Token>, Seq<Comment>)>,
    unit: Seq<char>,
) -> Seq<char> {
    match lexed {
        None => input,
        Some((toks, cs)) => format_tokens_spec(toks, cs, unit),
    }
}

pub open spec fn lexed_view(lexed: &Option<(Vec<Token>, Vec<Comment>)>) -> Option<
    (Seq<Token>, Seq<Comment>),
> {
    match lexed {
        None => None,
        Some((t, c)) => Some((t@, c@)),
    }
}

/// Canonical formatting of `input`, indenting by `indent_unit` per brace level. `lexed` is the
/// lexer's result for `input` (tokens and comment trivia), `None` when it did not lex.
pub fn canonical_format_with_indent(
    input: &str,
    lexed: &Option<(Vec<Token>, Vec<Comment>)>,
    indent_unit: &str,
) -> (r: String)
    ensures
        r@ == canonical_format_spec(input@, lexed_view(lexed), indent_unit@),
{
    match lexed {
        None => input.to_string(),
        Some((toks, cs)) => format_tokens(toks.as_slice(), cs.as_slice(), indent_unit),
    }
}

/// Canonical formatting of `input` with the default four-space indent.
pub fn canonical_format(input: &str, lexed: &Option<(Vec<Token>, Vec<Comment>)>) -> (r: String)
    ensures
        r@ == canonical_format_spec(input@, lexed_view(lexed), "    "@),
{
    canonical_format_with_indent(input, lexed, "    ")
}

// ---------------------------------------------------------------------------------------------
// Laws
// ---------------------------------------------------------------------------------------------

/// Every newline in `s` that has a predecessor is preceded by a non-space.
pub open spec fn no_space_before_newline(s: Seq<char>) -> bool {
    forall|k: int| 1 <= k < s.len() && #[trigger] s[k] == '\n' ==> s[k - 1] != ' '
}

/// No line of `s` ends with a space.
pub open spec fn no_trailing_spaces(s: Seq<char>) -> bool {
    no_space_before_newline(s) && !ends_in(s, ' ')
}

pub open spec fn has_newline(s: Seq<char>) -> bool {
    exists|k: int| 0 <= k < s.len() && s[k] == '\n'
}

/// A token the lexer could have produced: its printed form is non-empty, single-line, and
/// does not end in a space.
pub open spec fn printable_token(t: Token) -> bool {
    let r = render_spec(t.lexeme@);
    r.len() > 0 && !has_newline(r) && r.last() != ' '
}

/// The inputs the no-trailing-space law is stated for: printable tokens, single-line comments
/// and a single-line indent unit.
pub open spec fn printable_input(toks: Seq<Token>, cs: Seq<Comment>, unit: Seq<char>) -> bool {
    &&& forall|k: int| 0 <= k < toks.len() ==> printable_token(#[trigger] toks[k])
    &&& forall|k: int| 0 <= k < cs.len() ==> !has_newline(#[trigger] cs[k].text@)
    &&& !has_newline(unit)
}

proof fn lemma_trim_spaces_prefix(s: Seq<char>)
    ensures
        trim_spaces(s).len() <= s.len(),
        trim_spaces(s) == s.subrange(0, trim_spaces(s).len() as int),
        !ends_in(trim_spaces(s), ' '),
    decreases s.len(),
{
    if s.len() > 0 && (s.last() == ' ' || s.last() == '\t') {
        lemma_trim_spaces_prefix(s.drop_last());
        let t = trim_spaces(s.drop_last());
        assert(s.drop_last().subrange(0, t.len() as int) =~= s.subrange(0, t.len() as int));
    } else {
        assert(s.subrange(0, s.len() as int) =~= s);
    }
}

proof fn lemma_p_trim(s: Seq<char>)
    requires
        no_space_before_newline(s),
    ensures
        no_space_before_newline(trim_spaces(s)),
        !ends_in(trim_spaces(s), ' '),
{
    lemma_trim_spaces_prefix(s);
    let t = trim_spaces(s);
    assert forall|k: int| 1 <= k < t.len() && #[trigger] t[k] == '\n' implies t[k - 1] != ' ' by {
        assert(t[k] == s[k] && t[k - 1] == s[k - 1]);
    }
}

proof fn lemma_p_append(s: Seq<char>, x: Seq<char>)
    requires
        no_space_before_newline(s),
        !has_newline(x),
    ensures
        no_space_before_newline(s + x),
{
    let y = s + x;
    assert forall|k: int| 1 <= k < y.len() && #[trigger] y[k] == '\n' implies y[k - 1] != ' ' by {
        if k >= s.len() {
            assert(x[k - s.len()] == y[k]);
        } else {
            assert(y[k] == s[k] && y[k - 1] == s[k - 1]);
        }
    }
}

proof fn lemma_p_push_newline(s: Seq<char>)
    requires
        no_space_before_newline(s),
        !ends_in(s, ' '),
    ensures
        no_space_before_newline(s.push('\n')),
{
    let y = s.push('\n');
    assert forall|k: int| 1 <= k < y.len() && #[trigger] y[k] == '\n' implies y[k - 1] != ' ' by {
        if k < s.len() {
            assert(y[k] == s[k] && y[k - 1] == s[k - 1]);
        } else {
            assert(y[k - 1] == s.last());
        }
    }
}

proof fn lemma_repeat_no_newline(unit: Seq<char>, n: nat)
    requires
        !has_newline(unit),
    ensures
        !has_newline(repeat_unit(unit, n)),
    decreases n,
{
    if n > 0 {
        lemma_repeat_no_newline(unit, (n - 1) as nat);
        let a = repeat_unit(unit, (n - 1) as nat);
        let y = a + unit;
        assert forall|k: int| 0 <= k < y.len() implies #[trigger] y[k] != '\n' by {
            if k < a.len() {
                assert(y[k] == a[k]);
            } else {
                assert(y[k] == unit[k - a.len()]);
            }
        }
    }
}

proof fn lemma_p_newline_indent(s: Seq<char>, d: nat, unit: Seq<char>)
    requires
        no_space_before_newline(s),
        !has_newline(unit),
    ensures
        no_space_before_newline(newline_indent(s, d, unit)),
{
    lemma_p_trim(s);
    let t = trim_spaces(s);
    let t2 = if t.len() > 0 {
        t.push('\n')
    } else {
        t
    };
    if t.len() > 0 {
        lemma_p_push_newline(t);
    }
    lemma_repeat_no_newline(unit, d);
    lemma_p_append(t2, repeat_unit(unit, d));
}

proof fn lemma_no_newline_single(c: char)
    requires
        c != '\n',
    ensures
        !has_newline(seq![c]),
{
    assert(seq![c][0] == c);
}

proof fn lemma_p_emit_token(
    toks: Seq<Token>,
    gb: Set<int>,
    unit: Seq<char>,
    out: Seq<char>,
    depth: nat,
    idx: int,
)
    requires
        0 <= idx < toks.len(),
        printable_token(toks[idx]),
        !has_newline(unit),
        no_space_before_newline(out),
    ensures
        no_space_before_newline(emit_token_spec(toks, gb, unit, out, depth, idx).0),
{
    let r = render_spec(toks[idx].lexeme@);
    let d1: nat = if r == seq!['}'] && depth > 0 {
        (depth - 1) as nat
    } else {
        depth
    };
    let out1 = if r == seq!['}'] {
        let t = trim_spaces(out);
        if t.len() > 0 && !ends_in(t, '\n') {
            newline_indent(t, d1, unit)
        } else {
            t
        }
    } else {
        out
    };
    lemma_p_trim(out);
    if r == seq!['}'] {
        lemma_p_newline_indent(trim_spaces(out), d1, unit);
    }
    assert(no_space_before_newline(out1));
    let g = gb.contains(idx);
    let hugs = no_space_before(r) || call_or_index_open(toks, r, idx) || g;
    let out2 = if hugs {
        trim_spaces(out1)
    } else {
        out1
    };
    lemma_p_trim(out1);
    let needs = idx > 0 && !ends_in(out2, '\n') && !ends_in(out2, ' ') && !ends_in(out2, '\t') && !hugs
        && !prev_suppresses_space(toks, gb, idx);
    let out3 = if needs {
        out2.push(' ')
    } else {
        out2
    };
    lemma_no_newline_single(' ');
    lemma_p_append(out2, seq![' ']);
    assert(out2.push(' ') =~= out2 + seq![' ']);
    let out4 = out3 + r;
    lemma_p_append(out3, r);
    assert(out4.last() == r.last());
    lemma_p_push_newline(out4);
    lemma_p_newline_indent(out4, d1 + 1, unit);
    lemma_p_newline_indent(out4, d1, unit);
    lemma_p_newline_indent(out4.push('\n'), d1, unit);
    lemma_p_append(out4, seq![' ']);
    assert(out4.push(' ') =~= out4 + seq![' ']);
}

proof fn lemma_p_comments(
    cs: Seq<Comment>,
    unit: Seq<char>,
    out: Seq<char>,
    depth: nat,
    next: nat,
    anchor: Option<usize>,
)
    requires
        forall|k: int| 0 <= k < cs.len() ==> !has_newline(#[trigger] cs[k].text@),
        !has_newline(unit),
        no_space_before_newline(out),
    ensures
        no_space_before_newline(comments_spec(cs, unit, out, depth, next, anchor).0),
    decreases cs.len() - next,
{
    if next < cs.len() && cs[next as int].after_token_index == anchor {
        let t = trim_spaces(out);
        lemma_p_trim(out);
        let t2 = if t.len() > 0 && !ends_in(t, '\n') {
            t.push(' ')
        } else {
            t
        };
        lemma_no_newline_single(' ');
        lemma_p_append(t, seq![' ']);
        assert(t.push(' ') =~= t + seq![' ']);
        lemma_p_append(t2, cs[next as int].text@);
        lemma_p_newline_indent(t2 + cs[next as int].text@, depth, unit);
        lemma_p_comments(
            cs,
            unit,
            emit_comment_spec(cs, unit, out, depth, next as int),
            depth,
            next + 1,
            anchor,
        );
    }
}

proof fn lemma_p_print_state(
    toks: Seq<Token>,
    cs: Seq<Comment>,
    gb: Set<int>,
    unit: Seq<char>,
    i: nat,
)
    requires
        printable_input(toks, cs, unit),
        i <= toks.len(),
    ensures
        no_space_before_newline(print_state(toks, cs, gb, unit, i).0),
    decreases i,
{
    if i == 0 {
        lemma_p_comments(cs, unit, Seq::empty(), 0, 0, None);
    } else {
        lemma_p_print_state(toks, cs, gb, unit, (i - 1) as nat);
        let (o, d, nx) = print_state(toks, cs, gb, unit, (i - 1) as nat);
        lemma_p_emit_token(toks, gb, unit, o, d, i - 1);
        let (o2, d2) = emit_token_spec(toks, gb, unit, o, d, i - 1);
        lemma_p_comments(cs, unit, o2, d2, nx, Some((i - 1) as usize));
    }
}

/// Lines are complete: the text ends with a newline.
pub open spec fn complete_lines(s: Seq<char>) -> bool {
    ends_in(s, '\n')
}

proof fn lemma_collapse_shape(s: Seq<char>, i: int, pb: bool)
    requires
        complete_lines(s),
        no_space_before_newline(s),
        0 <= i <= s.len(),
    ensures
        ({
            let r = collapse_from(s, i, pb);
            &&& r.len() == 0 || ends_in(r, '\n')
            &&& no_space_before_newline(r)
            &&& (i < s.len() && !pb ==> r.len() > 0)
        }),
    decreases s.len() - i,
{
    if i < s.len() {
        lemma_line_end_bounds(s, i);
        let e = line_end(s, i);
        let line = s.subrange(i, e);
        let blank = all_whitespace(line);
        lemma_collapse_shape(s, e, true);
        lemma_collapse_shape(s, e, blank);
        if !(blank && pb) {
            let rest = collapse_from(s, e, blank);
            let y = line + rest;
            assert(line.last() == '\n');
            assert forall|k: int| 1 <= k < y.len() && #[trigger] y[k] == '\n' implies y[k - 1] != ' ' by {
                if k < line.len() {
                    assert(y[k] == s[i + k] && y[k - 1] == s[i + k - 1]);
                } else if k == line.len() {
                    assert(y[k - 1] == line.last());
                } else {
                    assert(y[k] == rest[k - line.len()] && y[k - 1] == rest[k - 1 - line.len()]);
                }
            }
            if rest.len() > 0 {
                assert(y.last() == rest.last());
            } else {
                assert(y =~= line);
            }
        }
    }
}

/// Law: a formatted, non-empty source always ends with a newline.
pub proof fn law_format_ends_with_newline(toks: Seq<Token>, cs: Seq<Comment>, unit: Seq<char>)
    requires
        toks.len() > 0 || cs.len() > 0,
    ensures
        ends_in(format_tokens_spec(toks, cs, unit), '\n'),
{
    let o = print_state(toks, cs, generic_marks(toks, 0), unit, toks.len()).0;
    let f = finish_spec(o);
    lemma_trim_spaces_prefix(o);
    assert(ends_in(f, '\n'));
    lemma_collapse_ends(f, 0, false);
}

proof fn lemma_collapse_ends(s: Seq<char>, i: int, pb: bool)
    requires
        complete_lines(s),
        0 <= i <= s.len(),
    ensures
        ({
            let r = collapse_from(s, i, pb);
            &&& r.len() == 0 || ends_in(r, '\n')
            &&& (i < s.len() && !pb ==> r.len() > 0)
        }),
    decreases s.len() - i,
{
    if i < s.len() {
        lemma_line_end_bounds(s, i);
        let e = line_end(s, i);
        let line = s.subrange(i, e);
        let blank = all_whitespace(line);
        lemma_collapse_ends(s, e, true);
        lemma_collapse_ends(s, e, blank);
        if !(blank && pb) {
            let rest = collapse_from(s, e, blank);
            assert(line.last() == '\n');
            if rest.len() > 0 {
                assert((line + rest).last() == rest.last());
            } else {
                assert(line + rest =~= line);
            }
        }
    }
}

/// Law: formatting never leaves a space at the end of a line, for any token stream the lexer
/// could produce (non-empty single-line printed lexemes, single-line comments) and any
/// single-line indent unit.
pub proof fn law_format_no_trailing_spaces(toks: Seq<Token>, cs: Seq<Comment>, unit: Seq<char>)
    requires
        printable_input(toks, cs, unit),
    ensures
        no_trailing_spaces(format_tokens_spec(toks, cs, unit)),
{
    if toks.len() > 0 || cs.len() > 0 {
        let o = print_state(toks, cs, generic_marks(toks, 0), unit, toks.len()).0;
        lemma_p_print_state(toks, cs, generic_marks(toks, 0), unit, toks.len());
        lemma_p_trim(o);
        let t = trim_spaces(o);
        let f = finish_spec(o);
        if !ends_in(t, '\n') {
            lemma_p_push_newline(t);
        }
        lemma_collapse_shape(f, 0, false);
    }
}

/// From position `i` on, no whitespace-only line of `s` directly follows another
/// whitespace-only line (`prev_blank`: the line before `i` was whitespace-only).
pub open spec fn no_blank_pair_from(s: Seq<char>, i: int, prev_blank: bool) -> bool
    decreases s.len() - i,
{
    if i < 0 || i >= s.len() {
        true
    } else {
        let e = line_end(s, i);
        if e <= i || e > s.len() {
            true
        } else {
            let blank = all_whitespace(s.subrange(i, e));
            !(blank && prev_blank) && no_blank_pair_from(s, e, blank)
        }
    }
}

/// No two consecutive lines of `s` are both whitespace-only.
pub open spec fn no_blank_pair(s: Seq<char>) -> bool {
    no_blank_pair_from(s, 0, false)
}

proof fn lemma_line_end_shift(p: Seq<char>, r: Seq<char>, j: int)
    requires
        0 <= j <= r.len(),
    ensures
        line_end(p + r, p.len() + j) == p.len() + line_end(r, j),
    decreases r.len() - j,
{
    let x = p + r;
    if j < r.len() {
        assert(x[p.len() + j] == r[j]);
        if r[j] != '\n' {
            lemma_line_end_shift(p, r, j + 1);
        }
    }
}

proof fn lemma_blank_pair_shift(p: Seq<char>, r: Seq<char>, j: int, b: bool)
    requires
        0 <= j <= r.len(),
    ensures
        no_blank_pair_from(p + r, p.len() + j, b) == no_blank_pair_from(r, j, b),
    decreases r.len() - j,
{
    let x = p + r;
    if j < r.len() {
        lemma_line_end_shift(p, r, j);
        lemma_line_end_bounds(r, j);
        let e = line_end(r, j);
        assert(x.subrange(p.len() + j, p.len() + e) =~= r.subrange(j, e));
        lemma_blank_pair_shift(p, r, e, all_whitespace(r.subrange(j, e)));
    }
}

proof fn lemma_first_line_end(line: Seq<char>, r: Seq<char>, k: int)
    requires
        0 <= k < line.len(),
        line.last() == '\n',
        forall|m: int| 0 <= m < line.len() - 1 ==> line[m] != '\n',
    ensures
        line_end(line + r, k) == line.len(),
    decreases line.len() - k,
{
    let x = line + r;
    assert(x[k] == line[k]);
    if k < line.len() - 1 {
        lemma_first_line_end(line, r, k + 1);
    }
}

proof fn lemma_collapse_no_blank_pair(s: Seq<char>, i: int, pb: bool)
    requires
        0 <= i <= s.len(),
    ensures
        no_blank_pair_from(collapse_from(s, i, pb), 0, pb),
    decreases s.len() - i,
{
    if i < s.len() {
        lemma_line_end_bounds(s, i);
        let e = line_end(s, i);
        let line = s.subrange(i, e);
        let blank = all_whitespace(line);
        if blank && pb {
            lemma_collapse_no_blank_pair(s, e, true);
        } else {
            lemma_collapse_no_blank_pair(s, e, blank);
            let rest = collapse_from(s, e, blank);
            let x = line + rest;
            if e < s.len() || s[e - 1] == '\n' {
                assert(line.last() == s[e - 1]);
            }
            if line.last() == '\n' {
                assert forall|m: int| 0 <= m < line.len() - 1 implies line[m] != '\n' by {
                    assert(line[m] == s[i + m]);
                }
                lemma_first_line_end(line, rest, 0);
                assert(x.subrange(0, line.len() as int) =~= line);
                lemma_blank_pair_shift(line, rest, 0, blank);
                assert(no_blank_pair_from(x, line.len() as int, blank));
                assert(line_end(x, 0) == line.len());
                assert(collapse_from(s, i, pb) == x);
                assert(no_blank_pair_from(x, 0, pb));
            } else {
                assert(e == s.len());
                assert(rest =~= Seq::<char>::empty());
                assert(x =~= line);
                assert forall|m: int| 0 <= m < line.len() implies line[m] != '\n' by {
                    assert(line[m] == s[i + m]);
                }
                lemma_no_newline_line_end(line, 0);
                assert(x.subrange(0, line.len() as int) =~= line);
                assert(no_blank_pair_from(x, line.len() as int, blank));
                assert(line_end(x, 0) == line.len());
                assert(collapse_from(s, i, pb) == x);
                assert(no_blank_pair_from(x, 0, pb));
            }
        }
    }
}

proof fn lemma_no_newline_line_end(s: Seq<char>, k: int)
    requires
        0 <= k <= s.len(),
        forall|m: int| 0 <= m < s.len() ==> s[m] != '\n',
    ensures
        line_end(s, k) == s.len(),
    decreases s.len() - k,
{
    if k < s.len() {
        lemma_no_newline_line_end(s, k + 1);
    }
}

/// Law: formatting never leaves two whitespace-only lines in a row.
pub proof fn law_format_no_double_blank_lines(toks: Seq<Token>, cs: Seq<Comment>, unit: Seq<char>)
    ensures
        no_blank_pair(format_tokens_spec(toks, cs, unit)),
{
    if toks.len() > 0 || cs.len() > 0 {
        let f = finish_spec(print_state(toks, cs, generic_marks(toks, 0), unit, toks.len()).0);
        lemma_collapse_no_blank_pair(f, 0, false);
    }
}

} // verus!
