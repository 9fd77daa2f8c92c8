//! Editor symbol helpers: folding regions from brace matching, the word under the cursor,
//! every occurrence of a word (for references and rename), and which words may be renamed.

use vstd::prelude::*;
use crate::analyzer::{byte_len, utf8_len};
use crate::format::Token;
use crate::signature::{comment_starts, lemma_skip_to_newline, skip_to_newline};
use crate::text::{
    char_is_alphabetic, char_is_alphanumeric, chars_eq, chars_of, eq_lit, is_alphabetic,
    is_alphanumeric,
};

verus! {

/// A foldable region: the 0-based lines of a `{` and of its matching `}`.
#[derive(Clone, Copy, Debug, PartialEq, Eq)]
pub struct FoldingRegion {
    pub start_line: usize,
    pub end_line: usize,
}

/// Regions (as `(start line, end line)`) closed by the scan from position `i`, after those in
/// `ranges`: each `}` pops the line of the innermost open `{` and yields a region when it sits
/// on a later line. String, char literal and comment contents are skipped; a newline ends an
/// unterminated literal.
pub open spec fn scan_folds(
    s: Seq<char>,
    i: int,
    line: int,
    in_string: bool,
    in_char: bool,
    open_lines: Seq<int>,
    ranges: Seq<(int, int)>,
) -> Seq<(int, int)>
    decreases s.len() - i,
{
    if i < 0 || i >= s.len() {
        ranges
    } else {
        let c = s[i];
        if c == '\n' {
            scan_folds(s, i + 1, line + 1, false, false, open_lines, ranges)
        } else if in_string || in_char {
            if c == '\\' {
                if i + 2 > s.len() {
                    ranges
                } else {
                    scan_folds(s, i + 2, line, in_string, in_char, open_lines, ranges)
                }
            } else if (in_string && c == '"') || (in_char && c == '\'') {
                scan_folds(s, i + 1, line, false, false, open_lines, ranges)
            } else {
                scan_folds(s, i + 1, line, in_string, in_char, open_lines, ranges)
            }
        } else if c == '"' {
            scan_folds(s, i + 1, line, true, in_char, open_lines, ranges)
        } else if c == '\'' {
            scan_folds(s, i + 1, line, in_string, true, open_lines, ranges)
        } else if comment_starts(s, i) {
            let j = skip_to_newline(s, i);
            if j <= i || j > s.len() {
                ranges
            } else {
                scan_folds(s, j, line, in_string, in_char, open_lines, ranges)
            }
        } else if c == '{' {
            scan_folds(s, i + 1, line, in_string, in_char, open_lines.push(line), ranges)
        } else if c == '}' && open_lines.len() > 0 {
            let start = open_lines.last();
            scan_folds(
                s,
                i + 1,
                line,
                in_string,
                in_char,
                open_lines.drop_last(),
                if line > start {
                    ranges.push((start, line))
                } else {
                    ranges
                },
            )
        } else {
            scan_folds(s, i + 1, line, in_string, in_char, open_lines, ranges)
        }
    }
}

pub open spec fn region_view(r: FoldingRegion) -> (int, int) {
    (r.start_line as int, r.end_line as int)
}

/// Folding regions for every `{ ... }` block spanning more than one line, in the order their
/// closing braces appear. Every region starts on an earlier line than it ends.
pub fn folding_ranges(source: &str) -> (r: Vec<FoldingRegion>)
    ensures
        r@.map_values(|x: FoldingRegion| region_view(x)) == scan_folds(
            source@,
            0,
            0,
            false,
            false,
            Seq::empty(),
            Seq::empty(),
        ),
        forall|k: int| 0 <= k < r@.len() ==> (#[trigger] r@[k]).start_line < r@[k].end_line,
{
    let chars = chars_of(source);
    let n = chars.len();
    let ghost s = chars@;
    let ghost target = scan_folds(s, 0, 0, false, false, Seq::empty(), Seq::empty());
    let mut ranges: Vec<FoldingRegion> = Vec::new();
    let mut open_lines: Vec<usize> = Vec::new();
    let mut line: usize = 0;
    let mut in_string = false;
    let mut in_char = false;
    let mut i: usize = 0;
    assert(open_lines@.map_values(|x: usize| x as int) =~= Seq::<int>::empty());
    assert(ranges@.map_values(|x: FoldingRegion| region_view(x)) =~= Seq::<(int, int)>::empty());
    while i < n
        invariant
            n == chars.len(),
            s == chars@,
            i <= n,
            line <= i,
            forall|k: int| 0 <= k < ranges@.len() ==> (#[trigger] ranges@[k]).start_line
                < ranges@[k].end_line,
            scan_folds(
                s,
                i as int,
                line as int,
                in_string,
                in_char,
                open_lines@.map_values(|x: usize| x as int),
                ranges@.map_values(|x: FoldingRegion| region_view(x)),
            ) == target,
        ensures
            ranges@.map_values(|x: FoldingRegion| region_view(x)) == target,
            forall|k: int| 0 <= k < ranges@.len() ==> (#[trigger] ranges@[k]).start_line
                < ranges@[k].end_line,
        decreases n - i,
    {
        let ghost ol = open_lines@.map_values(|x: usize| x as int);
        let ghost rg = ranges@.map_values(|x: FoldingRegion| region_view(x));
        let c = chars[i];
        if c == '\n' {
            line = line + 1;
            in_string = false;
            in_char = false;
            i = i + 1;
            continue;
        }
        if in_string || in_char {
            if c == '\\' {
                if i + 1 >= n {
                    break;
                }
                i = i + 2;
                continue;
            }
            if (in_string && c == '"') || (in_char && c == '\'') {
                in_string = false;
                in_char = false;
            }
            i = i + 1;
            continue;
        }
        if c == '"' {
            in_string = true;
        } else if c == '\'' {
            in_char = true;
        } else if (c == '#' && !(i + 1 < n && chars[i + 1] == '[')) || (c == '/' && i + 1 < n
            && chars[i + 1] == '/') {
            assert(comment_starts(s, i as int));
            proof {
                lemma_skip_to_newline(s, i as int);
            }
            let ghost start = i;
            while i < n && chars[i] != '\n'
                invariant
                    start <= i <= n,
                    n == chars.len(),
                    s == chars@,
                    skip_to_newline(s, start as int) == skip_to_newline(s, i as int),
                decreases n - i,
            {
                i = i + 1;
            }
            assert(i as int == skip_to_newline(s, i as int));
            continue;
        } else if c == '{' {
            open_lines.push(line);
            assert(open_lines@.map_values(|x: usize| x as int) =~= ol.push(line as int));
        } else if c == '}' {
            if open_lines.len() > 0 {
                let start_line = open_lines.pop().unwrap();
                assert(open_lines@.map_values(|x: usize| x as int) =~= ol.drop_last());
                if line > start_line {
                    ranges.push(FoldingRegion { start_line, end_line: line });
                    assert(ranges@.map_values(|x: FoldingRegion| region_view(x)) =~= rg.push(
                        (start_line as int, line as int),
                    ));
                }
            }
        }
        i = i + 1;
    }
    ranges
}

/// Statement keywords offered by completion and never renameable.
pub open spec fn is_lsp_keyword(w: Seq<char>) -> bool {
    w == "leta"@ || w == "kazi"@ || w == "umbo"@ || w == "sifa"@ || w == "shughuli"@ || w
        == "ya"@ || w == "weka"@ || w == "thabiti"@ || w == "rejesha"@ || w == "ikiwa"@ || w
        == "au_ikiwa"@ || w == "vinginevyo"@ || w == "kwa"@ || w == "katika"@ || w == "kutoka"@
        || w == "hadi"@ || w == "wakati"@ || w == "milele"@ || w == "linganisha"@ || w
        == "vunja"@ || w == "endelea"@ || w == "lebo"@ || w == "tupa"@ || w == "jaribu"@ || w
        == "kama"@ || w == "azima"@ || w == "azima_tenda"@ || w == "umma"@ || w == "siyo"@ || w
        == "na"@ || w == "au"@ || w == "kweli"@ || w == "si_kweli"@
}

/// Built-in type names.
pub open spec fn is_builtin_type(w: Seq<char>) -> bool {
    w == "Namba"@ || w == "Neno"@ || w == "Ukweli"@ || w == "Herufi"@ || w == "Tupu"@ || w
        == "Hamna"@ || w == "Orodha"@ || w == "Kamusi"@ || w == "Jozi"@ || w == "Chaguo"@ || w
        == "Tokeo"@ || w == "Biti8"@ || w == "Biti16"@ || w == "Biti32"@ || w == "Biti64"@ || w
        == "uBiti8"@ || w == "uBiti16"@ || w == "uBiti32"@ || w == "uBiti64"@
}

fn is_lsp_keyword_exec(w: &Vec<char>) -> (r: bool)
    ensures
        r == is_lsp_keyword(w@),
{
    eq_lit(w, "leta") || eq_lit(w, "kazi") || eq_lit(w, "umbo") || eq_lit(w, "sifa") || eq_lit(
        w,
        "shughuli",
    ) || eq_lit(w, "ya") || eq_lit(w, "weka") || eq_lit(w, "thabiti") || eq_lit(w, "rejesha")
        || eq_lit(w, "ikiwa") || eq_lit(w, "au_ikiwa") || eq_lit(w, "vinginevyo") || eq_lit(
        w,
        "kwa",
    ) || eq_lit(w, "katika") || eq_lit(w, "kutoka") || eq_lit(w, "hadi") || eq_lit(w, "wakati")
        || eq_lit(w, "milele") || eq_lit(w, "linganisha") || eq_lit(w, "vunja") || eq_lit(
        w,
        "endelea",
    ) || eq_lit(w, "lebo") || eq_lit(w, "tupa") || eq_lit(w, "jaribu") || eq_lit(w, "kama")
        || eq_lit(w, "azima") || eq_lit(w, "azima_tenda") || eq_lit(w, "umma") || eq_lit(
        w,
        "siyo",
    ) || eq_lit(w, "na") || eq_lit(w, "au") || eq_lit(w, "kweli") || eq_lit(w, "si_kweli")
}

fn is_builtin_type_exec(w: &Vec<char>) -> (r: bool)
    ensures
        r == is_builtin_type(w@),
{
    eq_lit(w, "Namba") || eq_lit(w, "Neno") || eq_lit(w, "Ukweli") || eq_lit(w, "Herufi")
        || eq_lit(w, "Tupu") || eq_lit(w, "Hamna") || eq_lit(w, "Orodha") || eq_lit(w, "Kamusi")
        || eq_lit(w, "Jozi") || eq_lit(w, "Chaguo") || eq_lit(w, "Tokeo") || eq_lit(w, "Biti8")
        || eq_lit(w, "Biti16") || eq_lit(w, "Biti32") || eq_lit(w, "Biti64") || eq_lit(
        w,
        "uBiti8",
    ) || eq_lit(w, "uBiti16") || eq_lit(w, "uBiti32") || eq_lit(w, "uBiti64")
}

/// A real identifier that a rename may be offered for: starts with a letter or `_`, consists
/// of alphanumerics and `_`, and is neither a keyword nor a built-in type name.
pub open spec fn renameable(w: Seq<char>) -> bool {
    w.len() > 0 && (char_is_alphabetic(w[0]) || w[0] == '_') && (forall|i: int|
        0 <= i < w.len() ==> char_is_alphanumeric(#[trigger] w[i]) || w[i] == '_')
        && !is_lsp_keyword(w) && !is_builtin_type(w)
}

/// Whether a rename should be offered for `word` (see `renameable`).
pub fn can_rename(word: &str) -> (r: bool)
    ensures
        r == renameable(word@),
{
    let w = chars_of(word);
    if w.len() == 0 {
        return false;
    }
    if !(is_alphabetic(w[0]) || w[0] == '_') {
        return false;
    }
    let mut i: usize = 0;
    while i < w.len()
        invariant
            i <= w.len(),
            w@ == word@,
            forall|j: int| 0 <= j < i ==> char_is_alphanumeric(#[trigger] w@[j]) || w@[j] == '_',
        decreases w.len() - i,
    {
        if !(is_alphanumeric(w[i]) || w[i] == '_') {
            assert(!(char_is_alphanumeric(word@[i as int]) || word@[i as int] == '_'));
            assert(!renameable(word@));
            return false;
        }
        i = i + 1;
    }
    !is_lsp_keyword_exec(&w) && !is_builtin_type_exec(&w)
}

/// A token's source span: 0-based line, 0-based start column, end column (columns count UTF-8
/// bytes, as the lexer's do).
#[derive(Clone, Copy, Debug, PartialEq, Eq)]
pub struct Span {
    pub line: usize,
    pub start: usize,
    pub end: usize,
}

/// The token under the 1-based cursor `(line_1, col_1)`: it starts on that line at or before
/// the column and extends to at least it.
pub open spec fn under_cursor(t: Token, line_1: int, col_1: int) -> bool {
    t.line == line_1 && t.column <= col_1 <= t.column + utf8_len(t.lexeme@)
}

/// Index of the first token under the cursor, from `i` on.
pub open spec fn first_under_cursor(toks: Seq<Token>, line_1: int, col_1: int, i: int) -> Option<int>
    decreases toks.len() - i,
{
    if i < 0 || i >= toks.len() {
        None
    } else if under_cursor(toks[i], line_1, col_1) {
        Some(i)
    } else {
        first_under_cursor(toks, line_1, col_1, i + 1)
    }
}

/// The lexeme of the first token under the 0-based cursor `(line_0, char_0)`.
pub fn word_at(tokens: &[Token], line_0: u32, char_0: u32) -> (r: Option<String>)
    ensures
        match first_under_cursor(tokens@, line_0 + 1, char_0 + 1, 0) {
            None => r is None,
            Some(k) => r matches Some(w) && w@ == tokens@[k].lexeme@,
        },
{
    let line_1 = line_0 as u64 + 1;
    let col_1 = char_0 as u64 + 1;
    let mut i: usize = 0;
    while i < tokens.len()
        invariant
            i <= tokens.len(),
            line_1 == line_0 + 1,
            col_1 == char_0 + 1,
            first_under_cursor(tokens@, line_0 + 1, char_0 + 1, 0) == first_under_cursor(
                tokens@,
                line_0 + 1,
                char_0 + 1,
                i as int,
            ),
        decreases tokens.len() - i,
    {
        let t = &tokens[i];
        let w_len = byte_len(t.lexeme.as_str());
        if t.line as u64 == line_1 && t.column as u64 <= col_1 && col_1 - t.column as u64
            <= w_len as u64 {
            return Some(t.lexeme.clone());
        }
        i = i + 1;
    }
    None
}

/// The span of a token whose lexeme is `word`: its 0-based line and start character, and the
/// start plus `word`'s length.
pub open spec fn span_of(t: Token, word_len: int) -> (int, int, int) {
    let l = if t.line > 0 {
        t.line - 1
    } else {
        0
    };
    let sc = if t.column > 0 {
        t.column - 1
    } else {
        0
    };
    (l, sc, sc + word_len)
}

pub open spec fn span_view(s: Span) -> (int, int, int) {
    (s.line as int, s.start as int, s.end as int)
}

/// Spans of the tokens in `toks[..i]` whose lexeme is `word`, in order.
pub open spec fn occurrence_spans(toks: Seq<Token>, word: Seq<char>, i: int) -> Seq<(int, int, int)>
    decreases i,
{
    if i <= 0 || i > toks.len() {
        Seq::empty()
    } else {
        let rest = occurrence_spans(toks, word, i - 1);
        if toks[i - 1].lexeme@ == word {
            rest.push(span_of(toks[i - 1], utf8_len(word) as int))
        } else {
            rest
        }
    }
}

/// Every token occurrence of `word` (used for references across files and for rename edits),
/// its span's end counted in UTF-8 bytes.
pub fn rename_locations(tokens: &[Token], word: &str) -> (r: Vec<Span>)
    requires
        forall|k: int| 0 <= k < tokens@.len() ==> (#[trigger] tokens@[k]).column + utf8_len(word@)
            <= usize::MAX,
    ensures
        r@.map_values(|s: Span| span_view(s)) == occurrence_spans(
            tokens@,
            word@,
            tokens@.len() as int,
        ),
{
    let w = chars_of(word);
    let wl = byte_len(word);
    let mut out: Vec<Span> = Vec::new();
    let mut i: usize = 0;
    assert(out@.map_values(|s: Span| span_view(s)) =~= Seq::<(int, int, int)>::empty());
    while i < tokens.len()
        invariant
            i <= tokens.len(),
            w@ == word@,
            wl == utf8_len(word@),
            forall|k: int| 0 <= k < tokens@.len() ==> (#[trigger] tokens@[k]).column + utf8_len(word@)
                <= usize::MAX,
            out@.map_values(|s: Span| span_view(s)) == occurrence_spans(tokens@, word@, i as int),
        decreases tokens.len() - i,
    {
        let t = &tokens[i];
        let lex = chars_of(t.lexeme.as_str());
        let ghost before = out@.map_values(|s: Span| span_view(s));
        if chars_eq(lex.as_slice(), w.as_slice()) {
            let l = if t.line > 0 {
                t.line - 1
            } else {
                0
            };
            let sc = if t.column > 0 {
                t.column - 1
            } else {
                0
            };
            out.push(Span { line: l, start: sc, end: sc + wl });
            assert(out@.map_values(|s: Span| span_view(s)) =~= before.push(
                span_of(tokens@[i as int], utf8_len(word@) as int),
            ));
        }
        i = i + 1;
    }
    out
}

} // verus!
