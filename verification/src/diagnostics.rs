//! Placing diagnostics in an editor: the symbol a message names, where it sits on a line, the
//! range each front-end diagnostic gets, and which documents get no diagnostics.

use vstd::prelude::*;
use crate::analyzer::{byte_len, utf8_len};
use crate::document_format::{Position, Range};
use crate::text::{
    ascii_alphanumeric, chars_of, ends_with, is_alphanumeric, is_ascii_alphanumeric, lines_of, matches_at,
    occurs_at, skip_whitespace_forward, slice_vec, str_ends_with, string_of, trim, trim_bounds, trim_start,
    word_char, LineReader,
};

verus! {

/// Whether `m` has `": "` at `i`.
pub open spec fn colon_space_at(m: Seq<char>, i: int) -> bool {
    0 <= i && i + 1 < m.len() && m[i] == ':' && m[i + 1] == ' '
}

/// The index of the last `": "` in `m` starting at or before `i`.
pub open spec fn last_colon_space_upto(m: Seq<char>, i: int) -> Option<int>
    decreases i + 1,
{
    if i < 0 {
        None
    } else if colon_space_at(m, i) {
        Some(i)
    } else {
        last_colon_space_upto(m, i - 1)
    }
}

/// The symbol a message of the form `prefix: name` names: the trimmed text after its last
/// `": "`.
pub open spec fn symbol_in_message(m: Seq<char>) -> Option<Seq<char>> {
    match last_colon_space_upto(m, m.len() - 1) {
        Some(i) => Some(trim(m.subrange(i + 2, m.len() as int))),
        None => None,
    }
}

/// The symbol named after the last `": "` of a diagnostic message.
pub fn extract_symbol_from_message(msg: &str) -> (r: Option<String>)
    ensures
        crate::commands::opt_view(r) == symbol_in_message(msg@),
{
    let v = chars_of(msg);
    if v.len() < 2 {
        proof {
            assert(last_colon_space_upto(msg@, -1) is None);
            if v.len() == 1 {
                assert(!colon_space_at(msg@, 0));
            }
        }
        return None;
    }
    let mut i: usize = v.len() - 1;
    loop
        invariant
            i < v.len(),
            v@ == msg@,
            last_colon_space_upto(msg@, msg@.len() - 1) == last_colon_space_upto(msg@, i as int),
        decreases i,
    {
        if i + 1 < v.len() && v[i] == ':' && v[i + 1] == ' ' {
            let (a, b) = trim_bounds(&v, i + 2, v.len());
            let t = slice_vec(&v, a, b);
            return Some(string_of(t.as_slice()));
        }
        if i == 0 {
            return None;
        }
        i = i - 1;
    }
}

/// A word character for symbol search: ASCII letter, digit or `_`.
pub open spec fn ascii_word(c: char) -> bool {
    ascii_alphanumeric(c) || c == '_'
}

/// `symbol` occurs at `p` on `line` with no ASCII word character right before or after.
pub open spec fn symbol_at(line: Seq<char>, symbol: Seq<char>, p: int) -> bool {
    &&& occurs_at(line, symbol, p)
    &&& (p == 0 || !ascii_word(line[p - 1]))
    &&& (p + symbol.len() >= line.len() || !ascii_word(line[p + symbol.len()]))
}

/// The first whole-word position of `symbol` on `line` at or after `p`.
pub open spec fn first_symbol_from(line: Seq<char>, symbol: Seq<char>, p: int) -> Option<int>
    decreases line.len() - p,
{
    if p < 0 || p >= line.len() {
        None
    } else if symbol_at(line, symbol, p) {
        Some(p)
    } else {
        first_symbol_from(line, symbol, p + 1)
    }
}

/// The first whole-word position of a non-empty `symbol` on `line`.
pub open spec fn first_symbol_at(line: Seq<char>, symbol: Seq<char>) -> Option<int> {
    if symbol.len() > 0 {
        first_symbol_from(line, symbol, 0)
    } else {
        None
    }
}

/// The `u32` byte offset of character position `p` of `line` (wrapping past `u32::MAX` as a
/// cast does).
pub open spec fn byte_pos(line: Seq<char>, p: int) -> u32 {
    utf8_len(line.subrange(0, p)) as u32
}

fn byte_offset(l: &Vec<char>, p: usize) -> (r: u32)
    requires
        p <= l.len(),
    ensures
        r == byte_pos(l@, p as int),
{
    let prefix = string_of(slice_vec(l, 0, p).as_slice());
    #[verifier::truncate]
    (byte_len(prefix.as_str()) as u32)
}

/// The byte span `(start, end)` of the first whole-word occurrence of `symbol` on `line_text`.
pub fn find_symbol_on_line(line_text: &str, symbol: &str) -> (r: Option<(u32, u32)>)
    ensures
        r == match first_symbol_at(line_text@, symbol@) {
            Some(p) => Some((byte_pos(line_text@, p), byte_pos(line_text@, p + symbol@.len()))),
            None => None,
        },
{
    let l = chars_of(line_text);
    let s = chars_of(symbol);
    find_symbol_in(&l, &s)
}

fn find_symbol_in(l: &Vec<char>, s: &Vec<char>) -> (r: Option<(u32, u32)>)
    ensures
        r == match first_symbol_at(l@, s@) {
            Some(p) => Some((byte_pos(l@, p), byte_pos(l@, p + s@.len()))),
            None => None,
        },
{
    if s.len() == 0 {
        return None;
    }
    let mut p: usize = 0;
    while p < l.len()
        invariant
            p <= l.len(),
            s.len() > 0,
            first_symbol_from(l@, s@, 0) == first_symbol_from(l@, s@, p as int),
        decreases l.len() - p,
    {
        if matches_at(l, p, s.as_slice()) {
            let before = p == 0 || !(is_ascii_alphanumeric(l[p - 1]) || l[p - 1] == '_');
            let after_idx = p + s.len();
            let after = after_idx >= l.len() || !(is_ascii_alphanumeric(l[after_idx]) || l[after_idx] == '_');
            if before && after {
                assert(symbol_at(l@, s@, p as int));
                return Some((byte_offset(l, p), byte_offset(l, after_idx)));
            }
        }
        p = p + 1;
    }
    None
}

/// Splitting a text splits its UTF-8 length.
pub proof fn lemma_utf8_len_split(s: Seq<char>, k: int)
    requires
        0 <= k <= s.len(),
    ensures
        utf8_len(s) == utf8_len(s.subrange(0, k)) + utf8_len(s.subrange(k, s.len() as int)),
    decreases s.len(),
{
    if k == s.len() {
        assert(s.subrange(0, k) =~= s);
        assert(s.subrange(k, s.len() as int) =~= Seq::<char>::empty());
    } else {
        lemma_utf8_len_split(s.drop_last(), k);
        assert(s.drop_last().subrange(0, k) =~= s.subrange(0, k));
        assert(s.subrange(k, s.len() as int).drop_last() =~= s.drop_last().subrange(k, s.len() - 1));
        assert(s.subrange(k, s.len() as int).last() == s.last());
    }
}

/// The number of leading word characters (Unicode alphanumerics and `_`) of `s`.
pub open spec fn word_prefix_len(s: Seq<char>) -> int
    decreases s.len(),
{
    if s.len() > 0 && word_char(s[0]) {
        1 + word_prefix_len(s.drop_first())
    } else {
        0
    }
}

/// The byte span of the first word of a line after its indentation.
pub open spec fn first_word_span(line: Seq<char>) -> (u32, u32) {
    let rest = trim_start(line);
    let lead = utf8_len(line) - utf8_len(rest);
    let word = utf8_len(rest.subrange(0, word_prefix_len(rest)));
    (lead as u32, (lead + word) as u32)
}

/// A diagnostic as the Asili front end reports it: code, stage, message and its 1-based
/// `(line, column)` when it has one.
#[derive(Clone, Debug)]
pub struct SourceDiagnostic {
    pub code: String,
    pub stage: String,
    pub message: String,
    pub span: Option<(usize, usize)>,
}

/// A diagnostic placed in the editor, reported as an error: its range, code, source (the stage)
/// and message.
#[derive(Clone, Debug)]
pub struct EditorDiagnostic {
    pub range: Range,
    pub code: String,
    pub source: String,
    pub message: String,
}

/// `n - 1` for a 1-based position, `0` for `0`, as a `u32` (wrapping as a cast does).
pub open spec fn zero_based(n: usize) -> u32 {
    (if n >= 1 {
        n - 1
    } else {
        0
    }) as u32
}

/// Where a diagnostic goes: no span marks the first character of the document; a span with a
/// column marks that one character; a column-less span (column 0 or 1) on an existing line
/// marks the symbol the message names where it stands on that line as a whole word, else the
/// line's first word.
pub open spec fn diagnostic_range(lines: Seq<Seq<char>>, message: Seq<char>, span: Option<(usize, usize)>) -> Range {
    match span {
        None => Range { start: Position { line: 0, character: 0 }, end: Position { line: 0, character: 1 } },
        Some((line, column)) => {
            let li = zero_based(line);
            let col = zero_based(column);
            let (s, e) = if col == 0 && (li as int) < lines.len() {
                let text = lines[li as int];
                let symbol = match symbol_in_message(message) {
                    Some(sym) => sym,
                    None => Seq::empty(),
                };
                match first_symbol_at(text, symbol) {
                    Some(p) => (byte_pos(text, p), byte_pos(text, p + symbol.len())),
                    None => first_word_span(text),
                }
            } else {
                (col, (col + 1) as u32)
            };
            Range { start: Position { line: li, character: s }, end: Position { line: li, character: e } }
        },
    }
}

/// Each column fits the `u32` the editor counts in, with room for the one-character range.
pub open spec fn columns_fit(diags: Seq<SourceDiagnostic>) -> bool {
    forall|k: int|
        0 <= k < diags.len() ==> match (#[trigger] diags[k]).span {
            Some((_, column)) => zero_based(column) < u32::MAX,
            None => true,
        }
}

fn first_word_span_of(l: &Vec<char>) -> (r: (u32, u32))
    ensures
        r == first_word_span(l@),
{
    let a = skip_whitespace_forward(l, 0, l.len());
    assert(l@.subrange(0, l.len() as int) =~= l@);
    let mut b = a;
    while b < l.len() && (is_alphanumeric(l[b]) || l[b] == '_')
        invariant
            a <= b <= l.len(),
            word_prefix_len(l@.subrange(a as int, l.len() as int)) == (b - a) + word_prefix_len(
                l@.subrange(b as int, l.len() as int),
            ),
        decreases l.len() - b,
    {
        assert(l@.subrange(b as int, l.len() as int).drop_first() =~= l@.subrange(b + 1, l.len() as int));
        b = b + 1;
    }
    let ghost rest = l@.subrange(a as int, l.len() as int);
    assert(word_prefix_len(l@.subrange(b as int, l.len() as int)) == 0);
    assert(rest.subrange(0, (b - a) as int) =~= l@.subrange(a as int, b as int));
    let whole = byte_len(string_of(l.as_slice()).as_str());
    let tail = byte_len(string_of(slice_vec(l, a, l.len()).as_slice()).as_str());
    let word = byte_len(string_of(slice_vec(l, a, b).as_slice()).as_str());
    proof {
        lemma_utf8_len_split(l@, a as int);
        lemma_utf8_len_split(rest, (b - a) as int);
    }
    let lead = whole - tail;
    (#[verifier::truncate] (lead as u32), #[verifier::truncate] ((lead + word) as u32))
}

/// The editor's form of front-end diagnostics on `source`, each placed by `diagnostic_range`.
pub fn asili_diagnostics_to_lsp_with_source(diags: &Vec<SourceDiagnostic>, source: &str) -> (r: Vec<EditorDiagnostic>)
    requires
        columns_fit(diags@),
    ensures
        r@.len() == diags@.len(),
        forall|k: int|
            0 <= k < r@.len() ==> {
                let d = diags@[k];
                &&& (#[trigger] r@[k]).range == diagnostic_range(lines_of(source@), d.message@, d.span)
                &&& r@[k].code@ == d.code@
                &&& r@[k].source@ == d.stage@
                &&& r@[k].message@ == d.message@
            },
{
    let mut lines: Vec<Vec<char>> = Vec::new();
    let mut reader = LineReader::new(source);
    let ghost all = lines_of(source@);
    loop
        invariant
            reader.rest() == all.subrange(lines@.len() as int, all.len() as int),
            all == lines_of(source@),
            lines@.len() <= all.len(),
            forall|j: int| 0 <= j < lines@.len() ==> (#[trigger] lines@[j])@ == all[j],
        ensures
            lines@.len() == all.len(),
            forall|j: int| 0 <= j < lines@.len() ==> (#[trigger] lines@[j])@ == all[j],
        decreases all.len() - lines@.len(),
    {
        match reader.next_line() {
            None => {
                break;
            },
            Some(line) => {
                assert(all[lines@.len() as int] == line@);
                lines.push(line);
            },
        }
    }
    let mut out: Vec<EditorDiagnostic> = Vec::new();
    let mut i: usize = 0;
    while i < diags.len()
        invariant
            i <= diags.len(),
            out@.len() == i,
            columns_fit(diags@),
            lines@.len() == all.len(),
            all == lines_of(source@),
            forall|j: int| 0 <= j < lines@.len() ==> (#[trigger] lines@[j])@ == all[j],
            forall|k: int|
                0 <= k < i ==> {
                    let d = diags@[k];
                    &&& (#[trigger] out@[k]).range == diagnostic_range(all, d.message@, d.span)
                    &&& out@[k].code@ == d.code@
                    &&& out@[k].source@ == d.stage@
                    &&& out@[k].message@ == d.message@
                },
        decreases diags.len() - i,
    {
        let d = &diags[i];
        assert(columns_fit(diags@) ==> match diags@[i as int].span {
            Some((_, column)) => zero_based(column) < u32::MAX,
            None => true,
        });
        let range = match d.span {
            None => Range { start: Position { line: 0, character: 0 }, end: Position { line: 0, character: 1 } },
            Some((line, column)) => {
                let li: u32 = #[verifier::truncate] ((if line >= 1 { line - 1 } else { 0 }) as u32);
                let col: u32 = #[verifier::truncate] ((if column >= 1 { column - 1 } else { 0 }) as u32);
                let (s, e) = if col == 0 && (li as usize) < lines.len() {
                    let text = &lines[li as usize];
                    let symbol: Vec<char> = match extract_symbol_from_message(d.message.as_str()) {
                        Some(sym) => chars_of(sym.as_str()),
                        None => Vec::new(),
                    };
                    match find_symbol_in(text, &symbol) {
                        Some(found) => found,
                        None => first_word_span_of(text),
                    }
                } else {
                    (col, col + 1)
                };
                Range { start: Position { line: li, character: s }, end: Position { line: li, character: e } }
            },
        };
        out.push(EditorDiagnostic { range, code: d.code.clone(), source: d.stage.clone(), message: d.message.clone() });
        i = i + 1;
    }
    out
}

/// Whether a document is an `.asi` interface stub (declarations only, never diagnosed).
pub fn is_interface_stub(uri: &str) -> (r: bool)
    ensures
        r == ends_with(uri@, ".asi"@),
{
    str_ends_with(uri, ".asi")
}

} // verus!
