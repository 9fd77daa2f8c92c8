//! Editor formatting: a document's canonical layout under the project's formatter settings,
//! and the text edit that turns the document into it.

use vstd::prelude::*;
use crate::analyzer::{byte_len, utf8_len};
use crate::format::{canonical_format_spec, canonical_format_with_indent, lexed_view, Comment, Token};
use crate::format_config::{indent_unit_spec, FormatterConfig};
use crate::text::{chars_eq, chars_of, lines_of, string_of, LineReader};

verus! {

/// A position in a document: 0-based line and character offset.
#[derive(Clone, Copy, Debug, PartialEq, Eq, Structural)]
pub struct Position {
    pub line: u32,
    pub character: u32,
}

/// A range of a document, from `start` to `end`.
#[derive(Clone, Copy, Debug, PartialEq, Eq, Structural)]
pub struct Range {
    pub start: Position,
    pub end: Position,
}

/// Replace the text of `range` by `new_text`.
#[derive(Clone, Debug)]
pub struct TextEdit {
    pub range: Range,
    pub new_text: String,
}

/// The canonical layout of `text` under `config`'s indentation (see `canonical_format_spec`).
pub open spec fn document_layout(
    text: Seq<char>,
    lexed: Option<(Seq<Token>, Seq<Comment>)>,
    config: FormatterConfig,
) -> Seq<char> {
    canonical_format_spec(text, lexed, indent_unit_spec(config))
}

/// The range that covers a whole document as `str::lines` splits it: from the start to the end
/// of its last line (line and length counted as `u32`, the length in UTF-8 bytes).
pub open spec fn whole_document(text: Seq<char>) -> Range {
    let lines = lines_of(text);
    let count = lines.len() as u32;
    let last_line: u32 = if count == 0 {
        0
    } else {
        (count - 1) as u32
    };
    let last_len: u32 = if lines.len() == 0 {
        0
    } else {
        utf8_len(lines.last()) as u32
    };
    Range { start: Position { line: 0, character: 0 }, end: Position { line: last_line, character: last_len } }
}

/// `text` laid out canonically with the indentation of `config`. `lexed` is the lexer's result
/// for `text`, `None` when it did not lex (the text is then returned unchanged).
pub fn format_document(text: &str, lexed: &Option<(Vec<Token>, Vec<Comment>)>, config: &FormatterConfig) -> (r:
    String)
    ensures
        r@ == document_layout(text@, lexed_view(lexed), *config),
{
    let unit = config.indent_unit();
    canonical_format_with_indent(text, lexed, unit.as_str())
}

/// The edits that format a whole document: none when it is already in canonical layout,
/// otherwise one edit replacing the whole document (`whole_document`) by its layout.
pub fn format_to_edits(text: &str, lexed: &Option<(Vec<Token>, Vec<Comment>)>, config: &FormatterConfig) -> (r:
    Option<Vec<TextEdit>>)
    ensures
        r matches Some(edits) && {
            let formatted = document_layout(text@, lexed_view(lexed), *config);
            if formatted == text@ {
                edits@.len() == 0
            } else {
                &&& edits@.len() == 1
                &&& edits@[0].range == whole_document(text@)
                &&& edits@[0].new_text@ == formatted
            }
        },
{
    let formatted = format_document(text, lexed, config);
    let f = chars_of(formatted.as_str());
    let t = chars_of(text);
    if chars_eq(f.as_slice(), t.as_slice()) {
        return Some(Vec::new());
    }
    let mut reader = LineReader::new(text);
    let mut count: usize = 0;
    let mut last: Vec<char> = Vec::new();
    let ghost all = lines_of(text@);
    proof {
        crate::text::lemma_lines_from_len(text@, 0);
    }
    loop
        invariant
            reader.text@ == text@,
            t@ == text@,
            all == lines_of(text@),
            all.len() <= text@.len(),
            count <= all.len(),
            reader.rest() == all.subrange(count as int, all.len() as int),
            count > 0 ==> last@ == all[count - 1],
        ensures
            count == all.len(),
            count > 0 ==> last@ == all[count - 1],
        decreases all.len() - count,
    {
        match reader.next_line() {
            None => {
                assert(count == all.len());
                break;
            },
            Some(line) => {
                assert(all[count as int] == line@);
                last = line;
                count = count + 1;
            },
        }
    }
    assert(count == all.len());
    let count32: u32 = #[verifier::truncate] (count as u32);
    let last_line: u32 = if count32 == 0 {
        0
    } else {
        count32 - 1
    };
    let last_len: u32 = if count == 0 {
        0
    } else {
        let s = string_of(last.as_slice());
        #[verifier::truncate] (byte_len(s.as_str()) as u32)
    };
    let range = Range { start: Position { line: 0, character: 0 }, end: Position { line: last_line, character: last_len } };
    let mut edits: Vec<TextEdit> = Vec::new();
    edits.push(TextEdit { range, new_text: formatted });
    Some(edits)
}

} // verus!
