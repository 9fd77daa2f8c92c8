//! Code lenses: a "run this test" action above every test function of a document.

use vstd::prelude::*;
use crate::document_format::{Position, Range};
use crate::outline::{FnDecl, ModuleOutline};
use crate::outline_symbols::{line0, zero_based};
use crate::text::{chars_of, views};
use crate::workspace::contains_name;

verus! {

/// An action shown above a line: where, its title, the editor command it runs and the
/// command's arguments.
#[derive(Clone, Debug)]
pub struct CodeLens {
    pub range: Range,
    pub title: String,
    pub command: String,
    pub arguments: Vec<String>,
}

/// A test function: one marked `#[jaribio]`.
pub open spec fn is_test_fn(f: FnDecl) -> bool {
    views(f.attrs@).contains("jaribio"@)
}

/// The whole of a 1-based line: from its start to the largest column the editor accepts.
pub open spec fn line_range(line: usize) -> Range {
    let l = line0(line) as u32;
    Range { start: Position { line: l, character: 0 }, end: Position { line: l, character: 0x7fff_ffff } }
}

/// A lens as plain values: range, title, command, arguments.
pub type LensView = (Range, Seq<char>, Seq<char>, Seq<Seq<char>>);

pub open spec fn lens_view(c: CodeLens) -> LensView {
    (c.range, c.title@, c.command@, views(c.arguments@))
}

/// The lens that runs test `f` of the document at `uri`.
pub open spec fn test_lens(f: FnDecl, uri: Seq<char>) -> LensView {
    (line_range(f.line), "▶ Endesha Jaribio"@, "asili.runTest"@, seq![uri, f.name@])
}

/// The lenses of a document: one per test function, in declaration order; none when the
/// document did not parse (`None`).
pub fn test_code_lenses(module: &Option<ModuleOutline>, uri: &str) -> (r: Vec<CodeLens>)
    ensures
        r@.map_values(|c: CodeLens| lens_view(c)) == match *module {
            None => Seq::empty(),
            Some(m) => m.functions@.filter(|f: FnDecl| is_test_fn(f)).map_values(|f: FnDecl| test_lens(f, uri@)),
        },
{
    let mut out: Vec<CodeLens> = Vec::new();
    match module {
        None => {
            assert(out@.map_values(|c: CodeLens| lens_view(c)) =~= Seq::<LensView>::empty());
            out
        },
        Some(m) => {
            let marker = chars_of("jaribio");
            let ghost pred = |f: FnDecl| is_test_fn(f);
            let ghost fs = m.functions@;
            let mut i: usize = 0;
            assert(out@.map_values(|c: CodeLens| lens_view(c)) =~= fs.subrange(0, 0).filter(pred).map_values(
                |f: FnDecl| test_lens(f, uri@),
            ));
            while i < m.functions.len()
                invariant
                    i <= m.functions.len(),
                    fs == m.functions@,
                    marker@ == "jaribio"@,
                    pred == (|f: FnDecl| is_test_fn(f)),
                    out@.map_values(|c: CodeLens| lens_view(c)) == fs.subrange(0, i as int).filter(pred).map_values(
                        |f: FnDecl| test_lens(f, uri@),
                    ),
                decreases m.functions.len() - i,
            {
                let f = &m.functions[i];
                let ghost before = fs.subrange(0, i as int);
                assert(fs.subrange(0, i + 1) =~= before.push(fs[i as int]));
                proof {
                    before.lemma_filter_push(fs[i as int], pred);
                }
                if contains_name(&f.attrs, &marker) {
                    let l = zero_based(f.line);
                    let line: u32 = #[verifier::truncate] (l as u32);
                    let mut arguments: Vec<String> = Vec::new();
                    arguments.push(uri.to_string());
                    arguments.push(f.name.clone());
                    let ghost prev = out@.map_values(|c: CodeLens| lens_view(c));
                    out.push(CodeLens {
                        range: Range {
                            start: Position { line, character: 0 },
                            end: Position { line, character: 0x7fff_ffff },
                        },
                        title: "▶ Endesha Jaribio".to_string(),
                        command: "asili.runTest".to_string(),
                        arguments,
                    });
                    proof {
                        assert(views(arguments@) =~= seq![uri@, f.name@]);
                        assert(out@.map_values(|c: CodeLens| lens_view(c)) =~= prev.push(test_lens(fs[i as int], uri@)));
                        assert(before.filter(pred).push(fs[i as int]).map_values(|g: FnDecl| test_lens(g, uri@))
                            =~= before.filter(pred).map_values(|g: FnDecl| test_lens(g, uri@)).push(
                            test_lens(fs[i as int], uri@),
                        ));
                    }
                }
                i = i + 1;
            }
            assert(fs.subrange(0, fs.len() as int) =~= fs);
            out
        },
    }
}

} // verus!
