//! Hover texts for words the editor points at.

use vstd::prelude::*;
use crate::text::{chars_of, concat3, join_with, lemma_join_push, push_all, string_of};
use crate::types::{type_text, format_type, ValueType};

verus! {

/// The hover text for a keyword.
pub fn format_keyword_hover(word: &str) -> (r: String)
    ensures
        r@ == "**Keyword:** `"@ + word@ + "`"@,
{
    concat3("**Keyword:** `", crate::text::chars_of(word).as_slice(), "`")
}

/// The hover text for an identifier with nothing more known about it.
pub fn format_identifier_hover(name: &str) -> (r: String)
    ensures
        r@ == "**Identifier:** `"@ + name@ + "`"@,
{
    concat3("**Identifier:** `", crate::text::chars_of(name).as_slice(), "`")
}

/// The hover text for a trait (its methods are not listed).
pub fn format_trait_hover(name: &str) -> (r: String)
    ensures
        r@ == "**Trait:** `sifa "@ + name@ + "`"@,
{
    concat3("**Trait:** `sifa ", crate::text::chars_of(name).as_slice(), "`")
}

/// `name: Type`.
pub open spec fn param_text(p: (String, ValueType)) -> Seq<char> {
    p.0@ + ": "@ + type_text(p.1)
}

fn push_text(out: &mut Vec<char>, s: &str)
    ensures
        final(out)@ == old(out)@ + s@,
{
    push_all(out, chars_of(s).as_slice());
}

fn push_type(out: &mut Vec<char>, t: &ValueType)
    ensures
        final(out)@ == old(out)@ + type_text(*t),
{
    let s = format_type(t);
    push_all(out, chars_of(s.as_str()).as_slice());
}

/// Append `prefix + name: Type` for each entry, separated by `sep`.
fn push_joined(out: &mut Vec<char>, ps: &Vec<(String, ValueType)>, prefix: &str, sep: &str)
    ensures
        final(out)@ == old(out)@ + join_with(
            ps@.map_values(|p: (String, ValueType)| prefix@ + param_text(p)),
            sep@,
        ),
{
    let ghost base = out@;
    let ghost parts = ps@.map_values(|p: (String, ValueType)| prefix@ + param_text(p));
    let mut i: usize = 0;
    assert(parts.subrange(0, 0) =~= Seq::<Seq<char>>::empty());
    while i < ps.len()
        invariant
            i <= ps.len(),
            parts == ps@.map_values(|p: (String, ValueType)| prefix@ + param_text(p)),
            out@ == base + join_with(parts.subrange(0, i as int), sep@),
        decreases ps.len() - i,
    {
        let ghost before = out@;
        if i > 0 {
            push_text(out, sep);
        }
        push_text(out, prefix);
        push_text(out, ps[i].0.as_str());
        push_text(out, ": ");
        push_type(out, &ps[i].1);
        proof {
            lemma_join_push(parts.subrange(0, i as int), sep@, parts[i as int]);
            assert(parts.subrange(0, i + 1) =~= parts.subrange(0, i as int).push(parts[i as int]));
            assert(parts[i as int] == prefix@ + (ps@[i as int].0@ + ": "@ + type_text(ps@[i as int].1)));
            if i == 0 {
                assert(out@ =~= base + parts[i as int]);
            } else {
                assert(out@ =~= base + (join_with(parts.subrange(0, i as int), sep@) + sep@ + parts[i as int]));
            }
        }
        i = i + 1;
    }
    assert(parts.subrange(0, ps.len() as int) =~= parts);
}

/// A trait method: name, parameters and return type.
pub type MethodSig = (String, Vec<(String, ValueType)>, ValueType);

/// What hovering over a symbol shows.
#[derive(Debug)]
pub enum HoverInfo {
    Keyword(String),
    Variable { name: String, type_: ValueType },
    Function { name: String, params: Vec<(String, ValueType)>, return_type: ValueType },
    Struct { name: String, fields: Vec<(String, ValueType)> },
    Trait { name: String, methods: Vec<MethodSig> },
    Identifier(String),
}

/// One method line of a trait hover.
pub open spec fn method_text(m: MethodSig) -> Seq<char> {
    "  kazi "@ + m.0@ + "("@ + join_with(m.1@.map_values(|p: (String, ValueType)| ""@ + param_text(p)), ", "@)
        + ") -> "@ + type_text(m.2)
}

/// The markdown a hover shows.
pub open spec fn render_spec(h: HoverInfo) -> Seq<char> {
    match h {
        HoverInfo::Keyword(w) => "**Keyword:** `"@ + w@ + "`"@,
        HoverInfo::Variable { name, type_ } => "**Variable:** `"@ + name@ + ": "@ + type_text(type_) + "`"@,
        HoverInfo::Function { name, params, return_type } => "**Function:** `kazi "@ + name@ + "("@
            + join_with(params@.map_values(|p: (String, ValueType)| ""@ + param_text(p)), ", "@) + ") -> "@
            + type_text(return_type) + "`"@,
        HoverInfo::Struct { name, fields } => "**Struct:** `umbo "@ + name@ + " {\n"@ + join_with(
            fields@.map_values(|p: (String, ValueType)| "  "@ + param_text(p)),
            ",\n"@,
        ) + "\n}`"@,
        HoverInfo::Trait { name, methods } => "**Trait:** `sifa "@ + name@ + " {\n"@ + join_with(
            methods@.map_values(|m: MethodSig| method_text(m)),
            ";\n"@,
        ) + "\n}`"@,
        HoverInfo::Identifier(n) => "**Identifier:** `"@ + n@ + "`"@,
    }
}

impl HoverInfo {
    /// Render as markdown for the editor.
    pub fn render(&self) -> (r: String)
        ensures
            r@ == render_spec(*self),
    {
        let mut out: Vec<char> = Vec::new();
        match self {
            HoverInfo::Keyword(w) => {
                push_text(&mut out, "**Keyword:** `");
                push_text(&mut out, w.as_str());
                push_text(&mut out, "`");
            },
            HoverInfo::Variable { name, type_ } => {
                push_text(&mut out, "**Variable:** `");
                push_text(&mut out, name.as_str());
                push_text(&mut out, ": ");
                push_type(&mut out, type_);
                push_text(&mut out, "`");
            },
            HoverInfo::Function { name, params, return_type } => {
                push_text(&mut out, "**Function:** `kazi ");
                push_text(&mut out, name.as_str());
                push_text(&mut out, "(");
                push_joined(&mut out, params, "", ", ");
                push_text(&mut out, ") -> ");
                push_type(&mut out, return_type);
                push_text(&mut out, "`");
            },
            HoverInfo::Struct { name, fields } => {
                push_text(&mut out, "**Struct:** `umbo ");
                push_text(&mut out, name.as_str());
                push_text(&mut out, " {\n");
                push_joined(&mut out, fields, "  ", ",\n");
                push_text(&mut out, "\n}`");
            },
            HoverInfo::Trait { name, methods } => {
                push_text(&mut out, "**Trait:** `sifa ");
                push_text(&mut out, name.as_str());
                push_text(&mut out, " {\n");
                let ghost base = out@;
                let ghost parts = methods@.map_values(|m: MethodSig| method_text(m));
                let mut i: usize = 0;
                assert(parts.subrange(0, 0) =~= Seq::<Seq<char>>::empty());
                while i < methods.len()
                    invariant
                        i <= methods.len(),
                        parts == methods@.map_values(|m: MethodSig| method_text(m)),
                        out@ == base + join_with(parts.subrange(0, i as int), ";\n"@),
                    decreases methods.len() - i,
                {
                    if i > 0 {
                        push_text(&mut out, ";\n");
                    }
                    let ghost mid = out@;
                    push_text(&mut out, "  kazi ");
                    push_text(&mut out, methods[i].0.as_str());
                    push_text(&mut out, "(");
                    push_joined(&mut out, &methods[i].1, "", ", ");
                    push_text(&mut out, ") -> ");
                    push_type(&mut out, &methods[i].2);
                    proof {
                        lemma_join_push(parts.subrange(0, i as int), ";\n"@, parts[i as int]);
                        assert(parts.subrange(0, i + 1) =~= parts.subrange(0, i as int).push(parts[i as int]));
                        assert(out@ =~= mid + parts[i as int]);
                        if i == 0 {
                            assert(out@ =~= base + parts[i as int]);
                        } else {
                            assert(out@ =~= base + (join_with(parts.subrange(0, i as int), ";\n"@) + ";\n"@ + parts[i as int]));
                        }
                    }
                    i = i + 1;
                }
                assert(parts.subrange(0, methods.len() as int) =~= parts);
                push_text(&mut out, "\n}`");
            },
            HoverInfo::Identifier(n) => {
                push_text(&mut out, "**Identifier:** `");
                push_text(&mut out, n.as_str());
                push_text(&mut out, "`");
            },
        }
        assert(out@ =~= render_spec(*self));
        string_of(out.as_slice())
    }
}

/// The hover text for a variable of a known type.
pub fn format_variable_hover(name: &str, type_: &ValueType) -> (r: String)
    ensures
        r@ == "**Variable:** `"@ + name@ + ": "@ + type_text(*type_) + "`"@,
{
    let mut out: Vec<char> = Vec::new();
    push_text(&mut out, "**Variable:** `");
    push_text(&mut out, name);
    push_text(&mut out, ": ");
    push_type(&mut out, type_);
    push_text(&mut out, "`");
    string_of(out.as_slice())
}

} // verus!
