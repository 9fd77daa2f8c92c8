//! Completion items offered by the editor: keywords, builtin types and functions, then the
//! functions, structs (with their fields), traits and constants of the current module.

use vstd::prelude::*;
use crate::outline::{ConstDecl, FnDecl, ModuleOutline, StructDecl, TraitDecl};
use crate::signature::{param_label, signature_from_params, signature_label};
use crate::text::{chars_of, concat2, push_all, string_of};
use crate::types::{builtin_type_named, format_type, type_expr_to_value_type, type_text};

verus! {

/// What a completion item is.
#[derive(Clone, Copy, Debug, PartialEq, Eq, Structural)]
pub enum CompletionKind {
    Keyword,
    Class,
    Function,
    Struct,
    Field,
    Interface,
    Constant,
}

/// One completion item: the text inserted, its kind and a detail line.
#[derive(Clone, Debug)]
pub struct CompletionEntry {
    pub label: String,
    pub kind: CompletionKind,
    pub detail: Option<String>,
}

pub type EntryView = (Seq<char>, CompletionKind, Option<Seq<char>>);

pub open spec fn entry_view(e: CompletionEntry) -> EntryView {
    (e.label@, e.kind, crate::commands::opt_view(e.detail))
}

pub open spec fn entries_view(v: Seq<CompletionEntry>) -> Seq<EntryView> {
    v.map_values(|e: CompletionEntry| entry_view(e))
}

/// The keywords always offered.
pub open spec fn keyword_words() -> Seq<Seq<char>> {
    seq![
        "leta"@, "kazi"@, "umbo"@, "sifa"@, "shughuli"@, "ya"@, "weka"@, "thabiti"@, "rejesha"@,
        "ikiwa"@, "au_ikiwa"@, "vinginevyo"@, "kwa"@, "katika"@, "kutoka"@, "hadi"@, "wakati"@,
        "milele"@, "linganisha"@, "vunja"@, "endelea"@, "lebo"@, "tupa"@, "jaribu"@, "kama"@,
        "azima"@, "azima_tenda"@, "umma"@, "siyo"@, "na"@, "au"@, "kweli"@, "si_kweli"@,
    ]
}

/// The builtin type names always offered.
pub open spec fn builtin_type_words() -> Seq<Seq<char>> {
    seq![
        "Namba"@, "Neno"@, "Ukweli"@, "Herufi"@, "Tupu"@, "Hamna"@, "Orodha"@, "Kamusi"@,
        "Jozi"@, "Chaguo"@, "Tokeo"@, "Biti8"@, "Biti16"@, "Biti32"@, "Biti64"@, "uBiti8"@,
        "uBiti16"@, "uBiti32"@, "uBiti64"@,
    ]
}

/// The builtin function names always offered.
pub open spec fn builtin_function_words() -> Seq<Seq<char>> {
    seq![
        "chapisha"@, "paparika"@, "onyo"@, "makosa"@, "omba"@, "orodha"@, "kamusi"@,
        "kamusi_tupu"@, "jozi"@, "tokeo"@, "kosa"@, "chaguo"@,
    ]
}

/// How a constant's declared type is shown.
pub open spec fn shown_type(ty: Seq<char>) -> Seq<char> {
    match builtin_type_named(ty) {
        Some(t) => type_text(t),
        None => ty,
    }
}

pub open spec fn fn_entry(f: FnDecl) -> EntryView {
    (
        f.name@,
        CompletionKind::Function,
        Some(
            signature_label(
                f.name@,
                f.params@.map_values(|p: (String, String)| param_label(p.0@, p.1@)),
                f.return_type@,
            ),
        ),
    )
}

pub open spec fn field_entry(s: Seq<char>, field: (String, Option<String>)) -> EntryView {
    (
        s + "."@ + field.0@,
        CompletionKind::Field,
        Some(
            field.0@ + ": "@ + match field.1 {
                Some(t) => t@,
                None => "?"@,
            },
        ),
    )
}

/// A struct's item followed by one item per field.
pub open spec fn struct_entries(s: StructDecl) -> Seq<EntryView> {
    seq![(s.name@, CompletionKind::Struct, Some("umbo "@ + s.name@))] + s.fields@.map_values(
        |f: (String, Option<String>)| field_entry(s.name@, f),
    )
}

pub open spec fn structs_entries(ss: Seq<StructDecl>) -> Seq<EntryView>
    decreases ss.len(),
{
    if ss.len() == 0 {
        Seq::empty()
    } else {
        structs_entries(ss.drop_last()) + struct_entries(ss.last())
    }
}

pub open spec fn trait_entry(t: TraitDecl) -> EntryView {
    (t.name@, CompletionKind::Interface, Some("sifa "@ + t.name@))
}

pub open spec fn const_entry(c: ConstDecl) -> EntryView {
    (c.name@, CompletionKind::Constant, Some("thabiti "@ + c.name@ + ": "@ + shown_type(c.ty@)))
}

/// The items offered for a module: the fixed words, then (when the source parsed) its
/// functions, structs with their fields, traits and constants, in declaration order.
pub open spec fn completion_spec(module: Option<ModuleOutline>) -> Seq<EntryView> {
    let fixed = keyword_words().map_values(|w: Seq<char>| (w, CompletionKind::Keyword, None::<Seq<char>>))
        + builtin_type_words().map_values(|w: Seq<char>| (w, CompletionKind::Class, None::<Seq<char>>))
        + builtin_function_words().map_values(
        |w: Seq<char>| (w, CompletionKind::Function, Some("(builtin)"@)),
    );
    match module {
        Some(m) => fixed + m.functions@.map_values(|f: FnDecl| fn_entry(f)) + structs_entries(m.structs@)
            + m.traits@.map_values(|t: TraitDecl| trait_entry(t)) + m.constants@.map_values(
            |c: ConstDecl| const_entry(c),
        ),
        None => fixed,
    }
}

/// Whatever the source, the items start with the keywords, then the builtin types, then the
/// builtin functions, each under its own word and in that order; when the source parsed, its
/// functions follow, each under its name.
pub proof fn law_completion_offers_words(module: Option<ModuleOutline>)
    ensures
        ({
            let c = completion_spec(module);
            let nk = keyword_words().len() as int;
            let nt = builtin_type_words().len() as int;
            let nf = builtin_function_words().len() as int;
            &&& c.len() >= nk + nt + nf
            &&& forall|i: int| 0 <= i < nk ==> (#[trigger] keyword_words()[i]) == c[i].0
            &&& forall|i: int| 0 <= i < nt ==> (#[trigger] builtin_type_words()[i]) == c[nk + i].0
            &&& forall|i: int| 0 <= i < nf ==> (#[trigger] builtin_function_words()[i]) == c[nk + nt + i].0
            &&& module matches Some(m) ==> forall|j: int| 0 <= j < m.functions@.len()
                ==> (#[trigger] m.functions@[j]).name@ == c[nk + nt + nf + j].0
        }),
{
    let c = completion_spec(module);
    let nk = keyword_words().len() as int;
    let nt = builtin_type_words().len() as int;
    let nf = builtin_function_words().len() as int;
    let fixed = keyword_words().map_values(|w: Seq<char>| (w, CompletionKind::Keyword, None::<Seq<char>>))
        + builtin_type_words().map_values(|w: Seq<char>| (w, CompletionKind::Class, None::<Seq<char>>))
        + builtin_function_words().map_values(
        |w: Seq<char>| (w, CompletionKind::Function, Some("(builtin)"@)),
    );
    assert(fixed.len() == nk + nt + nf);
    assert forall|i: int| 0 <= i < fixed.len() implies #[trigger] c[i] == fixed[i] by {
        match module {
            Some(m) => {
                assert(c =~= fixed + m.functions@.map_values(|f: FnDecl| fn_entry(f)) + structs_entries(m.structs@)
                    + m.traits@.map_values(|t: TraitDecl| trait_entry(t)) + m.constants@.map_values(
                    |c: ConstDecl| const_entry(c),
                ));
            },
            None => {},
        }
    }
    assert forall|i: int| 0 <= i < nk implies (#[trigger] keyword_words()[i]) == c[i].0 by {
        assert(c[i] == fixed[i]);
    }
    assert forall|i: int| 0 <= i < nt implies (#[trigger] builtin_type_words()[i]) == c[nk + i].0 by {
        assert(c[nk + i] == fixed[nk + i]);
    }
    assert forall|i: int| 0 <= i < nf implies (#[trigger] builtin_function_words()[i]) == c[nk + nt + i].0 by {
        assert(c[nk + nt + i] == fixed[nk + nt + i]);
    }
    match module {
        Some(m) => {
            let fe = m.functions@.map_values(|f: FnDecl| fn_entry(f));
            let tail = structs_entries(m.structs@) + m.traits@.map_values(|t: TraitDecl| trait_entry(t))
                + m.constants@.map_values(|c: ConstDecl| const_entry(c));
            assert(c =~= fixed + fe + tail);
            assert forall|j: int| 0 <= j < m.functions@.len() implies (#[trigger] m.functions@[j]).name@
                == c[nk + nt + nf + j].0 by {
                assert(c[nk + nt + nf + j] == fe[j]);
            }
        },
        None => {},
    }
}

/// Whether some item of `c` has the label `label`.
pub open spec fn offers(c: Seq<EntryView>, label: Seq<char>) -> bool {
    exists|i: int| 0 <= i < c.len() && #[trigger] c[i].0 == label
}

proof fn lemma_offers_append(a: Seq<EntryView>, b: Seq<EntryView>, label: Seq<char>)
    ensures
        offers(a, label) ==> offers(a + b, label),
        offers(b, label) ==> offers(a + b, label),
{
    if offers(a, label) {
        let i = choose|i: int| 0 <= i < a.len() && #[trigger] a[i].0 == label;
        assert((a + b)[i] == a[i]);
    }
    if offers(b, label) {
        let i = choose|i: int| 0 <= i < b.len() && #[trigger] b[i].0 == label;
        assert((a + b)[a.len() + i] == b[i]);
    }
}

proof fn lemma_struct_in_structs(ss: Seq<StructDecl>, j: int, label: Seq<char>)
    requires
        0 <= j < ss.len(),
        offers(struct_entries(ss[j]), label),
    ensures
        offers(structs_entries(ss), label),
    decreases ss.len(),
{
    let init = ss.drop_last();
    lemma_offers_append(structs_entries(init), struct_entries(ss.last()), label);
    if j < init.len() {
        assert(init[j] == ss[j]);
        lemma_struct_in_structs(init, j, label);
    }
}

proof fn lemma_field_offered(s: StructDecl, k: int)
    requires
        0 <= k < s.fields@.len(),
    ensures
        offers(struct_entries(s), s.name@ + "."@ + s.fields@[k].0@),
{
    let e = struct_entries(s);
    let fe = s.fields@.map_values(|f: (String, Option<String>)| field_entry(s.name@, f));
    assert(e == seq![(s.name@, CompletionKind::Struct, Some("umbo "@ + s.name@))] + fe);
    assert(fe[k] == field_entry(s.name@, s.fields@[k]));
    assert(e[1 + k] == fe[k]);
    assert(e[1 + k].0 == s.name@ + "."@ + s.fields@[k].0@);
}

/// When the source parsed, every struct is offered under its name and every field `f` of a
/// struct `S` as `S.f`, and every trait and constant under its name.
pub proof fn law_completion_offers_declarations(m: ModuleOutline)
    ensures
        forall|j: int| 0 <= j < m.structs@.len() ==> offers(completion_spec(Some(m)), (#[trigger] m.structs@[j]).name@),
        forall|j: int, k: int| 0 <= j < m.structs@.len() && 0 <= k < m.structs@[j].fields@.len() ==> offers(
            completion_spec(Some(m)),
            (#[trigger] m.structs@[j]).name@ + "."@ + (#[trigger] m.structs@[j].fields@[k]).0@,
        ),
        forall|j: int| 0 <= j < m.traits@.len() ==> offers(completion_spec(Some(m)), (#[trigger] m.traits@[j]).name@),
        forall|j: int| 0 <= j < m.constants@.len() ==> offers(completion_spec(Some(m)), (#[trigger] m.constants@[j]).name@),
{
    let fixed = keyword_words().map_values(|w: Seq<char>| (w, CompletionKind::Keyword, None::<Seq<char>>))
        + builtin_type_words().map_values(|w: Seq<char>| (w, CompletionKind::Class, None::<Seq<char>>))
        + builtin_function_words().map_values(
        |w: Seq<char>| (w, CompletionKind::Function, Some("(builtin)"@)),
    );
    let p = fixed + m.functions@.map_values(|f: FnDecl| fn_entry(f));
    let se = structs_entries(m.structs@);
    let te = m.traits@.map_values(|t: TraitDecl| trait_entry(t));
    let ce = m.constants@.map_values(|c: ConstDecl| const_entry(c));
    let c = completion_spec(Some(m));
    assert(c == p + se + te + ce);
    assert forall|j: int| 0 <= j < m.structs@.len() implies offers(c, (#[trigger] m.structs@[j]).name@) by {
        let label = m.structs@[j].name@;
        assert(struct_entries(m.structs@[j])[0].0 == label);
        lemma_struct_in_structs(m.structs@, j, label);
        lemma_offers_append(p, se, label);
        lemma_offers_append(p + se, te, label);
        lemma_offers_append(p + se + te, ce, label);
    }
    assert forall|j: int, k: int| 0 <= j < m.structs@.len() && 0 <= k < m.structs@[j].fields@.len() implies offers(
        c,
        (#[trigger] m.structs@[j]).name@ + "."@ + (#[trigger] m.structs@[j].fields@[k]).0@,
    ) by {
        let label = m.structs@[j].name@ + "."@ + m.structs@[j].fields@[k].0@;
        lemma_field_offered(m.structs@[j], k);
        lemma_struct_in_structs(m.structs@, j, label);
        lemma_offers_append(p, se, label);
        lemma_offers_append(p + se, te, label);
        lemma_offers_append(p + se + te, ce, label);
    }
    assert forall|j: int| 0 <= j < m.traits@.len() implies offers(c, (#[trigger] m.traits@[j]).name@) by {
        assert(te[j].0 == m.traits@[j].name@);
        lemma_offers_append(p + se, te, m.traits@[j].name@);
        lemma_offers_append(p + se + te, ce, m.traits@[j].name@);
    }
    assert forall|j: int| 0 <= j < m.constants@.len() implies offers(c, (#[trigger] m.constants@[j]).name@) by {
        assert(ce[j].0 == m.constants@[j].name@);
        lemma_offers_append(p + se + te, ce, m.constants@[j].name@);
    }
}

fn push_words(
    out: &mut Vec<CompletionEntry>,
    words: Vec<&str>,
    kind: CompletionKind,
    builtin: bool,
)
    ensures
        entries_view(final(out)@) == entries_view(old(out)@) + words@.map_values(
            |w: &str| (w@, kind, if builtin { Some("(builtin)"@) } else { None::<Seq<char>> }),
        ),
{
    let ghost start = entries_view(out@);
    let ghost f = |w: &str| (w@, kind, if builtin { Some("(builtin)"@) } else { None::<Seq<char>> });
    let mut i: usize = 0;
    while i < words.len()
        invariant
            i <= words.len(),
            f == (|w: &str| (w@, kind, if builtin { Some("(builtin)"@) } else { None::<Seq<char>> })),
            entries_view(out@) == start + words@.subrange(0, i as int).map_values(f),
        decreases words.len() - i,
    {
        let detail = if builtin {
            Some("(builtin)".to_string())
        } else {
            None
        };
        let ghost before = out@;
        let label = words[i].to_string();
        assert(label@ == words@[i as int]@);
        out.push(CompletionEntry { label, kind, detail });
        assert(words@.subrange(0, i + 1).map_values(f) =~= words@.subrange(0, i as int).map_values(f).push(
            f(words@[i as int]),
        ));
        assert(entries_view(out@) =~= entries_view(before).push(entry_view(out@.last())));
        assert(entry_view(out@.last()) == f(words@[i as int]));
        i = i + 1;
    }
    assert(words@.subrange(0, words.len() as int) =~= words@);
}

fn keywords() -> (r: Vec<&'static str>)
    ensures
        r@.map_values(|w: &str| w@) == keyword_words(),
{
    let r = vec![
        "leta", "kazi", "umbo", "sifa", "shughuli", "ya", "weka", "thabiti", "rejesha",
        "ikiwa", "au_ikiwa", "vinginevyo", "kwa", "katika", "kutoka", "hadi", "wakati",
        "milele", "linganisha", "vunja", "endelea", "lebo", "tupa", "jaribu", "kama",
        "azima", "azima_tenda", "umma", "siyo", "na", "au", "kweli", "si_kweli",
    ];
    assert(r@.map_values(|w: &str| w@) =~= keyword_words());
    r
}

fn builtin_types() -> (r: Vec<&'static str>)
    ensures
        r@.map_values(|w: &str| w@) == builtin_type_words(),
{
    let r = vec![
        "Namba", "Neno", "Ukweli", "Herufi", "Tupu", "Hamna", "Orodha", "Kamusi", "Jozi",
        "Chaguo", "Tokeo", "Biti8", "Biti16", "Biti32", "Biti64", "uBiti8", "uBiti16", "uBiti32",
        "uBiti64",
    ];
    assert(r@.map_values(|w: &str| w@) =~= builtin_type_words());
    r
}

fn builtin_functions() -> (r: Vec<&'static str>)
    ensures
        r@.map_values(|w: &str| w@) == builtin_function_words(),
{
    let r = vec![
        "chapisha", "paparika", "onyo", "makosa", "omba", "orodha", "kamusi", "kamusi_tupu",
        "jozi", "tokeo", "kosa", "chaguo",
    ];
    assert(r@.map_values(|w: &str| w@) =~= builtin_function_words());
    r
}

fn push_functions(out: &mut Vec<CompletionEntry>, fs: &Vec<FnDecl>)
    ensures
        entries_view(final(out)@) == entries_view(old(out)@) + fs@.map_values(|f: FnDecl| fn_entry(f)),
{
    let ghost start = entries_view(out@);
    let mut i: usize = 0;
    while i < fs.len()
        invariant
            i <= fs.len(),
            entries_view(out@) == start + fs@.subrange(0, i as int).map_values(|f: FnDecl| fn_entry(f)),
        decreases fs.len() - i,
    {
        let f = &fs[i];
        let sig = signature_from_params(f.name.as_str(), f.params.as_slice(), f.return_type.as_str(), 0);
        assert(sig.params@.map_values(|p: String| p@) =~= f.params@.map_values(
            |p: (String, String)| param_label(p.0@, p.1@),
        ));
        let ghost before = out@;
        out.push(CompletionEntry { label: f.name.clone(), kind: CompletionKind::Function, detail: Some(sig.label) });
        assert(fs@.subrange(0, i + 1).map_values(|f: FnDecl| fn_entry(f)) =~= fs@.subrange(0, i as int).map_values(
            |f: FnDecl| fn_entry(f),
        ).push(fn_entry(fs@[i as int])));
        assert(entries_view(out@) =~= entries_view(before).push(entry_view(out@.last())));
        i = i + 1;
    }
    assert(fs@.subrange(0, fs.len() as int) =~= fs@);
}

fn push_struct(out: &mut Vec<CompletionEntry>, s: &StructDecl)
    ensures
        entries_view(final(out)@) == entries_view(old(out)@) + struct_entries(*s),
{
    let ghost start = entries_view(out@);
    let name = chars_of(s.name.as_str());
    out.push(CompletionEntry {
        label: s.name.clone(),
        kind: CompletionKind::Struct,
        detail: Some(concat2("umbo ", name.as_slice())),
    });
    assert(entries_view(out@) =~= start.push(entry_view(out@.last())));
    let ghost head = entries_view(out@);
    let ghost g = |f: (String, Option<String>)| field_entry(s.name@, f);
    let mut j: usize = 0;
    while j < s.fields.len()
        invariant
            j <= s.fields.len(),
            name@ == s.name@,
            g == (|f: (String, Option<String>)| field_entry(s.name@, f)),
            head == start + seq![(s.name@, CompletionKind::Struct, Some("umbo "@ + s.name@))],
            entries_view(out@) == head + s.fields@.subrange(0, j as int).map_values(g),
        decreases s.fields.len() - j,
    {
        let fname = chars_of(s.fields[j].0.as_str());
        let mut label = chars_of(s.name.as_str());
        push_all(&mut label, chars_of(".").as_slice());
        push_all(&mut label, fname.as_slice());
        assert(label@ =~= s.name@ + "."@ + s.fields@[j as int].0@);
        let mut detail = chars_of(s.fields[j].0.as_str());
        push_all(&mut detail, chars_of(": ").as_slice());
        match &s.fields[j].1 {
            Some(t) => push_all(&mut detail, chars_of(t.as_str()).as_slice()),
            None => push_all(&mut detail, chars_of("?").as_slice()),
        }
        let ghost before = out@;
        out.push(CompletionEntry {
            label: string_of(label.as_slice()),
            kind: CompletionKind::Field,
            detail: Some(string_of(detail.as_slice())),
        });
        assert(entry_view(out@.last()) == g(s.fields@[j as int]));
        assert(s.fields@.subrange(0, j + 1).map_values(g) =~= s.fields@.subrange(0, j as int).map_values(g).push(
            g(s.fields@[j as int]),
        ));
        assert(entries_view(out@) =~= entries_view(before).push(entry_view(out@.last())));
        j = j + 1;
    }
    assert(s.fields@.subrange(0, s.fields.len() as int) =~= s.fields@);
    assert(entries_view(out@) =~= start + struct_entries(*s));
}

fn push_structs(out: &mut Vec<CompletionEntry>, ss: &Vec<StructDecl>)
    ensures
        entries_view(final(out)@) == entries_view(old(out)@) + structs_entries(ss@),
{
    let ghost start = entries_view(out@);
    let mut i: usize = 0;
    while i < ss.len()
        invariant
            i <= ss.len(),
            entries_view(out@) == start + structs_entries(ss@.subrange(0, i as int)),
        decreases ss.len() - i,
    {
        let ghost before = entries_view(out@);
        push_struct(out, &ss[i]);
        assert(ss@.subrange(0, i + 1).drop_last() =~= ss@.subrange(0, i as int));
        assert(entries_view(out@) =~= start + structs_entries(ss@.subrange(0, i + 1)));
        i = i + 1;
    }
    assert(ss@.subrange(0, ss.len() as int) =~= ss@);
}

fn push_traits(out: &mut Vec<CompletionEntry>, ts: &Vec<TraitDecl>)
    ensures
        entries_view(final(out)@) == entries_view(old(out)@) + ts@.map_values(|t: TraitDecl| trait_entry(t)),
{
    let ghost start = entries_view(out@);
    let mut i: usize = 0;
    while i < ts.len()
        invariant
            i <= ts.len(),
            entries_view(out@) == start + ts@.subrange(0, i as int).map_values(|t: TraitDecl| trait_entry(t)),
        decreases ts.len() - i,
    {
        let name = chars_of(ts[i].name.as_str());
        let ghost before = out@;
        out.push(CompletionEntry {
            label: ts[i].name.clone(),
            kind: CompletionKind::Interface,
            detail: Some(concat2("sifa ", name.as_slice())),
        });
        assert(ts@.subrange(0, i + 1).map_values(|t: TraitDecl| trait_entry(t)) =~= ts@.subrange(0, i as int).map_values(
            |t: TraitDecl| trait_entry(t),
        ).push(trait_entry(ts@[i as int])));
        assert(entries_view(out@) =~= entries_view(before).push(entry_view(out@.last())));
        i = i + 1;
    }
    assert(ts@.subrange(0, ts.len() as int) =~= ts@);
}

fn push_constants(out: &mut Vec<CompletionEntry>, cs: &Vec<ConstDecl>)
    ensures
        entries_view(final(out)@) == entries_view(old(out)@) + cs@.map_values(|c: ConstDecl| const_entry(c)),
{
    let ghost start = entries_view(out@);
    let mut i: usize = 0;
    while i < cs.len()
        invariant
            i <= cs.len(),
            entries_view(out@) == start + cs@.subrange(0, i as int).map_values(|c: ConstDecl| const_entry(c)),
        decreases cs.len() - i,
    {
        let c = &cs[i];
        let ty = format_type(&type_expr_to_value_type(c.ty.as_str()));
        let mut detail = chars_of("thabiti ");
        push_all(&mut detail, chars_of(c.name.as_str()).as_slice());
        push_all(&mut detail, chars_of(": ").as_slice());
        push_all(&mut detail, chars_of(ty.as_str()).as_slice());
        assert(ty@ == shown_type(c.ty@));
        let ghost before = out@;
        out.push(CompletionEntry {
            label: c.name.clone(),
            kind: CompletionKind::Constant,
            detail: Some(string_of(detail.as_slice())),
        });
        assert(cs@.subrange(0, i + 1).map_values(|c: ConstDecl| const_entry(c)) =~= cs@.subrange(0, i as int).map_values(
            |c: ConstDecl| const_entry(c),
        ).push(const_entry(cs@[i as int])));
        assert(entries_view(out@) =~= entries_view(before).push(entry_view(out@.last())));
        i = i + 1;
    }
    assert(cs@.subrange(0, cs.len() as int) =~= cs@);
}

/// The completion items for a module (`None` when its source did not parse): keywords, builtin
/// types, builtin functions, then the module's functions (with their signature), structs (each
/// followed by its fields as `Struct.field`), traits and constants.
pub fn completion_items(module: &Option<ModuleOutline>) -> (r: Vec<CompletionEntry>)
    ensures
        entries_view(r@) == completion_spec(*module),
{
    let mut items: Vec<CompletionEntry> = Vec::new();
    let kw = keywords();
    let ghost kwv = kw@;
    push_words(&mut items, kw, CompletionKind::Keyword, false);
    let bt = builtin_types();
    let ghost btv = bt@;
    push_words(&mut items, bt, CompletionKind::Class, false);
    let bf = builtin_functions();
    let ghost bfv = bf@;
    push_words(&mut items, bf, CompletionKind::Function, true);
    proof {
        assert(kwv.map_values(|w: &str| (w@, CompletionKind::Keyword, None::<Seq<char>>)) =~= keyword_words().map_values(
            |w: Seq<char>| (w, CompletionKind::Keyword, None::<Seq<char>>),
        )) by {
            assert forall|i: int| 0 <= i < kwv.len() implies #[trigger] kwv[i]@ == keyword_words()[i] by {
                assert(kwv.map_values(|w: &str| w@)[i] == kwv[i]@);
            }
        }
        assert(btv.map_values(|w: &str| (w@, CompletionKind::Class, None::<Seq<char>>)) =~= builtin_type_words().map_values(
            |w: Seq<char>| (w, CompletionKind::Class, None::<Seq<char>>),
        )) by {
            assert forall|i: int| 0 <= i < btv.len() implies #[trigger] btv[i]@ == builtin_type_words()[i] by {
                assert(btv.map_values(|w: &str| w@)[i] == btv[i]@);
            }
        }
        assert(bfv.map_values(|w: &str| (w@, CompletionKind::Function, Some("(builtin)"@))) =~= builtin_function_words().map_values(
            |w: Seq<char>| (w, CompletionKind::Function, Some("(builtin)"@)),
        )) by {
            assert forall|i: int| 0 <= i < bfv.len() implies #[trigger] bfv[i]@ == builtin_function_words()[i] by {
                assert(bfv.map_values(|w: &str| w@)[i] == bfv[i]@);
            }
        }
    }
    match module {
        Some(m) => {
            push_functions(&mut items, &m.functions);
            push_structs(&mut items, &m.structs);
            push_traits(&mut items, &m.traits);
            push_constants(&mut items, &m.constants);
        },
        None => {},
    }
    items
}

} // verus!
