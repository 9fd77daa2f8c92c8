//! The document outline shown by an editor: one symbol per declaration of a module, with
//! struct fields and enum variants as children.

use vstd::prelude::*;
use crate::outline::{ConstDecl, EnumDecl, FnDecl, ModuleOutline, StructDecl, TraitDecl, VariantDecl};
use crate::text::{chars_of, concat2};

verus! {

/// What an outline entry is.
#[derive(Clone, Copy, Debug, PartialEq, Eq, Structural)]
pub enum OutlineKind {
    Function,
    Field,
    Struct,
    Interface,
    Constant,
    Enum,
    EnumMember,
}

/// A nested outline entry: name, detail, kind and 0-based line.
#[derive(Clone, Debug)]
pub struct ChildSymbol {
    pub name: String,
    pub detail: Option<String>,
    pub kind: OutlineKind,
    pub line: usize,
}

/// A top-level outline entry, with its nested entries for structs and enums.
#[derive(Clone, Debug)]
pub struct DocSymbol {
    pub name: String,
    pub detail: Option<String>,
    pub kind: OutlineKind,
    pub line: usize,
    pub children: Option<Vec<ChildSymbol>>,
}

pub type ChildView = (Seq<char>, Option<Seq<char>>, OutlineKind, usize);

pub type SymbolView = (Seq<char>, Option<Seq<char>>, OutlineKind, usize, Option<Seq<ChildView>>);

pub open spec fn child_view(c: ChildSymbol) -> ChildView {
    (c.name@, crate::commands::opt_view(c.detail), c.kind, c.line)
}

pub open spec fn symbol_view(s: DocSymbol) -> SymbolView {
    (
        s.name@,
        crate::commands::opt_view(s.detail),
        s.kind,
        s.line,
        match s.children {
            Some(c) => Some(c@.map_values(|x: ChildSymbol| child_view(x))),
            None => None,
        },
    )
}

/// The 0-based line of a 1-based declaration line (0 stays 0).
pub open spec fn line0(line: usize) -> usize {
    if line >= 1 {
        (line - 1) as usize
    } else {
        0
    }
}

pub open spec fn fn_symbol(f: FnDecl) -> SymbolView {
    (f.name@, Some("-> "@ + f.return_type@), OutlineKind::Function, line0(f.line), None)
}

pub open spec fn field_symbol(field: (String, Option<String>), line: usize) -> ChildView {
    (
        field.0@,
        Some(
            match field.1 {
                Some(t) => t@,
                None => Seq::empty(),
            },
        ),
        OutlineKind::Field,
        line0(line),
    )
}

pub open spec fn struct_symbol(s: StructDecl) -> SymbolView {
    (
        s.name@,
        None,
        OutlineKind::Struct,
        line0(s.line),
        Some(s.fields@.map_values(|f: (String, Option<String>)| field_symbol(f, s.line))),
    )
}

pub open spec fn trait_symbol(t: TraitDecl) -> SymbolView {
    (t.name@, None, OutlineKind::Interface, line0(t.line), None)
}

pub open spec fn const_symbol(c: ConstDecl) -> SymbolView {
    (c.name@, Some(c.ty@), OutlineKind::Constant, line0(c.line), None)
}

pub open spec fn variant_symbol(v: VariantDecl) -> ChildView {
    (v.name@, crate::commands::opt_view(v.data), OutlineKind::EnumMember, line0(v.line))
}

pub open spec fn enum_symbol(e: EnumDecl) -> SymbolView {
    (
        e.name@,
        None,
        OutlineKind::Enum,
        line0(e.line),
        Some(e.variants@.map_values(|v: VariantDecl| variant_symbol(v))),
    )
}

/// The outline: functions, structs, traits, constants, then enums, each in declaration order.
pub open spec fn outline_spec(m: ModuleOutline) -> Seq<SymbolView> {
    m.functions@.map_values(|f: FnDecl| fn_symbol(f)) + m.structs@.map_values(
        |s: StructDecl| struct_symbol(s),
    ) + m.traits@.map_values(|t: TraitDecl| trait_symbol(t)) + m.constants@.map_values(
        |c: ConstDecl| const_symbol(c),
    ) + m.enums@.map_values(|e: EnumDecl| enum_symbol(e))
}

pub(crate) fn zero_based(line: usize) -> (r: usize)
    ensures
        r == line0(line),
{
    if line >= 1 {
        line - 1
    } else {
        0
    }
}

fn opt_clone(o: &Option<String>) -> (r: Option<String>)
    ensures
        crate::commands::opt_view(r) == crate::commands::opt_view(*o),
{
    match o {
        Some(s) => Some(s.clone()),
        None => None,
    }
}

fn field_children(s: &StructDecl) -> (r: Vec<ChildSymbol>)
    ensures
        r@.map_values(|x: ChildSymbol| child_view(x)) == s.fields@.map_values(
            |f: (String, Option<String>)| field_symbol(f, s.line),
        ),
{
    let mut out: Vec<ChildSymbol> = Vec::new();
    let mut i: usize = 0;
    while i < s.fields.len()
        invariant
            i <= s.fields.len(),
            out.len() == i,
            forall|k: int|
                0 <= k < i ==> child_view(#[trigger] out@[k]) == field_symbol(s.fields@[k], s.line),
        decreases s.fields.len() - i,
    {
        let detail = match &s.fields[i].1 {
            Some(t) => t.clone(),
            None => String::new(),
        };
        out.push(
            ChildSymbol {
                name: s.fields[i].0.clone(),
                detail: Some(detail),
                kind: OutlineKind::Field,
                line: zero_based(s.line),
            },
        );
        i = i + 1;
    }
    assert(out@.map_values(|x: ChildSymbol| child_view(x)) =~= s.fields@.map_values(
        |f: (String, Option<String>)| field_symbol(f, s.line),
    ));
    out
}

fn variant_children(e: &EnumDecl) -> (r: Vec<ChildSymbol>)
    ensures
        r@.map_values(|x: ChildSymbol| child_view(x)) == e.variants@.map_values(
            |v: VariantDecl| variant_symbol(v),
        ),
{
    let mut out: Vec<ChildSymbol> = Vec::new();
    let mut i: usize = 0;
    while i < e.variants.len()
        invariant
            i <= e.variants.len(),
            out.len() == i,
            forall|k: int| 0 <= k < i ==> child_view(#[trigger] out@[k]) == variant_symbol(e.variants@[k]),
        decreases e.variants.len() - i,
    {
        let v = &e.variants[i];
        out.push(
            ChildSymbol {
                name: v.name.clone(),
                detail: opt_clone(&v.data),
                kind: OutlineKind::EnumMember,
                line: zero_based(v.line),
            },
        );
        i = i + 1;
    }
    assert(out@.map_values(|x: ChildSymbol| child_view(x)) =~= e.variants@.map_values(
        |v: VariantDecl| variant_symbol(v),
    ));
    out
}

/// The document outline of a parsed module.
pub fn document_symbols(module: &ModuleOutline) -> (r: Vec<DocSymbol>)
    ensures
        r@.map_values(|s: DocSymbol| symbol_view(s)) == outline_spec(*module),
{
    let mut out: Vec<DocSymbol> = Vec::new();
    let ghost target = outline_spec(*module);
    let ghost fns = module.functions@.map_values(|f: FnDecl| fn_symbol(f));
    let ghost sts = module.structs@.map_values(|s: StructDecl| struct_symbol(s));
    let ghost trs = module.traits@.map_values(|t: TraitDecl| trait_symbol(t));
    let ghost cos = module.constants@.map_values(|c: ConstDecl| const_symbol(c));
    let ghost ens = module.enums@.map_values(|e: EnumDecl| enum_symbol(e));
    let mut i: usize = 0;
    while i < module.functions.len()
        invariant
            i <= module.functions.len(),
            fns == module.functions@.map_values(|f: FnDecl| fn_symbol(f)),
            out@.map_values(|s: DocSymbol| symbol_view(s)) == fns.subrange(0, i as int),
        decreases module.functions.len() - i,
    {
        let ghost prev = out@.map_values(|s: DocSymbol| symbol_view(s));
        let f = &module.functions[i];
        let d = concat2("-> ", chars_of(f.return_type.as_str()).as_slice());
        out.push(
            DocSymbol {
                name: f.name.clone(),
                detail: Some(d),
                kind: OutlineKind::Function,
                line: zero_based(f.line),
                children: None,
            },
        );
        proof {
            let now = out@.map_values(|s: DocSymbol| symbol_view(s));
            assert(now.len() == prev.len() + 1);
            assert(now.last() == symbol_view(out@.last()));
            assert(symbol_view(out@.last()) == fns[i as int]);
            assert(now.drop_last() =~= prev);
            assert(now =~= fns.subrange(0, i + 1));
        }
        i = i + 1;
    }
    let ghost base1 = fns;
    let mut j: usize = 0;
    while j < module.structs.len()
        invariant
            j <= module.structs.len(),
            sts == module.structs@.map_values(|s: StructDecl| struct_symbol(s)),
            out@.map_values(|s: DocSymbol| symbol_view(s)) == base1 + sts.subrange(0, j as int),
        decreases module.structs.len() - j,
    {
        let ghost prev = out@.map_values(|s: DocSymbol| symbol_view(s));
        let s = &module.structs[j];
        let children = field_children(s);
        out.push(
            DocSymbol {
                name: s.name.clone(),
                detail: None,
                kind: OutlineKind::Struct,
                line: zero_based(s.line),
                children: Some(children),
            },
        );
        proof {
            let now = out@.map_values(|s: DocSymbol| symbol_view(s));
            assert(now.len() == prev.len() + 1);
            assert(now.last() == symbol_view(out@.last()));
            assert(symbol_view(out@.last()) == sts[j as int]);
            assert(now.drop_last() =~= prev);
            let want = base1 + sts.subrange(0, j + 1);
            assert(want.drop_last() =~= base1 + sts.subrange(0, j as int));
            assert(want.last() == sts[j as int]);
            assert(now =~= want) by {
                assert forall|n: int| 0 <= n < now.len() implies now[n] == want[n] by {
                    if n < now.len() - 1 {
                        assert(now[n] == now.drop_last()[n]);
                        assert(want[n] == want.drop_last()[n]);
                    }
                }
            }
        }
        j = j + 1;
    }
    let ghost base2 = base1 + sts;
    assert(sts.subrange(0, module.structs.len() as int) =~= sts);
    let mut k: usize = 0;
    while k < module.traits.len()
        invariant
            k <= module.traits.len(),
            trs == module.traits@.map_values(|t: TraitDecl| trait_symbol(t)),
            out@.map_values(|s: DocSymbol| symbol_view(s)) == base2 + trs.subrange(0, k as int),
        decreases module.traits.len() - k,
    {
        let ghost prev = out@.map_values(|s: DocSymbol| symbol_view(s));
        let t = &module.traits[k];
        out.push(
            DocSymbol {
                name: t.name.clone(),
                detail: None,
                kind: OutlineKind::Interface,
                line: zero_based(t.line),
                children: None,
            },
        );
        proof {
            let now = out@.map_values(|s: DocSymbol| symbol_view(s));
            assert(now.len() == prev.len() + 1);
            assert(now.last() == symbol_view(out@.last()));
            assert(symbol_view(out@.last()) == trs[k as int]);
            assert(now.drop_last() =~= prev);
            let want = base2 + trs.subrange(0, k + 1);
            assert(want.drop_last() =~= base2 + trs.subrange(0, k as int));
            assert(want.last() == trs[k as int]);
            assert(now =~= want) by {
                assert forall|n: int| 0 <= n < now.len() implies now[n] == want[n] by {
                    if n < now.len() - 1 {
                        assert(now[n] == now.drop_last()[n]);
                        assert(want[n] == want.drop_last()[n]);
                    }
                }
            }
        }
        k = k + 1;
    }
    let ghost base3 = base2 + trs;
    assert(trs.subrange(0, module.traits.len() as int) =~= trs);
    let mut c: usize = 0;
    while c < module.constants.len()
        invariant
            c <= module.constants.len(),
            cos == module.constants@.map_values(|c: ConstDecl| const_symbol(c)),
            out@.map_values(|s: DocSymbol| symbol_view(s)) == base3 + cos.subrange(0, c as int),
        decreases module.constants.len() - c,
    {
        let ghost prev = out@.map_values(|s: DocSymbol| symbol_view(s));
        let cd = &module.constants[c];
        out.push(
            DocSymbol {
                name: cd.name.clone(),
                detail: Some(cd.ty.clone()),
                kind: OutlineKind::Constant,
                line: zero_based(cd.line),
                children: None,
            },
        );
        proof {
            let now = out@.map_values(|s: DocSymbol| symbol_view(s));
            assert(now.len() == prev.len() + 1);
            assert(now.last() == symbol_view(out@.last()));
            assert(symbol_view(out@.last()) == cos[c as int]);
            assert(now.drop_last() =~= prev);
            let want = base3 + cos.subrange(0, c + 1);
            assert(want.drop_last() =~= base3 + cos.subrange(0, c as int));
            assert(want.last() == cos[c as int]);
            assert(now =~= want) by {
                assert forall|n: int| 0 <= n < now.len() implies now[n] == want[n] by {
                    if n < now.len() - 1 {
                        assert(now[n] == now.drop_last()[n]);
                        assert(want[n] == want.drop_last()[n]);
                    }
                }
            }
        }
        c = c + 1;
    }
    let ghost base4 = base3 + cos;
    assert(cos.subrange(0, module.constants.len() as int) =~= cos);
    let mut e: usize = 0;
    while e < module.enums.len()
        invariant
            e <= module.enums.len(),
            ens == module.enums@.map_values(|e: EnumDecl| enum_symbol(e)),
            out@.map_values(|s: DocSymbol| symbol_view(s)) == base4 + ens.subrange(0, e as int),
        decreases module.enums.len() - e,
    {
        let ghost prev = out@.map_values(|s: DocSymbol| symbol_view(s));
        let ed = &module.enums[e];
        let children = variant_children(ed);
        out.push(
            DocSymbol {
                name: ed.name.clone(),
                detail: None,
                kind: OutlineKind::Enum,
                line: zero_based(ed.line),
                children: Some(children),
            },
        );
        proof {
            let now = out@.map_values(|s: DocSymbol| symbol_view(s));
            assert(now.len() == prev.len() + 1);
            assert(now.last() == symbol_view(out@.last()));
            assert(symbol_view(out@.last()) == ens[e as int]);
            assert(now.drop_last() =~= prev);
            let want = base4 + ens.subrange(0, e + 1);
            assert(want.drop_last() =~= base4 + ens.subrange(0, e as int));
            assert(want.last() == ens[e as int]);
            assert(now =~= want) by {
                assert forall|n: int| 0 <= n < now.len() implies now[n] == want[n] by {
                    if n < now.len() - 1 {
                        assert(now[n] == now.drop_last()[n]);
                        assert(want[n] == want.drop_last()[n]);
                    }
                }
            }
        }
        e = e + 1;
    }
    assert(ens.subrange(0, module.enums.len() as int) =~= ens);
    assert(fns.subrange(0, module.functions.len() as int) =~= fns);
    out
}

} // verus!
