//! What a module exports (its public functions' signatures and its constants' types), and the
//! name environments built from the imports of a module: which names each import brings in,
//! and which imported names clash.

use vstd::prelude::*;
use crate::outline::{ConstDecl, FnDecl, ImportDecl, ModuleOutline};
use crate::text::{chars_eq, chars_of, views};

verus! {

/// A function's signature as written: parameter types and return type.
#[derive(Debug)]
pub struct FnContract {
    pub params: Vec<String>,
    pub ret: String,
}

/// The table entry for `key`: the first entry with that name, from index `i` on.
pub open spec fn entry_from<V>(v: Seq<(String, V)>, key: Seq<char>, i: int) -> Option<V>
    decreases v.len() - i,
{
    if i < 0 || i >= v.len() {
        None
    } else if v[i].0@ == key {
        Some(v[i].1)
    } else {
        entry_from(v, key, i + 1)
    }
}

/// A table of named entries read as a map from names.
pub open spec fn table_map<V>(v: Seq<(String, V)>) -> Map<Seq<char>, V> {
    Map::new(|k: Seq<char>| entry_from(v, k, 0) is Some, |k: Seq<char>| entry_from(v, k, 0)->0)
}

proof fn lemma_entry_past_update<V>(v: Seq<(String, V)>, k: int, e: (String, V), n: Seq<char>, i: int)
    requires
        0 <= k < i,
        k < v.len(),
    ensures
        entry_from(v.update(k, e), n, i) == entry_from(v, n, i),
    decreases v.len() - i,
{
    if i < v.len() {
        assert(v.update(k, e)[i] == v[i]);
        lemma_entry_past_update(v, k, e, n, i + 1);
    }
}

proof fn lemma_entry_update<V>(v: Seq<(String, V)>, k: int, e: (String, V), n: Seq<char>, i: int)
    requires
        0 <= k < v.len(),
        0 <= i <= k,
        v[k].0@ == e.0@,
        forall|j: int| i <= j < k ==> (#[trigger] v[j]).0@ != e.0@,
    ensures
        entry_from(v.update(k, e), n, i) == if n == e.0@ {
            Some(e.1)
        } else {
            entry_from(v, n, i)
        },
    decreases k - i,
{
    assert(v.update(k, e)[i] == if i == k { e } else { v[i] });
    if i < k {
        lemma_entry_update(v, k, e, n, i + 1);
    } else {
        lemma_entry_past_update(v, k, e, n, k + 1);
    }
}

proof fn lemma_entry_push<V>(v: Seq<(String, V)>, e: (String, V), n: Seq<char>, i: int)
    requires
        0 <= i <= v.len(),
        forall|j: int| i <= j < v.len() ==> (#[trigger] v[j]).0@ != e.0@,
    ensures
        entry_from(v.push(e), n, i) == if n == e.0@ {
            Some(e.1)
        } else {
            entry_from(v, n, i)
        },
    decreases v.len() - i,
{
    assert(v.push(e)[i] == if i < v.len() { v[i] } else { e });
    if i < v.len() {
        lemma_entry_push(v, e, n, i + 1);
    }
}

/// Set `key` to `value`: the entry of that name is replaced, or a new one is added at the end.
pub fn table_insert<V>(table: &mut Vec<(String, V)>, key: String, value: V)
    ensures
        table_map(final(table)@) == table_map(old(table)@).insert(key@, value),
{
    let ghost t = table@;
    let k = chars_of(key.as_str());
    let mut i: usize = 0;
    while i < table.len()
        invariant
            i <= table.len(),
            table@ == t,
            t == old(table)@,
            k@ == key@,
            forall|j: int| 0 <= j < i ==> (#[trigger] t[j]).0@ != key@,
        decreases table.len() - i,
    {
        if chars_eq(chars_of(table[i].0.as_str()).as_slice(), k.as_slice()) {
            let e = (key, value);
            let ghost ge = e;
            table.set(i, e);
            assert(table@ == t.update(i as int, ge));
            assert(t[i as int].0@ == ge.0@);
            proof {
                assert forall|n: Seq<char>| #[trigger] entry_from(t.update(i as int, ge), n, 0)
                    == if n == ge.0@ { Some(ge.1) } else { entry_from(t, n, 0) } by {
                    lemma_entry_update(t, i as int, ge, n, 0);
                }
                assert(table_map(table@) =~= table_map(t).insert(ge.0@, ge.1));
            }
            return;
        }
        i = i + 1;
    }
    let e = (key, value);
    let ghost ge = e;
    table.push(e);
    proof {
        assert forall|n: Seq<char>| #[trigger] entry_from(t.push(ge), n, 0) == if n == ge.0@ {
            Some(ge.1)
        } else {
            entry_from(t, n, 0)
        } by {
            lemma_entry_push(t, ge, n, 0);
        }
        assert(table_map(table@) =~= table_map(t).insert(ge.0@, ge.1));
    }
}

/// Drop every entry named `key`.
pub fn table_remove<V>(table: &mut Vec<(String, V)>, key: &str)
    ensures
        table_map(final(table)@) == table_map(old(table)@).remove(key@),
{
    let ghost t = table@;
    let k = chars_of(key);
    let mut rest: Vec<(String, V)> = Vec::new();
    std::mem::swap(table, &mut rest);
    let ghost mut i: int = 0;
    assert(rest@ == t.subrange(0, t.len() as int));
    while rest.len() > 0
        invariant
            0 <= i <= t.len(),
            rest@ == t.subrange(i, t.len() as int),
            k@ == key@,
            forall|n: Seq<char>| #[trigger] entry_from(table@, n, 0) == if n == key@ {
                None
            } else {
                entry_from(t.subrange(0, i), n, 0)
            },
        decreases rest.len(),
    {
        let e = rest.remove(0);
        let ghost ge = e;
        let ghost before = table@;
        assert(ge == t[i]);
        assert(t.subrange(0, i + 1) =~= t.subrange(0, i).push(ge));
        if !chars_eq(chars_of(e.0.as_str()).as_slice(), k.as_slice()) {
            table.push(e);
            proof {
                assert forall|n: Seq<char>| #[trigger] entry_from(table@, n, 0) == if n == key@ {
                    None
                } else {
                    entry_from(t.subrange(0, i + 1), n, 0)
                } by {
                    lemma_entry_push_any(before, ge, n, 0);
                    lemma_entry_push_any(t.subrange(0, i), ge, n, 0);
                }
            }
        } else {
            proof {
                assert forall|n: Seq<char>| #[trigger] entry_from(table@, n, 0) == if n == key@ {
                    None
                } else {
                    entry_from(t.subrange(0, i + 1), n, 0)
                } by {
                    lemma_entry_push_any(t.subrange(0, i), ge, n, 0);
                }
            }
        }
        proof {
            i = i + 1;
        }
        assert(rest@ =~= t.subrange(i, t.len() as int));
    }
    assert(t.subrange(0, t.len() as int) =~= t);
    assert(table_map(table@) =~= table_map(t).remove(key@));
}

/// The entry for `key`, if any.
pub fn table_get<'a, V>(table: &'a Vec<(String, V)>, key: &str) -> (r: Option<&'a V>)
    ensures
        match entry_from(table@, key@, 0) {
            Some(x) => r == Some(&x),
            None => r is None,
        },
{
    let k = chars_of(key);
    let mut i: usize = 0;
    while i < table.len()
        invariant
            i <= table.len(),
            k@ == key@,
            entry_from(table@, key@, 0) == entry_from(table@, key@, i as int),
        decreases table.len() - i,
    {
        if chars_eq(chars_of(table[i].0.as_str()).as_slice(), k.as_slice()) {
            return Some(&table[i].1);
        }
        i = i + 1;
    }
    None
}

/// A signature as plain values: parameter types, return type.
pub type ContractView = (Seq<Seq<char>>, Seq<char>);

pub open spec fn contract_view(c: FnContract) -> ContractView {
    (views(c.params@), c.ret@)
}

impl FnContract {
    /// An equal copy.
    pub fn copy(&self) -> (r: FnContract)
        ensures
            contract_view(r) == contract_view(*self),
    {
        let mut params: Vec<String> = Vec::new();
        let mut i: usize = 0;
        while i < self.params.len()
            invariant
                i <= self.params.len(),
                views(params@) == views(self.params@.subrange(0, i as int)),
            decreases self.params.len() - i,
        {
            params.push(self.params[i].clone());
            assert(views(self.params@.subrange(0, i + 1)) =~= views(self.params@.subrange(0, i as int)).push(
                self.params@[i as int]@,
            ));
            assert(views(params@) =~= views(params@.drop_last()).push(params@.last()@));
            i = i + 1;
        }
        assert(self.params@.subrange(0, self.params.len() as int) =~= self.params@);
        FnContract { params, ret: self.ret.clone() }
    }
}

/// The names a module exports: its public functions with their signatures, and every constant
/// with its type (constants have no visibility).
#[derive(Debug)]
pub struct ExportTable {
    pub functions: Vec<(String, FnContract)>,
    pub constants: Vec<(String, String)>,
}

/// A module's exported functions as a map of signatures.
pub open spec fn functions_map(t: Seq<(String, FnContract)>) -> Map<Seq<char>, ContractView> {
    table_map(t).map_values(|c: FnContract| contract_view(c))
}

/// A module's exported constants as a map of type names.
pub open spec fn constants_map(t: Seq<(String, String)>) -> Map<Seq<char>, Seq<char>> {
    table_map(t).map_values(|ty: String| ty@)
}

/// The public functions of `fs`, later declarations of a name replacing earlier ones.
pub open spec fn public_functions(fs: Seq<FnDecl>) -> Map<Seq<char>, ContractView>
    decreases fs.len(),
{
    if fs.len() == 0 {
        Map::empty()
    } else {
        let m = public_functions(fs.drop_last());
        let f = fs.last();
        if f.is_public {
            m.insert(f.name@, (f.params@.map_values(|p: (String, String)| p.1@), f.return_type@))
        } else {
            m
        }
    }
}

/// Every constant of `cs` with its type.
pub open spec fn all_constants(cs: Seq<ConstDecl>) -> Map<Seq<char>, Seq<char>>
    decreases cs.len(),
{
    if cs.len() == 0 {
        Map::empty()
    } else {
        all_constants(cs.drop_last()).insert(cs.last().name@, cs.last().ty@)
    }
}

proof fn lemma_insert_functions(t: Seq<(String, FnContract)>, t2: Seq<(String, FnContract)>, k: Seq<char>, c: FnContract)
    requires
        table_map(t2) == table_map(t).insert(k, c),
    ensures
        functions_map(t2) == functions_map(t).insert(k, contract_view(c)),
{
    assert(functions_map(t2) =~= functions_map(t).insert(k, contract_view(c)));
}

proof fn lemma_insert_constants(t: Seq<(String, String)>, t2: Seq<(String, String)>, k: Seq<char>, c: String)
    requires
        table_map(t2) == table_map(t).insert(k, c),
    ensures
        constants_map(t2) == constants_map(t).insert(k, c@),
{
    assert(constants_map(t2) =~= constants_map(t).insert(k, c@));
}

/// The export table of a module.
pub fn build_export_table(module: &ModuleOutline) -> (r: ExportTable)
    ensures
        functions_map(r.functions@) == public_functions(module.functions@),
        constants_map(r.constants@) == all_constants(module.constants@),
{
    let mut functions: Vec<(String, FnContract)> = Vec::new();
    assert(functions_map(functions@) =~= Map::empty());
    let mut i: usize = 0;
    while i < module.functions.len()
        invariant
            i <= module.functions.len(),
            functions_map(functions@) == public_functions(module.functions@.subrange(0, i as int)),
        decreases module.functions.len() - i,
    {
        let f = &module.functions[i];
        assert(module.functions@.subrange(0, i + 1).drop_last() =~= module.functions@.subrange(0, i as int));
        if f.is_public {
            let mut params: Vec<String> = Vec::new();
            let mut j: usize = 0;
            while j < f.params.len()
                invariant
                    j <= f.params.len(),
                    views(params@) == f.params@.subrange(0, j as int).map_values(|p: (String, String)| p.1@),
                decreases f.params.len() - j,
            {
                params.push(f.params[j].1.clone());
                assert(f.params@.subrange(0, j + 1).map_values(|p: (String, String)| p.1@) =~= f.params@.subrange(
                    0,
                    j as int,
                ).map_values(|p: (String, String)| p.1@).push(f.params@[j as int].1@));
                assert(views(params@) =~= views(params@.drop_last()).push(params@.last()@));
                j = j + 1;
            }
            assert(f.params@.subrange(0, f.params.len() as int) =~= f.params@);
            let c = FnContract { params, ret: f.return_type.clone() };
            let ghost before = functions@;
            let ghost gc = c;
            table_insert(&mut functions, f.name.clone(), c);
            proof {
                lemma_insert_functions(before, functions@, f.name@, gc);
            }
        }
        i = i + 1;
    }
    assert(module.functions@.subrange(0, module.functions.len() as int) =~= module.functions@);
    let mut constants: Vec<(String, String)> = Vec::new();
    assert(constants_map(constants@) =~= Map::empty());
    let mut i: usize = 0;
    while i < module.constants.len()
        invariant
            i <= module.constants.len(),
            constants_map(constants@) == all_constants(module.constants@.subrange(0, i as int)),
        decreases module.constants.len() - i,
    {
        let c = &module.constants[i];
        assert(module.constants@.subrange(0, i + 1).drop_last() =~= module.constants@.subrange(0, i as int));
        let ghost before = constants@;
        let ty = c.ty.clone();
        let ghost gty = ty;
        table_insert(&mut constants, c.name.clone(), ty);
        proof {
            lemma_insert_constants(before, constants@, c.name@, gty);
        }
        i = i + 1;
    }
    assert(module.constants@.subrange(0, module.constants.len() as int) =~= module.constants@);
    ExportTable { functions, constants }
}

proof fn lemma_entry_push_any<V>(v: Seq<(String, V)>, e: (String, V), n: Seq<char>, i: int)
    requires
        0 <= i <= v.len(),
    ensures
        entry_from(v.push(e), n, i) == if entry_from(v, n, i) is Some {
            entry_from(v, n, i)
        } else if n == e.0@ {
            Some(e.1)
        } else {
            None
        },
    decreases v.len() - i,
{
    assert(v.push(e)[i] == if i < v.len() { v[i] } else { e });
    if i < v.len() {
        lemma_entry_push_any(v, e, n, i + 1);
    }
}

/// A resolved dependency: its declarations, what it exports, and whether it came from the
/// standard library's interface files.
#[derive(Debug)]
pub struct ResolvedModule {
    pub module: ModuleOutline,
    pub exports: ExportTable,
    pub is_stdlib: bool,
}

/// Whether an import brings in `name`: a whole-module import brings in everything, a
/// selective one the names it lists.
pub open spec fn brings_in(names: Option<Vec<String>>, name: Seq<char>) -> bool {
    match names {
        None => true,
        Some(v) => views(v@).contains(name),
    }
}

fn brings_in_exec(names: &Option<Vec<String>>, name: &String) -> (r: bool)
    ensures
        r == brings_in(*names, name@),
{
    match names {
        None => true,
        Some(v) => {
            let w = chars_of(name.as_str());
            let mut i: usize = 0;
            while i < v.len()
                invariant
                    i <= v.len(),
                    w@ == name@,
                    *names == Some(*v),
                    forall|j: int| 0 <= j < i ==> (#[trigger] v@[j])@ != name@,
                decreases v.len() - i,
            {
                if chars_eq(chars_of(v[i].as_str()).as_slice(), w.as_slice()) {
                    assert(views(v@)[i as int] == name@);
                    assert(views(v@).contains(name@));
                    return true;
                }
                i = i + 1;
            }
            assert(!views(v@).contains(name@)) by {
                if views(v@).contains(name@) {
                    let j = choose|j: int| 0 <= j < views(v@).len() && views(v@)[j] == name@;
                    assert(v@[j]@ == name@);
                }
            }
            false
        },
    }
}

/// `m` with the exported functions `exps[..i]` an import brings in added, in order.
pub open spec fn add_functions(
    m: Map<Seq<char>, ContractView>,
    exps: Seq<(String, FnContract)>,
    names: Option<Vec<String>>,
    i: int,
) -> Map<Seq<char>, ContractView>
    decreases i,
{
    if i <= 0 || i > exps.len() {
        m
    } else {
        let m2 = add_functions(m, exps, names, i - 1);
        if brings_in(names, exps[i - 1].0@) {
            m2.insert(exps[i - 1].0@, contract_view(exps[i - 1].1))
        } else {
            m2
        }
    }
}

/// `m` with the exported constants `exps[..i]` an import brings in added, in order.
pub open spec fn add_constants(
    m: Map<Seq<char>, Seq<char>>,
    exps: Seq<(String, String)>,
    names: Option<Vec<String>>,
    i: int,
) -> Map<Seq<char>, Seq<char>>
    decreases i,
{
    if i <= 0 || i > exps.len() {
        m
    } else {
        let m2 = add_constants(m, exps, names, i - 1);
        if brings_in(names, exps[i - 1].0@) {
            m2.insert(exps[i - 1].0@, exps[i - 1].1@)
        } else {
            m2
        }
    }
}

/// The functions visible to a module: the prelude's, then for each import of a resolved module
/// (in order) the exported functions it brings in, a later one replacing an earlier one.
pub open spec fn merged_functions(
    prelude: Map<Seq<char>, ContractView>,
    imports: Seq<ImportDecl>,
    resolved: Seq<(String, ResolvedModule)>,
) -> Map<Seq<char>, ContractView>
    decreases imports.len(),
{
    if imports.len() == 0 {
        prelude
    } else {
        let m = merged_functions(prelude, imports.drop_last(), resolved);
        let imp = imports.last();
        match entry_from(resolved, imp.module@, 0) {
            None => m,
            Some(res) => add_functions(m, res.exports.functions@, imp.names, res.exports.functions@.len() as int),
        }
    }
}

/// The constants visible to a module, built in the same way.
pub open spec fn merged_constants(
    prelude: Map<Seq<char>, Seq<char>>,
    imports: Seq<ImportDecl>,
    resolved: Seq<(String, ResolvedModule)>,
) -> Map<Seq<char>, Seq<char>>
    decreases imports.len(),
{
    if imports.len() == 0 {
        prelude
    } else {
        let m = merged_constants(prelude, imports.drop_last(), resolved);
        let imp = imports.last();
        match entry_from(resolved, imp.module@, 0) {
            None => m,
            Some(res) => add_constants(m, res.exports.constants@, imp.names, res.exports.constants@.len() as int),
        }
    }
}

proof fn lemma_same_entries(a: Seq<(String, FnContract)>, b: Seq<(String, FnContract)>, n: Seq<char>, i: int)
    requires
        a.len() == b.len(),
        0 <= i,
        forall|j: int| 0 <= j < a.len() ==> (#[trigger] a[j]).0@ == b[j].0@ && contract_view(a[j].1)
            == contract_view(b[j].1),
    ensures
        (entry_from(a, n, i) is Some) == (entry_from(b, n, i) is Some),
        entry_from(a, n, i) is Some ==> contract_view(entry_from(a, n, i)->0) == contract_view(
            entry_from(b, n, i)->0,
        ),
    decreases a.len() - i,
{
    if i < a.len() {
        lemma_same_entries(a, b, n, i + 1);
    }
}

fn copy_functions(t: &Vec<(String, FnContract)>) -> (r: Vec<(String, FnContract)>)
    ensures
        functions_map(r@) == functions_map(t@),
{
    let mut r: Vec<(String, FnContract)> = Vec::new();
    let mut i: usize = 0;
    while i < t.len()
        invariant
            i <= t.len(),
            r@.len() == i,
            forall|j: int| 0 <= j < i ==> (#[trigger] r@[j]).0@ == t@[j].0@ && contract_view(r@[j].1)
                == contract_view(t@[j].1),
        decreases t.len() - i,
    {
        r.push((t[i].0.clone(), t[i].1.copy()));
        i = i + 1;
    }
    proof {
        assert forall|n: Seq<char>| (#[trigger] entry_from(r@, n, 0) is Some) == (entry_from(t@, n, 0) is Some) && (entry_from(r@, n, 0) is Some ==> contract_view(entry_from(r@, n, 0)->0) == contract_view(entry_from(t@, n, 0)->0)) by {
            lemma_same_entries(r@, t@, n, 0);
        }
        assert(functions_map(r@) =~= functions_map(t@));
    }
    r
}

fn copy_constants(t: &Vec<(String, String)>) -> (r: Vec<(String, String)>)
    ensures
        r@ == t@,
{
    let mut r: Vec<(String, String)> = Vec::new();
    let mut i: usize = 0;
    while i < t.len()
        invariant
            i <= t.len(),
            r@ == t@.subrange(0, i as int),
        decreases t.len() - i,
    {
        r.push((t[i].0.clone(), t[i].1.clone()));
        assert(r@ =~= t@.subrange(0, i + 1));
        i = i + 1;
    }
    assert(t@.subrange(0, t.len() as int) =~= t@);
    r
}

/// The names a module sees from outside: the prelude's functions and constants, plus what each
/// of its imports of a resolved module brings in (imports of unresolved modules add nothing).
pub fn merge_for_semantic(
    module: &ModuleOutline,
    resolved: &Vec<(String, ResolvedModule)>,
    prelude: &ExportTable,
) -> (r: ExportTable)
    ensures
        functions_map(r.functions@) == merged_functions(functions_map(prelude.functions@), module.imports@, resolved@),
        constants_map(r.constants@) == merged_constants(constants_map(prelude.constants@), module.imports@, resolved@),
{
    let mut functions = copy_functions(&prelude.functions);
    let mut constants = copy_constants(&prelude.constants);
    let ghost pf = functions_map(prelude.functions@);
    let ghost pc = constants_map(prelude.constants@);
    let mut k: usize = 0;
    while k < module.imports.len()
        invariant
            k <= module.imports.len(),
            pf == functions_map(prelude.functions@),
            pc == constants_map(prelude.constants@),
            functions_map(functions@) == merged_functions(pf, module.imports@.subrange(0, k as int), resolved@),
            constants_map(constants@) == merged_constants(pc, module.imports@.subrange(0, k as int), resolved@),
        decreases module.imports.len() - k,
    {
        let imp = &module.imports[k];
        let ghost before_f = functions_map(functions@);
        let ghost before_c = constants_map(constants@);
        assert(module.imports@.subrange(0, k + 1).drop_last() =~= module.imports@.subrange(0, k as int));
        match table_get(resolved, imp.module.as_str()) {
            None => {},
            Some(res) => {
                let exps = &res.exports.functions;
                let mut i: usize = 0;
                while i < exps.len()
                    invariant
                        i <= exps.len(),
                        functions_map(functions@) == add_functions(before_f, exps@, imp.names, i as int),
                    decreases exps.len() - i,
                {
                    if brings_in_exec(&imp.names, &exps[i].0) {
                        let ghost t0 = functions@;
                        let c = exps[i].1.copy();
                        let ghost gc = c;
                        table_insert(&mut functions, exps[i].0.clone(), c);
                        proof {
                            lemma_insert_functions(t0, functions@, exps@[i as int].0@, gc);
                        }
                    }
                    i = i + 1;
                }
                let cexps = &res.exports.constants;
                let mut i: usize = 0;
                while i < cexps.len()
                    invariant
                        i <= cexps.len(),
                        constants_map(constants@) == add_constants(before_c, cexps@, imp.names, i as int),
                    decreases cexps.len() - i,
                {
                    if brings_in_exec(&imp.names, &cexps[i].0) {
                        let ghost t0 = constants@;
                        let ty = cexps[i].1.clone();
                        let ghost gty = ty;
                        table_insert(&mut constants, cexps[i].0.clone(), ty);
                        proof {
                            lemma_insert_constants(t0, constants@, cexps@[i as int].0@, gty);
                        }
                    }
                    i = i + 1;
                }
            },
        }
        k = k + 1;
    }
    assert(module.imports@.subrange(0, module.imports.len() as int) =~= module.imports@);
    ExportTable { functions, constants }
}

/// A name brought in twice: its code (`SEM090` for a function, `SEM091` for a constant), message
/// and the line of the import that brought it in again (stage `semantiki`, column 1).
#[derive(Clone, Debug)]
pub struct ImportClash {
    pub code: String,
    pub message: String,
    pub line: usize,
}

pub type ClashView = (Seq<char>, Seq<char>, usize);

pub open spec fn clash_view(c: ImportClash) -> ClashView {
    (c.code@, c.message@, c.line)
}

pub open spec fn clashes_view(v: Seq<ImportClash>) -> Seq<ClashView> {
    v.map_values(|c: ImportClash| clash_view(c))
}

/// The scan's state: where each function name and each constant name was first seen, and the
/// clashes found so far.
pub type ClashScan = (Map<Seq<char>, Seq<char>>, Map<Seq<char>, Seq<char>>, Seq<ClashView>);

/// A name seen again is a clash unless it was first seen in the prelude and comes again from a
/// standard library module.
pub open spec fn clashes(from: Seq<char>, is_stdlib: bool) -> bool {
    from != "msingi"@ || !is_stdlib
}

pub open spec fn scan_functions(
    st: ClashScan,
    exps: Seq<(String, FnContract)>,
    names: Option<Vec<String>>,
    module_name: Seq<char>,
    is_stdlib: bool,
    line: usize,
    i: int,
) -> ClashScan
    decreases i,
{
    if i <= 0 || i > exps.len() {
        st
    } else {
        let s = scan_functions(st, exps, names, module_name, is_stdlib, line, i - 1);
        let n = exps[i - 1].0@;
        if !brings_in(names, n) {
            s
        } else if s.0.contains_key(n) {
            if clashes(s.0[n], is_stdlib) {
                (
                    s.0,
                    s.1,
                    s.2.push(
                        (
                            "SEM090"@,
                            "jina lamerudia: '"@ + n + "' limetoka "@ + s.0[n] + " na "@ + module_name,
                            line,
                        ),
                    ),
                )
            } else {
                s
            }
        } else {
            (s.0.insert(n, module_name), s.1, s.2)
        }
    }
}

pub open spec fn scan_constants(
    st: ClashScan,
    exps: Seq<(String, String)>,
    names: Option<Vec<String>>,
    module_name: Seq<char>,
    is_stdlib: bool,
    line: usize,
    i: int,
) -> ClashScan
    decreases i,
{
    if i <= 0 || i > exps.len() {
        st
    } else {
        let s = scan_constants(st, exps, names, module_name, is_stdlib, line, i - 1);
        let n = exps[i - 1].0@;
        if !brings_in(names, n) {
            s
        } else if s.1.contains_key(n) {
            if clashes(s.1[n], is_stdlib) {
                (
                    s.0,
                    s.1,
                    s.2.push(("SEM091"@, "jina lamerudia: '"@ + n + "' (thabiti) limetoka "@ + s.1[n], line)),
                )
            } else {
                s
            }
        } else {
            (s.0, s.1.insert(n, module_name), s.2)
        }
    }
}

/// The scan over the imports: for each import of a resolved module, its exported functions
/// then its exported constants, in the order the export table lists them.
pub open spec fn scan_imports(
    st: ClashScan,
    imports: Seq<ImportDecl>,
    resolved: Seq<(String, ResolvedModule)>,
) -> ClashScan
    decreases imports.len(),
{
    if imports.len() == 0 {
        st
    } else {
        let s = scan_imports(st, imports.drop_last(), resolved);
        let imp = imports.last();
        match entry_from(resolved, imp.module@, 0) {
            None => s,
            Some(res) => {
                let s2 = scan_functions(
                    s,
                    res.exports.functions@,
                    imp.names,
                    imp.module@,
                    res.is_stdlib,
                    imp.line,
                    res.exports.functions@.len() as int,
                );
                scan_constants(
                    s2,
                    res.exports.constants@,
                    imp.names,
                    imp.module@,
                    res.is_stdlib,
                    imp.line,
                    res.exports.constants@.len() as int,
                )
            },
        }
    }
}

/// Every name of a table, as first seen in the prelude.
pub open spec fn prelude_origin<V>(t: Seq<(String, V)>) -> Map<Seq<char>, Seq<char>> {
    Map::new(|k: Seq<char>| entry_from(t, k, 0) is Some, |k: Seq<char>| "msingi"@)
}

fn prelude_names<V>(t: &Vec<(String, V)>) -> (r: Vec<(String, String)>)
    ensures
        constants_map(r@) == prelude_origin(t@),
{
    let mut r: Vec<(String, String)> = Vec::new();
    let mut i: usize = 0;
    assert(constants_map(r@) =~= prelude_origin(t@.subrange(0, 0)));
    while i < t.len()
        invariant
            i <= t.len(),
            constants_map(r@) == prelude_origin(t@.subrange(0, i as int)),
        decreases t.len() - i,
    {
        let ghost r0 = r@;
        let m = "msingi".to_string();
        let ghost gm = m;
        table_insert(&mut r, t[i].0.clone(), m);
        proof {
            lemma_insert_constants(r0, r@, t@[i as int].0@, gm);
            let p = t@.subrange(0, i as int);
            assert(t@.subrange(0, i + 1) =~= p.push(t@[i as int]));
            assert forall|n: Seq<char>| #[trigger] entry_from(p.push(t@[i as int]), n, 0) == if entry_from(p, n, 0) is Some {
                entry_from(p, n, 0)
            } else if n == t@[i as int].0@ {
                Some(t@[i as int].1)
            } else {
                None
            } by {
                lemma_entry_push_any(p, t@[i as int], n, 0);
            }
            assert(constants_map(r@) =~= prelude_origin(t@.subrange(0, i + 1)));
        }
        i = i + 1;
    }
    assert(t@.subrange(0, t.len() as int) =~= t@);
    r
}

/// The names two imports (or an import and the prelude) both bring in, in scan order. A name
/// first seen in the prelude may come again from a standard library module without a clash.
pub fn check_duplicate_imports(
    entrypoint: &ModuleOutline,
    resolved: &Vec<(String, ResolvedModule)>,
    prelude: &ExportTable,
) -> (r: Vec<ImportClash>)
    ensures
        clashes_view(r@) == scan_imports(
            (prelude_origin(prelude.functions@), prelude_origin(prelude.constants@), Seq::empty()),
            entrypoint.imports@,
            resolved@,
        ).2,
{
    let mut seen_functions = prelude_names(&prelude.functions);
    let mut seen_constants = prelude_names(&prelude.constants);
    let mut errors: Vec<ImportClash> = Vec::new();
    let ghost st0: ClashScan = (prelude_origin(prelude.functions@), prelude_origin(prelude.constants@), Seq::empty());
    assert(clashes_view(errors@) =~= Seq::<ClashView>::empty());
    let mut k: usize = 0;
    while k < entrypoint.imports.len()
        invariant
            k <= entrypoint.imports.len(),
            st0 == (prelude_origin(prelude.functions@), prelude_origin(prelude.constants@), Seq::<ClashView>::empty()),
            (constants_map(seen_functions@), constants_map(seen_constants@), clashes_view(errors@))
                == scan_imports(st0, entrypoint.imports@.subrange(0, k as int), resolved@),
        decreases entrypoint.imports.len() - k,
    {
        let imp = &entrypoint.imports[k];
        assert(entrypoint.imports@.subrange(0, k + 1).drop_last() =~= entrypoint.imports@.subrange(0, k as int));
        let ghost s0: ClashScan = (constants_map(seen_functions@), constants_map(seen_constants@), clashes_view(errors@));
        match table_get(resolved, imp.module.as_str()) {
            None => {},
            Some(res) => {
                let exps = &res.exports.functions;
                let mut i: usize = 0;
                while i < exps.len()
                    invariant
                        i <= exps.len(),
                        (constants_map(seen_functions@), constants_map(seen_constants@), clashes_view(errors@))
                            == scan_functions(s0, exps@, imp.names, imp.module@, res.is_stdlib, imp.line, i as int),
                    decreases exps.len() - i,
                {
                    let name = &exps[i].0;
                    if brings_in_exec(&imp.names, name) {
                        match table_get(&seen_functions, name.as_str()) {
                            Some(from) => {
                                if !crate::text::str_is(from.as_str(), "msingi") || !res.is_stdlib {
                                    let mut m = chars_of("jina lamerudia: '");
                                    crate::text::push_all(&mut m, chars_of(name.as_str()).as_slice());
                                    crate::text::push_all(&mut m, chars_of("' limetoka ").as_slice());
                                    crate::text::push_all(&mut m, chars_of(from.as_str()).as_slice());
                                    crate::text::push_all(&mut m, chars_of(" na ").as_slice());
                                    crate::text::push_all(&mut m, chars_of(imp.module.as_str()).as_slice());
                                    let ghost e0 = errors@;
                                    errors.push(ImportClash {
                                        code: "SEM090".to_string(),
                                        message: crate::text::string_of(m.as_slice()),
                                        line: imp.line,
                                    });
                                    assert(clashes_view(errors@) =~= clashes_view(e0).push(clash_view(errors@.last())));
                                }
                            },
                            None => {
                                let ghost t0 = seen_functions@;
                                let mname = imp.module.clone();
                                let ghost gm = mname;
                                table_insert(&mut seen_functions, name.clone(), mname);
                                proof {
                                    lemma_insert_constants(t0, seen_functions@, name@, gm);
                                }
                            },
                        }
                    }
                    i = i + 1;
                }
                let ghost s1: ClashScan = (constants_map(seen_functions@), constants_map(seen_constants@), clashes_view(errors@));
                let cexps = &res.exports.constants;
                let mut i: usize = 0;
                while i < cexps.len()
                    invariant
                        i <= cexps.len(),
                        (constants_map(seen_functions@), constants_map(seen_constants@), clashes_view(errors@))
                            == scan_constants(s1, cexps@, imp.names, imp.module@, res.is_stdlib, imp.line, i as int),
                    decreases cexps.len() - i,
                {
                    let name = &cexps[i].0;
                    if brings_in_exec(&imp.names, name) {
                        match table_get(&seen_constants, name.as_str()) {
                            Some(from) => {
                                if !crate::text::str_is(from.as_str(), "msingi") || !res.is_stdlib {
                                    let mut m = chars_of("jina lamerudia: '");
                                    crate::text::push_all(&mut m, chars_of(name.as_str()).as_slice());
                                    crate::text::push_all(&mut m, chars_of("' (thabiti) limetoka ").as_slice());
                                    crate::text::push_all(&mut m, chars_of(from.as_str()).as_slice());
                                    let ghost e0 = errors@;
                                    errors.push(ImportClash {
                                        code: "SEM091".to_string(),
                                        message: crate::text::string_of(m.as_slice()),
                                        line: imp.line,
                                    });
                                    assert(clashes_view(errors@) =~= clashes_view(e0).push(clash_view(errors@.last())));
                                }
                            },
                            None => {
                                let ghost t0 = seen_constants@;
                                let mname = imp.module.clone();
                                let ghost gm = mname;
                                table_insert(&mut seen_constants, name.clone(), mname);
                                proof {
                                    lemma_insert_constants(t0, seen_constants@, name@, gm);
                                }
                            },
                        }
                    }
                    i = i + 1;
                }
            },
        }
        k = k + 1;
    }
    assert(entrypoint.imports@.subrange(0, entrypoint.imports.len() as int) =~= entrypoint.imports@);
    errors
}

} // verus!
