//! `#[sharti(...)]` gating: dropping the top-level items whose predicate excludes the build
//! target, given each item's verdict.

use vstd::prelude::*;
use crate::outline::ModuleOutline;
use crate::text::{chars_of, concat2};

verus! {

/// A predicate that could not be understood (code `SHA001`, stage `sharti`, column 1): its
/// message and the line of the item it gates.
#[derive(Clone, Debug)]
pub struct TargetError {
    pub message: String,
    pub line: usize,
}

/// An item's verdict for the target, with its line: whether it is built (`Ok`), or why its
/// predicate could not be read (`Err`).
pub type Verdict = (Result<bool, String>, usize);

/// Whether an item stays: a kept item, or one whose predicate could not be read (so that a bad
/// predicate fails the build instead of silently removing code).
pub open spec fn stays(v: Verdict) -> bool {
    match v.0 {
        Ok(keep) => keep,
        Err(_) => true,
    }
}

/// The items of `items[..n]` that stay.
pub open spec fn surviving<T>(items: Seq<T>, vs: Seq<Verdict>, n: int) -> Seq<T>
    decreases n,
{
    if n <= 0 || n > items.len() {
        Seq::empty()
    } else {
        let rest = surviving(items, vs, n - 1);
        if stays(vs[n - 1]) {
            rest.push(items[n - 1])
        } else {
            rest
        }
    }
}

/// The errors of `vs[..n]`, in order: `sharti isiyoeleweka: <message>` at the item's line.
pub open spec fn verdict_errors(vs: Seq<Verdict>, n: int) -> Seq<(Seq<char>, usize)>
    decreases n,
{
    if n <= 0 || n > vs.len() {
        Seq::empty()
    } else {
        let rest = verdict_errors(vs, n - 1);
        match vs[n - 1].0 {
            Err(msg) => rest.push(("sharti isiyoeleweka: "@ + msg@, vs[n - 1].1)),
            Ok(_) => rest,
        }
    }
}

pub open spec fn errors_view(e: Seq<TargetError>) -> Seq<(Seq<char>, usize)> {
    e.map_values(|x: TargetError| (x.message@, x.line))
}

/// Keep the items that stay, adding an error for each unreadable predicate.
pub fn retain_surviving<T>(items: Vec<T>, verdicts: &Vec<Verdict>, errors: &mut Vec<TargetError>) -> (r: Vec<T>)
    requires
        verdicts@.len() == items@.len(),
    ensures
        r@ == surviving(items@, verdicts@, items@.len() as int),
        errors_view(final(errors)@) == errors_view(old(errors)@) + verdict_errors(verdicts@, verdicts@.len() as int),
{
    let ghost all = items@;
    assert(all.subrange(0, all.len() as int) =~= all);
    let ghost e0 = errors_view(errors@);
    let mut out: Vec<T> = Vec::new();
    let mut rest = items;
    let mut i: usize = 0;
    while i < verdicts.len()
        invariant
            i <= verdicts.len(),
            verdicts@.len() == all.len(),
            rest@ == all.subrange(i as int, all.len() as int),
            out@ == surviving(all, verdicts@, i as int),
            errors_view(errors@) == e0 + verdict_errors(verdicts@, i as int),
        decreases verdicts.len() - i,
    {
        let item = rest.remove(0);
        assert(item == all[i as int]);
        assert(rest@ =~= all.subrange(i + 1, all.len() as int));
        let keep = match &verdicts[i].0 {
            Ok(k) => *k,
            Err(msg) => {
                let ghost before = errors_view(errors@);
                errors.push(TargetError {
                    message: concat2("sharti isiyoeleweka: ", chars_of(msg.as_str()).as_slice()),
                    line: verdicts[i].1,
                });
                assert(errors_view(errors@) =~= before.push(("sharti isiyoeleweka: "@ + msg@, verdicts@[i as int].1)));
                true
            },
        };
        if keep {
            out.push(item);
        }
        i = i + 1;
    }
    out
}

/// The verdicts for each kind of top-level item, index-aligned with the module's lists.
pub struct TargetVerdicts {
    pub enums: Vec<Verdict>,
    pub structs: Vec<Verdict>,
    pub traits: Vec<Verdict>,
    pub impls: Vec<Verdict>,
    pub functions: Vec<Verdict>,
}

/// Drop the enums, structs, traits, impls and functions whose predicate excludes the target;
/// the module is filtered either way, and every unreadable predicate is reported (enums first,
/// then structs, traits, impls, functions).
pub fn filter_module_for_target(module: &mut ModuleOutline, verdicts: &TargetVerdicts) -> (r: Result<(), Vec<TargetError>>)
    requires
        verdicts.enums@.len() == old(module).enums@.len(),
        verdicts.structs@.len() == old(module).structs@.len(),
        verdicts.traits@.len() == old(module).traits@.len(),
        verdicts.impls@.len() == old(module).impls@.len(),
        verdicts.functions@.len() == old(module).functions@.len(),
    ensures
        final(module).enums@ == surviving(old(module).enums@, verdicts.enums@, old(module).enums@.len() as int),
        final(module).structs@ == surviving(old(module).structs@, verdicts.structs@, old(module).structs@.len() as int),
        final(module).traits@ == surviving(old(module).traits@, verdicts.traits@, old(module).traits@.len() as int),
        final(module).impls@ == surviving(old(module).impls@, verdicts.impls@, old(module).impls@.len() as int),
        final(module).functions@ == surviving(old(module).functions@, verdicts.functions@, old(module).functions@.len() as int),
        final(module).imports == old(module).imports,
        final(module).constants == old(module).constants,
        ({
            let all = verdict_errors(verdicts.enums@, verdicts.enums@.len() as int) + verdict_errors(
                verdicts.structs@,
                verdicts.structs@.len() as int,
            ) + verdict_errors(verdicts.traits@, verdicts.traits@.len() as int) + verdict_errors(
                verdicts.impls@,
                verdicts.impls@.len() as int,
            ) + verdict_errors(verdicts.functions@, verdicts.functions@.len() as int);
            match r {
                Ok(()) => all.len() == 0,
                Err(e) => all.len() > 0 && errors_view(e@) == all,
            }
        }),
{
    let mut errors: Vec<TargetError> = Vec::new();
    assert(errors_view(errors@) =~= Seq::<(Seq<char>, usize)>::empty());
    let mut enums = Vec::new();
    std::mem::swap(&mut enums, &mut module.enums);
    module.enums = retain_surviving(enums, &verdicts.enums, &mut errors);
    let mut structs = Vec::new();
    std::mem::swap(&mut structs, &mut module.structs);
    module.structs = retain_surviving(structs, &verdicts.structs, &mut errors);
    let mut traits = Vec::new();
    std::mem::swap(&mut traits, &mut module.traits);
    module.traits = retain_surviving(traits, &verdicts.traits, &mut errors);
    let mut impls = Vec::new();
    std::mem::swap(&mut impls, &mut module.impls);
    module.impls = retain_surviving(impls, &verdicts.impls, &mut errors);
    let mut functions = Vec::new();
    std::mem::swap(&mut functions, &mut module.functions);
    module.functions = retain_surviving(functions, &verdicts.functions, &mut errors);
    if errors.len() == 0 {
        Ok(())
    } else {
        Err(errors)
    }
}

} // verus!
