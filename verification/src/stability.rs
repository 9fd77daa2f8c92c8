//! Type stability: public function signatures compared against those of a baseline release.

use vstd::prelude::*;
use crate::commands::{outcome_is, CliError};
use crate::outline::{FnDecl, ModuleOutline};
use crate::text::{join_with, chars_of, decimal_chars, decimal_text, push_all, starts_with, string_of};

verus! {

/// Functions named `test_...` are not part of the public surface (nor are private functions).
pub open spec fn is_test_fn(name: Seq<char>) -> bool {
    starts_with(name, "test_"@)
}

/// The first function in `fs` named `name`.
pub open spec fn find_named(fs: Seq<FnDecl>, name: Seq<char>, i: int) -> Option<FnDecl>
    decreases fs.len() - i,
{
    if i < 0 || i >= fs.len() {
        None
    } else if fs[i].name@ == name {
        Some(fs[i])
    } else {
        find_named(fs, name, i + 1)
    }
}

/// Arity changes of the current public functions (in order) against the baseline.
pub open spec fn arity_changes(current: Seq<FnDecl>, baseline: Seq<FnDecl>) -> Seq<Seq<char>>
    decreases current.len(),
{
    if current.len() == 0 {
        Seq::empty()
    } else {
        let rest = arity_changes(current.drop_last(), baseline);
        let f = current.last();
        if is_test_fn(f.name@) || !f.is_public {
            rest
        } else {
            match find_named(baseline, f.name@, 0) {
                Some(old) => if old.params@.len() != f.params@.len() {
                    rest.push(
                        "kazi '"@ + f.name@ + "': muundo wa hoja umegeuka ("@ + decimal_text(
                            old.params@.len(),
                        ) + " → "@ + decimal_text(f.params@.len()) + ")"@,
                    )
                } else {
                    rest
                },
                None => rest,
            }
        }
    }
}

/// Public baseline functions (in order) missing from the current module.
pub open spec fn removals(baseline: Seq<FnDecl>, current: Seq<FnDecl>) -> Seq<Seq<char>>
    decreases baseline.len(),
{
    if baseline.len() == 0 {
        Seq::empty()
    } else {
        let rest = removals(baseline.drop_last(), current);
        let f = baseline.last();
        if f.is_public && !is_test_fn(f.name@) && find_named(current, f.name@, 0) is None {
            rest.push("kazi '"@ + f.name@ + "' iliondolewa"@)
        } else {
            rest
        }
    }
}

/// Every breaking change: arity changes first, then removals.
pub open spec fn breaking_changes(baseline: ModuleOutline, current: ModuleOutline) -> Seq<Seq<char>> {
    arity_changes(current.functions@, baseline.functions@) + removals(
        baseline.functions@,
        current.functions@,
    )
}

fn find_fn(fs: &Vec<FnDecl>, name: &String) -> (r: Option<usize>)
    ensures
        match find_named(fs@, name@, 0) {
            Some(f) => r matches Some(k) && k < fs.len() && fs@[k as int] == f,
            None => r is None,
        },
{
    let key = chars_of(name.as_str());
    let mut i: usize = 0;
    while i < fs.len()
        invariant
            i <= fs.len(),
            key@ == name@,
            find_named(fs@, name@, 0) == find_named(fs@, name@, i as int),
        decreases fs.len() - i,
    {
        if crate::text::chars_eq(chars_of(fs[i].name.as_str()).as_slice(), key.as_slice()) {
            return Some(i);
        }
        i = i + 1;
    }
    None
}

/// Compare the current module's public function signatures with the baseline's: a changed
/// parameter count or a removed public function is breaking (private functions and functions
/// named `test_...` are ignored).
pub fn compare_with_baseline(baseline: &ModuleOutline, current: &ModuleOutline) -> (r: Result<
    (),
    CliError,
>)
    ensures
        outcome_is(
            r,
            if breaking_changes(*baseline, *current).len() > 0 {
                Err(
                    (
                        "mabadiliko ya kukatika aiki yanayolingana:\n"@ + join_with(
                            breaking_changes(*baseline, *current),
                            seq!['\n'],
                        ),
                        1i32,
                    ),
                )
            } else {
                Ok(())
            },
            |u: ()| u,
        ),
{
    let mut lines: Vec<Vec<char>> = Vec::new();
    let mut i: usize = 0;
    let cur = &current.functions;
    let base = &baseline.functions;
    while i < cur.len()
        invariant
            i <= cur.len(),
            *cur == current.functions,
            *base == baseline.functions,
            lines@.map_values(|l: Vec<char>| l@) == arity_changes(cur@.subrange(0, i as int), base@),
        decreases cur.len() - i,
    {
        let ghost before = lines@.map_values(|l: Vec<char>| l@);
        assert(cur@.subrange(0, i + 1).drop_last() =~= cur@.subrange(0, i as int));
        let f = &cur[i];
        let name = chars_of(f.name.as_str());
        let test = {
            let p = chars_of("test_");
            let r = crate::text::matches_at(&name, 0, p.as_slice());
            proof {
                if starts_with(name@, "test_"@) {
                    assert(crate::text::occurs_at(name@, p@, 0));
                }
            }
            r
        };
        if !test && f.is_public {
            match find_fn(base, &f.name) {
                Some(k) => {
                    let old_n = base[k].params.len();
                    let new_n = f.params.len();
                    if old_n != new_n {
                        let mut m = chars_of("kazi '");
                        push_all(&mut m, name.as_slice());
                        push_all(&mut m, chars_of("': muundo wa hoja umegeuka (").as_slice());
                        push_all(&mut m, decimal_chars(old_n as u128).as_slice());
                        push_all(&mut m, chars_of(" → ").as_slice());
                        push_all(&mut m, decimal_chars(new_n as u128).as_slice());
                        push_all(&mut m, chars_of(")").as_slice());
                        let ghost mv = m@;
                        lines.push(m);
                        assert(lines@.map_values(|l: Vec<char>| l@) =~= before.push(mv));
                    }
                },
                None => {},
            }
        }
        i = i + 1;
    }
    assert(cur@.subrange(0, cur.len() as int) =~= cur@);
    let ghost after_arity = lines@.map_values(|l: Vec<char>| l@);
    let mut j: usize = 0;
    while j < base.len()
        invariant
            j <= base.len(),
            *cur == current.functions,
            *base == baseline.functions,
            lines@.map_values(|l: Vec<char>| l@) == after_arity + removals(base@.subrange(0, j as int), cur@),
        decreases base.len() - j,
    {
        let ghost before = lines@.map_values(|l: Vec<char>| l@);
        assert(base@.subrange(0, j + 1).drop_last() =~= base@.subrange(0, j as int));
        let f = &base[j];
        let name = chars_of(f.name.as_str());
        let p = chars_of("test_");
        let test = crate::text::matches_at(&name, 0, p.as_slice());
        proof {
            if starts_with(name@, "test_"@) {
                assert(crate::text::occurs_at(name@, p@, 0));
            }
        }
        if f.is_public && !test && find_fn(cur, &f.name).is_none() {
            let mut m = chars_of("kazi '");
            push_all(&mut m, name.as_slice());
            push_all(&mut m, chars_of("' iliondolewa").as_slice());
            let ghost mv = m@;
            lines.push(m);
            assert(lines@.map_values(|l: Vec<char>| l@) =~= before.push(mv));
        }
        j = j + 1;
    }
    assert(base@.subrange(0, base.len() as int) =~= base@);
    let ghost all = lines@.map_values(|l: Vec<char>| l@);
    if lines.len() == 0 {
        return Ok(());
    }
    let mut msg = chars_of("mabadiliko ya kukatika aiki yanayolingana:\n");
    let ghost head = msg@;
    let mut k: usize = 0;
    while k < lines.len()
        invariant
            k <= lines.len(),
            all == lines@.map_values(|l: Vec<char>| l@),
            msg@ == head + join_with(all.subrange(0, k as int), seq!['\n']),
        decreases lines.len() - k,
    {
        let ghost prefix = all.subrange(0, k + 1);
        let ghost before = msg@;
        assert(prefix.drop_last() =~= all.subrange(0, k as int));
        assert(prefix.last() == lines@[k as int]@);
        if k > 0 {
            msg.push('\n');
        }
        push_all(&mut msg, lines[k].as_slice());
        proof {
            if k == 0 {
                assert(join_with(prefix, seq!['\n']) == prefix[0]);
                assert(all.subrange(0, 0) =~= Seq::<Seq<char>>::empty());
                assert(msg@ =~= head + join_with(prefix, seq!['\n']));
            } else {
                assert(msg@ =~= head + join_with(prefix, seq!['\n']));
            }
        }
        k = k + 1;
    }
    assert(all.subrange(0, all.len() as int) =~= all);
    Err(CliError::new(string_of(msg.as_slice()), 1))
}

} // verus!
