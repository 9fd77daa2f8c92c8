//! `pata ongeza`: add a dependency to `pata.toml` (a registry version, or a git source with
//! `--git`) and refresh `pata.lock`.

use vstd::prelude::*;
use crate::commands::{fail, fail_with, opt_view, outcome_is, CliError, Failure};
use crate::text::{chars_of, str_is, string_of, trim_bounds, trim};

verus! {

/// Parsed options: library name, version constraint, git URL and git branch.
pub type AddOptions = (String, String, Option<String>, Option<String>);

/// The same options as plain values.
pub type AddOptionsSpec = (Seq<char>, Seq<char>, Option<Seq<char>>, Option<Seq<char>>);

pub open spec fn add_options_view(o: AddOptions) -> AddOptionsSpec {
    (o.0@, o.1@, opt_view(o.2), opt_view(o.3))
}

/// Option state while scanning: version, git URL, branch.
pub type AddState = (Seq<char>, Option<Seq<char>>, Option<Seq<char>>);

/// The option state after reading `args` from position `i` on, starting from `st`.
pub open spec fn parse_from(args: Seq<String>, i: int, st: AddState) -> Result<AddState, Failure>
    decreases args.len() - i,
{
    if i < 0 || i >= args.len() {
        Ok(st)
    } else {
        let a = args[i]@;
        if a == "--toleo"@ {
            if i + 1 >= args.len() {
                Err(("--toleo inahitaji thamani"@, 2))
            } else {
                parse_from(args, i + 2, (args[i + 1]@, st.1, st.2))
            }
        } else if a == "--git"@ {
            if i + 1 >= args.len() {
                Err(("--git inahitaji URL"@, 2))
            } else {
                parse_from(args, i + 2, (st.0, Some(args[i + 1]@), st.2))
            }
        } else if a == "--tawi"@ {
            if i + 1 >= args.len() {
                Err(("--tawi inahitaji jina"@, 2))
            } else {
                parse_from(args, i + 2, (st.0, st.1, Some(args[i + 1]@)))
            }
        } else {
            Err(("hoja isiyotambuliwa kwenye ongeza: "@ + a, 2))
        }
    }
}

/// What `parse_args` gives: the first word is the library, the version defaults to `^0.1`.
pub open spec fn parse_args_spec(args: Seq<String>) -> Result<AddOptionsSpec, Failure> {
    if args.len() == 0 {
        Err(("matumizi: pata ongeza <lib> [--toleo <semver>] [--git <url>] [--tawi <jina>]"@, 2))
    } else {
        match parse_from(args, 1, ("^0.1"@, None, None)) {
            Err(e) => Err(e),
            Ok(st) => Ok((args[0]@, st.0, st.1, st.2)),
        }
    }
}

/// Read `<lib>` then `--toleo <semver>`, `--git <url>` and `--tawi <jina>`.
pub fn parse_args(args: &[String]) -> (r: Result<AddOptions, CliError>)
    ensures
        outcome_is(r, parse_args_spec(args@), |o: AddOptions| add_options_view(o)),
{
    if args.len() == 0 {
        return fail("matumizi: pata ongeza <lib> [--toleo <semver>] [--git <url>] [--tawi <jina>]", 2);
    }
    let mut version = "^0.1".to_string();
    let mut git_url: Option<String> = None;
    let mut branch: Option<String> = None;
    let mut i: usize = 1;
    while i < args.len()
        invariant
            1 <= i <= args.len(),
            parse_from(args@, i as int, (version@, opt_view(git_url), opt_view(branch)))
                == parse_from(args@, 1, ("^0.1"@, None, None)),
        decreases args.len() - i,
    {
        let a = args[i].as_str();
        if str_is(a, "--toleo") {
            if i + 1 >= args.len() {
                return fail("--toleo inahitaji thamani", 2);
            }
            version = args[i + 1].clone();
        } else if str_is(a, "--git") {
            if i + 1 >= args.len() {
                return fail("--git inahitaji URL", 2);
            }
            git_url = Some(args[i + 1].clone());
        } else if str_is(a, "--tawi") {
            if i + 1 >= args.len() {
                return fail("--tawi inahitaji jina", 2);
            }
            branch = Some(args[i + 1].clone());
        } else {
            return fail_with("hoja isiyotambuliwa kwenye ongeza: ", a, 2);
        }
        i = i + 2;
    }
    Ok((args[0].clone(), version, git_url, branch))
}

/// A version-constraint operator character.
pub open spec fn is_constraint_op(c: char) -> bool {
    c == '^' || c == '~' || c == '>' || c == '<' || c == '='
}

/// `s` with every leading constraint operator removed (`trim_start_matches`).
pub open spec fn strip_ops(s: Seq<char>) -> Seq<char>
    decreases s.len(),
{
    if s.len() > 0 && is_constraint_op(s[0]) {
        strip_ops(s.drop_first())
    } else {
        s
    }
}

/// The pieces of `s` between `.` separators (`str::split('.')`): always at least one.
pub open spec fn split_dots(s: Seq<char>) -> Seq<Seq<char>>
    decreases s.len(),
{
    if s.len() == 0 {
        seq![Seq::empty()]
    } else {
        let rest = split_dots(s.drop_last());
        if s.last() == '.' {
            rest.push(Seq::empty())
        } else {
            rest.update(rest.len() - 1, rest.last().push(s.last()))
        }
    }
}

proof fn lemma_split_dots_nonempty(s: Seq<char>)
    ensures
        split_dots(s).len() >= 1,
    decreases s.len(),
{
    if s.len() > 0 {
        lemma_split_dots_nonempty(s.drop_last());
    }
}

/// The first three pieces, padded with `0` pieces when there are fewer.
pub open spec fn three_parts(p: Seq<Seq<char>>) -> Seq<Seq<char>> {
    if p.len() >= 3 {
        p.subrange(0, 3)
    } else if p.len() == 2 {
        p.push(seq!['0'])
    } else {
        p.push(seq!['0']).push(seq!['0'])
    }
}

/// The exact `major.minor.patch` marker for a version constraint: leading operators and
/// surrounding whitespace removed, split on `.`, padded or cut to three pieces, joined by `.`.
pub open spec fn exact_version_spec(constraint: Seq<char>) -> Seq<char> {
    let p = three_parts(split_dots(trim(strip_ops(constraint))));
    p[0] + seq!['.'] + p[1] + seq!['.'] + p[2]
}

/// Turn a version constraint (`^0.1`, `~2.3`, `1.2.3`, ...) into the `major.minor.patch`
/// string written to a git dependency's version marker.
pub fn exact_version_for_marker(constraint: &str) -> (r: String)
    ensures
        r@ == exact_version_spec(constraint@),
{
    let v = chars_of(constraint);
    let mut start: usize = 0;
    assert(v@.subrange(0, v.len() as int) =~= constraint@);
    while start < v.len() && (v[start] == '^' || v[start] == '~' || v[start] == '>' || v[start]
        == '<' || v[start] == '=')
        invariant
            start <= v.len(),
            strip_ops(v@.subrange(start as int, v.len() as int)) == strip_ops(constraint@),
        decreases v.len() - start,
    {
        assert(v@.subrange(start as int, v.len() as int).drop_first() =~= v@.subrange(
            start + 1,
            v.len() as int,
        ));
        start = start + 1;
    }
    assert(v@.subrange(0, v.len() as int) =~= constraint@);
    let (a, b) = trim_bounds(&v, start, v.len());
    let ghost bare = v@.subrange(a as int, b as int);
    assert(bare == trim(strip_ops(constraint@)));
    // Pieces of bare[..k], as character vectors.
    let mut parts: Vec<Vec<char>> = Vec::new();
    parts.push(Vec::new());
    let mut k: usize = a;
    proof {
        assert(bare.subrange(0, 0) =~= Seq::<char>::empty());
        assert(parts@.map_values(|p: Vec<char>| p@) =~= split_dots(bare.subrange(0, 0)));
    }
    while k < b
        invariant
            a <= k <= b <= v.len(),
            bare == v@.subrange(a as int, b as int),
            parts@.map_values(|p: Vec<char>| p@) == split_dots(bare.subrange(0, k - a)),
            parts.len() >= 1,
        decreases b - k,
    {
        let ghost before = parts@.map_values(|p: Vec<char>| p@);
        let c = v[k];
        assert(bare.subrange(0, k + 1 - a).drop_last() =~= bare.subrange(0, k - a));
        assert(bare.subrange(0, k + 1 - a).last() == c);
        if c == '.' {
            parts.push(Vec::new());
            assert(parts@.map_values(|p: Vec<char>| p@) =~= before.push(Seq::empty()));
        } else {
            let mut last = parts.pop().unwrap();
            last.push(c);
            parts.push(last);
            assert(parts@.map_values(|p: Vec<char>| p@) =~= before.update(
                before.len() - 1,
                before.last().push(c),
            ));
        }
        k = k + 1;
    }
    assert(bare.subrange(0, b - a) =~= bare);
    let ghost pieces = split_dots(bare);
    let mut out: Vec<char> = Vec::new();
    let mut j: usize = 0;
    while j < 3
        invariant
            j <= 3,
            pieces == parts@.map_values(|p: Vec<char>| p@),
            parts.len() >= 1,
            out@ == (if j == 0 {
                Seq::<char>::empty()
            } else if j == 1 {
                three_parts(pieces)[0]
            } else if j == 2 {
                three_parts(pieces)[0] + seq!['.'] + three_parts(pieces)[1]
            } else {
                three_parts(pieces)[0] + seq!['.'] + three_parts(pieces)[1] + seq!['.']
                    + three_parts(pieces)[2]
            }),
        decreases 3 - j,
    {
        if j > 0 {
            out.push('.');
        }
        let ghost before = out@;
        if j < parts.len() {
            crate::text::push_all(&mut out, parts[j].as_slice());
            assert(parts@.map_values(|p: Vec<char>| p@)[j as int] == parts[j as int]@);
        } else {
            out.push('0');
        }
        proof {
            if j == 0 {
                assert(out@ =~= three_parts(pieces)[0]);
            } else if j == 1 {
                assert(out@ =~= three_parts(pieces)[0] + seq!['.'] + three_parts(pieces)[1]);
            } else {
                assert(out@ =~= three_parts(pieces)[0] + seq!['.'] + three_parts(pieces)[1]
                    + seq!['.'] + three_parts(pieces)[2]);
            }
        }
        j = j + 1;
    }
    string_of(out.as_slice())
}

} // verus!
