//! `pata tenda`: run a built `.asb` artifact, directly or through the `kilele=` line of a
//! `.build.manifest`, without rebuilding.

use vstd::prelude::*;
use crate::commands::{fail, outcome_is, CliError, Failure};
use crate::text::{
    chars_of, concat3, ends_with, lemma_line_stop, line_stop, matches_at, slice_vec, starts_with,
    str_ends_with, str_is, string_of, trim, trim_bounds,
};

verus! {

/// The help text of `pata tenda`.
pub const TENDA_USAGE: &'static str = "matumizi: pata tenda <path.asb | path.build.manifest> [hoja za kuu...]\n\nTenda kilele kilichojengwa bila kujenga tena.\n\n  path.asb             Faili ya bytecode; tenda moja kwa moja.\n  path.build.manifest  Soma kilele= kutoka manifest, kisha tenda .asb ile.\n\nHoja za kuu: zinapewa kwa kuu(hoja: Orodha<Neno>).\n\nMfano:\n  pata tenda kilele/hello.asb\n  pata tenda kilele/hello.build.manifest foo bar\n";

/// Whether some argument is `--msaada`.
pub open spec fn asks_for_help_spec(args: Seq<String>) -> bool {
    exists|i: int| 0 <= i < args.len() && #[trigger] args[i]@ == "--msaada"@
}

/// Whether the help text was asked for.
pub fn asks_for_help(args: &[String]) -> (r: bool)
    ensures
        r == asks_for_help_spec(args@),
{
    let mut i: usize = 0;
    while i < args.len()
        invariant
            i <= args.len(),
            forall|j: int| 0 <= j < i ==> #[trigger] args@[j]@ != "--msaada"@,
        decreases args.len() - i,
    {
        if str_is(args[i].as_str(), "--msaada") {
            return true;
        }
        i = i + 1;
    }
    false
}

/// The artifact path and the arguments for `kuu`; no path at all is a usage error.
pub open spec fn parse_args_spec(args: Seq<String>) -> Result<(Seq<char>, Seq<Seq<char>>), Failure> {
    if args.len() == 0 {
        Err(("tenda inahitaji path: .asb au .build.manifest"@, 2))
    } else {
        Ok((args[0]@, crate::text::views(args.drop_first())))
    }
}

/// Split the arguments into the artifact path and the arguments for `kuu`.
pub fn parse_args(args: &[String]) -> (r: Result<(String, Vec<String>), CliError>)
    ensures
        outcome_is(
            r,
            parse_args_spec(args@),
            |o: (String, Vec<String>)| (o.0@, crate::text::views(o.1@)),
        ),
{
    if args.len() == 0 {
        return fail("tenda inahitaji path: .asb au .build.manifest", 2);
    }
    let mut rest: Vec<String> = Vec::new();
    let mut i: usize = 1;
    while i < args.len()
        invariant
            1 <= i <= args.len(),
            rest.len() == i - 1,
            forall|k: int| 0 <= k < rest.len() ==> #[trigger] rest@[k]@ == args@[k + 1]@,
        decreases args.len() - i,
    {
        rest.push(args[i].clone());
        i = i + 1;
    }
    assert(crate::text::views(rest@) =~= crate::text::views(args@.drop_first()));
    Ok((args[0].clone(), rest))
}

/// What kind of artifact a path names, by its file name.
#[derive(Clone, Copy, Debug, PartialEq, Eq, Structural)]
pub enum ArtifactKind {
    Manifest,
    Bytecode,
}

/// The kind for a file name: `.build.manifest`, then `.asb`; anything else is a usage error
/// naming the path.
pub open spec fn artifact_kind_spec(file_name: Seq<char>, path: Seq<char>) -> Result<
    ArtifactKind,
    Failure,
> {
    if ends_with(file_name, ".build.manifest"@) {
        Ok(ArtifactKind::Manifest)
    } else if ends_with(file_name, ".asb"@) {
        Ok(ArtifactKind::Bytecode)
    } else {
        Err(("tenda inahitaji .asb au .build.manifest, si: "@ + path, 2))
    }
}

/// Classify the artifact named by `file_name` (the last component of `path`).
pub fn artifact_kind(file_name: &str, path: &str) -> (r: Result<ArtifactKind, CliError>)
    ensures
        outcome_is(r, artifact_kind_spec(file_name@, path@), |k: ArtifactKind| k),
{
    if str_ends_with(file_name, ".build.manifest") {
        Ok(ArtifactKind::Manifest)
    } else if str_ends_with(file_name, ".asb") {
        Ok(ArtifactKind::Bytecode)
    } else {
        crate::commands::fail_with("tenda inahitaji .asb au .build.manifest, si: ", path, 2)
    }
}

/// The trimmed value of the first line, from the one starting at `i` on, that begins with
/// `kilele=`.
pub open spec fn kilele_from(s: Seq<char>, i: int) -> Option<Seq<char>>
    decreases s.len() - i + 1,
{
    if i < 0 || i > s.len() {
        None
    } else {
        let end = line_stop(s, i);
        proof {
            lemma_line_stop(s, i);
        }
        let line = s.subrange(i, end);
        if starts_with(line, "kilele="@) {
            Some(trim(line.subrange("kilele="@.len() as int, line.len() as int)))
        } else if end >= s.len() {
            None
        } else {
            kilele_from(s, end + 1)
        }
    }
}

/// The artifact named by the first `kilele=` line of a manifest's text, trimmed.
pub fn artifact_in_manifest(content: &str) -> (r: Option<String>)
    ensures
        crate::commands::opt_view(r) == kilele_from(content@, 0),
{
    let v = chars_of(content);
    let key = chars_of("kilele=");
    let mut i: usize = 0;
    while i <= v.len()
        invariant
            v@ == content@,
            key@ == "kilele="@,
            kilele_from(v@, i as int) == kilele_from(v@, 0),
        decreases v.len() + 1 - i,
    {
        let mut end = i;
        while end < v.len() && v[end] != '\n'
            invariant
                i <= end <= v.len(),
                line_stop(v@, i as int) == line_stop(v@, end as int),
            decreases v.len() - end,
        {
            end = end + 1;
        }
        proof {
            lemma_line_stop(v@, i as int);
        }
        let line = slice_vec(&v, i, end);
        if matches_at(&line, 0, key.as_slice()) {
            assert(starts_with(line@, key@) == crate::text::occurs_at(line@, key@, 0));
            let (a, b) = trim_bounds(&line, key.len(), line.len());
            let t = slice_vec(&line, a, b);
            return Some(string_of(t.as_slice()));
        }
        proof {
            if starts_with(line@, key@) {
                assert(crate::text::occurs_at(line@, key@, 0));
            }
        }
        if end >= v.len() {
            return None;
        }
        i = end + 1;
    }
    None
}

/// The artifact of a manifest, or the error naming the manifest when it has no `kilele=`
/// line.
pub fn artifact_from_manifest(manifest_path: &str, content: &str) -> (r: Result<String, CliError>)
    ensures
        outcome_is(
            r,
            match kilele_from(content@, 0) {
                Some(a) => Ok(a),
                None => Err(("manifest "@ + manifest_path@ + " haina mstari kilele="@, 1i32)),
            },
            |s: String| s@,
        ),
{
    match artifact_in_manifest(content) {
        Some(a) => Ok(a),
        None => {
            let p = chars_of(manifest_path);
            Err(CliError::new(concat3("manifest ", p.as_slice(), " haina mstari kilele="), 1))
        },
    }
}

} // verus!
