//! `pata jenga`: build the project (from `pata.toml`) or a single `.as` file, optionally
//! running `kuu` afterwards with the remaining words as its arguments.

use vstd::prelude::*;
use crate::commands::{fail, opt_view, outcome_is, CliError, Failure};
use crate::text::{ends_with, str_ends_with, str_is, views};

verus! {

/// The help text of `pata jenga`.
pub const JENGA_USAGE: &'static str = "matumizi: pata jenga [faili.as] [chagua...] [hoja za kuu...]\n\nJenga mradi kutoka pata.toml au faili moja (bila mradi).\n\nChagua:\n  --tenda          Baada ya kujenga, tenda kazi kuu na hoja zinazofuata.\n  --pato <njia> (au --out)  Mahali pa kuweka kilele (default: target/).\n  --namna <dev|release|embedded> (au --profile)  Namna ya kujenga (haijatumika bado).\n  --msaada, -h (au --help)   Onyesha ujumbe huu.\n\nHoja za kuu: Kila neno lisilokuwa chagua linapewa kwa kuu(hoja: Orodha<Neno>).\n\nMifano:\n  pata jenga\n  pata jenga --tenda\n  pata jenga --tenda foo bar\n  pata jenga script.as --tenda\n";

/// Parsed options: build profile, output directory, whether to run `kuu` afterwards, the
/// single source file (first `.as` word), and the arguments handed to `kuu`.
pub type BuildOptions = (String, Option<String>, bool, Option<String>, Vec<String>);

/// The same options as plain values.
pub type BuildOptionsSpec = (Seq<char>, Option<Seq<char>>, bool, Option<Seq<char>>, Seq<Seq<char>>);

pub open spec fn build_options_view(o: BuildOptions) -> BuildOptionsSpec {
    (o.0@, opt_view(o.1), o.2, opt_view(o.3), views(o.4@))
}

/// The options left after reading `args` from position `i` on, starting from `st`.
pub open spec fn parse_from(args: Seq<String>, i: int, st: BuildOptionsSpec) -> Result<
    BuildOptionsSpec,
    Failure,
>
    decreases args.len() - i,
{
    if i < 0 || i >= args.len() {
        Ok(st)
    } else {
        let a = args[i]@;
        if a == "--profile"@ || a == "--namna"@ {
            if i + 1 >= args.len() {
                Err(("--profile/--namna inahitaji thamani"@, 2))
            } else {
                parse_from(args, i + 2, (args[i + 1]@, st.1, st.2, st.3, st.4))
            }
        } else if a == "--out"@ || a == "--pato"@ {
            if i + 1 >= args.len() {
                Err(("--out/--pato inahitaji njia"@, 2))
            } else {
                parse_from(args, i + 2, (st.0, Some(args[i + 1]@), st.2, st.3, st.4))
            }
        } else if a == "--run"@ || a == "--tenda"@ {
            parse_from(args, i + 1, (st.0, st.1, true, st.3, st.4))
        } else if ends_with(a, ".as"@) && st.3 is None {
            parse_from(args, i + 1, (st.0, st.1, st.2, Some(a), st.4))
        } else {
            parse_from(args, i + 1, (st.0, st.1, st.2, st.3, st.4.push(a)))
        }
    }
}

/// What `parse_args` gives for `args`.
pub open spec fn parse_args_spec(args: Seq<String>) -> Result<BuildOptionsSpec, Failure> {
    parse_from(args, 0, ("dev"@, None, false, None, Seq::empty()))
}

/// Read `--profile`/`--namna <p>`, `--out`/`--pato <njia>` and `--run`/`--tenda`; the first
/// word ending in `.as` is the single source file, every other word goes to `kuu`.
pub fn parse_args(args: &[String]) -> (r: Result<BuildOptions, CliError>)
    ensures
        outcome_is(r, parse_args_spec(args@), |o: BuildOptions| build_options_view(o)),
{
    let mut profile = "dev".to_string();
    let mut out: Option<String> = None;
    let mut do_run = false;
    let mut single_file: Option<String> = None;
    let mut program_args: Vec<String> = Vec::new();
    let mut i: usize = 0;
    proof {
        assert(views(program_args@) =~= Seq::<Seq<char>>::empty());
    }
    while i < args.len()
        invariant
            i <= args.len(),
            parse_from(
                args@,
                i as int,
                (profile@, opt_view(out), do_run, opt_view(single_file), views(program_args@)),
            ) == parse_args_spec(args@),
        decreases args.len() - i,
    {
        let a = args[i].as_str();
        if str_is(a, "--profile") || str_is(a, "--namna") {
            if i + 1 >= args.len() {
                return fail("--profile/--namna inahitaji thamani", 2);
            }
            profile = args[i + 1].clone();
            i = i + 2;
        } else if str_is(a, "--out") || str_is(a, "--pato") {
            if i + 1 >= args.len() {
                return fail("--out/--pato inahitaji njia", 2);
            }
            out = Some(args[i + 1].clone());
            i = i + 2;
        } else if str_is(a, "--run") || str_is(a, "--tenda") {
            do_run = true;
            i = i + 1;
        } else if str_ends_with(a, ".as") && single_file.is_none() {
            single_file = Some(a.to_string());
            i = i + 1;
        } else {
            let ghost before = views(program_args@);
            program_args.push(a.to_string());
            proof {
                assert(views(program_args@) =~= before.push(a@));
            }
            i = i + 1;
        }
    }
    Ok((profile, out, do_run, single_file, program_args))
}

} // verus!
