//! `pata nadhifu`: format the project's `.as` sources in place, check them (`--kagua`), or show
//! what would change (`--diff`).

use vstd::prelude::*;
use crate::commands::{fail_with, opt_view, outcome_is, CliError, Failure};
use crate::text::{starts_with, str_is, str_starts_with};

verus! {

/// Parsed options: check only, show a diff, JSON output, and the directory to format.
pub type FormatOptions = (bool, bool, bool, Option<String>);

/// The same options as plain values.
pub type FormatOptionsSpec = (bool, bool, bool, Option<Seq<char>>);

pub open spec fn format_options_view(o: FormatOptions) -> FormatOptionsSpec {
    (o.0, o.1, o.2, opt_view(o.3))
}

/// The options left after reading `args` from position `i` on, starting from `st`.
pub open spec fn parse_from(args: Seq<String>, i: int, st: FormatOptionsSpec) -> Result<
    FormatOptionsSpec,
    Failure,
>
    decreases args.len() - i,
{
    if i < 0 || i >= args.len() {
        Ok(st)
    } else {
        let a = args[i]@;
        if a == "--kagua"@ {
            parse_from(args, i + 1, (true, st.1, st.2, st.3))
        } else if a == "--diff"@ {
            parse_from(args, i + 1, (st.0, true, st.2, st.3))
        } else if a == "--json"@ {
            parse_from(args, i + 1, (st.0, st.1, true, st.3))
        } else if !starts_with(a, "-"@) {
            if st.3 is Some {
                Err(("nadhifu inakubali njia moja tu, umetoa nyingine: "@ + a, 2))
            } else {
                parse_from(args, i + 1, (st.0, st.1, st.2, Some(a)))
            }
        } else {
            Err(("hoja isiyotambuliwa kwenye nadhifu: "@ + a, 2))
        }
    }
}

/// What `parse_args` gives for `args`.
pub open spec fn parse_args_spec(args: Seq<String>) -> Result<FormatOptionsSpec, Failure> {
    parse_from(args, 0, (false, false, false, None))
}

/// Read `--kagua`, `--diff`, `--json` and at most one path; any other word starting with `-`
/// is a usage error.
pub fn parse_args(args: &[String]) -> (r: Result<FormatOptions, CliError>)
    ensures
        outcome_is(r, parse_args_spec(args@), |o: FormatOptions| format_options_view(o)),
{
    let mut check = false;
    let mut diff = false;
    let mut json = false;
    let mut path: Option<String> = None;
    let mut i: usize = 0;
    while i < args.len()
        invariant
            i <= args.len(),
            parse_from(args@, i as int, (check, diff, json, opt_view(path)))
                == parse_args_spec(args@),
        decreases args.len() - i,
    {
        let a = args[i].as_str();
        if str_is(a, "--kagua") {
            check = true;
        } else if str_is(a, "--diff") {
            diff = true;
        } else if str_is(a, "--json") {
            json = true;
        } else if !str_starts_with(a, "-") {
            if path.is_some() {
                return fail_with("nadhifu inakubali njia moja tu, umetoa nyingine: ", a, 2);
            }
            path = Some(a.to_string());
        } else {
            return fail_with("hoja isiyotambuliwa kwenye nadhifu: ", a, 2);
        }
        i = i + 1;
    }
    Ok((check, diff, json, path))
}

} // verus!
