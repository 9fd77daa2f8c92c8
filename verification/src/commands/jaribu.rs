//! `pata jaribu`: run the project's `#[jaribio]` tests. Exit codes: 0 when all pass, 1 when
//! any fails, 2 for a usage or configuration error.

use vstd::prelude::*;
use crate::commands::{fail, fail_with, opt_view, outcome_is, CliError, Failure};
use crate::text::{concat3, parse_usize, parse_usize_spec, str_is};

verus! {

/// Parsed options: name filter, stop at the first failure, only list the tests, JSON output,
/// and the number of worker threads.
pub type TestOptions = (Option<String>, bool, bool, bool, Option<usize>);

/// The same options as plain values.
pub type TestOptionsSpec = (Option<Seq<char>>, bool, bool, bool, Option<usize>);

pub open spec fn test_options_view(o: TestOptions) -> TestOptionsSpec {
    (opt_view(o.0), o.1, o.2, o.3, o.4)
}

/// The options left after reading `args` from position `i` on, starting from `st`.
pub open spec fn parse_from(args: Seq<String>, i: int, st: TestOptionsSpec) -> Result<
    TestOptionsSpec,
    Failure,
>
    decreases args.len() - i,
{
    if i < 0 || i >= args.len() {
        Ok(st)
    } else {
        let a = args[i]@;
        if a == "--chuja"@ {
            if i + 1 >= args.len() {
                Err(("--chuja inahitaji muundo"@, 2))
            } else {
                parse_from(args, i + 2, (Some(args[i + 1]@), st.1, st.2, st.3, st.4))
            }
        } else if a == "--simama-haraka"@ {
            parse_from(args, i + 1, (st.0, true, st.2, st.3, st.4))
        } else if a == "--orodha"@ {
            parse_from(args, i + 1, (st.0, st.1, true, st.3, st.4))
        } else if a == "--json"@ {
            parse_from(args, i + 1, (st.0, st.1, st.2, true, st.4))
        } else if a == "--nyuzi-za-jaribio"@ {
            if i + 1 >= args.len() {
                Err(("--nyuzi-za-jaribio inahitaji namba"@, 2))
            } else {
                let v = args[i + 1]@;
                match parse_usize_spec(v) {
                    Some(n) => parse_from(args, i + 2, (st.0, st.1, st.2, st.3, Some(n))),
                    None => Err(("--nyuzi-za-jaribio: '"@ + v + "' si namba halali"@, 2)),
                }
            }
        } else {
            Err(("hoja isiyotambuliwa kwenye jaribu: "@ + a, 2))
        }
    }
}

/// What `parse_args` gives for `args`.
pub open spec fn parse_args_spec(args: Seq<String>) -> Result<TestOptionsSpec, Failure> {
    parse_from(args, 0, (None, false, false, false, None))
}

/// Read `--chuja <muundo>`, `--simama-haraka`, `--orodha`, `--json` and
/// `--nyuzi-za-jaribio <n>`; anything else is a usage error.
pub fn parse_args(args: &[String]) -> (r: Result<TestOptions, CliError>)
    ensures
        outcome_is(r, parse_args_spec(args@), |o: TestOptions| test_options_view(o)),
{
    let mut filter: Option<String> = None;
    let mut fail_fast = false;
    let mut list_only = false;
    let mut json = false;
    let mut num_threads: Option<usize> = None;
    let mut i: usize = 0;
    while i < args.len()
        invariant
            i <= args.len(),
            parse_from(args@, i as int, (opt_view(filter), fail_fast, list_only, json, num_threads))
                == parse_args_spec(args@),
        decreases args.len() - i,
    {
        let a = args[i].as_str();
        if str_is(a, "--chuja") {
            if i + 1 >= args.len() {
                return fail("--chuja inahitaji muundo", 2);
            }
            filter = Some(args[i + 1].clone());
            i = i + 2;
        } else if str_is(a, "--simama-haraka") {
            fail_fast = true;
            i = i + 1;
        } else if str_is(a, "--orodha") {
            list_only = true;
            i = i + 1;
        } else if str_is(a, "--json") {
            json = true;
            i = i + 1;
        } else if str_is(a, "--nyuzi-za-jaribio") {
            if i + 1 >= args.len() {
                return fail("--nyuzi-za-jaribio inahitaji namba", 2);
            }
            let v = args[i + 1].as_str();
            match parse_usize(v) {
                Some(n) => {
                    num_threads = Some(n);
                    i = i + 2;
                },
                None => {
                    let chars = crate::text::chars_of(v);
                    let msg = concat3("--nyuzi-za-jaribio: '", chars.as_slice(), "' si namba halali");
                    return Err(CliError::new(msg, 2));
                },
            }
        } else {
            return fail_with("hoja isiyotambuliwa kwenye jaribu: ", a, 2);
        }
    }
    Ok((filter, fail_fast, list_only, json, num_threads))
}

} // verus!
