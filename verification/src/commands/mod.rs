//! Command-line surface of `pata`: the error type every command returns, subcommand routing,
//! and each subcommand's argument parser.

pub mod jaribu;
pub mod jenga;
pub mod nadhifu;
pub mod njozi;
pub mod ongeza;
pub mod tenda;
pub mod thibitisha;

use vstd::prelude::*;
use crate::text::{concat2, str_is};

verus! {

/// A command failure: the message shown to the user and the process exit code
/// (1 = the command ran and failed, 2 = usage or configuration error).
#[derive(Debug)]
pub struct CliError {
    pub message: String,
    pub exit_code: i32,
}

impl CliError {
    pub fn new(message: String, exit_code: i32) -> (r: CliError)
        ensures
            r.message@ == message@,
            r.exit_code == exit_code,
    {
        CliError { message, exit_code }
    }
}

/// A failure as plain values: message and exit code.
pub type Failure = (Seq<char>, i32);

/// Whether an executable outcome agrees with a specified one: the `Ok` values agree through
/// `view`, or both fail with the same message and exit code.
pub open spec fn outcome_is<T, S>(
    r: Result<T, CliError>,
    s: Result<S, Failure>,
    view: spec_fn(T) -> S,
) -> bool {
    match r {
        Ok(v) => s is Ok && s->Ok_0 == view(v),
        Err(e) => s is Err && s->Err_0 == (e.message@, e.exit_code),
    }
}

/// The view of an optional string.
pub open spec fn opt_view(o: Option<String>) -> Option<Seq<char>> {
    match o {
        Some(s) => Some(s@),
        None => None,
    }
}

/// Build the error for `message` and `exit_code` from a literal message.
pub fn fail<T>(message: &str, exit_code: i32) -> (r: Result<T, CliError>)
    ensures
        r is Err,
        r->Err_0.message@ == message@,
        r->Err_0.exit_code == exit_code,
{
    Err(CliError::new(message.to_string(), exit_code))
}

/// Build the error whose message is the literal `prefix` followed by `tail`.
pub fn fail_with<T>(prefix: &str, tail: &str, exit_code: i32) -> (r: Result<T, CliError>)
    ensures
        r is Err,
        r->Err_0.message@ == prefix@ + tail@,
        r->Err_0.exit_code == exit_code,
{
    let v = crate::text::chars_of(tail);
    Err(CliError::new(concat2(prefix, v.as_slice()), exit_code))
}

/// The help text printed by `pata --msaada` and returned with a missing subcommand.
pub const USAGE: &'static str = "matumizi: pata <amri> [chagua...] [hoja...]\n\nAmri ni kitendo unachotaka kufanya. Chagua na hoja hutofautiana kwa kila amri.\n\nAmri:\n  jenga [faili.as] [chagua...]  Jenga mradi (kutoka pata.toml) au faili moja.\n  tenda <path.asb|manifest>      Tenda kilele bila kujenga upya.\n  jaribu [chagua...]            Endesha majaribio (#[jaribio]).\n  mwalimu                      Anza seva ya LSP (Mwalimu).\n  repl                         Fungua REPL.\n  njozi [jina]                 Unda mradi mpya.\n  ongeza <lib> [chagua...]     Ongeza tegemezi.\n  nadhifu [chagua...]          Nadhifisha chanzo.\n  thibitisha [chagua...]       Thibitisha mradi.\n\nOnyesha msaada kwa amri: pata <amri> --msaada.\n";

/// The help text.
pub fn usage() -> (r: &'static str)
    ensures
        r@ == USAGE@,
{
    USAGE
}

/// The subcommands `pata` knows, and the help request.
#[derive(Clone, Copy, Debug, PartialEq, Eq, Structural)]
pub enum Subcommand {
    Njozi,
    Ongeza,
    Jenga,
    Jaribu,
    Mwalimu,
    Nadhifu,
    Repl,
    Tenda,
    Thibitisha,
    Help,
}

/// Which subcommand a command word names, if any.
pub open spec fn subcommand_named(w: Seq<char>) -> Option<Subcommand> {
    if w == "njozi"@ {
        Some(Subcommand::Njozi)
    } else if w == "ongeza"@ {
        Some(Subcommand::Ongeza)
    } else if w == "jenga"@ {
        Some(Subcommand::Jenga)
    } else if w == "jaribu"@ {
        Some(Subcommand::Jaribu)
    } else if w == "mwalimu"@ {
        Some(Subcommand::Mwalimu)
    } else if w == "nadhifu"@ {
        Some(Subcommand::Nadhifu)
    } else if w == "repl"@ {
        Some(Subcommand::Repl)
    } else if w == "tenda"@ {
        Some(Subcommand::Tenda)
    } else if w == "thibitisha"@ {
        Some(Subcommand::Thibitisha)
    } else if w == "--msaada"@ || w == "msaada"@ {
        Some(Subcommand::Help)
    } else {
        None
    }
}

/// How the first argument routes: no argument is a usage error carrying the help text, an
/// unknown word is a usage error naming it.
pub open spec fn route_spec(args: Seq<String>) -> Result<Subcommand, Failure> {
    if args.len() == 0 {
        Err((USAGE@, 2))
    } else {
        match subcommand_named(args[0]@) {
            Some(c) => Ok(c),
            None => Err(("amri isiyotambuliwa: "@ + args[0]@, 2)),
        }
    }
}

/// Pick the subcommand named by the first argument; the rest of the arguments belong to it.
pub fn route(args: &[String]) -> (r: Result<Subcommand, CliError>)
    ensures
        outcome_is(r, route_spec(args@), |c: Subcommand| c),
{
    if args.len() == 0 {
        return fail(USAGE, 2);
    }
    let w = args[0].as_str();
    if str_is(w, "njozi") {
        Ok(Subcommand::Njozi)
    } else if str_is(w, "ongeza") {
        Ok(Subcommand::Ongeza)
    } else if str_is(w, "jenga") {
        Ok(Subcommand::Jenga)
    } else if str_is(w, "jaribu") {
        Ok(Subcommand::Jaribu)
    } else if str_is(w, "mwalimu") {
        Ok(Subcommand::Mwalimu)
    } else if str_is(w, "nadhifu") {
        Ok(Subcommand::Nadhifu)
    } else if str_is(w, "repl") {
        Ok(Subcommand::Repl)
    } else if str_is(w, "tenda") {
        Ok(Subcommand::Tenda)
    } else if str_is(w, "thibitisha") {
        Ok(Subcommand::Thibitisha)
    } else if str_is(w, "--msaada") || str_is(w, "msaada") {
        Ok(Subcommand::Help)
    } else {
        fail_with("amri isiyotambuliwa: ", w, 2)
    }
}

} // verus!
