//! `pata njozi`: scaffold a new project.

use vstd::prelude::*;
use crate::commands::{fail, fail_with, outcome_is, CliError, Failure};
use crate::text::{all_whitespace, is_whitespace, starts_with, str_is, str_starts_with};

verus! {

/// Which scaffold to create: a program with `kuu`, or a library.
#[derive(Clone, Copy, Debug, PartialEq, Eq, Structural)]
pub enum Template {
    Binary,
    Library,
}

/// Parsed inputs: project name, destination directory and template.
pub type NewProject = (String, String, Template);

/// The same inputs as plain values.
pub type NewProjectSpec = (Seq<char>, Seq<char>, Template);

pub open spec fn new_project_view(o: NewProject) -> NewProjectSpec {
    (o.0@, o.1@, o.2)
}

/// Scan state: template, project name and destination seen so far.
pub type ScanState = (Template, Option<Seq<char>>, Option<Seq<char>>);

/// The scan state after reading `args` from position `i` on, starting from `st`.
pub open spec fn scan_from(args: Seq<String>, i: int, st: ScanState) -> Result<ScanState, Failure>
    decreases args.len() - i,
{
    if i < 0 || i >= args.len() {
        Ok(st)
    } else {
        let a = args[i]@;
        if a == "--maktaba"@ {
            scan_from(args, i + 1, (Template::Library, st.1, st.2))
        } else if a == "--kiasi"@ {
            scan_from(args, i + 1, (Template::Binary, st.1, st.2))
        } else if starts_with(a, "--"@) {
            Err(("hoja isiyotambuliwa: "@ + a, 2))
        } else if st.1 is None {
            scan_from(args, i + 1, (st.0, Some(a), st.2))
        } else if st.2 is None {
            scan_from(args, i + 1, (st.0, st.1, Some(a)))
        } else {
            scan_from(args, i + 1, st)
        }
    }
}

/// The project name check: a name that is empty once trimmed is refused.
pub open spec fn validate_name_spec(name: Seq<char>) -> Result<(), Failure> {
    if all_whitespace(name) {
        Err(("jina_la_mradi haliwezi kuwa tupu"@, 2))
    } else {
        Ok(())
    }
}

/// What `parse_inputs` gives: the name defaults to `asili-app`, the destination to the name.
pub open spec fn parse_inputs_spec(args: Seq<String>) -> Result<NewProjectSpec, Failure> {
    match scan_from(args, 0, (Template::Binary, None, None)) {
        Err(e) => Err(e),
        Ok(st) => {
            let name = match st.1 {
                Some(n) => n,
                None => "asili-app"@,
            };
            match validate_name_spec(name) {
                Err(e) => Err(e),
                Ok(_) => Ok(
                    (
                        name,
                        match st.2 {
                            Some(d) => d,
                            None => name,
                        },
                        st.0,
                    ),
                ),
            }
        },
    }
}

/// Refuse a project name that is empty once surrounding whitespace is removed.
pub fn validate_project_name(name: &str) -> (r: Result<(), CliError>)
    ensures
        outcome_is(r, validate_name_spec(name@), |u: ()| u),
{
    let v = crate::text::chars_of(name);
    let mut i: usize = 0;
    while i < v.len()
        invariant
            i <= v.len(),
            v@ == name@,
            forall|j: int| 0 <= j < i ==> crate::text::char_is_whitespace(#[trigger] v@[j]),
        decreases v.len() - i,
    {
        if !is_whitespace(v[i]) {
            return Ok(());
        }
        i = i + 1;
    }
    fail("jina_la_mradi haliwezi kuwa tupu", 2)
}

/// Read `--maktaba`/`--kiasi`, then the project name and destination; another `--` word is a
/// usage error and words after the destination are ignored.
pub fn parse_inputs(args: &[String]) -> (r: Result<NewProject, CliError>)
    ensures
        outcome_is(r, parse_inputs_spec(args@), |o: NewProject| new_project_view(o)),
{
    let mut template = Template::Binary;
    let mut project_name: Option<String> = None;
    let mut destination: Option<String> = None;
    let mut i: usize = 0;
    while i < args.len()
        invariant
            i <= args.len(),
            scan_from(
                args@,
                i as int,
                (
                    template,
                    crate::commands::opt_view(project_name),
                    crate::commands::opt_view(destination),
                ),
            ) == scan_from(args@, 0, (Template::Binary, None, None)),
        decreases args.len() - i,
    {
        let a = args[i].as_str();
        if str_is(a, "--maktaba") {
            template = Template::Library;
        } else if str_is(a, "--kiasi") {
            template = Template::Binary;
        } else if str_starts_with(a, "--") {
            return fail_with("hoja isiyotambuliwa: ", a, 2);
        } else if project_name.is_none() {
            project_name = Some(a.to_string());
        } else if destination.is_none() {
            destination = Some(a.to_string());
        }
        i = i + 1;
    }
    let name = match project_name {
        Some(n) => n,
        None => "asili-app".to_string(),
    };
    match validate_project_name(name.as_str()) {
        Err(e) => return Err(e),
        Ok(_) => {},
    }
    let dest = match destination {
        Some(d) => d,
        None => name.clone(),
    };
    Ok((name, dest, template))
}

/// The manifest of a new project.
pub open spec fn scaffold_manifest(name: Seq<char>) -> Seq<char> {
    "[jumla]\njina = \""@ + name + "\"\ntoleo = \"0.1.0\"\nasili = \"1.1\"\n\n[chanzo]\nkuingia = \"src/kuu.as\"\n\n[tegemezi]\n"@
}

/// The entry file of a new project: a program greeting from `kuu`, or a library stub.
pub open spec fn scaffold_entry(t: Template) -> Seq<char> {
    match t {
        Template::Binary => "leta matumizi\n\nkazi kuu(hoja: Orodha<Neno>) -> Tupu {\n    ikiwa hoja.urefu() > 1 {\n        chapisha(\"Asili scaffold iko tayari.\")\n    } vinginevyo {\n        chapisha(\"Habari Asili!\")\n    }\n}\n"@,
        Template::Library => "# Maktaba ya Asili\n\n# Jumuishe jongoo kuu hapa\nkazi example() -> Tupu {\n    rejesha Tupu\n}\n"@,
    }
}

pub open spec fn scaffold_gitignore() -> Seq<char> {
    "kilele/*\n!kilele/.gitkeep\n\n*.asb\n*.asm\n"@
}

pub open spec fn scaffold_ci() -> Seq<char> {
    "name: CI\n\non:\n  push:\n    branches: [main, develop]\n  pull_request:\n    branches: [main, develop]\n\njobs:\n  test:\n    runs-on: ubuntu-latest\n    steps:\n      - uses: actions/checkout@v4\n      - name: Install Rust\n        uses: dtolnay/rust-toolchain@stable\n      - name: Install pata\n        run: cargo install --path . --locked || true\n      - name: pata jenga\n        run: pata jenga\n      - name: pata jaribu\n        run: pata jaribu\n"@
}

/// The files of a new project, as paths relative to its directory with their contents, in the
/// order they are written (the directories `src`, `kilele` and `.github/workflows` hold them).
pub open spec fn scaffold_spec(name: Seq<char>, t: Template) -> Seq<(Seq<char>, Seq<char>)> {
    seq![
        ("pata.toml"@, scaffold_manifest(name)),
        ("src/kuu.as"@, scaffold_entry(t)),
        (".gitignore"@, scaffold_gitignore()),
        ("kilele/.gitkeep"@, ""@),
        (".github/workflows/ci.yml"@, scaffold_ci()),
    ]
}

/// The files of a new project named `project_name`.
pub fn scaffold_files(project_name: &str, template: Template) -> (r: Vec<(String, String)>)
    ensures
        r@.map_values(|f: (String, String)| (f.0@, f.1@)) == scaffold_spec(project_name@, template),
{
    let manifest = crate::text::concat3(
        "[jumla]\njina = \"",
        crate::text::chars_of(project_name).as_slice(),
        "\"\ntoleo = \"0.1.0\"\nasili = \"1.1\"\n\n[chanzo]\nkuingia = \"src/kuu.as\"\n\n[tegemezi]\n",
    );
    let entry = match template {
        Template::Binary => "leta matumizi\n\nkazi kuu(hoja: Orodha<Neno>) -> Tupu {\n    ikiwa hoja.urefu() > 1 {\n        chapisha(\"Asili scaffold iko tayari.\")\n    } vinginevyo {\n        chapisha(\"Habari Asili!\")\n    }\n}\n".to_string(),
        Template::Library => "# Maktaba ya Asili\n\n# Jumuishe jongoo kuu hapa\nkazi example() -> Tupu {\n    rejesha Tupu\n}\n".to_string(),
    };
    let mut files: Vec<(String, String)> = Vec::new();
    files.push(("pata.toml".to_string(), manifest));
    files.push(("src/kuu.as".to_string(), entry));
    files.push((".gitignore".to_string(), "kilele/*\n!kilele/.gitkeep\n\n*.asb\n*.asm\n".to_string()));
    files.push(("kilele/.gitkeep".to_string(), "".to_string()));
    files.push((".github/workflows/ci.yml".to_string(), "name: CI\n\non:\n  push:\n    branches: [main, develop]\n  pull_request:\n    branches: [main, develop]\n\njobs:\n  test:\n    runs-on: ubuntu-latest\n    steps:\n      - uses: actions/checkout@v4\n      - name: Install Rust\n        uses: dtolnay/rust-toolchain@stable\n      - name: Install pata\n        run: cargo install --path . --locked || true\n      - name: pata jenga\n        run: pata jenga\n      - name: pata jaribu\n        run: pata jaribu\n".to_string()));
    assert(files@.map_values(|f: (String, String)| (f.0@, f.1@)) =~= scaffold_spec(project_name@, template));
    files
}

} // verus!
