//! The project manifest `pata.toml`: its fields, the checks on dependency names and versions,
//! and the line-level edits that add, update and remove `[tegemezi]` entries.

use vstd::prelude::*;
use crate::commands::{fail, fail_with, outcome_is, CliError, Failure};
use crate::resolution::Dependency;
use crate::toml_doc::{
    entries_view, get, get_str, get_string, get_value, lemma_entries_view, lemma_values_view, parse_toml,
    toml_parse, toml_view, values_view, TomlValue, TomlValueView,
};
use crate::text::{
    ascii_alphanumeric, chars_of, concat3, contains_text, ends_with, eq_lit, is_ascii_alphanumeric,
    join_lines, lines_of, matches_at, push_all, slice_vec, starts_with, string_of, text_contains,
    trim, trim_bounds, LineReader, LineWriter,
};

verus! {

// ---------------------------------------------------------------------------------------------
// Names and versions
// ---------------------------------------------------------------------------------------------

/// The dependency-name check: not empty, and only ASCII letters, digits, `_` and `-`.
pub open spec fn dep_name_spec(name: Seq<char>) -> Result<(), Failure> {
    if name.len() == 0 {
        Err(("jina la tegemezi haliwezi kuwa tupu"@, 2))
    } else if !(forall|i: int|
        0 <= i < name.len() ==> ascii_alphanumeric(#[trigger] name[i]) || name[i] == '_'
            || name[i] == '-') {
        Err(("jina la tegemezi lazima litumie herufi/namba/-/_ pekee"@, 2))
    } else {
        Ok(())
    }
}

pub fn validate_dep_name(name: &str) -> (r: Result<(), CliError>)
    ensures
        outcome_is(r, dep_name_spec(name@), |u: ()| u),
{
    let v = chars_of(name);
    if v.len() == 0 {
        return fail("jina la tegemezi haliwezi kuwa tupu", 2);
    }
    let mut i: usize = 0;
    while i < v.len()
        invariant
            i <= v.len(),
            v@ == name@,
            forall|k: int|
                0 <= k < i ==> ascii_alphanumeric(#[trigger] v@[k]) || v@[k] == '_' || v@[k]
                    == '-',
        decreases v.len() - i,
    {
        let c = v[i];
        if !(is_ascii_alphanumeric(c) || c == '_' || c == '-') {
            return fail("jina la tegemezi lazima litumie herufi/namba/-/_ pekee", 2);
        }
        i = i + 1;
    }
    Ok(())
}

/// A character allowed in a version constraint besides ASCII letters and digits.
pub open spec fn version_mark(c: char) -> bool {
    c == '.' || c == '^' || c == '~' || c == '*' || c == '<' || c == '>' || c == '='
}

/// The version check: not empty, and only ASCII letters, digits and `.^~*<>=`.
pub open spec fn semver_like_spec(v: Seq<char>) -> Result<(), Failure> {
    if v.len() == 0 {
        Err(("toleo haliwezi kuwa tupu"@, 2))
    } else if !(forall|i: int|
        0 <= i < v.len() ==> ascii_alphanumeric(#[trigger] v[i]) || version_mark(v[i])) {
        Err(("toleo lina alama zisizokubalika"@, 2))
    } else {
        Ok(())
    }
}

pub fn validate_semver_like(v: &str) -> (r: Result<(), CliError>)
    ensures
        outcome_is(r, semver_like_spec(v@), |u: ()| u),
{
    let s = chars_of(v);
    if s.len() == 0 {
        return fail("toleo haliwezi kuwa tupu", 2);
    }
    let mut i: usize = 0;
    while i < s.len()
        invariant
            i <= s.len(),
            s@ == v@,
            forall|k: int| 0 <= k < i ==> ascii_alphanumeric(#[trigger] s@[k]) || version_mark(s@[k]),
        decreases s.len() - i,
    {
        let c = s[i];
        if !(is_ascii_alphanumeric(c) || c == '.' || c == '^' || c == '~' || c == '*' || c == '<'
            || c == '>' || c == '=') {
            return fail("toleo lina alama zisizokubalika", 2);
        }
        i = i + 1;
    }
    Ok(())
}

// ---------------------------------------------------------------------------------------------
// [tegemezi] line edits
// ---------------------------------------------------------------------------------------------

/// The `[tegemezi]` line for a dependency: `dep = "version"`, or the inline table with `git`.
pub open spec fn dependency_line_spec(dep: Seq<char>, version: Seq<char>, git_url: Option<Seq<char>>) -> Seq<char> {
    match git_url {
        Some(url) => dep + " = { git = \""@ + url + "\", version = \""@ + version + "\" }"@,
        None => dep + " = \""@ + version + "\""@,
    }
}

pub fn dependency_toml_line(dep: &str, version: &str, git_url: Option<&str>) -> (r: String)
    ensures
        r@ == dependency_line_spec(
            dep@,
            version@,
            match git_url {
                Some(u) => Some(u@),
                None => None,
            },
        ),
{
    let mut out = chars_of(dep);
    match git_url {
        Some(url) => {
            push_all(&mut out, chars_of(" = { git = \"").as_slice());
            push_all(&mut out, chars_of(url).as_slice());
            push_all(&mut out, chars_of("\", version = \"").as_slice());
            push_all(&mut out, chars_of(version).as_slice());
            push_all(&mut out, chars_of("\" }").as_slice());
        },
        None => {
            push_all(&mut out, chars_of(" = \"").as_slice());
            push_all(&mut out, chars_of(version).as_slice());
            push_all(&mut out, chars_of("\"").as_slice());
        },
    }
    string_of(out.as_slice())
}

/// A section header line (trimmed): starts with `[` and ends with `]`.
pub open spec fn is_header(t: Seq<char>) -> bool {
    starts_with(t, "["@) && ends_with(t, "]"@)
}

/// Index of the first `=` in `t` at or after `i`.
pub open spec fn first_eq_from(t: Seq<char>, i: int) -> Option<int>
    decreases t.len() - i,
{
    if i < 0 || i >= t.len() {
        None
    } else if t[i] == '=' {
        Some(i)
    } else {
        first_eq_from(t, i + 1)
    }
}

/// The key of a `key = value` line (trimmed text before its first `=`), if it has an `=`.
pub open spec fn entry_key(t: Seq<char>) -> Option<Seq<char>> {
    match first_eq_from(t, 0) {
        Some(i) => Some(trim(t.subrange(0, i))),
        None => None,
    }
}

/// Whether `v` (already trimmed) is a header line.
fn line_is_header(t: &Vec<char>) -> (r: bool)
    ensures
        r == is_header(t@),
{
    let open = chars_of("[");
    let close = chars_of("]");
    let a = matches_at(t, 0, open.as_slice());
    let b = close.len() <= t.len() && matches_at(t, t.len() - close.len(), close.as_slice());
    proof {
        if starts_with(t@, "["@) {
            assert(crate::text::occurs_at(t@, open@, 0));
        }
    }
    a && b
}

/// Whether the trimmed line `t` is an entry whose key is `key`.
fn entry_key_is(t: &Vec<char>, key: &Vec<char>) -> (r: bool)
    ensures
        r == (entry_key(t@) == Some(key@)),
{
    let mut i: usize = 0;
    while i < t.len() && t[i] != '='
        invariant
            i <= t.len(),
            first_eq_from(t@, 0) == first_eq_from(t@, i as int),
        decreases t.len() - i,
    {
        i = i + 1;
    }
    if i >= t.len() {
        return false;
    }
    let (a, b) = trim_bounds(t, 0, i);
    let k = slice_vec(t, a, b);
    crate::text::chars_eq(k.as_slice(), key.as_slice())
}

/// Scan state of an entry update: inside `[tegemezi]`, the new line written, an old entry
/// replaced, and the lines written so far.
pub type UpdateState = (bool, bool, bool, Seq<Seq<char>>);

/// One line of the update scan. A header closes `[tegemezi]` (writing the new line first if it
/// is still owed); inside `[tegemezi]` the entry for `dep` is replaced by the new line.
pub open spec fn update_step(st: UpdateState, line: Seq<char>, dep: Seq<char>, new_line: Seq<char>) -> UpdateState {
    let t = trim(line);
    if is_header(t) {
        let out = if st.0 && !st.1 {
            st.3.push(new_line)
        } else {
            st.3
        };
        (t == "[tegemezi]"@, st.1 || st.0, st.2, out.push(line))
    } else if st.0 && entry_key(t) == Some(dep) {
        (st.0, true, true, st.3.push(new_line))
    } else {
        (st.0, st.1, st.2, st.3.push(line))
    }
}

pub open spec fn update_fold(lines: Seq<Seq<char>>, dep: Seq<char>, new_line: Seq<char>) -> UpdateState
    decreases lines.len(),
{
    if lines.len() == 0 {
        (false, false, false, Seq::empty())
    } else {
        update_step(update_fold(lines.drop_last(), dep, new_line), lines.last(), dep, new_line)
    }
}

/// The manifest after setting the entry for `dep` to `new_line`, and whether an entry was
/// replaced (rather than added). Without any `[tegemezi]` section one is appended; the text
/// ends with a newline.
pub open spec fn update_entry_spec(content: Seq<char>, dep: Seq<char>, new_line: Seq<char>) -> (Seq<char>, bool) {
    let st = update_fold(lines_of(content), dep, new_line);
    let out = if !contains_text(content, "[tegemezi]"@) {
        st.3 + seq![Seq::<char>::empty(), "[tegemezi]"@, new_line]
    } else if !st.1 {
        st.3.push(new_line)
    } else {
        st.3
    };
    (join_lines(out) + seq!['\n'], st.2)
}

/// Set the `[tegemezi]` entry for `dep` to `new_line` in the manifest text `content`.
pub fn update_dependency_entry(content: &str, dep: &str, new_line: &str) -> (r: (String, bool))
    ensures
        (r.0@, r.1) == update_entry_spec(content@, dep@, new_line@),
{
    let key = chars_of(dep);
    let nl = chars_of(new_line);
    let mut reader = LineReader::new(content);
    let mut out = LineWriter::new();
    let mut in_dep = false;
    let mut inserted = false;
    let mut replaced = false;
    let ghost all = lines_of(content@);
    let ghost mut done: Seq<Seq<char>> = Seq::empty();
    assert(done + reader.rest() =~= all);
    loop
        invariant
            out.wf(),
            key@ == dep@,
            nl@ == new_line@,
            reader.text@ == content@,
            done + reader.rest() == all,
            all == lines_of(content@),
            update_fold(done, dep@, new_line@) == (in_dep, inserted, replaced, out.lines@),
        ensures
            done == all,
        decreases reader.rest().len(),
    {
        let ghost rest_before = reader.rest();
        let next = reader.next_line();
        match next {
            None => {
                assert(done =~= all);
                break;
            },
            Some(line) => {
                let ghost d2 = done.push(line@);
                proof {
                    assert(d2.drop_last() =~= done);
                    assert(d2 + reader.rest() =~= all) by {
                        assert(rest_before =~= seq![line@] + rest_before.drop_first());
                    }
                }
                let (a, b) = trim_bounds(&line, 0, line.len());
                let t = slice_vec(&line, a, b);
                assert(line@.subrange(0, line@.len() as int) =~= line@);
                if line_is_header(&t) {
                    if in_dep && !inserted {
                        out.push_line(nl.as_slice());
                    }
                    inserted = inserted || in_dep;
                    in_dep = eq_lit(&t, "[tegemezi]");
                    out.push_line(line.as_slice());
                } else if in_dep && entry_key_is(&t, &key) {
                    out.push_line(nl.as_slice());
                    replaced = true;
                    inserted = true;
                } else {
                    out.push_line(line.as_slice());
                }
                proof {
                    done = d2;
                }
            },
        }
    }
    let cv = chars_of(content);
    if !text_contains(&cv, "[tegemezi]") {
        let empty: Vec<char> = Vec::new();
        out.push_line(empty.as_slice());
        out.push_line(chars_of("[tegemezi]").as_slice());
        out.push_line(nl.as_slice());
        assert(out.lines@ =~= update_fold(all, dep@, new_line@).3 + seq![
            Seq::<char>::empty(),
            "[tegemezi]"@,
            new_line@,
        ]);
    } else if !inserted {
        out.push_line(nl.as_slice());
    }
    let mut text = out.text;
    text.push('\n');
    (string_of(text.as_slice()), replaced)
}

/// Add or update a registry dependency `dep = "version"`: the new manifest text and whether
/// an entry was replaced.
pub fn update_dependency(content: &str, dep: &str, version: &str) -> (r: (String, bool))
    ensures
        (r.0@, r.1) == update_entry_spec(content@, dep@, dependency_line_spec(dep@, version@, None)),
{
    let line = dependency_toml_line(dep, version, None);
    update_dependency_entry(content, dep, line.as_str())
}

/// Add or update a git dependency `dep = { git = "url", version = "version" }`.
pub fn update_dependency_git(content: &str, dep: &str, version: &str, git_url: &str) -> (r: (String, bool))
    ensures
        (r.0@, r.1) == update_entry_spec(
            content@,
            dep@,
            dependency_line_spec(dep@, version@, Some(git_url@)),
        ),
{
    let line = dependency_toml_line(dep, version, Some(git_url));
    update_dependency_entry(content, dep, line.as_str())
}

/// The message printed after an update.
pub open spec fn update_message_spec(dep: Seq<char>, replaced: bool) -> Seq<char> {
    if replaced {
        "tegemezi '"@ + dep + "' imesasishwa"@
    } else {
        "tegemezi '"@ + dep + "' imeongezwa"@
    }
}

pub fn update_message(dep: &str, replaced: bool) -> (r: String)
    ensures
        r@ == update_message_spec(dep@, replaced),
{
    let d = chars_of(dep);
    if replaced {
        concat3("tegemezi '", d.as_slice(), "' imesasishwa")
    } else {
        concat3("tegemezi '", d.as_slice(), "' imeongezwa")
    }
}

/// Scan state of an entry removal: inside `[tegemezi]`, and the lines kept so far.
pub open spec fn remove_fold(lines: Seq<Seq<char>>, name: Seq<char>) -> (bool, Seq<Seq<char>>)
    decreases lines.len(),
{
    if lines.len() == 0 {
        (false, Seq::empty())
    } else {
        let st = remove_fold(lines.drop_last(), name);
        let line = lines.last();
        let t = trim(line);
        if is_header(t) {
            (t == "[tegemezi]"@, st.1.push(line))
        } else if st.0 && entry_key(t) == Some(name) {
            st
        } else {
            (st.0, st.1.push(line))
        }
    }
}

/// The trimmed header nearest above line `j` (among lines `0..j`), if there is one: the
/// section line `j` lies in.
pub open spec fn section_of(lines: Seq<Seq<char>>, j: int) -> Option<Seq<char>>
    decreases j,
{
    if j <= 0 || j > lines.len() {
        None
    } else if is_header(trim(lines[j - 1])) {
        Some(trim(lines[j - 1]))
    } else {
        section_of(lines, j - 1)
    }
}

/// Line `j` is an entry of the `[tegemezi]` section whose key is `name`.
pub open spec fn is_dep_entry(lines: Seq<Seq<char>>, name: Seq<char>, j: int) -> bool {
    &&& !is_header(trim(lines[j]))
    &&& section_of(lines, j) == Some("[tegemezi]"@)
    &&& entry_key(trim(lines[j])) == Some(name)
}

/// Lines `0..n` in order, leaving out every `[tegemezi]` entry keyed `name`.
pub open spec fn without_dep_entries(lines: Seq<Seq<char>>, name: Seq<char>, n: int) -> Seq<Seq<char>>
    decreases n,
{
    if n <= 0 || n > lines.len() {
        Seq::empty()
    } else if is_dep_entry(lines, name, n - 1) {
        without_dep_entries(lines, name, n - 1)
    } else {
        without_dep_entries(lines, name, n - 1).push(lines[n - 1])
    }
}

proof fn lemma_section_prefix(lines: Seq<Seq<char>>, j: int)
    requires
        lines.len() > 0,
        0 <= j < lines.len(),
    ensures
        section_of(lines.drop_last(), j) == section_of(lines, j),
    decreases j,
{
    if j > 0 {
        assert(lines.drop_last()[j - 1] == lines[j - 1]);
        lemma_section_prefix(lines, j - 1);
    }
}

proof fn lemma_without_prefix(lines: Seq<Seq<char>>, name: Seq<char>, n: int)
    requires
        lines.len() > 0,
        0 <= n < lines.len(),
    ensures
        without_dep_entries(lines.drop_last(), name, n) == without_dep_entries(lines, name, n),
    decreases n,
{
    if n > 0 {
        lemma_without_prefix(lines, name, n - 1);
        lemma_section_prefix(lines, n - 1);
        assert(lines.drop_last()[n - 1] == lines[n - 1]);
    }
}

/// The removal scan keeps exactly the lines that are not `[tegemezi]` entries keyed `name`,
/// wherever in the section they stand, and ends inside `[tegemezi]` exactly when the last
/// header is `[tegemezi]`.
pub proof fn lemma_remove_fold_drops_entries(lines: Seq<Seq<char>>, name: Seq<char>)
    ensures
        remove_fold(lines, name) == (
            section_of(lines, lines.len() as int) == Some("[tegemezi]"@),
            without_dep_entries(lines, name, lines.len() as int),
        ),
    decreases lines.len(),
{
    if lines.len() > 0 {
        let n = lines.len() - 1;
        lemma_remove_fold_drops_entries(lines.drop_last(), name);
        lemma_section_prefix(lines, n);
        lemma_without_prefix(lines, name, n);
        assert(lines.last() == lines[n]);
    }
}

/// Removing a dependency drops every line of the `[tegemezi]` section whose key is `name` —
/// not only one just below the header — and keeps every other line, in order.
pub proof fn law_remove_drops_exactly_the_entries(content: Seq<char>, name: Seq<char>)
    ensures
        remove_entry_spec(content, name) == join_lines(
            without_dep_entries(lines_of(content), name, lines_of(content).len() as int),
        ) + seq!['\n'],
{
    lemma_remove_fold_drops_entries(lines_of(content), name);
}

/// The manifest text without the `[tegemezi]` entry for `name`, ending with a newline.
pub open spec fn remove_entry_spec(content: Seq<char>, name: Seq<char>) -> Seq<char> {
    join_lines(remove_fold(lines_of(content), name).1) + seq!['\n']
}

/// Drop the `[tegemezi]` entry for `name` from the manifest text `content`.
pub fn remove_dependency_entry(content: &str, name: &str) -> (r: String)
    ensures
        r@ == remove_entry_spec(content@, name@),
{
    let key = chars_of(name);
    let mut reader = LineReader::new(content);
    let mut out = LineWriter::new();
    let mut in_dep = false;
    let ghost all = lines_of(content@);
    let ghost mut done: Seq<Seq<char>> = Seq::empty();
    assert(done + reader.rest() =~= all);
    loop
        invariant
            out.wf(),
            key@ == name@,
            reader.text@ == content@,
            done + reader.rest() == all,
            all == lines_of(content@),
            remove_fold(done, name@) == (in_dep, out.lines@),
        ensures
            done == all,
        decreases reader.rest().len(),
    {
        let ghost rest_before = reader.rest();
        let next = reader.next_line();
        match next {
            None => {
                assert(done =~= all);
                break;
            },
            Some(line) => {
                let ghost d2 = done.push(line@);
                proof {
                    assert(d2.drop_last() =~= done);
                    assert(d2 + reader.rest() =~= all) by {
                        assert(rest_before =~= seq![line@] + rest_before.drop_first());
                    }
                }
                let (a, b) = trim_bounds(&line, 0, line.len());
                let t = slice_vec(&line, a, b);
                assert(line@.subrange(0, line@.len() as int) =~= line@);
                if line_is_header(&t) {
                    in_dep = eq_lit(&t, "[tegemezi]");
                    out.push_line(line.as_slice());
                } else if in_dep && entry_key_is(&t, &key) {
                } else {
                    out.push_line(line.as_slice());
                }
                proof {
                    done = d2;
                }
            },
        }
    }
    let mut text = out.text;
    text.push('\n');
    string_of(text.as_slice())
}

// ---------------------------------------------------------------------------------------------
// The manifest's fields
// ---------------------------------------------------------------------------------------------

/// A `[tegemezi]` value as read from the manifest: a string, an inline table (its `path`,
/// `git` and `version` strings), or anything else.
#[derive(Clone, Debug)]
pub enum DependencyValue {
    Text(String),
    Table { path: Option<String>, git: Option<String>, version: Option<String> },
    Other,
}

/// The string fields of a parsed `pata.toml` that the project reads (absent or non-string
/// values are `None`), and the `[tegemezi]` entries in table order.
#[derive(Clone, Debug)]
pub struct ManifestFields {
    pub name: Option<String>,
    pub version: Option<String>,
    pub asili_version: Option<String>,
    pub entrypoint: Option<String>,
    pub target: Option<String>,
    /// `[eneo-kazi] wanachama`, when it is an array: its string elements.
    pub members: Option<Vec<String>>,
    pub dependencies: Vec<(String, DependencyValue)>,
}

/// A project's configuration.
#[derive(Clone, Debug)]
pub struct ProjectConfig {
    pub name: String,
    pub version: String,
    pub asili_version: String,
    /// The entrypoint, relative to the project root.
    pub entrypoint: String,
    /// Dependencies by name, in the manifest's key order.
    pub dependencies: Vec<(String, Dependency)>,
    /// `[jenga] lengo`: the declared build target.
    pub target: Option<String>,
    /// `[eneo-kazi] wanachama`: member directories of a workspace root.
    pub eneo_kazi: Option<Vec<String>>,
}

/// The view of a dependency.
pub open spec fn dependency_view(d: Dependency) -> (int, Seq<char>, Seq<char>) {
    match d {
        Dependency::Version(v) => (0, v@, Seq::empty()),
        Dependency::Path(p) => (1, p@, Seq::empty()),
        Dependency::Git { url, version } => (2, url@, version@),
    }
}

/// The view of the dependency a manifest value declares.
pub open spec fn declared_view(v: DependencyValue) -> Option<(int, Seq<char>, Seq<char>)> {
    match v {
        DependencyValue::Text(s) => Some((0, s@, Seq::empty())),
        DependencyValue::Table { path, git, version } => match path {
            Some(p) => Some((1, p@, Seq::empty())),
            None => match git {
                Some(u) => Some(
                    (
                        2,
                        u@,
                        match version {
                            Some(v) => v@,
                            None => "*"@,
                        },
                    ),
                ),
                None => None,
            },
        },
        DependencyValue::Other => None,
    }
}

/// The dependencies declared by the entries, in order.
pub open spec fn declared_deps(entries: Seq<(String, DependencyValue)>) -> Seq<(Seq<char>, (int, Seq<char>, Seq<char>))>
    decreases entries.len(),
{
    if entries.len() == 0 {
        Seq::empty()
    } else {
        let rest = declared_deps(entries.drop_last());
        match declared_view(entries.last().1) {
            Some(d) => rest.push((entries.last().0@, d)),
            None => rest,
        }
    }
}

pub open spec fn deps_view(d: Seq<(String, Dependency)>) -> Seq<(Seq<char>, (int, Seq<char>, Seq<char>))> {
    d.map_values(|e: (String, Dependency)| (e.0@, dependency_view(e.1)))
}

/// The text of an optional field, empty when absent.
pub open spec fn or_empty(o: Option<String>) -> Seq<char> {
    match o {
        Some(s) => s@,
        None => Seq::empty(),
    }
}

/// What the configuration is, or which required `[jumla]` field is missing (checked in the
/// order `jina`, `toleo`, `asili`).
pub open spec fn config_errors(f: ManifestFields) -> Option<Failure> {
    if or_empty(f.name).len() == 0 {
        Some(("pata.toml haina [jumla].jina"@, 2))
    } else if or_empty(f.version).len() == 0 {
        Some(("pata.toml haina [jumla].toleo"@, 2))
    } else if or_empty(f.asili_version).len() == 0 {
        Some(("pata.toml haina [jumla].asili"@, 2))
    } else {
        None
    }
}

/// The configuration read from the manifest's fields.
pub open spec fn config_matches(c: ProjectConfig, f: ManifestFields) -> bool {
    &&& c.name@ == or_empty(f.name)
    &&& c.version@ == or_empty(f.version)
    &&& c.asili_version@ == or_empty(f.asili_version)
    &&& c.entrypoint@ == (match f.entrypoint {
        Some(e) => e@,
        None => "src/kuu.as"@,
    })
    &&& deps_view(c.dependencies@) == declared_deps(f.dependencies@)
    &&& crate::commands::opt_view(c.target) == crate::commands::opt_view(f.target)
    &&& match (c.eneo_kazi, f.members) {
        (Some(a), Some(b)) => crate::text::views(a@) == crate::text::views(b@),
        (None, None) => true,
        _ => false,
    }
}

fn text_or_empty(o: &Option<String>) -> (r: String)
    ensures
        r@ == or_empty(*o),
{
    match o {
        Some(s) => s.clone(),
        None => String::new(),
    }
}

fn clone_strings(v: &Vec<String>) -> (r: Vec<String>)
    ensures
        crate::text::views(r@) == crate::text::views(v@),
{
    let mut out: Vec<String> = Vec::new();
    let mut i: usize = 0;
    while i < v.len()
        invariant
            i <= v.len(),
            out.len() == i,
            forall|k: int| 0 <= k < i ==> #[trigger] out@[k]@ == v@[k]@,
        decreases v.len() - i,
    {
        out.push(v[i].clone());
        i = i + 1;
    }
    assert(crate::text::views(out@) =~= crate::text::views(v@));
    out
}

/// Build the configuration from the manifest's fields, refusing a manifest without a name,
/// version or language version.
pub fn project_config(fields: &ManifestFields) -> (r: Result<ProjectConfig, CliError>)
    ensures
        match r {
            Ok(c) => config_errors(*fields) is None && config_matches(c, *fields),
            Err(e) => config_errors(*fields) == Some((e.message@, e.exit_code)),
        },
{
    let mut deps: Vec<(String, Dependency)> = Vec::new();
    let mut i: usize = 0;
    assert(deps_view(deps@) =~= declared_deps(fields.dependencies@.subrange(0, 0)));
    while i < fields.dependencies.len()
        invariant
            i <= fields.dependencies.len(),
            deps_view(deps@) == declared_deps(fields.dependencies@.subrange(0, i as int)),
        decreases fields.dependencies.len() - i,
    {
        let ghost before = deps_view(deps@);
        let key = &fields.dependencies[i].0;
        let ghost prefix = fields.dependencies@.subrange(0, i + 1);
        assert(prefix.drop_last() =~= fields.dependencies@.subrange(0, i as int));
        assert(prefix.last() == fields.dependencies@[i as int]);
        match &fields.dependencies[i].1 {
            DependencyValue::Text(s) => {
                deps.push((key.clone(), Dependency::Version(s.clone())));
                assert(deps_view(deps@) =~= before.push((key@, (0, s@, Seq::empty()))));
            },
            DependencyValue::Table { path, git, version } => {
                match path {
                    Some(p) => {
                        deps.push((key.clone(), Dependency::Path(p.clone())));
                        assert(deps_view(deps@) =~= before.push((key@, (1, p@, Seq::empty()))));
                    },
                    None => match git {
                        Some(u) => {
                            let v = match version {
                                Some(v) => v.clone(),
                                None => "*".to_string(),
                            };
                            let ghost vv = v@;
                            deps.push((key.clone(), Dependency::Git { url: u.clone(), version: v }));
                            assert(deps_view(deps@) =~= before.push((key@, (2, u@, vv))));
                        },
                        None => {},
                    },
                }
            },
            DependencyValue::Other => {},
        }
        i = i + 1;
    }
    assert(fields.dependencies@.subrange(0, fields.dependencies.len() as int) =~= fields.dependencies@);
    let name = text_or_empty(&fields.name);
    let version = text_or_empty(&fields.version);
    let asili_version = text_or_empty(&fields.asili_version);
    if name.as_str().is_empty() {
        return fail("pata.toml haina [jumla].jina", 2);
    }
    if version.as_str().is_empty() {
        return fail("pata.toml haina [jumla].toleo", 2);
    }
    if asili_version.as_str().is_empty() {
        return fail("pata.toml haina [jumla].asili", 2);
    }
    let entrypoint = match &fields.entrypoint {
        Some(e) => e.clone(),
        None => "src/kuu.as".to_string(),
    };
    let eneo_kazi = match &fields.members {
        Some(m) => Some(clone_strings(m)),
        None => None,
    };
    Ok(
        ProjectConfig {
            name,
            version,
            asili_version,
            entrypoint,
            dependencies: deps,
            target: fields.target.clone(),
            eneo_kazi,
        },
    )
}

// ---------------------------------------------------------------------------------------------
// Reading pata.toml
// ---------------------------------------------------------------------------------------------

/// A `[tegemezi]` value as plain values: kind (0 string, 1 table, 2 anything else) with the
/// string, or the table's `path`, `git` and `version` strings.
pub type DepValueView = (int, Option<Seq<char>>, Option<Seq<char>>, Option<Seq<char>>);

pub open spec fn dep_value_view(v: DependencyValue) -> DepValueView {
    match v {
        DependencyValue::Text(s) => (0, Some(s@), None, None),
        DependencyValue::Table { path, git, version } => (
            1,
            crate::commands::opt_view(path),
            crate::commands::opt_view(git),
            crate::commands::opt_view(version),
        ),
        DependencyValue::Other => (2, None, None, None),
    }
}

/// The manifest's fields as plain values, in the order of `ManifestFields`.
pub type FieldsView = (
    Option<Seq<char>>,
    Option<Seq<char>>,
    Option<Seq<char>>,
    Option<Seq<char>>,
    Option<Seq<char>>,
    Option<Seq<Seq<char>>>,
    Seq<(Seq<char>, DepValueView)>,
);

pub open spec fn fields_view(f: ManifestFields) -> FieldsView {
    (
        crate::commands::opt_view(f.name),
        crate::commands::opt_view(f.version),
        crate::commands::opt_view(f.asili_version),
        crate::commands::opt_view(f.entrypoint),
        crate::commands::opt_view(f.target),
        match f.members {
            Some(m) => Some(crate::text::views(m@)),
            None => None,
        },
        f.dependencies@.map_values(|e: (String, DependencyValue)| (e.0@, dep_value_view(e.1))),
    )
}

/// What a `[tegemezi]` entry's value declares.
pub open spec fn dep_value_spec(v: TomlValueView) -> DepValueView {
    match v {
        TomlValueView::Str(s) => (0, Some(s), None, None),
        TomlValueView::Table(_) => (
            1,
            get_str(Some(v), "path"@),
            get_str(Some(v), "git"@),
            get_str(Some(v), "version"@),
        ),
        _ => (2, None, None, None),
    }
}

/// The string elements of an array, in order.
pub open spec fn strings_in(a: Seq<TomlValueView>) -> Seq<Seq<char>>
    decreases a.len(),
{
    if a.len() == 0 {
        Seq::empty()
    } else {
        match a.last() {
            TomlValueView::Str(x) => strings_in(a.drop_last()).push(x),
            _ => strings_in(a.drop_last()),
        }
    }
}

/// The fields `pata.toml` is read for: `[jumla] jina`, `toleo`, `asili`, `[chanzo] kuingia` and
/// `[jenga] lengo` when they are strings; `[eneo-kazi] wanachama`'s strings when it is an array;
/// and each `[tegemezi]` entry, in table order.
pub open spec fn fields_spec(doc: TomlValueView) -> FieldsView {
    let d = Some(doc);
    (
        get_str(get(d, "jumla"@), "jina"@),
        get_str(get(d, "jumla"@), "toleo"@),
        get_str(get(d, "jumla"@), "asili"@),
        get_str(get(d, "chanzo"@), "kuingia"@),
        get_str(get(d, "jenga"@), "lengo"@),
        match get(get(d, "eneo-kazi"@), "wanachama"@) {
            Some(TomlValueView::Array(a)) => Some(strings_in(a)),
            _ => None,
        },
        match get(d, "tegemezi"@) {
            Some(TomlValueView::Table(t)) => t.map_values(
                |e: (Seq<char>, TomlValueView)| (e.0, dep_value_spec(e.1)),
            ),
            _ => Seq::empty(),
        },
    )
}

fn dep_value_of(v: &TomlValue) -> (r: DependencyValue)
    ensures
        dep_value_view(r) == dep_value_spec(toml_view(*v)),
{
    match v {
        TomlValue::Str(s) => DependencyValue::Text(s.clone()),
        TomlValue::Table(_) => DependencyValue::Table {
            path: get_string(Some(v), "path"),
            git: get_string(Some(v), "git"),
            version: get_string(Some(v), "version"),
        },
        _ => DependencyValue::Other,
    }
}

fn strings_of(a: &Vec<TomlValue>) -> (r: Vec<String>)
    ensures
        crate::text::views(r@) == strings_in(values_view(a@)),
{
    proof {
        lemma_values_view(a@);
    }
    let ghost va = values_view(a@);
    let mut out: Vec<String> = Vec::new();
    let mut i: usize = 0;
    assert(crate::text::views(out@) =~= strings_in(va.subrange(0, 0)));
    while i < a.len()
        invariant
            i <= a.len(),
            va == values_view(a@),
            va.len() == a@.len(),
            forall|j: int| 0 <= j < a@.len() ==> #[trigger] va[j] == toml_view(a@[j]),
            crate::text::views(out@) == strings_in(va.subrange(0, i as int)),
        decreases a.len() - i,
    {
        assert(va.subrange(0, i + 1).drop_last() =~= va.subrange(0, i as int));
        assert(va.subrange(0, i + 1).last() == toml_view(a@[i as int]));
        match &a[i] {
            TomlValue::Str(x) => {
                let ghost before = crate::text::views(out@);
                out.push(x.clone());
                assert(crate::text::views(out@) =~= before.push(x@));
            },
            _ => {},
        }
        i = i + 1;
    }
    assert(va.subrange(0, a.len() as int) =~= va);
    out
}

/// The fields of a parsed `pata.toml` (see `fields_spec`).
pub fn manifest_fields(doc: &TomlValue) -> (r: ManifestFields)
    ensures
        fields_view(r) == fields_spec(toml_view(*doc)),
{
    let jumla = get_value(Some(doc), "jumla");
    let members = match get_value(get_value(Some(doc), "eneo-kazi"), "wanachama") {
        Some(TomlValue::Array(a)) => Some(strings_of(a)),
        _ => None,
    };
    let mut dependencies: Vec<(String, DependencyValue)> = Vec::new();
    match get_value(Some(doc), "tegemezi") {
        Some(TomlValue::Table(t)) => {
            proof {
                lemma_entries_view(t@);
            }
            let ghost et = entries_view(t@);
            let ghost f = |e: (Seq<char>, TomlValueView)| (e.0, dep_value_spec(e.1));
            let mut i: usize = 0;
            while i < t.len()
                invariant
                    i <= t.len(),
                    et == entries_view(t@),
                    et.len() == t@.len(),
                    f == (|e: (Seq<char>, TomlValueView)| (e.0, dep_value_spec(e.1))),
                    forall|j: int| 0 <= j < t@.len() ==> #[trigger] et[j] == (t@[j].0@, toml_view(t@[j].1)),
                    dependencies@.len() == i,
                    forall|j: int| 0 <= j < i ==> (#[trigger] dependencies@[j]).0@ == et[j].0
                        && dep_value_view(dependencies@[j].1) == dep_value_spec(et[j].1),
                decreases t.len() - i,
            {
                let d = dep_value_of(&t[i].1);
                dependencies.push((t[i].0.clone(), d));
                i = i + 1;
            }
            assert(dependencies@.map_values(|e: (String, DependencyValue)| (e.0@, dep_value_view(e.1)))
                =~= et.map_values(f));
        },
        _ => {
            assert(dependencies@.map_values(|e: (String, DependencyValue)| (e.0@, dep_value_view(e.1)))
                =~= Seq::<(Seq<char>, DepValueView)>::empty());
        },
    }
    ManifestFields {
        name: get_string(jumla, "jina"),
        version: get_string(jumla, "toleo"),
        asili_version: get_string(jumla, "asili"),
        entrypoint: get_string(get_value(Some(doc), "chanzo"), "kuingia"),
        target: get_string(get_value(Some(doc), "jenga"), "lengo"),
        members,
        dependencies,
    }
}

/// The configuration in the text of `path`'s `pata.toml`: text that is not TOML is refused
/// with the parser's message (exit code 2); otherwise as `project_config` reads the fields.
pub fn parse_manifest(path: &str, content: &str) -> (r: Result<ProjectConfig, CliError>)
    ensures
        match toml_parse(content@) {
            Err(m) => r is Err && r->Err_0.message@ == "hitilafu ya kuchambua "@ + path@ + ": "@ + m
                && r->Err_0.exit_code == 2,
            Ok(doc) => exists|f: ManifestFields|
                #![trigger fields_view(f)]
                fields_view(f) == fields_spec(doc) && match r {
                    Ok(c) => config_errors(f) is None && config_matches(c, f),
                    Err(e) => config_errors(f) == Some((e.message@, e.exit_code)),
                },
        },
{
    match parse_toml(content) {
        Err(m) => {
            let mut v = chars_of("hitilafu ya kuchambua ");
            push_all(&mut v, chars_of(path).as_slice());
            push_all(&mut v, chars_of(": ").as_slice());
            push_all(&mut v, chars_of(m.as_str()).as_slice());
            Err(CliError::new(string_of(v.as_slice()), 2))
        },
        Ok(doc) => {
            let f = manifest_fields(&doc);
            let r = project_config(&f);
            assert(fields_view(f) == fields_spec(toml_view(doc)));
            r
        },
    }
}

/// Whether the configuration declares a dependency named `name`.
pub open spec fn has_dependency(c: ProjectConfig, name: Seq<char>) -> bool {
    exists|i: int| 0 <= i < c.dependencies@.len() && #[trigger] c.dependencies@[i].0@ == name
}

/// The entries (as views) without those named `name`.
pub open spec fn views_without(d: Seq<(Seq<char>, (int, Seq<char>, Seq<char>))>, name: Seq<char>) -> Seq<
    (Seq<char>, (int, Seq<char>, Seq<char>)),
>
    decreases d.len(),
{
    if d.len() == 0 {
        d
    } else if d.last().0 == name {
        views_without(d.drop_last(), name)
    } else {
        views_without(d.drop_last(), name).push(d.last())
    }
}

fn clone_dependency(d: &Dependency) -> (r: Dependency)
    ensures
        dependency_view(r) == dependency_view(*d),
{
    match d {
        Dependency::Version(v) => Dependency::Version(v.clone()),
        Dependency::Path(p) => Dependency::Path(p.clone()),
        Dependency::Git { url, version } => Dependency::Git { url: url.clone(), version: version.clone() },
    }
}

/// Remove the dependency `name`: refused when the configuration has no such dependency;
/// otherwise the manifest text without its entry, and the configuration without it.
pub fn remove_dependency(cfg: &mut ProjectConfig, content: &str, name: &str) -> (r: Result<
    String,
    CliError,
>)
    ensures
        match r {
            Ok(text) => {
                &&& has_dependency(*old(cfg), name@)
                &&& text@ == remove_entry_spec(content@, name@)
                &&& deps_view(final(cfg).dependencies@) == views_without(
                    deps_view(old(cfg).dependencies@),
                    name@,
                )
                &&& final(cfg).name == old(cfg).name
                &&& final(cfg).version == old(cfg).version
                &&& final(cfg).asili_version == old(cfg).asili_version
                &&& final(cfg).entrypoint == old(cfg).entrypoint
                &&& final(cfg).target == old(cfg).target
                &&& final(cfg).eneo_kazi == old(cfg).eneo_kazi
            },
            Err(e) => {
                &&& !has_dependency(*old(cfg), name@)
                &&& e.message@ == "tegemezi '"@ + name@ + "' halipo kwenye pata.toml"@
                &&& e.exit_code == 1
                &&& *final(cfg) == *old(cfg)
            },
        },
{
    let key = chars_of(name);
    let mut found = false;
    let mut kept: Vec<(String, Dependency)> = Vec::new();
    let mut i: usize = 0;
    while i < cfg.dependencies.len()
        invariant
            i <= cfg.dependencies.len(),
            *cfg == *old(cfg),
            key@ == name@,
            found == exists|k: int| 0 <= k < i && #[trigger] cfg.dependencies@[k].0@ == name@,
            deps_view(kept@) == views_without(
                deps_view(cfg.dependencies@.subrange(0, i as int)),
                name@,
            ),
        decreases cfg.dependencies.len() - i,
    {
        let ghost before = deps_view(kept@);
        let ghost prefix = deps_view(cfg.dependencies@.subrange(0, i + 1));
        assert(prefix.drop_last() =~= deps_view(cfg.dependencies@.subrange(0, i as int)));
        assert(prefix.last() == (cfg.dependencies@[i as int].0@, dependency_view(cfg.dependencies@[i as int].1)));
        let same = crate::text::chars_eq(
            chars_of(cfg.dependencies[i].0.as_str()).as_slice(),
            key.as_slice(),
        );
        if same {
            found = true;
        } else {
            let e = (cfg.dependencies[i].0.clone(), clone_dependency(&cfg.dependencies[i].1));
            kept.push(e);
            assert(deps_view(kept@) =~= before.push(prefix.last()));
        }
        i = i + 1;
    }
    assert(cfg.dependencies@.subrange(0, cfg.dependencies.len() as int) =~= cfg.dependencies@);
    if !found {
        let k = chars_of(name);
        return Err(CliError::new(concat3("tegemezi '", k.as_slice(), "' halipo kwenye pata.toml"), 1));
    }
    let text = remove_dependency_entry(content, name);
    cfg.dependencies = kept;
    Ok(text)
}

// ---------------------------------------------------------------------------------------------
// Workspaces
// ---------------------------------------------------------------------------------------------

/// A workspace root: the directory of a `pata.toml` declaring `[eneo-kazi] wanachama`, and its
/// member directories (relative to the root) that hold a `pata.toml` of their own, in name
/// order, each once.
#[derive(Clone, Debug)]
pub struct PataWorkspace {
    pub root: String,
    pub members: Vec<String>,
}

/// The declared members whose directory holds a manifest.
pub open spec fn qualifies(declared: Seq<String>, present: Seq<bool>, x: Seq<char>) -> bool {
    exists|i: int| 0 <= i < declared.len() && present[i] && #[trigger] declared[i]@ == x
}

/// The workspace a manifest at `root` declares with `declared` members, `present[i]` telling
/// whether member `i` has a `pata.toml`: its qualifying members sorted and without repeats, or
/// no workspace when none qualifies.
pub fn workspace_at(root: String, declared: &Vec<String>, present: &Vec<bool>) -> (r: Option<PataWorkspace>)
    requires
        declared.len() == present.len(),
    ensures
        match r {
            Some(ws) => {
                &&& ws.root@ == root@
                &&& ws.members@.len() > 0
                &&& crate::text::strictly_sorted(crate::text::views(ws.members@))
                &&& forall|x: Seq<char>| #[trigger] crate::text::views(ws.members@).contains(x)
                    <==> qualifies(declared@, present@, x)
            },
            None => forall|x: Seq<char>| !qualifies(declared@, present@, x),
        },
{
    let mut members: Vec<String> = Vec::new();
    let mut i: usize = 0;
    while i < declared.len()
        invariant
            i <= declared.len(),
            declared.len() == present.len(),
            crate::text::strictly_sorted(crate::text::views(members@)),
            forall|x: Seq<char>| #[trigger] crate::text::views(members@).contains(x)
                <==> qualifies(declared@.subrange(0, i as int), present@.subrange(0, i as int), x),
        decreases declared.len() - i,
    {
        let ghost before = crate::text::views(members@);
        if present[i] {
            crate::text::insert_sorted_unique(&mut members, declared[i].clone());
        }
        proof {
            let d1 = declared@.subrange(0, i + 1);
            let p1 = present@.subrange(0, i + 1);
            assert forall|x: Seq<char>| #[trigger] crate::text::views(members@).contains(x)
                <==> qualifies(d1, p1, x) by {
                if qualifies(d1, p1, x) {
                    let k = choose|k: int| 0 <= k < d1.len() && p1[k] && #[trigger] d1[k]@ == x;
                    if k < i {
                        assert(declared@.subrange(0, i as int)[k] == d1[k]);
                        assert(qualifies(declared@.subrange(0, i as int), present@.subrange(0, i as int), x));
                    }
                }
                if qualifies(declared@.subrange(0, i as int), present@.subrange(0, i as int), x) {
                    let k = choose|k: int| 0 <= k < i && present@.subrange(0, i as int)[k]
                        && #[trigger] declared@.subrange(0, i as int)[k]@ == x;
                    assert(d1[k] == declared@[k]);
                    assert(qualifies(d1, p1, x));
                }
                if present[i as int] && x == declared@[i as int]@ {
                    assert(d1[i as int] == declared@[i as int]);
                    assert(qualifies(d1, p1, x));
                }
            }
        }
        i = i + 1;
    }
    assert(declared@.subrange(0, declared.len() as int) =~= declared@);
    assert(present@.subrange(0, present.len() as int) =~= present@);
    if members.len() == 0 {
        assert forall|x: Seq<char>| !qualifies(declared@, present@, x) by {
            if qualifies(declared@, present@, x) {
                assert(!crate::text::views(members@).contains(x));
            }
        }
        None
    } else {
        Some(PataWorkspace { root, members })
    }
}

} // verus!
