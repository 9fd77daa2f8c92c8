//! Lint rules over a parsed module and its source text: naming conventions (LINT001-003),
//! long functions (LINT101), undocumented functions (LINT202) and unused selective imports
//! (LINT203), with the string-literal scan used for repeated-literal detection.

use vstd::prelude::*;
use crate::lint_config::{enabled_spec, option_spec, LintConfig, OptionValue};
use crate::outline::{FnDecl, ModuleOutline};
use crate::text::{
    char_is_alphanumeric, char_is_lowercase, char_is_numeric, char_is_uppercase, chars_of,
    concat3, decimal_chars, decimal_text, is_alphanumeric, is_lowercase, is_numeric,
    is_uppercase, lines_of, occurs_at, push_all, string_of, word_char, LineReader,
};

verus! {

/// A lint finding: rule code, message, stage, and the 1-based line and column it points at
/// (line 0 when it has no position).
#[derive(Clone, Debug)]
pub struct LintDiagnostic {
    pub code: String,
    pub message: String,
    pub stage: String,
    pub line: usize,
    pub column: usize,
}

/// A finding as plain values: code, message, line, column (the stage is always `ukaguzi`).
pub type DiagView = (Seq<char>, Seq<char>, usize, usize);

pub open spec fn diag_view(d: LintDiagnostic) -> DiagView {
    (d.code@, d.message@, d.line, d.column)
}

pub open spec fn diags_view(d: Seq<LintDiagnostic>) -> Seq<DiagView> {
    d.map_values(|x: LintDiagnostic| diag_view(x))
}

/// Every finding is in the `ukaguzi` stage.
pub open spec fn all_linting_stage(d: Seq<LintDiagnostic>) -> bool {
    forall|i: int| 0 <= i < d.len() ==> (#[trigger] d[i]).stage@ == "ukaguzi"@
}

impl LintDiagnostic {
    /// A copy of this finding.
    pub fn clone_diag(&self) -> (r: LintDiagnostic)
        ensures
            r == *self,
    {
        LintDiagnostic {
            code: self.code.clone(),
            message: self.message.clone(),
            stage: self.stage.clone(),
            line: self.line,
            column: self.column,
        }
    }
}

fn diagnostic(code: &str, message: String, line: usize) -> (r: LintDiagnostic)
    ensures
        diag_view(r) == (code@, message@, line, 1usize),
        r.stage@ == "ukaguzi"@,
{
    LintDiagnostic { code: code.to_string(), message, stage: "ukaguzi".to_string(), line, column: 1 }
}

// ---------------------------------------------------------------------------------------------
// Naming
// ---------------------------------------------------------------------------------------------

/// Non-empty, and every character lowercase, `_` or numeric.
pub open spec fn snake_case(s: Seq<char>) -> bool {
    s.len() > 0 && forall|i: int|
        0 <= i < s.len() ==> char_is_lowercase(#[trigger] s[i]) || s[i] == '_' || char_is_numeric(
            s[i],
        )
}

/// Non-empty, an uppercase first character, then only alphanumerics and `_`.
pub open spec fn pascal_case(s: Seq<char>) -> bool {
    s.len() > 0 && char_is_uppercase(s[0]) && forall|i: int|
        1 <= i < s.len() ==> char_is_alphanumeric(#[trigger] s[i]) || s[i] == '_'
}

/// Non-empty, and every character uppercase, `_` or numeric.
pub open spec fn upper_case(s: Seq<char>) -> bool {
    s.len() > 0 && forall|i: int|
        0 <= i < s.len() ==> char_is_uppercase(#[trigger] s[i]) || s[i] == '_' || char_is_numeric(
            s[i],
        )
}

/// Non-empty and holding at least one non-ASCII character.
pub open spec fn swahili_name(s: Seq<char>) -> bool {
    s.len() > 0 && exists|i: int| 0 <= i < s.len() && (#[trigger] s[i]) > '\x7f'
}

pub fn is_snake_case(s: &str) -> (r: bool)
    ensures
        r == snake_case(s@),
{
    let v = chars_of(s);
    if v.len() == 0 {
        return false;
    }
    let mut i: usize = 0;
    while i < v.len()
        invariant
            i <= v.len(),
            v@ == s@,
            forall|k: int|
                0 <= k < i ==> char_is_lowercase(#[trigger] v@[k]) || v@[k] == '_'
                    || char_is_numeric(v@[k]),
        decreases v.len() - i,
    {
        let c = v[i];
        if !(is_lowercase(c) || c == '_' || is_numeric(c)) {
            return false;
        }
        i = i + 1;
    }
    true
}

pub fn is_pascal_case(s: &str) -> (r: bool)
    ensures
        r == pascal_case(s@),
{
    let v = chars_of(s);
    if v.len() == 0 || !is_uppercase(v[0]) {
        return false;
    }
    let mut i: usize = 1;
    while i < v.len()
        invariant
            1 <= i <= v.len(),
            v@ == s@,
            forall|k: int| 1 <= k < i ==> char_is_alphanumeric(#[trigger] v@[k]) || v@[k] == '_',
        decreases v.len() - i,
    {
        let c = v[i];
        if !(is_alphanumeric(c) || c == '_') {
            return false;
        }
        i = i + 1;
    }
    true
}

pub fn is_upper_case(s: &str) -> (r: bool)
    ensures
        r == upper_case(s@),
{
    let v = chars_of(s);
    if v.len() == 0 {
        return false;
    }
    let mut i: usize = 0;
    while i < v.len()
        invariant
            i <= v.len(),
            v@ == s@,
            forall|k: int|
                0 <= k < i ==> char_is_uppercase(#[trigger] v@[k]) || v@[k] == '_'
                    || char_is_numeric(v@[k]),
        decreases v.len() - i,
    {
        let c = v[i];
        if !(is_uppercase(c) || c == '_' || is_numeric(c)) {
            return false;
        }
        i = i + 1;
    }
    true
}

pub fn is_swahili(s: &str) -> (r: bool)
    ensures
        r == swahili_name(s@),
{
    let v = chars_of(s);
    let mut i: usize = 0;
    while i < v.len()
        invariant
            i <= v.len(),
            v@ == s@,
            forall|k: int| 0 <= k < i ==> (#[trigger] v@[k]) <= '\x7f',
        decreases v.len() - i,
    {
        if v[i] > '\x7f' {
            assert(v@[i as int] > '\x7f');
            return true;
        }
        i = i + 1;
    }
    false
}

/// LINT001 findings: functions named neither snake_case nor with Swahili characters.
pub open spec fn fn_naming_diags(fs: Seq<FnDecl>) -> Seq<DiagView>
    decreases fs.len(),
{
    if fs.len() == 0 {
        Seq::empty()
    } else {
        let rest = fn_naming_diags(fs.drop_last());
        let f = fs.last();
        if !snake_case(f.name@) && !swahili_name(f.name@) {
            rest.push(
                (
                    "LINT001"@,
                    "jina la kazi '"@ + f.name@ + "' linapaswa kuwa snake_case au Kiswahili"@,
                    f.line,
                    1usize,
                ),
            )
        } else {
            rest
        }
    }
}

/// LINT002 findings: structs not named in PascalCase.
pub open spec fn struct_naming_diags(ss: Seq<crate::outline::StructDecl>) -> Seq<DiagView>
    decreases ss.len(),
{
    if ss.len() == 0 {
        Seq::empty()
    } else {
        let rest = struct_naming_diags(ss.drop_last());
        let s = ss.last();
        if !pascal_case(s.name@) {
            rest.push(
                ("LINT002"@, "jina la umbo '"@ + s.name@ + "' linapaswa kuwa PascalCase"@, s.line, 1usize),
            )
        } else {
            rest
        }
    }
}

/// The LINT001 finding for a function.
pub open spec fn fn_finding(x: FnDecl) -> DiagView {
    ("LINT001"@, "jina la kazi '"@ + x.name@ + "' linapaswa kuwa snake_case au Kiswahili"@, x.line, 1usize)
}

/// An acceptable function name: non-empty and either snake_case (only lowercase letters, digits
/// and `_`) or Swahili-style (holding some non-ASCII character).
pub open spec fn fn_name_ok(n: Seq<char>) -> bool {
    n.len() > 0 && ((forall|i: int| 0 <= i < n.len() ==> char_is_lowercase(#[trigger] n[i]) || char_is_numeric(n[i]) || n[i] == '_')
        || (exists|i: int| 0 <= i < n.len() && (#[trigger] n[i]) > '\x7f'))
}

/// Function names are checked: a function is reported (LINT001, on its line) exactly when its
/// name is neither snake_case nor Swahili-style; every finding is for such a function.
pub proof fn law_fn_naming(xs: Seq<FnDecl>)
    ensures
        forall|j: int| 0 <= j < xs.len() && !fn_name_ok((#[trigger] xs[j]).name@) ==> exists|k: int|
            0 <= k < fn_naming_diags(xs).len() && fn_naming_diags(xs)[k] == fn_finding(xs[j]),
        forall|k: int| 0 <= k < fn_naming_diags(xs).len() ==> exists|j: int|
            0 <= j < xs.len() && !fn_name_ok(xs[j].name@) && #[trigger] fn_naming_diags(xs)[k] == fn_finding(xs[j]),
    decreases xs.len(),
{
    if xs.len() > 0 {
        let init = xs.drop_last();
        let n = xs.len() - 1;
        law_fn_naming(init);
        let rest = fn_naming_diags(init);
        let d = fn_naming_diags(xs);
        assert((!snake_case(xs[n].name@) && !swahili_name(xs[n].name@)) == !fn_name_ok(xs[n].name@));
        assert forall|j: int| 0 <= j < xs.len() && !fn_name_ok((#[trigger] xs[j]).name@) implies exists|k: int|
            0 <= k < d.len() && d[k] == fn_finding(xs[j]) by {
            if j < n {
                assert(init[j] == xs[j]);
                let k = choose|k: int| 0 <= k < rest.len() && rest[k] == fn_finding(init[j]);
                assert(d[k] == rest[k]);
            } else {
                assert(d[rest.len() as int] == fn_finding(xs[n]));
            }
        }
        assert forall|k: int| 0 <= k < d.len() implies exists|j: int|
            0 <= j < xs.len() && !fn_name_ok(xs[j].name@) && #[trigger] d[k] == fn_finding(xs[j]) by {
            if k < rest.len() {
                assert(d[k] == rest[k]);
                let j = choose|j: int| 0 <= j < init.len() && !fn_name_ok(init[j].name@) && #[trigger] rest[k]
                    == fn_finding(init[j]);
                assert(init[j] == xs[j]);
            } else {
                assert(d[k] == fn_finding(xs[n]));
            }
        }
    }
}

/// The LINT003 finding for a constant.
pub open spec fn const_finding(x: crate::outline::ConstDecl) -> DiagView {
    ("LINT003"@, "jina la thabiti '"@ + x.name@ + "' linapaswa kuwa UPPER_CASE"@, x.line, 1usize)
}

/// An UPPER_CASE constant name: non-empty, only uppercase letters, digits and `_`.
pub open spec fn const_name_ok(n: Seq<char>) -> bool {
    n.len() > 0 && forall|i: int| 0 <= i < n.len() ==> char_is_uppercase(#[trigger] n[i]) || char_is_numeric(n[i]) || n[i] == '_'
}

/// Constant names are checked: a constant is reported (LINT003, on its line) exactly when its
/// name is not UPPER_CASE; every finding is for such a constant.
pub proof fn law_const_naming(xs: Seq<crate::outline::ConstDecl>)
    ensures
        forall|j: int| 0 <= j < xs.len() && !const_name_ok((#[trigger] xs[j]).name@) ==> exists|k: int|
            0 <= k < const_naming_diags(xs).len() && const_naming_diags(xs)[k] == const_finding(xs[j]),
        forall|k: int| 0 <= k < const_naming_diags(xs).len() ==> exists|j: int|
            0 <= j < xs.len() && !const_name_ok(xs[j].name@) && #[trigger] const_naming_diags(xs)[k] == const_finding(xs[j]),
    decreases xs.len(),
{
    if xs.len() > 0 {
        let init = xs.drop_last();
        let n = xs.len() - 1;
        law_const_naming(init);
        let rest = const_naming_diags(init);
        let d = const_naming_diags(xs);
        assert(upper_case(xs[n].name@) == const_name_ok(xs[n].name@));
        assert forall|j: int| 0 <= j < xs.len() && !const_name_ok((#[trigger] xs[j]).name@) implies exists|k: int|
            0 <= k < d.len() && d[k] == const_finding(xs[j]) by {
            if j < n {
                assert(init[j] == xs[j]);
                let k = choose|k: int| 0 <= k < rest.len() && rest[k] == const_finding(init[j]);
                assert(d[k] == rest[k]);
            } else {
                assert(d[rest.len() as int] == const_finding(xs[n]));
            }
        }
        assert forall|k: int| 0 <= k < d.len() implies exists|j: int|
            0 <= j < xs.len() && !const_name_ok(xs[j].name@) && #[trigger] d[k] == const_finding(xs[j]) by {
            if k < rest.len() {
                assert(d[k] == rest[k]);
                let j = choose|j: int| 0 <= j < init.len() && !const_name_ok(init[j].name@) && #[trigger] rest[k]
                    == const_finding(init[j]);
                assert(init[j] == xs[j]);
            } else {
                assert(d[k] == const_finding(xs[n]));
            }
        }
    }
}

/// The LINT002 finding for a struct.
pub open spec fn struct_finding(s: crate::outline::StructDecl) -> DiagView {
    ("LINT002"@, "jina la umbo '"@ + s.name@ + "' linapaswa kuwa PascalCase"@, s.line, 1usize)
}

/// A struct name in PascalCase: non-empty, an uppercase first character, and after it only
/// letters, digits and `_`.
pub open spec fn pascal_shaped(n: Seq<char>) -> bool {
    &&& n.len() > 0
    &&& char_is_uppercase(n[0])
    &&& forall|i: int| 1 <= i < n.len() ==> crate::text::char_is_alphabetic(#[trigger] n[i]) || char_is_numeric(n[i]) || n[i] == '_'
}

/// Struct names are checked for PascalCase: a struct is reported (LINT002, on its line) exactly
/// when its name is not PascalCase; every finding is for such a struct, and a PascalCase name
/// such as `Mtu` is never reported.
pub proof fn law_struct_naming(ss: Seq<crate::outline::StructDecl>)
    ensures
        forall|j: int| 0 <= j < ss.len() && !pascal_shaped((#[trigger] ss[j]).name@) ==> exists|k: int|
            0 <= k < struct_naming_diags(ss).len() && struct_naming_diags(ss)[k] == struct_finding(ss[j]),
        forall|k: int| 0 <= k < struct_naming_diags(ss).len() ==> exists|j: int|
            0 <= j < ss.len() && !pascal_shaped(ss[j].name@) && #[trigger] struct_naming_diags(ss)[k]
                == struct_finding(ss[j]),
    decreases ss.len(),
{
    if ss.len() > 0 {
        let init = ss.drop_last();
        let n = ss.len() - 1;
        law_struct_naming(init);
        let rest = struct_naming_diags(init);
        let d = struct_naming_diags(ss);
        assert(pascal_case(ss[n].name@) == pascal_shaped(ss[n].name@));
        assert forall|j: int| 0 <= j < ss.len() && !pascal_shaped((#[trigger] ss[j]).name@) implies exists|k: int|
            0 <= k < d.len() && d[k] == struct_finding(ss[j]) by {
            if j < n {
                assert(init[j] == ss[j]);
                let k = choose|k: int| 0 <= k < rest.len() && rest[k] == struct_finding(init[j]);
                assert(d[k] == rest[k]);
            } else {
                assert(d[rest.len() as int] == struct_finding(ss[n]));
            }
        }
        assert forall|k: int| 0 <= k < d.len() implies exists|j: int|
            0 <= j < ss.len() && !pascal_shaped(ss[j].name@) && #[trigger] d[k] == struct_finding(ss[j]) by {
            if k < rest.len() {
                assert(d[k] == rest[k]);
                let j = choose|j: int| 0 <= j < init.len() && !pascal_shaped(init[j].name@) && #[trigger] rest[k]
                    == struct_finding(init[j]);
                assert(init[j] == ss[j]);
            } else {
                assert(d[k] == struct_finding(ss[n]));
            }
        }
    }
}

/// LINT003 findings: constants not named in UPPER_CASE.
pub open spec fn const_naming_diags(cs: Seq<crate::outline::ConstDecl>) -> Seq<DiagView>
    decreases cs.len(),
{
    if cs.len() == 0 {
        Seq::empty()
    } else {
        let rest = const_naming_diags(cs.drop_last());
        let c = cs.last();
        if !upper_case(c.name@) {
            rest.push(
                (
                    "LINT003"@,
                    "jina la thabiti '"@ + c.name@ + "' linapaswa kuwa UPPER_CASE"@,
                    c.line,
                    1usize,
                ),
            )
        } else {
            rest
        }
    }
}

/// Naming findings: functions, then structs, then constants, each in declaration order.
pub fn check_naming_conventions(module: &ModuleOutline) -> (r: Vec<LintDiagnostic>)
    ensures
        diags_view(r@) == fn_naming_diags(module.functions@) + struct_naming_diags(
            module.structs@,
        ) + const_naming_diags(module.constants@),
        all_linting_stage(r@),
{
    let mut diags: Vec<LintDiagnostic> = Vec::new();
    let mut i: usize = 0;
    while i < module.functions.len()
        invariant
            i <= module.functions.len(),
            diags_view(diags@) == fn_naming_diags(module.functions@.subrange(0, i as int)),
            all_linting_stage(diags@),
        decreases module.functions.len() - i,
    {
        let ghost before = diags_view(diags@);
        let f = &module.functions[i];
        assert(module.functions@.subrange(0, i + 1).drop_last() =~= module.functions@.subrange(
            0,
            i as int,
        ));
        if !is_snake_case(f.name.as_str()) && !is_swahili(f.name.as_str()) {
            let n = chars_of(f.name.as_str());
            let msg = concat3("jina la kazi '", n.as_slice(), "' linapaswa kuwa snake_case au Kiswahili");
            diags.push(diagnostic("LINT001", msg, f.line));
            assert(diags_view(diags@) =~= before.push(diag_view(diags@.last())));
        }
        i = i + 1;
    }
    assert(module.functions@.subrange(0, module.functions.len() as int) =~= module.functions@);
    let ghost after_fns = diags_view(diags@);
    let mut j: usize = 0;
    while j < module.structs.len()
        invariant
            j <= module.structs.len(),
            diags_view(diags@) == after_fns + struct_naming_diags(module.structs@.subrange(0, j as int)),
            all_linting_stage(diags@),
        decreases module.structs.len() - j,
    {
        let ghost before = diags_view(diags@);
        let s = &module.structs[j];
        assert(module.structs@.subrange(0, j + 1).drop_last() =~= module.structs@.subrange(0, j as int));
        if !is_pascal_case(s.name.as_str()) {
            let n = chars_of(s.name.as_str());
            let msg = concat3("jina la umbo '", n.as_slice(), "' linapaswa kuwa PascalCase");
            diags.push(diagnostic("LINT002", msg, s.line));
            assert(diags_view(diags@) =~= before.push(diag_view(diags@.last())));
        }
        j = j + 1;
    }
    assert(module.structs@.subrange(0, module.structs.len() as int) =~= module.structs@);
    let ghost after_structs = diags_view(diags@);
    let mut k: usize = 0;
    while k < module.constants.len()
        invariant
            k <= module.constants.len(),
            diags_view(diags@) == after_structs + const_naming_diags(module.constants@.subrange(0, k as int)),
            all_linting_stage(diags@),
        decreases module.constants.len() - k,
    {
        let ghost before = diags_view(diags@);
        let c = &module.constants[k];
        assert(module.constants@.subrange(0, k + 1).drop_last() =~= module.constants@.subrange(0, k as int));
        if !is_upper_case(c.name.as_str()) {
            let n = chars_of(c.name.as_str());
            let msg = concat3("jina la thabiti '", n.as_slice(), "' linapaswa kuwa UPPER_CASE");
            diags.push(diagnostic("LINT003", msg, c.line));
            assert(diags_view(diags@) =~= before.push(diag_view(diags@.last())));
        }
        k = k + 1;
    }
    assert(module.constants@.subrange(0, module.constants.len() as int) =~= module.constants@);
    diags
}

// ---------------------------------------------------------------------------------------------
// Style
// ---------------------------------------------------------------------------------------------

/// Functions with more statements than this are flagged by LINT101 by default.
pub const DEFAULT_LINE_LIMIT: usize = 50;

/// LINT101 findings for a statement limit.
pub open spec fn long_fn_diags(fs: Seq<FnDecl>, limit: usize) -> Seq<DiagView>
    decreases fs.len(),
{
    if fs.len() == 0 {
        Seq::empty()
    } else {
        let rest = long_fn_diags(fs.drop_last(), limit);
        let f = fs.last();
        if f.statement_count > limit {
            rest.push(
                (
                    "LINT101"@,
                    "kazi '"@ + f.name@ + "' ina kauli "@ + decimal_text(f.statement_count as nat)
                        + " — fikiria kuigawanya"@,
                    f.line,
                    1usize,
                ),
            )
        } else {
            rest
        }
    }
}

/// Flag every function with more than `line_limit` statements.
pub fn check_style_issues_with_limit(module: &ModuleOutline, line_limit: usize) -> (r: Vec<
    LintDiagnostic,
>)
    ensures
        diags_view(r@) == long_fn_diags(module.functions@, line_limit),
        all_linting_stage(r@),
{
    let mut diags: Vec<LintDiagnostic> = Vec::new();
    let mut i: usize = 0;
    while i < module.functions.len()
        invariant
            i <= module.functions.len(),
            diags_view(diags@) == long_fn_diags(module.functions@.subrange(0, i as int), line_limit),
            all_linting_stage(diags@),
        decreases module.functions.len() - i,
    {
        let ghost before = diags_view(diags@);
        let f = &module.functions[i];
        assert(module.functions@.subrange(0, i + 1).drop_last() =~= module.functions@.subrange(
            0,
            i as int,
        ));
        if f.statement_count > line_limit {
            let mut m = chars_of("kazi '");
            push_all(&mut m, chars_of(f.name.as_str()).as_slice());
            push_all(&mut m, chars_of("' ina kauli ").as_slice());
            push_all(&mut m, decimal_chars(f.statement_count as u128).as_slice());
            push_all(&mut m, chars_of(" — fikiria kuigawanya").as_slice());
            diags.push(diagnostic("LINT101", string_of(m.as_slice()), f.line));
            assert(diags_view(diags@) =~= before.push(diag_view(diags@.last())));
        }
        i = i + 1;
    }
    assert(module.functions@.subrange(0, module.functions.len() as int) =~= module.functions@);
    diags
}

/// LINT101 with the default limit.
pub fn check_style_issues(module: &ModuleOutline) -> (r: Vec<LintDiagnostic>)
    ensures
        diags_view(r@) == long_fn_diags(module.functions@, DEFAULT_LINE_LIMIT),
        all_linting_stage(r@),
{
    check_style_issues_with_limit(module, DEFAULT_LINE_LIMIT)
}

/// No logic rule is implemented yet: no findings.
pub fn check_logic_errors(_module: &ModuleOutline) -> (r: Vec<LintDiagnostic>)
    ensures
        r@.len() == 0,
{
    Vec::new()
}

// ---------------------------------------------------------------------------------------------
// Source scans
// ---------------------------------------------------------------------------------------------

/// The literal read from `l` at `j` (just after an opening quote) and the index after it: up
/// to the closing quote or the end of the line, a backslash keeping itself and the next
/// character.
pub open spec fn read_literal(l: Seq<char>, j: int, acc: Seq<char>) -> (Seq<char>, int)
    decreases l.len() - j,
{
    if j < 0 || j >= l.len() {
        (acc, l.len() as int)
    } else if l[j] == '"' {
        (acc, j + 1)
    } else if l[j] == '\\' {
        if j + 1 < l.len() {
            read_literal(l, j + 2, acc + seq!['\\', l[j + 1]])
        } else {
            (acc, l.len() as int)
        }
    } else {
        read_literal(l, j + 1, acc.push(l[j]))
    }
}

pub proof fn lemma_read_literal_advances(l: Seq<char>, j: int, acc: Seq<char>)
    requires
        0 <= j,
    ensures
        read_literal(l, j, acc).1 > j || (j >= l.len() && read_literal(l, j, acc).1 == l.len()),
        read_literal(l, j, acc).1 <= l.len() || j > l.len(),
    decreases l.len() - j,
{
    if j < l.len() && l[j] != '"' {
        if l[j] == '\\' {
            if j + 1 < l.len() {
                lemma_read_literal_advances(l, j + 2, acc + seq!['\\', l[j + 1]]);
            }
        } else {
            lemma_read_literal_advances(l, j + 1, acc.push(l[j]));
        }
    }
}

/// The string literals of one line from index `i` on; a `#` not followed by `[` starts a
/// comment that ends the line.
pub open spec fn line_literals(l: Seq<char>, i: int) -> Seq<Seq<char>>
    decreases l.len() - i,
{
    if i < 0 || i >= l.len() {
        Seq::empty()
    } else if l[i] == '#' && !(i + 1 < l.len() && l[i + 1] == '[') {
        Seq::empty()
    } else if l[i] != '"' {
        line_literals(l, i + 1)
    } else {
        let r = read_literal(l, i + 1, Seq::empty());
        proof {
            lemma_read_literal_advances(l, i + 1, Seq::empty());
        }
        seq![r.0] + line_literals(l, r.1)
    }
}

/// The string literals of all lines, in source order.
pub open spec fn all_literals(lines: Seq<Seq<char>>) -> Seq<Seq<char>>
    decreases lines.len(),
{
    if lines.len() == 0 {
        Seq::empty()
    } else {
        all_literals(lines.drop_last()) + line_literals(lines.last(), 0)
    }
}

fn read_literal_exec(l: &Vec<char>, start: usize) -> (r: (Vec<char>, usize))
    requires
        start <= l.len(),
    ensures
        (r.0@, r.1 as int) == read_literal(l@, start as int, Seq::empty()),
        r.1 <= l.len(),
{
    let mut acc: Vec<char> = Vec::new();
    let mut j = start;
    proof {
        lemma_read_literal_advances(l@, start as int, Seq::empty());
    }
    while j < l.len()
        invariant
            start <= j <= l.len(),
            read_literal(l@, j as int, acc@) == read_literal(l@, start as int, Seq::empty()),
        decreases l.len() - j,
    {
        let c = l[j];
        if c == '"' {
            return (acc, j + 1);
        } else if c == '\\' {
            if j + 1 < l.len() {
                let ghost before = acc@;
                acc.push('\\');
                acc.push(l[j + 1]);
                assert(acc@ =~= before + seq!['\\', l@[j + 1]]);
                j = j + 2;
            } else {
                return (acc, l.len());
            }
        } else {
            acc.push(c);
            j = j + 1;
        }
    }
    (acc, l.len())
}

fn line_literals_exec(l: &Vec<char>, out: &mut Vec<String>)
    ensures
        crate::text::views(final(out)@) == crate::text::views(old(out)@) + line_literals(l@, 0),
{
    let mut i: usize = 0;
    let ghost base = crate::text::views(out@);
    while i < l.len()
        invariant
            i <= l.len(),
            base == crate::text::views(old(out)@),
            base + line_literals(l@, 0) == crate::text::views(out@) + line_literals(l@, i as int),
        decreases l.len() - i,
    {
        let c = l[i];
        if c == '#' && !(i + 1 < l.len() && l[i + 1] == '[') {
            assert(line_literals(l@, i as int) =~= Seq::<Seq<char>>::empty());
            assert(crate::text::views(out@) + line_literals(l@, i as int) =~= crate::text::views(out@));
            return;
        } else if c != '"' {
            i = i + 1;
        } else {
            let ghost before = crate::text::views(out@);
            let (lit, next) = read_literal_exec(l, i + 1);
            proof {
                lemma_read_literal_advances(l@, i + 1, Seq::empty());
            }
            out.push(string_of(lit.as_slice()));
            assert(crate::text::views(out@) =~= before.push(lit@));
            assert(before + line_literals(l@, i as int) =~= crate::text::views(out@) + line_literals(l@, next as int));
            i = next;
        }
    }
    assert(line_literals(l@, i as int) =~= Seq::<Seq<char>>::empty());
    assert(crate::text::views(out@) + line_literals(l@, i as int) =~= crate::text::views(out@));
}

/// The contents of every `"..."` literal in `source`, in order (escapes kept as written), not
/// counting those inside `#` line comments.
pub fn extract_string_literals(source: &str) -> (r: Vec<String>)
    ensures
        crate::text::views(r@) == all_literals(lines_of(source@)),
{
    let mut out: Vec<String> = Vec::new();
    let mut reader = LineReader::new(source);
    let ghost all = lines_of(source@);
    let ghost mut done: Seq<Seq<char>> = Seq::empty();
    assert(done + reader.rest() =~= all);
    assert(crate::text::views(out@) =~= all_literals(done));
    loop
        invariant
            done + reader.rest() == all,
            crate::text::views(out@) == all_literals(done),
        ensures
            done == all,
        decreases reader.rest().len(),
    {
        let ghost rest_before = reader.rest();
        match reader.next_line() {
            None => {
                assert(done =~= all);
                break;
            },
            Some(line) => {
                let ghost d2 = done.push(line@);
                proof {
                    assert(d2.drop_last() =~= done);
                    assert(d2 + reader.rest() =~= all) by {
                        assert(rest_before =~= seq![line@] + rest_before.drop_first());
                    }
                }
                line_literals_exec(&line, &mut out);
                proof {
                    done = d2;
                }
            },
        }
    }
    out
}

/// `name` occurs at `p` in `l` as a whole word: no word character right before or after it.
pub open spec fn whole_word_at(l: Seq<char>, name: Seq<char>, p: int) -> bool {
    &&& occurs_at(l, name, p)
    &&& (p == 0 || !word_char(l[p - 1]))
    &&& (p + name.len() >= l.len() || !word_char(l[p + name.len()]))
}

/// Whether `name` occurs as a whole word on some line other than the 1-based `import_line`.
pub open spec fn used_outside_spec(source: Seq<char>, name: Seq<char>, import_line: usize) -> bool {
    let lines = lines_of(source);
    exists|i: int, p: int|
        0 <= i < lines.len() && i + 1 != import_line && #[trigger] whole_word_at(lines[i], name, p)
}

fn word_at_line(l: &Vec<char>, name: &Vec<char>) -> (r: bool)
    ensures
        r == exists|p: int| whole_word_at(l@, name@, p),
{
    let mut p: usize = 0;
    while p < l.len()
        invariant
            p <= l.len(),
            forall|q: int| 0 <= q < p ==> !whole_word_at(l@, name@, q),
        decreases l.len() - p,
    {
        if crate::text::matches_at(l, p, name.as_slice()) {
            let before_ok = p == 0 || !(is_alphanumeric(l[p - 1]) || l[p - 1] == '_');
            let after = p + name.len();
            let after_ok = after >= l.len() || !(is_alphanumeric(l[after]) || l[after] == '_');
            if before_ok && after_ok {
                assert(whole_word_at(l@, name@, p as int));
                return true;
            }
        }
        p = p + 1;
    }
    if crate::text::matches_at(l, p, name.as_slice()) {
        let before_ok = p == 0 || !(is_alphanumeric(l[p - 1]) || l[p - 1] == '_');
        if before_ok {
            assert(whole_word_at(l@, name@, p as int));
            return true;
        }
    }
    assert forall|q: int| !whole_word_at(l@, name@, q) by {
        if q > p {
            assert(!occurs_at(l@, name@, q));
        }
    }
    false
}

/// Whether `name` appears as a whole word on any line of `source` other than `import_line`.
pub fn name_used_outside_import_line(source: &str, name: &str, import_line: usize) -> (r: bool)
    ensures
        r == used_outside_spec(source@, name@, import_line),
{
    let key = chars_of(name);
    let mut reader = LineReader::new(source);
    let ghost all = lines_of(source@);
    let ghost mut done: Seq<Seq<char>> = Seq::empty();
    let mut index: usize = 0;
    assert(done + reader.rest() =~= all);
    proof {
        crate::text::lemma_lines_from_len(source@, 0);
    }
    loop
        invariant
            done + reader.rest() == all,
            key@ == name@,
            index == done.len(),
            all == lines_of(source@),
            reader.text@ == source@,
            all.len() <= reader.text.len(),
            forall|i: int, p: int|
                0 <= i < done.len() && i + 1 != import_line ==> !#[trigger] whole_word_at(
                    all[i],
                    name@,
                    p,
                ),
        ensures
            done == all,
        decreases reader.rest().len(),
    {
        let ghost rest_before = reader.rest();
        match reader.next_line() {
            None => {
                assert(done =~= all);
                break;
            },
            Some(line) => {
                let ghost d2 = done.push(line@);
                proof {
                    assert(d2 + reader.rest() =~= all) by {
                        assert(rest_before =~= seq![line@] + rest_before.drop_first());
                    }
                    assert(all[done.len() as int] == line@);
                }
                if index + 1 != import_line && word_at_line(&line, &key) {
                    return true;
                }
                proof {
                    done = d2;
                }
                index = index + 1;
            },
        }
    }
    false
}

/// An attribute line (trimmed): `#[` ... `]`.
pub open spec fn attribute_line(t: Seq<char>) -> bool {
    crate::text::starts_with(t, "#["@) && crate::text::ends_with(t, "]"@)
}

/// The index of the first line at or above `i` that is not an attribute line (negative when
/// there is none).
pub open spec fn doc_line_index(lines: Seq<Seq<char>>, i: int) -> int
    decreases i + 1,
{
    if i >= 0 && i < lines.len() && attribute_line(crate::text::trim(lines[i])) {
        doc_line_index(lines, i - 1)
    } else {
        i
    }
}

/// Whether the function declared on the 1-based `line` has a `#` comment above it, attribute
/// lines in between skipped.
pub open spec fn has_doc_comment(lines: Seq<Seq<char>>, line: usize) -> bool {
    let i = doc_line_index(lines, line - 2);
    &&& 0 <= i < lines.len()
    &&& crate::text::starts_with(crate::text::trim(lines[i]), "#"@)
    &&& !crate::text::starts_with(crate::text::trim(lines[i]), "#["@)
}

/// Functions that need documentation: all but `kuu` and those named `test_...`.
pub open spec fn needs_doc(name: Seq<char>) -> bool {
    name != "kuu"@ && !crate::text::starts_with(name, "test_"@)
}

/// LINT202 findings.
pub open spec fn doc_diags(fs: Seq<FnDecl>, lines: Seq<Seq<char>>) -> Seq<DiagView>
    decreases fs.len(),
{
    if fs.len() == 0 {
        Seq::empty()
    } else {
        let rest = doc_diags(fs.drop_last(), lines);
        let f = fs.last();
        if needs_doc(f.name@) && !has_doc_comment(lines, f.line) {
            rest.push(doc_finding(f))
        } else {
            rest
        }
    }
}

/// The LINT202 finding for an undocumented function.
pub open spec fn doc_finding(f: FnDecl) -> DiagView {
    ("LINT202"@, "kazi '"@ + f.name@ + "' haina maelezo (doc comment)"@, f.line, 1usize)
}

/// Whether a function is reported as undocumented: it needs documentation and the nearest line
/// above it that is not an attribute is not a `#` comment.
pub open spec fn undocumented(f: FnDecl, lines: Seq<Seq<char>>) -> bool {
    needs_doc(f.name@) && !has_doc_comment(lines, f.line)
}

/// LINT202 is reported for each function that needs documentation (all but `kuu` and
/// `test_...`) and has no comment line above it, once each and in the functions' order, and
/// for nothing else.
pub proof fn law_doc_findings(fs: Seq<FnDecl>, lines: Seq<Seq<char>>)
    ensures
        forall|k: int| 0 <= k < doc_diags(fs, lines).len() ==> exists|j: int|
            0 <= j < fs.len() && undocumented(fs[j], lines) && #[trigger] doc_diags(fs, lines)[k] == doc_finding(fs[j]),
        forall|j: int| 0 <= j < fs.len() && #[trigger] undocumented(fs[j], lines) ==> exists|k: int|
            0 <= k < doc_diags(fs, lines).len() && doc_diags(fs, lines)[k] == doc_finding(fs[j]),
        doc_diags(fs, lines).len() <= fs.len(),
    decreases fs.len(),
{
    if fs.len() > 0 {
        let init = fs.drop_last();
        let n = fs.len() - 1;
        law_doc_findings(init, lines);
        let rest = doc_diags(init, lines);
        let d = doc_diags(fs, lines);
        assert forall|k: int| 0 <= k < d.len() implies exists|j: int|
            0 <= j < fs.len() && undocumented(fs[j], lines) && #[trigger] d[k] == doc_finding(fs[j]) by {
            if k < rest.len() {
                assert(d[k] == rest[k]);
                let j = choose|j: int| 0 <= j < init.len() && undocumented(init[j], lines) && #[trigger] rest[k] == doc_finding(init[j]);
                assert(init[j] == fs[j]);
            } else {
                assert(d[k] == doc_finding(fs[n]));
            }
        }
        assert forall|j: int| 0 <= j < fs.len() && #[trigger] undocumented(fs[j], lines) implies exists|k: int|
            0 <= k < d.len() && d[k] == doc_finding(fs[j]) by {
            if j < n {
                assert(init[j] == fs[j]);
                assert(undocumented(init[j], lines));
                let k = choose|k: int| 0 <= k < rest.len() && rest[k] == doc_finding(init[j]);
                assert(d[k] == rest[k]);
            } else {
                assert(d[rest.len() as int] == doc_finding(fs[n]));
            }
        }
    }
}

/// Every function's line lies within the source.
pub open spec fn lines_within(fs: Seq<FnDecl>, lines: Seq<Seq<char>>) -> bool {
    forall|i: int| 0 <= i < fs.len() ==> (#[trigger] fs[i]).line <= lines.len()
}

fn trimmed(l: &Vec<char>) -> (r: Vec<char>)
    ensures
        r@ == crate::text::trim(l@),
{
    let (a, b) = crate::text::trim_bounds(l, 0, l.len());
    assert(l@.subrange(0, l@.len() as int) =~= l@);
    crate::text::slice_vec(l, a, b)
}

fn starts_lit(v: &Vec<char>, p: &str) -> (r: bool)
    ensures
        r == crate::text::starts_with(v@, p@),
{
    let w = chars_of(p);
    let r = crate::text::matches_at(v, 0, w.as_slice());
    proof {
        if crate::text::starts_with(v@, p@) {
            assert(occurs_at(v@, w@, 0));
        }
    }
    r
}

fn ends_lit(v: &Vec<char>, p: &str) -> (r: bool)
    ensures
        r == crate::text::ends_with(v@, p@),
{
    let w = chars_of(p);
    w.len() <= v.len() && crate::text::matches_at(v, v.len() - w.len(), w.as_slice())
}

fn all_lines(source: &str) -> (r: Vec<Vec<char>>)
    ensures
        r@.map_values(|l: Vec<char>| l@) == lines_of(source@),
{
    let mut out: Vec<Vec<char>> = Vec::new();
    let mut reader = LineReader::new(source);
    let ghost all = lines_of(source@);
    assert(out@.map_values(|l: Vec<char>| l@) + reader.rest() =~= all);
    loop
        invariant
            out@.map_values(|l: Vec<char>| l@) + reader.rest() == all,
        ensures
            out@.map_values(|l: Vec<char>| l@) == all,
        decreases reader.rest().len(),
    {
        let ghost rest_before = reader.rest();
        let ghost before = out@.map_values(|l: Vec<char>| l@);
        match reader.next_line() {
            None => {
                assert(before =~= all);
                break;
            },
            Some(line) => {
                let ghost lv = line@;
                out.push(line);
                assert(out@.map_values(|l: Vec<char>| l@) =~= before.push(lv));
                assert(out@.map_values(|l: Vec<char>| l@) + reader.rest() =~= all) by {
                    assert(rest_before =~= seq![lv] + rest_before.drop_first());
                }
            },
        }
    }
    out
}

/// Flag each function (other than `kuu` and `test_...`) with no `#` comment directly above it
/// (attribute lines in between are skipped).
pub fn check_doc_comments(module: &ModuleOutline, source: &str) -> (r: Vec<LintDiagnostic>)
    requires
        lines_within(module.functions@, lines_of(source@)),
    ensures
        diags_view(r@) == doc_diags(module.functions@, lines_of(source@)),
        all_linting_stage(r@),
{
    let lines = all_lines(source);
    let ghost lv = lines@.map_values(|l: Vec<char>| l@);
    let mut diags: Vec<LintDiagnostic> = Vec::new();
    let mut k: usize = 0;
    while k < module.functions.len()
        invariant
            k <= module.functions.len(),
            lv == lines@.map_values(|l: Vec<char>| l@),
            lv == lines_of(source@),
            lines_within(module.functions@, lv),
            diags_view(diags@) == doc_diags(module.functions@.subrange(0, k as int), lv),
            all_linting_stage(diags@),
        decreases module.functions.len() - k,
    {
        let ghost before = diags_view(diags@);
        let f = &module.functions[k];
        assert(module.functions@.subrange(0, k + 1).drop_last() =~= module.functions@.subrange(
            0,
            k as int,
        ));
        assert(f.line <= lv.len());
        let name = chars_of(f.name.as_str());
        let exempt = crate::text::eq_lit(&name, "kuu") || starts_lit(&name, "test_");
        if !exempt {
            // Index of the line above the declaration, skipping attribute lines.
            let mut found: bool = false;
            let mut i: usize = 0;
            if f.line >= 2 {
                i = f.line - 2;
                found = true;
            }
            proof {
                if !found {
                    assert(f.line - 2 < 0);
                }
            }
            while found && attribute_here(&lines, i)
                invariant
                    lv == lines@.map_values(|l: Vec<char>| l@),
                    found ==> i < lines.len(),
                    f.line <= lv.len(),
                    found ==> doc_line_index(lv, f.line - 2) == doc_line_index(lv, i as int),
                    !found ==> doc_line_index(lv, f.line - 2) < 0,
                decreases (if found { i as int + 1 } else { 0 }),
            {
                if i == 0 {
                    found = false;
                    assert(doc_line_index(lv, -1) == -1);
                } else {
                    i = i - 1;
                }
            }
            let has_doc = found && {
                let t = trimmed(&lines[i]);
                starts_lit(&t, "#") && !starts_lit(&t, "#[")
            };
            proof {
                if found {
                    assert(lv[i as int] == lines@[i as int]@);
                }
            }
            if !has_doc {
                let msg = concat3("kazi '", name.as_slice(), "' haina maelezo (doc comment)");
                diags.push(diagnostic("LINT202", msg, f.line));
                assert(diags_view(diags@) =~= before.push(diag_view(diags@.last())));
            }
        }
        k = k + 1;
    }
    assert(module.functions@.subrange(0, module.functions.len() as int) =~= module.functions@);
    diags
}

/// Whether line `i` exists and is an attribute line.
fn attribute_here(lines: &Vec<Vec<char>>, i: usize) -> (r: bool)
    ensures
        r == (i < lines.len() && attribute_line(crate::text::trim(lines@[i as int]@))),
{
    if i >= lines.len() {
        return false;
    }
    let t = trimmed(&lines[i]);
    starts_lit(&t, "#[") && ends_lit(&t, "]")
}

/// LINT203 findings for one import's names.
pub open spec fn unused_name_diags(names: Seq<String>, source: Seq<char>, line: usize) -> Seq<DiagView>
    decreases names.len(),
{
    if names.len() == 0 {
        Seq::empty()
    } else {
        let rest = unused_name_diags(names.drop_last(), source, line);
        let n = names.last();
        if !used_outside_spec(source, n@, line) {
            rest.push(("LINT203"@, "'"@ + n@ + "' imeletwa lakini haitumiki popote"@, line, 1usize))
        } else {
            rest
        }
    }
}

/// LINT203 findings over all imports (only selective imports name anything).
pub open spec fn unused_import_diags(imports: Seq<crate::outline::ImportDecl>, source: Seq<char>) -> Seq<DiagView>
    decreases imports.len(),
{
    if imports.len() == 0 {
        Seq::empty()
    } else {
        let rest = unused_import_diags(imports.drop_last(), source);
        let imp = imports.last();
        match imp.names {
            Some(names) => rest + unused_name_diags(names@, source, imp.line),
            None => rest,
        }
    }
}

/// The LINT203 finding for a selectively imported name on the import at `line`.
pub open spec fn unused_finding(n: Seq<char>, line: usize) -> DiagView {
    ("LINT203"@, "'"@ + n + "' imeletwa lakini haitumiki popote"@, line, 1usize)
}

/// Whether some finding of `d` is `x`.
pub open spec fn reported(d: Seq<DiagView>, x: DiagView) -> bool {
    exists|k: int| 0 <= k < d.len() && #[trigger] d[k] == x
}

proof fn lemma_reported_append(a: Seq<DiagView>, b: Seq<DiagView>, x: DiagView)
    ensures
        reported(a + b, x) == (reported(a, x) || reported(b, x)),
{
    if reported(a, x) {
        let k = choose|k: int| 0 <= k < a.len() && #[trigger] a[k] == x;
        assert((a + b)[k] == a[k]);
    }
    if reported(b, x) {
        let k = choose|k: int| 0 <= k < b.len() && #[trigger] b[k] == x;
        assert((a + b)[a.len() + k] == b[k]);
    }
    if reported(a + b, x) {
        let k = choose|k: int| 0 <= k < (a + b).len() && #[trigger] (a + b)[k] == x;
        if k < a.len() {
            assert(a[k] == x);
        } else {
            assert(b[k - a.len()] == x);
        }
    }
}

/// One import's findings: a name is reported exactly when it is not used as a whole word on a
/// line other than the import's.
pub proof fn law_unused_name_findings(names: Seq<String>, source: Seq<char>, line: usize)
    ensures
        forall|j: int| 0 <= j < names.len() ==> (reported(
            unused_name_diags(names, source, line),
            unused_finding((#[trigger] names[j])@, line),
        ) <== !used_outside_spec(source, names[j]@, line)),
        forall|k: int| 0 <= k < unused_name_diags(names, source, line).len() ==> exists|j: int|
            0 <= j < names.len() && !used_outside_spec(source, names[j]@, line)
                && #[trigger] unused_name_diags(names, source, line)[k] == unused_finding(names[j]@, line),
    decreases names.len(),
{
    if names.len() > 0 {
        let init = names.drop_last();
        let n = names.last();
        law_unused_name_findings(init, source, line);
        let rest = unused_name_diags(init, source, line);
        let d = unused_name_diags(names, source, line);
        assert forall|j: int| 0 <= j < names.len() implies (reported(d, unused_finding((#[trigger] names[j])@, line))
            <== !used_outside_spec(source, names[j]@, line)) by {
            if !used_outside_spec(source, names[j]@, line) {
                if j < init.len() {
                    assert(init[j] == names[j]);
                    let k = choose|k: int| 0 <= k < rest.len() && #[trigger] rest[k] == unused_finding(init[j]@, line);
                    assert(d[k] == rest[k]);
                } else {
                    assert(d[rest.len() as int] == unused_finding(n@, line));
                }
            }
        }
        assert forall|k: int| 0 <= k < d.len() implies exists|j: int|
            0 <= j < names.len() && !used_outside_spec(source, names[j]@, line)
                && #[trigger] d[k] == unused_finding(names[j]@, line) by {
            if k < rest.len() {
                assert(d[k] == rest[k]);
                let j = choose|j: int| 0 <= j < init.len() && !used_outside_spec(source, init[j]@, line)
                    && #[trigger] rest[k] == unused_finding(init[j]@, line);
                assert(init[j] == names[j]);
            } else {
                assert(d[k] == unused_finding(n@, line));
                assert(names[names.len() - 1] == n);
            }
        }
    }
}

/// Over all imports: every selectively imported name that is not used as a whole word outside
/// its import line is reported, with its import's line.
pub proof fn law_unused_import_findings(imports: Seq<crate::outline::ImportDecl>, source: Seq<char>)
    ensures
        forall|i: int, j: int|
            0 <= i < imports.len() && imports[i].names is Some && 0 <= j < imports[i].names->0@.len()
                && !used_outside_spec(source, (#[trigger] imports[i].names->0@[j])@, imports[i].line) ==> reported(
                unused_import_diags(imports, source),
                unused_finding(imports[i].names->0@[j]@, imports[i].line),
            ),
    decreases imports.len(),
{
    if imports.len() > 0 {
        let init = imports.drop_last();
        let imp = imports.last();
        law_unused_import_findings(init, source);
        let rest = unused_import_diags(init, source);
        assert forall|i: int, j: int|
            0 <= i < imports.len() && imports[i].names is Some && 0 <= j < imports[i].names->0@.len()
                && !used_outside_spec(source, (#[trigger] imports[i].names->0@[j])@, imports[i].line) implies reported(
                unused_import_diags(imports, source),
                unused_finding(imports[i].names->0@[j]@, imports[i].line),
            ) by {
            let ns = imports[i].names->0;
            let x = unused_finding(ns@[j]@, imports[i].line);
            match imp.names {
                Some(last_names) => {
                    let here = unused_name_diags(last_names@, source, imp.line);
                    lemma_reported_append(rest, here, x);
                    if i < init.len() {
                        assert(init[i] == imports[i]);
                    } else {
                        law_unused_name_findings(last_names@, source, imp.line);
                        assert(last_names@[j] == ns@[j]);
                    }
                },
                None => {
                    assert(i < init.len());
                    assert(init[i] == imports[i]);
                },
            }
        }
    }
}

/// Full imports (`leta m;`) are never reported as unused: a source whose imports are all full
/// gets no LINT203 finding.
pub proof fn law_full_imports_unflagged(imports: Seq<crate::outline::ImportDecl>, source: Seq<char>)
    requires
        forall|i: int| 0 <= i < imports.len() ==> (#[trigger] imports[i]).names is None,
    ensures
        unused_import_diags(imports, source).len() == 0,
    decreases imports.len(),
{
    if imports.len() > 0 {
        let init = imports.drop_last();
        assert forall|i: int| 0 <= i < init.len() implies (#[trigger] init[i]).names is None by {
            assert(init[i] == imports[i]);
        }
        law_full_imports_unflagged(init, source);
        assert(imports[imports.len() - 1].names is None);
    }
}

/// Flag each selectively imported name that never appears as a whole word outside its import
/// line.
pub fn check_unused_imports(module: &ModuleOutline, source: &str) -> (r: Vec<LintDiagnostic>)
    ensures
        diags_view(r@) == unused_import_diags(module.imports@, source@),
        all_linting_stage(r@),
{
    let mut diags: Vec<LintDiagnostic> = Vec::new();
    let mut k: usize = 0;
    while k < module.imports.len()
        invariant
            k <= module.imports.len(),
            diags_view(diags@) == unused_import_diags(module.imports@.subrange(0, k as int), source@),
            all_linting_stage(diags@),
        decreases module.imports.len() - k,
    {
        let imp = &module.imports[k];
        assert(module.imports@.subrange(0, k + 1).drop_last() =~= module.imports@.subrange(0, k as int));
        match &imp.names {
            None => {},
            Some(names) => {
                let ghost base = diags_view(diags@);
                let mut j: usize = 0;
                while j < names.len()
                    invariant
                        j <= names.len(),
                        diags_view(diags@) == base + unused_name_diags(names@.subrange(0, j as int), source@, imp.line),
                        all_linting_stage(diags@),
                    decreases names.len() - j,
                {
                    let ghost before = diags_view(diags@);
                    assert(names@.subrange(0, j + 1).drop_last() =~= names@.subrange(0, j as int));
                    if !name_used_outside_import_line(source, names[j].as_str(), imp.line) {
                        let n = chars_of(names[j].as_str());
                        let msg = concat3("'", n.as_slice(), "' imeletwa lakini haitumiki popote");
                        diags.push(diagnostic("LINT203", msg, imp.line));
                        assert(diags_view(diags@) =~= before.push(diag_view(diags@.last())));
                    }
                    assert(base + unused_name_diags(names@.subrange(0, j + 1), source@, imp.line)
                        =~= diags_view(diags@)) by {
                    }
                    j = j + 1;
                }
                assert(names@.subrange(0, names.len() as int) =~= names@);
            },
        }
        k = k + 1;
    }
    assert(module.imports@.subrange(0, module.imports.len() as int) =~= module.imports@);
    diags
}

// ---------------------------------------------------------------------------------------------
// Repeated literals (LINT201)
// ---------------------------------------------------------------------------------------------

/// The literals that are not blank once trimmed.
pub open spec fn nonblank(lits: Seq<Seq<char>>) -> Seq<Seq<char>>
    decreases lits.len(),
{
    if lits.len() == 0 {
        Seq::empty()
    } else if crate::text::trim(lits.last()).len() == 0 {
        nonblank(lits.drop_last())
    } else {
        nonblank(lits.drop_last()).push(lits.last())
    }
}

/// How many times `s` occurs in `lits`.
pub open spec fn occurrences(lits: Seq<Seq<char>>, s: Seq<char>) -> nat
    decreases lits.len(),
{
    if lits.len() == 0 {
        0
    } else {
        occurrences(lits.drop_last(), s) + if lits.last() == s {
            1nat
        } else {
            0nat
        }
    }
}

/// `a` comes before `b` in the report: more occurrences first, then by the literal.
pub open spec fn ranks_before(a: (Seq<char>, nat), b: (Seq<char>, nat)) -> bool {
    a.1 > b.1 || (a.1 == b.1 && crate::text::str_less(a.0, b.0))
}

pub proof fn lemma_ranks_before(a: (Seq<char>, nat), b: (Seq<char>, nat), c: (Seq<char>, nat))
    ensures
        !ranks_before(a, a),
        a.0 != b.0 ==> ranks_before(a, b) || ranks_before(b, a),
        !(ranks_before(a, b) && ranks_before(b, a)),
        ranks_before(a, b) && ranks_before(b, c) ==> ranks_before(a, c),
{
    crate::text::lemma_str_less_order(a.0, b.0, c.0);
    crate::text::lemma_str_less_order(b.0, a.0, c.0);
}

/// `out` lists each literal repeated in `lits` once, with its count, best-ranked first.
pub open spec fn repeated_report(lits: Seq<Seq<char>>, out: Seq<(Seq<char>, nat)>) -> bool {
    &&& forall|i: int| 0 <= i < out.len() ==> (#[trigger] out[i]).1 == occurrences(lits, out[i].0) && out[i].1 > 1
    &&& forall|s: Seq<char>| #[trigger] occurrences(lits, s) > 1 ==> exists|i: int| 0 <= i < out.len() && #[trigger] out[i].0 == s
    &&& forall|i: int, j: int| 0 <= i < j < out.len() ==> ranks_before(#[trigger] out[i], #[trigger] out[j])
}

/// The views of character vectors.
pub open spec fn lit_views(v: Seq<Vec<char>>) -> Seq<Seq<char>> {
    v.map_values(|l: Vec<char>| l@)
}

proof fn lemma_occurrences_push(lits: Seq<Seq<char>>, x: Seq<char>, s: Seq<char>)
    ensures
        occurrences(lits.push(x), s) == occurrences(lits, s) + if x == s { 1nat } else { 0nat },
{
    assert(lits.push(x).drop_last() =~= lits);
}

proof fn lemma_occurrences_le(lits: Seq<Seq<char>>, s: Seq<char>)
    ensures
        occurrences(lits, s) <= lits.len(),
    decreases lits.len(),
{
    if lits.len() > 0 {
        lemma_occurrences_le(lits.drop_last(), s);
    }
}

proof fn lemma_occurrences_member(lits: Seq<Seq<char>>, s: Seq<char>)
    requires
        occurrences(lits, s) > 0,
    ensures
        exists|i: int| 0 <= i < lits.len() && lits[i] == s,
    decreases lits.len(),
{
    if lits.last() == s {
        assert(lits[lits.len() - 1] == s);
    } else {
        lemma_occurrences_member(lits.drop_last(), s);
        let i = choose|i: int| 0 <= i < lits.drop_last().len() && lits.drop_last()[i] == s;
        assert(lits[i] == s);
    }
}

fn find_entry(out: &Vec<(Vec<char>, usize)>, lit: &Vec<char>) -> (r: Option<usize>)
    ensures
        match r {
            Some(j) => j < out.len() && out@[j as int].0@ == lit@,
            None => forall|i: int| 0 <= i < out.len() ==> #[trigger] out@[i].0@ != lit@,
        },
{
    let mut j: usize = 0;
    while j < out.len()
        invariant
            j <= out.len(),
            forall|i: int| 0 <= i < j ==> #[trigger] out@[i].0@ != lit@,
        decreases out.len() - j,
    {
        if crate::text::chars_eq(out[j].0.as_slice(), lit.as_slice()) {
            return Some(j);
        }
        j = j + 1;
    }
    None
}

/// Count each distinct literal of `lits`.
fn count_distinct(lits: &Vec<Vec<char>>) -> (r: Vec<(Vec<char>, usize)>)
    ensures
        forall|i: int| 0 <= i < r.len() ==> (#[trigger] r@[i]).1 as nat == occurrences(lit_views(lits@), r@[i].0@),
        forall|s: Seq<char>| #[trigger] occurrences(lit_views(lits@), s) > 0 ==> exists|i: int| 0 <= i < r.len() && #[trigger] r@[i].0@ == s,
        forall|i: int, j: int| 0 <= i < j < r.len() ==> #[trigger] r@[i].0@ != #[trigger] r@[j].0@,
{
    let ghost all = lit_views(lits@);
    let mut out: Vec<(Vec<char>, usize)> = Vec::new();
    let mut k: usize = 0;
    while k < lits.len()
        invariant
            k <= lits.len(),
            all == lit_views(lits@),
            forall|i: int| 0 <= i < out.len() ==> (#[trigger] out@[i]).1 as nat == occurrences(all.subrange(0, k as int), out@[i].0@),
            forall|s: Seq<char>| #[trigger] occurrences(all.subrange(0, k as int), s) > 0 ==> exists|i: int| 0 <= i < out.len() && #[trigger] out@[i].0@ == s,
            forall|i: int, j: int| 0 <= i < j < out.len() ==> #[trigger] out@[i].0@ != #[trigger] out@[j].0@,
        decreases lits.len() - k,
    {
        let ghost prefix = all.subrange(0, k as int);
        let ghost next = all.subrange(0, k + 1);
        let ghost x = all[k as int];
        assert(next =~= prefix.push(x));
        assert(x == lits@[k as int]@);
        let ghost old_out = out@;
        match find_entry(&out, &lits[k]) {
            Some(j) => {
                proof {
                    lemma_occurrences_le(prefix, x);
                }
                let n = out[j].1;
                let name = out[j].0.clone();
                out.set(j, (name, n + 1));
                proof {
                    assert forall|i: int| 0 <= i < out.len() implies (#[trigger] out@[i]).1 as nat == occurrences(next, out@[i].0@) by {
                        lemma_occurrences_push(prefix, x, out@[i].0@);
                        if i != j {
                            assert(out@[i] == old_out[i]);
                            if old_out[i].0@ == x {
                                if i < j {
                                    assert(old_out[i].0@ != old_out[j as int].0@);
                                } else {
                                    assert(old_out[j as int].0@ != old_out[i].0@);
                                }
                            }
                        }
                    }
                    assert forall|s: Seq<char>| #[trigger] occurrences(next, s) > 0 implies exists|i: int| 0 <= i < out.len() && #[trigger] out@[i].0@ == s by {
                        lemma_occurrences_push(prefix, x, s);
                        if s == x {
                            assert(out@[j as int].0@ == s);
                        } else {
                            let i = choose|i: int| 0 <= i < old_out.len() && #[trigger] old_out[i].0@ == s;
                            if i == j {
                                assert(out@[i].0@ == s);
                            } else {
                                assert(out@[i] == old_out[i]);
                            }
                        }
                    }
                    assert forall|i: int, a: int| 0 <= i < a < out.len() implies #[trigger] out@[i].0@ != #[trigger] out@[a].0@ by {
                        assert(out@[i].0@ == old_out[i].0@);
                        assert(out@[a].0@ == old_out[a].0@);
                    }
                }
            },
            None => {
                out.push((lits[k].clone(), 1));
                proof {
                    assert forall|i: int| 0 <= i < out.len() implies (#[trigger] out@[i]).1 as nat == occurrences(next, out@[i].0@) by {
                        lemma_occurrences_push(prefix, x, out@[i].0@);
                        if i < old_out.len() {
                            assert(out@[i] == old_out[i]);
                        } else {
                            assert(occurrences(prefix, x) == 0) by {
                                if occurrences(prefix, x) > 0 {
                                    let w = choose|w: int| 0 <= w < old_out.len() && #[trigger] old_out[w].0@ == x;
                                }
                            }
                        }
                    }
                    assert forall|s: Seq<char>| #[trigger] occurrences(next, s) > 0 implies exists|i: int| 0 <= i < out.len() && #[trigger] out@[i].0@ == s by {
                        lemma_occurrences_push(prefix, x, s);
                        if s == x {
                            assert(out@[old_out.len() as int].0@ == s);
                        } else {
                            let i = choose|i: int| 0 <= i < old_out.len() && #[trigger] old_out[i].0@ == s;
                            assert(out@[i] == old_out[i]);
                        }
                    }
                    assert forall|i: int, a: int| 0 <= i < a < out.len() implies #[trigger] out@[i].0@ != #[trigger] out@[a].0@ by {
                        assert(out@[i] == old_out[i]);
                        if a < old_out.len() {
                            assert(out@[a] == old_out[a]);
                        }
                    }
                }
            },
        }
        k = k + 1;
    }
    assert(all.subrange(0, lits.len() as int) =~= all);
    out
}

pub open spec fn ev(e: (Vec<char>, usize)) -> (Seq<char>, nat) {
    (e.0@, e.1 as nat)
}

/// Whether the entry `x` occurs in `v`.
pub open spec fn has_entry(v: Seq<(Vec<char>, usize)>, x: (Vec<char>, usize)) -> bool {
    exists|i: int| 0 <= i < v.len() && #[trigger] v[i] == x
}

/// Entries' literals differ pairwise.
pub open spec fn distinct_literals(v: Seq<(Vec<char>, usize)>) -> bool {
    forall|i: int, j: int| 0 <= i < j < v.len() ==> #[trigger] v[i].0@ != #[trigger] v[j].0@
}

/// The entries of `pool` with more than one occurrence, best-ranked first.
fn rank_repeated(pool: Vec<(Vec<char>, usize)>) -> (r: Vec<(Vec<char>, usize)>)
    requires
        distinct_literals(pool@),
    ensures
        forall|i: int| 0 <= i < r.len() ==> (#[trigger] r@[i]).1 > 1 && has_entry(pool@, r@[i]),
        forall|k: int| 0 <= k < pool.len() && (#[trigger] pool@[k]).1 > 1 ==> has_entry(r@, pool@[k]),
        forall|i: int, j: int| 0 <= i < j < r.len() ==> ranks_before(ev(#[trigger] r@[i]), ev(#[trigger] r@[j])),
{
    let ghost orig = pool@;
    let mut src = pool;
    // Keep the repeated entries (in reverse order; the ranking below fixes the order).
    let mut rem: Vec<(Vec<char>, usize)> = Vec::new();
    while src.len() > 0
        invariant
            distinct_literals(orig),
            src@ == orig.subrange(0, src.len() as int),
            src.len() <= orig.len(),
            forall|i: int| 0 <= i < rem.len() ==> (#[trigger] rem@[i]).1 > 1 && exists|q: int|
                src.len() <= q < orig.len() && orig[q] == rem@[i],
            forall|q: int| src.len() <= q < orig.len() && (#[trigger] orig[q]).1 > 1 ==> has_entry(rem@, orig[q]),
            distinct_literals(rem@),
        decreases src.len(),
    {
        let ghost q = src.len() - 1;
        let e = src.pop().unwrap();
        assert(e == orig[q as int]);
        if e.1 > 1 {
            let ghost before = rem@;
            rem.push(e);
            proof {
                assert(rem@[before.len() as int] == orig[q as int]);
                assert forall|i: int| 0 <= i < rem.len() implies (#[trigger] rem@[i]).1 > 1 && exists|w: int|
                    src.len() <= w < orig.len() && orig[w] == rem@[i] by {
                    if i < before.len() {
                        assert(rem@[i] == before[i]);
                    } else {
                        assert(rem@[i] == orig[q as int]);
                    }
                }
                assert forall|w: int| src.len() <= w < orig.len() && (#[trigger] orig[w]).1 > 1 implies has_entry(rem@, orig[w]) by {
                    if w == q {
                        assert(rem@[before.len() as int] == orig[w]);
                    } else {
                        let i = choose|i: int| 0 <= i < before.len() && #[trigger] before[i] == orig[w];
                        assert(rem@[i] == before[i]);
                    }
                }
                assert forall|i: int, j: int| 0 <= i < j < rem.len() implies #[trigger] rem@[i].0@ != #[trigger] rem@[j].0@ by {
                    assert(rem@[i] == before[i]);
                    if j < before.len() {
                        assert(rem@[j] == before[j]);
                    } else {
                        let w = choose|w: int| src.len() + 1 <= w < orig.len() && orig[w] == before[i];
                        assert(orig[w].0@ != orig[q as int].0@);
                    }
                }
            }
        } else {
            proof {
                assert forall|w: int| src.len() <= w < orig.len() && (#[trigger] orig[w]).1 > 1 implies has_entry(rem@, orig[w]) by {
                    if w == q {
                        assert(false);
                    }
                }
            }
        }
    }
    // Selection: take the best-ranked remaining entry each time.
    let ghost pool2 = rem@;
    let mut out: Vec<(Vec<char>, usize)> = Vec::new();
    while rem.len() > 0
        invariant
            distinct_literals(pool2),
            forall|i: int| 0 <= i < pool2.len() ==> (#[trigger] pool2[i]).1 > 1,
            forall|i: int| 0 <= i < out.len() ==> has_entry(pool2, #[trigger] out@[i]),
            forall|i: int| 0 <= i < rem.len() ==> has_entry(pool2, #[trigger] rem@[i]),
            forall|k: int| 0 <= k < pool2.len() ==> has_entry(out@, #[trigger] pool2[k]) || has_entry(rem@, pool2[k]),
            distinct_literals(rem@),
            forall|i: int, j: int| 0 <= i < out.len() && 0 <= j < rem.len() ==> ranks_before(ev(#[trigger] out@[i]), ev(#[trigger] rem@[j])),
            forall|i: int, j: int| 0 <= i < j < out.len() ==> ranks_before(ev(#[trigger] out@[i]), ev(#[trigger] out@[j])),
        decreases rem.len(),
    {
        let mut b: usize = 0;
        let mut k: usize = 1;
        while k < rem.len()
            invariant
                0 < rem.len(),
                b < k <= rem.len(),
                distinct_literals(rem@),
                forall|j: int| 0 <= j < k && j != b ==> ranks_before(ev(rem@[b as int]), ev(#[trigger] rem@[j])),
            decreases rem.len() - k,
        {
            let better = rem[k].1 > rem[b].1 || (rem[k].1 == rem[b].1 && crate::text::chars_less(rem[k].0.as_slice(), rem[b].0.as_slice()));
            if better {
                proof {
                    assert forall|j: int| 0 <= j < k + 1 && j != k implies ranks_before(ev(rem@[k as int]), ev(#[trigger] rem@[j])) by {
                        if j != b {
                            lemma_ranks_before(ev(rem@[k as int]), ev(rem@[b as int]), ev(rem@[j]));
                        }
                    }
                }
                b = k;
            } else {
                proof {
                    if b < k {
                        assert(rem@[b as int].0@ != rem@[k as int].0@);
                    } else {
                        assert(rem@[k as int].0@ != rem@[b as int].0@);
                    }
                    lemma_ranks_before(ev(rem@[b as int]), ev(rem@[k as int]), ev(rem@[k as int]));
                }
            }
            k = k + 1;
        }
        let ghost old_rem = rem@;
        let ghost old_out = out@;
        let e = rem.remove(b);
        out.push(e);
        proof {
            assert(old_rem.remove(b as int) == rem@);
            assert forall|i: int| 0 <= i < rem.len() implies #[trigger] rem@[i] == old_rem[if i < b { i } else { i + 1 }] by {}
            assert forall|i: int| 0 <= i < out.len() implies has_entry(pool2, #[trigger] out@[i]) by {
                if i < old_out.len() {
                    assert(out@[i] == old_out[i]);
                } else {
                    assert(out@[i] == old_rem[b as int]);
                }
            }
            assert forall|i: int| 0 <= i < rem.len() implies has_entry(pool2, #[trigger] rem@[i]) by {
                assert(rem@[i] == old_rem[if i < b { i } else { i + 1 }]);
            }
            assert forall|k2: int| 0 <= k2 < pool2.len() implies has_entry(out@, #[trigger] pool2[k2]) || has_entry(rem@, pool2[k2]) by {
                if has_entry(old_out, pool2[k2]) {
                    let i = choose|i: int| 0 <= i < old_out.len() && #[trigger] old_out[i] == pool2[k2];
                    assert(out@[i] == old_out[i]);
                } else {
                    let i = choose|i: int| 0 <= i < old_rem.len() && #[trigger] old_rem[i] == pool2[k2];
                    if i == b {
                        assert(out@[old_out.len() as int] == old_rem[i]);
                    } else if i < b {
                        assert(rem@[i] == old_rem[i]);
                    } else {
                        assert(rem@[i - 1] == old_rem[i]);
                    }
                }
            }
            assert forall|i: int, j: int| 0 <= i < j < rem.len() implies #[trigger] rem@[i].0@ != #[trigger] rem@[j].0@ by {
                let ii = if i < b { i } else { i + 1 };
                let jj = if j < b { j } else { j + 1 };
                assert(rem@[i] == old_rem[ii] && rem@[j] == old_rem[jj]);
            }
            assert forall|i: int, j: int| 0 <= i < out.len() && 0 <= j < rem.len() implies ranks_before(ev(#[trigger] out@[i]), ev(#[trigger] rem@[j])) by {
                let jj = if j < b { j } else { j + 1 };
                assert(rem@[j] == old_rem[jj]);
                if i < old_out.len() {
                    assert(out@[i] == old_out[i]);
                } else {
                    assert(out@[i] == old_rem[b as int]);
                }
            }
            assert forall|i: int, j: int| 0 <= i < j < out.len() implies ranks_before(ev(#[trigger] out@[i]), ev(#[trigger] out@[j])) by {
                assert(out@[i] == old_out[i]);
                if j < old_out.len() {
                    assert(out@[j] == old_out[j]);
                } else {
                    assert(out@[j] == old_rem[b as int]);
                }
            }
        }
    }
    proof {
        assert forall|i: int| 0 <= i < out.len() implies (#[trigger] out@[i]).1 > 1 && has_entry(orig, out@[i]) by {
            let p = choose|p: int| 0 <= p < pool2.len() && #[trigger] pool2[p] == out@[i];
            let w = choose|w: int| 0 <= w < orig.len() && orig[w] == pool2[p];
            assert(orig[w] == out@[i]);
        }
        assert forall|k: int| 0 <= k < orig.len() && (#[trigger] orig[k]).1 > 1 implies has_entry(out@, orig[k]) by {
            let i = choose|i: int| 0 <= i < pool2.len() && #[trigger] pool2[i] == orig[k];
            assert(has_entry(out@, pool2[i]) || has_entry(rem@, pool2[i]));
        }
    }
    out
}

/// `"literal" xN`.
pub open spec fn repeat_text(e: (Seq<char>, nat)) -> Seq<char> {
    "\""@ + e.0 + "\" x"@ + decimal_text(e.1)
}

/// The LINT201 message for a ranked report: how many literals repeat, and the first five.
pub open spec fn repeated_message(out: Seq<(Seq<char>, nat)>) -> Seq<char> {
    let shown = if out.len() > 5 {
        out.subrange(0, 5)
    } else {
        out
    };
    "maneno "@ + decimal_text(out.len()) + " yanarudiwa bila kubadilika — fikiria kuyafanya thabiti: "@
        + crate::text::join_with(shown.map_values(|e: (Seq<char>, nat)| repeat_text(e)), ", "@)
}

/// The non-blank literals of a source.
pub open spec fn source_literals(source: Seq<char>) -> Seq<Seq<char>> {
    nonblank(all_literals(lines_of(source)))
}

/// What the LINT201 rule reports for a source: nothing when no non-blank literal occurs twice,
/// else one finding (no position) whose message is that of a ranked report of the repeats.
pub open spec fn repeated_findings(source: Seq<char>, d: Seq<LintDiagnostic>) -> bool {
    &&& d.len() <= 1
    &&& d.len() == 0 <==> forall|s: Seq<char>| #[trigger] occurrences(source_literals(source), s) <= 1
    &&& d.len() == 1 ==> exists|out: Seq<(Seq<char>, nat)>|
        repeated_report(source_literals(source), out) && diag_view(d[0]) == (
            "LINT201"@,
            repeated_message(out),
            0usize,
            0usize,
        )
}

/// Flag string literals that occur more than once (blank ones aside): one finding listing how
/// many repeat and the five most repeated (ties by the literal's order).
pub fn check_repeated_literals(source: &str) -> (r: Vec<LintDiagnostic>)
    ensures
        all_linting_stage(r@),
        repeated_findings(source@, r@),
{
    let lits = extract_string_literals(source);
    let ghost lv = crate::text::views(lits@);
    // Non-blank literals.
    let mut nb: Vec<Vec<char>> = Vec::new();
    let mut i: usize = 0;
    while i < lits.len()
        invariant
            i <= lits.len(),
            lv == crate::text::views(lits@),
            lit_views(nb@) == nonblank(lv.subrange(0, i as int)),
        decreases lits.len() - i,
    {
        let ghost before = lit_views(nb@);
        assert(lv.subrange(0, i + 1).drop_last() =~= lv.subrange(0, i as int));
        assert(lv[i as int] == lits@[i as int]@);
        let v = chars_of(lits[i].as_str());
        let (a, b) = crate::text::trim_bounds(&v, 0, v.len());
        assert(v@.subrange(0, v@.len() as int) =~= v@);
        if a < b {
            nb.push(v);
            assert(lit_views(nb@) =~= before.push(lv[i as int]));
        }
        i = i + 1;
    }
    assert(lv.subrange(0, lits.len() as int) =~= lv);
    let ghost all = lit_views(nb@);
    assert(all == source_literals(source@));
    let counted = count_distinct(&nb);
    let ranked = rank_repeated(counted);
    let ghost out = ranked@.map_values(|e: (Vec<char>, usize)| ev(e));
    proof {
        assert forall|k: int| 0 <= k < out.len() implies (#[trigger] out[k]).1 == occurrences(all, out[k].0) && out[k].1 > 1 by {
            let w = choose|w: int| 0 <= w < counted.len() && #[trigger] counted@[w] == ranked@[k];
        }
        assert forall|s: Seq<char>| #[trigger] occurrences(all, s) > 1 implies exists|k: int| 0 <= k < out.len() && #[trigger] out[k].0 == s by {
            let w = choose|w: int| 0 <= w < counted.len() && #[trigger] counted@[w].0@ == s;
            assert(counted@[w].1 > 1);
            let k = choose|k: int| 0 <= k < ranked.len() && #[trigger] ranked@[k] == counted@[w];
            assert(out[k].0 == s);
        }
        assert forall|i2: int, j2: int| 0 <= i2 < j2 < out.len() implies ranks_before(#[trigger] out[i2], #[trigger] out[j2]) by {
            assert(ranks_before(ev(ranked@[i2]), ev(ranked@[j2])));
        }
        assert(repeated_report(all, out));
    }
    let mut diags: Vec<LintDiagnostic> = Vec::new();
    if ranked.len() == 0 {
        proof {
            assert forall|s: Seq<char>| #[trigger] occurrences(all, s) <= 1 by {
                if occurrences(all, s) > 1 {
                    let k = choose|k: int| 0 <= k < out.len() && #[trigger] out[k].0 == s;
                }
            }
        }
        return diags;
    }
    let mut m = chars_of("maneno ");
    push_all(&mut m, decimal_chars(ranked.len() as u128).as_slice());
    push_all(&mut m, chars_of(" yanarudiwa bila kubadilika — fikiria kuyafanya thabiti: ").as_slice());
    let ghost head = m@;
    let shown: usize = if ranked.len() > 5 { 5 } else { ranked.len() };
    let ghost shown_s = if out.len() > 5 { out.subrange(0, 5) } else { out };
    let ghost parts = shown_s.map_values(|e: (Seq<char>, nat)| repeat_text(e));
    let mut j: usize = 0;
    assert(parts.subrange(0, 0) =~= Seq::<Seq<char>>::empty());
    while j < shown
        invariant
            j <= shown,
            shown == shown_s.len(),
            shown <= ranked.len(),
            out == ranked@.map_values(|e: (Vec<char>, usize)| ev(e)),
            shown_s == (if out.len() > 5 { out.subrange(0, 5) } else { out }),
            parts == shown_s.map_values(|e: (Seq<char>, nat)| repeat_text(e)),
            m@ == head + crate::text::join_with(parts.subrange(0, j as int), ", "@),
        decreases shown - j,
    {
        let ghost before = m@;
        if j > 0 {
            push_all(&mut m, chars_of(", ").as_slice());
        }
        push_all(&mut m, chars_of("\"").as_slice());
        push_all(&mut m, ranked[j].0.as_slice());
        push_all(&mut m, chars_of("\" x").as_slice());
        push_all(&mut m, decimal_chars(ranked[j].1 as u128).as_slice());
        proof {
            assert(shown_s[j as int] == out[j as int]);
            assert(parts[j as int] == repeat_text(ev(ranked@[j as int])));
            crate::text::lemma_join_push(parts.subrange(0, j as int), ", "@, parts[j as int]);
            assert(parts.subrange(0, j + 1) =~= parts.subrange(0, j as int).push(parts[j as int]));
            if j == 0 {
                assert(m@ =~= head + parts[j as int]);
            } else {
                assert(m@ =~= head + (crate::text::join_with(parts.subrange(0, j as int), ", "@) + ", "@ + parts[j as int]));
            }
        }
        j = j + 1;
    }
    assert(parts.subrange(0, shown as int) =~= parts);
    let msg = string_of(m.as_slice());
    diags.push(LintDiagnostic {
        code: "LINT201".to_string(),
        message: msg,
        stage: "ukaguzi".to_string(),
        line: 0,
        column: 0,
    });
    assert(diag_view(diags@[0]) == ("LINT201"@, repeated_message(out), 0usize, 0usize));
    proof {
        assert(!(forall|s: Seq<char>| #[trigger] occurrences(all, s) <= 1)) by {
            assert(occurrences(all, out[0].0) > 1);
        }
    }
    diags
}

/// The best-practice findings: repeated literals (LINT201), undocumented functions (LINT202)
/// and unused selective imports (LINT203), in that order.
pub fn check_best_practices(module: &ModuleOutline, source: &str) -> (r: Vec<LintDiagnostic>)
    requires
        lines_within(module.functions@, lines_of(source@)),
    ensures
        all_linting_stage(r@),
        exists|a: Seq<LintDiagnostic>|
            repeated_findings(source@, a) && #[trigger] diags_view(r@) == diags_view(a) + doc_diags(
                module.functions@,
                lines_of(source@),
            ) + unused_import_diags(module.imports@, source@),
{
    let mut diags = check_repeated_literals(source);
    let ghost a = diags@;
    let mut docs = check_doc_comments(module, source);
    let mut unused = check_unused_imports(module, source);
    let ghost d = docs@;
    let ghost u = unused@;
    diags.append(&mut docs);
    diags.append(&mut unused);
    assert(diags@ == a + d + u);
    assert(diags_view(diags@) =~= diags_view(a) + diags_view(d) + diags_view(u));
    diags
}

// ---------------------------------------------------------------------------------------------
// Running the rules under a configuration
// ---------------------------------------------------------------------------------------------

/// The LINT101 statement limit: the configured `line_limit` when it is an integer that fits a
/// `usize`, else the default.
pub open spec fn line_limit_spec(c: LintConfig) -> usize {
    match option_spec(c, "LINT101"@, "line_limit"@) {
        Some(OptionValue::Integer(n)) => if 0 <= n && n <= usize::MAX {
            n as usize
        } else {
            DEFAULT_LINE_LIMIT
        },
        _ => DEFAULT_LINE_LIMIT,
    }
}

/// The findings whose rule is enabled.
pub open spec fn enabled_only(c: LintConfig, d: Seq<DiagView>) -> Seq<DiagView> {
    d.filter(|x: DiagView| enabled_spec(c, x.0))
}

/// Every rule run under a configuration, before disabled codes are dropped: naming (when any of
/// LINT001-003 is enabled), LINT101 with the configured limit, the best-practice rules (when any
/// of LINT201-203 is enabled; `repeated` stands for the LINT201 part) and the logic rules
/// (LINT301, which report nothing).
pub open spec fn all_rule_findings(
    module: ModuleOutline,
    source: Seq<char>,
    c: LintConfig,
    repeated: Seq<DiagView>,
) -> Seq<DiagView> {
    let naming = if enabled_spec(c, "LINT001"@) || enabled_spec(c, "LINT002"@) || enabled_spec(
        c,
        "LINT003"@,
    ) {
        fn_naming_diags(module.functions@) + struct_naming_diags(module.structs@)
            + const_naming_diags(module.constants@)
    } else {
        Seq::empty()
    };
    let style = if enabled_spec(c, "LINT101"@) {
        long_fn_diags(module.functions@, line_limit_spec(c))
    } else {
        Seq::empty()
    };
    let best = if enabled_spec(c, "LINT201"@) || enabled_spec(c, "LINT202"@) || enabled_spec(
        c,
        "LINT203"@,
    ) {
        repeated + doc_diags(module.functions@, lines_of(source)) + unused_import_diags(
            module.imports@,
            source,
        )
    } else {
        Seq::empty()
    };
    naming + style + best
}

fn keep_enabled(config: &LintConfig, diags: Vec<LintDiagnostic>) -> (r: Vec<LintDiagnostic>)
    ensures
        diags_view(r@) == enabled_only(*config, diags_view(diags@)),
        all_linting_stage(diags@) ==> all_linting_stage(r@),
{
    let mut out: Vec<LintDiagnostic> = Vec::new();
    let mut i: usize = 0;
    let ghost pred = |x: DiagView| enabled_spec(*config, x.0);
    while i < diags.len()
        invariant
            i <= diags.len(),
            pred == (|x: DiagView| enabled_spec(*config, x.0)),
            diags_view(out@) == diags_view(diags@.subrange(0, i as int)).filter(pred),
            all_linting_stage(diags@) ==> all_linting_stage(out@),
        decreases diags.len() - i,
    {
        let ghost before = diags_view(diags@.subrange(0, i as int));
        assert(diags_view(diags@.subrange(0, i + 1)) =~= before.push(diag_view(diags@[i as int])));
        proof {
            before.lemma_filter_push(diag_view(diags@[i as int]), pred);
        }
        if config.is_enabled(diags[i].code.as_str()) {
            out.push(diags[i].clone_diag());
            assert(diags_view(out@) =~= diags_view(out@.drop_last()).push(diag_view(diags@[i as int])));
        }
        i = i + 1;
    }
    assert(diags@.subrange(0, diags.len() as int) =~= diags@);
    out
}

pub open spec fn naming_enabled(c: LintConfig) -> bool {
    enabled_spec(c, "LINT001"@) || enabled_spec(c, "LINT002"@) || enabled_spec(c, "LINT003"@)
}

fn configured_line_limit(config: &LintConfig) -> (r: usize)
    ensures
        r == line_limit_spec(*config),
{
    match config.option_int("LINT101", "line_limit") {
        Some(n) => if n >= 0 && (n as u64) <= (usize::MAX as u64) {
            n as usize
        } else {
            DEFAULT_LINE_LIMIT
        },
        None => DEFAULT_LINE_LIMIT,
    }
}

fn naming_part(module: &ModuleOutline, config: &LintConfig) -> (r: Vec<LintDiagnostic>)
    ensures
        all_linting_stage(r@),
        diags_view(r@) == if naming_enabled(*config) {
            fn_naming_diags(module.functions@) + struct_naming_diags(module.structs@)
                + const_naming_diags(module.constants@)
        } else {
            Seq::<DiagView>::empty()
        },
{
    if config.is_enabled("LINT001") || config.is_enabled("LINT002") || config.is_enabled("LINT003") {
        check_naming_conventions(module)
    } else {
        let v: Vec<LintDiagnostic> = Vec::new();
        assert(diags_view(v@) =~= Seq::<DiagView>::empty());
        v
    }
}

fn style_part(module: &ModuleOutline, config: &LintConfig) -> (r: Vec<LintDiagnostic>)
    ensures
        all_linting_stage(r@),
        diags_view(r@) == if enabled_spec(*config, "LINT101"@) {
            long_fn_diags(module.functions@, line_limit_spec(*config))
        } else {
            Seq::<DiagView>::empty()
        },
{
    if config.is_enabled("LINT101") {
        let limit = configured_line_limit(config);
        check_style_issues_with_limit(module, limit)
    } else {
        let v: Vec<LintDiagnostic> = Vec::new();
        assert(diags_view(v@) =~= Seq::<DiagView>::empty());
        v
    }
}

/// Lint a parsed module and its source under a configuration: run the enabled rules in order
/// (naming, style, best practices, logic) and drop every finding whose code is disabled.
pub fn lint_source_with_config(module: &ModuleOutline, source: &str, config: &LintConfig) -> (r:
    Vec<LintDiagnostic>)
    requires
        lines_within(module.functions@, lines_of(source@)),
    ensures
        all_linting_stage(r@),
        exists|a: Seq<LintDiagnostic>|
            repeated_findings(source@, a) && #[trigger] diags_view(r@) == enabled_only(
                *config,
                all_rule_findings(*module, source@, *config, diags_view(a)),
            ),
{
    let mut lints = naming_part(module, config);
    let ghost n = lints@;
    let mut st = style_part(module, config);
    let ghost t = st@;
    lints.append(&mut st);
    let ghost a: Seq<LintDiagnostic>;
    let ghost b: Seq<LintDiagnostic>;
    if config.is_enabled("LINT201") || config.is_enabled("LINT202") || config.is_enabled("LINT203") {
        let mut bp = check_best_practices(module, source);
        proof {
            a = choose|a: Seq<LintDiagnostic>|
                repeated_findings(source@, a) && #[trigger] diags_view(bp@) == diags_view(a)
                    + doc_diags(module.functions@, lines_of(source@)) + unused_import_diags(
                    module.imports@,
                    source@,
                );
            b = bp@;
        }
        lints.append(&mut bp);
    } else {
        let rep = check_repeated_literals(source);
        proof {
            a = rep@;
            b = Seq::empty();
        }
    }
    let mut lg = check_logic_errors(module);
    let ghost g = lg@;
    lints.append(&mut lg);
    proof {
        assert(lints@ == n + t + b + g);
        assert(diags_view(g) =~= Seq::<DiagView>::empty());
        assert(diags_view(lints@) =~= diags_view(n) + diags_view(t) + diags_view(b) + diags_view(g));
        assert(diags_view(lints@) =~= all_rule_findings(*module, source@, *config, diags_view(a)));
        assert(all_linting_stage(lints@));
    }
    keep_enabled(config, lints)
}

/// Lint a parsed module and its source with every rule at its default settings.
pub fn lint_source(module: &ModuleOutline, source: &str) -> (r: Vec<LintDiagnostic>)
    requires
        lines_within(module.functions@, lines_of(source@)),
    ensures
        all_linting_stage(r@),
        exists|a: Seq<LintDiagnostic>|
            repeated_findings(source@, a) && #[trigger] diags_view(r@) == enabled_only(
                LintConfig { rules: None },
                all_rule_findings(*module, source@, LintConfig { rules: None }, diags_view(a)),
            ),
{
    let config = LintConfig::new();
    lint_source_with_config(module, source, &config)
}

} // verus!
