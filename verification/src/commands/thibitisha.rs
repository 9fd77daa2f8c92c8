//! `pata thibitisha`: project checks beyond compiling — documentation of public items, trait
//! completeness, FFI-safe `#[kiunganishi]` signatures — and the summary of every failing check.

use vstd::prelude::*;
use crate::commands::{outcome_is, CliError, Failure};
use crate::outline::{FnDecl, ImplDecl, ModuleOutline, TraitDecl};
use crate::text::{
    join_with, chars_of, decimal_chars, decimal_text, eq_lit, push_all, starts_with, string_of, trim,
    trim_bounds, slice_vec,
};

verus! {

// ---------------------------------------------------------------------------------------------
// FFI safety
// ---------------------------------------------------------------------------------------------

/// Index of the first `<` or space in `t` at or after `i` (or its end).
pub open spec fn base_end(t: Seq<char>, i: int) -> int
    decreases t.len() - i,
{
    if i < 0 || i >= t.len() {
        t.len() as int
    } else if t[i] == '<' || t[i] == ' ' {
        i
    } else {
        base_end(t, i + 1)
    }
}

/// The base name of a type: the text before any `<` or space.
pub open spec fn base_type(t: Seq<char>) -> Seq<char> {
    t.subrange(0, base_end(t, 0))
}

/// The primitive types that can cross a C boundary.
pub open spec fn ffi_safe_name(b: Seq<char>) -> bool {
    b == "Namba"@ || b == "Ukweli"@ || b == "Herufi"@ || b == "Tupu"@ || b == "Anuani"@ || b
        == "Biti8"@ || b == "Biti16"@ || b == "Biti32"@ || b == "Biti64"@ || b == "uBiti8"@ || b
        == "uBiti16"@ || b == "uBiti32"@ || b == "uBiti64"@
}

proof fn lemma_base_end(t: Seq<char>, i: int)
    requires
        0 <= i <= t.len(),
    ensures
        i <= base_end(t, i) <= t.len(),
    decreases t.len() - i,
{
    if i < t.len() && t[i] != '<' && t[i] != ' ' {
        lemma_base_end(t, i + 1);
    }
}

/// Whether a type written `ty_name` (generic arguments included) is FFI-safe by its base name.
pub fn is_ffi_safe(ty_name: &str) -> (r: bool)
    ensures
        r == ffi_safe_name(base_type(ty_name@)),
{
    let v = chars_of(ty_name);
    let mut e: usize = 0;
    while e < v.len() && v[e] != '<' && v[e] != ' '
        invariant
            e <= v.len(),
            v@ == ty_name@,
            base_end(v@, 0) == base_end(v@, e as int),
        decreases v.len() - e,
    {
        e = e + 1;
    }
    let b = slice_vec(&v, 0, e);
    eq_lit(&b, "Namba") || eq_lit(&b, "Ukweli") || eq_lit(&b, "Herufi") || eq_lit(&b, "Tupu")
        || eq_lit(&b, "Anuani") || eq_lit(&b, "Biti8") || eq_lit(&b, "Biti16") || eq_lit(
        &b,
        "Biti32",
    ) || eq_lit(&b, "Biti64") || eq_lit(&b, "uBiti8") || eq_lit(&b, "uBiti16") || eq_lit(
        &b,
        "uBiti32",
    ) || eq_lit(&b, "uBiti64")
}

/// Whether a function carries the `kiunganishi` attribute.
pub open spec fn is_foreign(f: FnDecl) -> bool {
    exists|i: int| 0 <= i < f.attrs@.len() && #[trigger] f.attrs@[i]@ == "kiunganishi"@
}

/// The first FFI-safety failure of a foreign function's parameters from index `j` on.
pub open spec fn param_failure(f: FnDecl, j: int) -> Option<Seq<char>>
    decreases f.params@.len() - j,
{
    if j < 0 || j >= f.params@.len() {
        None
    } else if !ffi_safe_name(base_type(f.params@[j].1@)) {
        Some(
            "kazi ya kiunganishi '"@ + f.name@ + "' hoja '"@ + f.params@[j].0@
                + "' ina aina isiyo salama kwa ABI ya C: "@ + f.params@[j].1@,
        )
    } else {
        param_failure(f, j + 1)
    }
}

/// The FFI-safety failure of one function, if any: a parameter first, then the return type
/// (`Tupu` is always allowed as a return type).
pub open spec fn fn_ffi_failure(f: FnDecl) -> Option<Seq<char>> {
    if !is_foreign(f) {
        None
    } else {
        match param_failure(f, 0) {
            Some(m) => Some(m),
            None => if f.return_type@ != "Tupu"@ && !ffi_safe_name(base_type(f.return_type@)) {
                Some(
                    "kazi ya kiunganishi '"@ + f.name@ + "' aina ya kurejesha si salama kwa ABI ya C: "@
                        + f.return_type@,
                )
            } else {
                None
            },
        }
    }
}

/// The first FFI-safety failure among the functions from index `i` on.
pub open spec fn ffi_failure_from(fs: Seq<FnDecl>, i: int) -> Option<Seq<char>>
    decreases fs.len() - i,
{
    if i < 0 || i >= fs.len() {
        None
    } else {
        match fn_ffi_failure(fs[i]) {
            Some(m) => Some(m),
            None => ffi_failure_from(fs, i + 1),
        }
    }
}

fn has_attr(f: &FnDecl, name: &str) -> (r: bool)
    ensures
        r == exists|i: int| 0 <= i < f.attrs@.len() && #[trigger] f.attrs@[i]@ == name@,
{
    let mut i: usize = 0;
    while i < f.attrs.len()
        invariant
            i <= f.attrs.len(),
            forall|k: int| 0 <= k < i ==> #[trigger] f.attrs@[k]@ != name@,
        decreases f.attrs.len() - i,
    {
        if crate::text::str_is(f.attrs[i].as_str(), name) {
            return true;
        }
        i = i + 1;
    }
    false
}

fn join4(a: &str, b: &str, c: &str, d: &str, e: &str, f: &str) -> (r: String)
    ensures
        r@ == a@ + b@ + c@ + d@ + e@ + f@,
{
    let mut v = chars_of(a);
    push_all(&mut v, chars_of(b).as_slice());
    push_all(&mut v, chars_of(c).as_slice());
    push_all(&mut v, chars_of(d).as_slice());
    push_all(&mut v, chars_of(e).as_slice());
    push_all(&mut v, chars_of(f).as_slice());
    string_of(v.as_slice())
}

/// Every `#[kiunganishi]` function must take and return FFI-safe types only.
pub fn enforce_ffi_signatures(module: &ModuleOutline) -> (r: Result<(), CliError>)
    ensures
        outcome_is(
            r,
            match ffi_failure_from(module.functions@, 0) {
                Some(m) => Err((m, 1i32)),
                None => Ok(()),
            },
            |u: ()| u,
        ),
{
    let mut i: usize = 0;
    while i < module.functions.len()
        invariant
            i <= module.functions.len(),
            ffi_failure_from(module.functions@, 0) == ffi_failure_from(module.functions@, i as int),
        decreases module.functions.len() - i,
    {
        let f = &module.functions[i];
        if has_attr(f, "kiunganishi") {
            let mut j: usize = 0;
            while j < f.params.len()
                invariant
                    j <= f.params.len(),
                    i < module.functions.len(),
                    *f == module.functions@[i as int],
                    is_foreign(*f),
                    ffi_failure_from(module.functions@, 0) == ffi_failure_from(
                        module.functions@,
                        i as int,
                    ),
                    param_failure(*f, 0) == param_failure(*f, j as int),
                decreases f.params.len() - j,
            {
                if !is_ffi_safe(f.params[j].1.as_str()) {
                    let msg = join4(
                        "kazi ya kiunganishi '",
                        f.name.as_str(),
                        "' hoja '",
                        f.params[j].0.as_str(),
                        "' ina aina isiyo salama kwa ABI ya C: ",
                        f.params[j].1.as_str(),
                    );
                    return Err(CliError::new(msg, 1));
                }
                j = j + 1;
            }
            if !crate::text::str_is(f.return_type.as_str(), "Tupu") && !is_ffi_safe(
                f.return_type.as_str(),
            ) {
                let mut v = chars_of("kazi ya kiunganishi '");
                push_all(&mut v, chars_of(f.name.as_str()).as_slice());
                push_all(&mut v, chars_of("' aina ya kurejesha si salama kwa ABI ya C: ").as_slice());
                push_all(&mut v, chars_of(f.return_type.as_str()).as_slice());
                return Err(CliError::new(string_of(v.as_slice()), 1));
            }
        }
        i = i + 1;
    }
    Ok(())
}

// ---------------------------------------------------------------------------------------------
// Trait completeness
// ---------------------------------------------------------------------------------------------

/// Whether an impl implements the trait `name`.
pub open spec fn implements(i: ImplDecl, name: Seq<char>) -> bool {
    match i.trait_name {
        Some(n) => n@ == name,
        None => false,
    }
}

/// Whether some impl names the trait `name`.
pub open spec fn implemented(impls: Seq<ImplDecl>, name: Seq<char>) -> bool {
    exists|i: int| 0 <= i < impls.len() && #[trigger] implements(impls[i], name)
}

/// The first trait (from index `i` on, built-in ones at line 0 skipped) with no impl.
pub open spec fn unimplemented_from(traits: Seq<TraitDecl>, impls: Seq<ImplDecl>, i: int) -> Option<Seq<char>>
    decreases traits.len() - i,
{
    if i < 0 || i >= traits.len() {
        None
    } else if traits[i].line != 0 && !implemented(impls, traits[i].name@) {
        Some(traits[i].name@)
    } else {
        unimplemented_from(traits, impls, i + 1)
    }
}

/// Every trait of the project (not the built-in ones) must have an impl somewhere.
pub fn enforce_trait_completeness(module: &ModuleOutline) -> (r: Result<(), CliError>)
    ensures
        outcome_is(
            r,
            match unimplemented_from(module.traits@, module.impls@, 0) {
                Some(t) => Err(("sifa '"@ + t + "' haina utekelezaji wowote kwenye mradi huu"@, 1i32)),
                None => Ok(()),
            },
            |u: ()| u,
        ),
{
    let mut i: usize = 0;
    while i < module.traits.len()
        invariant
            i <= module.traits.len(),
            unimplemented_from(module.traits@, module.impls@, 0) == unimplemented_from(
                module.traits@,
                module.impls@,
                i as int,
            ),
        decreases module.traits.len() - i,
    {
        let t = &module.traits[i];
        if t.line != 0 {
            let mut found = false;
            let mut k: usize = 0;
            while k < module.impls.len()
                invariant
                    k <= module.impls.len(),
                    found == exists|j: int|
                        0 <= j < k && #[trigger] implements(module.impls@[j], t.name@),
                decreases module.impls.len() - k,
            {
                match &module.impls[k].trait_name {
                    Some(n) => {
                        if crate::text::chars_eq(
                            chars_of(n.as_str()).as_slice(),
                            chars_of(t.name.as_str()).as_slice(),
                        ) {
                            found = true;
                            assert(implements(module.impls@[k as int], t.name@));
                        } else {
                            assert(!implements(module.impls@[k as int], t.name@));
                        }
                    },
                    None => {
                        assert(!implements(module.impls@[k as int], t.name@));
                    },
                }
                k = k + 1;
            }
            if !found {
                let n = chars_of(t.name.as_str());
                let msg = crate::text::concat3(
                    "sifa '",
                    n.as_slice(),
                    "' haina utekelezaji wowote kwenye mradi huu",
                );
                return Err(CliError::new(msg, 1));
            }
        }
        i = i + 1;
    }
    Ok(())
}

// ---------------------------------------------------------------------------------------------
// Documentation
// ---------------------------------------------------------------------------------------------

/// The first non-blank line at or above `i` (negative when there is none).
pub open spec fn nonblank_above(lines: Seq<Seq<char>>, i: int) -> int
    decreases i + 1,
{
    if i >= 0 && i < lines.len() && trim(lines[i]).len() == 0 {
        nonblank_above(lines, i - 1)
    } else {
        i
    }
}

/// Whether the item on the 1-based `line` has a `///` comment above it, blank lines skipped
/// (lines 0 and 1 look at the first line).
pub open spec fn doc_before(lines: Seq<Seq<char>>, line: usize) -> bool {
    let start = if line >= 2 {
        line - 2
    } else {
        0
    };
    let i = nonblank_above(lines, start);
    0 <= i < lines.len() && starts_with(trim(lines[i]), "///"@)
}

/// Whether the item declared on the 1-based `line_1based` is preceded by a `///` doc comment.
pub fn has_doc_before(lines: &[String], line_1based: usize) -> (r: bool)
    requires
        line_1based <= lines@.len() + 1,
        lines@.len() > 0 || line_1based >= 2,
    ensures
        r == doc_before(crate::text::views(lines@), line_1based),
{
    let ghost lv = crate::text::views(lines@);
    let mut i: usize = if line_1based >= 2 {
        line_1based - 2
    } else {
        0
    };
    if i >= lines.len() {
        return false;
    }
    loop
        invariant
            i < lines.len(),
            lv == crate::text::views(lines@),
            nonblank_above(lv, (if line_1based >= 2 { line_1based - 2 } else { 0 }) as int)
                == nonblank_above(lv, i as int),
        decreases i,
    {
        let v = chars_of(lines[i].as_str());
        let (a, b) = trim_bounds(&v, 0, v.len());
        assert(v@.subrange(0, v@.len() as int) =~= v@);
        assert(lv[i as int] == lines@[i as int]@);
        if a == b {
            assert(trim(lv[i as int]).len() == 0);
            if i == 0 {
                assert(nonblank_above(lv, -1) == -1);
                return false;
            }
            i = i - 1;
        } else {
            let t = slice_vec(&v, a, b);
            let w = chars_of("///");
            let r = crate::text::matches_at(&t, 0, w.as_slice());
            proof {
                if starts_with(t@, "///"@) {
                    assert(crate::text::occurs_at(t@, w@, 0));
                }
            }
            return r;
        }
    }
}

/// Which public item kind a documentation failure names.
pub open spec fn item_failure(kind: Seq<char>, name: Seq<char>, file: Seq<char>, line: usize) -> Seq<char> {
    "nyaraka zimekosekana kwa "@ + kind + " '"@ + name + "' kwenye "@ + file + ":"@ + decimal_text(
        line as nat,
    )
}

/// The first public function (from `i` on) without a doc comment.
pub open spec fn undocumented_fn(fs: Seq<FnDecl>, lines: Seq<Seq<char>>, i: int) -> Option<(Seq<char>, usize)>
    decreases fs.len() - i,
{
    if i < 0 || i >= fs.len() {
        None
    } else if fs[i].is_public && !doc_before(lines, fs[i].line) {
        Some((fs[i].name@, fs[i].line))
    } else {
        undocumented_fn(fs, lines, i + 1)
    }
}

/// The first public struct (from `i` on) without a doc comment.
pub open spec fn undocumented_struct(ss: Seq<crate::outline::StructDecl>, lines: Seq<Seq<char>>, i: int) -> Option<(Seq<char>, usize)>
    decreases ss.len() - i,
{
    if i < 0 || i >= ss.len() {
        None
    } else if ss[i].is_public && !doc_before(lines, ss[i].line) {
        Some((ss[i].name@, ss[i].line))
    } else {
        undocumented_struct(ss, lines, i + 1)
    }
}

/// The first public trait (from `i` on, built-in ones at line 0 skipped) without a doc comment.
pub open spec fn undocumented_trait(ts: Seq<TraitDecl>, lines: Seq<Seq<char>>, i: int) -> Option<(Seq<char>, usize)>
    decreases ts.len() - i,
{
    if i < 0 || i >= ts.len() {
        None
    } else if ts[i].line != 0 && ts[i].is_public && !doc_before(lines, ts[i].line) {
        Some((ts[i].name@, ts[i].line))
    } else {
        undocumented_trait(ts, lines, i + 1)
    }
}

/// The documentation check of one parsed file: functions, then structs, then traits.
pub open spec fn file_docs_spec(file: Seq<char>, lines: Seq<Seq<char>>, m: ModuleOutline) -> Result<(), Failure> {
    match undocumented_fn(m.functions@, lines, 0) {
        Some((n, l)) => Err((item_failure("kazi ya umma"@, n, file, l), 1)),
        None => match undocumented_struct(m.structs@, lines, 0) {
            Some((n, l)) => Err((item_failure("umbo la umma"@, n, file, l), 1)),
            None => match undocumented_trait(m.traits@, lines, 0) {
                Some((n, l)) => Err((item_failure("sifa ya umma"@, n, file, l), 1)),
                None => Ok(()),
            },
        },
    }
}

/// Every item line lies within the file (and the file has a line to look at).
pub open spec fn items_within(m: ModuleOutline, n: nat) -> bool {
    &&& forall|i: int| 0 <= i < m.functions@.len() ==> #[trigger] m.functions@[i].line <= n && (n > 0 || m.functions@[i].line >= 2)
    &&& forall|i: int| 0 <= i < m.structs@.len() ==> #[trigger] m.structs@[i].line <= n && (n > 0 || m.structs@[i].line >= 2)
    &&& forall|i: int| 0 <= i < m.traits@.len() ==> #[trigger] m.traits@[i].line <= n && (n > 0 || m.traits@[i].line >= 2)
}

fn item_failure_text(kind: &str, name: &str, file: &str, line: usize) -> (r: String)
    ensures
        r@ == item_failure(kind@, name@, file@, line),
{
    let mut v = chars_of("nyaraka zimekosekana kwa ");
    push_all(&mut v, chars_of(kind).as_slice());
    push_all(&mut v, chars_of(" '").as_slice());
    push_all(&mut v, chars_of(name).as_slice());
    push_all(&mut v, chars_of("' kwenye ").as_slice());
    push_all(&mut v, chars_of(file).as_slice());
    push_all(&mut v, chars_of(":").as_slice());
    push_all(&mut v, decimal_chars(line as u128).as_slice());
    string_of(v.as_slice())
}

/// Every public function, struct and (project) trait of a parsed file must carry a `///`
/// comment; the first one without fails, naming the file and line.
pub fn check_file_docs(file: &str, lines: &[String], module: &ModuleOutline) -> (r: Result<(), CliError>)
    requires
        items_within(*module, lines@.len()),
    ensures
        outcome_is(r, file_docs_spec(file@, crate::text::views(lines@), *module), |u: ()| u),
{
    let ghost lv = crate::text::views(lines@);
    let mut i: usize = 0;
    while i < module.functions.len()
        invariant
            i <= module.functions.len(),
            lv == crate::text::views(lines@),
            items_within(*module, lines@.len()),
            undocumented_fn(module.functions@, lv, 0) == undocumented_fn(module.functions@, lv, i as int),
        decreases module.functions.len() - i,
    {
        let f = &module.functions[i];
        assert(f.line <= lines@.len() && (lines@.len() > 0 || f.line >= 2));
        if f.is_public && !has_doc_before(lines, f.line) {
            return Err(CliError::new(item_failure_text("kazi ya umma", f.name.as_str(), file, f.line), 1));
        }
        i = i + 1;
    }
    let mut j: usize = 0;
    while j < module.structs.len()
        invariant
            j <= module.structs.len(),
            lv == crate::text::views(lines@),
            items_within(*module, lines@.len()),
            undocumented_fn(module.functions@, lv, 0) is None,
            undocumented_struct(module.structs@, lv, 0) == undocumented_struct(module.structs@, lv, j as int),
        decreases module.structs.len() - j,
    {
        let s = &module.structs[j];
        assert(s.line <= lines@.len() && (lines@.len() > 0 || s.line >= 2));
        if s.is_public && !has_doc_before(lines, s.line) {
            return Err(CliError::new(item_failure_text("umbo la umma", s.name.as_str(), file, s.line), 1));
        }
        j = j + 1;
    }
    let mut k: usize = 0;
    while k < module.traits.len()
        invariant
            k <= module.traits.len(),
            lv == crate::text::views(lines@),
            items_within(*module, lines@.len()),
            undocumented_fn(module.functions@, lv, 0) is None,
            undocumented_struct(module.structs@, lv, 0) is None,
            undocumented_trait(module.traits@, lv, 0) == undocumented_trait(module.traits@, lv, k as int),
        decreases module.traits.len() - k,
    {
        let t = &module.traits[k];
        assert(t.line <= lines@.len() && (lines@.len() > 0 || t.line >= 2));
        if t.line != 0 && t.is_public && !has_doc_before(lines, t.line) {
            return Err(CliError::new(item_failure_text("sifa ya umma", t.name.as_str(), file, t.line), 1));
        }
        k = k + 1;
    }
    Ok(())
}

/// A line (trimmed) that declares a public function or struct.
pub open spec fn public_item_line(t: Seq<char>) -> bool {
    starts_with(t, "umma kazi"@) || starts_with(t, "umma umbo"@)
}

/// The first line (0-based, from `i` on) declaring a public item with no `///` line right
/// above it.
pub open spec fn undocumented_line(lines: Seq<Seq<char>>, i: int) -> Option<int>
    decreases lines.len() - i,
{
    if i < 0 || i >= lines.len() {
        None
    } else if public_item_line(trim(lines[i])) && (i == 0 || !starts_with(trim(lines[i - 1]), "///"@)) {
        Some(i)
    } else {
        undocumented_line(lines, i + 1)
    }
}

fn trimmed_starts(line: &String, p: &str) -> (r: bool)
    ensures
        r == starts_with(trim(line@), p@),
{
    let v = chars_of(line.as_str());
    let (a, b) = trim_bounds(&v, 0, v.len());
    assert(v@.subrange(0, v@.len() as int) =~= v@);
    let t = slice_vec(&v, a, b);
    let w = chars_of(p);
    let r = crate::text::matches_at(&t, 0, w.as_slice());
    proof {
        if starts_with(t@, p@) {
            assert(crate::text::occurs_at(t@, w@, 0));
        }
    }
    r
}

/// The documentation check of a file that does not parse: a line-level scan for public
/// `kazi`/`umbo` declarations without a `///` line right above.
pub fn check_unparsed_docs(file: &str, lines: &[String]) -> (r: Result<(), CliError>)
    ensures
        outcome_is(
            r,
            match undocumented_line(crate::text::views(lines@), 0) {
                Some(i) => Err(
                    (
                        "nyaraka zimekosekana kwa item ya umma kwenye "@ + file@ + ":"@
                            + decimal_text((i + 1) as nat),
                        1i32,
                    ),
                ),
                None => Ok(()),
            },
            |u: ()| u,
        ),
{
    let ghost lv = crate::text::views(lines@);
    let mut i: usize = 0;
    while i < lines.len()
        invariant
            i <= lines.len(),
            lv == crate::text::views(lines@),
            undocumented_line(lv, 0) == undocumented_line(lv, i as int),
        decreases lines.len() - i,
    {
        assert(lv[i as int] == lines@[i as int]@);
        if i > 0 {
            assert(lv[i - 1] == lines@[i - 1]@);
        }
        let public = trimmed_starts(&lines[i], "umma kazi") || trimmed_starts(&lines[i], "umma umbo");
        if public && (i == 0 || !trimmed_starts(&lines[i - 1], "///")) {
            let mut v = chars_of("nyaraka zimekosekana kwa item ya umma kwenye ");
            push_all(&mut v, chars_of(file).as_slice());
            push_all(&mut v, chars_of(":").as_slice());
            push_all(&mut v, decimal_chars((i as u128) + 1).as_slice());
            return Err(CliError::new(string_of(v.as_slice()), 1));
        }
        i = i + 1;
    }
    Ok(())
}

// ---------------------------------------------------------------------------------------------
// Summary
// ---------------------------------------------------------------------------------------------

/// `name: message` for every failed check, in order.
pub open spec fn failures(checks: Seq<(String, Option<String>)>) -> Seq<Seq<char>>
    decreases checks.len(),
{
    if checks.len() == 0 {
        Seq::empty()
    } else {
        let rest = failures(checks.drop_last());
        match checks.last().1 {
            Some(m) => rest.push(checks.last().0@ + ": "@ + m@),
            None => rest,
        }
    }
}

/// The overall outcome of the checks (name and failure message of each, in order): success
/// when none failed, otherwise one error carrying every failure, joined by `; `.
pub fn summarize_checks(checks: &[(String, Option<String>)]) -> (r: Result<(), CliError>)
    ensures
        outcome_is(
            r,
            if failures(checks@).len() > 0 {
                Err(("thibitisha imeshindwa: "@ + join_with(failures(checks@), "; "@), 1i32))
            } else {
                Ok(())
            },
            |u: ()| u,
        ),
{
    let mut detail: Vec<char> = Vec::new();
    let mut failed = false;
    let sep = chars_of("; ");
    let mut i: usize = 0;
    while i < checks.len()
        invariant
            i <= checks.len(),
            sep@ == "; "@,
            detail@ == join_with(failures(checks@.subrange(0, i as int)), "; "@),
            failed == (failures(checks@.subrange(0, i as int)).len() > 0),
        decreases checks.len() - i,
    {
        let ghost prefix = checks@.subrange(0, i + 1);
        let ghost before = failures(checks@.subrange(0, i as int));
        assert(prefix.drop_last() =~= checks@.subrange(0, i as int));
        assert(prefix.last() == checks@[i as int]);
        match &checks[i].1 {
            Some(m) => {
                let ghost d0 = detail@;
                if failed {
                    push_all(&mut detail, sep.as_slice());
                }
                push_all(&mut detail, chars_of(checks[i].0.as_str()).as_slice());
                push_all(&mut detail, chars_of(": ").as_slice());
                push_all(&mut detail, chars_of(m.as_str()).as_slice());
                failed = true;
                proof {
                    let item = checks@[i as int].0@ + ": "@ + m@;
                    assert(failures(prefix) == before.push(item));
                    assert(before.push(item).drop_last() =~= before);
                    if before.len() == 0 {
                        assert(detail@ =~= item);
                    } else {
                        assert(detail@ =~= d0 + "; "@ + item);
                    }
                }
            },
            None => {},
        }
        i = i + 1;
    }
    assert(checks@.subrange(0, checks.len() as int) =~= checks@);
    if failed {
        let mut msg = chars_of("thibitisha imeshindwa: ");
        push_all(&mut msg, detail.as_slice());
        Err(CliError::new(string_of(msg.as_slice()), 1))
    } else {
        Ok(())
    }
}

} // verus!
