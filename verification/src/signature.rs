//! Signature help: which call the cursor is inside, and the rendered signature shown for it,
//! e.g. `jumlisha(|` showing `kazi jumlisha(a: Namba, b: Namba) -> Namba`.

use vstd::prelude::*;
use crate::exports::{contract_view, entry_from, table_get, FnContract};
use crate::outline::{FnDecl, ModuleOutline};
use crate::text::{chars_eq, views, char_is_alphanumeric, char_is_whitespace, chars_of, is_alphanumeric, is_whitespace, push_all, slice_vec, string_of};

verus! {

/// Index of the first newline at or after `i` (or the end of `s`).
pub open spec fn skip_to_newline(s: Seq<char>, i: int) -> int
    decreases s.len() - i,
{
    if i < 0 || i >= s.len() || s[i] == '\n' {
        if i < 0 {
            0
        } else if i > s.len() {
            s.len() as int
        } else {
            i
        }
    } else {
        skip_to_newline(s, i + 1)
    }
}

pub proof fn lemma_skip_to_newline(s: Seq<char>, i: int)
    requires
        0 <= i <= s.len(),
    ensures
        i <= skip_to_newline(s, i) <= s.len(),
        skip_to_newline(s, i) < s.len() ==> s[skip_to_newline(s, i)] == '\n',
    decreases s.len() - i,
{
    if i < s.len() && s[i] != '\n' {
        lemma_skip_to_newline(s, i + 1);
    }
}

/// A line comment starts at `i`: `#` not followed by `[` (an attribute), or `//`.
pub open spec fn comment_starts(s: Seq<char>, i: int) -> bool {
    0 <= i < s.len() && ((s[i] == '#' && !(i + 1 < s.len() && s[i + 1] == '['))
        || (s[i] == '/' && i + 1 < s.len() && s[i + 1] == '/'))
}

/// Open parentheses, as `(char index of '(', commas seen at its depth)`, still unclosed when the
/// scan from position `i` (at source line `line`, column `col`) reaches the cursor
/// `(l0, c0)` or the end. Skips string, char literal and comment contents; a newline ends an
/// unterminated literal.
pub open spec fn scan_open_calls(
    s: Seq<char>,
    l0: int,
    c0: int,
    i: int,
    line: int,
    col: int,
    in_string: bool,
    in_char: bool,
    stack: Seq<(int, int)>,
) -> Seq<(int, int)>
    decreases s.len() - i,
{
    if i < 0 || i >= s.len() || line > l0 || (line == l0 && col >= c0) {
        stack
    } else {
        let c = s[i];
        if c == '\n' {
            scan_open_calls(s, l0, c0, i + 1, line + 1, 0, false, false, stack)
        } else if in_string || in_char {
            if c == '\\' {
                if i + 2 > s.len() {
                    stack
                } else {
                    scan_open_calls(s, l0, c0, i + 2, line, col + 2, in_string, in_char, stack)
                }
            } else if (in_string && c == '"') || (in_char && c == '\'') {
                scan_open_calls(s, l0, c0, i + 1, line, col + 1, false, false, stack)
            } else {
                scan_open_calls(s, l0, c0, i + 1, line, col + 1, in_string, in_char, stack)
            }
        } else if c == '"' {
            scan_open_calls(s, l0, c0, i + 1, line, col + 1, true, in_char, stack)
        } else if c == '\'' {
            scan_open_calls(s, l0, c0, i + 1, line, col + 1, in_string, true, stack)
        } else if comment_starts(s, i) {
            let j = skip_to_newline(s, i);
            if j <= i || j > s.len() {
                stack
            } else {
                scan_open_calls(s, l0, c0, j, line, col, in_string, in_char, stack)
            }
        } else if c == '(' {
            scan_open_calls(s, l0, c0, i + 1, line, col + 1, in_string, in_char, stack.push((i, 0)))
        } else if c == ')' {
            scan_open_calls(
                s,
                l0,
                c0,
                i + 1,
                line,
                col + 1,
                in_string,
                in_char,
                if stack.len() > 0 {
                    stack.drop_last()
                } else {
                    stack
                },
            )
        } else if c == ',' {
            scan_open_calls(
                s,
                l0,
                c0,
                i + 1,
                line,
                col + 1,
                in_string,
                in_char,
                if stack.len() > 0 {
                    stack.update(stack.len() - 1, (stack.last().0, stack.last().1 + 1))
                } else {
                    stack
                },
            )
        } else {
            scan_open_calls(s, l0, c0, i + 1, line, col + 1, in_string, in_char, stack)
        }
    }
}

proof fn lemma_scan_inside_string(
    s: Seq<char>,
    l0: int,
    c0: int,
    i: int,
    m: int,
    k: int,
    line: int,
    col: int,
    stack: Seq<(int, int)>,
)
    requires
        0 <= i < m <= k < s.len(),
        s[k] == '"',
        forall|x: int| i < x < k ==> (#[trigger] s[x]) != '"' && s[x] != '\\' && s[x] != '\n',
    ensures
        scan_open_calls(s, l0, c0, m, line, col + (m - i), true, false, stack) == scan_open_calls(
            s,
            l0,
            c0,
            k + 1,
            line,
            col + (k - i) + 1,
            false,
            false,
            stack,
        ),
    decreases k - m,
{
    if m < k {
        lemma_scan_inside_string(s, l0, c0, i, m + 1, k, line, col, stack);
        assert(s[m] != '"' && s[m] != '\\' && s[m] != '\n');
    }
}

/// The contents of a string literal play no part in finding the call: a string literal from a
/// `"` at `i` (met outside any literal) to the next `"` at `k`, holding no escape or newline,
/// is passed over as a whole, so commas and parentheses inside it neither count as argument
/// separators nor open or close calls.
pub proof fn law_string_literal_skipped(
    s: Seq<char>,
    l0: int,
    c0: int,
    i: int,
    k: int,
    line: int,
    col: int,
    stack: Seq<(int, int)>,
)
    requires
        0 <= i < k < s.len(),
        s[i] == '"',
        s[k] == '"',
        forall|x: int| i < x < k ==> (#[trigger] s[x]) != '"' && s[x] != '\\' && s[x] != '\n',
    ensures
        scan_open_calls(s, l0, c0, i, line, col, false, false, stack) == scan_open_calls(
            s,
            l0,
            c0,
            k + 1,
            line,
            col + (k - i) + 1,
            false,
            false,
            stack,
        ),
{
    lemma_scan_inside_string(s, l0, c0, i, i + 1, k, line, col, stack);
}

proof fn lemma_scan_inside_char(
    s: Seq<char>,
    l0: int,
    c0: int,
    i: int,
    m: int,
    k: int,
    line: int,
    col: int,
    stack: Seq<(int, int)>,
)
    requires
        0 <= i < m <= k < s.len(),
        s[k] == '\'',
        forall|x: int| i < x < k ==> (#[trigger] s[x]) != '\'' && s[x] != '\\' && s[x] != '\n',
    ensures
        scan_open_calls(s, l0, c0, m, line, col + (m - i), false, true, stack) == scan_open_calls(
            s,
            l0,
            c0,
            k + 1,
            line,
            col + (k - i) + 1,
            false,
            false,
            stack,
        ),
    decreases k - m,
{
    if m < k {
        lemma_scan_inside_char(s, l0, c0, i, m + 1, k, line, col, stack);
        assert(s[m] != '\'' && s[m] != '\\' && s[m] != '\n');
    }
}

/// Likewise a char literal from a `'` at `i` (met outside any literal) to the next `'` at `k`,
/// holding no escape or newline, is passed over as a whole.
pub proof fn law_char_literal_skipped(
    s: Seq<char>,
    l0: int,
    c0: int,
    i: int,
    k: int,
    line: int,
    col: int,
    stack: Seq<(int, int)>,
)
    requires
        0 <= i < k < s.len(),
        s[i] == '\'',
        s[k] == '\'',
        forall|x: int| i < x < k ==> (#[trigger] s[x]) != '\'' && s[x] != '\\' && s[x] != '\n',
    ensures
        scan_open_calls(s, l0, c0, i, line, col, false, false, stack) == scan_open_calls(
            s,
            l0,
            c0,
            k + 1,
            line,
            col + (k - i) + 1,
            false,
            false,
            stack,
        ),
{
    lemma_scan_inside_char(s, l0, c0, i, i + 1, k, line, col, stack);
}

/// Start of the whitespace run ending at `end`.
pub open spec fn skip_ws_back(s: Seq<char>, end: int) -> int
    decreases end,
{
    if end > 0 && end <= s.len() && char_is_whitespace(s[end - 1]) {
        skip_ws_back(s, end - 1)
    } else {
        end
    }
}

/// Start of the identifier (alphanumerics and `_`) ending at `end`.
pub open spec fn skip_word_back(s: Seq<char>, end: int) -> int
    decreases end,
{
    if end > 0 && end <= s.len() && (char_is_alphanumeric(s[end - 1]) || s[end - 1] == '_') {
        skip_word_back(s, end - 1)
    } else {
        end
    }
}

/// The call the cursor at 0-based `(l0, c0)` is inside: the identifier right before the
/// innermost unclosed `(` (whitespace between them allowed) and the number of commas seen
/// inside those parentheses, or `None` when there is no unclosed `(` or no identifier before
/// it (a grouping parenthesis).
pub open spec fn active_call_spec(s: Seq<char>, l0: int, c0: int) -> Option<(Seq<char>, int)> {
    let stack = scan_open_calls(s, l0, c0, 0, 0, 0, false, false, Seq::empty());
    if stack.len() == 0 {
        None
    } else {
        let (p, commas) = stack.last();
        let end = skip_ws_back(s, p);
        let start = skip_word_back(s, end);
        if start == end {
            None
        } else {
            Some((s.subrange(start, end), commas))
        }
    }
}

proof fn lemma_skip_back_bounds(s: Seq<char>, end: int)
    requires
        0 <= end <= s.len(),
    ensures
        0 <= skip_ws_back(s, end) <= end,
        0 <= skip_word_back(s, end) <= end,
        forall|k: int| skip_word_back(s, end) <= k < end ==> (char_is_alphanumeric(#[trigger] s[k])
            || s[k] == '_'),
    decreases end,
{
    if end > 0 {
        lemma_skip_back_bounds(s, end - 1);
    }
}

/// The call the cursor at 0-based `(line_0, char_0)` is inside: `(callee name, index of the
/// active parameter)` (see `active_call_spec`).
pub fn active_call_at(source: &str, line_0: u32, char_0: u32) -> (r: Option<(String, usize)>)
    ensures
        match r {
            None => active_call_spec(source@, line_0 as int, char_0 as int) is None,
            Some((name, k)) => active_call_spec(source@, line_0 as int, char_0 as int) == Some(
                (name@, k as int),
            ),
        },
        r matches Some((name, k)) ==> name@.len() > 0 && forall|j: int|
            0 <= j < name@.len() ==> (char_is_alphanumeric(#[trigger] name@[j]) || name@[j] == '_'),
{
    let chars = chars_of(source);
    let n = chars.len();
    let ghost s = chars@;
    let mut line: usize = 0;
    let mut col: usize = 0;
    let mut in_string = false;
    let mut in_char = false;
    let mut i: usize = 0;
    let mut stack: Vec<(usize, usize)> = Vec::new();
    let ghost target = scan_open_calls(s, line_0 as int, char_0 as int, 0, 0, 0, false, false, Seq::empty());
    assert(stack@.map_values(|p: (usize, usize)| (p.0 as int, p.1 as int)) =~= Seq::<(int, int)>::empty());
    while i < n
        invariant
            n == chars.len(),
            s == chars@,
            line <= i,
            col <= i,
            i <= n,
            forall|k: int| 0 <= k < stack.len() ==> (#[trigger] stack@[k]).0 < n,
            forall|k: int| 0 <= k < stack.len() ==> (#[trigger] stack@[k]).1 <= i,
            scan_open_calls(
                s,
                line_0 as int,
                char_0 as int,
                i as int,
                line as int,
                col as int,
                in_string,
                in_char,
                stack@.map_values(|p: (usize, usize)| (p.0 as int, p.1 as int)),
            ) == target,
        ensures
            stack@.map_values(|p: (usize, usize)| (p.0 as int, p.1 as int)) == target,
            forall|k: int| 0 <= k < stack.len() ==> #[trigger] stack@[k].0 < n,
        decreases n - i,
    {
        let ghost st = stack@.map_values(|p: (usize, usize)| (p.0 as int, p.1 as int));
        if line > line_0 as usize || (line == line_0 as usize && col >= char_0 as usize) {
            break;
        }
        let c = chars[i];
        if c == '\n' {
            line = line + 1;
            col = 0;
            in_string = false;
            in_char = false;
            i = i + 1;
            continue;
        }
        if in_string || in_char {
            if c == '\\' {
                if i + 1 >= n {
                    break;
                }
                i = i + 2;
                col = col + 2;
                continue;
            }
            if (in_string && c == '"') || (in_char && c == '\'') {
                in_string = false;
                in_char = false;
            }
            i = i + 1;
            col = col + 1;
            continue;
        }
        if c == '"' {
            in_string = true;
        } else if c == '\'' {
            in_char = true;
        } else if (c == '#' && !(i + 1 < n && chars[i + 1] == '[')) || (c == '/' && i + 1 < n
            && chars[i + 1] == '/') {
            assert(comment_starts(s, i as int));
            proof {
                lemma_skip_to_newline(s, i as int);
            }
            let ghost start = i;
            while i < n && chars[i] != '\n'
                invariant
                    start <= i <= n,
                    n == chars.len(),
                    s == chars@,
                    skip_to_newline(s, start as int) == skip_to_newline(s, i as int),
                    forall|k: int| 0 <= k < stack.len() ==> (#[trigger] stack@[k]).0 < n,
            forall|k: int| 0 <= k < stack.len() ==> (#[trigger] stack@[k]).1 <= i,
                decreases n - i,
            {
                i = i + 1;
            }
            assert(i as int == skip_to_newline(s, i as int));
            assert(i > start);
            continue;
        } else if c == '(' {
            stack.push((i, 0));
            assert(stack@.map_values(|p: (usize, usize)| (p.0 as int, p.1 as int)) =~= st.push((i as int, 0)));
        } else if c == ')' {
            if stack.len() > 0 {
                stack.pop();
                assert(stack@.map_values(|p: (usize, usize)| (p.0 as int, p.1 as int)) =~= st.drop_last());
            }
        } else if c == ',' {
            if stack.len() > 0 {
                let last = stack.len() - 1;
                let (p, k) = stack[last];
                stack.set(last, (p, k + 1));
                assert(stack@.map_values(|p: (usize, usize)| (p.0 as int, p.1 as int)) =~= st.update(
                    st.len() - 1,
                    (st.last().0, st.last().1 + 1),
                ));
            }
        }
        i = i + 1;
        col = col + 1;
    }
    let ghost stf = stack@.map_values(|p: (usize, usize)| (p.0 as int, p.1 as int));
    assert(stf == target);
    if stack.len() == 0 {
        return None;
    }
    let (paren_idx, comma_count) = stack[stack.len() - 1];
    assert(stf.last() == (paren_idx as int, comma_count as int));
    let mut end = paren_idx;
    while end > 0 && is_whitespace(chars[end - 1])
        invariant
            end <= paren_idx < n,
            n == chars.len(),
            s == chars@,
            skip_ws_back(s, paren_idx as int) == skip_ws_back(s, end as int),
        decreases end,
    {
        end = end - 1;
    }
    let mut start = end;
    while start > 0 && (is_alphanumeric(chars[start - 1]) || chars[start - 1] == '_')
        invariant
            start <= end <= paren_idx < n,
            n == chars.len(),
            s == chars@,
            skip_word_back(s, end as int) == skip_word_back(s, start as int),
        decreases start,
    {
        start = start - 1;
    }
    proof {
        lemma_skip_back_bounds(s, end as int);
    }
    if start == end {
        return None;
    }
    let name = slice_vec(&chars, start, end);
    Some((string_of(name.as_slice()), comma_count))
}

/// A rendered signature: the full label, each parameter's own label (index-aligned with the
/// `(...)` section of the full label), and the active parameter.
pub struct SignatureInfo {
    pub label: String,
    pub params: Vec<String>,
    pub active_param: usize,
}

/// `"<name>: <type>"`.
pub open spec fn param_label(name: Seq<char>, ty: Seq<char>) -> Seq<char> {
    name + ": "@ + ty
}

/// The labels joined with `", "`.
pub open spec fn join_comma(labels: Seq<Seq<char>>) -> Seq<char>
    decreases labels.len(),
{
    if labels.len() == 0 {
        Seq::empty()
    } else if labels.len() == 1 {
        labels[0]
    } else {
        join_comma(labels.drop_last()) + ", "@ + labels.last()
    }
}

/// `"kazi <name>(<params>) -> <return type>"`.
pub open spec fn signature_label(name: Seq<char>, params: Seq<Seq<char>>, ret: Seq<char>) -> Seq<char> {
    "kazi "@ + name + "("@ + join_comma(params) + ") -> "@ + ret
}

/// Signature help for a function with named parameters: each parameter rendered as
/// `name: Type`, and the full `kazi name(a: A, b: B) -> R` label.
pub fn signature_from_params(
    name: &str,
    params: &[(String, String)],
    return_type: &str,
    active_param: usize,
) -> (r: SignatureInfo)
    ensures
        r.params@.len() == params@.len(),
        forall|k: int| 0 <= k < params@.len() ==> #[trigger] r.params@[k]@ == param_label(
            params@[k].0@,
            params@[k].1@,
        ),
        r.label@ == signature_label(
            name@,
            r.params@.map_values(|p: String| p@),
            return_type@,
        ),
        r.active_param == active_param,
{
    let mut labels: Vec<String> = Vec::new();
    let mut joined: Vec<char> = Vec::new();
    let sep = chars_of(": ");
    let comma = chars_of(", ");
    let mut i: usize = 0;
    while i < params.len()
        invariant
            i <= params.len(),
            labels@.len() == i,
            sep@ == ": "@,
            comma@ == ", "@,
            forall|k: int| 0 <= k < i ==> #[trigger] labels@[k]@ == param_label(
                params@[k].0@,
                params@[k].1@,
            ),
            joined@ == join_comma(labels@.map_values(|p: String| p@)),
        decreases params.len() - i,
    {
        let mut one: Vec<char> = chars_of(params[i].0.as_str());
        push_all(&mut one, sep.as_slice());
        let ty = chars_of(params[i].1.as_str());
        push_all(&mut one, ty.as_slice());
        let ghost old_labels = labels@.map_values(|p: String| p@);
        if i > 0 {
            push_all(&mut joined, comma.as_slice());
        }
        push_all(&mut joined, one.as_slice());
        labels.push(string_of(one.as_slice()));
        let ghost new_labels = labels@.map_values(|p: String| p@);
        assert(new_labels.drop_last() =~= old_labels);
        assert(new_labels.last() == one@);
        if i == 0 {
            assert(joined@ =~= join_comma(new_labels));
        }
        i = i + 1;
    }
    let mut label: Vec<char> = chars_of("kazi ");
    let name_chars = chars_of(name);
    push_all(&mut label, name_chars.as_slice());
    let open = chars_of("(");
    push_all(&mut label, open.as_slice());
    push_all(&mut label, joined.as_slice());
    let close = chars_of(") -> ");
    push_all(&mut label, close.as_slice());
    let ret = chars_of(return_type);
    push_all(&mut label, ret.as_slice());
    SignatureInfo { label: string_of(label.as_slice()), params: labels, active_param }
}

/// A signature as plain values: label, parameter labels, active parameter.
pub open spec fn signature_view(s: SignatureInfo) -> (Seq<char>, Seq<Seq<char>>, usize) {
    (s.label@, views(s.params@), s.active_param)
}

/// The signature shown for a declared function.
pub open spec fn declared_signature(f: FnDecl, active: usize) -> (Seq<char>, Seq<Seq<char>>, usize) {
    let ps = f.params@.map_values(|p: (String, String)| param_label(p.0@, p.1@));
    (signature_label(f.name@, ps, f.return_type@), ps, active)
}

/// Index of the first function named `n` (public ones only when `public_only`), from `i` on.
pub open spec fn first_named_fn(fs: Seq<FnDecl>, n: Seq<char>, public_only: bool, i: int) -> Option<int>
    decreases fs.len() - i,
{
    if i < 0 || i >= fs.len() {
        None
    } else if fs[i].name@ == n && (fs[i].is_public || !public_only) {
        Some(i)
    } else {
        first_named_fn(fs, n, public_only, i + 1)
    }
}

/// The first public function named `n` among the modules `ms[j..]`, as (module, function).
pub open spec fn first_public_in(ms: Seq<ModuleOutline>, n: Seq<char>, j: int) -> Option<(int, int)>
    decreases ms.len() - j,
{
    if j < 0 || j >= ms.len() {
        None
    } else {
        match first_named_fn(ms[j].functions@, n, true, 0) {
            Some(k) => Some((j, k)),
            None => first_public_in(ms, n, j + 1),
        }
    }
}

/// The signature help for a call to `name` with parameter `active` active: a function of the
/// current module (its parameters named), else a public function of another project module, else
/// a builtin's signature (its parameter types only).
pub open spec fn signature_for(
    module: ModuleOutline,
    workspace: Seq<ModuleOutline>,
    externs: Seq<(String, FnContract)>,
    name: Seq<char>,
    active: usize,
) -> Option<(Seq<char>, Seq<Seq<char>>, usize)> {
    match first_named_fn(module.functions@, name, false, 0) {
        Some(k) => Some(declared_signature(module.functions@[k], active)),
        None => match first_public_in(workspace, name, 0) {
            Some((j, k)) => Some(declared_signature(workspace[j].functions@[k], active)),
            None => match entry_from(externs, name, 0) {
                Some(c) => Some((signature_label(name, contract_view(c).0, contract_view(c).1), contract_view(c).0, active)),
                None => None,
            },
        },
    }
}

proof fn lemma_first_named_bounds(fs: Seq<FnDecl>, n: Seq<char>, p: bool, i: int)
    requires
        0 <= i,
    ensures
        first_named_fn(fs, n, p, i) matches Some(k) ==> i <= k < fs.len(),
    decreases fs.len() - i,
{
    if i < fs.len() && !(fs[i].name@ == n && (fs[i].is_public || !p)) {
        lemma_first_named_bounds(fs, n, p, i + 1);
    }
}

fn find_named_fn(fs: &Vec<FnDecl>, n: &Vec<char>, public_only: bool) -> (r: Option<usize>)
    ensures
        match first_named_fn(fs@, n@, public_only, 0) {
            Some(k) => r matches Some(j) && j == k,
            None => r is None,
        },
        r matches Some(j) ==> j < fs@.len(),
{
    proof {
        lemma_first_named_bounds(fs@, n@, public_only, 0);
    }
    let mut i: usize = 0;
    while i < fs.len()
        invariant
            i <= fs.len(),
            first_named_fn(fs@, n@, public_only, 0) == first_named_fn(fs@, n@, public_only, i as int),
        decreases fs.len() - i,
    {
        if chars_eq(chars_of(fs[i].name.as_str()).as_slice(), n.as_slice()) && (fs[i].is_public || !public_only) {
            return Some(i);
        }
        i = i + 1;
    }
    None
}

fn declared(f: &FnDecl, active: usize) -> (r: SignatureInfo)
    ensures
        signature_view(r) == declared_signature(*f, active),
{
    let r = signature_from_params(f.name.as_str(), f.params.as_slice(), f.return_type.as_str(), active);
    assert(views(r.params@) =~= f.params@.map_values(|p: (String, String)| param_label(p.0@, p.1@)));
    assert(r.params@.map_values(|p: String| p@) =~= views(r.params@));
    r
}

/// Signature help at the 0-based cursor: for the call the cursor is inside, the signature of
/// the function called. `module` is the current document's declarations (`None` when it did not
/// parse), `workspace` the other project modules, `extern_fns` the builtin signatures.
pub fn compute_signature_help(
    source: &str,
    line_0: u32,
    char_0: u32,
    module: &Option<ModuleOutline>,
    workspace: &Vec<ModuleOutline>,
    extern_fns: &Vec<(String, FnContract)>,
) -> (r: Option<SignatureInfo>)
    ensures
        match active_call_spec(source@, line_0 as int, char_0 as int) {
            None => r is None,
            Some((name, active)) => match *module {
                None => r is None,
                Some(m) => match signature_for(m, workspace@, extern_fns@, name, active as usize) {
                    Some(v) => r matches Some(s) && signature_view(s) == v,
                    None => r is None,
                },
            },
        },
{
    let (name, active) = match active_call_at(source, line_0, char_0) {
        Some(x) => x,
        None => return None,
    };
    let m = match module {
        Some(m) => m,
        None => return None,
    };
    let n = chars_of(name.as_str());
    match find_named_fn(&m.functions, &n, false) {
        Some(k) => return Some(declared(&m.functions[k], active)),
        None => {},
    }
    let mut j: usize = 0;
    while j < workspace.len()
        invariant
            j <= workspace.len(),
            n@ == name@,
            active_call_spec(source@, line_0 as int, char_0 as int) == Some((name@, active as int)),
            *module == Some(*m),
            first_named_fn(m.functions@, name@, false, 0) is None,
            first_public_in(workspace@, name@, 0) == first_public_in(workspace@, name@, j as int),
        decreases workspace.len() - j,
    {
        match find_named_fn(&workspace[j].functions, &n, true) {
            Some(k) => return Some(declared(&workspace[j].functions[k], active)),
            None => {},
        }
        j = j + 1;
    }
    match table_get(extern_fns, name.as_str()) {
        Some(c) => {
            let mut params: Vec<String> = Vec::new();
            let mut i: usize = 0;
            while i < c.params.len()
                invariant
                    i <= c.params.len(),
                    views(params@) == views(c.params@.subrange(0, i as int)),
                decreases c.params.len() - i,
            {
                params.push(c.params[i].clone());
                assert(views(c.params@.subrange(0, i + 1)) =~= views(c.params@.subrange(0, i as int)).push(c.params@[i as int]@));
                assert(views(params@) =~= views(params@.drop_last()).push(params@.last()@));
                i = i + 1;
            }
            assert(c.params@.subrange(0, c.params.len() as int) =~= c.params@);
            let mut label: Vec<char> = chars_of("kazi ");
            push_all(&mut label, n.as_slice());
            push_all(&mut label, chars_of("(").as_slice());
            let mut k: usize = 0;
            let comma = chars_of(", ");
            assert(views(params@).subrange(0, 0) =~= Seq::<Seq<char>>::empty());
            let ghost head = label@;
            while k < params.len()
                invariant
                    k <= params.len(),
                    comma@ == ", "@,
                    label@ == head + join_comma(views(params@).subrange(0, k as int)),
                decreases params.len() - k,
            {
                if k > 0 {
                    push_all(&mut label, comma.as_slice());
                }
                push_all(&mut label, chars_of(params[k].as_str()).as_slice());
                proof {
                    let v = views(params@);
                    assert(v.subrange(0, k + 1).drop_last() =~= v.subrange(0, k as int));
                    if k == 0 {
                        assert(v.subrange(0, 1) =~= seq![v[0]]);
                    }
                }
                k = k + 1;
            }
            assert(views(params@).subrange(0, params.len() as int) =~= views(params@));
            push_all(&mut label, chars_of(") -> ").as_slice());
            push_all(&mut label, chars_of(c.ret.as_str()).as_slice());
            Some(SignatureInfo { label: string_of(label.as_slice()), params, active_param: active })
        },
        None => None,
    }
}

} // verus!
