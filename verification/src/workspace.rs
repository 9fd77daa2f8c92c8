//! The small `pata.toml` reading the editor does to seed resolution: the entrypoint from
//! `[chanzo] kuingia`, and the `[tegemezi]` entries that are version strings or path tables.

use vstd::prelude::*;
use crate::exports::{entry_from, table_get, table_insert, table_map};
use crate::resolution::Dependency;
use crate::text::{
    chars_eq, chars_of, eq_lit, lines_of, views, matches_at, occurs_at, slice_vec, string_of, trim, trim_bounds,
    LineReader,
};

verus! {

/// A dependency as plain values: kind (0 version, 1 path, 2 git) and its texts.
pub open spec fn dep_view(d: Dependency) -> (int, Seq<char>, Seq<char>) {
    match d {
        Dependency::Version(v) => (0, v@, Seq::empty()),
        Dependency::Path(p) => (1, p@, Seq::empty()),
        Dependency::Git { url, version } => (2, url@, version@),
    }
}

/// Index of the first `c` in `s` at or after `i`.
pub open spec fn find_char_from(s: Seq<char>, c: char, i: int) -> Option<int>
    decreases s.len() - i,
{
    if i < 0 || i >= s.len() {
        None
    } else if s[i] == c {
        Some(i)
    } else {
        find_char_from(s, c, i + 1)
    }
}

/// Index of the first occurrence of `p` in `s` at or after `i`.
pub open spec fn find_text_from(s: Seq<char>, p: Seq<char>, i: int) -> Option<int>
    decreases s.len() - i,
{
    if i < 0 || i >= s.len() {
        None
    } else if occurs_at(s, p, i) {
        Some(i)
    } else {
        find_text_from(s, p, i + 1)
    }
}

/// `s` without its leading and trailing characters `a` or `b` (`str::trim_matches`).
pub open spec fn strip_both(s: Seq<char>, a: char, b: char) -> Seq<char>
    decreases s.len(),
{
    if s.len() > 0 && (s[0] == a || s[0] == b) {
        strip_both(s.drop_first(), a, b)
    } else {
        strip_end(s, a, b)
    }
}

pub open spec fn strip_end(s: Seq<char>, a: char, b: char) -> Seq<char>
    decreases s.len(),
{
    if s.len() > 0 && (s.last() == a || s.last() == b) {
        strip_end(s.drop_last(), a, b)
    } else {
        s
    }
}

/// What reading the manifest has found so far: the entrypoint (relative to the project root)
/// if one was given, the dependencies by name, and the current section.
pub type ManifestScan = (Option<Seq<char>>, Map<Seq<char>, (int, Seq<char>, Seq<char>)>, Seq<char>);

/// One manifest line. Blank lines and `#` comments are skipped; `[name]` starts a section;
/// other lines are `key = value` (lines without `=` are skipped). In `[chanzo]`, `kuingia`
/// sets the entrypoint (quotes stripped); in `[tegemezi]`, a value holding `path` and then a
/// quoted text is a path dependency on that text, and a value starting with a quote is a
/// version dependency (quotes stripped).
pub open spec fn manifest_step(st: ManifestScan, raw: Seq<char>) -> ManifestScan {
    let line = trim(raw);
    if line.len() == 0 || line[0] == '#' {
        st
    } else if line[0] == '[' && line.last() == ']' {
        (st.0, st.1, strip_both(line, '[', ']'))
    } else {
        match find_char_from(line, '=', 0) {
            None => st,
            Some(e) => {
                let key = trim(line.subrange(0, e));
                let value = trim(line.subrange(e + 1, line.len() as int));
                if st.2 == "chanzo"@ && key == "kuingia"@ {
                    (Some(strip_both(value, '"', '"')), st.1, st.2)
                } else if st.2 == "tegemezi"@ {
                    match find_text_from(value, "path"@, 0) {
                        Some(ps) => match find_char_from(value, '"', ps) {
                            Some(q1) => match find_char_from(value, '"', q1 + 1) {
                                Some(q2) => (st.0, st.1.insert(key, (1, value.subrange(q1 + 1, q2), Seq::empty())), st.2),
                                None => st,
                            },
                            None => st,
                        },
                        None => if value.len() > 0 && value[0] == '"' {
                            (st.0, st.1.insert(key, (0, strip_both(value, '"', '"'), Seq::empty())), st.2)
                        } else {
                            st
                        },
                    }
                } else {
                    st
                }
            },
        }
    }
}

/// The scan after the first `n` lines.
pub open spec fn manifest_scan(lines: Seq<Seq<char>>, n: int) -> ManifestScan
    decreases n,
{
    if n <= 0 || n > lines.len() {
        (None, Map::empty(), Seq::empty())
    } else {
        manifest_step(manifest_scan(lines, n - 1), lines[n - 1])
    }
}

pub(crate) fn find_char(v: &Vec<char>, c: char, from: usize) -> (r: Option<usize>)
    ensures
        match find_char_from(v@, c, from as int) {
            Some(k) => r == Some(k as usize) && from <= k < v@.len(),
            None => r is None,
        },
{
    let mut i = from;
    while i < v.len()
        invariant
            from <= i,
            find_char_from(v@, c, from as int) == find_char_from(v@, c, i as int),
        decreases v.len() - i,
    {
        if v[i] == c {
            return Some(i);
        }
        i = i + 1;
    }
    None
}

pub(crate) fn find_text(v: &Vec<char>, p: &str, from: usize) -> (r: Option<usize>)
    ensures
        match find_text_from(v@, p@, from as int) {
            Some(k) => r == Some(k as usize) && from <= k < v@.len(),
            None => r is None,
        },
{
    let pv = chars_of(p);
    let mut i = from;
    while i < v.len()
        invariant
            from <= i,
            pv@ == p@,
            find_text_from(v@, p@, from as int) == find_text_from(v@, p@, i as int),
        decreases v.len() - i,
    {
        if matches_at(v, i, pv.as_slice()) {
            return Some(i);
        }
        i = i + 1;
    }
    None
}

fn strip_chars(v: &Vec<char>, a: char, b: char) -> (r: Vec<char>)
    ensures
        r@ == strip_both(v@, a, b),
{
    let mut lo: usize = 0;
    assert(v@.subrange(0, v@.len() as int) =~= v@);
    while lo < v.len() && (v[lo] == a || v[lo] == b)
        invariant
            lo <= v.len(),
            strip_both(v@, a, b) == strip_both(v@.subrange(lo as int, v@.len() as int), a, b),
        decreases v.len() - lo,
    {
        assert(v@.subrange(lo as int, v@.len() as int).drop_first() =~= v@.subrange(lo + 1, v@.len() as int));
        lo = lo + 1;
    }
    let mut hi: usize = v.len();
    assert(v@.subrange(lo as int, v@.len() as int) =~= v@.subrange(lo as int, hi as int));
    while hi > lo && (v[hi - 1] == a || v[hi - 1] == b)
        invariant
            lo <= hi <= v.len(),
            strip_both(v@, a, b) == strip_end(v@.subrange(lo as int, hi as int), a, b),
        decreases hi,
    {
        assert(v@.subrange(lo as int, hi as int).drop_last() =~= v@.subrange(lo as int, hi - 1));
        hi = hi - 1;
    }
    slice_vec(v, lo, hi)
}

/// The dependencies of a table as plain values.
pub open spec fn deps_view(t: Seq<(String, Dependency)>) -> Map<Seq<char>, (int, Seq<char>, Seq<char>)> {
    table_map(t).map_values(|d: Dependency| dep_view(d))
}

proof fn lemma_insert_dep(t: Seq<(String, Dependency)>, t2: Seq<(String, Dependency)>, k: Seq<char>, d: Dependency)
    requires
        table_map(t2) == table_map(t).insert(k, d),
    ensures
        deps_view(t2) == deps_view(t).insert(k, dep_view(d)),
{
    assert(deps_view(t2) =~= deps_view(t).insert(k, dep_view(d)));
}

pub open spec fn entry_view(e: Option<String>) -> Option<Seq<char>> {
    match e {
        Some(s) => Some(s@),
        None => None,
    }
}

fn manifest_line(
    raw: &Vec<char>,
    entry: &mut Option<String>,
    deps: &mut Vec<(String, Dependency)>,
    section: &mut Vec<char>,
)
    ensures
        (entry_view(*final(entry)), deps_view(final(deps)@), final(section)@) == manifest_step(
            (entry_view(*old(entry)), deps_view(old(deps)@), old(section)@),
            raw@,
        ),
{
    let (a, b) = trim_bounds(raw, 0, raw.len());
    assert(raw@.subrange(0, raw@.len() as int) =~= raw@);
    let line = slice_vec(raw, a, b);
    if line.len() == 0 || line[0] == '#' {
        return;
    }
    if line[0] == '[' && line[line.len() - 1] == ']' {
        *section = strip_chars(&line, '[', ']');
        return;
    }
    match find_char(&line, '=', 0) {
        None => {},
        Some(e) => {
            let (ka, kb) = trim_bounds(&line, 0, e);
            let key = slice_vec(&line, ka, kb);
            let (va, vb) = trim_bounds(&line, e + 1, line.len());
            let value = slice_vec(&line, va, vb);
            if eq_lit(section, "chanzo") && eq_lit(&key, "kuingia") {
                *entry = Some(string_of(strip_chars(&value, '"', '"').as_slice()));
            } else if eq_lit(section, "tegemezi") {
                match find_text(&value, "path", 0) {
                    Some(ps) => match find_char(&value, '"', ps) {
                        Some(q1) => match find_char(&value, '"', q1 + 1) {
                            Some(q2) => {
                                let ghost t0 = deps@;
                                let d = Dependency::Path(string_of(slice_vec(&value, q1 + 1, q2).as_slice()));
                                let ghost gd = d;
                                let k = string_of(key.as_slice());
                                let ghost gk = k;
                                table_insert(deps, k, d);
                                proof {
                                    lemma_insert_dep(t0, deps@, gk@, gd);
                                }
                            },
                            None => {},
                        },
                        None => {},
                    },
                    None => {
                        if value.len() > 0 && value[0] == '"' {
                            let ghost t0 = deps@;
                            let d = Dependency::Version(string_of(strip_chars(&value, '"', '"').as_slice()));
                            let ghost gd = d;
                            let k = string_of(key.as_slice());
                            let ghost gk = k;
                            table_insert(deps, k, d);
                            proof {
                                lemma_insert_dep(t0, deps@, gk@, gd);
                            }
                        }
                    },
                }
            }
        },
    }
}

/// Read a manifest's text: the entrypoint it names (relative to the project root; `None` when
/// it names none, the default being `src/kuu.as`) and its version and path dependencies, a
/// later entry for a name replacing an earlier one.
pub fn read_entrypoint_and_deps(content: &str) -> (r: (Option<String>, Vec<(String, Dependency)>))
    ensures
        entry_view(r.0) == manifest_scan(lines_of(content@), lines_of(content@).len() as int).0,
        deps_view(r.1@) == manifest_scan(lines_of(content@), lines_of(content@).len() as int).1,
{
    let mut reader = LineReader::new(content);
    let ghost all = lines_of(content@);
    let mut entry: Option<String> = None;
    let mut deps: Vec<(String, Dependency)> = Vec::new();
    let mut section: Vec<char> = Vec::new();
    let ghost mut n: int = 0;
    assert(deps_view(deps@) =~= Map::empty());
    assert(section@ =~= Seq::<char>::empty());
    loop
        invariant
            0 <= n <= all.len(),
            all == lines_of(content@),
            reader.rest() == all.subrange(n, all.len() as int),
            (entry_view(entry), deps_view(deps@), section@) == manifest_scan(all, n),
        ensures
            n == all.len(),
            (entry_view(entry), deps_view(deps@), section@) == manifest_scan(all, n),
        decreases all.len() - n,
    {
        match reader.next_line() {
            None => {
                assert(n == all.len());
                break;
            },
            Some(l) => {
                assert(all[n] == l@);
                manifest_line(&l, &mut entry, &mut deps, &mut section);
                proof {
                    n = n + 1;
                }
                assert(all.subrange(n, all.len() as int) =~= all.subrange(n - 1, all.len() as int).drop_first());
            },
        }
    }
    (entry, deps)
}

/// The modules that import `m` directly, by the reverse-dependency table (the first entry
/// for `m`).
pub open spec fn importers_of(rd: Seq<(String, Vec<String>)>, m: Seq<char>) -> Seq<Seq<char>> {
    match entry_from(rd, m, 0) {
        Some(v) => views(v@),
        None => Seq::empty(),
    }
}

/// The modules reached from `from` by one to `k` import edges followed backwards.
pub open spec fn importers_within(rd: Seq<(String, Vec<String>)>, from: Seq<char>, k: nat) -> Set<Seq<char>>
    decreases k,
{
    if k == 0 {
        Set::empty()
    } else {
        let p = importers_within(rd, from, (k - 1) as nat);
        Set::new(
            |y: Seq<char>|
                p.contains(y) || importers_of(rd, from).contains(y) || exists|x: Seq<char>|
                    p.contains(x) && #[trigger] importers_of(rd, x).contains(y),
        )
    }
}

/// `y` imports `from` directly or through other modules.
pub open spec fn imports_transitively(rd: Seq<(String, Vec<String>)>, from: Seq<char>, y: Seq<char>) -> bool {
    exists|k: nat| #[trigger] importers_within(rd, from, k).contains(y)
}

/// Every importer name the table lists.
pub open spec fn all_importers(rd: Seq<(String, Vec<String>)>) -> Set<Seq<char>> {
    rd.map_values(|e: (String, Vec<String>)| views(e.1@)).flatten().to_set()
}

proof fn lemma_in_flatten(ss: Seq<Seq<Seq<char>>>, i: int, j: int)
    requires
        0 <= i < ss.len(),
        0 <= j < ss[i].len(),
    ensures
        ss.flatten().contains(ss[i][j]),
    decreases i,
{
    if i == 0 {
        assert(ss.flatten() == ss.first() + ss.drop_first().flatten());
        assert(ss.flatten()[j] == ss[0][j]);
    } else {
        lemma_in_flatten(ss.drop_first(), i - 1, j);
        let k = choose|k: int| 0 <= k < ss.drop_first().flatten().len() && ss.drop_first().flatten()[k] == ss[i][j];
        assert(ss.flatten() == ss.first() + ss.drop_first().flatten());
        assert(ss.flatten()[ss.first().len() + k] == ss[i][j]);
    }
}

proof fn lemma_entry_is_listed(rd: Seq<(String, Vec<String>)>, m: Seq<char>, i: int)
    requires
        0 <= i,
        entry_from(rd, m, i) is Some,
    ensures
        exists|k: int| 0 <= k < rd.len() && rd[k].1 == entry_from(rd, m, i)->0,
    decreases rd.len() - i,
{
    if rd[i].0@ != m {
        lemma_entry_is_listed(rd, m, i + 1);
    }
}

proof fn lemma_importer_in_universe(rd: Seq<(String, Vec<String>)>, m: Seq<char>, j: int)
    requires
        0 <= j < importers_of(rd, m).len(),
    ensures
        all_importers(rd).contains(importers_of(rd, m)[j]),
{
    lemma_entry_is_listed(rd, m, 0);
    let k = choose|k: int| 0 <= k < rd.len() && rd[k].1 == entry_from(rd, m, 0)->0;
    let ss = rd.map_values(|e: (String, Vec<String>)| views(e.1@));
    assert(ss[k] == importers_of(rd, m));
    lemma_in_flatten(ss, k, j);
}

proof fn lemma_closed_covers(rd: Seq<(String, Vec<String>)>, from: Seq<char>, seen: Set<Seq<char>>, k: nat)
    requires
        forall|y: Seq<char>| importers_of(rd, from).contains(y) ==> seen.contains(y),
        forall|x: Seq<char>, y: Seq<char>|
            seen.contains(x) && #[trigger] importers_of(rd, x).contains(y) ==> seen.contains(y),
    ensures
        importers_within(rd, from, k).subset_of(seen),
    decreases k,
{
    if k > 0 {
        lemma_closed_covers(rd, from, seen, (k - 1) as nat);
    }
}

pub(crate) fn contains_name(v: &Vec<String>, w: &Vec<char>) -> (r: bool)
    ensures
        r == views(v@).contains(w@),
{
    let mut i: usize = 0;
    while i < v.len()
        invariant
            i <= v.len(),
            forall|j: int| 0 <= j < i ==> (#[trigger] v@[j])@ != w@,
        decreases v.len() - i,
    {
        if chars_eq(chars_of(v[i].as_str()).as_slice(), w.as_slice()) {
            assert(views(v@)[i as int] == w@);
            return true;
        }
        i = i + 1;
    }
    assert(!views(v@).contains(w@)) by {
        if views(v@).contains(w@) {
            let j = choose|j: int| 0 <= j < views(v@).len() && views(v@)[j] == w@;
            assert(v@[j]@ == w@);
        }
    }
    false
}

/// Every module that imports `name` directly or through other modules (the scope of a
/// cross-file references search), each once; `name` itself is not among them.
pub fn transitive_importers(reverse_deps: &Vec<(String, Vec<String>)>, name: &str) -> (r: Vec<String>)
    ensures
        views(r@).no_duplicates(),
        forall|y: Seq<char>| #[trigger] views(r@).contains(y) <==> (y != name@ && imports_transitively(
            reverse_deps@,
            name@,
            y,
        )),
{
    let ghost rd = reverse_deps@;
    let ghost u = all_importers(rd);
    let ghost from = name@;
    proof {
        vstd::seq_lib::seq_to_set_is_finite(rd.map_values(|e: (String, Vec<String>)| views(e.1@)).flatten());
    }
    let mut seen: Vec<String> = Vec::new();
    let mut queue: Vec<Vec<char>> = Vec::new();
    queue.push(chars_of(name));
    assert(queue@.map_values(|c: Vec<char>| c@)[0] == from);
    assert(views(seen@) =~= Seq::<Seq<char>>::empty());
    loop
        invariant
            rd == reverse_deps@,
            u == all_importers(rd),
            u.finite(),
            from == name@,
            views(seen@).no_duplicates(),
            views(seen@).to_set().subset_of(u),
            forall|y: Seq<char>| #[trigger] views(seen@).contains(y) ==> imports_transitively(rd, from, y),
            forall|q: int| 0 <= q < queue@.len() ==> (#[trigger] queue@[q])@ == from || views(seen@).contains(queue@[q]@),
            forall|x: Seq<char>, y: Seq<char>|
                (x == from || views(seen@).contains(x)) && !queue@.map_values(|c: Vec<char>| c@).contains(x)
                    && #[trigger] importers_of(rd, x).contains(y) ==> views(seen@).contains(y),
        ensures
            queue@.len() == 0,
            views(seen@).no_duplicates(),
            forall|y: Seq<char>| #[trigger] views(seen@).contains(y) ==> imports_transitively(rd, from, y),
            forall|x: Seq<char>, y: Seq<char>|
                (x == from || views(seen@).contains(x)) && #[trigger] importers_of(rd, x).contains(y)
                    ==> views(seen@).contains(y),
        decreases u.len() - views(seen@).to_set().len(), queue@.len(),
    {
        let ghost s0 = views(seen@).to_set();
        let ghost q0 = queue@.len();
        let ghost qold = queue@.map_values(|v: Vec<char>| v@);
        match queue.pop() {
            None => {
                break;
            },
            Some(cur) => {
                let ghost c = cur@;
                assert(c == from || views(seen@).contains(c));
                proof {
                    let qnew = queue@.map_values(|v: Vec<char>| v@);
                    assert(qold =~= qnew.push(c));
                    assert forall|x: Seq<char>, y: Seq<char>|
                        x != c && (x == from || views(seen@).contains(x)) && !queue@.map_values(|v: Vec<char>| v@).contains(x)
                            && #[trigger] importers_of(rd, x).contains(y) implies views(seen@).contains(y) by {
                        if qold.contains(x) {
                            let i = choose|i: int| 0 <= i < qold.len() && qold[i] == x;
                            assert(qnew[i] == x);
                        }
                    }
                }
                let key = crate::text::string_of(cur.as_slice());
                match table_get(reverse_deps, key.as_str()) {
                    None => {
                        assert(importers_of(rd, c).len() == 0);
                    },
                    Some(direct) => {
                        assert(views(direct@) == importers_of(rd, c));
                        let mut j: usize = 0;
                        while j < direct.len()
                            invariant
                                rd == reverse_deps@,
                                u == all_importers(rd),
                                u.finite(),
                                from == name@,
                                views(direct@) == importers_of(rd, c),
                                c == from || views(seen@).contains(c),
                                j <= direct.len(),
                                views(seen@).no_duplicates(),
                                views(seen@).to_set().subset_of(u),
                                s0.subset_of(views(seen@).to_set()),
                                views(seen@).to_set().len() > s0.len() || queue@.len() < q0,
                                forall|y: Seq<char>| #[trigger] views(seen@).contains(y) ==> imports_transitively(rd, from, y),
                                forall|q: int| 0 <= q < queue@.len() ==> (#[trigger] queue@[q])@ == from || views(seen@).contains(queue@[q]@),
                                forall|jj: int| 0 <= jj < j ==> views(seen@).contains(#[trigger] importers_of(rd, c)[jj]),
                                forall|x: Seq<char>, y: Seq<char>|
                                    x != c && (x == from || views(seen@).contains(x)) && !queue@.map_values(|v: Vec<char>| v@).contains(x)
                                        && #[trigger] importers_of(rd, x).contains(y) ==> views(seen@).contains(y),
                            decreases direct.len() - j,
                        {
                            let imp = chars_of(direct[j].as_str());
                            if !contains_name(&seen, &imp) {
                                let ghost sv = views(seen@);
                                let ghost y = imp@;
                                proof {
                                    assert(importers_of(rd, c)[j as int] == y);
                                    assert(importers_of(rd, c).contains(y));
                                    lemma_importer_in_universe(rd, c, j as int);
                                    if c == from {
                                        assert(importers_within(rd, from, 1).contains(y));
                                    } else {
                                        let k = choose|k: nat| #[trigger] importers_within(rd, from, k).contains(c);
                                        assert(importers_within(rd, from, k + 1).contains(y));
                                    }
                                }
                                let ghost qb = queue@;
                                seen.push(direct[j].clone());
                                queue.push(imp);
                                proof {
                                    assert(views(seen@) =~= sv.push(y));
                                    assert(queue@ == qb.push(imp));
                                    assert forall|a: Seq<char>| #[trigger] sv.push(y).contains(a) <==> (sv.contains(a) || a == y) by {
                                        if sv.push(y).contains(a) {
                                            let i = choose|i: int| 0 <= i < sv.push(y).len() && sv.push(y)[i] == a;
                                            if i < sv.len() {
                                                assert(sv[i] == a);
                                            }
                                        }
                                        if sv.contains(a) {
                                            let i = choose|i: int| 0 <= i < sv.len() && sv[i] == a;
                                            assert(sv.push(y)[i] == a);
                                        }
                                        if a == y {
                                            assert(sv.push(y)[sv.len() as int] == y);
                                        }
                                    }
                                    assert(views(seen@).to_set() =~= sv.to_set().insert(y));
                                    vstd::set_lib::lemma_len_subset(sv.to_set(), u);
                                    vstd::set_lib::lemma_len_subset(s0, sv.to_set());
                                    assert(!sv.to_set().contains(y));
                                    assert(views(seen@).to_set().len() == sv.to_set().len() + 1);
                                    let qbv = qb.map_values(|v: Vec<char>| v@);
                                    assert(queue@.map_values(|v: Vec<char>| v@) =~= qbv.push(y));
                                    assert forall|x: Seq<char>| !queue@.map_values(|v: Vec<char>| v@).contains(x) implies !qbv.contains(x) by {
                                        if qbv.contains(x) {
                                            let i = choose|i: int| 0 <= i < qbv.len() && qbv[i] == x;
                                            assert(queue@.map_values(|v: Vec<char>| v@)[i] == x);
                                        }
                                    }
                                    vstd::set_lib::lemma_len_subset(sv.to_set(), u);
                                    assert(views(seen@).no_duplicates()) by {
                                        assert forall|p: int, q: int| 0 <= p < q < views(seen@).len() implies views(seen@)[p] != views(seen@)[q] by {
                                            if q == sv.len() {
                                                assert(sv.contains(sv[p]));
                                            }
                                        }
                                    }
                                    assert forall|y2: Seq<char>| #[trigger] views(seen@).contains(y2) implies imports_transitively(rd, from, y2) by {
                                        if y2 != y {
                                            let p = choose|p: int| 0 <= p < views(seen@).len() && views(seen@)[p] == y2;
                                            assert(sv.contains(y2));
                                        }
                                    }
                                    assert forall|x: Seq<char>, y2: Seq<char>|
                                        x != c && (x == from || views(seen@).contains(x)) && !queue@.map_values(|v: Vec<char>| v@).contains(x)
                                            && #[trigger] importers_of(rd, x).contains(y2) implies views(seen@).contains(y2) by {
                                        assert(!qbv.contains(x));
                                        if x != y {
                                            if x != from {
                                                assert(sv.contains(x));
                                            }
                                            assert(sv.contains(y2));
                                        } else {
                                            assert(queue@.map_values(|v: Vec<char>| v@)[qbv.len() as int] == y);
                                        }
                                    }
                                    assert forall|q: int| 0 <= q < queue@.len() implies (#[trigger] queue@[q])@ == from || views(seen@).contains(queue@[q]@) by {
                                        if q < queue@.len() - 1 {
                                            assert(queue@[q] == qb[q]);
                                            if queue@[q]@ != from {
                                                assert(sv.contains(queue@[q]@));
                                            }
                                        } else {
                                            assert(queue@[q] == imp);
                                        }
                                    }
                                }
                            }
                            j = j + 1;
                        }
                    },
                }
                proof {
                    assert forall|x: Seq<char>, y: Seq<char>|
                        (x == from || views(seen@).contains(x)) && !queue@.map_values(|v: Vec<char>| v@).contains(x)
                            && #[trigger] importers_of(rd, x).contains(y) implies views(seen@).contains(y) by {
                        if x == c {
                            let jj = choose|jj: int| 0 <= jj < importers_of(rd, c).len() && importers_of(rd, c)[jj] == y;
                            assert(views(seen@).contains(importers_of(rd, c)[jj]));
                        }
                    }
                    vstd::set_lib::lemma_len_subset(views(seen@).to_set(), u);
                    vstd::set_lib::lemma_len_subset(s0, views(seen@).to_set());
                }
            },
        }
    }
    proof {
        let sset = views(seen@).to_set();
        assert forall|y: Seq<char>| #[trigger] imports_transitively(rd, from, y) implies views(seen@).contains(y) by {
            let k = choose|k: nat| #[trigger] importers_within(rd, from, k).contains(y);
            lemma_closed_covers(rd, from, sset, k);
        }
    }
    let mut out: Vec<String> = Vec::new();
    let nm = chars_of(name);
    let mut i: usize = 0;
    while i < seen.len()
        invariant
            i <= seen.len(),
            nm@ == name@,
            views(seen@).no_duplicates(),
            views(out@) == views(seen@).subrange(0, i as int).filter(|y: Seq<char>| y != name@),
            views(out@).no_duplicates(),
            forall|k: int| 0 <= k < views(out@).len() ==> views(seen@).subrange(0, i as int).contains(
                #[trigger] views(out@)[k],
            ),
        decreases seen.len() - i,
    {
        let ghost before = views(out@);
        proof {
            views(seen@).subrange(0, i as int).lemma_filter_push(views(seen@)[i as int], |y: Seq<char>| y != name@);
            assert(views(seen@).subrange(0, i + 1) =~= views(seen@).subrange(0, i as int).push(views(seen@)[i as int]));
        }
        if !chars_eq(chars_of(seen[i].as_str()).as_slice(), nm.as_slice()) {
            out.push(seen[i].clone());
            assert(views(out@) =~= before.push(views(seen@)[i as int]));
            proof {
                assert forall|p: int, q: int| 0 <= p < q < views(out@).len() implies views(out@)[p] != views(out@)[q] by {
                    if q == before.len() {
                        assert(views(seen@).subrange(0, i as int).contains(before[p]));
                        let w = choose|w: int| 0 <= w < i && views(seen@).subrange(0, i as int)[w] == before[p];
                        assert(views(seen@)[w] == before[p]);
                    }
                }
            }
        }
        proof {
            assert forall|k: int| 0 <= k < views(out@).len() implies views(seen@).subrange(0, i + 1).contains(
                #[trigger] views(out@)[k],
            ) by {
                if k < before.len() {
                    let w = choose|w: int| 0 <= w < i && views(seen@).subrange(0, i as int)[w] == before[k];
                    assert(views(seen@).subrange(0, i + 1)[w] == before[k]);
                } else {
                    assert(views(seen@).subrange(0, i + 1)[i as int] == views(out@)[k]);
                }
            }
        }
        i = i + 1;
    }
    proof {
        assert(views(seen@).subrange(0, seen.len() as int) =~= views(seen@));
        let f = views(seen@).filter(|y: Seq<char>| y != name@);
        assert forall|y: Seq<char>| #[trigger] f.contains(y) <==> (y != name@ && imports_transitively(rd, from, y)) by {
            if f.contains(y) {
                views(seen@).lemma_filter_contains_rev(|y: Seq<char>| y != name@, y);
            }
            if y != name@ && imports_transitively(rd, from, y) {
                let p = choose|p: int| 0 <= p < views(seen@).len() && views(seen@)[p] == y;
                views(seen@).lemma_filter_contains(|y: Seq<char>| y != name@, p);
            }
        }
    }
    out
}

/// A lookup found project root `x`.
pub open spec fn names_root(o: Option<String>, x: Seq<char>) -> bool {
    match o {
        Some(r) => r@ == x,
        None => false,
    }
}

/// Some changed file lies under project root `x`.
pub open spec fn root_found(found: Seq<Option<String>>, x: Seq<char>) -> bool {
    exists|i: int| 0 <= i < found.len() && #[trigger] names_root(found[i], x)
}

/// The distinct project roots that changed files can affect, given the root found above each
/// file (`None` for a file outside every project), in name order, each once.
pub fn affected_project_roots(found: &Vec<Option<String>>) -> (r: Vec<String>)
    ensures
        crate::text::strictly_sorted(views(r@)),
        forall|x: Seq<char>| #[trigger] views(r@).contains(x) <==> root_found(found@, x),
{
    let mut roots: Vec<String> = Vec::new();
    let mut i: usize = 0;
    while i < found.len()
        invariant
            i <= found.len(),
            crate::text::strictly_sorted(views(roots@)),
            forall|x: Seq<char>| #[trigger] views(roots@).contains(x) <==> root_found(found@.subrange(0, i as int), x),
        decreases found.len() - i,
    {
        match &found[i] {
            Some(root) => crate::text::insert_sorted_unique(&mut roots, root.clone()),
            None => {},
        }
        proof {
            let f1 = found@.subrange(0, i + 1);
            let f0 = found@.subrange(0, i as int);
            assert forall|x: Seq<char>| #[trigger] views(roots@).contains(x) <==> root_found(f1, x) by {
                if root_found(f1, x) {
                    let k = choose|k: int| 0 <= k < f1.len() && #[trigger] names_root(f1[k], x);
                    if k < i {
                        assert(f0[k] == f1[k]);
                        assert(root_found(f0, x));
                    }
                }
                if root_found(f0, x) {
                    let k = choose|k: int| 0 <= k < f0.len() && #[trigger] names_root(f0[k], x);
                    assert(f1[k] == f0[k]);
                    assert(root_found(f1, x));
                }
                if names_root(found@[i as int], x) {
                    assert(f1[i as int] == found@[i as int]);
                    assert(root_found(f1, x));
                }
            }
        }
        i = i + 1;
    }
    assert(found@.subrange(0, found.len() as int) =~= found@);
    roots
}

} // verus!
