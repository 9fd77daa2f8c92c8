//! Reading a module interface file (`.asi`): one `kazi name(a: A, b: B) -> R` signature or
//! `thabiti NAME: T` constant per line.

use vstd::prelude::*;
use crate::exports::{
    constants_map, contract_view, functions_map, table_insert, ContractView, ExportTable,
    FnContract,
};
use crate::text::{
    occurs_at, chars_of, lines_of, matches_at, slice_vec, starts_with, string_of, trim, trim_bounds, views,
    LineReader,
};
use crate::workspace::{find_char, find_char_from, find_text, find_text_from};

verus! {

/// Index of the last `c` in `s[..n]`.
pub open spec fn rfind_char(s: Seq<char>, c: char, n: int) -> Option<int>
    decreases n,
{
    if n <= 0 || n > s.len() {
        None
    } else if s[n - 1] == c {
        Some(n - 1)
    } else {
        rfind_char(s, c, n - 1)
    }
}

/// The pieces of `s` between the separators `c` (`str::split`): one more than there are
/// separators.
pub open spec fn split_pieces(s: Seq<char>, c: char) -> Seq<Seq<char>>
    decreases s.len(),
{
    match find_char_from(s, c, 0) {
        None => seq![s],
        Some(k) => if 0 <= k < s.len() {
            seq![s.subrange(0, k)] + split_pieces(s.subrange(k + 1, s.len() as int), c)
        } else {
            seq![s]
        },
    }
}

/// The type written for a parameter: what follows its first `:`, trimmed; empty (unknown)
/// when it has none.
pub open spec fn param_type(p: Seq<char>) -> Seq<char> {
    match find_char_from(p, ':', 0) {
        Some(k) => trim(p.subrange(k + 1, p.len() as int)),
        None => Seq::empty(),
    }
}

/// The parameter types of a signature's parameter list: the comma-separated pieces, trimmed,
/// empty ones dropped.
pub open spec fn param_types(raw: Seq<char>) -> Seq<Seq<char>> {
    split_pieces(raw, ',').map_values(|p: Seq<char>| trim(p)).filter(|p: Seq<char>| p.len() > 0).map_values(
        |p: Seq<char>| param_type(p),
    )
}

/// Where a signature line's parameter list opens and closes: the first `(` and the last `)`
/// after the `kazi ` prefix.
pub open spec fn sahihi_parens(line: Seq<char>) -> Option<(int, int)> {
    let tail = line.subrange(5, line.len() as int);
    match (find_char_from(tail, '(', 0), rfind_char(tail, ')', tail.len() as int)) {
        (Some(o), Some(c)) => Some((o, c)),
        _ => None,
    }
}

/// A signature line's closing `)` does not come before its opening `(`.
pub open spec fn sahihi_ordered(line: Seq<char>) -> bool {
    starts_with(line, "kazi "@) ==> match sahihi_parens(line) {
        Some((o, c)) => o < c,
        None => true,
    }
}

/// A `kazi name(params) -> R` line as a name and signature: the name is what precedes the
/// first `(`, the parameters lie between it and the last `)`, and the return type follows the
/// first `->` after that (`Tupu` when there is none).
pub open spec fn sahihi_spec(line: Seq<char>) -> Option<(Seq<char>, ContractView)> {
    if !starts_with(line, "kazi "@) {
        None
    } else {
        let tail = line.subrange(5, line.len() as int);
        match sahihi_parens(line) {
            Some((o, c)) => {
                let rest = tail.subrange(c + 1, tail.len() as int);
                let ret = match find_text_from(rest, "->"@, 0) {
                    Some(k) => trim(rest.subrange(k + 2, rest.len() as int)),
                    None => "Tupu"@,
                };
                Some((trim(tail.subrange(0, o)), (param_types(tail.subrange(o + 1, c)), ret)))
            },
            None => None,
        }
    }
}

/// A `thabiti NAME: T` line as a name and type.
pub open spec fn thabiti_spec(line: Seq<char>) -> Option<(Seq<char>, Seq<char>)> {
    if !starts_with(line, "thabiti "@) {
        None
    } else {
        let tail = trim(line.subrange(8, line.len() as int));
        match find_char_from(tail, ':', 0) {
            Some(k) => Some((trim(tail.subrange(0, k)), trim(tail.subrange(k + 1, tail.len() as int)))),
            None => None,
        }
    }
}

fn rfind(v: &Vec<char>, c: char) -> (r: Option<usize>)
    ensures
        match rfind_char(v@, c, v@.len() as int) {
            Some(k) => r == Some(k as usize) && 0 <= k < v@.len(),
            None => r is None,
        },
{
    let mut n = v.len();
    while n > 0
        invariant
            n <= v.len(),
            rfind_char(v@, c, v@.len() as int) == rfind_char(v@, c, n as int),
        decreases n,
    {
        if v[n - 1] == c {
            return Some(n - 1);
        }
        n = n - 1;
    }
    None
}

proof fn lemma_find_shift(s: Seq<char>, c: char, start: int, i: int)
    requires
        0 <= start <= s.len(),
        0 <= i,
    ensures
        find_char_from(s.subrange(start, s.len() as int), c, i) == match find_char_from(s, c, start + i) {
            Some(k) => Some(k - start),
            None => None,
        },
    decreases s.len() - start - i,
{
    if start + i < s.len() {
        assert(s.subrange(start, s.len() as int)[i] == s[start + i]);
        lemma_find_shift(s, c, start, i + 1);
    }
}

proof fn lemma_find_bounds(s: Seq<char>, c: char, i: int)
    requires
        0 <= i,
    ensures
        find_char_from(s, c, i) matches Some(k) ==> i <= k < s.len() && s[k] == c,
    decreases s.len() - i,
{
    if i < s.len() && s[i] != c {
        lemma_find_bounds(s, c, i + 1);
    }
}

proof fn lemma_find_text_occurs(s: Seq<char>, p: Seq<char>, i: int)
    requires
        0 <= i,
    ensures
        find_text_from(s, p, i) matches Some(k) ==> i <= k && occurs_at(s, p, k),
    decreases s.len() - i,
{
    if i < s.len() && !occurs_at(s, p, i) {
        lemma_find_text_occurs(s, p, i + 1);
    }
}

/// The comma-separated pieces of `v`.
fn split_on(v: &Vec<char>, c: char) -> (r: Vec<Vec<char>>)
    ensures
        r@.map_values(|p: Vec<char>| p@) == split_pieces(v@, c),
{
    let mut out: Vec<Vec<char>> = Vec::new();
    let mut start: usize = 0;
    assert(v@.subrange(0, v@.len() as int) =~= v@);
    loop
        invariant_except_break
            out@.map_values(|p: Vec<char>| p@) + split_pieces(v@.subrange(start as int, v@.len() as int), c)
                == split_pieces(v@, c),
        invariant
            start <= v.len(),
        ensures
            out@.map_values(|p: Vec<char>| p@) == split_pieces(v@, c),
        decreases v.len() - start,
    {
        let ghost rest = v@.subrange(start as int, v@.len() as int);
        let ghost before = out@.map_values(|p: Vec<char>| p@);
        proof {
            lemma_find_shift(v@, c, start as int, 0);
            lemma_find_bounds(rest, c, 0);
        }
        match find_char(v, c, start) {
            None => {
                out.push(slice_vec(v, start, v.len()));
                assert(out@.map_values(|p: Vec<char>| p@) =~= before + split_pieces(rest, c));
                break;
            },
            Some(k) => {
                out.push(slice_vec(v, start, k));
                assert(rest.subrange(0, k - start) =~= v@.subrange(start as int, k as int));
                assert(rest.subrange(k - start + 1, rest.len() as int) =~= v@.subrange(k + 1, v@.len() as int));
                assert(out@.map_values(|p: Vec<char>| p@) =~= before.push(v@.subrange(start as int, k as int)));
                start = k + 1;
            },
        }
    }
    out
}

fn type_of_param(p: &Vec<char>) -> (r: Vec<char>)
    ensures
        r@ == param_type(p@),
{
    proof {
        lemma_find_bounds(p@, ':', 0);
    }
    match find_char(p, ':', 0) {
        Some(k) => {
            assert(k < p.len());
            let (a, b) = trim_bounds(p, k + 1, p.len());
            slice_vec(p, a, b)
        },
        None => Vec::new(),
    }
}

fn parse_param_types(raw: &Vec<char>) -> (r: Vec<String>)
    ensures
        views(r@) == param_types(raw@),
{
    let pieces = split_on(raw, ',');
    let ghost pv = pieces@.map_values(|p: Vec<char>| p@);
    let ghost tr = pv.map_values(|p: Seq<char>| trim(p));
    let ghost ne = |p: Seq<char>| p.len() > 0;
    let ghost pt = |p: Seq<char>| param_type(p);
    let mut out: Vec<String> = Vec::new();
    let mut i: usize = 0;
    assert(views(out@) =~= tr.subrange(0, 0).filter(ne).map_values(pt));
    while i < pieces.len()
        invariant
            i <= pieces.len(),
            pv == pieces@.map_values(|p: Vec<char>| p@),
            tr == pv.map_values(|p: Seq<char>| trim(p)),
            ne == (|p: Seq<char>| p.len() > 0),
            pt == (|p: Seq<char>| param_type(p)),
            views(out@) == tr.subrange(0, i as int).filter(ne).map_values(pt),
        decreases pieces.len() - i,
    {
        let (a, b) = trim_bounds(&pieces[i], 0, pieces[i].len());
        assert(pieces@[i as int]@.subrange(0, pieces@[i as int]@.len() as int) =~= pieces@[i as int]@);
        let piece = slice_vec(&pieces[i], a, b);
        assert(piece@ == tr[i as int]);
        let ghost before = views(out@);
        proof {
            tr.subrange(0, i as int).lemma_filter_push(tr[i as int], ne);
            assert(tr.subrange(0, i + 1) =~= tr.subrange(0, i as int).push(tr[i as int]));
        }
        if piece.len() > 0 {
            let t = type_of_param(&piece);
            out.push(string_of(t.as_slice()));
            assert(views(out@) =~= before.push(param_type(piece@)));
            assert(tr.subrange(0, i + 1).filter(ne).map_values(pt) =~= tr.subrange(0, i as int).filter(ne).map_values(
                pt,
            ).push(pt(tr[i as int])));
        } else {
            assert(tr.subrange(0, i + 1).filter(ne) == tr.subrange(0, i as int).filter(ne));
        }
        i = i + 1;
    }
    assert(tr.subrange(0, pieces.len() as int) =~= tr);
    assert(pv == split_pieces(raw@, ','));
    out
}

/// Read a signature line `kazi name(a: A, b: B) -> R`: `None` when the line does not start
/// with `kazi ` or lacks a `(` or a `)`.
pub fn parse_fn_sahihi(line: &str) -> (r: Option<(String, FnContract)>)
    requires
        sahihi_ordered(line@),
    ensures
        match sahihi_spec(line@) {
            Some((n, c)) => r matches Some((rn, rc)) && rn@ == n && contract_view(rc) == c,
            None => r is None,
        },
{
    let v = chars_of(line);
    let prefix = chars_of("kazi ");
    proof {
        reveal_strlit("kazi ");
    }
    if !matches_at(&v, 0, prefix.as_slice()) {
        return None;
    }
    let tail = slice_vec(&v, 5, v.len());
    assert(tail@ == line@.subrange(5, line@.len() as int));
    proof {
        lemma_find_bounds(tail@, '(', 0);
    }
    let open = match find_char(&tail, '(', 0) {
        Some(o) => o,
        None => return None,
    };
    let close = match rfind(&tail, ')') {
        Some(c) => c,
        None => return None,
    };
    let (na, nb) = trim_bounds(&tail, 0, open);
    let name = slice_vec(&tail, na, nb);
    let raw = slice_vec(&tail, open + 1, close);
    let params = parse_param_types(&raw);
    let rest = slice_vec(&tail, close + 1, tail.len());
    let ret = match find_text(&rest, "->", 0) {
        Some(k) => {
            proof {
                reveal_strlit("->");
                lemma_find_text_occurs(rest@, "->"@, 0);
            }
            let (ra, rb) = trim_bounds(&rest, k + 2, rest.len());
            slice_vec(&rest, ra, rb)
        },
        None => chars_of("Tupu"),
    };
    Some((string_of(name.as_slice()), FnContract { params, ret: string_of(ret.as_slice()) }))
}

/// Read a constant line `thabiti NAME: T`: `None` when the line does not start with
/// `thabiti ` or has no `:`.
pub fn parse_thabiti_line(line: &str) -> (r: Option<(String, String)>)
    ensures
        match thabiti_spec(line@) {
            Some((n, t)) => r matches Some((rn, rt)) && rn@ == n && rt@ == t,
            None => r is None,
        },
{
    let v = chars_of(line);
    let prefix = chars_of("thabiti ");
    proof {
        reveal_strlit("thabiti ");
    }
    if !matches_at(&v, 0, prefix.as_slice()) {
        return None;
    }
    let (a, b) = trim_bounds(&v, 8, v.len());
    let tail = slice_vec(&v, a, b);
    proof {
        lemma_find_bounds(tail@, ':', 0);
    }
    match find_char(&tail, ':', 0) {
        None => None,
        Some(k) => {
            let (na, nb) = trim_bounds(&tail, 0, k);
            let (ta, tb) = trim_bounds(&tail, k + 1, tail.len());
            Some((string_of(slice_vec(&tail, na, nb).as_slice()), string_of(slice_vec(&tail, ta, tb).as_slice())))
        },
    }
}

/// The signatures and constants of an interface file's first `n` lines (each line trimmed; a
/// later entry for a name replacing an earlier one).
pub open spec fn asi_scan(lines: Seq<Seq<char>>, n: int) -> (Map<Seq<char>, ContractView>, Map<Seq<char>, Seq<char>>)
    decreases n,
{
    if n <= 0 || n > lines.len() {
        (Map::empty(), Map::empty())
    } else {
        let st = asi_scan(lines, n - 1);
        let line = trim(lines[n - 1]);
        if starts_with(line, "kazi "@) {
            match sahihi_spec(line) {
                Some((name, c)) => (st.0.insert(name, c), st.1),
                None => st,
            }
        } else if starts_with(line, "thabiti "@) {
            match thabiti_spec(line) {
                Some((name, t)) => (st.0, st.1.insert(name, t)),
                None => st,
            }
        } else {
            st
        }
    }
}

/// Every signature line of an interface text has its `)` after its `(`.
pub open spec fn asi_well_formed(content: Seq<char>) -> bool {
    forall|i: int| 0 <= i < lines_of(content).len() ==> sahihi_ordered(trim(#[trigger] lines_of(content)[i]))
}

/// The exports an interface text declares.
pub fn parse_asi_content(content: &str) -> (r: ExportTable)
    requires
        asi_well_formed(content@),
    ensures
        functions_map(r.functions@) == asi_scan(lines_of(content@), lines_of(content@).len() as int).0,
        constants_map(r.constants@) == asi_scan(lines_of(content@), lines_of(content@).len() as int).1,
{
    let mut reader = LineReader::new(content);
    let ghost all = lines_of(content@);
    let mut functions: Vec<(String, FnContract)> = Vec::new();
    let mut constants: Vec<(String, String)> = Vec::new();
    let ghost mut n: int = 0;
    assert(functions_map(functions@) =~= Map::empty());
    assert(constants_map(constants@) =~= Map::empty());
    loop
        invariant
            0 <= n <= all.len(),
            all == lines_of(content@),
            asi_well_formed(content@),
            reader.rest() == all.subrange(n, all.len() as int),
            (functions_map(functions@), constants_map(constants@)) == asi_scan(all, n),
        ensures
            n == all.len(),
            (functions_map(functions@), constants_map(constants@)) == asi_scan(all, n),
        decreases all.len() - n,
    {
        match reader.next_line() {
            None => {
                assert(n == all.len());
                break;
            },
            Some(raw) => {
                assert(all[n] == raw@);
                let (a, b) = trim_bounds(&raw, 0, raw.len());
                assert(raw@.subrange(0, raw@.len() as int) =~= raw@);
                let line = string_of(slice_vec(&raw, a, b).as_slice());
                proof {
                    reveal_strlit("kazi ");
                    reveal_strlit("thabiti ");
                }
                if crate::text::str_starts_with(line.as_str(), "kazi ") {
                    match parse_fn_sahihi(line.as_str()) {
                        Some((name, sig)) => {
                            let ghost t0 = functions@;
                            let ghost g = sig;
                            let ghost gn = name;
                            table_insert(&mut functions, name, sig);
                            proof {
                                assert(functions_map(functions@) =~= functions_map(t0).insert(gn@, contract_view(g)));
                            }
                        },
                        None => {},
                    }
                } else if crate::text::str_starts_with(line.as_str(), "thabiti ") {
                    match parse_thabiti_line(line.as_str()) {
                        Some((name, ty)) => {
                            let ghost t0 = constants@;
                            let ghost g = ty;
                            let ghost gn = name;
                            table_insert(&mut constants, name, ty);
                            proof {
                                assert(constants_map(constants@) =~= constants_map(t0).insert(gn@, g@));
                            }
                        },
                        None => {},
                    }
                }
                proof {
                    n = n + 1;
                }
                assert(all.subrange(n, all.len() as int) =~= all.subrange(n - 1, all.len() as int).drop_first());
            },
        }
    }
    ExportTable { functions, constants }
}

} // verus!
