//! Build bookkeeping: the effective build target, the cache key of a single-file build, and
//! the build manifest written beside an artifact (with the input hash that lets a later build
//! of unchanged inputs reuse it).

use vstd::prelude::*;
use sha2::Digest;
use vstd::string::StringSliceAdditionalSpecFns;
use crate::text::{
    chars_less, lemma_str_less_order, str_less, chars_of, decimal_chars, decimal_text, lines_of, matches_at, push_all, starts_with, string_of, trim,
    trim_bounds, LineReader,
};

verus! {

/// Modules' names and texts as plain values.
pub open spec fn pairs_view(p: Seq<(String, String)>) -> Seq<(Seq<char>, Seq<char>)> {
    p.map_values(|e: (String, String)| (e.0@, e.1@))
}

/// Names never decrease along the list.
pub open spec fn in_name_order(p: Seq<(Seq<char>, Seq<char>)>) -> bool {
    forall|i: int, j: int| 0 <= i < j < p.len() ==> !str_less(#[trigger] p[j].0, #[trigger] p[i].0)
}

/// The resolved modules' names and texts in the order a project build's input hash reads them:
/// the same entries, sorted by name.
pub fn modules_in_name_order(modules: &Vec<(String, String)>) -> (r: Vec<(String, String)>)
    ensures
        in_name_order(pairs_view(r@)),
        pairs_view(r@).to_multiset() == pairs_view(modules@).to_multiset(),
{
    broadcast use vstd::seq_lib::to_multiset_build, vstd::seq_lib::to_multiset_insert;

    let mut out: Vec<(String, String)> = Vec::new();
    let mut i: usize = 0;
    assert(pairs_view(modules@.subrange(0, 0)) =~= Seq::<(Seq<char>, Seq<char>)>::empty());
    assert(pairs_view(out@) =~= Seq::<(Seq<char>, Seq<char>)>::empty());
    while i < modules.len()
        invariant
            i <= modules.len(),
            in_name_order(pairs_view(out@)),
            pairs_view(out@).to_multiset() == pairs_view(modules@.subrange(0, i as int)).to_multiset(),
        decreases modules.len() - i,
    {
        let name = chars_of(modules[i].0.as_str());
        let ghost pv = pairs_view(out@);
        let mut k: usize = 0;
        while k < out.len() && !chars_less(name.as_slice(), chars_of(out[k].0.as_str()).as_slice())
            invariant
                k <= out.len(),
                pv == pairs_view(out@),
                pv.len() == out@.len(),
                forall|m: int| 0 <= m < k ==> !str_less(name@, #[trigger] pv[m].0),
            decreases out.len() - k,
        {
            assert(pv[k as int].0 == out@[k as int].0@);
            k = k + 1;
        }
        let ghost x = (modules@[i as int].0@, modules@[i as int].1@);
        assert(k < out.len() ==> str_less(name@, pv[k as int].0));
        out.insert(k, (modules[i].0.clone(), modules[i].1.clone()));
        let ghost nv = pairs_view(out@);
        assert(nv =~= pv.insert(k as int, x));
        proof {
            assert forall|a: int, b: int| 0 <= a < b < nv.len() implies !str_less(#[trigger] nv[b].0, #[trigger] nv[a].0) by {
                if b < k {
                    assert(nv[a] == pv[a] && nv[b] == pv[b]);
                } else if b == k {
                    assert(nv[a] == pv[a]);
                    lemma_str_less_order(name@, pv[a].0, name@);
                } else if a == k {
                    assert(nv[b] == pv[b - 1]);
                    lemma_str_less_order(pv[k as int].0, pv[b - 1].0, name@);
                    lemma_str_less_order(name@, pv[k as int].0, pv[b - 1].0);
                    if b - 1 > k {
                        assert(!str_less(pv[b - 1].0, pv[k as int].0));
                    }
                } else if a < k {
                    assert(nv[a] == pv[a] && nv[b] == pv[b - 1]);
                } else {
                    assert(nv[a] == pv[a - 1] && nv[b] == pv[b - 1]);
                }
            }
            assert(modules@.subrange(0, i + 1) =~= modules@.subrange(0, i as int).push(modules@[i as int]));
            assert(pairs_view(modules@.subrange(0, i + 1)) =~= pairs_view(modules@.subrange(0, i as int)).push(x));
            vstd::seq_lib::to_multiset_insert(pv, k as int, x);
            vstd::seq_lib::to_multiset_build(pairs_view(modules@.subrange(0, i as int)), x);
            assert(nv.to_multiset() == pv.to_multiset().insert(x));
        }
        i = i + 1;
    }
    assert(modules@.subrange(0, modules@.len() as int) =~= modules@);
    out
}

/// Each module's name then its text, module after module.
pub open spec fn flatten_pairs(p: Seq<(Seq<char>, Seq<char>)>) -> Seq<Seq<char>>
    decreases p.len(),
{
    if p.len() == 0 {
        Seq::empty()
    } else {
        flatten_pairs(p.drop_last()).push(p.last().0).push(p.last().1)
    }
}

/// The texts a project build's input hash is taken over, in the order they are hashed: the
/// entrypoint's path, its text, the target, then each resolved module's name and text in name
/// order (a module with no file is given as `builtin:<name>` by the caller).
pub fn input_hash_parts(entry_path: &str, entry_content: &str, target: &str, modules: &Vec<(String, String)>) -> (r: Vec<String>)
    ensures
        exists|sorted: Seq<(Seq<char>, Seq<char>)>|
            in_name_order(sorted) && sorted.to_multiset() == pairs_view(modules@).to_multiset()
                && #[trigger] crate::text::views(r@) == seq![entry_path@, entry_content@, target@] + flatten_pairs(sorted),
{
    let sorted = modules_in_name_order(modules);
    let ghost sv = pairs_view(sorted@);
    let mut out: Vec<String> = Vec::new();
    out.push(entry_path.to_string());
    out.push(entry_content.to_string());
    out.push(target.to_string());
    let ghost head = seq![entry_path@, entry_content@, target@];
    assert(crate::text::views(out@) =~= head + flatten_pairs(sv.subrange(0, 0)));
    let mut i: usize = 0;
    while i < sorted.len()
        invariant
            i <= sorted.len(),
            sv == pairs_view(sorted@),
            crate::text::views(out@) == head + flatten_pairs(sv.subrange(0, i as int)),
        decreases sorted.len() - i,
    {
        let ghost before = crate::text::views(out@);
        out.push(sorted[i].0.clone());
        out.push(sorted[i].1.clone());
        proof {
            let sub = sv.subrange(0, i + 1);
            assert(sub.drop_last() =~= sv.subrange(0, i as int));
            assert(sub.last() == (sorted@[i as int].0@, sorted@[i as int].1@));
            assert(crate::text::views(out@) =~= before.push(sorted@[i as int].0@).push(sorted@[i as int].1@));
        }
        i = i + 1;
    }
    assert(sv.subrange(0, sv.len() as int) =~= sv);
    out
}

/// A build target name (`native`, `wasm`, ...).
#[derive(Clone, Debug)]
pub struct Target(pub String);

/// The effective target: the command-line flag, else the manifest's `[jenga] lengo`, else
/// `native`.
pub fn resolve_target(cli_target: Option<&str>, manifest_target: Option<&str>) -> (r: Target)
    ensures
        r.0@ == match cli_target {
            Some(t) => t@,
            None => match manifest_target {
                Some(t) => t@,
                None => "native"@,
            },
        },
{
    match cli_target {
        Some(t) => Target(t.to_string()),
        None => match manifest_target {
            Some(t) => Target(t.to_string()),
            None => Target("native".to_string()),
        },
    }
}

/// The SHA-256 digest of a byte string.
pub uninterp spec fn sha256(data: Seq<u8>) -> Seq<u8>;

/// `sha2::Sha256` fed `a`, `b` and `c` in turn, then finalized. The contract claims what the
/// crate documents: the incremental updates digest their concatenation, and a SHA-256 digest
/// is 32 bytes. What the digest bytes are is only named.
#[verifier::external_body]
fn sha256_of3(a: &[u8], b: &[u8], c: &[u8]) -> (r: Vec<u8>)
    ensures
        r@ == sha256(a@ + b@ + c@),
        r@.len() == 32,
{
    let mut hasher = sha2::Sha256::new();
    hasher.update(a);
    hasher.update(b);
    hasher.update(c);
    hasher.finalize().to_vec()
}

/// The lowercase hexadecimal digit for `d < 16`.
pub open spec fn hex_digit(d: int) -> char {
    if d < 10 {
        crate::text::digit_char(d)
    } else if d == 10 {
        'a'
    } else if d == 11 {
        'b'
    } else if d == 12 {
        'c'
    } else if d == 13 {
        'd'
    } else if d == 14 {
        'e'
    } else {
        'f'
    }
}

/// Two lowercase hex digits per byte.
pub open spec fn hex_bytes(b: Seq<u8>) -> Seq<char>
    decreases b.len(),
{
    if b.len() == 0 {
        Seq::empty()
    } else {
        hex_bytes(b.drop_last()) + seq![hex_digit((b.last() / 16) as int), hex_digit((b.last() % 16) as int)]
    }
}

fn hex_char(d: u8) -> (c: char)
    requires
        d < 16,
    ensures
        c == hex_digit(d as int),
{
    if d < 10 {
        if d == 0 { '0' } else if d == 1 { '1' } else if d == 2 { '2' } else if d == 3 { '3' }
        else if d == 4 { '4' } else if d == 5 { '5' } else if d == 6 { '6' } else if d == 7 { '7' }
        else if d == 8 { '8' } else { '9' }
    } else if d == 10 {
        'a'
    } else if d == 11 {
        'b'
    } else if d == 12 {
        'c'
    } else if d == 13 {
        'd'
    } else if d == 14 {
        'e'
    } else {
        'f'
    }
}

/// The cache key of a single-file build: the first eight bytes of the SHA-256 of the name,
/// source and target (as UTF-8), written as sixteen lowercase hex digits (the big-endian
/// `u64` they make, zero-padded).
pub fn cache_key(name: &str, source: &str, target: &str) -> (r: String)
    ensures
        r@ == hex_bytes(
            sha256(name.spec_bytes() + source.spec_bytes() + target.spec_bytes()).subrange(0, 8),
        ),
{
    let digest = sha256_of3(name.as_bytes(), source.as_bytes(), target.as_bytes());
    let ghost d = digest@;
    let mut out: Vec<char> = Vec::new();
    let mut i: usize = 0;
    while i < 8
        invariant
            i <= 8,
            digest@ == d,
            d.len() == 32,
            out@ == hex_bytes(d.subrange(0, i as int)),
        decreases 8 - i,
    {
        let byte = digest[i];
        let ghost before = out@;
        out.push(hex_char(byte / 16));
        out.push(hex_char(byte % 16));
        assert(d.subrange(0, i + 1).drop_last() =~= d.subrange(0, i as int));
        assert(out@ =~= before + seq![hex_digit((byte / 16) as int), hex_digit((byte % 16) as int)]);
        i = i + 1;
    }
    string_of(out.as_slice())
}

/// The key of the input-hash line of a build manifest.
pub open spec fn hash_key() -> Seq<char> {
    "hashi_chanzo="@
}

/// The input hash recorded by the first of `lines` (from index `k` on) that starts with
/// `hashi_chanzo=`: the rest of that line, trimmed.
pub open spec fn hash_line_from(lines: Seq<Seq<char>>, k: int) -> Option<Seq<char>>
    decreases lines.len() - k,
{
    if k < 0 || k >= lines.len() {
        None
    } else if starts_with(lines[k], hash_key()) {
        Some(trim(lines[k].subrange(hash_key().len() as int, lines[k].len() as int)))
    } else {
        hash_line_from(lines, k + 1)
    }
}

/// The input hash a build manifest records, from its first `hashi_chanzo=` line.
pub fn stored_input_hash(manifest: &str) -> (r: Option<String>)
    ensures
        crate::commands::opt_view(r) == hash_line_from(lines_of(manifest@), 0),
{
    let key = chars_of("hashi_chanzo=");
    proof {
        reveal_strlit("hashi_chanzo=");
    }
    let mut reader = LineReader::new(manifest);
    let ghost all = lines_of(manifest@);
    let ghost mut k: int = 0;
    loop
        invariant
            0 <= k <= all.len(),
            key@ == hash_key(),
            all == lines_of(manifest@),
            reader.rest() == all.subrange(k, all.len() as int),
            hash_line_from(all, 0) == hash_line_from(all, k),
        decreases all.len() - k,
    {
        match reader.next_line() {
            None => {
                assert(k == all.len());
                return None;
            },
            Some(line) => {
                assert(all[k] == line@);
                if matches_at(&line, 0, key.as_slice()) {
                    assert(starts_with(line@, key@) == crate::text::occurs_at(line@, key@, 0));
                    let (a, b) = trim_bounds(&line, key.len(), line.len());
                    let t = crate::text::slice_vec(&line, a, b);
                    return Some(string_of(t.as_slice()));
                }
                proof {
                    if starts_with(line@, key@) {
                        assert(crate::text::occurs_at(line@, key@, 0));
                    }
                    k = k + 1;
                }
            },
        }
    }
}

/// The build manifest of an artifact: project name, entrypoint, number of functions, the
/// artifact's file name and, when known, the input hash.
pub open spec fn build_manifest_spec(name: Seq<char>, entry: Seq<char>, functions: nat, input_hash: Option<
    Seq<char>,
>) -> Seq<char> {
    "mradi="@ + name + "\nkuingia="@ + entry + "\nkazi="@ + decimal_text(functions) + "\nkilele="@ + name
        + ".asb\n"@ + match input_hash {
        Some(h) => hash_key() + h + "\n"@,
        None => Seq::empty(),
    }
}

/// The text of the build manifest written beside `<name>.asb`.
pub fn build_manifest_text(name: &str, entry: &str, functions: usize, input_hash: Option<&str>) -> (r: String)
    ensures
        r@ == build_manifest_spec(name@, entry@, functions as nat, match input_hash {
            Some(h) => Some(h@),
            None => None,
        }),
{
    let mut v: Vec<char> = Vec::new();
    push_all(&mut v, chars_of("mradi=").as_slice());
    push_all(&mut v, chars_of(name).as_slice());
    push_all(&mut v, chars_of("\nkuingia=").as_slice());
    push_all(&mut v, chars_of(entry).as_slice());
    push_all(&mut v, chars_of("\nkazi=").as_slice());
    push_all(&mut v, decimal_chars(functions as u128).as_slice());
    push_all(&mut v, chars_of("\nkilele=").as_slice());
    push_all(&mut v, chars_of(name).as_slice());
    push_all(&mut v, chars_of(".asb\n").as_slice());
    let ghost before = v@;
    match input_hash {
        Some(h) => {
            push_all(&mut v, chars_of("hashi_chanzo=").as_slice());
            push_all(&mut v, chars_of(h).as_slice());
            push_all(&mut v, chars_of("\n").as_slice());
            proof {
                reveal_strlit("hashi_chanzo=");
            }
        },
        None => {},
    }
    string_of(v.as_slice())
}

} // verus!
