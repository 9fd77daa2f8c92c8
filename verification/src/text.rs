//! Character-sequence helpers shared by every text-processing module: conversions between
//! `str`/`String` and `Vec<char>`, Unicode character classes, and the trimming, prefix and
//! search predicates the rest of the crate states its contracts with.

use vstd::prelude::*;

verus! {

/// Whether `c` has the Unicode `White_Space` property (what `char::is_whitespace` reports).
pub uninterp spec fn char_is_whitespace(c: char) -> bool;

/// Whether `c` has the Unicode `Alphabetic` property (what `char::is_alphabetic` reports).
pub uninterp spec fn char_is_alphabetic(c: char) -> bool;

/// Whether `c` is alphabetic or numeric in the Unicode sense: std documents
/// `char::is_alphanumeric` as `is_alphabetic() || is_numeric()`.
pub open spec fn char_is_alphanumeric(c: char) -> bool {
    char_is_alphabetic(c) || char_is_numeric(c)
}

/// Whether `c` has the Unicode `Lowercase` property (what `char::is_lowercase` reports).
pub uninterp spec fn char_is_lowercase(c: char) -> bool;

/// Whether `c` has the Unicode `Uppercase` property (what `char::is_uppercase` reports).
pub uninterp spec fn char_is_uppercase(c: char) -> bool;

/// Whether `c` is in one of the Unicode numeric general categories (what `char::is_numeric`
/// reports).
pub uninterp spec fn char_is_numeric(c: char) -> bool;

/// The lowercase form of a text as Unicode defines it (what `str::to_lowercase` gives; a
/// final capital sigma is mapped by its context, so the mapping is not one character at a time).
pub uninterp spec fn lowercase_of(s: Seq<char>) -> Seq<char>;

/// `str::to_lowercase`: the contract only names the Unicode case mapping.
#[verifier::external_body]
pub fn to_lowercase(s: &str) -> (r: String)
    ensures
        r@ == lowercase_of(s@),
{
    s.to_lowercase()
}

/// The characters of `s`, in order. Calls `str::chars` and collects.
#[verifier::external_body]
pub fn chars_of(s: &str) -> (r: Vec<char>)
    ensures
        r@ == s@,
{
    s.chars().collect()
}

/// The string made of the characters of `v`, in order. Collects through `FromIterator<char>`.
#[verifier::external_body]
pub fn string_of(v: &[char]) -> (r: String)
    ensures
        r@ == v@,
{
    v.iter().collect()
}

/// `char::is_whitespace`: the Unicode `White_Space` lookup is named; among ASCII characters that
/// property holds of the space and of tab, line feed, vertical tab, form feed and carriage return.
#[verifier::external_body]
pub fn is_whitespace(c: char) -> (r: bool)
    ensures
        r == char_is_whitespace(c),
        c <= '\x7f' ==> (r <==> (c == ' ' || ('\t' <= c && c <= '\r'))),
{
    c.is_whitespace()
}

/// `char::is_alphabetic`: the Unicode `Alphabetic` lookup is named; among ASCII characters it
/// holds of the letters alone.
#[verifier::external_body]
pub fn is_alphabetic(c: char) -> (r: bool)
    ensures
        r == char_is_alphabetic(c),
        c <= '\x7f' ==> (r <==> (('a' <= c && c <= 'z') || ('A' <= c && c <= 'Z'))),
{
    c.is_alphabetic()
}

/// `char::is_alphanumeric`: alphabetic or numeric, as std documents it.
#[verifier::external_body]
pub fn is_alphanumeric(c: char) -> (r: bool)
    ensures
        r == char_is_alphanumeric(c),
        c <= '\x7f' ==> (r <==> ascii_alphanumeric(c)),
{
    c.is_alphanumeric()
}

/// `char::is_lowercase`: the Unicode `Lowercase` lookup is named; among ASCII characters it holds
/// of `a` to `z` alone.
#[verifier::external_body]
pub fn is_lowercase(c: char) -> (r: bool)
    ensures
        r == char_is_lowercase(c),
        c <= '\x7f' ==> (r <==> ('a' <= c && c <= 'z')),
{
    c.is_lowercase()
}

/// `char::is_uppercase`: the Unicode `Uppercase` lookup is named; among ASCII characters it holds
/// of `A` to `Z` alone.
#[verifier::external_body]
pub fn is_uppercase(c: char) -> (r: bool)
    ensures
        r == char_is_uppercase(c),
        c <= '\x7f' ==> (r <==> ('A' <= c && c <= 'Z')),
{
    c.is_uppercase()
}

/// `char::is_numeric`: the lookup of the numeric general categories (`Nd`, `Nl`, `No`) is named;
/// among ASCII characters they hold of the digits alone.
#[verifier::external_body]
pub fn is_numeric(c: char) -> (r: bool)
    ensures
        r == char_is_numeric(c),
        c <= '\x7f' ==> (r <==> ('0' <= c && c <= '9')),
{
    c.is_numeric()
}

/// ASCII letters and digits (`char::is_ascii_alphanumeric`).
pub open spec fn ascii_alphanumeric(c: char) -> bool {
    ('0' <= c && c <= '9') || ('a' <= c && c <= 'z') || ('A' <= c && c <= 'Z')
}

pub fn is_ascii_alphanumeric(c: char) -> (r: bool)
    ensures
        r == ascii_alphanumeric(c),
{
    ('0' <= c && c <= '9') || ('a' <= c && c <= 'z') || ('A' <= c && c <= 'Z')
}

/// Identifier characters as this toolchain's scanners use them: Unicode alphanumerics and `_`.
pub open spec fn word_char(c: char) -> bool {
    char_is_alphanumeric(c) || c == '_'
}

/// `s` with every leading whitespace character removed.
pub open spec fn trim_start(s: Seq<char>) -> Seq<char>
    decreases s.len(),
{
    if s.len() > 0 && char_is_whitespace(s[0]) {
        trim_start(s.drop_first())
    } else {
        s
    }
}

/// `s` with every trailing whitespace character removed.
pub open spec fn trim_end(s: Seq<char>) -> Seq<char>
    decreases s.len(),
{
    if s.len() > 0 && char_is_whitespace(s.last()) {
        trim_end(s.drop_last())
    } else {
        s
    }
}

/// `s` with leading and trailing whitespace removed (`str::trim`).
pub open spec fn trim(s: Seq<char>) -> Seq<char> {
    trim_end(trim_start(s))
}

/// `p` is a prefix of `s`.
pub open spec fn starts_with(s: Seq<char>, p: Seq<char>) -> bool {
    p.len() <= s.len() && s.subrange(0, p.len() as int) == p
}

/// `p` is a suffix of `s`.
pub open spec fn ends_with(s: Seq<char>, p: Seq<char>) -> bool {
    p.len() <= s.len() && s.subrange(s.len() - p.len(), s.len() as int) == p
}

/// `p` occurs in `s` starting at index `i`.
pub open spec fn occurs_at(s: Seq<char>, p: Seq<char>, i: int) -> bool {
    0 <= i && i + p.len() <= s.len() && s.subrange(i, i + p.len()) == p
}

/// Every character of `s` is whitespace (`s.trim().is_empty()`).
pub open spec fn all_whitespace(s: Seq<char>) -> bool {
    forall|i: int| 0 <= i < s.len() ==> char_is_whitespace(#[trigger] s[i])
}

/// Index of the first non-whitespace character of `v[lo..hi]` (or `hi` when there is none).
pub fn skip_whitespace_forward(v: &Vec<char>, lo: usize, hi: usize) -> (r: usize)
    requires
        lo <= hi <= v.len(),
    ensures
        lo <= r <= hi,
        trim_start(v@.subrange(lo as int, hi as int)) == v@.subrange(r as int, hi as int),
{
    let mut i = lo;
    while i < hi && is_whitespace(v[i])
        invariant
            lo <= i <= hi <= v.len(),
            trim_start(v@.subrange(lo as int, hi as int)) == trim_start(
                v@.subrange(i as int, hi as int),
            ),
        decreases hi - i,
    {
        assert(v@.subrange(i as int, hi as int).drop_first() =~= v@.subrange(
            i + 1,
            hi as int,
        ));
        i = i + 1;
    }
    i
}

/// End index of `v[lo..hi]` once trailing whitespace is removed.
pub fn skip_whitespace_backward(v: &Vec<char>, lo: usize, hi: usize) -> (r: usize)
    requires
        lo <= hi <= v.len(),
    ensures
        lo <= r <= hi,
        trim_end(v@.subrange(lo as int, hi as int)) == v@.subrange(lo as int, r as int),
{
    let mut j = hi;
    while j > lo && is_whitespace(v[j - 1])
        invariant
            lo <= j <= hi <= v.len(),
            trim_end(v@.subrange(lo as int, hi as int)) == trim_end(
                v@.subrange(lo as int, j as int),
            ),
        decreases j - lo,
    {
        assert(v@.subrange(lo as int, j as int).drop_last() =~= v@.subrange(
            lo as int,
            j - 1,
        ));
        j = j - 1;
    }
    j
}

/// Bounds `(a, b)` of `v[lo..hi]` with surrounding whitespace removed.
pub fn trim_bounds(v: &Vec<char>, lo: usize, hi: usize) -> (r: (usize, usize))
    requires
        lo <= hi <= v.len(),
    ensures
        lo <= r.0 <= r.1 <= hi,
        trim(v@.subrange(lo as int, hi as int)) == v@.subrange(r.0 as int, r.1 as int),
{
    let a = skip_whitespace_forward(v, lo, hi);
    let b = skip_whitespace_backward(v, a, hi);
    (a, b)
}

/// Copy of `v[lo..hi]`.
pub fn slice_vec(v: &Vec<char>, lo: usize, hi: usize) -> (r: Vec<char>)
    requires
        lo <= hi <= v.len(),
    ensures
        r@ == v@.subrange(lo as int, hi as int),
{
    let mut out: Vec<char> = Vec::new();
    let mut i = lo;
    while i < hi
        invariant
            lo <= i <= hi <= v.len(),
            out@ == v@.subrange(lo as int, i as int),
        decreases hi - i,
    {
        out.push(v[i]);
        i = i + 1;
        assert(out@ =~= v@.subrange(lo as int, i as int));
    }
    out
}

/// Append every character of `src` to `dst`.
pub fn push_all(dst: &mut Vec<char>, src: &[char])
    ensures
        final(dst)@ == old(dst)@ + src@,
{
    let mut i: usize = 0;
    while i < src.len()
        invariant
            i <= src.len(),
            dst@ == old(dst)@ + src@.subrange(0, i as int),
        decreases src.len() - i,
    {
        dst.push(src[i]);
        i = i + 1;
        assert(dst@ =~= old(dst)@ + src@.subrange(0, i as int));
    }
    assert(src@.subrange(0, src@.len() as int) =~= src@);
}

/// Whether `v[at..]` begins with `p`.
pub fn matches_at(v: &Vec<char>, at: usize, p: &[char]) -> (r: bool)
    ensures
        r == occurs_at(v@, p@, at as int),
{
    if at > v.len() || p.len() > v.len() - at {
        return false;
    }
    let mut k: usize = 0;
    while k < p.len()
        invariant
            k <= p.len(),
            at + p.len() <= v.len(),
            forall|j: int| 0 <= j < k ==> v@[at + j] == p@[j],
        decreases p.len() - k,
    {
        if v[at + k] != p[k] {
            assert(v@.subrange(at as int, at + p.len())[k as int] != p@[k as int]);
            return false;
        }
        k = k + 1;
    }
    assert(v@.subrange(at as int, at + p.len()) =~= p@);
    true
}

/// Whether the string `s` begins with the literal `p` (`str::starts_with`).
pub fn str_starts_with(s: &str, p: &str) -> (r: bool)
    ensures
        r == starts_with(s@, p@),
{
    let v = chars_of(s);
    let w = chars_of(p);
    let r = matches_at(&v, 0, w.as_slice());
    proof {
        if starts_with(s@, p@) {
            assert(occurs_at(v@, w@, 0));
        }
    }
    r
}

/// Whether the string `s` ends with the literal `p` (`str::ends_with`).
pub fn str_ends_with(s: &str, p: &str) -> (r: bool)
    ensures
        r == ends_with(s@, p@),
{
    let v = chars_of(s);
    let w = chars_of(p);
    if w.len() > v.len() {
        return false;
    }
    matches_at(&v, v.len() - w.len(), w.as_slice())
}

/// Whether two character sequences are equal.
pub fn chars_eq(a: &[char], b: &[char]) -> (r: bool)
    ensures
        r == (a@ == b@),
{
    if a.len() != b.len() {
        return false;
    }
    let mut i: usize = 0;
    while i < a.len()
        invariant
            i <= a.len(),
            a.len() == b.len(),
            forall|j: int| 0 <= j < i ==> a@[j] == b@[j],
        decreases a.len() - i,
    {
        if a[i] != b[i] {
            return false;
        }
        i = i + 1;
    }
    assert(a@ =~= b@);
    true
}

/// Whether `w` spells the literal `s`.
pub fn eq_lit(w: &Vec<char>, s: &str) -> (r: bool)
    ensures
        r == (w@ == s@),
{
    let v = chars_of(s);
    chars_eq(w.as_slice(), v.as_slice())
}

/// Whether the string `a` spells the literal `s`.
pub fn str_is(a: &str, s: &str) -> (r: bool)
    ensures
        r == (a@ == s@),
{
    let w = chars_of(a);
    eq_lit(&w, s)
}

/// `prefix` followed by `x`.
pub fn concat2(prefix: &str, x: &[char]) -> (r: String)
    ensures
        r@ == prefix@ + x@,
{
    let mut v = chars_of(prefix);
    push_all(&mut v, x);
    string_of(v.as_slice())
}

/// `prefix`, then `x`, then `suffix`.
pub fn concat3(prefix: &str, x: &[char], suffix: &str) -> (r: String)
    ensures
        r@ == prefix@ + x@ + suffix@,
{
    let mut v = chars_of(prefix);
    push_all(&mut v, x);
    let s = chars_of(suffix);
    push_all(&mut v, s.as_slice());
    string_of(v.as_slice())
}

/// The views of a list of strings.
pub open spec fn views(v: Seq<String>) -> Seq<Seq<char>> {
    v.map_values(|s: String| s@)
}

/// Value of a run of ASCII decimal digits.
pub open spec fn decimal_value(d: Seq<char>) -> int
    decreases d.len(),
{
    if d.len() == 0 {
        0
    } else {
        decimal_value(d.drop_last()) * 10 + (d.last() as int - '0' as int)
    }
}

pub open spec fn all_digits(d: Seq<char>) -> bool {
    forall|i: int| 0 <= i < d.len() ==> '0' <= #[trigger] d[i] <= '9'
}

/// What `str::parse::<usize>` accepts: an optional `+` followed by at least one ASCII digit,
/// with a value that fits in `usize`.
pub open spec fn parse_usize_spec(s: Seq<char>) -> Option<usize> {
    let d = if s.len() > 0 && s[0] == '+' {
        s.drop_first()
    } else {
        s
    };
    if d.len() > 0 && all_digits(d) && decimal_value(d) <= usize::MAX {
        Some(decimal_value(d) as usize)
    } else {
        None
    }
}

proof fn lemma_decimal_nonneg(d: Seq<char>)
    requires
        all_digits(d),
    ensures
        decimal_value(d) >= 0,
    decreases d.len(),
{
    if d.len() > 0 {
        assert(all_digits(d.drop_last())) by {
            assert forall|i: int| 0 <= i < d.drop_last().len() implies '0' <= #[trigger] d.drop_last()[i] <= '9' by {
                assert(d.drop_last()[i] == d[i]);
            }
        }
        lemma_decimal_nonneg(d.drop_last());
        assert('0' <= d[d.len() - 1] <= '9');
    }
}

/// Decimal parse of `s` as a `usize` (see `parse_usize_spec`).
pub fn parse_usize(s: &str) -> (r: Option<usize>)
    ensures
        r == parse_usize_spec(s@),
{
    let v = chars_of(s);
    let start: usize = if v.len() > 0 && v[0] == '+' {
        1
    } else {
        0
    };
    let ghost d = if v@.len() > 0 && v@[0] == '+' {
        v@.drop_first()
    } else {
        v@
    };
    assert(d =~= v@.subrange(start as int, v@.len() as int));
    if start >= v.len() {
        return None;
    }
    let mut acc: usize = 0;
    let mut i = start;
    while i < v.len()
        invariant
            start <= i <= v.len(),
            v@ == s@,
            start < v.len(),
            start == (if v@.len() > 0 && v@[0] == '+' { 1int } else { 0int }),
            d == (if s@.len() > 0 && s@[0] == '+' { s@.drop_first() } else { s@ }),
            d == v@.subrange(start as int, v@.len() as int),
            all_digits(v@.subrange(start as int, i as int)),
            acc as int == decimal_value(v@.subrange(start as int, i as int)),
        decreases v.len() - i,
    {
        let c = v[i];
        assert(v@.subrange(start as int, i + 1).drop_last() =~= v@.subrange(start as int, i as int));
        if !('0' <= c && c <= '9') {
            assert(d[i - start] == c);
            assert(!all_digits(d));
            return None;
        }
        let digit = (c as u32 - '0' as u32) as usize;
        assert(all_digits(v@.subrange(start as int, i + 1))) by {
            assert forall|k: int| 0 <= k < i + 1 - start implies '0' <= #[trigger] v@.subrange(start as int, i + 1)[k] <= '9' by {
                if k < i - start {
                    assert(v@.subrange(start as int, i + 1)[k] == v@.subrange(start as int, i as int)[k]);
                }
            }
        }
        if acc > (usize::MAX - digit) / 10 {
            assert(d.subrange(0, (i + 1 - start) as int) =~= v@.subrange(start as int, i + 1));
            proof {
                lemma_decimal_prefix_grows(d, (i + 1 - start) as int);
            }
            assert(decimal_value(v@.subrange(start as int, i + 1)) > usize::MAX) by (nonlinear_arith)
                requires
                    decimal_value(v@.subrange(start as int, i + 1)) == acc * 10 + digit,
                    acc > (usize::MAX - digit) / 10,
                    digit <= 9,
            ;
            return None;
        }
        acc = acc * 10 + digit;
        i = i + 1;
    }
    assert(v@.subrange(start as int, v@.len() as int) == d);
    Some(acc)
}

proof fn lemma_decimal_prefix_grows(d: Seq<char>, k: int)
    requires
        0 <= k <= d.len(),
        all_digits(d.subrange(0, k)),
    ensures
        all_digits(d) ==> decimal_value(d) >= decimal_value(d.subrange(0, k)),
    decreases d.len() - k,
{
    if k < d.len() && all_digits(d) {
        assert(d.subrange(0, k + 1).drop_last() =~= d.subrange(0, k));
        assert(all_digits(d.subrange(0, k + 1))) by {
            assert forall|i: int| 0 <= i < k + 1 implies '0' <= #[trigger] d.subrange(0, k + 1)[i] <= '9' by {
                assert(d.subrange(0, k + 1)[i] == d[i]);
            }
        }
        lemma_decimal_nonneg(d.subrange(0, k));
        assert(decimal_value(d.subrange(0, k + 1)) >= decimal_value(d.subrange(0, k))) by (nonlinear_arith)
            requires
                decimal_value(d.subrange(0, k + 1)) == decimal_value(d.subrange(0, k)) * 10 + (d[k] as int - '0' as int),
                decimal_value(d.subrange(0, k)) >= 0,
                '0' <= d[k] <= '9',
        ;
        lemma_decimal_prefix_grows(d, k + 1);
    } else if k == d.len() {
        assert(d.subrange(0, k) =~= d);
    }
}

/// The ASCII digit for `d` (`0 <= d < 10`).
pub open spec fn digit_char(d: int) -> char {
    if d <= 0 {
        '0'
    } else if d == 1 {
        '1'
    } else if d == 2 {
        '2'
    } else if d == 3 {
        '3'
    } else if d == 4 {
        '4'
    } else if d == 5 {
        '5'
    } else if d == 6 {
        '6'
    } else if d == 7 {
        '7'
    } else if d == 8 {
        '8'
    } else {
        '9'
    }
}

/// The decimal text of `n` (what `Display` writes for an unsigned integer).
pub open spec fn decimal_text(n: nat) -> Seq<char>
    decreases n,
{
    if n < 10 {
        seq![digit_char(n as int)]
    } else {
        decimal_text(n / 10).push(digit_char((n % 10) as int))
    }
}

fn digit_of(d: u128) -> (c: char)
    requires
        d < 10,
    ensures
        c == digit_char(d as int),
{
    if d == 0 {
        '0'
    } else if d == 1 {
        '1'
    } else if d == 2 {
        '2'
    } else if d == 3 {
        '3'
    } else if d == 4 {
        '4'
    } else if d == 5 {
        '5'
    } else if d == 6 {
        '6'
    } else if d == 7 {
        '7'
    } else if d == 8 {
        '8'
    } else {
        '9'
    }
}

/// The decimal digits of `n`.
pub fn decimal_chars(n: u128) -> (r: Vec<char>)
    ensures
        r@ == decimal_text(n as nat),
    decreases n,
{
    if n < 10 {
        let mut v: Vec<char> = Vec::new();
        v.push(digit_of(n));
        v
    } else {
        let mut v = decimal_chars(n / 10);
        v.push(digit_of(n % 10));
        v
    }
}

/// The decimal text of `n` as a string.
pub fn decimal_string(n: u128) -> (r: String)
    ensures
        r@ == decimal_text(n as nat),
{
    let v = decimal_chars(n);
    string_of(v.as_slice())
}

/// Lexicographic order of character sequences by code point (the order of `String`, whose
/// UTF-8 bytes compare as their code points do).
pub open spec fn str_less(a: Seq<char>, b: Seq<char>) -> bool
    decreases a.len(),
{
    if a.len() == 0 {
        b.len() > 0
    } else if b.len() == 0 {
        false
    } else if a[0] != b[0] {
        a[0] < b[0]
    } else {
        str_less(a.drop_first(), b.drop_first())
    }
}

/// `str_less` is a strict total order.
pub proof fn lemma_str_less_order(a: Seq<char>, b: Seq<char>, c: Seq<char>)
    ensures
        !str_less(a, a),
        a != b ==> (str_less(a, b) || str_less(b, a)),
        !(str_less(a, b) && str_less(b, a)),
        str_less(a, b) && str_less(b, c) ==> str_less(a, c),
    decreases a.len(),
{
    if a.len() > 0 {
        if b.len() > 0 && c.len() > 0 {
            lemma_str_less_order(a.drop_first(), b.drop_first(), c.drop_first());
        } else if b.len() > 0 {
            lemma_str_less_order(a.drop_first(), b.drop_first(), b.drop_first());
        } else if c.len() > 0 {
            lemma_str_less_order(a.drop_first(), c.drop_first(), c.drop_first());
        } else {
            lemma_str_less_order(a.drop_first(), a.drop_first(), a.drop_first());
        }
        if a != b && b.len() > 0 && a[0] == b[0] {
            assert(a.drop_first() != b.drop_first()) by {
                if a.drop_first() == b.drop_first() {
                    assert(a =~= seq![a[0]] + a.drop_first());
                    assert(b =~= seq![b[0]] + b.drop_first());
                }
            }
        }
    } else {
        if b.len() == 0 {
            assert(a =~= b);
        }
    }
}

/// Whether `a` orders before `b`.
pub fn chars_less(a: &[char], b: &[char]) -> (r: bool)
    ensures
        r == str_less(a@, b@),
{
    let mut i: usize = 0;
    assert(a@.subrange(0, a.len() as int) =~= a@);
    assert(b@.subrange(0, b.len() as int) =~= b@);
    while i < a.len() && i < b.len() && a[i] == b[i]
        invariant
            i <= a.len(),
            i <= b.len(),
            str_less(a@, b@) == str_less(
                a@.subrange(i as int, a.len() as int),
                b@.subrange(i as int, b.len() as int),
            ),
        decreases a.len() - i,
    {
        assert(a@.subrange(i as int, a.len() as int).drop_first() =~= a@.subrange(
            i + 1,
            a.len() as int,
        ));
        assert(b@.subrange(i as int, b.len() as int).drop_first() =~= b@.subrange(
            i + 1,
            b.len() as int,
        ));
        i = i + 1;
    }
    if i == a.len() {
        i < b.len()
    } else if i == b.len() {
        false
    } else {
        a[i] < b[i]
    }
}

/// Index of the first `\n` at or after `i`, or the end of `s`.
pub open spec fn line_stop(s: Seq<char>, i: int) -> int
    decreases s.len() - i,
{
    if i >= s.len() || s[i] == '\n' {
        i
    } else {
        line_stop(s, i + 1)
    }
}

pub proof fn lemma_line_stop(s: Seq<char>, i: int)
    requires
        0 <= i <= s.len(),
    ensures
        i <= line_stop(s, i) <= s.len(),
        line_stop(s, i) < s.len() ==> s[line_stop(s, i)] == '\n',
        forall|k: int| i <= k < line_stop(s, i) ==> s[k] != '\n',
    decreases s.len() - i,
{
    if i < s.len() && s[i] != '\n' {
        lemma_line_stop(s, i + 1);
    }
}

/// A line without its trailing carriage return.
pub open spec fn strip_cr(l: Seq<char>) -> Seq<char> {
    if l.len() > 0 && l.last() == '\r' {
        l.drop_last()
    } else {
        l
    }
}

/// The lines of `s` from index `i` on, as `str::lines` gives them: split at each `\n`, a
/// trailing `\r` removed from each, and no empty line after a final `\n`.
pub open spec fn lines_from(s: Seq<char>, i: int) -> Seq<Seq<char>>
    decreases s.len() - i + 1,
{
    if i < 0 || i >= s.len() {
        Seq::empty()
    } else {
        let e = line_stop(s, i);
        proof {
            lemma_line_stop(s, i);
        }
        seq![strip_cr(s.subrange(i, e))] + lines_from(s, e + 1)
    }
}

/// There are no more lines than characters.
pub proof fn lemma_lines_from_len(s: Seq<char>, i: int)
    requires
        0 <= i <= s.len(),
    ensures
        lines_from(s, i).len() <= s.len() - i,
    decreases s.len() - i,
{
    if i < s.len() {
        lemma_line_stop(s, i);
        let e = line_stop(s, i);
        if e + 1 <= s.len() {
            lemma_lines_from_len(s, e + 1);
        }
    }
}

/// The lines of `s` (`str::lines`).
pub open spec fn lines_of(s: Seq<char>) -> Seq<Seq<char>> {
    lines_from(s, 0)
}

/// `lines` joined with `\n` between them.
pub open spec fn join_lines(lines: Seq<Seq<char>>) -> Seq<char>
    decreases lines.len(),
{
    if lines.len() == 0 {
        Seq::empty()
    } else if lines.len() == 1 {
        lines[0]
    } else {
        join_lines(lines.drop_last()) + seq!['\n'] + lines.last()
    }
}

/// Reads `s` line by line, as `str::lines` does.
pub struct LineReader {
    pub text: Vec<char>,
    pub pos: usize,
}

impl LineReader {
    pub open spec fn rest(&self) -> Seq<Seq<char>> {
        lines_from(self.text@, self.pos as int)
    }

    pub fn new(s: &str) -> (r: LineReader)
        ensures
            r.text@ == s@,
            r.rest() == lines_of(s@),
    {
        LineReader { text: chars_of(s), pos: 0 }
    }

    /// The next line, or `None` at the end.
    pub fn next_line(&mut self) -> (r: Option<Vec<char>>)
        ensures
            final(self).text@ == old(self).text@,
            match r {
                Some(l) => old(self).rest().len() > 0 && l@ == old(self).rest()[0]
                    && final(self).rest() == old(self).rest().drop_first(),
                None => old(self).rest().len() == 0 && final(self).rest() == old(self).rest(),
            },
    {
        if self.pos >= self.text.len() {
            return None;
        }
        let start = self.pos;
        let mut end = start;
        while end < self.text.len() && self.text[end] != '\n'
            invariant
                start <= end <= self.text.len(),
                start < self.text.len(),
                line_stop(self.text@, start as int) == line_stop(self.text@, end as int),
            decreases self.text.len() - end,
        {
            end = end + 1;
        }
        proof {
            lemma_line_stop(self.text@, start as int);
        }
        let mut line = slice_vec(&self.text, start, end);
        if line.len() > 0 && line[line.len() - 1] == '\r' {
            line.pop();
            assert(line@ =~= strip_cr(self.text@.subrange(start as int, end as int)));
        }
        let ghost r = lines_from(self.text@, start as int);
        assert(r.drop_first() =~= lines_from(self.text@, end + 1));
        if end < self.text.len() {
            self.pos = end + 1;
        } else {
            self.pos = end;
            assert(lines_from(self.text@, end + 1) =~= lines_from(self.text@, end as int));
        }
        Some(line)
    }
}

/// Builds text line by line, joined with `\n`.
pub struct LineWriter {
    pub text: Vec<char>,
    pub started: bool,
    pub lines: Ghost<Seq<Seq<char>>>,
}

impl LineWriter {
    pub open spec fn wf(&self) -> bool {
        &&& self.text@ == join_lines(self.lines@)
        &&& self.started == (self.lines@.len() > 0)
    }

    pub fn new() -> (r: LineWriter)
        ensures
            r.wf(),
            r.lines@ == Seq::<Seq<char>>::empty(),
    {
        LineWriter { text: Vec::new(), started: false, lines: Ghost(Seq::empty()) }
    }

    pub fn push_line(&mut self, line: &[char])
        requires
            old(self).wf(),
        ensures
            final(self).wf(),
            final(self).lines@ == old(self).lines@.push(line@),
    {
        let ghost before = self.lines@;
        if self.started {
            self.text.push('\n');
        } else {
            assert(self.text@ =~= Seq::<char>::empty());
        }
        push_all(&mut self.text, line);
        self.started = true;
        self.lines = Ghost(before.push(line@));
        proof {
            let l = before.push(line@);
            assert(l.drop_last() =~= before);
            if before.len() == 0 {
                assert(self.text@ =~= line@);
            } else {
                assert(self.text@ =~= join_lines(before) + seq!['\n'] + line@);
            }
        }
    }
}

/// Whether `p` occurs somewhere in `s` (`str::contains`).
pub open spec fn contains_text(s: Seq<char>, p: Seq<char>) -> bool {
    exists|i: int| occurs_at(s, p, i)
}

/// Whether the literal `p` occurs in `s`.
pub fn text_contains(s: &Vec<char>, p: &str) -> (r: bool)
    ensures
        r == contains_text(s@, p@),
{
    let pv = chars_of(p);
    let mut i: usize = 0;
    while i < s.len()
        invariant
            i <= s.len(),
            pv@ == p@,
            forall|k: int| 0 <= k < i ==> !occurs_at(s@, p@, k),
        decreases s.len() - i,
    {
        if matches_at(s, i, pv.as_slice()) {
            return true;
        }
        i = i + 1;
    }
    if matches_at(s, i, pv.as_slice()) {
        return true;
    }
    assert forall|k: int| !occurs_at(s@, p@, k) by {
        if 0 <= k <= i {
        }
    }
    false
}

/// `parts` joined with `sep` between them.
pub open spec fn join_with(parts: Seq<Seq<char>>, sep: Seq<char>) -> Seq<char>
    decreases parts.len(),
{
    if parts.len() == 0 {
        Seq::empty()
    } else if parts.len() == 1 {
        parts[0]
    } else {
        join_with(parts.drop_last(), sep) + sep + parts.last()
    }
}

/// Joining one more part: it follows the separator unless it is the first.
pub proof fn lemma_join_push(p: Seq<Seq<char>>, sep: Seq<char>, x: Seq<char>)
    ensures
        join_with(p.push(x), sep) == if p.len() == 0 {
            x
        } else {
            join_with(p, sep) + sep + x
        },
{
    assert(p.push(x).drop_last() =~= p);
}

/// Names that strictly increase: each occurs once, in code-point order (the order of a
/// `BTreeMap` or `BTreeSet` of strings).
pub open spec fn strictly_sorted(v: Seq<Seq<char>>) -> bool {
    forall|i: int, j: int| 0 <= i < j < v.len() ==> str_less(#[trigger] v[i], #[trigger] v[j])
}

/// Add `s` to a strictly sorted list of names: the list stays strictly sorted and holds
/// exactly its names and `s`.
pub fn insert_sorted_unique(v: &mut Vec<String>, s: String)
    requires
        strictly_sorted(views(old(v)@)),
    ensures
        strictly_sorted(views(final(v)@)),
        forall|x: Seq<char>| #[trigger] views(final(v)@).contains(x) <==> (x == s@ || views(old(v)@).contains(x)),
{
    let sc = chars_of(s.as_str());
    let ghost old_v = views(v@);
    let ghost sv = s@;
    let mut i: usize = 0;
    loop
        invariant
            i <= v.len(),
            views(v@) == old_v,
            sc@ == sv,
            sv == s@,
            strictly_sorted(old_v),
            forall|k: int| 0 <= k < i ==> str_less(#[trigger] old_v[k], sv),
        ensures
            i <= v.len(),
            views(v@) == old_v,
            forall|k: int| 0 <= k < i ==> str_less(#[trigger] old_v[k], sv),
            i < v.len() ==> !str_less(old_v[i as int], sv),
        decreases v.len() - i,
    {
        if i >= v.len() {
            break;
        }
        let cur = chars_of(v[i].as_str());
        assert(cur@ == old_v[i as int]);
        if !chars_less(cur.as_slice(), sc.as_slice()) {
            break;
        }
        i = i + 1;
    }
    if i < v.len() {
        let cur = chars_of(v[i].as_str());
        assert(cur@ == old_v[i as int]);
        if chars_eq(cur.as_slice(), sc.as_slice()) {
            assert(old_v[i as int] == sv);
            assert(old_v.contains(sv));
            return;
        }
        proof {
            lemma_str_less_order(old_v[i as int], sv, sv);
        }
    }
    let ghost pos = i as int;
    v.insert(i, s);
    proof {
        let nv = views(v@);
        assert(nv =~= old_v.insert(pos, sv));
        assert(nv.len() == old_v.len() + 1);
        assert forall|a: int, b: int| 0 <= a < b < nv.len() implies str_less(#[trigger] nv[a], #[trigger] nv[b]) by {
            if b < pos {
                assert(nv[a] == old_v[a] && nv[b] == old_v[b]);
            } else if b == pos {
                assert(nv[a] == old_v[a] && nv[b] == sv);
            } else if a < pos {
                assert(nv[a] == old_v[a] && nv[b] == old_v[b - 1]);
            } else if a == pos {
                assert(nv[a] == sv && nv[b] == old_v[b - 1]);
                assert(str_less(sv, old_v[pos]));
                if b - 1 > pos {
                    assert(str_less(old_v[pos], old_v[b - 1]));
                    lemma_str_less_order(sv, old_v[pos], old_v[b - 1]);
                }
            } else {
                assert(nv[a] == old_v[a - 1] && nv[b] == old_v[b - 1]);
            }
        }
        assert forall|x: Seq<char>| #[trigger] nv.contains(x) <==> (x == sv || old_v.contains(x)) by {
            if nv.contains(x) {
                let k = choose|k: int| 0 <= k < nv.len() && nv[k] == x;
                if k < pos {
                    assert(old_v[k] == x);
                } else if k > pos {
                    assert(old_v[k - 1] == x);
                }
            }
            if x == sv {
                assert(nv[pos] == sv);
            } else if old_v.contains(x) {
                let k = choose|k: int| 0 <= k < old_v.len() && old_v[k] == x;
                if k < pos {
                    assert(nv[k] == x);
                } else {
                    assert(nv[k + 1] == x);
                }
            }
        }
    }
}

} // verus!
