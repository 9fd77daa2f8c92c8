//! TOML documents as plain values: the parse of a text (by the `toml` crate), and lookups of
//! tables, keys and strings in the parsed document.

use vstd::prelude::*;
use crate::text::chars_of;

verus! {

/// A TOML value, as far as this toolchain reads it: strings, integers, booleans, arrays and
/// tables (keys with values, in the order the `toml` crate's map gives them, which is key
/// order); floats and datetimes are `Other`.
#[derive(Debug)]
pub enum TomlValue {
    Str(String),
    Integer(i64),
    Bool(bool),
    Array(Vec<TomlValue>),
    Table(Vec<(String, TomlValue)>),
    Other,
}

/// A TOML value as plain values.
pub enum TomlValueView {
    Str(Seq<char>),
    Integer(int),
    Bool(bool),
    Array(Seq<TomlValueView>),
    Table(Seq<(Seq<char>, TomlValueView)>),
    Other,
}

/// The plain view of a TOML value.
pub open spec fn toml_view(v: TomlValue) -> TomlValueView
    decreases v,
{
    match v {
        TomlValue::Str(s) => TomlValueView::Str(s@),
        TomlValue::Integer(i) => TomlValueView::Integer(i as int),
        TomlValue::Bool(b) => TomlValueView::Bool(b),
        TomlValue::Array(a) => TomlValueView::Array(values_view(a@)),
        TomlValue::Table(t) => TomlValueView::Table(entries_view(t@)),
        TomlValue::Other => TomlValueView::Other,
    }
}

/// The plain views of a sequence of values.
pub open spec fn values_view(s: Seq<TomlValue>) -> Seq<TomlValueView>
    decreases s,
{
    if s.len() == 0 {
        Seq::empty()
    } else {
        values_view(s.drop_last()).push(toml_view(s.last()))
    }
}

/// The plain views of a table's entries.
pub open spec fn entries_view(s: Seq<(String, TomlValue)>) -> Seq<(Seq<char>, TomlValueView)>
    decreases s,
{
    if s.len() == 0 {
        Seq::empty()
    } else {
        entries_view(s.drop_last()).push((s.last().0@, toml_view(s.last().1)))
    }
}

/// What the `toml` crate makes of a text as a document: its root table, or its error message.
pub uninterp spec fn toml_parse(text: Seq<char>) -> Result<TomlValueView, Seq<char>>;

/// `toml::from_str::<toml::Table>`: the text parsed as a TOML document. The root table comes
/// back as `TomlValue::Table`, every value converted one for one; a text that is not TOML
/// gives the parser's error message. Nothing more than the name is claimed of the result.
#[verifier::external_body]
pub fn parse_toml(text: &str) -> (r: Result<TomlValue, String>)
    ensures
        match r {
            Ok(v) => toml_parse(text@) == Ok::<TomlValueView, Seq<char>>(toml_view(v)),
            Err(e) => toml_parse(text@) == Err::<TomlValueView, Seq<char>>(e@),
        },
{
    match toml::from_str::<toml::Table>(text) {
        Ok(t) => Ok(TomlValue::Table(t.into_iter().map(|(k, v)| (k, toml_tree(v))).collect())),
        Err(e) => Err(e.to_string()),
    }
}

/// A value of a document parsed by the `toml` crate.
#[verifier::external_type_specification]
#[verifier::external_body]
pub struct ExTomlValue(toml::Value);

/// The conversion `parse_toml` applies to each value of a parsed document, one variant for one
/// (floats and datetimes become `Other`).
#[verifier::external_body]
fn toml_tree(v: toml::Value) -> TomlValue {
    match v {
        toml::Value::String(s) => TomlValue::Str(s),
        toml::Value::Integer(i) => TomlValue::Integer(i),
        toml::Value::Boolean(b) => TomlValue::Bool(b),
        toml::Value::Array(a) => TomlValue::Array(a.into_iter().map(toml_tree).collect()),
        toml::Value::Table(t) => TomlValue::Table(t.into_iter().map(|(k, v)| (k, toml_tree(v))).collect()),
        toml::Value::Float(_) | toml::Value::Datetime(_) => TomlValue::Other,
    }
}

/// The value of the first entry named `key` in a table's entries.
pub open spec fn entry(t: Seq<(Seq<char>, TomlValueView)>, key: Seq<char>, i: int) -> Option<TomlValueView>
    decreases t.len() - i,
{
    if i < 0 || i >= t.len() {
        None
    } else if t[i].0 == key {
        Some(t[i].1)
    } else {
        entry(t, key, i + 1)
    }
}

/// `v.get(key)`: the value under `key` when `v` is a table.
pub open spec fn get(v: Option<TomlValueView>, key: Seq<char>) -> Option<TomlValueView> {
    match v {
        Some(TomlValueView::Table(t)) => entry(t, key, 0),
        _ => None,
    }
}

/// The string under `key` of `v`, when `v` is a table holding a string there.
pub open spec fn get_str(v: Option<TomlValueView>, key: Seq<char>) -> Option<Seq<char>> {
    match get(v, key) {
        Some(TomlValueView::Str(s)) => Some(s),
        _ => None,
    }
}

/// The index of the first entry of `t` named `key`.
pub fn find_entry(t: &Vec<(String, TomlValue)>, key: &str) -> (r: Option<usize>)
    ensures
        match entry(entries_view(t@), key@, 0) {
            Some(v) => r matches Some(k) && k < t@.len() && toml_view(t@[k as int].1) == v,
            None => r is None,
        },
{
    let k = chars_of(key);
    let ghost ev = entries_view(t@);
    proof {
        lemma_entries_view(t@);
    }
    let mut i: usize = 0;
    while i < t.len()
        invariant
            i <= t.len(),
            k@ == key@,
            ev == entries_view(t@),
            ev.len() == t@.len(),
            forall|j: int| 0 <= j < t@.len() ==> #[trigger] ev[j] == (t@[j].0@, toml_view(t@[j].1)),
            entry(ev, key@, 0) == entry(ev, key@, i as int),
        decreases t.len() - i,
    {
        assert(ev[i as int] == (t@[i as int].0@, toml_view(t@[i as int].1)));
        if crate::text::chars_eq(chars_of(t[i].0.as_str()).as_slice(), k.as_slice()) {
            return Some(i);
        }
        i = i + 1;
    }
    None
}

/// The entries' views, element by element.
pub proof fn lemma_entries_view(t: Seq<(String, TomlValue)>)
    ensures
        entries_view(t).len() == t.len(),
        forall|j: int| 0 <= j < t.len() ==> #[trigger] entries_view(t)[j] == (t[j].0@, toml_view(t[j].1)),
    decreases t.len(),
{
    if t.len() > 0 {
        lemma_entries_view(t.drop_last());
        assert forall|j: int| 0 <= j < t.len() implies #[trigger] entries_view(t)[j] == (t[j].0@, toml_view(t[j].1)) by {
            if j < t.len() - 1 {
                assert(t.drop_last()[j] == t[j]);
            }
        }
    }
}

/// The values' views, element by element.
pub proof fn lemma_values_view(s: Seq<TomlValue>)
    ensures
        values_view(s).len() == s.len(),
        forall|j: int| 0 <= j < s.len() ==> #[trigger] values_view(s)[j] == toml_view(s[j]),
    decreases s.len(),
{
    if s.len() > 0 {
        lemma_values_view(s.drop_last());
        assert forall|j: int| 0 <= j < s.len() implies #[trigger] values_view(s)[j] == toml_view(s[j]) by {
            if j < s.len() - 1 {
                assert(s.drop_last()[j] == s[j]);
            }
        }
    }
}

/// An optional value reference as plain values.
pub open spec fn opt_tv(o: Option<&TomlValue>) -> Option<TomlValueView> {
    match o {
        Some(x) => Some(toml_view(*x)),
        None => None,
    }
}

/// `v.get(key)` on a value that may be absent.
pub fn get_value<'a>(v: Option<&'a TomlValue>, key: &str) -> (r: Option<&'a TomlValue>)
    ensures
        opt_tv(r) == get(opt_tv(v), key@),
{
    match v {
        Some(TomlValue::Table(t)) => match find_entry(t, key) {
            Some(k) => Some(&t[k].1),
            None => None,
        },
        _ => None,
    }
}

/// The string under `key` of a value that may be absent.
pub fn get_string(v: Option<&TomlValue>, key: &str) -> (r: Option<String>)
    ensures
        crate::commands::opt_view(r) == get_str(opt_tv(v), key@),
{
    match get_value(v, key) {
        Some(TomlValue::Str(s)) => Some(s.clone()),
        _ => None,
    }
}

} // verus!
