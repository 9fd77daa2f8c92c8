//! Value types as the language server shows them, and the hover texts built from them.

use vstd::prelude::*;
use crate::semantic::SymbolKind;
use crate::text::{chars_eq, chars_of, push_all, string_of};

verus! {

/// A value type of the language.
#[derive(Debug)]
pub enum ValueType {
    Namba,
    Neno,
    Ukweli,
    Tupu,
    Hamna,
    Herufi,
    NambaKuu,
    NambaSahihi,
    Wakati,
    Anuani,
    Unknown,
    Faili,
    Mkondo,
    Chaguo(Box<ValueType>),
    Tokeo(Box<ValueType>, Box<ValueType>),
    Kamusi(Box<ValueType>, Box<ValueType>),
    Jozi(Box<ValueType>, Box<ValueType>),
    Rejeo(Box<ValueType>, bool),
    Orodha(Box<ValueType>),
    Mfululizo(Box<ValueType>),
    Seti(Box<ValueType>),
    KashaGC(Box<ValueType>),
    Kumbukumbu(Box<ValueType>),
    NjiaTx(Box<ValueType>),
    NjiaRx(Box<ValueType>),
    Fungo(Box<ValueType>),
    Struct(String),
    TypeVar(String),
}

/// How a type is written.
pub open spec fn type_text(t: ValueType) -> Seq<char>
    decreases t,
{
    match t {
        ValueType::Namba => "Namba"@,
        ValueType::Neno => "Neno"@,
        ValueType::Ukweli => "Ukweli"@,
        ValueType::Tupu => "Tupu"@,
        ValueType::Hamna => "Hamna"@,
        ValueType::Herufi => "Herufi"@,
        ValueType::NambaKuu => "Namba_Kuu"@,
        ValueType::NambaSahihi => "Namba_Sahihi"@,
        ValueType::Wakati => "Wakati"@,
        ValueType::Anuani => "Anuani"@,
        ValueType::Unknown => "Haijulikani"@,
        ValueType::Faili => "Faili"@,
        ValueType::Mkondo => "Mkondo"@,
        ValueType::Chaguo(a) => type_text(*a) + "?"@,
        ValueType::Tokeo(a, b) => "Tokeo<"@ + type_text(*a) + ", "@ + type_text(*b) + ">"@,
        ValueType::Kamusi(a, b) => "Kamusi<"@ + type_text(*a) + ", "@ + type_text(*b) + ">"@,
        ValueType::Jozi(a, b) => "Jozi<"@ + type_text(*a) + ", "@ + type_text(*b) + ">"@,
        ValueType::Rejeo(a, mutable) => if mutable {
            "&mut "@ + type_text(*a)
        } else {
            "&"@ + type_text(*a)
        },
        ValueType::Orodha(a) => "Orodha<"@ + type_text(*a) + ">"@,
        ValueType::Mfululizo(a) => "Mfululizo<"@ + type_text(*a) + ">"@,
        ValueType::Seti(a) => "Seti<"@ + type_text(*a) + ">"@,
        ValueType::KashaGC(a) => "Kasha_GC<"@ + type_text(*a) + ">"@,
        ValueType::Kumbukumbu(a) => "Kumbukumbu<"@ + type_text(*a) + ">"@,
        ValueType::NjiaTx(a) => "NjiaTx<"@ + type_text(*a) + ">"@,
        ValueType::NjiaRx(a) => "NjiaRx<"@ + type_text(*a) + ">"@,
        ValueType::Fungo(a) => "Fungo<"@ + type_text(*a) + ">"@,
        ValueType::Struct(n) => n@,
        ValueType::TypeVar(n) => n@,
    }
}

fn push_text(out: &mut Vec<char>, s: &str)
    ensures
        final(out)@ == old(out)@ + s@,
{
    push_all(out, chars_of(s).as_slice());
}

fn write_type(t: &ValueType, out: &mut Vec<char>)
    ensures
        final(out)@ == old(out)@ + type_text(*t),
    decreases t,
{
    let ghost before = out@;
    match t {
        ValueType::Namba => push_text(out, "Namba"),
        ValueType::Neno => push_text(out, "Neno"),
        ValueType::Ukweli => push_text(out, "Ukweli"),
        ValueType::Tupu => push_text(out, "Tupu"),
        ValueType::Hamna => push_text(out, "Hamna"),
        ValueType::Herufi => push_text(out, "Herufi"),
        ValueType::NambaKuu => push_text(out, "Namba_Kuu"),
        ValueType::NambaSahihi => push_text(out, "Namba_Sahihi"),
        ValueType::Wakati => push_text(out, "Wakati"),
        ValueType::Anuani => push_text(out, "Anuani"),
        ValueType::Unknown => push_text(out, "Haijulikani"),
        ValueType::Faili => push_text(out, "Faili"),
        ValueType::Mkondo => push_text(out, "Mkondo"),
        ValueType::Chaguo(a) => {
            write_type(a, out);
            push_text(out, "?");
        },
        ValueType::Tokeo(a, b) => {
            push_text(out, "Tokeo<");
            write_type(a, out);
            push_text(out, ", ");
            write_type(b, out);
            push_text(out, ">");
        },
        ValueType::Kamusi(a, b) => {
            push_text(out, "Kamusi<");
            write_type(a, out);
            push_text(out, ", ");
            write_type(b, out);
            push_text(out, ">");
        },
        ValueType::Jozi(a, b) => {
            push_text(out, "Jozi<");
            write_type(a, out);
            push_text(out, ", ");
            write_type(b, out);
            push_text(out, ">");
        },
        ValueType::Rejeo(a, mutable) => {
            if *mutable {
                push_text(out, "&mut ");
            } else {
                push_text(out, "&");
            }
            write_type(a, out);
        },
        ValueType::Orodha(a) => {
            push_text(out, "Orodha<");
            write_type(a, out);
            push_text(out, ">");
        },
        ValueType::Mfululizo(a) => {
            push_text(out, "Mfululizo<");
            write_type(a, out);
            push_text(out, ">");
        },
        ValueType::Seti(a) => {
            push_text(out, "Seti<");
            write_type(a, out);
            push_text(out, ">");
        },
        ValueType::KashaGC(a) => {
            push_text(out, "Kasha_GC<");
            write_type(a, out);
            push_text(out, ">");
        },
        ValueType::Kumbukumbu(a) => {
            push_text(out, "Kumbukumbu<");
            write_type(a, out);
            push_text(out, ">");
        },
        ValueType::NjiaTx(a) => {
            push_text(out, "NjiaTx<");
            write_type(a, out);
            push_text(out, ">");
        },
        ValueType::NjiaRx(a) => {
            push_text(out, "NjiaRx<");
            write_type(a, out);
            push_text(out, ">");
        },
        ValueType::Fungo(a) => {
            push_text(out, "Fungo<");
            write_type(a, out);
            push_text(out, ">");
        },
        ValueType::Struct(n) => push_text(out, n.as_str()),
        ValueType::TypeVar(n) => push_text(out, n.as_str()),
    }
    assert(out@ =~= before + type_text(*t));
}

/// How a type is written: `Orodha<Namba>`, `Neno?`, `&mut Kasha_GC<T>`, ...
pub fn format_type(t: &ValueType) -> (r: String)
    ensures
        r@ == type_text(*t),
{
    let mut out: Vec<char> = Vec::new();
    write_type(t, &mut out);
    assert(out@ =~= type_text(*t));
    string_of(out.as_slice())
}

impl ValueType {
    /// An equal copy.
    pub fn clone_type(&self) -> (r: ValueType)
        ensures
            r == *self,
        decreases self,
    {
        match self {
            ValueType::Namba => ValueType::Namba,
            ValueType::Neno => ValueType::Neno,
            ValueType::Ukweli => ValueType::Ukweli,
            ValueType::Tupu => ValueType::Tupu,
            ValueType::Hamna => ValueType::Hamna,
            ValueType::Herufi => ValueType::Herufi,
            ValueType::NambaKuu => ValueType::NambaKuu,
            ValueType::NambaSahihi => ValueType::NambaSahihi,
            ValueType::Wakati => ValueType::Wakati,
            ValueType::Anuani => ValueType::Anuani,
            ValueType::Unknown => ValueType::Unknown,
            ValueType::Faili => ValueType::Faili,
            ValueType::Mkondo => ValueType::Mkondo,
            ValueType::Chaguo(a) => ValueType::Chaguo(Box::new(a.clone_type())),
            ValueType::Tokeo(a, b) => ValueType::Tokeo(Box::new(a.clone_type()), Box::new(b.clone_type())),
            ValueType::Kamusi(a, b) => ValueType::Kamusi(Box::new(a.clone_type()), Box::new(b.clone_type())),
            ValueType::Jozi(a, b) => ValueType::Jozi(Box::new(a.clone_type()), Box::new(b.clone_type())),
            ValueType::Rejeo(a, m) => ValueType::Rejeo(Box::new(a.clone_type()), *m),
            ValueType::Orodha(a) => ValueType::Orodha(Box::new(a.clone_type())),
            ValueType::Mfululizo(a) => ValueType::Mfululizo(Box::new(a.clone_type())),
            ValueType::Seti(a) => ValueType::Seti(Box::new(a.clone_type())),
            ValueType::KashaGC(a) => ValueType::KashaGC(Box::new(a.clone_type())),
            ValueType::Kumbukumbu(a) => ValueType::Kumbukumbu(Box::new(a.clone_type())),
            ValueType::NjiaTx(a) => ValueType::NjiaTx(Box::new(a.clone_type())),
            ValueType::NjiaRx(a) => ValueType::NjiaRx(Box::new(a.clone_type())),
            ValueType::Fungo(a) => ValueType::Fungo(Box::new(a.clone_type())),
            ValueType::Struct(n) => ValueType::Struct(n.clone()),
            ValueType::TypeVar(n) => ValueType::TypeVar(n.clone()),
        }
    }
}

/// The value type a written type name stands for, unless it names a struct (`None`): the
/// simple type names, `Nambari` as `Namba`, and a name ending in `?` as an optional of
/// unknown type.
pub open spec fn builtin_type_named(name: Seq<char>) -> Option<ValueType> {
    if name == "Nambari"@ || name == "Namba"@ {
        Some(ValueType::Namba)
    } else if name == "Neno"@ {
        Some(ValueType::Neno)
    } else if name == "Ukweli"@ {
        Some(ValueType::Ukweli)
    } else if name == "Herufi"@ {
        Some(ValueType::Herufi)
    } else if name == "Tupu"@ {
        Some(ValueType::Tupu)
    } else if name == "Hamna"@ {
        Some(ValueType::Hamna)
    } else if name == "NambaKuu"@ {
        Some(ValueType::NambaKuu)
    } else if name == "NambaSahihi"@ {
        Some(ValueType::NambaSahihi)
    } else if name == "Wakati"@ {
        Some(ValueType::Wakati)
    } else if name == "Anuani"@ {
        Some(ValueType::Anuani)
    } else if name.len() > 0 && name.last() == '?' {
        Some(ValueType::Chaguo(Box::new(ValueType::Unknown)))
    } else {
        None
    }
}

/// Whether `t` is the value type the written name stands for (any other name is a struct of
/// that name).
pub open spec fn is_type_named(name: Seq<char>, t: ValueType) -> bool {
    match builtin_type_named(name) {
        Some(b) => t == b,
        None => t matches ValueType::Struct(m) && m@ == name,
    }
}

/// The value type of a written type annotation.
pub fn type_expr_to_value_type(name: &str) -> (r: ValueType)
    ensures
        is_type_named(name@, r),
{
    if crate::text::str_is(name, "Nambari") || crate::text::str_is(name, "Namba") {
        ValueType::Namba
    } else if crate::text::str_is(name, "Neno") {
        ValueType::Neno
    } else if crate::text::str_is(name, "Ukweli") {
        ValueType::Ukweli
    } else if crate::text::str_is(name, "Herufi") {
        ValueType::Herufi
    } else if crate::text::str_is(name, "Tupu") {
        ValueType::Tupu
    } else if crate::text::str_is(name, "Hamna") {
        ValueType::Hamna
    } else if crate::text::str_is(name, "NambaKuu") {
        ValueType::NambaKuu
    } else if crate::text::str_is(name, "NambaSahihi") {
        ValueType::NambaSahihi
    } else if crate::text::str_is(name, "Wakati") {
        ValueType::Wakati
    } else if crate::text::str_is(name, "Anuani") {
        ValueType::Anuani
    } else {
        let v = chars_of(name);
        if v.len() > 0 && v[v.len() - 1] == '?' {
            ValueType::Chaguo(Box::new(ValueType::Unknown))
        } else {
            ValueType::Struct(name.to_string())
        }
    }
}

/// A symbol's type and the scope depth it was bound at.
#[derive(Debug)]
pub struct TypeInfo {
    pub value_type: ValueType,
    pub scope_depth: usize,
}

/// What hover shows of a symbol: name, kind, type (when known) and declaring line.
#[derive(Debug)]
pub struct SymbolInfo {
    pub name: String,
    pub kind: SymbolKind,
    pub type_info: Option<TypeInfo>,
    pub declaration_line: usize,
}

/// One scope level: its variable bindings, the function it sits in and its nesting depth
/// (0 module level, 1 inside a function, 2 and more nested blocks).
#[derive(Debug)]
pub struct ScopeContext {
    pub variables: Vec<(String, TypeInfo)>,
    pub parent_fn: Option<String>,
    pub depth: usize,
}

/// The binding of `name` among `vars` from index `i` on (the first entry with that name).
pub open spec fn binding_from(vars: Seq<(String, TypeInfo)>, name: Seq<char>, i: int) -> Option<
    TypeInfo,
>
    decreases vars.len() - i,
{
    if i < 0 || i >= vars.len() {
        None
    } else if vars[i].0@ == name {
        Some(vars[i].1)
    } else {
        binding_from(vars, name, i + 1)
    }
}

proof fn lemma_binding_from_set(
    vars: Seq<(String, TypeInfo)>,
    k: int,
    e: (String, TypeInfo),
    n: Seq<char>,
    i: int,
)
    requires
        0 <= k < vars.len(),
        0 <= i <= k,
        vars[k].0@ == e.0@,
        forall|j: int| i <= j < k ==> (#[trigger] vars[j]).0@ != e.0@,
    ensures
        binding_from(vars.update(k, e), n, i) == if n == e.0@ {
            Some(e.1)
        } else {
            binding_from(vars, n, i)
        },
    decreases k - i,
{
    let u = vars.update(k, e);
    assert(u[i] == if i == k { e } else { vars[i] });
    if i < k {
        lemma_binding_from_set(vars, k, e, n, i + 1);
    } else {
        lemma_binding_past_update(vars, k, e, n, k + 1);
    }
}

proof fn lemma_binding_past_update(vars: Seq<(String, TypeInfo)>, k: int, e: (String, TypeInfo), n: Seq<char>, i: int)
    requires
        0 <= k < i,
        k < vars.len(),
    ensures
        binding_from(vars.update(k, e), n, i) == binding_from(vars, n, i),
    decreases vars.len() - i,
{
    if i < vars.len() {
        assert(vars.update(k, e)[i] == vars[i]);
        lemma_binding_past_update(vars, k, e, n, i + 1);
    }
}

proof fn lemma_binding_from_push(vars: Seq<(String, TypeInfo)>, e: (String, TypeInfo), n: Seq<char>, i: int)
    requires
        0 <= i <= vars.len(),
        forall|j: int| i <= j < vars.len() ==> (#[trigger] vars[j]).0@ != e.0@,
    ensures
        binding_from(vars.push(e), n, i) == if n == e.0@ && binding_from(vars, n, i) is None {
            Some(e.1)
        } else {
            binding_from(vars, n, i)
        },
    decreases vars.len() - i,
{
    assert(vars.push(e)[i] == if i < vars.len() { vars[i] } else { e });
    if i < vars.len() {
        lemma_binding_from_push(vars, e, n, i + 1);
    }
}

impl ScopeContext {
    /// The binding of `name` in this scope.
    pub open spec fn binding(&self, name: Seq<char>) -> Option<TypeInfo> {
        binding_from(self.variables@, name, 0)
    }

    /// An empty scope at `depth` inside `parent_fn`.
    pub fn new(depth: usize, parent_fn: Option<String>) -> (r: ScopeContext)
        ensures
            r.variables@.len() == 0,
            r.parent_fn == parent_fn,
            r.depth == depth,
    {
        ScopeContext { variables: Vec::new(), parent_fn, depth }
    }

    /// Bind `name` to `value_type` at this scope's depth, replacing an earlier binding of it.
    pub fn bind(&mut self, name: String, value_type: ValueType)
        ensures
            final(self).depth == old(self).depth,
            final(self).parent_fn == old(self).parent_fn,
            final(self).binding(name@) == Some(
                TypeInfo { value_type, scope_depth: old(self).depth },
            ),
            forall|n: Seq<char>| n != name@ ==> #[trigger] final(self).binding(n) == old(self).binding(n),
    {
        let ghost vars = self.variables@;
        let key = chars_of(name.as_str());
        let mut i: usize = 0;
        while i < self.variables.len()
            invariant
                i <= self.variables.len(),
                *self == *old(self),
                self.variables@ == vars,
                key@ == name@,
                forall|j: int| 0 <= j < i ==> (#[trigger] vars[j]).0@ != name@,
            decreases self.variables.len() - i,
        {
            if chars_eq(chars_of(self.variables[i].0.as_str()).as_slice(), key.as_slice()) {
                let e = (name, TypeInfo { value_type, scope_depth: self.depth });
                let ghost ge = e;
                self.variables.set(i, e);
                proof {
                    assert forall|n: Seq<char>| #[trigger] binding_from(vars.update(i as int, ge), n, 0)
                        == if n == ge.0@ { Some(ge.1) } else { binding_from(vars, n, 0) } by {
                        lemma_binding_from_set(vars, i as int, ge, n, 0);
                    }
                }
                return;
            }
            i = i + 1;
        }
        let e = (name, TypeInfo { value_type, scope_depth: self.depth });
        let ghost ge = e;
        self.variables.push(e);
        proof {
            assert forall|n: Seq<char>| #[trigger] binding_from(vars.push(ge), n, 0) == if n == ge.0@
                && binding_from(vars, n, 0) is None {
                Some(ge.1)
            } else {
                binding_from(vars, n, 0)
            } by {
                lemma_binding_from_push(vars, ge, n, 0);
            }
            assert(binding_from(vars, name@, 0) is None) by {
                lemma_binding_absent(vars, name@, 0);
            }
        }
    }

    /// The binding of `name` in this scope only (enclosing scopes are not searched).
    pub fn get(&self, name: &str) -> (r: Option<&TypeInfo>)
        ensures
            match self.binding(name@) {
                Some(t) => r == Some(&t),
                None => r is None,
            },
    {
        let key = chars_of(name);
        let mut i: usize = 0;
        while i < self.variables.len()
            invariant
                i <= self.variables.len(),
                key@ == name@,
                binding_from(self.variables@, name@, 0) == binding_from(self.variables@, name@, i as int),
            decreases self.variables.len() - i,
        {
            if chars_eq(chars_of(self.variables[i].0.as_str()).as_slice(), key.as_slice()) {
                return Some(&self.variables[i].1);
            }
            i = i + 1;
        }
        None
    }
}

proof fn lemma_binding_absent(vars: Seq<(String, TypeInfo)>, n: Seq<char>, i: int)
    requires
        0 <= i <= vars.len(),
        forall|j: int| i <= j < vars.len() ==> (#[trigger] vars[j]).0@ != n,
    ensures
        binding_from(vars, n, i) is None,
    decreases vars.len() - i,
{
    if i < vars.len() {
        lemma_binding_absent(vars, n, i + 1);
    }
}

} // verus!
