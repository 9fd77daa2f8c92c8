//! Module resolution shared by the command line and the language server: the plain error
//! type, where a dependency's source comes from, and the dependency order of resolved modules.

use vstd::prelude::*;
use crate::text::{chars_of, push_all, string_of};

verus! {

/// A resolution or interface-loading failure: just a message (no process exit code).
#[derive(Debug, Clone)]
pub struct Error {
    pub message: String,
}

impl Error {
    pub fn new(message: String) -> (r: Error)
        ensures
            r.message@ == message@,
    {
        Error { message }
    }

    /// The message, as `Display` writes it.
    pub fn to_text(&self) -> (r: String)
        ensures
            r@ == self.message@,
    {
        self.message.clone()
    }
}

/// Where a dependency's source comes from: a registry version constraint, a local path, or a
/// git URL together with the constraint given when it was added.
#[derive(Clone, Debug)]
pub enum Dependency {
    Version(String),
    Path(String),
    Git { url: String, version: String },
}

/// The value written for a dependency in `pata.toml`.
pub open spec fn toml_value_spec(d: Dependency) -> Seq<char> {
    match d {
        Dependency::Version(v) => "\""@ + v@ + "\""@,
        Dependency::Path(p) => "{ path = \""@ + p@ + "\" }"@,
        Dependency::Git { url, version } => "{ git = \""@ + url@ + "\", version = \""@ + version@
            + "\" }"@,
    }
}

impl Dependency {
    /// A registry dependency on the version constraint `s`.
    pub fn from(s: &str) -> (r: Dependency)
        ensures
            r matches Dependency::Version(v) && v@ == s@,
    {
        Dependency::Version(s.to_string())
    }

    /// The dependency as a `pata.toml` value (what `Display` writes): a quoted version, or an
    /// inline table with `path`, or with `git` and `version`.
    pub fn to_toml_value(&self) -> (r: String)
        ensures
            r@ == toml_value_spec(*self),
    {
        let mut out: Vec<char> = Vec::new();
        match self {
            Dependency::Version(v) => {
                push_all(&mut out, chars_of("\"").as_slice());
                push_all(&mut out, chars_of(v.as_str()).as_slice());
                push_all(&mut out, chars_of("\"").as_slice());
            },
            Dependency::Path(p) => {
                push_all(&mut out, chars_of("{ path = \"").as_slice());
                push_all(&mut out, chars_of(p.as_str()).as_slice());
                push_all(&mut out, chars_of("\" }").as_slice());
            },
            Dependency::Git { url, version } => {
                push_all(&mut out, chars_of("{ git = \"").as_slice());
                push_all(&mut out, chars_of(url.as_str()).as_slice());
                push_all(&mut out, chars_of("\", version = \"").as_slice());
                push_all(&mut out, chars_of(version.as_str()).as_slice());
                push_all(&mut out, chars_of("\" }").as_slice());
            },
        }
        string_of(out.as_slice())
    }
}

/// A resolved module's name and the names it imports.
#[derive(Clone, Debug)]
pub struct ModuleImports {
    pub name: String,
    pub imports: Vec<String>,
}

/// A module as plain values: name and imported names.
pub type ModuleView = (Seq<char>, Seq<Seq<char>>);

pub open spec fn modules_view(g: Seq<ModuleImports>) -> Seq<ModuleView> {
    g.map_values(|m: ModuleImports| (m.name@, crate::text::views(m.imports@)))
}

/// The set of module names.
pub open spec fn module_names(g: Seq<ModuleView>) -> Set<Seq<char>> {
    Set::new(|n: Seq<char>| exists|k: int| 0 <= k < g.len() && #[trigger] g[k].0 == n)
}

/// Each module name occurs once.
pub open spec fn names_unique(g: Seq<ModuleView>) -> bool {
    forall|a: int, b: int| 0 <= a < b < g.len() ==> #[trigger] g[a].0 != #[trigger] g[b].0
}

/// Module `k` imports nothing in the name set `s`.
pub open spec fn ready_in(g: Seq<ModuleView>, k: int, s: Set<Seq<char>>) -> bool {
    forall|i: int| 0 <= i < g[k].1.len() ==> !s.contains(#[trigger] g[k].1[i])
}

/// No import cycle: every non-empty set of modules has a member importing none of the others.
pub open spec fn acyclic(g: Seq<ModuleView>) -> bool {
    forall|s: Set<Seq<char>>|
        #![trigger s.subset_of(module_names(g))]
        s.subset_of(module_names(g)) && s.finite() && s.len() > 0 ==> exists|k: int|
            0 <= k < g.len() && s.contains(g[k].0) && #[trigger] ready_in(g, k, s)
}

/// `order` lists every module exactly once, each after every module it imports.
pub open spec fn dependencies_first(g: Seq<ModuleView>, order: Seq<Seq<char>>) -> bool {
    &&& order.len() == g.len()
    &&& forall|i: int| 0 <= i < order.len() ==> module_names(g).contains(#[trigger] order[i])
    &&& forall|i: int, j: int| 0 <= i < j < order.len() ==> #[trigger] order[i] != #[trigger] order[j]
    &&& forall|i: int, k: int, d: int|
        0 <= i < order.len() && 0 <= k < g.len() && g[k].0 == order[i] && 0 <= d < g[k].1.len()
            && module_names(g).contains(#[trigger] g[k].1[d]) && #[trigger] order[i] == g[k].0
            ==> exists|j: int| 0 <= j < i && order[j] == g[k].1[d]
}

/// The names of the modules not yet placed.
pub open spec fn remaining_names(g: Seq<ModuleView>, placed: Seq<bool>) -> Set<Seq<char>> {
    Set::new(|n: Seq<char>| exists|k: int| 0 <= k < g.len() && !placed[k] && #[trigger] g[k].0 == n)
}

/// How many flags are set.
pub open spec fn count_true(p: Seq<bool>) -> nat
    decreases p.len(),
{
    if p.len() == 0 {
        0
    } else {
        count_true(p.drop_last()) + if p.last() {
            1nat
        } else {
            0nat
        }
    }
}

proof fn lemma_count_true(p: Seq<bool>, k: int)
    requires
        0 <= k < p.len(),
        !p[k],
    ensures
        count_true(p.update(k, true)) == count_true(p) + 1,
        count_true(p) < p.len(),
    decreases p.len(),
{
    let q = p.update(k, true);
    if k == p.len() - 1 {
        assert(q.drop_last() =~= p.drop_last());
        lemma_count_true_le(p.drop_last());
    } else {
        assert(q.drop_last() =~= p.drop_last().update(k, true));
        lemma_count_true(p.drop_last(), k);
    }
}

proof fn lemma_count_true_le(p: Seq<bool>)
    ensures
        count_true(p) <= p.len(),
    decreases p.len(),
{
    if p.len() > 0 {
        lemma_count_true_le(p.drop_last());
    }
}

proof fn lemma_count_true_full(p: Seq<bool>)
    requires
        forall|k: int| 0 <= k < p.len() ==> p[k],
    ensures
        count_true(p) == p.len(),
    decreases p.len(),
{
    if p.len() > 0 {
        lemma_count_true_full(p.drop_last());
    }
}

proof fn lemma_remaining_finite(g: Seq<ModuleView>, placed: Seq<bool>)
    ensures
        remaining_names(g, placed).finite(),
        remaining_names(g, placed).subset_of(module_names(g)),
{
    let r = remaining_names(g, placed);
    let all = Seq::new(g.len(), |k: int| g[k].0).to_set();
    assert(r.subset_of(all)) by {
        assert forall|n: Seq<char>| r.contains(n) implies all.contains(n) by {
            let k = choose|k: int| 0 <= k < g.len() && !placed[k] && #[trigger] g[k].0 == n;
            assert(Seq::new(g.len(), |k: int| g[k].0)[k] == n);
        }
    }
    vstd::seq_lib::seq_to_set_is_finite(Seq::new(g.len(), |k: int| g[k].0));
    vstd::set_lib::lemma_len_subset(r, all);
}

/// Whether some unplaced module is named `d`.
fn unplaced_named(modules: &Vec<ModuleImports>, placed: &Vec<bool>, d: &String) -> (r: bool)
    requires
        placed.len() == modules.len(),
    ensures
        r == remaining_names(modules_view(modules@), placed@).contains(d@),
{
    let ghost g = modules_view(modules@);
    let dv = crate::text::chars_of(d.as_str());
    let mut m: usize = 0;
    while m < modules.len()
        invariant
            m <= modules.len(),
            placed.len() == modules.len(),
            g == modules_view(modules@),
            dv@ == d@,
            forall|k: int| 0 <= k < m ==> !(!placed@[k] && #[trigger] g[k].0 == d@),
        decreases modules.len() - m,
    {
        assert(g[m as int].0 == modules@[m as int].name@);
        if !placed[m] && crate::text::chars_eq(
            crate::text::chars_of(modules[m].name.as_str()).as_slice(),
            dv.as_slice(),
        ) {
            assert(!placed@[m as int] && g[m as int].0 == d@);
            return true;
        }
        m = m + 1;
    }
    false
}

/// Whether module `k` imports no unplaced module.
fn is_ready(modules: &Vec<ModuleImports>, placed: &Vec<bool>, k: usize) -> (r: bool)
    requires
        placed.len() == modules.len(),
        k < modules.len(),
    ensures
        r == ready_in(modules_view(modules@), k as int, remaining_names(modules_view(modules@), placed@)),
{
    let ghost g = modules_view(modules@);
    let ghost s = remaining_names(g, placed@);
    let imports = &modules[k].imports;
    assert(g[k as int].1 == crate::text::views(imports@));
    let mut i: usize = 0;
    while i < imports.len()
        invariant
            i <= imports.len(),
            placed.len() == modules.len(),
            k < modules.len(),
            g == modules_view(modules@),
            s == remaining_names(g, placed@),
            *imports == modules@[k as int].imports,
            g[k as int].1 == crate::text::views(imports@),
            forall|j: int| 0 <= j < i ==> !s.contains(#[trigger] g[k as int].1[j]),
        decreases imports.len() - i,
    {
        if unplaced_named(modules, placed, &imports[i]) {
            assert(s.contains(g[k as int].1[i as int]));
            return false;
        }
        i = i + 1;
    }
    true
}

/// An unplaced module that imports no unplaced module; one exists while some module is
/// unplaced, because the imports have no cycle.
fn find_ready(modules: &Vec<ModuleImports>, placed: &Vec<bool>) -> (k: usize)
    requires
        placed.len() == modules.len(),
        names_unique(modules_view(modules@)),
        acyclic(modules_view(modules@)),
        exists|j: int| 0 <= j < placed.len() && !placed@[j],
    ensures
        k < modules.len(),
        !placed@[k as int],
        ready_in(modules_view(modules@), k as int, remaining_names(modules_view(modules@), placed@)),
{
    let ghost g = modules_view(modules@);
    let ghost s = remaining_names(g, placed@);
    let mut k: usize = 0;
    while k < modules.len()
        invariant
            k <= modules.len(),
            placed.len() == modules.len(),
            g == modules_view(modules@),
            s == remaining_names(g, placed@),
            forall|j: int| 0 <= j < k && !placed@[j] ==> !#[trigger] ready_in(g, j, s),
        decreases modules.len() - k,
    {
        if !placed[k] && is_ready(modules, placed, k) {
            return k;
        }
        k = k + 1;
    }
    proof {
        lemma_remaining_finite(g, placed@);
        let j0 = choose|j: int| 0 <= j < placed.len() && !placed@[j];
        assert(s.contains(g[j0].0));
        assert(s.len() > 0) by {
            vstd::set_lib::lemma_set_empty_equivalency_len(s);
        }
        assert(s.subset_of(module_names(g)));
        let m = choose|m: int| 0 <= m < g.len() && s.contains(g[m].0) && #[trigger] ready_in(g, m, s);
        let m2 = choose|m2: int| 0 <= m2 < g.len() && !placed@[m2] && #[trigger] g[m2].0 == g[m].0;
        if m2 != m {
            if m2 < m {
                assert(g[m2].0 != g[m].0);
            } else {
                assert(g[m].0 != g[m2].0);
            }
        }
        assert(!ready_in(g, m, s));
    }
    0
}

/// Whether no two modules share a name.
fn names_distinct(modules: &Vec<ModuleImports>) -> (r: bool)
    ensures
        r == names_unique(modules_view(modules@)),
{
    let ghost g = modules_view(modules@);
    let mut a: usize = 0;
    while a < modules.len()
        invariant
            a <= modules.len(),
            g == modules_view(modules@),
            forall|x: int, y: int| 0 <= x < a && x < y < g.len() ==> #[trigger] g[x].0 != #[trigger] g[y].0,
        decreases modules.len() - a,
    {
        let na = chars_of(modules[a].name.as_str());
        let mut b: usize = a + 1;
        while b < modules.len()
            invariant
                a < b <= modules.len(),
                g == modules_view(modules@),
                na@ == g[a as int].0,
                forall|x: int, y: int| 0 <= x < a && x < y < g.len() ==> #[trigger] g[x].0 != #[trigger] g[y].0,
                forall|y: int| a < y < b ==> g[a as int].0 != #[trigger] g[y].0,
            decreases modules.len() - b,
        {
            assert(g[b as int].0 == modules@[b as int].name@);
            if crate::text::chars_eq(na.as_slice(), chars_of(modules[b].name.as_str()).as_slice()) {
                return false;
            }
            b = b + 1;
        }
        a = a + 1;
    }
    true
}

/// Some unplaced module importing no unplaced module, if there is one.
fn find_ready_opt(modules: &Vec<ModuleImports>, placed: &Vec<bool>) -> (r: Option<usize>)
    requires
        placed.len() == modules.len(),
    ensures
        match r {
            Some(k) => k < modules.len() && !placed@[k as int] && ready_in(
                modules_view(modules@),
                k as int,
                remaining_names(modules_view(modules@), placed@),
            ),
            None => forall|j: int| 0 <= j < modules.len() && !placed@[j] ==> !#[trigger] ready_in(
                modules_view(modules@),
                j,
                remaining_names(modules_view(modules@), placed@),
            ),
        },
{
    let ghost g = modules_view(modules@);
    let ghost s = remaining_names(g, placed@);
    let mut k: usize = 0;
    while k < modules.len()
        invariant
            k <= modules.len(),
            placed.len() == modules.len(),
            g == modules_view(modules@),
            s == remaining_names(g, placed@),
            forall|j: int| 0 <= j < k && !placed@[j] ==> !#[trigger] ready_in(g, j, s),
        decreases modules.len() - k,
    {
        if !placed[k] && is_ready(modules, placed, k) {
            return Some(k);
        }
        k = k + 1;
    }
    None
}

/// Every set of module names holding a placed module's name has a member importing none of
/// the set: what placing modules one at a time, each importing no unplaced module, shows.
pub open spec fn peel_ok(g: Seq<ModuleView>, placed: Seq<bool>) -> bool {
    forall|s: Set<Seq<char>>|
        #![trigger s.subset_of(module_names(g))]
        s.subset_of(module_names(g)) && (exists|k: int| 0 <= k < g.len() && placed[k] && s.contains(#[trigger] g[k].0))
            ==> exists|k: int| 0 <= k < g.len() && s.contains(g[k].0) && #[trigger] ready_in(g, k, s)
}

/// Whether the modules can be put in dependency order: no two share a name and their imports
/// have no cycle (what `dependency_order` asks of its input).
pub fn orderable(modules: &Vec<ModuleImports>) -> (r: bool)
    ensures
        r == (names_unique(modules_view(modules@)) && acyclic(modules_view(modules@))),
{
    if !names_distinct(modules) {
        return false;
    }
    let ghost g = modules_view(modules@);
    let n = modules.len();
    let mut placed: Vec<bool> = Vec::new();
    let mut i: usize = 0;
    while i < n
        invariant
            i <= n,
            n == modules.len(),
            placed.len() == i,
            forall|k: int| 0 <= k < i ==> !placed@[k],
        decreases n - i,
    {
        placed.push(false);
        i = i + 1;
    }
    proof {
        lemma_count_true_le(placed@);
    }
    loop
        invariant
            n == modules.len(),
            g == modules_view(modules@),
            names_unique(g),
            placed.len() == n,
            peel_ok(g, placed@),
            count_true(placed@) <= n,
        decreases n - count_true(placed@),
    {
        match find_ready_opt(modules, &placed) {
            Some(k) => {
                let ghost old_placed = placed@;
                let ghost rem = remaining_names(g, old_placed);
                proof {
                    lemma_count_true(placed@, k as int);
                }
                placed.set(k, true);
                proof {
                    lemma_count_true_le(placed@);
                    assert forall|s: Set<Seq<char>>|
                        #![trigger s.subset_of(module_names(g))]
                        s.subset_of(module_names(g)) && (exists|k2: int| 0 <= k2 < g.len() && placed@[k2] && s.contains(#[trigger] g[k2].0))
                            implies exists|k3: int| 0 <= k3 < g.len() && s.contains(g[k3].0) && #[trigger] ready_in(g, k3, s) by {
                        if exists|k2: int| 0 <= k2 < g.len() && old_placed[k2] && s.contains(#[trigger] g[k2].0) {
                        } else {
                            let k2 = choose|k2: int| 0 <= k2 < g.len() && placed@[k2] && s.contains(#[trigger] g[k2].0);
                            assert(k2 == k);
                            assert forall|nm: Seq<char>| s.contains(nm) implies rem.contains(nm) by {
                                assert(module_names(g).contains(nm));
                                let m = choose|m: int| 0 <= m < g.len() && #[trigger] g[m].0 == nm;
                                if old_placed[m] {
                                    assert(s.contains(g[m].0));
                                }
                            }
                            assert forall|ii: int| 0 <= ii < g[k as int].1.len() implies !s.contains(#[trigger] g[k as int].1[ii]) by {
                                assert(!rem.contains(g[k as int].1[ii]));
                            }
                            assert(ready_in(g, k as int, s));
                        }
                    }
                }
            },
            None => {
                let mut j: usize = 0;
                while j < n
                    invariant
                        j <= n,
                        n == modules.len(),
                        placed.len() == n,
                        g == modules_view(modules@),
                        names_unique(g),
                        peel_ok(g, placed@),
                        forall|m: int| 0 <= m < n && !placed@[m] ==> !#[trigger] ready_in(
                            g,
                            m,
                            remaining_names(g, placed@),
                        ),
                        forall|m: int| 0 <= m < j ==> placed@[m],
                    decreases n - j,
                {
                    if !placed[j] {
                        proof {
                            let s = remaining_names(g, placed@);
                            lemma_remaining_finite(g, placed@);
                            assert(s.contains(g[j as int].0));
                            assert(s.len() > 0) by {
                                vstd::set_lib::lemma_set_empty_equivalency_len(s);
                            }
                            if acyclic(g) {
                                assert(s.subset_of(module_names(g)));
                                let m = choose|m: int| 0 <= m < g.len() && s.contains(g[m].0) && #[trigger] ready_in(g, m, s);
                                let m2 = choose|m2: int| 0 <= m2 < g.len() && !placed@[m2] && #[trigger] g[m2].0 == g[m].0;
                                if m2 != m {
                                    if m2 < m {
                                        assert(g[m2].0 != g[m].0);
                                    } else {
                                        assert(g[m].0 != g[m2].0);
                                    }
                                }
                                assert(!ready_in(g, m, s));
                            }
                        }
                        return false;
                    }
                    j = j + 1;
                }
                proof {
                    assert forall|s: Set<Seq<char>>|
                        #![trigger s.subset_of(module_names(g))]
                        s.subset_of(module_names(g)) && s.finite() && s.len() > 0 implies exists|k: int|
                            0 <= k < g.len() && s.contains(g[k].0) && #[trigger] ready_in(g, k, s) by {
                        vstd::set_lib::lemma_set_empty_equivalency_len(s);
                        let nm = s.choose();
                        assert(s.contains(nm));
                        assert(module_names(g).contains(nm));
                        let m = choose|m: int| 0 <= m < g.len() && #[trigger] g[m].0 == nm;
                        assert(placed@[m] && s.contains(g[m].0));
                    }
                }
                return true;
            },
        }
    }
}

/// The modules in dependency order: each after every module it imports (imports of names
/// outside the list are ignored). The list must have unique names and no import cycle.
pub fn dependency_order(modules: &Vec<ModuleImports>) -> (r: Vec<String>)
    requires
        names_unique(modules_view(modules@)),
        acyclic(modules_view(modules@)),
    ensures
        dependencies_first(modules_view(modules@), crate::text::views(r@)),
{
    let ghost g = modules_view(modules@);
    let n = modules.len();
    let mut placed: Vec<bool> = Vec::new();
    let mut i: usize = 0;
    while i < n
        invariant
            i <= n,
            n == modules.len(),
            placed.len() == i,
            forall|k: int| 0 <= k < i ==> !placed@[k],
        decreases n - i,
    {
        placed.push(false);
        i = i + 1;
    }
    proof {
        assert(count_true(placed@) == 0) by {
            lemma_count_zero(placed@);
        }
    }
    let mut order: Vec<String> = Vec::new();
    while order.len() < n
        invariant
            n == modules.len(),
            g == modules_view(modules@),
            names_unique(g),
            acyclic(g),
            placed.len() == n,
            order.len() <= n,
            count_true(placed@) == order.len(),
            forall|j: int| 0 <= j < order.len() ==> placed_named(g, placed@, #[trigger] order@[j]@),
            forall|k: int| 0 <= k < n && #[trigger] placed@[k] ==> listed_before(order@, order.len() as int, g[k].0),
            forall|a: int, b: int| 0 <= a < b < order.len() ==> #[trigger] order@[a]@ != #[trigger] order@[b]@,
            forall|j: int, k: int, d: int|
                0 <= j < order.len() && 0 <= k < n && #[trigger] order@[j]@ == g[k].0 && 0 <= d
                    < g[k].1.len() && module_names(g).contains(#[trigger] g[k].1[d]) ==> listed_before(order@, j, g[k].1[d]),
        decreases n - order.len(),
    {
        proof {
            if forall|k: int| 0 <= k < placed.len() ==> placed@[k] {
                lemma_count_true_full(placed@);
            }
        }
        let k = find_ready(modules, &placed);
        let ghost old_placed = placed@;
        let ghost old_order_strings = order;
        let ghost j_new = order.len() as int;
        proof {
            lemma_count_true(placed@, k as int);
        }
        // The chosen module is not listed yet.
        assert forall|j: int| 0 <= j < order.len() implies #[trigger] order@[j]@ != g[k as int].0 by {
            assert(placed_named(g, placed@, order@[j]@));
            let k2 = choose|k2: int| 0 <= k2 < g.len() && placed@[k2] && #[trigger] g[k2].0 == order@[j]@;
            if k2 != k {
                if k2 < k {
                    assert(g[k2].0 != g[k as int].0);
                } else {
                    assert(g[k as int].0 != g[k2].0);
                }
            }
        }
        // Its imports among the modules are all placed, hence listed.
        assert forall|d: int|
            0 <= d < g[k as int].1.len() && module_names(g).contains(#[trigger] g[k as int].1[d]) implies listed_before(
                order@,
                order.len() as int,
                g[k as int].1[d],
            ) by {
            let name = g[k as int].1[d];
            assert(!remaining_names(g, placed@).contains(name));
            let k3 = choose|k3: int| 0 <= k3 < g.len() && #[trigger] g[k3].0 == name;
            assert(placed@[k3]);
        }
        placed.set(k, true);
        order.push(modules[k].name.clone());
        assert(order@[j_new]@ == g[k as int].0);
        proof {
            assert forall|upto: int, name: Seq<char>|
                0 <= upto <= j_new && #[trigger] listed_before(old_order_strings@, upto, name) implies listed_before(order@, upto, name) by {
                let w = choose|w: int| 0 <= w < upto && #[trigger] old_order_strings@[w]@ == name;
                assert(order@[w] == old_order_strings@[w]);
            }
            assert forall|j: int, k2: int, d: int|
                0 <= j < order.len() && 0 <= k2 < n && #[trigger] order@[j]@ == g[k2].0 && 0 <= d
                    < g[k2].1.len() && module_names(g).contains(#[trigger] g[k2].1[d]) implies listed_before(order@, j, g[k2].1[d]) by {
                if j == j_new {
                    if k2 != k {
                        if k2 < k {
                            assert(g[k2].0 != g[k as int].0);
                        } else {
                            assert(g[k as int].0 != g[k2].0);
                        }
                    }
                    assert(listed_before(old_order_strings@, j_new, g[k as int].1[d]));
                } else {
                    assert(old_order_strings@[j] == order@[j]);
                    assert(listed_before(old_order_strings@, j, g[k2].1[d]));
                }
            }
            assert forall|k2: int| 0 <= k2 < n && #[trigger] placed@[k2] implies listed_before(
                order@,
                order.len() as int,
                g[k2].0,
            ) by {
                if k2 == k {
                    assert(order@[j_new]@ == g[k2].0);
                } else {
                    assert(old_placed[k2]);
                    assert(listed_before(old_order_strings@, j_new, g[k2].0));
                }
            }
            assert forall|j: int| 0 <= j < order.len() implies placed_named(g, placed@, #[trigger] order@[j]@) by {
                if j == j_new {
                    assert(placed@[k as int]);
                } else {
                    assert(old_order_strings@[j] == order@[j]);
                    assert(placed_named(g, old_placed, order@[j]@));
                    let k2 = choose|k2: int| 0 <= k2 < g.len() && old_placed[k2] && #[trigger] g[k2].0 == order@[j]@;
                    assert(placed@[k2]);
                }
            }
            assert forall|a: int, b: int| 0 <= a < b < order.len() implies #[trigger] order@[a]@ != #[trigger] order@[b]@ by {
                if b == j_new {
                    assert(old_order_strings@[a] == order@[a]);
                } else {
                    assert(old_order_strings@[a] == order@[a]);
                    assert(old_order_strings@[b] == order@[b]);
                }
            }
        }
    }
    proof {
        let o = crate::text::views(order@);
        assert forall|i: int| 0 <= i < o.len() implies module_names(g).contains(#[trigger] o[i]) by {
            assert(placed_named(g, placed@, order@[i]@));
            let k2 = choose|k2: int| 0 <= k2 < g.len() && placed@[k2] && #[trigger] g[k2].0 == order@[i]@;
        }
        assert forall|i: int, j: int| 0 <= i < j < o.len() implies #[trigger] o[i] != #[trigger] o[j] by {
            assert(order@[i]@ != order@[j]@);
        }
        assert forall|i: int, k: int, d: int|
            0 <= i < o.len() && 0 <= k < g.len() && g[k].0 == o[i] && 0 <= d < g[k].1.len()
                && module_names(g).contains(#[trigger] g[k].1[d]) && #[trigger] o[i] == g[k].0
                implies exists|j: int| 0 <= j < i && o[j] == g[k].1[d] by {
            assert(listed_before(order@, i, g[k].1[d]));
            let e = choose|e: int| 0 <= e < i && #[trigger] order@[e]@ == g[k].1[d];
            assert(o[e] == g[k].1[d]);
        }
    }
    order
}

/// Some placed module is named `name`.
pub open spec fn placed_named(g: Seq<ModuleView>, placed: Seq<bool>, name: Seq<char>) -> bool {
    exists|k: int| 0 <= k < g.len() && placed[k] && #[trigger] g[k].0 == name
}

/// `name` is among the first `upto` entries of `order`.
pub open spec fn listed_before(order: Seq<String>, upto: int, name: Seq<char>) -> bool {
    exists|e: int| 0 <= e < upto && #[trigger] order[e]@ == name
}

proof fn lemma_count_zero(p: Seq<bool>)
    requires
        forall|k: int| 0 <= k < p.len() ==> !p[k],
    ensures
        count_true(p) == 0,
    decreases p.len(),
{
    if p.len() > 0 {
        lemma_count_zero(p.drop_last());
    }
}

} // verus!
