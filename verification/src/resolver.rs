//! The import walk that resolves a program's modules, as a state machine: it asks for one
//! module at a time (the caller looks it up — interface registry, module file search, reading
//! and parsing — and reports what it found) and decides everything else: which imports still
//! need a lookup, when a module is finished, and which imports form a cycle.

use vstd::prelude::*;
use crate::text::{chars_eq, chars_of, concat3};

verus! {

/// A resolution error: its code (`RES001` cycle, `RES002` not found, `RES003` load failure, or
/// a lexer/parser code) and message.
#[derive(Clone, Debug)]
pub struct ResolveError {
    pub code: String,
    pub message: String,
}

/// What looking up a module found.
#[derive(Clone, Debug)]
pub enum ModuleLookup {
    /// A built-in or `.asi` interface: resolved, with no imports of its own.
    Interface,
    /// No file: the searched places, joined for the message.
    NotFound { searched: String },
    /// The module could not be loaded (an interface that failed, an unreadable file).
    Failed { message: String },
    /// The source did not lex or parse: its errors, reported as they are.
    Diagnostics { errors: Vec<ResolveError> },
    /// The source parsed; these are the modules it imports, in order.
    Parsed { imports: Vec<String> },
}

/// What the resolver needs next.
#[derive(Clone, Debug)]
pub enum ResolveAction {
    /// Look up this module and `supply` what was found.
    Lookup(String),
    /// Every import has been walked.
    Done,
}

/// One module whose imports are being walked: the module (`None` for the entrypoint), its
/// imports, and how many of them have been taken.
#[derive(Clone, Debug)]
pub struct Frame {
    pub module: Option<String>,
    pub imports: Vec<String>,
    pub next: usize,
}

pub type FrameView = (Option<Seq<char>>, Seq<Seq<char>>, int);

pub type ErrorView = (Seq<char>, Seq<char>);

pub open spec fn frame_view(f: Frame) -> FrameView {
    (crate::commands::opt_view(f.module), crate::text::views(f.imports@), f.next as int)
}

pub open spec fn frames_view(fr: Seq<Frame>) -> Seq<FrameView> {
    fr.map_values(|f: Frame| frame_view(f))
}

pub open spec fn errors_view(e: Seq<ResolveError>) -> Seq<ErrorView> {
    e.map_values(|x: ResolveError| (x.code@, x.message@))
}

pub open spec fn resolved_view(r: Seq<(String, bool)>) -> Seq<(Seq<char>, bool)> {
    r.map_values(|x: (String, bool)| (x.0@, x.1))
}

/// Whether `name` is resolved.
pub open spec fn is_resolved(res: Seq<(Seq<char>, bool)>, name: Seq<char>) -> bool {
    exists|i: int| 0 <= i < res.len() && #[trigger] res[i].0 == name
}

/// Whether `name` is being loaded: some frame walks its imports.
pub open spec fn is_loading(fr: Seq<FrameView>, name: Seq<char>) -> bool {
    exists|i: int| 0 <= i < fr.len() && #[trigger] fr[i].0 == Some(name)
}

/// Imports not yet taken, plus one per frame.
pub open spec fn work_left(fr: Seq<FrameView>) -> int
    decreases fr.len(),
{
    if fr.len() == 0 {
        0
    } else {
        work_left(fr.drop_last()) + (fr.last().1.len() - fr.last().2) + 1
    }
}

/// The cycle error.
pub open spec fn cycle_error() -> ErrorView {
    ("RES001"@, "mzunguko wa moduli: moduli imejirejea"@)
}

/// Frames are well formed: each has taken at most all of its imports.
pub open spec fn frames_ok(fr: Seq<FrameView>) -> bool {
    forall|i: int| 0 <= i < fr.len() ==> 0 <= #[trigger] fr[i].2 <= fr[i].1.len()
}

pub proof fn lemma_work_left_nonneg(fr: Seq<FrameView>)
    requires
        frames_ok(fr),
    ensures
        work_left(fr) >= fr.len(),
    decreases fr.len(),
{
    if fr.len() > 0 {
        assert(frames_ok(fr.drop_last())) by {
            assert forall|i: int| 0 <= i < fr.drop_last().len() implies 0 <= #[trigger] fr.drop_last()[i].2 <= fr.drop_last()[i].1.len() by {
                assert(fr.drop_last()[i] == fr[i]);
            }
        }
        lemma_work_left_nonneg(fr.drop_last());
        assert(0 <= fr[fr.len() - 1].2 <= fr[fr.len() - 1].1.len());
    }
}

pub proof fn lemma_take_import(fr: Seq<FrameView>)
    requires
        frames_ok(fr),
        fr.len() > 0,
        fr.last().2 < fr.last().1.len(),
    ensures
        frames_ok(fr.update(fr.len() - 1, (fr.last().0, fr.last().1, fr.last().2 + 1))),
        work_left(fr.update(fr.len() - 1, (fr.last().0, fr.last().1, fr.last().2 + 1))) == work_left(fr) - 1,
{
    let t = fr.last();
    let fr1 = fr.update(fr.len() - 1, (t.0, t.1, t.2 + 1));
    assert(fr1.drop_last() =~= fr.drop_last());
    assert forall|i: int| 0 <= i < fr1.len() implies 0 <= #[trigger] fr1[i].2 <= fr1[i].1.len() by {
        if i < fr.len() - 1 {
            assert(fr1[i] == fr[i]);
        }
    }
}

pub proof fn lemma_pop_frame(fr: Seq<FrameView>)
    requires
        frames_ok(fr),
        fr.len() > 0,
    ensures
        frames_ok(fr.drop_last()),
        work_left(fr.drop_last()) < work_left(fr),
{
    assert forall|i: int| 0 <= i < fr.drop_last().len() implies 0 <= #[trigger] fr.drop_last()[i].2 <= fr.drop_last()[i].1.len() by {
        assert(fr.drop_last()[i] == fr[i]);
    }
    assert(0 <= fr[fr.len() - 1].2 <= fr[fr.len() - 1].1.len());
}

/// The walk from a state until it needs a lookup or is done: the next untaken import of the
/// innermost frame is skipped when resolved, reported as a cycle when being loaded, and
/// otherwise asked for; a frame with no imports left is finished (its module becomes resolved;
/// finishing the entrypoint ends the walk).
pub open spec fn advance(
    fr: Seq<FrameView>,
    res: Seq<(Seq<char>, bool)>,
    errs: Seq<ErrorView>,
) -> (Seq<FrameView>, Seq<(Seq<char>, bool)>, Seq<ErrorView>, Option<Seq<char>>)
    decreases work_left(fr),
    when frames_ok(fr)
{
    if fr.len() == 0 {
        (fr, res, errs, None)
    } else {
        let top = fr.last();
        if top.2 < top.1.len() {
            let name = top.1[top.2];
            let fr1 = fr.update(fr.len() - 1, (top.0, top.1, top.2 + 1));
            proof {
                lemma_take_import(fr);
                lemma_work_left_nonneg(fr1);
            }
            if is_resolved(res, name) {
                advance(fr1, res, errs)
            } else if is_loading(fr1, name) {
                advance(fr1, res, errs.push(cycle_error()))
            } else {
                (fr1, res, errs, Some(name))
            }
        } else {
            let fr1 = fr.drop_last();
            proof {
                lemma_pop_frame(fr);
                lemma_work_left_nonneg(fr1);
            }
            match top.0 {
                Some(m) => advance(fr1, res.push((m, false)), errs),
                None => (fr1, res, errs, None),
            }
        }
    }
}

/// Walking on only adds: the resolved modules and the errors before a step are kept, in order,
/// at the front of those after it (a lookup's answer, `supply`, likewise only appends).
pub proof fn law_advance_only_grows(fr: Seq<FrameView>, res: Seq<(Seq<char>, bool)>, errs: Seq<ErrorView>)
    requires
        frames_ok(fr),
    ensures
        ({
            let (_, res2, errs2, _) = advance(fr, res, errs);
            &&& res.len() <= res2.len()
            &&& res2.subrange(0, res.len() as int) == res
            &&& errs.len() <= errs2.len()
            &&& errs2.subrange(0, errs.len() as int) == errs
        }),
    decreases work_left(fr),
{
    if fr.len() == 0 {
        assert(res.subrange(0, res.len() as int) =~= res);
        assert(errs.subrange(0, errs.len() as int) =~= errs);
    } else {
        let top = fr.last();
        if top.2 < top.1.len() {
            let name = top.1[top.2];
            let fr1 = fr.update(fr.len() - 1, (top.0, top.1, top.2 + 1));
            lemma_take_import(fr);
            lemma_work_left_nonneg(fr1);
            if is_resolved(res, name) {
                law_advance_only_grows(fr1, res, errs);
            } else if is_loading(fr1, name) {
                law_advance_only_grows(fr1, res, errs.push(cycle_error()));
                let errs2 = advance(fr1, res, errs.push(cycle_error())).2;
                assert(errs2.subrange(0, errs.len() as int) =~= errs2.subrange(0, (errs.len() + 1) as int).subrange(
                    0,
                    errs.len() as int,
                ));
                assert(errs.push(cycle_error()).subrange(0, errs.len() as int) =~= errs);
            } else {
                assert(res.subrange(0, res.len() as int) =~= res);
                assert(errs.subrange(0, errs.len() as int) =~= errs);
            }
        } else {
            let fr1 = fr.drop_last();
            lemma_pop_frame(fr);
            lemma_work_left_nonneg(fr1);
            match top.0 {
                Some(m) => {
                    law_advance_only_grows(fr1, res.push((m, false)), errs);
                    let res2 = advance(fr1, res.push((m, false)), errs).1;
                    assert(res2.subrange(0, res.len() as int) =~= res2.subrange(0, (res.len() + 1) as int).subrange(
                        0,
                        res.len() as int,
                    ));
                    assert(res.push((m, false)).subrange(0, res.len() as int) =~= res);
                },
                None => {
                    assert(res.subrange(0, res.len() as int) =~= res);
                    assert(errs.subrange(0, errs.len() as int) =~= errs);
                },
            }
        }
    }
}

/// A module is looked up at most once: the walk asks for a module only when it is neither
/// resolved nor being loaded; an import of a module being loaded is reported as a cycle
/// instead, and one of a resolved module is passed over.
pub proof fn law_lookup_is_new(fr: Seq<FrameView>, res: Seq<(Seq<char>, bool)>, errs: Seq<ErrorView>)
    requires
        frames_ok(fr),
    ensures
        ({
            let (fr2, res2, _, next) = advance(fr, res, errs);
            next matches Some(n) ==> !is_resolved(res2, n) && !is_loading(fr2, n)
        }),
    decreases work_left(fr),
{
    if fr.len() > 0 {
        let top = fr.last();
        if top.2 < top.1.len() {
            let name = top.1[top.2];
            let fr1 = fr.update(fr.len() - 1, (top.0, top.1, top.2 + 1));
            lemma_take_import(fr);
            lemma_work_left_nonneg(fr1);
            if is_resolved(res, name) {
                law_lookup_is_new(fr1, res, errs);
            } else if is_loading(fr1, name) {
                law_lookup_is_new(fr1, res, errs.push(cycle_error()));
            }
        } else {
            let fr1 = fr.drop_last();
            lemma_pop_frame(fr);
            lemma_work_left_nonneg(fr1);
            match top.0 {
                Some(m) => law_lookup_is_new(fr1, res.push((m, false)), errs),
                None => {},
            }
        }
    }
}

/// The set of modules being loaded only changes by finishing the innermost one: walking on
/// never adds a frame and keeps every remaining frame's module and imports, so a module whose
/// imports are being walked stays loading until its own walk ends (then it is resolved).
pub proof fn law_advance_keeps_outer_frames(fr: Seq<FrameView>, res: Seq<(Seq<char>, bool)>, errs: Seq<ErrorView>)
    requires
        frames_ok(fr),
    ensures
        ({
            let fr2 = advance(fr, res, errs).0;
            &&& fr2.len() <= fr.len()
            &&& forall|i: int| 0 <= i < fr2.len() ==> (#[trigger] fr2[i]).0 == fr[i].0 && fr2[i].1 == fr[i].1
        }),
    decreases work_left(fr),
{
    if fr.len() > 0 {
        let top = fr.last();
        if top.2 < top.1.len() {
            let name = top.1[top.2];
            let fr1 = fr.update(fr.len() - 1, (top.0, top.1, top.2 + 1));
            lemma_take_import(fr);
            lemma_work_left_nonneg(fr1);
            if is_resolved(res, name) {
                law_advance_keeps_outer_frames(fr1, res, errs);
            } else if is_loading(fr1, name) {
                law_advance_keeps_outer_frames(fr1, res, errs.push(cycle_error()));
            }
        } else {
            let fr1 = fr.drop_last();
            lemma_pop_frame(fr);
            lemma_work_left_nonneg(fr1);
            match top.0 {
                Some(m) => law_advance_keeps_outer_frames(fr1, res.push((m, false)), errs),
                None => {},
            }
        }
    }
}

/// The resolver's state: the frames being walked, the resolved modules (name and whether it
/// is an interface), the errors so far, and the module awaiting its lookup.
pub struct ModuleResolver {
    frames: Vec<Frame>,
    resolved: Vec<(String, bool)>,
    errors: Vec<ResolveError>,
    pending: Option<String>,
}

impl ModuleResolver {
    pub closed spec fn frames_spec(&self) -> Seq<FrameView> {
        frames_view(self.frames@)
    }

    pub closed spec fn resolved_spec(&self) -> Seq<(Seq<char>, bool)> {
        resolved_view(self.resolved@)
    }

    pub closed spec fn errors_spec(&self) -> Seq<ErrorView> {
        errors_view(self.errors@)
    }

    pub closed spec fn pending_spec(&self) -> Option<Seq<char>> {
        crate::commands::opt_view(self.pending)
    }

    /// The state's laws: frames well formed; no module both resolved and being loaded; each
    /// module resolved once and loaded by one frame at most; the awaited module neither
    /// resolved nor loading.
    pub open spec fn wf(&self) -> bool {
        let fr = self.frames_spec();
        let res = self.resolved_spec();
        &&& frames_ok(fr)
        &&& forall|n: Seq<char>| is_resolved(res, n) ==> !is_loading(fr, n)
        &&& forall|a: int, b: int| 0 <= a < b < res.len() ==> #[trigger] res[a].0 != #[trigger] res[b].0
        &&& forall|a: int, b: int|
            0 <= a < b < fr.len() && (#[trigger] fr[a]).0 is Some ==> #[trigger] fr[b].0 != fr[a].0
        &&& match self.pending_spec() {
            Some(n) => !is_resolved(res, n) && !is_loading(fr, n),
            None => true,
        }
    }

    /// A walk over the entrypoint's imports.
    pub fn new(entry_imports: Vec<String>) -> (r: ModuleResolver)
        ensures
            r.wf(),
            r.frames_spec() == seq![(None::<Seq<char>>, crate::text::views(entry_imports@), 0int)],
            r.resolved_spec().len() == 0,
            r.errors_spec().len() == 0,
            r.pending_spec() is None,
    {
        let mut frames: Vec<Frame> = Vec::new();
        frames.push(Frame { module: None, imports: entry_imports, next: 0 });
        let r = ModuleResolver { frames, resolved: Vec::new(), errors: Vec::new(), pending: None };
        assert(r.frames_spec() =~= seq![(None::<Seq<char>>, crate::text::views(entry_imports@), 0int)]);
        assert(r.resolved_spec() =~= Seq::<(Seq<char>, bool)>::empty());
        assert(r.errors_spec() =~= Seq::<ErrorView>::empty());
        r
    }

    fn resolved_has(&self, name: &String) -> (r: bool)
        ensures
            r == is_resolved(self.resolved_spec(), name@),
    {
        let key = chars_of(name.as_str());
        let mut i: usize = 0;
        while i < self.resolved.len()
            invariant
                i <= self.resolved.len(),
                key@ == name@,
                forall|k: int| 0 <= k < i ==> #[trigger] self.resolved_spec()[k].0 != name@,
            decreases self.resolved.len() - i,
        {
            assert(self.resolved_spec()[i as int].0 == self.resolved@[i as int].0@);
            if chars_eq(chars_of(self.resolved[i].0.as_str()).as_slice(), key.as_slice()) {
                return true;
            }
            i = i + 1;
        }
        false
    }

    fn loading_has(&self, name: &String) -> (r: bool)
        ensures
            r == is_loading(self.frames_spec(), name@),
    {
        let key = chars_of(name.as_str());
        let mut i: usize = 0;
        while i < self.frames.len()
            invariant
                i <= self.frames.len(),
                key@ == name@,
                forall|k: int| 0 <= k < i ==> #[trigger] self.frames_spec()[k].0 != Some(name@),
            decreases self.frames.len() - i,
        {
            assert(self.frames_spec()[i as int] == frame_view(self.frames@[i as int]));
            match &self.frames[i].module {
                Some(m) => {
                    if chars_eq(chars_of(m.as_str()).as_slice(), key.as_slice()) {
                        assert(self.frames_spec()[i as int].0 == Some(name@));
                        return true;
                    }
                },
                None => {},
            }
            i = i + 1;
        }
        false
    }

    /// Walk on until a module must be looked up (it is then awaited) or the walk is done.
    pub fn next_action(&mut self) -> (r: ResolveAction)
        requires
            old(self).wf(),
            old(self).pending_spec() is None,
        ensures
            final(self).wf(),
            advance(old(self).frames_spec(), old(self).resolved_spec(), old(self).errors_spec()) == (
                final(self).frames_spec(),
                final(self).resolved_spec(),
                final(self).errors_spec(),
                match r {
                    ResolveAction::Lookup(n) => Some(n@),
                    ResolveAction::Done => None,
                },
            ),
            final(self).pending_spec() == match r {
                ResolveAction::Lookup(n) => Some(n@),
                ResolveAction::Done => None,
            },
    {
        let ghost target = advance(self.frames_spec(), self.resolved_spec(), self.errors_spec());
        loop
            invariant
                self.wf(),
                self.pending_spec() is None,
                target == advance(old(self).frames_spec(), old(self).resolved_spec(), old(self).errors_spec()),
                advance(self.frames_spec(), self.resolved_spec(), self.errors_spec()) == target,
            decreases work_left(self.frames_spec()),
        {
            let ghost fr = self.frames_spec();
            let ghost res = self.resolved_spec();
            let ghost errs = self.errors_spec();
            proof {
                lemma_work_left_nonneg(fr);
            }
            if self.frames.len() == 0 {
                assert(fr.len() == 0);
                assert(advance(fr, res, errs) == (fr, res, errs, None::<Seq<char>>));
                return ResolveAction::Done;
            }
            let last = self.frames.len() - 1;
            assert(fr.last() == frame_view(self.frames@[last as int]));
            if self.frames[last].next < self.frames[last].imports.len() {
                let name = self.frames[last].imports[self.frames[last].next].clone();
                assert(name@ == fr.last().1[fr.last().2]);
                let mut f = self.frames.pop().unwrap();
                f.next = f.next + 1;
                self.frames.push(f);
                proof {
                    lemma_take_import(fr);
                    let fr1 = fr.update(fr.len() - 1, (fr.last().0, fr.last().1, fr.last().2 + 1));
                    assert(self.frames_spec() =~= fr1);
                    assert forall|i: int| 0 <= i < fr1.len() implies (#[trigger] fr1[i]).0 == fr[i].0 by {}
                    assert forall|n: Seq<char>| is_loading(fr1, n) == is_loading(fr, n) by {
                        if is_loading(fr, n) {
                            let i = choose|i: int| 0 <= i < fr.len() && #[trigger] fr[i].0 == Some(n);
                            assert(fr1[i].0 == Some(n));
                        }
                        if is_loading(fr1, n) {
                            let i = choose|i: int| 0 <= i < fr1.len() && #[trigger] fr1[i].0 == Some(n);
                            assert(fr[i].0 == Some(n));
                        }
                    }
                }
                if self.resolved_has(&name) {
                    // Skip: already resolved.
                } else if self.loading_has(&name) {
                    let ghost before = self.errors_spec();
                    self.errors.push(
                        ResolveError {
                            code: "RES001".to_string(),
                            message: "mzunguko wa moduli: moduli imejirejea".to_string(),
                        },
                    );
                    assert(self.errors_spec() =~= before.push(cycle_error()));
                } else {
                    self.pending = Some(name.clone());
                    assert(advance(fr, res, errs) == (self.frames_spec(), res, errs, Some(name@)));
                    return ResolveAction::Lookup(name);
                }
            } else {
                let f = self.frames.pop().unwrap();
                proof {
                    lemma_pop_frame(fr);
                    assert(self.frames_spec() =~= fr.drop_last());
                }
                match f.module {
                    Some(m) => {
                        let ghost before = self.resolved_spec();
                        proof {
                            // `m` was loading in the popped frame only, and was not resolved.
                            assert(fr[fr.len() - 1].0 == Some(m@));
                            assert(is_loading(fr, m@));
                            assert forall|i: int| 0 <= i < fr.len() - 1 implies #[trigger] fr[i].0 != Some(m@) by {
                                if fr[i].0 is Some {
                                    assert(fr[fr.len() - 1].0 != fr[i].0);
                                }
                            }
                        }
                        let ghost mv = m@;
                        self.resolved.push((m, false));
                        assert(self.resolved_spec() =~= before.push((mv, false)));
                        proof {
                            let fr1 = fr.drop_last();
                            let res2 = self.resolved_spec();
                            assert(!is_resolved(res, mv));
                            assert(!is_loading(fr1, mv)) by {
                                if is_loading(fr1, mv) {
                                    let i = choose|i: int| 0 <= i < fr1.len() && #[trigger] fr1[i].0 == Some(mv);
                                    assert(fr[i] == fr1[i]);
                                }
                            }
                            assert forall|n: Seq<char>| is_resolved(res2, n) implies !is_loading(fr1, n) by {
                                let i = choose|i: int| 0 <= i < res2.len() && #[trigger] res2[i].0 == n;
                                if i < res.len() {
                                    assert(res2[i] == res[i]);
                                    assert(is_resolved(res, n));
                                    if is_loading(fr1, n) {
                                        let j = choose|j: int| 0 <= j < fr1.len() && #[trigger] fr1[j].0 == Some(n);
                                        assert(fr[j] == fr1[j]);
                                        assert(is_loading(fr, n));
                                    }
                                }
                            }
                            assert forall|a: int, b: int| 0 <= a < b < res2.len() implies #[trigger] res2[a].0 != #[trigger] res2[b].0 by {
                                assert(res2[a] == res[a]);
                                if b < res.len() {
                                    assert(res2[b] == res[b]);
                                }
                            }
                            assert forall|a: int, b: int|
                                0 <= a < b < fr1.len() && (#[trigger] fr1[a]).0 is Some implies #[trigger] fr1[b].0 != fr1[a].0 by {
                                assert(fr1[a] == fr[a] && fr1[b] == fr[b]);
                            }
                        }
                    },
                    None => {
                        return ResolveAction::Done;
                    },
                }
            }
        }
    }

    /// Report what the lookup of the awaited module found.
    pub fn supply(&mut self, found: ModuleLookup)
        requires
            old(self).wf(),
            old(self).pending_spec() is Some,
        ensures
            final(self).wf(),
            final(self).pending_spec() is None,
            ({
                let name = old(self).pending_spec()->0;
                let fr = old(self).frames_spec();
                let res = old(self).resolved_spec();
                let errs = old(self).errors_spec();
                match found {
                    ModuleLookup::Interface => final(self).frames_spec() == fr
                        && final(self).resolved_spec() == res.push((name, true))
                        && final(self).errors_spec() == errs,
                    ModuleLookup::NotFound { searched } => final(self).frames_spec() == fr
                        && final(self).resolved_spec() == res && final(self).errors_spec()
                        == errs.push(("RES002"@, "moduli '"@ + name + "' haikupatikana: "@ + searched@)),
                    ModuleLookup::Failed { message } => final(self).frames_spec() == fr
                        && final(self).resolved_spec() == res && final(self).errors_spec()
                        == errs.push(("RES003"@, message@)),
                    ModuleLookup::Diagnostics { errors } => final(self).frames_spec() == fr
                        && final(self).resolved_spec() == res && final(self).errors_spec() == errs
                        + errors_view(errors@),
                    ModuleLookup::Parsed { imports } => final(self).frames_spec() == fr.push(
                        (Some(name), crate::text::views(imports@), 0),
                    ) && final(self).resolved_spec() == res && final(self).errors_spec() == errs,
                }
            }),
    {
        let name = self.pending.take().unwrap();
        let ghost fr = self.frames_spec();
        let ghost res = self.resolved_spec();
        let ghost errs = self.errors_spec();
        match found {
            ModuleLookup::Interface => {
                let ghost nv = name@;
                self.resolved.push((name, true));
                assert(self.resolved_spec() =~= res.push((nv, true)));
                proof {
                    let res2 = self.resolved_spec();
                    assert forall|n: Seq<char>| is_resolved(res2, n) implies !is_loading(fr, n) by {
                        let i = choose|i: int| 0 <= i < res2.len() && #[trigger] res2[i].0 == n;
                        if i < res.len() {
                            assert(res2[i] == res[i]);
                            assert(is_resolved(res, n));
                        }
                    }
                    assert forall|a: int, b: int| 0 <= a < b < res2.len() implies #[trigger] res2[a].0 != #[trigger] res2[b].0 by {
                        assert(res2[a] == res[a]);
                        if b < res.len() {
                            assert(res2[b] == res[b]);
                        } else {
                            assert(!is_resolved(res, nv));
                        }
                    }
                }
            },
            ModuleLookup::NotFound { searched } => {
                let n = chars_of(name.as_str());
                let mut msg = concat3("moduli '", n.as_slice(), "' haikupatikana: ");
                let mut v = chars_of(msg.as_str());
                crate::text::push_all(&mut v, chars_of(searched.as_str()).as_slice());
                msg = crate::text::string_of(v.as_slice());
                self.errors.push(ResolveError { code: "RES002".to_string(), message: msg });
                assert(self.errors_spec() =~= errs.push(("RES002"@, "moduli '"@ + name@ + "' haikupatikana: "@ + searched@)));
            },
            ModuleLookup::Failed { message } => {
                self.errors.push(ResolveError { code: "RES003".to_string(), message });
                assert(self.errors_spec() =~= errs.push(("RES003"@, message@)));
            },
            ModuleLookup::Diagnostics { errors } => {
                let mut i: usize = 0;
                while i < errors.len()
                    invariant
                        i <= errors.len(),
                        self.errors_spec() == errs + errors_view(errors@.subrange(0, i as int)),
                        self.frames_spec() == fr,
                        self.resolved_spec() == res,
                        self.pending_spec() is None,
                    decreases errors.len() - i,
                {
                    let ghost before = self.errors_spec();
                    self.errors.push(ResolveError { code: errors[i].code.clone(), message: errors[i].message.clone() });
                    assert(errors@.subrange(0, i + 1) =~= errors@.subrange(0, i as int).push(errors@[i as int]));
                    assert(errors_view(errors@.subrange(0, i + 1)) =~= errors_view(errors@.subrange(0, i as int)).push((errors@[i as int].code@, errors@[i as int].message@)));
                    assert(self.errors_spec() =~= before.push((errors@[i as int].code@, errors@[i as int].message@)));
                    assert(self.errors_spec() =~= errs + errors_view(errors@.subrange(0, i + 1)));
                    i = i + 1;
                }
                assert(errors@.subrange(0, errors.len() as int) =~= errors@);
            },
            ModuleLookup::Parsed { imports } => {
                let ghost iv = crate::text::views(imports@);
                self.frames.push(Frame { module: Some(name), imports, next: 0 });
                assert(self.frames_spec() =~= fr.push((Some(name@), iv, 0)));
                proof {
                    let fr2 = self.frames_spec();
                    assert forall|i: int| 0 <= i < fr2.len() implies 0 <= #[trigger] fr2[i].2 <= fr2[i].1.len() by {
                        if i < fr.len() {
                            assert(fr2[i] == fr[i]);
                        }
                    }
                    assert forall|n: Seq<char>| is_resolved(res, n) implies !is_loading(fr2, n) by {
                        assert(!is_loading(fr, n));
                        if is_loading(fr2, n) {
                            let i = choose|i: int| 0 <= i < fr2.len() && #[trigger] fr2[i].0 == Some(n);
                            if i < fr.len() {
                                assert(fr2[i] == fr[i]);
                            }
                        }
                    }
                    assert forall|a: int, b: int|
                        0 <= a < b < fr2.len() && (#[trigger] fr2[a]).0 is Some implies #[trigger] fr2[b].0 != fr2[a].0 by {
                        assert(fr2[a] == fr[a]);
                        if b < fr.len() {
                            assert(fr2[b] == fr[b]);
                        } else {
                            assert(fr[a].0 != Some(name@));
                        }
                    }
                }
            },
        }
    }

    /// The errors found so far, in order.
    pub fn errors(&self) -> (r: &Vec<ResolveError>)
        ensures
            errors_view(r@) == self.errors_spec(),
    {
        &self.errors
    }

    /// The resolved modules so far, in the order they were finished: name and whether it is
    /// an interface.
    pub fn resolved(&self) -> (r: &Vec<(String, bool)>)
        ensures
            resolved_view(r@) == self.resolved_spec(),
    {
        &self.resolved
    }
}

} // verus!
