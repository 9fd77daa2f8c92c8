//! A canned debug hook: pauses at its breakpoint lines and serves a fixed set of bindings,
//! enough to exercise the protocol layer without running a real program.

use vstd::prelude::*;
use crate::dap::hook::{bindings_view, DebugHook};

verus! {

/// A fake debug session: pauses whenever the line is one of `breakpoints`, records that a
/// pause happened, and serves canned variable bindings.
pub struct MockHook {
    breakpoints: Vec<usize>,
    paused: bool,
    bindings: Vec<(String, String)>,
    paused_once: bool,
}

impl MockHook {
    /// The breakpoint lines.
    pub closed spec fn breakpoint_set(&self) -> Seq<usize> {
        self.breakpoints@
    }

    /// Whether `should_pause` has ever paused.
    pub closed spec fn has_paused(&self) -> bool {
        self.paused_once
    }

    /// No breakpoints, not paused, and the canned bindings `x = 42` and `jina = "mfano"`.
    pub fn new() -> (r: MockHook)
        ensures
            r.breakpoint_set() == Seq::<usize>::empty(),
            !r.halted(),
            !r.has_paused(),
            r.bindings() == seq![("x"@, "42"@), ("jina"@, "\"mfano\""@)],
    {
        let mut bindings: Vec<(String, String)> = Vec::new();
        bindings.push(("x".to_string(), "42".to_string()));
        bindings.push(("jina".to_string(), "\"mfano\"".to_string()));
        let r = MockHook { breakpoints: Vec::new(), paused: false, bindings, paused_once: false };
        assert(bindings_view(r.bindings@) =~= seq![("x"@, "42"@), ("jina"@, "\"mfano\""@)]);
        r
    }

    /// Replace the breakpoint lines.
    pub fn set_breakpoints(&mut self, lines: Vec<usize>)
        ensures
            final(self).breakpoint_set() == lines@,
            final(self).halted() == old(self).halted(),
            final(self).has_paused() == old(self).has_paused(),
            final(self).bindings() == old(self).bindings(),
    {
        self.breakpoints = lines;
    }

    /// Replace the canned bindings.
    pub fn set_bindings(&mut self, bindings: Vec<(String, String)>)
        ensures
            final(self).bindings() == bindings_view(bindings@),
            final(self).breakpoint_set() == old(self).breakpoint_set(),
            final(self).halted() == old(self).halted(),
            final(self).has_paused() == old(self).has_paused(),
    {
        self.bindings = bindings;
    }

    /// Whether a pause has happened at least once.
    pub fn did_pause(&self) -> (r: bool)
        ensures
            r == self.has_paused(),
    {
        self.paused_once
    }

    /// Whether execution is halted at a breakpoint now.
    pub fn is_halted(&self) -> (r: bool)
        ensures
            r == self.halted(),
    {
        self.paused
    }

    /// A released hook keeps its breakpoints, its pause record and its bindings.
    pub proof fn law_release_keeps_state(&self)
        ensures
            !self.unhalted().halted(),
            self.unhalted().breakpoint_set() == self.breakpoint_set(),
            self.unhalted().has_paused() == self.has_paused(),
            self.unhalted().bindings() == self.bindings(),
    {
    }

    /// Bindings recorded by a real evaluator are ignored: this hook serves canned ones.
    pub fn record_bindings(&self, _bindings: Vec<(String, String)>) {
    }
}

impl DebugHook for MockHook {
    closed spec fn halted(&self) -> bool {
        self.paused
    }

    closed spec fn bindings(&self) -> Seq<(Seq<char>, Seq<char>)> {
        bindings_view(self.bindings@)
    }

    /// Pause exactly at the breakpoint lines.
    fn should_pause(&mut self, line: usize) -> (r: bool)
        ensures
            r == old(self).breakpoint_set().contains(line),
            final(self).breakpoint_set() == old(self).breakpoint_set(),
            final(self).halted() == (r || old(self).halted()),
            final(self).has_paused() == (r || old(self).has_paused()),
    {
        let mut i: usize = 0;
        while i < self.breakpoints.len()
            invariant
                i <= self.breakpoints.len(),
                *self == *old(self),
                forall|j: int| 0 <= j < i ==> self.breakpoints@[j] != line,
            decreases self.breakpoints.len() - i,
        {
            if self.breakpoints[i] == line {
                assert(self.breakpoints@[i as int] == line);
                self.paused_once = true;
                self.paused = true;
                return true;
            }
            i = i + 1;
        }
        false
    }

    closed spec fn unhalted(&self) -> MockHook {
        MockHook { paused: false, ..*self }
    }

    fn resume(&mut self) {
        self.paused = false;
    }

    fn current_bindings(&self) -> (r: Vec<(String, String)>) {
        let mut out: Vec<(String, String)> = Vec::new();
        let mut i: usize = 0;
        while i < self.bindings.len()
            invariant
                i <= self.bindings.len(),
                out.len() == i,
                forall|k: int|
                    0 <= k < i ==> (#[trigger] out@[k]).0@ == self.bindings@[k].0@
                        && out@[k].1@ == self.bindings@[k].1@,
            decreases self.bindings.len() - i,
        {
            out.push((self.bindings[i].0.clone(), self.bindings[i].1.clone()));
            i = i + 1;
        }
        assert(bindings_view(out@) =~= bindings_view(self.bindings@));
        out
    }
}

} // verus!
