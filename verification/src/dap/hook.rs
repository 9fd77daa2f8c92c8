//! The debug-control surface a running program implements.

use vstd::prelude::*;

verus! {

/// The plain view of a list of variable bindings.
pub open spec fn bindings_view(b: Seq<(String, String)>) -> Seq<(Seq<char>, Seq<char>)> {
    b.map_values(|e: (String, String)| (e.0@, e.1@))
}

/// A running program's debug-control surface. Before each statement the interpreter asks
/// `should_pause` with the statement's line; a `true` answer means execution is now halted
/// there and stays halted until `resume` is called.
pub trait DebugHook: Sized {
    /// Whether execution is currently halted at a breakpoint.
    spec fn halted(&self) -> bool;

    /// The bindings currently in scope, as plain values.
    spec fn bindings(&self) -> Seq<(Seq<char>, Seq<char>)>;

    /// Called before executing the statement at `line`.
    fn should_pause(&mut self, line: usize) -> (r: bool)
        ensures
            r ==> final(self).halted(),
            final(self).bindings() == old(self).bindings(),
    ;

    /// This hook with its halt released and everything else as it is.
    spec fn unhalted(&self) -> Self;

    /// Release a halted program: only the halt changes.
    fn resume(&mut self)
        ensures
            *final(self) == old(self).unhalted(),
            !final(self).halted(),
            final(self).bindings() == old(self).bindings(),
    ;

    /// Snapshot of the bindings in scope, for a `variables` request.
    fn current_bindings(&self) -> (r: Vec<(String, String)>)
        ensures
            bindings_view(r@) == self.bindings(),
    ;
}

} // verus!
