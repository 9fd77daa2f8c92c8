//! Quick fixes offered for a diagnostic.

use vstd::prelude::*;
use crate::text::str_is;

verus! {

/// A quick fix: its title and whether the editor should prefer it.
#[derive(Clone, Debug)]
pub struct QuickFix {
    pub title: String,
    pub is_preferred: bool,
}

/// The fixes for a diagnostic code: adding a doc comment for LINT202, removing unused imports
/// for LINT203, none otherwise.
pub open spec fn fixes_for(code: Seq<char>) -> Seq<(Seq<char>, bool)> {
    if code == "LINT202"@ {
        seq![("Add doc comment"@, true)]
    } else if code == "LINT203"@ {
        seq![("Remove unused imports"@, false)]
    } else {
        Seq::empty()
    }
}

/// The quick fixes for a diagnostic with code `code` (the file it is in plays no part).
pub fn code_actions_for_diagnostic(code: &str, _file_path: &str) -> (r: Vec<QuickFix>)
    ensures
        r@.map_values(|f: QuickFix| (f.title@, f.is_preferred)) == fixes_for(code@),
{
    let mut actions: Vec<QuickFix> = Vec::new();
    if str_is(code, "LINT202") {
        actions.push(QuickFix { title: "Add doc comment".to_string(), is_preferred: true });
    } else if str_is(code, "LINT203") {
        actions.push(QuickFix { title: "Remove unused imports".to_string(), is_preferred: false });
    }
    assert(actions@.map_values(|f: QuickFix| (f.title@, f.is_preferred)) =~= fixes_for(code@));
    actions
}

} // verus!
