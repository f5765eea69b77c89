//! The whole run of the program around the library.

use crate::hook::S;
use crate::model::live_last_first;
use crate::scope::Scope;
use vstd::prelude::*;

verus! {

/// Runs the program once and returns what it reports, line by line.
///
/// The run enters a scope, constructs one cell around the minimal payload,
/// releases that cell on request and lets the scope end. The request runs the
/// hook; the end of the scope finds nothing left to release. So every run
/// reports the same single line.
pub fn run() -> (lines: Vec<String>)
    ensures
        lines.deep_view() == seq!["splat!"@],
{
    let mut lines: Vec<String> = Vec::new();
    let mut scope = Scope::enter();
    let x = scope.construct(S::new());
    let _ = scope.release(x, &mut lines);
    proof {
        reveal_with_fuel(live_last_first, 2);
    }
    let _ = scope.exit(&mut lines);
    proof {
        S::lemma_diagnostic();
    }
    lines
}

} // verus!
