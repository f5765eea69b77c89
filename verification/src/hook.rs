//! The cleanup hook of a payload type, and the minimal payload.

use vstd::prelude::*;

verus! {

/// The cleanup that a payload type asks for when one of its values is
/// released.
///
/// The hook belongs to the type, not to single values: every value of the type
/// reports the same fixed line. It is handed the value being released by
/// exclusive reference and nothing else of the cell that holds it, so it cannot
/// ask for the release of that same cell.
pub trait CleanupHook {
    /// The line that the hook of this type reports.
    const DIAGNOSTIC: &'static str;

    /// Runs the hook on the value being released. It appends exactly one line,
    /// the type's own, to `out` and leaves what `out` held before in place.
    fn cleanup(&mut self, out: &mut Vec<String>)
        ensures
            final(out).deep_view() == old(out).deep_view().push(Self::DIAGNOSTIC@),
    ;
}

/// The minimal payload: it carries no data at all.
#[derive(Debug, PartialEq, Eq)]
pub struct S;

impl S {
    /// Builds the one value of the minimal payload type.
    pub fn new() -> (s: Self)
        ensures
            s == S,
    {
        S
    }

    /// The line that the hook of the minimal payload reports is `splat!`.
    pub proof fn lemma_diagnostic()
        ensures
            S::DIAGNOSTIC@ == "splat!"@,
    {
    }
}

impl CleanupHook for S {
    const DIAGNOSTIC: &'static str = "splat!";

    fn cleanup(&mut self, out: &mut Vec<String>) {
        out.push(Self::DIAGNOSTIC.to_owned());
    }
}

} // verus!
