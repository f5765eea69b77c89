//! Misuse of a cell through its number.

use vstd::prelude::*;

verus! {

/// A misuse of a cell of a scope, reported at the point where it happens.
#[derive(Debug, Clone, Copy, PartialEq, Eq)]
pub enum UsageError {
    /// The cell has already been released: its payload is gone and its hook
    /// has run.
    UseAfterRelease,
    /// No cell with this number has been constructed in the scope.
    Unconstructed,
}

} // verus!
