//! The owned cell: one payload on the heap, released once.

use crate::hook::CleanupHook;
use vstd::prelude::*;

verus! {

/// A heap-resident container that owns exactly one payload until it is
/// released.
///
/// A cell is live for as long as it exists. Release takes the cell by value:
/// it runs the payload's cleanup hook, once, gives the storage back, and leaves
/// no cell behind that could be released or read a second time.
///
/// A cell on its own is released only by [`release`](OwnedCell::release): one
/// that is dropped instead gives its storage back without running the hook.
/// Cells held in a [`Scope`](crate::scope::Scope) are released by the end of
/// the scope at the latest.
pub struct OwnedCell<T: CleanupHook> {
    payload: Box<T>,
}

impl<T: CleanupHook> View for OwnedCell<T> {
    type V = T;

    /// The payload that the cell owns.
    closed spec fn view(&self) -> T {
        *self.payload
    }
}

impl<T: CleanupHook> OwnedCell<T> {
    /// Moves `value` to the heap and returns the cell that owns it.
    pub fn construct(value: T) -> (cell: Self)
        ensures
            cell@ == value,
    {
        OwnedCell { payload: Box::new(value) }
    }

    /// Lends the payload for as long as the cell is borrowed.
    pub fn payload(&self) -> (value: &T)
        ensures
            *value == self@,
    {
        &*self.payload
    }

    /// Releases the cell: the hook runs once, on the payload, and reports its
    /// line to `out`; then the payload's storage is given back.
    pub fn release(self, out: &mut Vec<String>)
        ensures
            final(out).deep_view() == old(out).deep_view().push(T::DIAGNOSTIC@),
    {
        let mut payload = self.payload;
        payload.cleanup(out);
    }
}

} // verus!
