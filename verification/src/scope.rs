//! A scope: the cells constructed in it, released on request or by its end.

use crate::cell::OwnedCell;
use crate::error::UsageError;
use crate::hook::CleanupHook;
use crate::model::live_last_first;
use crate::model::once_if;
use crate::model::lemma_enter_inv;
use crate::model::lemma_exit_exactly_once;
use crate::model::lemma_exit_journal_len;
use crate::model::lemma_step_preserves_inv;
use crate::model::Event;
use crate::model::ScopeState;
use vstd::prelude::*;

verus! {

/// Cell numbers as mathematical integers.
pub open spec fn numbers(ids: Seq<usize>) -> Seq<int> {
    ids.map_values(|id: usize| id as int)
}

/// `n` copies of one line.
pub open spec fn repeated(line: Seq<char>, n: nat) -> Seq<Seq<char>> {
    Seq::new(n, |k: int| line)
}

/// What a slot holds: the payload of its cell, or nothing once the cell has
/// been released.
spec fn content<T: CleanupHook>(slot: Option<OwnedCell<T>>) -> Option<T> {
    match slot {
        Some(cell) => Some(cell@),
        None => None,
    }
}

/// What each of `slots` holds, in order.
spec fn contents<T: CleanupHook>(slots: Seq<Option<OwnedCell<T>>>) -> Seq<Option<T>> {
    slots.map_values(|slot: Option<OwnedCell<T>>| content(slot))
}

/// The cells constructed between the entry of a scope and its end.
///
/// Cells are numbered in construction order, starting at 0, and a cell is
/// named by its number. A cell is released either on request, by
/// [`release`](Scope::release), or by the end of the scope, [`exit`](Scope::exit),
/// which releases whatever is still live, last constructed first. The scope
/// keeps a journal of the hook invocations it has made; at every moment the
/// journal holds each released cell once and no live one.
///
/// The end of a scope is an event that its owner announces by calling
/// [`exit`](Scope::exit). A `Scope` that is dropped instead gives the storage
/// of its live cells back without running their hooks.
pub struct Scope<T: CleanupHook> {
    cells: Vec<Option<OwnedCell<T>>>,
    fired: Vec<usize>,
}

impl<T: CleanupHook> View for Scope<T> {
    type V = ScopeState<T>;

    closed spec fn view(&self) -> ScopeState<T> {
        ScopeState { cells: contents(self.cells@), fired: numbers(self.fired@) }
    }
}

impl<T: CleanupHook> Scope<T> {
    #[verifier::type_invariant]
    spec fn hooks_ran_once(self) -> bool {
        self@.inv()
    }

    /// Enters a scope: it holds no cell and no hook has run.
    pub fn enter() -> (scope: Self)
        ensures
            scope@ == ScopeState::<T>::enter(),
            scope@.inv(),
    {
        let cells: Vec<Option<OwnedCell<T>>> = Vec::new();
        let fired: Vec<usize> = Vec::new();
        proof {
            lemma_enter_inv::<T>();
            assert(contents(cells@) =~= Seq::<Option<T>>::empty());
            assert(numbers(fired@) =~= Seq::<int>::empty());
        }
        Scope { cells, fired }
    }

    /// Constructs a cell around `value` and returns its number. The cell is
    /// live; the cells constructed before it are as they were.
    pub fn construct(&mut self, value: T) -> (id: usize)
        ensures
            id == old(self)@.cells.len(),
            final(self)@ == old(self)@.construct(value),
            final(self)@.inv(),
    {
        proof {
            use_type_invariant(&*self);
            lemma_step_preserves_inv(self@, Event::Construct(value));
        }
        // The two vectors are bound to each other by the type's invariant:
        // they are taken out, changed, and put back as one value.
        let mut taken = Scope::enter();
        std::mem::swap(self, &mut taken);
        let Scope { mut cells, fired } = taken;
        let id = cells.len();
        cells.push(Some(OwnedCell::construct(value)));
        assert(contents(cells@) =~= old(self)@.cells.push(Some(value)));
        *self = Scope { cells, fired };
        id
    }

    /// Releases cell `id` on request.
    ///
    /// A live cell becomes released: its hook runs once and reports its line
    /// to `out`, and the invocation is entered in the journal. A request for a
    /// cell that is already released is reported as
    /// [`UsageError::UseAfterRelease`], one for a number that no cell of this
    /// scope bears as [`UsageError::Unconstructed`]; either leaves the scope
    /// and `out` as they were, and no hook runs.
    pub fn release(&mut self, id: usize, out: &mut Vec<String>) -> (r: Result<(), UsageError>)
        ensures
            final(self)@ == old(self)@.release(id as int),
            final(self)@.inv(),
            old(self)@.is_live(id as int) ==> r == Ok::<(), UsageError>(())
                && final(out).deep_view() == old(out).deep_view().push(T::DIAGNOSTIC@),
            old(self)@.is_released(id as int) ==> r == Err::<(), UsageError>(
                UsageError::UseAfterRelease,
            ) && *final(out) == *old(out),
            id >= old(self)@.cells.len() ==> r == Err::<(), UsageError>(UsageError::Unconstructed)
                && *final(out) == *old(out),
    {
        proof {
            use_type_invariant(&*self);
            lemma_step_preserves_inv(self@, Event::Release(id as int));
        }
        if id >= self.cells.len() {
            return Err(UsageError::Unconstructed);
        }
        let mut taken = Scope::enter();
        std::mem::swap(self, &mut taken);
        let Scope { mut cells, mut fired } = taken;
        let r = match cells[id].take() {
            Some(cell) => {
                cell.release(out);
                fired.push(id);
                assert(contents(cells@) =~= old(self)@.cells.update(id as int, None));
                assert(numbers(fired@) =~= old(self)@.fired.push(id as int));
                Ok(())
            },
            None => {
                assert(contents(cells@) =~= old(self)@.cells);
                Err(UsageError::UseAfterRelease)
            },
        };
        *self = Scope { cells, fired };
        r
    }

    /// Ends the scope and returns its journal.
    ///
    /// Every cell that is still live is released, last constructed first: for
    /// each of them the hook runs once and reports its line to `out`. Cells
    /// released on request before are left alone. The journal returned lists
    /// the hook invocations of the scope's whole life in the order in which
    /// they were made, and holds the number of every cell constructed in the
    /// scope exactly once.
    pub fn exit(self, out: &mut Vec<String>) -> (journal: Vec<usize>)
        ensures
            numbers(journal@) == self@.exit_journal(),
            final(out).deep_view() == old(out).deep_view() + repeated(
                T::DIAGNOSTIC@,
                self@.pending().len(),
            ),
            forall|id: int|
                #![trigger numbers(journal@).to_multiset().count(id)]
                numbers(journal@).to_multiset().count(id) == once_if(0 <= id < self@.cells.len()),
            journal@.len() == self@.cells.len(),
    {
        proof {
            use_type_invariant(&self);
            lemma_exit_journal_len(self@);
            assert forall|id: int|
                #![trigger self@.exit_journal().to_multiset().count(id)]
                self@.exit_journal().to_multiset().count(id) == once_if(
                    0 <= id < self@.cells.len(),
                ) by {
                lemma_exit_exactly_once(self@, id);
            }
        }
        let ghost state = self@;
        let ghost reported = out.deep_view();
        let Scope { mut cells, mut fired } = self;
        loop
            invariant
                numbers(fired@) + live_last_first(contents(cells@)) == state.exit_journal(),
                state.fired.len() <= fired@.len(),
                out.deep_view() == reported + repeated(
                    T::DIAGNOSTIC@,
                    (fired@.len() - state.fired.len()) as nat,
                ),
            ensures
                numbers(fired@) == state.exit_journal(),
                out.deep_view() == reported + repeated(T::DIAGNOSTIC@, state.pending().len()),
            decreases cells.len(),
        {
            let ghost held = contents(cells@);
            match cells.pop() {
                Some(slot) => {
                    let id = cells.len();
                    assert(contents(cells@) =~= held.drop_last());
                    if let Some(cell) = slot {
                        cell.release(out);
                        fired.push(id);
                    }
                },
                None => break,
            }
        }
        fired
    }

    /// How many cells have been constructed in the scope so far, live or
    /// released.
    pub fn len(&self) -> (n: usize)
        ensures
            n == self@.cells.len(),
    {
        self.cells.len()
    }

    /// Whether cell `id` has been constructed and not yet released.
    pub fn is_live(&self, id: usize) -> (live: bool)
        ensures
            live == self@.is_live(id as int),
    {
        id < self.cells.len() && self.cells[id].is_some()
    }

    /// The payload of cell `id`, if the cell is live. An attempt on a released
    /// cell is reported as [`UsageError::UseAfterRelease`], one on a number
    /// that no cell of this scope bears as [`UsageError::Unconstructed`].
    pub fn payload(&self, id: usize) -> (r: Result<&T, UsageError>)
        ensures
            self@.is_live(id as int) ==> r == Ok::<&T, UsageError>(
                &self@.cells[id as int]->Some_0,
            ),
            self@.is_released(id as int) ==> r == Err::<&T, UsageError>(
                UsageError::UseAfterRelease,
            ),
            id >= self@.cells.len() ==> r == Err::<&T, UsageError>(UsageError::Unconstructed),
    {
        if id >= self.cells.len() {
            return Err(UsageError::Unconstructed);
        }
        match &self.cells[id] {
            Some(cell) => Ok(cell.payload()),
            None => Err(UsageError::UseAfterRelease),
        }
    }
}

} // verus!
