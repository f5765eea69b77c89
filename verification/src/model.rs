//! The abstract state of a scope: which cells it holds, which are still live,
//! and in which order the cleanup hooks have run.
//!
//! Cells are numbered in construction order, starting at 0. The executable
//! [`Scope`](crate::scope::Scope) is specified by the transitions defined here,
//! and the laws of [`crate::laws`] are stated over them.

use vstd::prelude::*;
use vstd::seq_lib::lemma_multiset_commutative;
use vstd::seq_lib::to_multiset_build;

verus! {

/// What can happen inside a scope between its entry and its end.
pub enum Event<T> {
    /// A cell is constructed around this payload.
    Construct(T),
    /// The release of the cell with this number is requested.
    Release(int),
}

/// The abstract state of a scope.
#[verifier::ext_equal]
pub struct ScopeState<T> {
    /// One entry per constructed cell, in construction order: the payload
    /// while the cell is live, `None` once it has been released.
    pub cells: Seq<Option<T>>,
    /// The journal: the numbers of the cells whose hook has run, oldest
    /// invocation first.
    pub fired: Seq<int>,
}

/// 1 where `holds`, else 0.
pub open spec fn once_if(holds: bool) -> nat {
    if holds {
        1
    } else {
        0
    }
}

/// The numbers `n - 1, n - 2, ..., 0`.
pub open spec fn descending(n: nat) -> Seq<int> {
    Seq::new(n, |k: int| n - 1 - k)
}

/// The numbers of the live cells among `cells`, last constructed first.
pub open spec fn live_last_first<T>(cells: Seq<Option<T>>) -> Seq<int>
    decreases cells.len(),
{
    if cells.len() == 0 {
        Seq::empty()
    } else if cells.last() is Some {
        seq![cells.len() - 1] + live_last_first(cells.drop_last())
    } else {
        live_last_first(cells.drop_last())
    }
}

impl<T> ScopeState<T> {
    /// The state of a scope that has just been entered.
    pub open spec fn enter() -> Self {
        ScopeState { cells: Seq::empty(), fired: Seq::empty() }
    }

    /// Cell `id` has been constructed and not yet released.
    pub open spec fn is_live(self, id: int) -> bool {
        0 <= id < self.cells.len() && self.cells[id] is Some
    }

    /// Cell `id` has been constructed and released.
    pub open spec fn is_released(self, id: int) -> bool {
        0 <= id < self.cells.len() && self.cells[id] is None
    }

    /// How many times the hook of cell `id` has run.
    pub open spec fn times_fired(self, id: int) -> nat {
        self.fired.to_multiset().count(id)
    }

    /// The state after a cell has been constructed around `value`. The new
    /// cell is live and gets the next free number.
    pub open spec fn construct(self, value: T) -> Self {
        ScopeState { cells: self.cells.push(Some(value)), fired: self.fired }
    }

    /// The state after release has been requested for cell `id`. A live cell
    /// becomes released and its hook runs; any other request changes nothing.
    pub open spec fn release(self, id: int) -> Self {
        if self.is_live(id) {
            ScopeState { cells: self.cells.update(id, None), fired: self.fired.push(id) }
        } else {
            self
        }
    }

    /// The state after one event.
    pub open spec fn step(self, event: Event<T>) -> Self {
        match event {
            Event::Construct(value) => self.construct(value),
            Event::Release(id) => self.release(id),
        }
    }

    /// The state after a sequence of events, taken in order.
    pub open spec fn run(self, events: Seq<Event<T>>) -> Self
        decreases events.len(),
    {
        if events.len() == 0 {
            self
        } else {
            self.run(events.drop_last()).step(events.last())
        }
    }

    /// The cells that the end of the scope releases, in the order in which it
    /// releases them: every live cell, last constructed first.
    pub open spec fn pending(self) -> Seq<int> {
        live_last_first(self.cells)
    }

    /// The journal of the scope's whole life: the hook invocations made before
    /// the scope ended, then those that its end makes.
    pub open spec fn exit_journal(self) -> Seq<int> {
        self.fired + self.pending()
    }

    /// The hook has run once for each released cell and for nothing else.
    pub open spec fn inv(self) -> bool {
        forall|id: int| #[trigger] self.times_fired(id) == once_if(self.is_released(id))
    }
}

/// Among the cells pending at the end of a scope, a number occurs once if its
/// cell is live and not at all otherwise.
pub proof fn lemma_pending_count<T>(cells: Seq<Option<T>>, id: int)
    ensures
        live_last_first(cells).to_multiset().count(id) == once_if(
            0 <= id < cells.len() && cells[id] is Some,
        ),
    decreases cells.len(),
{
    if cells.len() == 0 {
        Seq::<int>::empty().to_multiset_ensures();
    } else {
        let rest = cells.drop_last();
        lemma_pending_count(rest, id);
        if cells.last() is Some {
            let top = cells.len() - 1;
            lemma_multiset_commutative(seq![top], live_last_first(rest));
            assert(seq![top].to_multiset().count(id) == once_if(id == top)) by {
                to_multiset_build(Seq::<int>::empty(), top);
                Seq::<int>::empty().to_multiset_ensures();
            }
        }
    }
}

/// The cells pending at the end of a scope are exactly the live ones, and each
/// comes after every live cell that was constructed later.
pub proof fn lemma_pending_order<T>(cells: Seq<Option<T>>)
    ensures
        forall|k: int|
            #![trigger live_last_first(cells)[k]]
            0 <= k < live_last_first(cells).len() ==> 0 <= live_last_first(cells)[k] < cells.len()
                && cells[live_last_first(cells)[k]] is Some,
        forall|id: int|
            #![trigger cells[id]]
            0 <= id < cells.len() && cells[id] is Some ==> live_last_first(cells).contains(id),
        forall|j: int, k: int|
            #![trigger live_last_first(cells)[j], live_last_first(cells)[k]]
            0 <= j < k < live_last_first(cells).len() ==> live_last_first(cells)[j]
                > live_last_first(cells)[k],
    decreases cells.len(),
{
    if cells.len() > 0 {
        let rest = cells.drop_last();
        let below = live_last_first(rest);
        let all = live_last_first(cells);
        lemma_pending_order(rest);
        if cells.last() is Some {
            assert forall|id: int| 0 <= id < cells.len() && cells[id] is Some implies all.contains(
                id,
            ) by {
                if id == cells.len() - 1 {
                    assert(all[0] == id);
                } else {
                    assert(rest[id] is Some);
                    let k = choose|k: int| 0 <= k < below.len() && below[k] == id;
                    assert(all[k + 1] == id);
                }
            }
        } else {
            assert forall|id: int| 0 <= id < cells.len() && cells[id] is Some implies all.contains(
                id,
            ) by {
                assert(rest[id] is Some);
            }
        }
    }
}

/// Where every cell is live, the pending cells are all of them, last first.
pub proof fn lemma_all_live_pending<T>(cells: Seq<Option<T>>)
    requires
        forall|id: int| 0 <= id < cells.len() ==> cells[id] is Some,
    ensures
        live_last_first(cells) == descending(cells.len()),
    decreases cells.len(),
{
    if cells.len() > 0 {
        lemma_all_live_pending(cells.drop_last());
    }
}

/// A scope that has just been entered satisfies the invariant.
pub proof fn lemma_enter_inv<T>()
    ensures
        ScopeState::<T>::enter().inv(),
{
    Seq::<int>::empty().to_multiset_ensures();
}

/// Every event preserves the invariant.
pub proof fn lemma_step_preserves_inv<T>(state: ScopeState<T>, event: Event<T>)
    requires
        state.inv(),
    ensures
        state.step(event).inv(),
{
    let next = state.step(event);
    assert forall|id: int| #[trigger] next.times_fired(id) == once_if(next.is_released(id)) by {
        assert(state.times_fired(id) == once_if(state.is_released(id)));
        match event {
            Event::Construct(_) => {},
            Event::Release(target) => {
                if state.is_live(target) {
                    to_multiset_build(state.fired, target);
                }
            },
        }
    }
}

/// Every sequence of events preserves the invariant.
pub proof fn lemma_run_preserves_inv<T>(state: ScopeState<T>, events: Seq<Event<T>>)
    requires
        state.inv(),
    ensures
        state.run(events).inv(),
    decreases events.len(),
{
    if events.len() > 0 {
        lemma_run_preserves_inv(state, events.drop_last());
        lemma_step_preserves_inv(state.run(events.drop_last()), events.last());
    }
}

/// In the journal of a scope's whole life the number of every constructed cell
/// occurs exactly once, and no other number occurs.
pub proof fn lemma_exit_exactly_once<T>(state: ScopeState<T>, id: int)
    requires
        state.inv(),
    ensures
        state.exit_journal().to_multiset().count(id) == once_if(0 <= id < state.cells.len()),
{
    lemma_multiset_commutative(state.fired, state.pending());
    lemma_pending_count(state.cells, id);
    assert(state.times_fired(id) == once_if(state.is_released(id)));
}

/// The journal of a scope's whole life is a rearrangement of the numbers of
/// all the cells constructed in it; so it has one entry per cell.
pub proof fn lemma_exit_journal_len<T>(state: ScopeState<T>)
    requires
        state.inv(),
    ensures
        state.exit_journal().to_multiset() == descending(state.cells.len()).to_multiset(),
        state.exit_journal().len() == state.cells.len(),
{
    let journal = state.exit_journal();
    let all = descending(state.cells.len());
    let live = Seq::new(state.cells.len(), |k: int| Some(()));
    lemma_all_live_pending(live);
    assert forall|id: int| journal.to_multiset().count(id) == all.to_multiset().count(id) by {
        lemma_exit_exactly_once(state, id);
        lemma_pending_count(live, id);
    }
    assert(journal.to_multiset() =~= all.to_multiset());
    journal.to_multiset_ensures();
    all.to_multiset_ensures();
}

} // verus!
