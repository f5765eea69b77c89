//! What holds of every scope, whatever is constructed and released in it.
//!
//! Each law is stated over the abstract state of [`crate::model`], in the terms
//! that the contracts of [`Scope`](crate::scope::Scope) use, and proved.

use crate::model::descending;
use crate::model::lemma_all_live_pending;
use crate::model::lemma_enter_inv;
use crate::model::lemma_exit_exactly_once;
use crate::model::lemma_exit_journal_len;
use crate::model::lemma_pending_order;
use crate::model::lemma_run_preserves_inv;
use crate::model::lemma_step_preserves_inv;
use crate::model::once_if;
use crate::model::Event;
use crate::model::ScopeState;
use vstd::prelude::*;
use vstd::seq_lib::to_multiset_build;

verus! {

/// Exactly once. Take any sequence of constructions and release requests made
/// inside a scope, requests for cells already released or never constructed
/// included, and let the scope end. Then the hook of every constructed cell has
/// run exactly once, no hook has run for anything else, and so there have been
/// as many hook invocations as cells.
pub proof fn law_exactly_once<T>(events: Seq<Event<T>>, id: int)
    ensures
        ({
            let last = ScopeState::<T>::enter().run(events);
            &&& last.exit_journal().to_multiset().count(id) == once_if(0 <= id < last.cells.len())
            &&& last.exit_journal().len() == last.cells.len()
        }),
{
    let last = ScopeState::<T>::enter().run(events);
    lemma_enter_inv::<T>();
    lemma_run_preserves_inv(ScopeState::<T>::enter(), events);
    lemma_exit_exactly_once(last, id);
    lemma_exit_journal_len(last);
}

/// Never twice, at any moment. After any sequence of constructions and release
/// requests the hook has run once for each released cell and not at all for a
/// live one.
pub proof fn law_fired_iff_released<T>(events: Seq<Event<T>>, id: int)
    ensures
        ({
            let now = ScopeState::<T>::enter().run(events);
            now.times_fired(id) == once_if(now.is_released(id))
        }),
{
    let now = ScopeState::<T>::enter().run(events);
    lemma_enter_inv::<T>();
    lemma_run_preserves_inv(ScopeState::<T>::enter(), events);
}

/// Reverse order. The end of a scope releases exactly the cells that are still
/// live, and it releases each of them before every live cell that was
/// constructed earlier.
pub proof fn law_pending_in_reverse_order<T>(state: ScopeState<T>)
    ensures
        forall|id: int| state.pending().contains(id) <==> state.is_live(id),
        forall|j: int, k: int|
            0 <= j < k < state.pending().len() ==> state.pending()[j] > state.pending()[k],
{
    lemma_pending_order(state.cells);
}

/// Reverse order, with no release on request. Cells constructed one after
/// another in a scope, none of them released before the scope ends, are
/// released by its end last constructed first.
pub proof fn law_reverse_order<T>(events: Seq<Event<T>>)
    requires
        forall|k: int| 0 <= k < events.len() ==> events[k] is Construct,
    ensures
        ScopeState::<T>::enter().run(events).cells.len() == events.len(),
        ScopeState::<T>::enter().run(events).exit_journal() == descending(events.len()),
{
    lemma_only_constructions(events);
    lemma_all_live_pending(ScopeState::<T>::enter().run(events).cells);
}

/// A run of constructions alone leaves one live cell per event and an empty
/// journal.
proof fn lemma_only_constructions<T>(events: Seq<Event<T>>)
    requires
        forall|k: int| 0 <= k < events.len() ==> events[k] is Construct,
    ensures
        ({
            let last = ScopeState::<T>::enter().run(events);
            &&& last.cells.len() == events.len()
            &&& last.fired == Seq::<int>::empty()
            &&& forall|id: int| 0 <= id < last.cells.len() ==> last.cells[id] is Some
        }),
    decreases events.len(),
{
    if events.len() > 0 {
        lemma_only_constructions(events.drop_last());
    }
}

/// Released is final. Whatever happens after a cell has been released, it stays
/// released and its hook does not run again.
pub proof fn law_released_is_final<T>(state: ScopeState<T>, later: Seq<Event<T>>, id: int)
    requires
        state.is_released(id),
    ensures
        state.run(later).is_released(id),
        state.run(later).times_fired(id) == state.times_fired(id),
    decreases later.len(),
{
    if later.len() > 0 {
        let before = state.run(later.drop_last());
        law_released_is_final(state, later.drop_last(), id);
        match later.last() {
            Event::Construct(_) => {},
            Event::Release(target) => {
                if before.is_live(target) {
                    to_multiset_build(before.fired, target);
                }
            },
        }
    }
}

/// Release on request suppresses release by the end of the scope. Let a live
/// cell be released on request, and let anything happen in the scope after
/// that. Then the end of the scope does not release the cell again: its hook
/// has run once, from the request, and has still run once when the scope has
/// ended.
pub proof fn law_explicit_release_suppresses_implicit<T>(
    state: ScopeState<T>,
    id: int,
    later: Seq<Event<T>>,
)
    requires
        state.inv(),
        state.is_live(id),
    ensures
        ({
            let last = state.release(id).run(later);
            &&& state.release(id).times_fired(id) == 1
            &&& last.times_fired(id) == 1
            &&& !last.pending().contains(id)
            &&& last.exit_journal().to_multiset().count(id) == 1
        }),
{
    let released = state.release(id);
    let last = released.run(later);
    lemma_step_preserves_inv(state, Event::Release(id));
    law_released_is_final(released, later, id);
    lemma_run_preserves_inv(released, later);
    lemma_pending_order(last.cells);
    lemma_exit_exactly_once(last, id);
}

} // verus!
