//! States that change by events: what a state can have become since it was
//! first seen.

use vstd::prelude::*;

verus! {

/// A state that changes one event at a time.
pub trait Evolving: Sized {
    /// What can happen to the state.
    type Event;

    /// The state after `e` happened to it.
    spec fn evolve(self, e: Self::Event) -> Self;
}

/// The state `start` after the events of `log` happened to it, in order.
pub open spec fn replayed<S: Evolving>(start: S, log: Seq<S::Event>) -> S
    decreases log.len(),
{
    if log.len() == 0 {
        start
    } else {
        replayed(start, log.drop_last()).evolve(log.last())
    }
}

/// Some events lead from `start` to `now`.
pub open spec fn reached<S: Evolving>(start: S, now: S) -> bool {
    exists|log: Seq<S::Event>| #[trigger] replayed(start, log) == now
}

/// Every state is reached from itself, by no event at all.
pub proof fn lemma_reached_itself<S: Evolving>(s: S)
    ensures
        reached(s, s),
{
    assert(replayed(s, Seq::<S::Event>::empty()) == s);
}

/// What is reached is still reached after one more event.
pub proof fn lemma_reached_next<S: Evolving>(start: S, now: S, e: S::Event)
    requires
        reached(start, now),
    ensures
        reached(start, now.evolve(e)),
{
    let log = choose|log: Seq<S::Event>| #[trigger] replayed(start, log) == now;
    assert(log.push(e).drop_last() =~= log);
    assert(replayed(start, log.push(e)) == now.evolve(e));
}

} // verus!
