//! Bounded SPSC ring buffer.
//!
//! Designed for single-producer, single-consumer communication between pinned
//! cores. One slot is kept free to tell a full ring from an empty one.

use crate::sync::spinlock::{Guarded, SpinLock};
use std::sync::Arc;
use vstd::prelude::*;

verus! {

/// The slot `i` places behind slot `tail` in a ring of `n` slots.
pub open spec fn slot(tail: int, i: int, n: int) -> int {
    if tail + i < n {
        tail + i
    } else {
        tail + i - n
    }
}

/// A ring of `N` slots, of which `N - 1` can be in use.
pub struct SpscRing<T, const N: usize> {
    head: usize,
    tail: usize,
    buffer: Vec<Option<T>>,
}

impl<T, const N: usize> View for SpscRing<T, N> {
    /// The items in the ring, oldest first.
    type V = Seq<T>;

    closed spec fn view(&self) -> Seq<T> {
        Seq::new(
            self.spec_len(),
            |i: int| self.buffer@[slot(self.tail as int, i, N as int)]->0,
        )
    }
}

impl<T, const N: usize> SpscRing<T, N> {
    spec fn spec_len(self) -> nat {
        if self.head >= self.tail {
            (self.head - self.tail) as nat
        } else {
            (self.head + N - self.tail) as nat
        }
    }

    /// The slots between tail and head hold items.
    pub closed spec fn wf(self) -> bool {
        &&& self.head < N
        &&& self.tail < N
        &&& self.buffer@.len() == N
        &&& forall|i: int|
            0 <= i < self.spec_len() ==> self.buffer@[#[trigger] slot(
                self.tail as int,
                i,
                N as int,
            )] is Some
    }

    /// A ring holds fewer items than it has slots.
    pub proof fn lemma_bounded(self)
        requires
            self.wf(),
        ensures
            self@.len() < N,
    {
    }

    /// Create a new empty ring buffer.
    pub fn new() -> (r: Self)
        requires
            N > 0,
        ensures
            r.wf(),
            r@ == Seq::<T>::empty(),
    {
        let mut buffer: Vec<Option<T>> = Vec::new();
        let mut i: usize = 0;
        while i < N
            invariant
                i <= N,
                buffer@.len() == i,
            decreases N - i,
        {
            buffer.push(None);
            i = i + 1;
        }
        let r = SpscRing { head: 0, tail: 0, buffer };
        assert(r@ =~= Seq::<T>::empty());
        r
    }

    /// Push an item into the ring. Returns `Err(item)` if full.
    pub fn push(&mut self, item: T) -> (r: Result<(), T>)
        requires
            old(self).wf(),
        ensures
            final(self).wf(),
            pushed(old(self)@, item, r, final(self)@, N as int),
    {
        let head: usize = self.head;
        let next_head: usize = if head + 1 == N {
            0
        } else {
            head + 1
        };
        if next_head == self.tail {
            return Err(item);
        }
        self.buffer[head] = Some(item);
        self.head = next_head;
        proof {
            assert(self.spec_len() == old(self).spec_len() + 1);
            assert(slot(self.tail as int, old(self).spec_len() as int, N as int) == head);
            assert forall|i: int| 0 <= i < self.spec_len() implies self.buffer@[#[trigger] slot(
                self.tail as int,
                i,
                N as int,
            )] is Some by {}
            assert(self@ =~= old(self)@.push(item));
        }
        Ok(())
    }

    /// Pop an item from the ring. Returns `None` if empty.
    pub fn pop(&mut self) -> (r: Option<T>)
        requires
            old(self).wf(),
        ensures
            final(self).wf(),
            popped(old(self)@, r, final(self)@),
    {
        let tail: usize = self.tail;
        if tail == self.head {
            return None;
        }
        assert(slot(tail as int, 0, N as int) == tail);
        let item = self.buffer[tail].take();
        self.tail = if tail + 1 == N {
            0
        } else {
            tail + 1
        };
        proof {
            assert(self.spec_len() == old(self).spec_len() - 1);
            assert forall|i: int| 0 <= i < self.spec_len() implies slot(
                self.tail as int,
                i,
                N as int,
            ) == slot(tail as int, i + 1, N as int) && self.buffer@[#[trigger] slot(
                self.tail as int,
                i,
                N as int,
            )] is Some by {
                assert(old(self).buffer@[slot(tail as int, i + 1, N as int)] is Some);
            }
            assert(old(self)@ =~= seq![item->0] + self@);
        }
        item
    }

    /// Returns the number of items currently in the ring.
    pub fn len(&self) -> (r: usize)
        requires
            self.wf(),
        ensures
            r == self@.len(),
    {
        if self.head >= self.tail {
            self.head - self.tail
        } else {
            N - self.tail + self.head
        }
    }

    /// Returns true if the ring is empty.
    pub fn is_empty(&self) -> (r: bool)
        requires
            self.wf(),
        ensures
            r == (self@.len() == 0),
    {
        self.len() == 0
    }

    /// Returns the capacity (max items before full).
    /// Actual usable capacity is N-1 (one slot reserved to distinguish full from
    /// empty).
    pub fn capacity(&self) -> (r: usize)
        requires
            self.wf(),
        ensures
            r == N - 1,
    {
        N - 1
    }
}

/// What a push of `item` does to the items of a ring of `n` slots.
pub open spec fn pushed<T>(
    before: Seq<T>,
    item: T,
    r: Result<(), T>,
    after: Seq<T>,
    n: int,
) -> bool {
    if before.len() == n - 1 {
        r == Err::<(), T>(item) && after == before
    } else {
        r == Ok::<(), T>(()) && after == before.push(item)
    }
}

/// What a pop does to the items of a ring.
pub open spec fn popped<T>(before: Seq<T>, r: Option<T>, after: Seq<T>) -> bool {
    match r {
        None => before.len() == 0 && after == before,
        Some(item) => before == seq![item] + after,
    }
}

/// Items come out in the order in which they went in: popping after a push
/// takes the oldest item, and what was pushed waits behind the rest.
pub proof fn law_fifo<T>(
    s0: Seq<T>,
    item: T,
    s1: Seq<T>,
    out: Option<T>,
    s2: Seq<T>,
    n: int,
)
    requires
        pushed(s0, item, Ok(()), s1, n),
        popped(s1, out, s2),
    ensures
        out is Some,
        s0.len() == 0 ==> out == Some(item) && s2.len() == 0,
        s0.len() > 0 ==> out == Some(s0[0]) && s2 == s0.subrange(1, s0.len() as int).push(item),
{
    assert(s1[0] == out->0);
    assert(s2 =~= s1.subrange(1, s1.len() as int));
    if s0.len() > 0 {
        assert(s2 =~= s0.subrange(1, s0.len() as int).push(item));
    }
}

/// A call on a ring, with what it returned.
pub enum Call<T> {
    Push { item: T, r: Result<(), T> },
    Pop { r: Option<T> },
}

/// `call` takes the items of a ring of `n` slots from `before` to `after`.
pub open spec fn called<T>(before: Seq<T>, call: Call<T>, after: Seq<T>, n: int) -> bool {
    match call {
        Call::Push { item, r } => pushed(before, item, r, after, n),
        Call::Pop { r } => popped(before, r, after),
    }
}

/// The items of a ring of `n` slots, from when it was made on: `held[i]` before
/// the call `calls[i]`, and `held[i + 1]` after it.
pub open spec fn run<T>(held: Seq<Seq<T>>, calls: Seq<Call<T>>, n: int) -> bool {
    &&& held.len() == calls.len() + 1
    &&& held[0].len() == 0
    &&& forall|i: int|
        0 <= i < calls.len() ==> called(held[i], #[trigger] calls[i], held[i + 1], n)
}

/// The items that pushes of `calls` put in, in order.
pub open spec fn accepted<T>(calls: Seq<Call<T>>) -> Seq<T>
    decreases calls.len(),
{
    if calls.len() == 0 {
        seq![]
    } else {
        let earlier = accepted(calls.drop_last());
        match calls.last() {
            Call::Push { item, r: Ok(()) } => earlier.push(item),
            _ => earlier,
        }
    }
}

/// The items that pops of `calls` took out, in order.
pub open spec fn taken<T>(calls: Seq<Call<T>>) -> Seq<T>
    decreases calls.len(),
{
    if calls.len() == 0 {
        seq![]
    } else {
        let earlier = taken(calls.drop_last());
        match calls.last() {
            Call::Pop { r: Some(item) } => earlier.push(item),
            _ => earlier,
        }
    }
}

/// Over any run of pushes and pops, what was put in is what was taken out and,
/// behind it, what is in the ring: items come out in order, none is lost and
/// none comes twice.
pub proof fn law_run_is_fifo<T>(held: Seq<Seq<T>>, calls: Seq<Call<T>>, n: int)
    requires
        run(held, calls, n),
        n > 0,
    ensures
        accepted(calls) == taken(calls) + held.last(),
        taken(calls).is_prefix_of(accepted(calls)),
        held.last().len() < n,
    decreases calls.len(),
{
    if calls.len() == 0 {
        assert(held.last() =~= seq![]);
        assert(taken(calls) + held.last() =~= accepted(calls));
    } else {
        let k = calls.len() - 1;
        let before = held[k];
        let after = held.last();
        let earlier = calls.drop_last();
        assert(held.drop_last().last() == before);
        assert forall|i: int| 0 <= i < earlier.len() implies called(
            held.drop_last()[i],
            #[trigger] earlier[i],
            held.drop_last()[i + 1],
            n,
        ) by {
            assert(called(held[i], calls[i], held[i + 1], n));
        }
        law_run_is_fifo(held.drop_last(), earlier, n);
        assert(called(before, calls[k], after, n));
        assert(accepted(calls) =~= taken(calls) + after);
    }
}

/// Over any run, a push is refused, and hands its item back, exactly if `n - 1`
/// of the items that were put in were not taken out yet, and a pop finds
/// nothing exactly if all of them were.
pub proof fn law_run_answers<T>(held: Seq<Seq<T>>, calls: Seq<Call<T>>, n: int, i: int)
    requires
        run(held, calls, n),
        n > 0,
        0 <= i < calls.len(),
    ensures
        ({
            let put = accepted(calls.take(i));
            let got = taken(calls.take(i));
            match calls[i] {
                Call::Push { item, r } => if put.len() - got.len() == n - 1 {
                    r == Err::<(), T>(item) && held[i + 1] == held[i]
                } else {
                    r == Ok::<(), T>(())
                },
                Call::Pop { r } => if put == got {
                    r is None && held[i + 1] == held[i]
                } else {
                    r == Some(put[got.len() as int])
                },
            }
        }),
{
    let earlier = calls.take(i);
    let seen = held.take(i + 1);
    assert forall|j: int| 0 <= j < earlier.len() implies called(
        seen[j],
        #[trigger] earlier[j],
        seen[j + 1],
        n,
    ) by {
        assert(called(held[j], calls[j], held[j + 1], n));
    }
    law_run_is_fifo(seen, earlier, n);
    assert(seen.last() == held[i]);
    assert(called(held[i], calls[i], held[i + 1], n));
    let put = accepted(earlier);
    let got = taken(earlier);
    if held[i].len() == 0 {
        assert(put =~= got);
    } else {
        assert(put[got.len() as int] == held[i][0]);
    }
}

impl<T, const N: usize> Guarded for SpscRing<T, N> {
    open spec fn guarded(self, origin: Self) -> bool {
        self.wf()
    }
}

/// `Arc::strong_count`: the number of handles to the allocation behind `this`,
/// itself among them. How many more there are is up to the other threads, which
/// drop theirs whenever they do: nothing else is claimed.
#[verifier::external_body]
fn owners<S>(this: &Arc<S>) -> (r: usize)
    ensures
        r >= 1,
{
    Arc::strong_count(this)
}

/// One of `owners` ends of a channel finds the other one gone: it is the only
/// one left.
pub open spec fn peer_gone(owners: usize) -> bool {
    owners == 1
}

/// An end of a channel that `owners` ends hold finds the other one gone.
pub fn sole_owner(owners: usize) -> (r: bool)
    ensures
        r == peer_gone(owners),
{
    owners == 1
}

/// The receiving end of a channel.
///
/// Both ends work on one ring, so what a call finds there is up to the other
/// end as well: the contracts say what each call does with whatever it found.
pub struct Rx<T, const N: usize> {
    ring: Arc<SpinLock<SpscRing<T, N>>>,
}

impl<T, const N: usize> Rx<T, N> {
    /// The ring that this end works on.
    pub closed spec fn shared(self) -> SpinLock<SpscRing<T, N>> {
        *self.ring
    }

    /// Take the oldest item out of the channel; `None` if it is empty.
    pub fn pop(&self) -> (r: Option<T>)
        ensures
            exists|before: Seq<T>, after: Seq<T>|
                before.len() < N && #[trigger] popped(before, r, after),
    {
        let mut guard = self.ring.lock();
        let ghost before = guard.value()@;
        proof {
            guard.value().lemma_bounded();
        }
        let r = guard.as_mut().pop();
        assert(popped(before, r, guard.value()@));
        guard.unlock();
        r
    }

    /// True once the sending end is gone.
    pub fn is_closed(&self) -> (r: bool)
        ensures
            exists|n: usize| n >= 1 && r == #[trigger] peer_gone(n),
    {
        sole_owner(owners(&self.ring))
    }

    /// Number of items in the channel.
    pub fn len(&self) -> (r: usize)
        ensures
            r < N,
            exists|found: SpscRing<T, N>| #[trigger] found.wf() && r == found@.len(),
    {
        let guard = self.ring.lock();
        proof {
            guard.value().lemma_bounded();
        }
        let r: usize = guard.as_ref().len();
        assert(guard.value().wf() && r == guard.value()@.len());
        guard.unlock();
        r
    }

    pub fn is_empty(&self) -> (r: bool)
        ensures
            exists|found: SpscRing<T, N>|
                #[trigger] found.wf() && r == (found@.len() == 0),
    {
        let guard = self.ring.lock();
        let r: bool = guard.as_ref().is_empty();
        assert(guard.value().wf() && r == (guard.value()@.len() == 0));
        guard.unlock();
        r
    }

    /// The capacity (max items before full).
    pub fn capacity(&self) -> (r: usize)
        ensures
            r == N - 1,
    {
        let guard = self.ring.lock();
        let r: usize = guard.as_ref().capacity();
        guard.unlock();
        r
    }
}

/// The sending end of a channel.
///
/// Both ends work on one ring, so what a call finds there is up to the other
/// end as well: the contracts say what each call does with whatever it found.
pub struct Tx<T, const N: usize> {
    ring: Arc<SpinLock<SpscRing<T, N>>>,
}

impl<T, const N: usize> Tx<T, N> {
    /// The ring that this end works on.
    pub closed spec fn shared(self) -> SpinLock<SpscRing<T, N>> {
        *self.ring
    }

    /// Put an item into the channel. Returns `Err(item)` if it is full.
    pub fn push(&self, item: T) -> (r: Result<(), T>)
        ensures
            r matches Err(back) ==> back == item,
            exists|before: Seq<T>, after: Seq<T>|
                before.len() < N && #[trigger] pushed(before, item, r, after, N as int),
    {
        let mut guard = self.ring.lock();
        let ghost before = guard.value()@;
        proof {
            guard.value().lemma_bounded();
        }
        let r = guard.as_mut().push(item);
        assert(pushed(before, item, r, guard.value()@, N as int));
        guard.unlock();
        r
    }

    /// True once the receiving end is gone.
    pub fn is_closed(&self) -> (r: bool)
        ensures
            exists|n: usize| n >= 1 && r == #[trigger] peer_gone(n),
    {
        sole_owner(owners(&self.ring))
    }

    /// Number of items in the channel.
    pub fn len(&self) -> (r: usize)
        ensures
            r < N,
            exists|found: SpscRing<T, N>| #[trigger] found.wf() && r == found@.len(),
    {
        let guard = self.ring.lock();
        proof {
            guard.value().lemma_bounded();
        }
        let r: usize = guard.as_ref().len();
        assert(guard.value().wf() && r == guard.value()@.len());
        guard.unlock();
        r
    }

    pub fn is_empty(&self) -> (r: bool)
        ensures
            exists|found: SpscRing<T, N>|
                #[trigger] found.wf() && r == (found@.len() == 0),
    {
        let guard = self.ring.lock();
        let r: bool = guard.as_ref().is_empty();
        assert(guard.value().wf() && r == (guard.value()@.len() == 0));
        guard.unlock();
        r
    }

    /// The capacity (max items before full).
    pub fn capacity(&self) -> (r: usize)
        ensures
            r == N - 1,
    {
        let guard = self.ring.lock();
        let r: usize = guard.as_ref().capacity();
        guard.unlock();
        r
    }
}

/// Creates a new SPSC channel over a ring of `N` slots. Returns a `(Tx, Rx)`
/// pair for sending and receiving items. The channel is closed when either end
/// is dropped; the other end can check for closure with `is_closed()`.
pub fn channel<T, const N: usize>() -> (r: (Tx<T, N>, Rx<T, N>))
    requires
        N > 0,
    ensures
        r.0.shared() == r.1.shared(),
        r.0.shared().made_with().wf(),
        r.0.shared().made_with()@ == Seq::<T>::empty(),
{
    let tx_ring = Arc::new(SpinLock::new(SpscRing::new()));
    let rx_ring = tx_ring.clone();
    (Tx { ring: tx_ring }, Rx { ring: rx_ring })
}

} // verus!
