//! A simple DHCP pool used for assigning addresses to LAN clients. It is a
//! collection of disjoint intervals of addresses, range inclusive. `take`
//! removes addresses from the pool, `reserve` removes a given one, and
//! `release` puts one back, merging adjacent intervals.

use crate::net::addr::Ipv4Addr;
use crate::sync::spinlock::{Guard, Guarded, SpinLock};
use std::sync::Arc;
use vstd::prelude::*;

verus! {

/// `x` lies in the interval `iv`, bounds included.
pub open spec fn within(iv: (Ipv4Addr, Ipv4Addr), x: u32) -> bool {
    iv.0.bits <= x <= iv.1.bits
}

/// The addresses of an interval in ascending order.
pub open spec fn interval_addrs(iv: (Ipv4Addr, Ipv4Addr)) -> Seq<Ipv4Addr> {
    Seq::new(
        (iv.1.bits - iv.0.bits + 1) as nat,
        |i: int| Ipv4Addr { bits: (iv.0.bits + i) as u32 },
    )
}

/// The addresses of all intervals, one interval after the other.
pub open spec fn addrs_of(ivs: Seq<(Ipv4Addr, Ipv4Addr)>) -> Seq<Ipv4Addr>
    decreases ivs.len(),
{
    if ivs.len() == 0 {
        seq![]
    } else {
        interval_addrs(ivs[0]) + addrs_of(ivs.subrange(1, ivs.len() as int))
    }
}

/// Intervals in ascending order with a gap between any two.
pub open spec fn intervals_ok(ivs: Seq<(Ipv4Addr, Ipv4Addr)>) -> bool {
    &&& forall|i: int| 0 <= i < ivs.len() ==> (#[trigger] ivs[i]).0.bits <= ivs[i].1.bits
    &&& forall|i: int, j: int|
        0 <= i < j < ivs.len() ==> (#[trigger] ivs[i]).1.bits + 1 < (#[trigger] ivs[j]).0.bits
}

/// What a pool holds.
#[verifier::ext_equal]
pub struct PoolView {
    pub start: Ipv4Addr,
    pub end: Ipv4Addr,
    /// The addresses that are free to be handed out.
    pub free: Set<Ipv4Addr>,
}

impl PoolView {
    /// The bounds are in order, and what is free lies within them.
    pub open spec fn wf(self) -> bool {
        &&& self.start.bits <= self.end.bits
        &&& forall|x: Ipv4Addr| #[trigger] self.free.contains(x) ==> self.covers(x)
    }

    /// `x` lies within the bounds of the pool, free or not.
    pub open spec fn covers(self, x: Ipv4Addr) -> bool {
        self.start.bits <= x.bits <= self.end.bits
    }

    /// The pool with `ip` in use.
    pub open spec fn reserved(self, ip: Ipv4Addr) -> PoolView {
        PoolView { free: self.free.remove(ip), ..self }
    }

    /// The pool with `ip` free.
    pub open spec fn released(self, ip: Ipv4Addr) -> PoolView {
        PoolView { free: self.free.insert(ip), ..self }
    }
}

/// `x` is the lowest address of `s`.
pub open spec fn is_lowest(s: Set<Ipv4Addr>, x: Ipv4Addr) -> bool {
    s.contains(x) && forall|y: Ipv4Addr| #[trigger] s.contains(y) ==> x.bits <= y.bits
}

/// The lowest address of `s`, if it has one.
pub open spec fn lowest(s: Set<Ipv4Addr>) -> Option<Ipv4Addr> {
    if exists|x: Ipv4Addr| is_lowest(s, x) {
        Some(choose|x: Ipv4Addr| is_lowest(s, x))
    } else {
        None
    }
}

/// A pool of addresses between two bounds.
pub struct AddressPool {
    pub start: Ipv4Addr,
    pub end: Ipv4Addr,
    pub intervals: Vec<(Ipv4Addr, Ipv4Addr)>,
}

impl View for AddressPool {
    type V = PoolView;

    open spec fn view(&self) -> PoolView {
        PoolView {
            start: self.start,
            end: self.end,
            free: Set::new(|x: Ipv4Addr| self.is_free(x)),
        }
    }
}

impl AddressPool {
    /// The intervals are disjoint, in order, not adjacent, and within the
    /// bounds of the pool.
    pub open spec fn wf(self) -> bool {
        &&& self.start.bits <= self.end.bits
        &&& intervals_ok(self.intervals@)
        &&& forall|i: int|
            0 <= i < self.intervals@.len() ==> self.start.bits <= (
            #[trigger] self.intervals@[i]).0.bits && self.intervals@[i].1.bits <= self.end.bits
    }

    /// `x` is in the pool: it is free to be handed out.
    pub open spec fn is_free(self, x: Ipv4Addr) -> bool {
        exists|i: int| 0 <= i < self.intervals@.len() && within(#[trigger] self.intervals@[i], x.bits)
    }

    /// The free addresses in ascending order.
    pub open spec fn free(self) -> Seq<Ipv4Addr> {
        addrs_of(self.intervals@)
    }

    /// `x` lies within the bounds of the pool, free or not.
    pub open spec fn covers(self, x: Ipv4Addr) -> bool {
        self.start.bits <= x.bits <= self.end.bits
    }

    /// What is free lies within the bounds.
    pub proof fn lemma_view_wf(self)
        requires
            self.wf(),
        ensures
            self@.wf(),
    {
    }

    proof fn lemma_free_is_within(self, i: int)
        requires
            self.wf(),
            0 <= i < self.free().len(),
        ensures
            self.covers(self.free()[i]),
    {
        let x = self.free()[i];
        assert(addrs_of(self.intervals@).contains(x));
        lemma_addrs_contains(self.intervals@, x);
    }

    /// A pool of all addresses from `start` to `end`, both included.
    pub fn new(start: Ipv4Addr, end: Ipv4Addr) -> (r: Self)
        requires
            start.bits <= end.bits,
        ensures
            r.wf(),
            r.start == start,
            r.end == end,
            forall|x: Ipv4Addr| #[trigger] r.is_free(x) == r.covers(x),
    {
        let mut intervals: Vec<(Ipv4Addr, Ipv4Addr)> = Vec::new();
        intervals.push((start, end));
        let r = AddressPool { start, end, intervals };
        proof {
            assert forall|x: Ipv4Addr| #[trigger] r.is_free(x) == r.covers(x) by {
                if r.covers(x) {
                    assert(within(r.intervals@[0], x.bits));
                }
            }
        }
        r
    }

    /// Number of leading intervals that start at or before `x`.
    fn count_upto(&self, x: u32) -> (r: usize)
        requires
            self.wf(),
        ensures
            r <= self.intervals@.len(),
            forall|i: int| 0 <= i < r ==> (#[trigger] self.intervals@[i]).0.bits <= x,
            forall|i: int|
                r <= i < self.intervals@.len() ==> (#[trigger] self.intervals@[i]).0.bits > x,
    {
        let mut lo: usize = 0;
        let mut hi: usize = self.intervals.len();
        while lo < hi
            invariant
                self.wf(),
                lo <= hi <= self.intervals@.len(),
                forall|i: int| 0 <= i < lo ==> (#[trigger] self.intervals@[i]).0.bits <= x,
                forall|i: int|
                    hi <= i < self.intervals@.len() ==> (#[trigger] self.intervals@[i]).0.bits > x,
            decreases hi - lo,
        {
            let mid: usize = lo + (hi - lo) / 2;
            if self.intervals[mid].0.bits <= x {
                lo = mid + 1;
            } else {
                hi = mid;
            }
        }
        lo
    }

    /// Reserve an address from the pool so it won't be handed out by
    /// [`take`]. Returns `Some(addr)` if it was in the free pool (now removed),
    /// or `None` if it wasn't (already reserved/taken, in a gap, or out of
    /// range). Idempotent: repeated calls for the same address return `None`
    /// after the first.
    ///
    /// [`take`]: AddressPool::take
    pub fn reserve(&mut self, addr: Ipv4Addr) -> (r: Option<Ipv4Addr>)
        requires
            old(self).wf(),
        ensures
            final(self).wf(),
            final(self).start == old(self).start,
            final(self).end == old(self).end,
            r == if old(self).is_free(addr) {
                Some(addr)
            } else {
                None
            },
            forall|x: Ipv4Addr| #[trigger]
                final(self).is_free(x) == (old(self).is_free(x) && x != addr),
            final(self)@ == old(self)@.reserved(addr),
    {
        let ghost before = *self;
        let pos: usize = self.count_upto(addr.bits);
        if pos == 0 {
            return None;  // addr is before every interval
        }
        let idx: usize = pos - 1;
        let (start, end) = self.intervals[idx];
        if addr.bits > end.bits {
            return None;  // addr sits in the gap after this interval
        }
        assert(within(self.intervals@[idx as int], addr.bits));
        // start <= addr <= end: split, shrink, or remove the interval.
        if start.bits == addr.bits && end.bits == addr.bits {
            // Single-element interval: drop it entirely.
            let _ = self.intervals.remove(idx);
            proof {
                assert forall|x: Ipv4Addr| #[trigger] self.is_free(x) == (before.is_free(x) && x
                    != addr) by {
                    lemma_removed(before, *self, idx as int, x);
                }
            }
        } else if start.bits == addr.bits {
            self.intervals[idx] = (Ipv4Addr { bits: addr.bits + 1 }, end);
            proof {
                assert forall|x: Ipv4Addr| #[trigger] self.is_free(x) == (before.is_free(x) && x
                    != addr) by {
                    lemma_replaced(before, *self, idx as int, x);
                }
            }
        } else if end.bits == addr.bits {
            self.intervals[idx] = (start, Ipv4Addr { bits: addr.bits - 1 });
            proof {
                assert forall|x: Ipv4Addr| #[trigger] self.is_free(x) == (before.is_free(x) && x
                    != addr) by {
                    lemma_replaced(before, *self, idx as int, x);
                }
            }
        } else {
            self.intervals.insert(idx + 1, (Ipv4Addr { bits: addr.bits + 1 }, end));
            self.intervals[idx] = (start, Ipv4Addr { bits: addr.bits - 1 });
            proof {
                assert forall|x: Ipv4Addr| #[trigger] self.is_free(x) == (before.is_free(x) && x
                    != addr) by {
                    lemma_split(before, *self, idx as int, x);
                }
            }
        }
        Some(addr)
    }
}

/// What is free after interval `k` is removed.
proof fn lemma_removed(before: AddressPool, after: AddressPool, k: int, x: Ipv4Addr)
    requires
        before.wf(),
        0 <= k < before.intervals@.len(),
        after.intervals@ == before.intervals@.remove(k),
    ensures
        after.is_free(x) == (before.is_free(x) && !within(before.intervals@[k], x.bits)),
{
    let a = before.intervals@;
    let b = after.intervals@;
    if before.is_free(x) && !within(a[k], x.bits) {
        let i = choose|i: int| 0 <= i < a.len() && within(#[trigger] a[i], x.bits);
        if i < k {
            assert(b[i] == a[i]);
        } else {
            assert(b[i - 1] == a[i]);
        }
    }
    if after.is_free(x) {
        let i = choose|i: int| 0 <= i < b.len() && within(#[trigger] b[i], x.bits);
        let j = if i < k {
            i
        } else {
            i + 1
        };
        assert(b[i] == a[j]);
        assert(within(a[j], x.bits));
    }
}

/// What is free after interval `k` is replaced by a part of itself.
proof fn lemma_replaced(before: AddressPool, after: AddressPool, k: int, x: Ipv4Addr)
    requires
        before.wf(),
        0 <= k < before.intervals@.len(),
        after.intervals@.len() == before.intervals@.len(),
        forall|i: int|
            0 <= i < before.intervals@.len() && i != k ==> #[trigger] after.intervals@[i]
                == before.intervals@[i],
    ensures
        after.is_free(x) == (within(after.intervals@[k], x.bits) || (before.is_free(x) && !within(
            before.intervals@[k],
            x.bits,
        ))),
{
    let a = before.intervals@;
    let b = after.intervals@;
    if before.is_free(x) && !within(a[k], x.bits) {
        let i = choose|i: int| 0 <= i < a.len() && within(#[trigger] a[i], x.bits);
        assert(b[i] == a[i]);
    }
    if after.is_free(x) && !within(b[k], x.bits) {
        let i = choose|i: int| 0 <= i < b.len() && within(#[trigger] b[i], x.bits);
        assert(b[i] == a[i]);
        assert(within(a[i], x.bits));
    }
}

/// What is free after interval `k` is replaced by two parts of itself.
proof fn lemma_split(before: AddressPool, after: AddressPool, k: int, x: Ipv4Addr)
    requires
        before.wf(),
        0 <= k < before.intervals@.len(),
        after.intervals@.len() == before.intervals@.len() + 1,
        forall|i: int| 0 <= i < k ==> #[trigger] after.intervals@[i] == before.intervals@[i],
        forall|i: int|
            k + 1 < i < after.intervals@.len() ==> #[trigger] after.intervals@[i]
                == before.intervals@[i - 1],
    ensures
        after.is_free(x) == (within(after.intervals@[k], x.bits) || within(
            after.intervals@[k + 1],
            x.bits,
        ) || (before.is_free(x) && !within(before.intervals@[k], x.bits))),
{
    let a = before.intervals@;
    let b = after.intervals@;
    if before.is_free(x) && !within(a[k], x.bits) {
        let i = choose|i: int| 0 <= i < a.len() && within(#[trigger] a[i], x.bits);
        if i < k {
            assert(b[i] == a[i]);
        } else {
            assert(b[i + 1] == a[i]);
        }
    }
    if after.is_free(x) && !within(b[k], x.bits) && !within(b[k + 1], x.bits) {
        let i = choose|i: int| 0 <= i < b.len() && within(#[trigger] b[i], x.bits);
        let j = if i < k {
            i
        } else {
            i - 1
        };
        assert(b[i] == a[j]);
        assert(within(a[j], x.bits));
    }
}

/// What is free after an interval is inserted at `k`.
proof fn lemma_inserted(
    before: AddressPool,
    after: AddressPool,
    k: int,
    iv: (Ipv4Addr, Ipv4Addr),
    x: Ipv4Addr,
)
    requires
        0 <= k <= before.intervals@.len(),
        after.intervals@ == before.intervals@.insert(k, iv),
    ensures
        after.is_free(x) == (within(iv, x.bits) || before.is_free(x)),
{
    let a = before.intervals@;
    let b = after.intervals@;
    if within(iv, x.bits) {
        assert(within(b[k], x.bits));
    }
    if before.is_free(x) {
        let i = choose|i: int| 0 <= i < a.len() && within(#[trigger] a[i], x.bits);
        if i < k {
            assert(b[i] == a[i]);
        } else {
            assert(b[i + 1] == a[i]);
        }
    }
    if after.is_free(x) && !within(iv, x.bits) {
        let i = choose|i: int| 0 <= i < b.len() && within(#[trigger] b[i], x.bits);
        let j = if i < k {
            i
        } else {
            i - 1
        };
        assert(b[i] == a[j]);
        assert(within(a[j], x.bits));
    }
}

/// What is free after intervals `k` and `k + 1` are replaced by one.
proof fn lemma_merged(
    before: AddressPool,
    after: AddressPool,
    k: int,
    iv: (Ipv4Addr, Ipv4Addr),
    x: Ipv4Addr,
)
    requires
        0 <= k,
        k + 1 < before.intervals@.len(),
        after.intervals@ == before.intervals@.update(k, iv).remove(k + 1),
    ensures
        after.is_free(x) == (within(iv, x.bits) || (before.is_free(x) && !within(
            before.intervals@[k],
            x.bits,
        ) && !within(before.intervals@[k + 1], x.bits)) || (before.is_free(x) && exists|i: int|
            0 <= i < before.intervals@.len() && i != k && i != k + 1 && within(
                #[trigger] before.intervals@[i],
                x.bits,
            ))),
{
    let a = before.intervals@;
    let b = after.intervals@;
    if within(iv, x.bits) {
        assert(within(b[k], x.bits));
    }
    if before.is_free(x) && exists|i: int|
        0 <= i < a.len() && i != k && i != k + 1 && within(#[trigger] a[i], x.bits) {
        let i = choose|i: int|
            0 <= i < a.len() && i != k && i != k + 1 && within(#[trigger] a[i], x.bits);
        if i < k {
            assert(b[i] == a[i]);
        } else {
            assert(b[i - 1] == a[i]);
        }
    }
    if after.is_free(x) && !within(iv, x.bits) {
        let i = choose|i: int| 0 <= i < b.len() && within(#[trigger] b[i], x.bits);
        let j = if i < k {
            i
        } else {
            i + 1
        };
        assert(b[i] == a[j]);
        assert(within(a[j], x.bits));
    }
}

/// The addresses of a list of intervals, put together from two parts.
proof fn lemma_addrs_concat(a: Seq<(Ipv4Addr, Ipv4Addr)>, b: Seq<(Ipv4Addr, Ipv4Addr)>)
    ensures
        addrs_of(a + b) == addrs_of(a) + addrs_of(b),
    decreases a.len(),
{
    if a.len() == 0 {
        assert(a + b =~= b);
        assert(addrs_of(a) + addrs_of(b) =~= addrs_of(b));
    } else {
        let rest = a.subrange(1, a.len() as int);
        lemma_addrs_concat(rest, b);
        assert((a + b).subrange(1, (a + b).len() as int) =~= rest + b);
        assert(addrs_of(a + b) =~= addrs_of(a) + addrs_of(b));
    }
}

/// The addresses of a list of intervals are those that some interval holds.
proof fn lemma_addrs_contains(ivs: Seq<(Ipv4Addr, Ipv4Addr)>, x: Ipv4Addr)
    requires
        intervals_ok(ivs),
    ensures
        addrs_of(ivs).contains(x) <==> exists|i: int|
            0 <= i < ivs.len() && within(#[trigger] ivs[i], x.bits),
    decreases ivs.len(),
{
    if ivs.len() > 0 {
        let rest = ivs.subrange(1, ivs.len() as int);
        let first = interval_addrs(ivs[0]);
        assert(intervals_ok(rest)) by {
            assert forall|i: int| 0 <= i < rest.len() implies (#[trigger] rest[i]).0.bits
                <= rest[i].1.bits by {
                assert(rest[i] == ivs[i + 1]);
            }
            assert forall|i: int, j: int| 0 <= i < j < rest.len() implies (#[trigger] rest[i]).1.bits
                + 1 < (#[trigger] rest[j]).0.bits by {
                assert(rest[i] == ivs[i + 1] && rest[j] == ivs[j + 1]);
            }
        }
        lemma_addrs_contains(rest, x);
        let all = addrs_of(ivs);
        if within(ivs[0], x.bits) {
            let j = x.bits - ivs[0].0.bits;
            assert(first[j] == x);
            assert(all[j] == x);
        }
        if addrs_of(rest).contains(x) {
            let j = choose|j: int| 0 <= j < addrs_of(rest).len() && addrs_of(rest)[j] == x;
            assert(all[first.len() + j] == x);
            let i = choose|i: int| 0 <= i < rest.len() && within(#[trigger] rest[i], x.bits);
            assert(ivs[i + 1] == rest[i]);
        }
        if all.contains(x) && !within(ivs[0], x.bits) {
            let j = choose|j: int| 0 <= j < all.len() && all[j] == x;
            if j < first.len() {
                assert(first[j] == x);
            } else {
                assert(addrs_of(rest)[j - first.len()] == x);
            }
        }
        if (exists|i: int| 0 <= i < ivs.len() && within(#[trigger] ivs[i], x.bits)) && !within(
            ivs[0],
            x.bits,
        ) {
            let i = choose|i: int| 0 <= i < ivs.len() && within(#[trigger] ivs[i], x.bits);
            assert(rest[i - 1] == ivs[i]);
        }
    }
}

/// The addresses of a list of intervals are in strictly ascending order.
proof fn lemma_addrs_ascending(ivs: Seq<(Ipv4Addr, Ipv4Addr)>, i: int, j: int)
    requires
        intervals_ok(ivs),
        0 <= i < j < addrs_of(ivs).len(),
    ensures
        addrs_of(ivs)[i].bits < addrs_of(ivs)[j].bits,
    decreases ivs.len(),
{
    let rest = ivs.subrange(1, ivs.len() as int);
    let first = interval_addrs(ivs[0]);
    let all = addrs_of(ivs);
    assert(intervals_ok(rest)) by {
        assert forall|i: int| 0 <= i < rest.len() implies (#[trigger] rest[i]).0.bits
            <= rest[i].1.bits by {
            assert(rest[i] == ivs[i + 1]);
        }
        assert forall|i: int, j: int| 0 <= i < j < rest.len() implies (#[trigger] rest[i]).1.bits + 1
            < (#[trigger] rest[j]).0.bits by {
            assert(rest[i] == ivs[i + 1] && rest[j] == ivs[j + 1]);
        }
    }
    let n = first.len() as int;
    if i >= n {
        lemma_addrs_ascending(rest, i - n, j - n);
        assert(all[i] == addrs_of(rest)[i - n] && all[j] == addrs_of(rest)[j - n]);
    } else if j >= n {
        let y = all[j];
        assert(y == addrs_of(rest)[j - n]);
        lemma_addrs_contains(rest, y);
        assert(addrs_of(rest).contains(y));
        let k = choose|k: int| 0 <= k < rest.len() && within(#[trigger] rest[k], y.bits);
        assert(rest[k] == ivs[k + 1]);
        assert(all[i] == first[i]);
    } else {
        assert(all[i] == first[i] && all[j] == first[j]);
    }
}

/// The free addresses of a pool are listed in strictly ascending order, each
/// once, and no other address is: the list has as many entries as there are
/// free addresses.
pub proof fn law_free_addresses_are_listed(p: AddressPool)
    requires
        p.wf(),
    ensures
        forall|i: int, j: int|
            0 <= i < j < p.free().len() ==> (#[trigger] p.free()[i]).bits < (
            #[trigger] p.free()[j]).bits,
        forall|x: Ipv4Addr| #[trigger] p.free().contains(x) <==> p.is_free(x),
        p.free().no_duplicates(),
        p.free().to_set() == p@.free,
        p@.free.finite(),
        p@.free.len() == p.free().len(),
        p.free().len() > 0 ==> lowest(p@.free) == Some(p.free()[0]),
{
    let all = p.free();
    assert forall|i: int, j: int| 0 <= i < j < all.len() implies (#[trigger] all[i]).bits < (
    #[trigger] all[j]).bits by {
        lemma_addrs_ascending(p.intervals@, i, j);
    }
    assert forall|x: Ipv4Addr| #[trigger] all.contains(x) <==> p.is_free(x) by {
        lemma_addrs_contains(p.intervals@, x);
    }
    assert(all.to_set() =~= p@.free);
    all.unique_seq_to_set();
    if all.len() > 0 {
        assert(all.contains(all[0]));
        assert forall|y: Ipv4Addr| #[trigger] p@.free.contains(y) implies all[0].bits <= y.bits by {
            assert(all.contains(y));
            let j = choose|j: int| 0 <= j < all.len() && all[j] == y;
            if j > 0 {
                assert(all[0].bits < all[j].bits);
            }
        }
        assert(is_lowest(p@.free, all[0]));
        let x = choose|x: Ipv4Addr| is_lowest(p@.free, x);
        assert(p@.free.contains(x) && p@.free.contains(all[0]));
        assert(x.bits == all[0].bits);
    }
}

impl AddressPool {
    /// Put an address back into the pool, so that it can be handed out again.
    pub fn release(&mut self, ip: Ipv4Addr)
        requires
            old(self).wf(),
            old(self).covers(ip),
        ensures
            final(self).wf(),
            final(self).start == old(self).start,
            final(self).end == old(self).end,
            forall|x: Ipv4Addr| #[trigger]
                final(self).is_free(x) == (old(self).is_free(x) || x == ip),
            final(self)@ == old(self)@.released(ip),
    {
        let ghost before = *self;
        // The interval before `pos` (if any) is the candidate left neighbour,
        // intervals[pos] the right neighbour.
        let pos: usize = self.count_upto(ip.bits);
        if pos > 0 && ip.bits <= self.intervals[pos - 1].1.bits {
            // The address is free already.
            assert(within(self.intervals@[pos - 1], ip.bits));
            return ;
        }
        let left_adj: bool = pos > 0 && self.intervals[pos - 1].1.bits + 1 == ip.bits;
        let right_adj: bool = pos < self.intervals.len() && self.intervals[pos].0.bits == ip.bits + 1;
        if left_adj && right_adj {
            let left = self.intervals[pos - 1].0;
            let right = self.intervals[pos].1;
            self.intervals[pos - 1] = (left, right);
            let _ = self.intervals.remove(pos);
            proof {
                assert forall|x: Ipv4Addr| #[trigger] self.is_free(x) == (before.is_free(x) || x
                    == ip) by {
                    lemma_merged(before, *self, pos - 1, (left, right), x);
                    if within((left, right), x.bits) && x != ip {
                        assert(within(before.intervals@[pos - 1], x.bits) || within(
                            before.intervals@[pos as int],
                            x.bits,
                        ));
                    }
                    if before.is_free(x) && !within((left, right), x.bits) {
                        let i = choose|i: int|
                            0 <= i < before.intervals@.len() && within(
                                #[trigger] before.intervals@[i],
                                x.bits,
                            );
                        assert(i != pos - 1 && i != pos);
                    }
                }
            }
        } else if left_adj {
            let left = self.intervals[pos - 1].0;
            self.intervals[pos - 1] = (left, ip);
            proof {
                assert forall|x: Ipv4Addr| #[trigger] self.is_free(x) == (before.is_free(x) || x
                    == ip) by {
                    lemma_replaced(before, *self, pos - 1, x);
                    if within(before.intervals@[pos - 1], x.bits) {
                        assert(within(self.intervals@[pos - 1], x.bits));
                    }
                    if within(self.intervals@[pos - 1], x.bits) && x != ip {
                        assert(within(before.intervals@[pos - 1], x.bits));
                    }
                }
            }
        } else if right_adj {
            let right = self.intervals[pos].1;
            self.intervals[pos] = (ip, right);
            proof {
                assert forall|x: Ipv4Addr| #[trigger] self.is_free(x) == (before.is_free(x) || x
                    == ip) by {
                    lemma_replaced(before, *self, pos as int, x);
                    if within(before.intervals@[pos as int], x.bits) {
                        assert(within(self.intervals@[pos as int], x.bits));
                    }
                    if within(self.intervals@[pos as int], x.bits) && x != ip {
                        assert(within(before.intervals@[pos as int], x.bits));
                    }
                }
            }
        } else {
            self.intervals.insert(pos, (ip, ip));
            proof {
                assert forall|x: Ipv4Addr| #[trigger] self.is_free(x) == (before.is_free(x) || x
                    == ip) by {
                    lemma_inserted(before, *self, pos as int, (ip, ip), x);
                }
            }
        }
    }

    /// Take `n` addresses from the pool, returning them as a vector. If the
    /// pool has fewer than `n` addresses, returns `None` and leaves the pool
    /// unchanged.
    pub fn take(&mut self, n: usize) -> (r: Option<Vec<Ipv4Addr>>)
        requires
            old(self).wf(),
        ensures
            final(self).wf(),
            final(self).start == old(self).start,
            final(self).end == old(self).end,
            match r {
                None => old(self).free().len() < n && *final(self) == *old(self),
                Some(out) => {
                    &&& n <= old(self).free().len()
                    &&& out@ == old(self).free().subrange(0, n as int)
                    &&& final(self).free() == old(self).free().subrange(
                        n as int,
                        old(self).free().len() as int,
                    )
                    &&& forall|x: Ipv4Addr| #[trigger]
                        final(self).is_free(x) == (old(self).is_free(x) && !out@.contains(x))
                },
            },
    {
        let ghost before = *self;
        let ghost ivs = self.intervals@;
        let ghost all = self.free();
        // Bail before mutating.
        let mut available: u128 = 0;
        let mut i: usize = 0;
        let total: usize = self.intervals.len();
        proof {
            assert(ivs.subrange(0, 0) =~= seq![]);
        }
        while i < total && available < n as u128
            invariant
                i <= total,
                total == ivs.len(),
                ivs == self.intervals@,
                self.wf(),
                available == addrs_of(ivs.subrange(0, i as int)).len(),
                available <= i * 0x1_0000_0000,
            decreases total - i,
        {
            let (s, e) = self.intervals[i];
            proof {
                let upto = ivs.subrange(0, i + 1);
                assert(upto =~= ivs.subrange(0, i as int) + seq![ivs[i as int]]);
                lemma_addrs_concat(ivs.subrange(0, i as int), seq![ivs[i as int]]);
                lemma_addrs_single(ivs[i as int]);
            }
            available = available + (e.bits - s.bits) as u128 + 1;
            i = i + 1;
        }
        proof {
            let rest = ivs.subrange(i as int, total as int);
            assert(ivs =~= ivs.subrange(0, i as int) + rest);
            lemma_addrs_concat(ivs.subrange(0, i as int), rest);
            if i == total {
                assert(addrs_of(rest).len() == 0);
            }
        }
        if available < n as u128 {
            return None;
        }
        // Bulk-consume from the head.
        let mut out: Vec<Ipv4Addr> = Vec::new();
        let mut consumed: usize = 0;
        let mut remaining: usize = n;
        assert(ivs.subrange(0, total as int) =~= ivs);
        assert(all.subrange(0, 0) =~= out@);
        assert(all.subrange(0, all.len() as int) =~= all);
        while remaining > 0
            invariant
                consumed <= total,
                total == self.intervals@.len(),
                self.wf(),
                ivs.len() == total,
                intervals_ok(ivs),
                self.start == before.start,
                self.end == before.end,
                remaining <= n <= all.len(),
                out@ == all.subrange(0, n - remaining),
                addrs_of(self.intervals@.subrange(consumed as int, total as int)) == all.subrange(
                    n - remaining,
                    all.len() as int,
                ),
            decreases remaining,
        {
            let ghost cur = self.intervals@.subrange(consumed as int, total as int);
            proof {
                if consumed == total {
                    assert(cur =~= seq![]);
                    assert(addrs_of(cur).len() == 0);
                }
            }
            let (s, e) = self.intervals[consumed];
            let ghost first = interval_addrs((s, e));
            let ghost rest = self.intervals@.subrange(consumed + 1, total as int);
            proof {
                assert(cur[0] == (s, e));
                assert(cur.subrange(1, cur.len() as int) =~= rest);
            }
            let span: u64 = (e.bits - s.bits) as u64 + 1;
            let count: usize = if span <= remaining as u64 {
                span as usize
            } else {
                remaining
            };
            let mut v: usize = 0;
            let ghost got = out@;
            while v < count
                invariant
                    v <= count,
                    count <= span,
                    span == e.bits - s.bits + 1,
                    s.bits <= e.bits,
                    first == interval_addrs((s, e)),
                    out@ == got + first.subrange(0, v as int),
                decreases count - v,
            {
                let x = Ipv4Addr { bits: s.bits + v as u32 };
                assert(first[v as int] == x);
                out.push(x);
                v = v + 1;
                assert(out@ =~= got + first.subrange(0, v as int));
            }
            proof {
                let done = n - remaining;
                assert(all.subrange(done, all.len() as int) == first + addrs_of(rest));
                assert(out@ =~= all.subrange(0, done + count)) by {
                    assert forall|m: int| 0 <= m < done + count implies #[trigger] out@[m]
                        == all[m] by {
                        if m >= done {
                            let k = m - done;
                            assert((first + addrs_of(rest))[k] == all.subrange(
                                done,
                                all.len() as int,
                            )[k]);
                        }
                    }
                }
            }
            if span <= remaining as u64 {
                proof {
                    let done = n - remaining;
                    assert(addrs_of(rest) =~= all.subrange(done + count, all.len() as int)) by {
                        let tail = all.subrange(done, all.len() as int);
                        assert(tail.subrange(count as int, tail.len() as int) =~= addrs_of(rest));
                    }
                }
                consumed = consumed + 1;
                remaining = remaining - count;
            } else {
                let moved = Ipv4Addr { bits: s.bits + remaining as u32 };
                self.intervals[consumed] = (moved, e);
                proof {
                    let done = n - remaining;
                    let now = self.intervals@.subrange(consumed as int, total as int);
                    assert(now.subrange(1, now.len() as int) =~= rest);
                    assert(now[0] == (moved, e));
                    assert(interval_addrs((moved, e)) =~= first.subrange(
                        count as int,
                        first.len() as int,
                    ));
                    let tail = all.subrange(done, all.len() as int);
                    assert(addrs_of(now) =~= tail.subrange(count as int, tail.len() as int));
                    assert(addrs_of(now) =~= all.subrange(done + count, all.len() as int));
                }
                remaining = 0;
            }
        }
        // One O(k) shift instead of one per emptied interval.
        let left = self.intervals.split_off(consumed);
        self.intervals = left;
        proof {
            assert(self.free() == all.subrange(n as int, all.len() as int));
            assert(intervals_ok(self.intervals@));
            assert forall|x: Ipv4Addr| #[trigger] self.is_free(x) == (before.is_free(x)
                && !out@.contains(x)) by {
                lemma_addrs_contains(ivs, x);
                lemma_addrs_contains(self.intervals@, x);
                lemma_taken(ivs, n as int, x);
            }
        }
        Some(out)
    }

    /// Take the lowest free address out of the pool; `None` if there is none.
    pub fn take_lowest(&mut self) -> (r: Option<Ipv4Addr>)
        requires
            old(self).wf(),
        ensures
            final(self).wf(),
            r == lowest(old(self)@.free),
            final(self)@ == match r {
                Some(ip) => old(self)@.reserved(ip),
                None => old(self)@,
            },
    {
        let ghost before = *self;
        proof {
            lemma_lowest(before);
        }
        match self.take(1) {
            Some(out) => {
                let ip: Ipv4Addr = out[0];
                assert(out@ =~= seq![ip]);
                assert forall|x: Ipv4Addr| #[trigger] out@.contains(x) <==> x == ip by {
                    if x == ip {
                        assert(out@[0] == ip);
                    }
                }
                assert(self@.free =~= before@.reserved(ip).free);
                Some(ip)
            },
            None => None,
        }
    }

    pub fn start(&self) -> (r: Ipv4Addr)
        ensures
            r == self.start,
    {
        self.start
    }

    pub fn end(&self) -> (r: Ipv4Addr)
        ensures
            r == self.end,
    {
        self.end
    }
}

/// The first free address of a pool is its lowest one.
proof fn lemma_lowest(p: AddressPool)
    requires
        p.wf(),
    ensures
        lowest(p@.free) == if p.free().len() == 0 {
            None
        } else {
            Some(p.free()[0])
        },
{
    let ivs = p.intervals@;
    if ivs.len() == 0 {
        assert(lowest(p@.free) is None) by {
            if exists|x: Ipv4Addr| is_lowest(p@.free, x) {
                let x = choose|x: Ipv4Addr| is_lowest(p@.free, x);
                assert(p.is_free(x));
            }
        }
    } else {
        let first = ivs[0].0;
        assert(interval_addrs(ivs[0])[0] == first);
        assert(p.free()[0] == first);
        assert(within(ivs[0], first.bits));
        assert(p.is_free(first));
        assert forall|y: Ipv4Addr| #[trigger] p@.free.contains(y) implies first.bits <= y.bits by {
            assert(p.is_free(y));
            let i = choose|i: int| 0 <= i < ivs.len() && within(#[trigger] ivs[i], y.bits);
            assert(ivs[0].0.bits <= ivs[i].0.bits);
        }
        assert(is_lowest(p@.free, first));
        let x = choose|x: Ipv4Addr| is_lowest(p@.free, x);
        assert(is_lowest(p@.free, x));
        assert(p@.free.contains(x) && p@.free.contains(first));
        assert(x.bits == first.bits);
    }
}

/// The addresses of a single interval.
proof fn lemma_addrs_single(iv: (Ipv4Addr, Ipv4Addr))
    ensures
        addrs_of(seq![iv]) == interval_addrs(iv),
{
    let one = seq![iv];
    assert(one.subrange(1, 1) =~= seq![]);
    assert(addrs_of(one.subrange(1, 1)) =~= seq![]);
    assert(addrs_of(one) =~= interval_addrs(iv));
}

/// Taking the first `n` of ascending addresses leaves those that are not among
/// them.
proof fn lemma_taken(ivs: Seq<(Ipv4Addr, Ipv4Addr)>, n: int, x: Ipv4Addr)
    requires
        intervals_ok(ivs),
        0 <= n <= addrs_of(ivs).len(),
    ensures
        ({
            let all = addrs_of(ivs);
            all.subrange(n, all.len() as int).contains(x) <==> all.contains(x) && !all.subrange(
                0,
                n,
            ).contains(x)
        }),
{
    let all = addrs_of(ivs);
    let head = all.subrange(0, n);
    let tail = all.subrange(n, all.len() as int);
    if tail.contains(x) {
        let j = choose|j: int| 0 <= j < tail.len() && tail[j] == x;
        assert(all[n + j] == x);
        if head.contains(x) {
            let i = choose|i: int| 0 <= i < head.len() && head[i] == x;
            assert(all[i] == x);
            lemma_addrs_ascending(ivs, i, n + j);
        }
    }
    if all.contains(x) && !head.contains(x) {
        let j = choose|j: int| 0 <= j < all.len() && all[j] == x;
        if j < n {
            assert(head[j] == x);
        } else {
            assert(tail[j - n] == x);
        }
    }
}

/// `x` lies in one of the intervals.
pub open spec fn held(ivs: Seq<(Ipv4Addr, Ipv4Addr)>, x: u32) -> bool {
    exists|i: int| 0 <= i < ivs.len() && within(#[trigger] ivs[i], x)
}

/// The intervals of a pool are determined by the addresses that are free: two
/// lists of separate, ascending intervals that hold the same addresses are the
/// same list.
pub proof fn law_intervals_are_canonical(
    a: Seq<(Ipv4Addr, Ipv4Addr)>,
    b: Seq<(Ipv4Addr, Ipv4Addr)>,
)
    requires
        intervals_ok(a),
        intervals_ok(b),
        forall|x: u32| #[trigger] held(a, x) == held(b, x),
    ensures
        a == b,
    decreases a.len(),
{
    if a.len() == 0 {
        if b.len() > 0 {
            assert(within(b[0], b[0].0.bits));
            assert(held(b, b[0].0.bits));
            assert(held(a, b[0].0.bits));
        }
        assert(a =~= b);
    } else if b.len() == 0 {
        assert(within(a[0], a[0].0.bits));
        assert(held(a, a[0].0.bits));
        assert(held(b, a[0].0.bits));
    } else {
        lemma_first_interval(a, b);
        lemma_first_interval(b, a);
        let ra = a.subrange(1, a.len() as int);
        let rb = b.subrange(1, b.len() as int);
        lemma_rest_ok(a);
        lemma_rest_ok(b);
        assert forall|x: u32| #[trigger] held(ra, x) == held(rb, x) by {
            lemma_rest_held(a, x);
            lemma_rest_held(b, x);
            assert(held(a, x) == held(b, x));
        }
        law_intervals_are_canonical(ra, rb);
        assert(a[0] == b[0]);
        assert(a =~= seq![a[0]] + ra);
        assert(b =~= seq![b[0]] + rb);
    }
}

/// The first interval of `a` starts and ends no later than that of `b`, which
/// holds the same addresses.
proof fn lemma_first_interval(a: Seq<(Ipv4Addr, Ipv4Addr)>, b: Seq<(Ipv4Addr, Ipv4Addr)>)
    requires
        intervals_ok(a),
        intervals_ok(b),
        a.len() > 0,
        b.len() > 0,
        forall|x: u32| #[trigger] held(a, x) == held(b, x),
    ensures
        a[0].0.bits <= b[0].0.bits,
        a[0].0.bits == b[0].0.bits ==> a[0].1.bits <= b[0].1.bits,
{
    assert(within(b[0], b[0].0.bits));
    assert(held(b, b[0].0.bits));
    assert(held(a, b[0].0.bits));
    let i = choose|i: int| 0 <= i < a.len() && within(#[trigger] a[i], b[0].0.bits);
    if i > 0 {
        assert(a[0].1.bits + 1 < a[i].0.bits);
    }
    if a[0].0.bits == b[0].0.bits && a[0].1.bits > b[0].1.bits {
        let y = (b[0].1.bits + 1) as u32;
        assert(within(a[0], y));
        assert(held(a, y));
        assert(held(b, y));
        let j = choose|j: int| 0 <= j < b.len() && within(#[trigger] b[j], y);
        if j > 0 {
            assert(b[0].1.bits + 1 < b[j].0.bits);
        }
    }
}

proof fn lemma_rest_ok(a: Seq<(Ipv4Addr, Ipv4Addr)>)
    requires
        intervals_ok(a),
        a.len() > 0,
    ensures
        intervals_ok(a.subrange(1, a.len() as int)),
{
    let r = a.subrange(1, a.len() as int);
    assert forall|i: int| 0 <= i < r.len() implies (#[trigger] r[i]).0.bits <= r[i].1.bits by {
        assert(r[i] == a[i + 1]);
    }
    assert forall|i: int, j: int| 0 <= i < j < r.len() implies (#[trigger] r[i]).1.bits + 1 < (
    #[trigger] r[j]).0.bits by {
        assert(r[i] == a[i + 1] && r[j] == a[j + 1]);
    }
}

proof fn lemma_rest_held(a: Seq<(Ipv4Addr, Ipv4Addr)>, x: u32)
    requires
        intervals_ok(a),
        a.len() > 0,
    ensures
        held(a.subrange(1, a.len() as int), x) == (held(a, x) && x > a[0].1.bits),
{
    let r = a.subrange(1, a.len() as int);
    if held(r, x) {
        let i = choose|i: int| 0 <= i < r.len() && within(#[trigger] r[i], x);
        assert(r[i] == a[i + 1]);
        assert(a[0].1.bits + 1 < a[i + 1].0.bits);
    }
    if held(a, x) && x > a[0].1.bits {
        let i = choose|i: int| 0 <= i < a.len() && within(#[trigger] a[i], x);
        assert(r[i - 1] == a[i]);
    }
}

/// Releasing an address that was reserved brings the pool back to what it was,
/// interval for interval; and an address once reserved stays out of the pool
/// until it is released.
pub proof fn law_release_undoes_reserve(
    before: AddressPool,
    reserved: AddressPool,
    after: AddressPool,
    ip: Ipv4Addr,
)
    requires
        before.wf(),
        after.wf(),
        before.is_free(ip),
        forall|x: Ipv4Addr| #[trigger] reserved.is_free(x) == (before.is_free(x) && x != ip),
        forall|x: Ipv4Addr| #[trigger] after.is_free(x) == (reserved.is_free(x) || x == ip),
    ensures
        !reserved.is_free(ip),
        after.intervals@ == before.intervals@,
{
    assert forall|x: u32| #[trigger] held(after.intervals@, x) == held(before.intervals@, x) by {
        let a = Ipv4Addr { bits: x };
        assert(after.is_free(a) == held(after.intervals@, x));
        assert(before.is_free(a) == held(before.intervals@, x));
        assert(reserved.is_free(a) == (before.is_free(a) && a != ip));
    }
    law_intervals_are_canonical(after.intervals@, before.intervals@);
}

impl Guarded for AddressPool {
    open spec fn guarded(self, origin: Self) -> bool {
        self.wf() && self.start == origin.start && self.end == origin.end
    }
}

/// A cloneable handle to an [`AddressPool`] shared across workers. Cloning
/// gives another handle to the same pool.
///
/// What a call finds in the pool is up to the other handles as well: the
/// contracts say what each call does with whatever it found. That is always a
/// pool between the bounds that the first handle was made with.
pub struct SharedAddressPool {
    inner: Arc<SpinLock<AddressPool>>,
    start: Ipv4Addr,
    end: Ipv4Addr,
}

impl Clone for SharedAddressPool {
    /// Another handle to the same pool.
    fn clone(&self) -> (r: Self)
        ensures
            r == *self,
    {
        proof {
            use_type_invariant(self);
        }
        SharedAddressPool { inner: self.inner.clone(), start: self.start, end: self.end }
    }
}

impl SharedAddressPool {
    /// The bounds at hand are those of the pool behind the lock.
    #[verifier::type_invariant]
    spec fn bounded(self) -> bool {
        self.start == self.inner.made_with().start && self.end == self.inner.made_with().end
    }

    /// The lower bound of the pool.
    pub closed spec fn spec_start(self) -> Ipv4Addr {
        self.start
    }

    /// The upper bound of the pool.
    pub closed spec fn spec_end(self) -> Ipv4Addr {
        self.end
    }

    /// A call on this handle can find the pool `p`.
    pub open spec fn may_find(self, p: PoolView) -> bool {
        p.wf() && p.start == self.spec_start() && p.end == self.spec_end()
    }

    /// A pool of all addresses from `start` to `end`, both included.
    pub fn new(start: Ipv4Addr, end: Ipv4Addr) -> (r: Self)
        requires
            start.bits <= end.bits,
        ensures
            r.spec_start() == start,
            r.spec_end() == end,
            r.may_find(
                (PoolView {
                    start,
                    end,
                    free: Set::new(|x: Ipv4Addr| start.bits <= x.bits <= end.bits),
                }),
            ),
    {
        SharedAddressPool {
            inner: Arc::new(SpinLock::new(AddressPool::new(start, end))),
            start,
            end,
        }
    }

    /// Take the `n` lowest free addresses out of the pool; `None` if there are
    /// not that many.
    pub fn take(&self, n: usize) -> (r: Option<Vec<Ipv4Addr>>)
        ensures
            r matches Some(out) ==> forall|i: int|
                0 <= i < out@.len() ==> self.spec_start().bits <= (#[trigger] out@[i]).bits
                    <= self.spec_end().bits,
            exists|before: AddressPool| #[trigger]
                before.wf() && self.may_find(before@) && match r {
                    None => before.free().len() < n,
                    Some(out) => n <= before.free().len() && out@ == before.free().subrange(
                        0,
                        n as int,
                    ),
                },
    {
        let mut guard = self.lock();
        let ghost before = guard.value();
        let r = guard.as_mut().take(n);
        proof {
            assert(before.wf() && self.may_find(before@));
            assert forall|i: int| 0 <= i < before.free().len() implies self.spec_start().bits <= (
            #[trigger] before.free()[i]).bits <= self.spec_end().bits by {
                before.lemma_free_is_within(i);
            }
        }
        guard.unlock();
        r
    }

    /// Put an address back into the pool.
    pub fn release(&self, ip: Ipv4Addr)
        requires
            self.spec_start().bits <= ip.bits <= self.spec_end().bits,
    {
        let mut guard = self.lock();
        guard.as_mut().release(ip);
        guard.unlock();
    }

    /// Take `ip` out of the pool: `Some(ip)` if it was free.
    pub fn reserve(&self, ip: Ipv4Addr) -> (r: Option<Ipv4Addr>)
        ensures
            exists|before: PoolView| #[trigger]
                self.may_find(before) && r == if before.free.contains(ip) {
                    Some(ip)
                } else {
                    None
                },
    {
        let mut guard = self.lock();
        assert(self.may_find(guard.value()@));
        let r = guard.as_mut().reserve(ip);
        guard.unlock();
        r
    }

    pub fn start(&self) -> (r: Ipv4Addr)
        ensures
            r == self.spec_start(),
    {
        self.start
    }

    pub fn end(&self) -> (r: Ipv4Addr)
        ensures
            r == self.spec_end(),
    {
        self.end
    }

    /// The pool behind this handle, held until the guard is given back.
    pub(crate) fn lock(&self) -> (r: Guard<'_, AddressPool>)
        ensures
            r.value().wf(),
            self.may_find(r.value()@),
            r.made_with().start == self.spec_start(),
            r.made_with().end == self.spec_end(),
    {
        proof {
            use_type_invariant(self);
        }
        let guard = self.inner.lock();
        proof {
            guard.value().lemma_view_wf();
        }
        guard
    }
}

} // verus!
