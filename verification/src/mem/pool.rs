//! An object pool for fixed-size items, filled before the data plane starts.
//!
//! [`ObjectPool::allocate`] hands back an [`Obj`] handle that stands for one
//! slot until it is released or its value is moved out. Allocation and release
//! are O(1): a free-list pop/push, never a scan.
//!
//! Any number of handles can be live at once, and distinct handles always
//! address distinct slots. The pool is single-threaded (e.g. per-lcore).

use crate::sync::bitmask::Bitmask;
use vstd::prelude::*;

verus! {

/// A fixed number of slots for values of type `T`.
pub struct ObjectPool<T> {
    /// Backing storage; a slot that is not allocated is empty.
    slots: Vec<Option<T>>,
    /// Bit set => slot currently allocated. The list is what makes allocation
    /// fast.
    used: Bitmask,
    /// Stack of free indices: allocation pops, release pushes. Seeded in
    /// reverse so a fresh pool hands out ascending indices.
    list: Vec<usize>,
}

/// A handle to one allocated slot of an [`ObjectPool`]. It is given back with
/// [`ObjectPool::release`] or [`Obj::into_inner`]: a handle that is merely
/// dropped leaves its slot in use until the pool itself is dropped.
#[must_use]
pub struct Obj {
    index: usize,
}

impl Obj {
    /// The slot index backing this handle.
    pub closed spec fn spec_index(self) -> usize {
        self.index
    }

    /// The slot index backing this handle.
    pub fn index(&self) -> (r: usize)
        ensures
            r == self.spec_index(),
    {
        self.index
    }

    /// The value in the slot.
    pub fn as_ref<'a, T>(&self, pool: &'a ObjectPool<T>) -> (r: &'a T)
        requires
            pool.wf(),
            pool@.dom().contains(self.spec_index()),
        ensures
            *r == pool@[self.spec_index()],
    {
        pool.slots[self.index].as_ref().unwrap()
    }

    /// The value in the slot, for changes in place.
    pub fn as_mut<'a, T>(&self, pool: &'a mut ObjectPool<T>) -> (r: &'a mut T)
        requires
            old(pool).wf(),
            old(pool)@.dom().contains(self.spec_index()),
        ensures
            *r == old(pool)@[self.spec_index()],
            final(pool).wf(),
            final(pool)@ == old(pool)@.insert(self.spec_index(), *final(r)),
            final(pool).free() == old(pool).free(),
            final(pool).spec_capacity() == old(pool).spec_capacity(),
    {
        pool.slots[self.index].as_mut().unwrap()
    }

    /// Move the value out, freeing the slot.
    pub fn into_inner<T>(self, pool: &mut ObjectPool<T>) -> (r: T)
        requires
            old(pool).wf(),
            old(pool)@.dom().contains(self.spec_index()),
        ensures
            r == old(pool)@[self.spec_index()],
            final(pool).wf(),
            final(pool)@ == old(pool)@.remove(self.spec_index()),
            final(pool).free() == old(pool).free().push(self.spec_index()),
            final(pool).spec_capacity() == old(pool).spec_capacity(),
    {
        let value = pool.slots[self.index].take();
        pool.used.clear(self.index);
        pool.list.push(self.index);
        proof {
            assert(pool@ =~= old(pool)@.remove(self.index));
            pool.lemma_release(*old(pool), self.index);
        }
        value.unwrap()
    }
}

impl<T> View for ObjectPool<T> {
    /// The values of the allocated slots, by slot index.
    type V = Map<usize, T>;

    closed spec fn view(&self) -> Map<usize, T> {
        Map::new(
            |i: usize| i < self.slots@.len() && self.slots@[i as int] is Some,
            |i: usize| self.slots@[i as int]->0,
        )
    }
}

impl<T> ObjectPool<T> {
    /// The free slots, in the order in which they were freed: the last one is
    /// handed out next.
    pub closed spec fn free(self) -> Seq<usize> {
        self.list@
    }

    /// Total number of slots.
    pub closed spec fn spec_capacity(self) -> nat {
        self.slots@.len()
    }

    /// Every slot is either allocated, which its flag says and its contents
    /// show, or on the free list once.
    pub closed spec fn wf(self) -> bool {
        &&& self.used.wf()
        &&& self.used@.len() == self.slots@.len()
        &&& forall|i: int| #![trigger self.list@[i]]
            0 <= i < self.list@.len() ==> self.list@[i] < self.slots@.len()
                && !self.used@[self.list@[i] as int]
        &&& forall|i: int, j: int|
            0 <= i < j < self.list@.len() ==> #[trigger] self.list@[i] != #[trigger] self.list@[j]
        &&& forall|i: int|
            0 <= i < self.slots@.len() ==> #[trigger] self.used@[i] == self.slots@[i] is Some
        &&& forall|i: int|
            0 <= i < self.slots@.len() && !#[trigger] self.used@[i] ==> self.list@.contains(
                i as usize,
            )
    }

    proof fn lemma_release(self, before: Self, index: usize)
        requires
            before.wf(),
            before@.dom().contains(index),
            self.used.wf(),
            self.used@ == before.used@.update(index as int, false),
            self.list@ == before.list@.push(index),
            self.slots@ == before.slots@.update(index as int, None),
        ensures
            self.wf(),
    {
        assert forall|i: int| 0 <= i < self.slots@.len() && !#[trigger] self.used@[i] implies
            self.list@.contains(i as usize) by {
            if i == index {
                assert(self.list@[before.list@.len() as int] == index);
            } else {
                assert(!before.used@[i]);
                let j = choose|j: int|
                    0 <= j < before.list@.len() && before.list@[j] == i as usize;
                assert(self.list@[j] == i as usize);
            }
        }
        assert(before.used@[index as int]);
    }

    /// Every slot is in use or free, and never both: the two add up to the
    /// capacity, and all indices lie below it.
    pub proof fn law_slots_add_up(self)
        requires
            self.wf(),
        ensures
            self@.dom().finite(),
            self.free().len() + self@.len() == self.spec_capacity(),
            forall|i: usize| #[trigger] self@.dom().contains(i) ==> i < self.spec_capacity(),
            forall|i: usize| #[trigger] self.free().contains(i) ==> i < self.spec_capacity(),
            forall|i: usize|
                i < self.spec_capacity() ==> (#[trigger] self.free().contains(i)
                    <==> !self@.dom().contains(i)),
            self.free().no_duplicates(),
    {
        let n = self.slots.len();
        let free = self.free().to_set();
        let used = self@.dom();
        assert forall|i: usize| i < self.spec_capacity() implies (#[trigger] self.free().contains(i)
            <==> !used.contains(i)) by {
            assert(self.used@[i as int] == self.slots@[i as int] is Some);
        }
        lemma_indices(n);
        assert(free.union(used) =~= indices(n));
        vstd::set_lib::lemma_set_subset_finite(indices(n), used);
        self.free().unique_seq_to_set();
        vstd::set_lib::lemma_set_disjoint_lens(free, used);
    }

    /// A pool of `capacity` free slots.
    pub fn new(capacity: usize) -> (r: Self)
        ensures
            r.wf(),
            r@ == Map::<usize, T>::empty(),
            r.spec_capacity() == capacity,
            r.free() == Seq::new(capacity as nat, |i: int| (capacity - 1 - i) as usize),
    {
        let mut slots: Vec<Option<T>> = Vec::new();
        let mut list: Vec<usize> = Vec::new();
        let mut i: usize = 0;
        while i < capacity
            invariant
                i <= capacity,
                slots@.len() == i,
                list@.len() == i,
                forall|j: int| 0 <= j < i ==> slots@[j] is None,
                forall|j: int| 0 <= j < i ==> list@[j] == capacity - 1 - j,
            decreases capacity - i,
        {
            slots.push(None);
            list.push(capacity - 1 - i);
            i = i + 1;
        }
        let r = ObjectPool { slots, used: Bitmask::new(capacity), list };
        proof {
            assert(r@ =~= Map::<usize, T>::empty());
            assert(r.free() =~= Seq::new(capacity as nat, |i: int| (capacity - 1 - i) as usize));
            assert forall|i: int| 0 <= i < r.slots@.len() && !#[trigger] r.used@[i] implies
                r.list@.contains(i as usize) by {
                assert(r.list@[capacity - 1 - i] == i as usize);
            }
        }
        r
    }

    /// Total number of slots.
    pub fn capacity(&self) -> (r: usize)
        ensures
            r == self.spec_capacity(),
    {
        self.slots.len()
    }

    /// Number of slots currently free.
    pub fn available(&self) -> (r: usize)
        ensures
            r == self.free().len(),
    {
        self.list.len()
    }

    /// Claim a free slot, move `value` into it, and return a handle.
    ///
    /// O(1): pops one index off the free-list, however full the pool is.
    /// Returns `None` when exhausted.
    pub fn allocate(&mut self, value: T) -> (r: Option<Obj>)
        requires
            old(self).wf(),
        ensures
            final(self).wf(),
            final(self).spec_capacity() == old(self).spec_capacity(),
            match r {
                None => {
                    &&& old(self).free().len() == 0
                    &&& final(self).free() == old(self).free()
                    &&& final(self)@ == old(self)@
                },
                Some(obj) => {
                    &&& old(self).free().len() > 0
                    &&& obj.spec_index() == old(self).free().last()
                    &&& !old(self)@.dom().contains(obj.spec_index())
                    &&& final(self).free() == old(self).free().drop_last()
                    &&& final(self)@ == old(self)@.insert(obj.spec_index(), value)
                },
            },
    {
        let index: usize = match self.list.pop() {
            Some(index) => index,
            None => {
                assert(self.list@ =~= old(self).list@);
                return None;
            },
        };
        proof {
            assert(old(self).list@[old(self).list@.len() - 1] == index);
        }
        self.used.set(index);
        self.slots[index] = Some(value);
        proof {
            assert(self@ =~= old(self)@.insert(index, value));
            assert forall|i: int| 0 <= i < self.slots@.len() && !#[trigger] self.used@[i] implies
                self.list@.contains(i as usize) by {
                assert(self.slots.len() == self.slots@.len());
                assert(i != index);
                assert(!old(self).used@[i]);
                let j = choose|j: int|
                    0 <= j < old(self).list@.len() && old(self).list@[j] == i as usize;
                assert(self.list@[j] == i as usize);
            }
            assert forall|i: int| #![trigger self.list@[i]]
                0 <= i < self.list@.len() implies self.list@[i] < self.slots@.len()
                && !self.used@[self.list@[i] as int] by {
                assert(self.list@[i] == old(self).list@[i]);
                assert(old(self).list@[i] != old(self).list@[old(self).list@.len() - 1]);
            }
            assert forall|i: int, j: int| 0 <= i < j < self.list@.len() implies
                #[trigger] self.list@[i] != #[trigger] self.list@[j] by {
                assert(old(self).list@[i] != old(self).list@[j]);
            }
        }
        Some(Obj { index })
    }

    /// Return a handle's slot to the free list, dropping its value.
    pub fn release(&mut self, obj: Obj)
        requires
            old(self).wf(),
            old(self)@.dom().contains(obj.spec_index()),
        ensures
            final(self).wf(),
            final(self)@ == old(self)@.remove(obj.spec_index()),
            final(self).free() == old(self).free().push(obj.spec_index()),
            final(self).spec_capacity() == old(self).spec_capacity(),
    {
        let _ = obj.into_inner(self);
    }
}

/// The indices below `n`.
spec fn indices(n: usize) -> Set<usize> {
    Set::new(|i: usize| i < n)
}

proof fn lemma_indices(n: usize)
    ensures
        indices(n).finite(),
        indices(n).len() == n,
    decreases n,
{
    if n == 0 {
        assert(indices(n) =~= Set::empty());
    } else {
        let m = (n - 1) as usize;
        lemma_indices(m);
        assert(indices(n) =~= indices(m).insert(m));
    }
}

/// A slot that is freed is the next one handed out, and taking it again and
/// freeing it leaves the pool as it was.
pub proof fn law_freed_slot_is_reused<T>(
    before: ObjectPool<T>,
    freed: ObjectPool<T>,
    again: ObjectPool<T>,
    obj: Obj,
    next: Obj,
    value: T,
)
    requires
        before.wf(),
        before@.dom().contains(obj.spec_index()),
        freed@ == before@.remove(obj.spec_index()),
        freed.free() == before.free().push(obj.spec_index()),
        next.spec_index() == freed.free().last(),
        again.free() == freed.free().drop_last(),
        again@ == freed@.insert(next.spec_index(), value),
    ensures
        next.spec_index() == obj.spec_index(),
        again.free() == before.free(),
        again@ == before@.insert(obj.spec_index(), value),
{
    assert(again.free() =~= before.free());
    assert(again@ =~= before@.insert(obj.spec_index(), value));
}

} // verus!
