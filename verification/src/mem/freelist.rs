//! A free-list allocator for dynamic memory, intended to circumvent `malloc`
//! calls that would interrupt data-plane threads.
//!
//! [`FreeList`] is the algorithm: a fixed region carved on demand into
//! variable-size blocks. Free blocks are linked through an intrusive
//! `{ size, next }` header stored in their own words (address-sorted), so
//! allocation is first-fit with splitting and freeing coalesces neighbours.
//! There is no side table: all metadata lives inside free space.
//!
//! Every free-list offset is a multiple of [`ALIGN`] and lies within the
//! region, and every block is at least [`MIN_BLOCK`] bytes, large enough to
//! hold a header once freed.

use vstd::arithmetic::power2;
use vstd::prelude::*;

verus! {

/// Alignment of every block and free-list node (a free node is two 64-bit
/// words).
pub const ALIGN: u64 = 8;

/// Smallest block we ever hand out or leave behind: a freed block must be able
/// to hold its header, so smaller splits are never created.
pub const MIN_BLOCK: u64 = 16;

/// Sentinel offset meaning "no next free block".
pub const NIL: u64 = u64::MAX;

/// The smallest multiple of `align` that is not below `value`.
pub open spec fn align_up(value: int, align: int) -> int {
    if value % align == 0 {
        value
    } else {
        value + (align - value % align)
    }
}

/// What [`align_up`] is.
pub proof fn lemma_align_up(value: int, align: int)
    requires
        0 <= value,
        0 < align,
    ensures
        align_up(value, align) % align == 0,
        value <= align_up(value, align) < value + align,
{
    if value % align != 0 {
        let q = value / align;
        vstd::arithmetic::div_mod::lemma_fundamental_div_mod(value, align);
        assert(align_up(value, align) == align * (q + 1)) by {
            assert(align * (q + 1) == align * q + align) by (nonlinear_arith);
        }
        vstd::arithmetic::div_mod::lemma_mod_multiples_basic(q + 1, align);
        assert(align * (q + 1) == (q + 1) * align) by (nonlinear_arith);
    }
}

/// The smallest multiple of `align` that is not below `value`, or `None` if it
/// exceeds 64 bits.
fn checked_align_up(value: u64, align: u64) -> (r: Option<u64>)
    requires
        0 < align,
    ensures
        r == if align_up(value as int, align as int) <= u64::MAX {
            Some(align_up(value as int, align as int) as u64)
        } else {
            None
        },
{
    let rem: u64 = value % align;
    if rem == 0 {
        Some(value)
    } else {
        value.checked_add(align - rem)
    }
}

/// Size and alignment of a requested block.
#[derive(Clone, Copy, PartialEq, Eq, Structural, Debug)]
pub struct Layout {
    size: usize,
    align: usize,
}

/// True of the powers of two.
pub open spec fn is_power_of_two(n: int) -> bool {
    exists|k: nat| n == #[trigger] power2::pow2(k)
}

impl Layout {
    /// The requested size in bytes.
    pub closed spec fn spec_size(self) -> nat {
        self.size as nat
    }

    /// The requested alignment in bytes.
    pub closed spec fn spec_align(self) -> nat {
        self.align as nat
    }

    #[verifier::type_invariant]
    spec fn valid(self) -> bool {
        &&& is_power_of_two(self.align as int)
        &&& self.size <= isize::MAX
    }

    /// A layout of `size` bytes aligned to `align`; `None` unless `align` is a
    /// power of two and `size`, rounded up to it, does not exceed the largest
    /// signed size.
    pub fn from_size_align(size: usize, align: usize) -> (r: Option<Self>)
        ensures
            r is Some <==> is_power_of_two(align as int) && align_up(size as int, align as int)
                <= isize::MAX,
            r matches Some(l) ==> l.spec_size() == size && l.spec_align() == align,
    {
        if align == 0 {
            proof {
                assert forall|k: nat| #[trigger] power2::pow2(k) != 0 by {
                    power2::lemma_pow2_pos(k);
                }
            }
            return None;
        }
        let mut p: usize = 1;
        let ghost mut k: nat = 0;
        proof {
            power2::lemma2_to64();
        }
        while p < align
            invariant
                p == power2::pow2(k),
                0 < p,
                forall|j: nat| j < k ==> #[trigger] power2::pow2(j) < align,
            decreases 2 * align - p,
        {
            proof {
                power2::lemma_pow2_unfold(k + 1);
            }
            if p > usize::MAX / 2 {
                proof {
                    assert forall|j: nat| align != #[trigger] power2::pow2(j) by {
                        if j > k {
                            power2::lemma_pow2_strictly_increases(k, j);
                            if j > k + 1 {
                                power2::lemma_pow2_strictly_increases(k + 1, j);
                            }
                        }
                    }
                }
                return None;
            }
            proof {
                assert forall|j: nat| j < k + 1 implies #[trigger] power2::pow2(j) < align by {}
                k = k + 1;
            }
            p = p * 2;
        }
        if p != align {
            proof {
                assert forall|j: nat| align != #[trigger] power2::pow2(j) by {
                    if j > k {
                        power2::lemma_pow2_strictly_increases(k, j);
                    }
                }
            }
            return None;
        }
        let max: u64 = isize::MAX as u64;
        proof {
            lemma_align_up(size as int, align as int);
        }
        match checked_align_up(size as u64, align as u64) {
            Some(total) => if total <= max {
                Some(Layout { size, align })
            } else {
                None
            },
            None => None,
        }
    }

    pub fn size(&self) -> (r: usize)
        ensures
            r == self.spec_size(),
            r <= isize::MAX,
    {
        proof {
            use_type_invariant(self);
        }
        self.size
    }

    pub fn align(&self) -> (r: usize)
        ensures
            r == self.spec_align(),
            is_power_of_two(r as int),
    {
        proof {
            use_type_invariant(self);
        }
        self.align
    }

    /// The size a request occupies once normalised: at least [`MIN_BLOCK`],
    /// rounded up to [`ALIGN`].
    pub open spec fn block_size(self) -> int {
        align_up(
            if self.spec_size() < MIN_BLOCK {
                MIN_BLOCK as int
            } else {
                self.spec_size() as int
            },
            ALIGN as int,
        )
    }

    /// The alignment a request gets: at least [`ALIGN`].
    pub open spec fn block_align(self) -> int {
        if self.spec_align() < ALIGN {
            ALIGN as int
        } else {
            self.spec_align() as int
        }
    }
}

/// An alignment of at least eight is a multiple of eight.
proof fn lemma_block_align(align: int)
    requires
        is_power_of_two(align),
        8 <= align,
    ensures
        align % 8 == 0,
{
    let k = choose|k: nat| align == power2::pow2(k);
    power2::lemma2_to64();
    if k < 3 {
        power2::lemma_pow2_strictly_increases(k, 3);
    } else {
        power2::lemma_pow2_adds(3, (k - 3) as nat);
        let m = power2::pow2((k - 3) as nat) as int;
        assert(align == 8 * m);
    }
}

/// A run of free bytes, by its offset in the region.
pub struct Hole {
    pub off: int,
    pub size: int,
}

/// Where a block of `need` bytes aligned to `align` goes in a hole of the region
/// at address `base`, if it fits: at the first aligned address that leaves in
/// front of it either nothing or a usable block, provided that what is left
/// behind it is also nothing or a usable block.
pub open spec fn place(base: int, hole: Hole, need: int, align: int) -> Option<int> {
    let first = align_up(base + hole.off, align) - base;
    let at = if first != hole.off && first - hole.off < MIN_BLOCK {
        align_up(base + hole.off + MIN_BLOCK, align) - base
    } else {
        first
    };
    let back = hole.off + hole.size - (at + need);
    if back == 0 || back >= MIN_BLOCK {
        Some(at)
    } else {
        None
    }
}

/// What is left of `hole` when the block `[at, at + need)` is taken out of it.
pub open spec fn remnants(hole: Hole, at: int, need: int) -> Seq<Hole> {
    let front = if at == hole.off {
        seq![]
    } else {
        seq![Hole { off: hole.off, size: at - hole.off }]
    };
    let end = hole.off + hole.size;
    if at + need == end {
        front
    } else {
        front.push(Hole { off: at + need, size: end - (at + need) })
    }
}

/// The holes after the block `[at, at + need)` is taken out of hole `i`.
#[verifier::opaque]
pub open spec fn carve(holes: Seq<Hole>, i: int, at: int, need: int) -> Seq<Hole> {
    holes.subrange(0, i) + remnants(holes[i], at, need) + holes.subrange(
        i + 1,
        holes.len() as int,
    )
}

/// The holes after `[off, off + size)`, which lies before hole `k` and after
/// the ones before it, becomes free: merged with the hole that ends where it
/// starts and with the one that starts where it ends.
#[verifier::opaque]
pub open spec fn fill(holes: Seq<Hole>, k: int, off: int, size: int) -> Seq<Hole> {
    let left = k > 0 && holes[k - 1].off + holes[k - 1].size == off;
    let right = k < holes.len() && off + size == holes[k].off;
    let start = if left {
        holes[k - 1].off
    } else {
        off
    };
    let end = if right {
        holes[k].off + holes[k].size
    } else {
        off + size
    };
    holes.subrange(
        0,
        if left {
            k - 1
        } else {
            k
        },
    ).push(Hole { off: start, size: end - start }) + holes.subrange(
        if right {
            k + 1
        } else {
            k
        },
        holes.len() as int,
    )
}

/// Number of free bytes.
pub open spec fn hole_bytes(holes: Seq<Hole>) -> int
    decreases holes.len(),
{
    if holes.len() == 0 {
        0
    } else {
        hole_bytes(holes.drop_last()) + holes.last().size
    }
}

/// A hole of a region of `size` bytes: aligned, large enough for a header, and
/// within the region.
pub open spec fn hole_ok(hole: Hole, size: int) -> bool {
    &&& 0 <= hole.off
    &&& hole.off % 8 == 0
    &&& hole.size % 8 == 0
    &&& MIN_BLOCK <= hole.size
    &&& hole.off + hole.size <= size
}

/// Holes in address order, each separated from the next by something that is
/// not free.
pub open spec fn holes_ok(holes: Seq<Hole>, size: int) -> bool {
    &&& forall|i: int| 0 <= i < holes.len() ==> hole_ok(#[trigger] holes[i], size)
    &&& forall|i: int, j: int|
        0 <= i < j < holes.len() ==> (#[trigger] holes[i]).off + holes[i].size < (
        #[trigger] holes[j]).off
}

/// The offset that the header of hole `i` names as the next one.
pub open spec fn next_of(holes: Seq<Hole>, i: int) -> u64 {
    if i + 1 < holes.len() {
        holes[i + 1].off as u64
    } else {
        NIL
    }
}

/// The words of the region hold the header of every hole.
pub open spec fn linked(mem: Seq<u64>, holes: Seq<Hole>) -> bool {
    forall|i: int|
        #![trigger holes[i]]
        0 <= i < holes.len() ==> {
            &&& mem[holes[i].off / 8] == holes[i].size
            &&& mem[holes[i].off / 8 + 1] == next_of(holes, i)
        }
}

/// Blocks that are handed out, by offset: aligned, within the region, apart
/// from each other and from every hole.
pub open spec fn live_ok(live: Map<int, int>, holes: Seq<Hole>, size: int) -> bool {
    &&& forall|o: int|
        #[trigger] live.dom().contains(o) ==> {
            &&& hole_ok(Hole { off: o, size: live[o] }, size)
        }
    &&& forall|o: int, p: int|
        #![trigger live.dom().contains(o), live.dom().contains(p)]
        live.dom().contains(o) && live.dom().contains(p) && o < p ==> o + live[o] <= p
    &&& forall|o: int, i: int|
        #![trigger live.dom().contains(o), holes[i]]
        live.dom().contains(o) && 0 <= i < holes.len() ==> o + live[o] <= holes[i].off
            || holes[i].off + holes[i].size <= o
}

/// Byte `x` of the region is free.
pub open spec fn in_hole(holes: Seq<Hole>, x: int) -> bool {
    exists|i: int|
        #![trigger holes[i]]
        0 <= i < holes.len() && holes[i].off <= x < holes[i].off + holes[i].size
}

/// Byte `x` of the region belongs to a block that is handed out.
pub open spec fn in_live(live: Map<int, int>, x: int) -> bool {
    exists|o: int| #[trigger] live.dom().contains(o) && o <= x < o + live[o]
}

/// Every byte of the region is free or belongs to a block that is handed out:
/// none is lost.
#[verifier::opaque]
pub open spec fn covered(holes: Seq<Hole>, live: Map<int, int>, size: int) -> bool {
    forall|x: int| 0 <= x < size ==> #[trigger] in_hole(holes, x) || in_live(live, x)
}

/// A first-fit free-list allocator over a single contiguous region of words.
pub struct FreeList<'a> {
    /// Address of the first byte of the region.
    pub base: u64,
    /// Size of the region in bytes.
    pub size: u64,
    /// Offset of the first free block, or [`NIL`] when full.
    pub head: u64,
    /// The words of the region.
    pub mem: &'a mut [u64],
    /// The free blocks, in list order.
    pub holes: Ghost<Seq<Hole>>,
    /// The blocks handed out, by offset.
    pub live: Ghost<Map<int, int>>,
}

impl<'a> FreeList<'a> {
    /// The invariant of the list.
    pub open spec fn wf(self) -> bool {
        &&& self.base % 8 == 0
        &&& self.size % 8 == 0
        &&& self.base + self.size <= u64::MAX
        &&& self.size <= 8 * self.mem@.len()
        &&& holes_ok(self.holes@, self.size as int)
        &&& self.head == if self.holes@.len() == 0 {
            NIL
        } else {
            self.holes@[0].off as u64
        }
        &&& linked(self.mem@, self.holes@)
        &&& live_ok(self.live@, self.holes@, self.size as int)
        &&& covered(self.holes@, self.live@, self.size as int)
    }

    /// `self` manages the region that `other` manages.
    pub open spec fn same_region(self, other: Self) -> bool {
        &&& self.base == other.base
        &&& self.size == other.size
        &&& self.mem@.len() == other.mem@.len()
    }

    /// Word `w` of the region belongs to no hole of `holes`.
    pub open spec fn outside_holes(holes: Seq<Hole>, w: int) -> bool {
        forall|i: int|
            #![trigger holes[i]]
            0 <= i < holes.len() ==> 8 * w + 8 <= holes[i].off || holes[i].off + holes[i].size <= 8
                * w
    }

    fn entry_size(&self, off: u64) -> (r: u64)
        requires
            off / 8 + 1 < self.mem@.len(),
        ensures
            r == old(self.mem)@[off as int / 8],
    {
        assert(self.mem.len() == self.mem@.len());
        self.mem[(off / 8) as usize]
    }

    fn entry_next(&self, off: u64) -> (r: u64)
        requires
            off / 8 + 1 < self.mem@.len(),
        ensures
            r == old(self.mem)@[off as int / 8 + 1],
    {
        assert(self.mem.len() == self.mem@.len());
        self.mem[(off / 8) as usize + 1]
    }

    fn set_size(&mut self, off: u64, size: u64)
        requires
            off / 8 + 1 < old(self).mem@.len(),
        ensures
            final(self).mem@ == old(self).mem@.update(off as int / 8, size),
            final(self).same_region(*old(self)),
            final(final(self).mem)@ == final(old(self).mem)@,
            final(self).head == old(self).head,
            final(self).holes == old(self).holes,
            final(self).live == old(self).live,
    {
        assert(self.mem.len() == self.mem@.len());
        self.mem[(off / 8) as usize] = size;
    }

    fn set_next(&mut self, off: u64, next: u64)
        requires
            off / 8 + 1 < old(self).mem@.len(),
        ensures
            final(self).mem@ == old(self).mem@.update(off as int / 8 + 1, next),
            final(self).same_region(*old(self)),
            final(final(self).mem)@ == final(old(self).mem)@,
            final(self).head == old(self).head,
            final(self).holes == old(self).holes,
            final(self).live == old(self).live,
    {
        assert(self.mem.len() == self.mem@.len());
        self.mem[(off / 8) as usize + 1] = next;
    }

    fn write_entry(&mut self, off: u64, size: u64, next: u64)
        requires
            off / 8 + 1 < old(self).mem@.len(),
        ensures
            final(self).mem@ == old(self).mem@.update(off as int / 8, size).update(
                off as int / 8 + 1,
                next,
            ),
            final(self).same_region(*old(self)),
            final(final(self).mem)@ == final(old(self).mem)@,
            final(self).head == old(self).head,
            final(self).holes == old(self).holes,
            final(self).live == old(self).live,
    {
        self.set_size(off, size);
        self.set_next(off, next);
    }

    /// Take the region of `size` bytes at address `base` as the backing region,
    /// with `mem` for its words. The region is aligned/trimmed internally.
    pub fn new(base: u64, size: usize, mem: &'a mut [u64]) -> (r: Self)
        requires
            base + size <= u64::MAX,
            align_up(base as int, 8) - base + MIN_BLOCK <= size,
            (size - (align_up(base as int, 8) - base)) / 8 <= old(mem)@.len(),
        ensures
            r.wf(),
            r.base == align_up(base as int, 8),
            r.size == (size - (align_up(base as int, 8) - base)) / 8 * 8,
            r.holes@ == seq![Hole { off: 0, size: r.size as int }],
            r.live@ == Map::<int, int>::empty(),
            final(r.mem)@ == final(mem)@,
    {
        let rem: u64 = base % ALIGN;
        let pad: u64 = if rem == 0 {
            0
        } else {
            ALIGN - rem
        };
        let usable: u64 = (size as u64 - pad) / ALIGN * ALIGN;
        let ghost whole = seq![Hole { off: 0, size: usable as int }];
        let mut list = FreeList {
            base: base + pad,
            size: usable,
            head: 0,
            mem,
            holes: Ghost(whole),
            live: Ghost(Map::<int, int>::empty()),
        };
        // One big free block spanning the whole region.
        list.write_entry(0, usable, NIL);
        proof {
            reveal(covered);
            assert forall|x: int| 0 <= x < usable implies #[trigger] in_hole(whole, x) by {
                assert(whole[0].off <= x);
            }
        }
        list
    }
}

/// Where in the list a block can be taken: the first hole that it fits in, the
/// hole before that one (or [`NIL`]), and the offset at which the block goes.
struct Fit {
    prev: u64,
    cur: u64,
    at: u64,
    index: Ghost<int>,
}

/// Hole `i` is the first one of `holes` that a block of `need` bytes aligned to
/// `align` fits in.
pub open spec fn first_fit(base: int, holes: Seq<Hole>, i: int, need: int, align: int) -> bool {
    &&& 0 <= i < holes.len()
    &&& place(base, holes[i], need, align) is Some
    &&& forall|j: int| 0 <= j < i ==> place(base, #[trigger] holes[j], need, align) is None
}

/// Where a block of `need` bytes aligned to `align` goes in the hole of
/// `hole_size` bytes at offset `cur`.
fn place_in(base: u64, cur: u64, hole_size: u64, need: u64, align: u64) -> (r: Option<u64>)
    requires
        0 < align,
        0 < need,
        MIN_BLOCK <= hole_size,
        base + cur + hole_size <= u64::MAX,
    ensures
        match place(
            base as int,
            (Hole { off: cur as int, size: hole_size as int }),
            need as int,
            align as int,
        ) {
            Some(at) => r == Some(at as u64) && at == at as u64,
            None => r is None,
        },
        r matches Some(at) ==> {
            &&& cur <= at
            &&& at + need <= cur + hole_size
            &&& (base + at) % align as int == 0
            &&& at == cur || at - cur >= MIN_BLOCK
            &&& at + need == cur + hole_size || cur + hole_size - (at + need) >= MIN_BLOCK
        },
{
    proof {
        lemma_align_up(base + cur, align as int);
        lemma_align_up(base + cur + MIN_BLOCK, align as int);
    }
    let hole_end: u64 = cur + hole_size;
    // Align the absolute address, not just the offset.
    let mut aligned: u64 = match checked_align_up(base + cur, align) {
        Some(a) => a - base,
        None => {
            return None;
        },
    };
    let front: u64 = aligned - cur;
    // Front padding must be 0 or a usable block; otherwise push the start to
    // the next alignment that leaves a full block in front.
    if front != 0 && front < MIN_BLOCK {
        aligned = match checked_align_up(base + cur + MIN_BLOCK, align) {
            Some(a) => a - base,
            None => {
                return None;
            },
        };
    }
    match aligned.checked_add(need) {
        Some(alloc_end) => if alloc_end <= hole_end {
            let back: u64 = hole_end - alloc_end;
            // Reject holes that would leave an unusable back sliver.
            if back == 0 || back >= MIN_BLOCK {
                Some(aligned)
            } else {
                None
            }
        } else {
            None
        },
        None => None,
    }
}

/// The holes after a block is taken out of hole `i`, one by one.
proof fn lemma_carve_index(holes: Seq<Hole>, i: int, at: int, need: int)
    requires
        0 <= i < holes.len(),
    ensures
        ({
            let new = carve(holes, i, at, need);
            let mid = remnants(holes[i], at, need);
            &&& new.len() == holes.len() - 1 + mid.len()
            &&& forall|a: int| #![trigger new[a]] 0 <= a < i ==> new[a] == holes[a]
            &&& forall|a: int|
                #![trigger new[a]]
                i + mid.len() <= a < new.len() ==> new[a] == holes[a - mid.len() + 1]
            &&& mid.len() >= 1 ==> new[i] == mid[0]
            &&& mid.len() >= 2 ==> new[i + 1] == mid[1]
        }),
{
    reveal(carve);
}

/// Taking a block out of hole `i` leaves the holes in order and apart.
proof fn lemma_carve_ok(holes: Seq<Hole>, size: int, i: int, at: int, need: int)
    requires
        holes_ok(holes, size),
        0 <= i < holes.len(),
        holes[i].off <= at,
        at + need <= holes[i].off + holes[i].size,
        at % 8 == 0,
        need % 8 == 0,
        0 < need,
        at == holes[i].off || at - holes[i].off >= MIN_BLOCK,
        at + need == holes[i].off + holes[i].size || holes[i].off + holes[i].size - (at + need)
            >= MIN_BLOCK,
    ensures
        holes_ok(carve(holes, i, at, need), size),
{
    let new = carve(holes, i, at, need);
    let n = remnants(holes[i], at, need).len() as int;
    lemma_carve_index(holes, i, at, need);
    assert forall|a: int| 0 <= a < new.len() implies hole_ok(#[trigger] new[a], size) by {
        if a < i {
            assert(new[a] == holes[a]);
        } else if a >= i + n {
            assert(new[a] == holes[a - n + 1]);
        } else {
            assert(hole_ok(holes[i], size));
        }
    }
    assert forall|a: int, b: int| 0 <= a < b < new.len() implies (#[trigger] new[a]).off
        + new[a].size < (#[trigger] new[b]).off by {
        if a < i {
            assert(new[a] == holes[a]);
        }
        if b >= i + n {
            assert(new[b] == holes[b - n + 1]);
        }
        if a >= i + n {
            assert(new[a] == holes[a - n + 1]);
        }
        if b < i {
            assert(new[b] == holes[b]);
        }
    }
}

/// The words of the region, written as for a block taken out of hole `i`: the
/// remnants have their headers, the hole before them names the first of them,
/// and nothing else outside the hole has changed.
spec fn carve_written(
    old_mem: Seq<u64>,
    mem: Seq<u64>,
    holes: Seq<Hole>,
    i: int,
    at: int,
    need: int,
) -> bool {
    let end = holes[i].off + holes[i].size;
    let next = next_of(holes, i);
    let back_off = if at + need != end {
        (at + need) as u64
    } else {
        next
    };
    let seg_head = if at != holes[i].off {
        holes[i].off as u64
    } else {
        back_off
    };
    &&& mem.len() == old_mem.len()
    &&& at + need != end ==> mem[(at + need) / 8] == end - (at + need) && mem[(at + need) / 8 + 1]
        == next
    &&& at != holes[i].off ==> mem[holes[i].off / 8] == at - holes[i].off && mem[holes[i].off / 8
        + 1] == back_off
    &&& i > 0 ==> mem[holes[i - 1].off / 8 + 1] == seg_head
    &&& forall|w: int|
        0 <= w < mem.len() && (8 * w + 8 <= holes[i].off || end <= 8 * w) && (i > 0 ==> w
            != holes[i - 1].off / 8 + 1) ==> #[trigger] mem[w] == old_mem[w]
}

/// The holes before hole `i` keep their headers, but for the link into it.
proof fn lemma_carve_linked_before(
    old_mem: Seq<u64>,
    mem: Seq<u64>,
    holes: Seq<Hole>,
    size: int,
    i: int,
    at: int,
    need: int,
    a: int,
)
    requires
        holes_ok(holes, size),
        size <= 8 * mem.len(),
        linked(old_mem, holes),
        0 <= a < i < holes.len(),
        carve_written(old_mem, mem, holes, i, at, need),
    ensures
        mem[holes[a].off / 8] == holes[a].size,
        a + 1 < i ==> mem[holes[a].off / 8 + 1] == next_of(holes, a),
{
    assert(hole_ok(holes[a], size));
    assert(hole_ok(holes[i], size));
    assert(hole_ok(holes[i - 1], size));
    assert(holes[a].off + holes[a].size < holes[i].off);
    if a + 1 < i {
        assert(holes[a].off + holes[a].size < holes[i - 1].off);
        assert(hole_ok(holes[a + 1], size));
        assert(mem[holes[a].off / 8 + 1] == old_mem[holes[a].off / 8 + 1]);
    }
    assert(mem[holes[a].off / 8] == old_mem[holes[a].off / 8]);
}

/// The holes behind hole `i` keep their headers.
proof fn lemma_carve_linked_after(
    old_mem: Seq<u64>,
    mem: Seq<u64>,
    holes: Seq<Hole>,
    size: int,
    i: int,
    at: int,
    need: int,
    b: int,
)
    requires
        holes_ok(holes, size),
        size <= 8 * mem.len(),
        linked(old_mem, holes),
        0 <= i < b < holes.len(),
        carve_written(old_mem, mem, holes, i, at, need),
    ensures
        mem[holes[b].off / 8] == holes[b].size,
        mem[holes[b].off / 8 + 1] == next_of(holes, b),
{
    assert(hole_ok(holes[b], size));
    assert(hole_ok(holes[i], size));
    assert(holes[i].off + holes[i].size < holes[b].off);
    if i > 0 {
        assert(hole_ok(holes[i - 1], size));
        assert(holes[i - 1].off + holes[i - 1].size < holes[i].off);
    }
    assert(mem[holes[b].off / 8] == old_mem[holes[b].off / 8]);
    assert(mem[holes[b].off / 8 + 1] == old_mem[holes[b].off / 8 + 1]);
}

/// The headers form the list of the holes that are left.
#[verifier::spinoff_prover]
proof fn lemma_carve_linked(
    old_mem: Seq<u64>,
    mem: Seq<u64>,
    holes: Seq<Hole>,
    size: int,
    i: int,
    at: int,
    need: int,
)
    requires
        holes_ok(holes, size),
        size <= 8 * mem.len(),
        linked(old_mem, holes),
        0 <= i < holes.len(),
        holes[i].off <= at,
        at + need <= holes[i].off + holes[i].size,
        at % 8 == 0,
        need % 8 == 0,
        carve_written(old_mem, mem, holes, i, at, need),
    ensures
        linked(mem, carve(holes, i, at, need)),
{
    let new = carve(holes, i, at, need);
    let n = remnants(holes[i], at, need).len() as int;
    lemma_carve_index(holes, i, at, need);
    assert forall|a: int| #![trigger new[a]] 0 <= a < new.len() implies {
        &&& mem[new[a].off / 8] == new[a].size
        &&& mem[new[a].off / 8 + 1] == next_of(new, a)
    } by {
        if a < i {
            lemma_carve_linked_before(old_mem, mem, holes, size, i, at, need, a);
        } else if a >= i + n {
            lemma_carve_linked_after(old_mem, mem, holes, size, i, at, need, a - n + 1);
        }
        assert(hole_ok(holes[i], size));
    }
}

impl<'a> FreeList<'a> {
    /// The first hole that a block of `need` bytes aligned to `align` fits in.
    fn find_fit(&self, need: u64, align: u64) -> (r: Option<Fit>)
        requires
            self.wf(),
            0 < need,
            0 < align,
        ensures
            match r {
                None => forall|i: int|
                    0 <= i < self.holes@.len() ==> place(
                        self.base as int,
                        #[trigger] self.holes@[i],
                        need as int,
                        align as int,
                    ) is None,
                Some(fit) => {
                    let i = fit.index@;
                    &&& first_fit(self.base as int, self.holes@, i, need as int, align as int)
                    &&& place(self.base as int, self.holes@[i], need as int, align as int) == Some(
                        fit.at as int,
                    )
                    &&& fit.cur == self.holes@[i].off
                    &&& fit.prev == if i == 0 {
                        NIL
                    } else {
                        self.holes@[i - 1].off as u64
                    }
                    &&& fit.cur <= fit.at
                    &&& fit.at + need <= fit.cur + self.holes@[i].size
                    &&& (self.base + fit.at) % align as int == 0
                    &&& fit.at == fit.cur || fit.at - fit.cur >= MIN_BLOCK
                    &&& fit.at + need == fit.cur + self.holes@[i].size || fit.cur
                        + self.holes@[i].size - (fit.at + need) >= MIN_BLOCK
                },
            },
    {
        let mut prev: u64 = NIL;
        let mut cur: u64 = self.head;
        let ghost mut i: int = 0;
        while cur != NIL
            invariant
                self.wf(),
                0 < need,
                0 < align,
                0 <= i <= self.holes@.len(),
                cur == if i < self.holes@.len() {
                    self.holes@[i].off as u64
                } else {
                    NIL
                },
                prev == if i == 0 {
                    NIL
                } else {
                    self.holes@[i - 1].off as u64
                },
                forall|j: int|
                    0 <= j < i ==> place(
                        self.base as int,
                        #[trigger] self.holes@[j],
                        need as int,
                        align as int,
                    ) is None,
            decreases self.holes@.len() - i,
        {
            assert(hole_ok(self.holes@[i], self.size as int));
            let hole_size: u64 = self.entry_size(cur);
            let next: u64 = self.entry_next(cur);
            match place_in(self.base, cur, hole_size, need, align) {
                Some(at) => {
                    return Some(Fit { prev, cur, at, index: Ghost(i) });
                },
                None => {},
            }
            prev = cur;
            cur = next;
            proof {
                i = i + 1;
                if i < self.holes@.len() {
                    assert(hole_ok(self.holes@[i], self.size as int));
                }
            }
        }
        None
    }

    /// Take the block that `fit` describes out of its hole: replace the hole in
    /// the list with its (optional) front and back remnants.
    #[verifier::spinoff_prover]
    #[verifier::rlimit(40)]
    fn take(&mut self, fit: Fit, need: u64)
        requires
            old(self).wf(),
            0 <= fit.index@ < old(self).holes@.len(),
            fit.cur == old(self).holes@[fit.index@].off,
            fit.prev == if fit.index@ == 0 {
                NIL
            } else {
                old(self).holes@[fit.index@ - 1].off as u64
            },
            fit.at % 8 == 0,
            need % 8 == 0,
            MIN_BLOCK <= need,
            fit.cur <= fit.at,
            fit.at + need <= fit.cur + old(self).holes@[fit.index@].size,
            fit.at == fit.cur || fit.at - fit.cur >= MIN_BLOCK,
            fit.at + need == fit.cur + old(self).holes@[fit.index@].size || fit.cur
                + old(self).holes@[fit.index@].size - (fit.at + need) >= MIN_BLOCK,
        ensures
            final(self).wf(),
            final(self).same_region(*old(self)),
            final(final(self).mem)@ == final(old(self).mem)@,
            final(self).holes@ == carve(
                old(self).holes@,
                fit.index@,
                fit.at as int,
                need as int,
            ),
            !old(self).live@.dom().contains(fit.at as int),
            final(self).live@ == old(self).live@.insert(fit.at as int, need as int),
            forall|w: int|
                #![trigger final(self).mem@[w]]
                0 <= w < old(self).mem@.len() && Self::outside_holes(old(self).holes@, w)
                    ==> final(self).mem@[w] == old(self).mem@[w],
    {
        let ghost before = *self;
        let ghost hs = self.holes@;
        let ghost i = fit.index@;
        let ghost at = fit.at as int;
        let prev: u64 = fit.prev;
        let cur: u64 = fit.cur;
        proof {
            assert(hole_ok(hs[i], self.size as int));
            if i > 0 {
                assert(hole_ok(hs[i - 1], self.size as int));
            }
            if i + 1 < hs.len() {
                assert(hole_ok(hs[i + 1], self.size as int));
            }
        }
        let hole_size: u64 = self.entry_size(cur);
        let next: u64 = self.entry_next(cur);
        let hole_end: u64 = cur + hole_size;
        let alloc_end: u64 = fit.at + need;
        let back: u64 = hole_end - alloc_end;
        let front: u64 = fit.at - cur;
        let back_off: u64 = if back >= MIN_BLOCK {
            self.write_entry(alloc_end, back, next);
            alloc_end
        } else {
            next
        };
        let seg_head: u64 = if front >= MIN_BLOCK {
            self.write_entry(cur, front, back_off);
            cur
        } else {
            back_off
        };
        if prev == NIL {
            self.head = seg_head;
        } else {
            self.set_next(prev, seg_head);
        }
        let ghost new = carve(hs, i, at, need as int);
        self.holes = Ghost(new);
        self.live = Ghost(self.live@.insert(at, need as int));
        proof {
            lemma_carve_index(hs, i, at, need as int);
            lemma_carve_ok(hs, self.size as int, i, at, need as int);
            if i > 0 {
                assert(hs[i - 1].off + hs[i - 1].size < hs[i].off);
            }
            assert(carve_written(before.mem@, self.mem@, hs, i, at, need as int));
            lemma_carve_linked(before.mem@, self.mem@, hs, self.size as int, i, at, need as int);
            lemma_carve_live(hs, before.live@, self.size as int, i, at, need as int);
            lemma_carve_covered(hs, before.live@, self.size as int, i, at, need as int);
        }
    }

    /// Allocate `layout.size()` bytes aligned to `layout.align()`: the address
    /// of the block, or `None` if no hole can hold it.
    pub fn allocate(&mut self, layout: Layout) -> (r: Option<u64>)
        requires
            old(self).wf(),
        ensures
            final(self).wf(),
            final(self).same_region(*old(self)),
            final(final(self).mem)@ == final(old(self).mem)@,
            match r {
                None => {
                    &&& final(self).holes == old(self).holes
                    &&& final(self).live == old(self).live
                    &&& final(self).mem@ == old(self).mem@
                    &&& forall|i: int|
                        0 <= i < old(self).holes@.len() ==> place(
                            old(self).base as int,
                            #[trigger] old(self).holes@[i],
                            layout.block_size(),
                            layout.block_align(),
                        ) is None
                },
                Some(addr) => {
                    let at = addr - old(self).base;
                    &&& exists|i: int|
                        {
                            &&& #[trigger] first_fit(
                                old(self).base as int,
                                old(self).holes@,
                                i,
                                layout.block_size(),
                                layout.block_align(),
                            )
                            &&& place(
                                old(self).base as int,
                                old(self).holes@[i],
                                layout.block_size(),
                                layout.block_align(),
                            ) == Some(at)
                            &&& final(self).holes@ == carve(
                                old(self).holes@,
                                i,
                                at,
                                layout.block_size(),
                            )
                        }
                    &&& !old(self).live@.dom().contains(at)
                    &&& final(self).live@ == old(self).live@.insert(at, layout.block_size())
                    &&& addr as int % layout.block_align() == 0
                    &&& forall|w: int|
                        #![trigger final(self).mem@[w]]
                        0 <= w < old(self).mem@.len() && Self::outside_holes(old(self).holes@, w)
                            ==> final(self).mem@[w] == old(self).mem@[w]
                },
            },
    {
        let need: u64 = block_size_for(&layout);
        let align: u64 = block_align_for(&layout);
        let fit = match self.find_fit(need, align) {
            Some(fit) => fit,
            None => {
                return None;
            },
        };
        proof {
            lemma_aligned_offset(self.base as int, fit.at as int, align as int);
            assert(hole_ok(self.holes@[fit.index@], self.size as int));
        }
        let at: u64 = fit.at;
        self.take(fit, need);
        Some(self.base + at)
    }
}

/// The size a request occupies once normalised.
fn block_size_for(layout: &Layout) -> (r: u64)
    ensures
        r == layout.block_size(),
        r % 8 == 0,
        MIN_BLOCK <= r,
{
    let bytes: u64 = layout.size() as u64;
    let least: u64 = if bytes < MIN_BLOCK {
        MIN_BLOCK
    } else {
        bytes
    };
    proof {
        lemma_align_up(least as int, 8);
    }
    (least + (ALIGN - 1)) / ALIGN * ALIGN
}

/// The alignment a request gets once normalised.
fn block_align_for(layout: &Layout) -> (r: u64)
    ensures
        r == layout.block_align(),
        8 <= r,
        r % 8 == 0,
{
    let requested: u64 = layout.align() as u64;
    if requested < ALIGN {
        ALIGN
    } else {
        proof {
            lemma_block_align(requested as int);
        }
        requested
    }
}

/// An address and a region that are both aligned have an aligned distance.
proof fn lemma_aligned_offset(base: int, at: int, align: int)
    requires
        0 <= base,
        0 <= at,
        base % 8 == 0,
        0 < align,
        align % 8 == 0,
        (base + at) % align == 0,
    ensures
        at % 8 == 0,
{
    let q = (base + at) / align;
    vstd::arithmetic::div_mod::lemma_fundamental_div_mod(base + at, align);
    let m = align / 8;
    assert(base + at == 8 * (m * q)) by (nonlinear_arith)
        requires
            base + at == align * q,
            align == 8 * m,
    ;
}

/// A block taken out of a hole is apart from the blocks already handed out and
/// from the holes that are left.
proof fn lemma_carve_live(
    holes: Seq<Hole>,
    live: Map<int, int>,
    size: int,
    i: int,
    at: int,
    need: int,
)
    requires
        holes_ok(holes, size),
        live_ok(live, holes, size),
        0 <= i < holes.len(),
        holes[i].off <= at,
        at + need <= holes[i].off + holes[i].size,
        at % 8 == 0,
        need % 8 == 0,
        MIN_BLOCK <= need,
        at == holes[i].off || at - holes[i].off >= MIN_BLOCK,
        at + need == holes[i].off + holes[i].size || holes[i].off + holes[i].size - (at + need)
            >= MIN_BLOCK,
    ensures
        !live.dom().contains(at),
        live_ok(live.insert(at, need), carve(holes, i, at, need), size),
{
    let new = carve(holes, i, at, need);
    let l2 = live.insert(at, need);
    let n = remnants(holes[i], at, need).len() as int;
    lemma_carve_index(holes, i, at, need);
    assert(hole_ok(holes[i], size));
    assert forall|o: int, a: int|
        #![trigger l2.dom().contains(o), new[a]]
        l2.dom().contains(o) && 0 <= a < new.len() implies o + l2[o] <= new[a].off || new[a].off
        + new[a].size <= o by {
        if a < i {
            assert(new[a] == holes[a]);
        } else if a >= i + n {
            assert(new[a] == holes[a - n + 1]);
        } else {
            assert(holes[i].off <= new[a].off && new[a].off + new[a].size <= holes[i].off
                + holes[i].size);
        }
        if o != at {
            assert(live.dom().contains(o));
        }
    }
    assert forall|o: int, p: int|
        #![trigger l2.dom().contains(o), l2.dom().contains(p)]
        l2.dom().contains(o) && l2.dom().contains(p) && o < p implies o + l2[o] <= p by {
        if o != at {
            assert(live.dom().contains(o));
            assert(hole_ok(Hole { off: o, size: live[o] }, size));
        }
        if p != at {
            assert(live.dom().contains(p));
            assert(hole_ok(Hole { off: p, size: live[p] }, size));
        }
    }
}

/// A block taken out of a hole takes nothing else with it.
proof fn lemma_carve_covered(
    holes: Seq<Hole>,
    live: Map<int, int>,
    size: int,
    i: int,
    at: int,
    need: int,
)
    requires
        covered(holes, live, size),
        0 <= i < holes.len(),
        !live.dom().contains(at),
        holes[i].off <= at,
        at + need <= holes[i].off + holes[i].size,
        at == holes[i].off || at - holes[i].off >= MIN_BLOCK,
        at + need == holes[i].off + holes[i].size || holes[i].off + holes[i].size - (at + need)
            >= MIN_BLOCK,
    ensures
        covered(carve(holes, i, at, need), live.insert(at, need), size),
{
    reveal(covered);
    let new = carve(holes, i, at, need);
    let l2 = live.insert(at, need);
    let n = remnants(holes[i], at, need).len() as int;
    lemma_carve_index(holes, i, at, need);
    assert forall|x: int| 0 <= x < size implies #[trigger] in_hole(new, x) || in_live(l2, x) by {
        if in_hole(holes, x) {
            let j = choose|j: int|
                #![trigger holes[j]]
                0 <= j < holes.len() && holes[j].off <= x < holes[j].off + holes[j].size;
            if j < i {
                assert(new[j] == holes[j]);
            } else if j > i {
                assert(new[j + n - 1] == holes[j]);
            } else if at <= x < at + need {
                assert(l2.dom().contains(at));
            } else if x < at {
                assert(new[i].off <= x < new[i].off + new[i].size);
            } else {
                assert(new[i + n - 1].off <= x < new[i + n - 1].off + new[i + n - 1].size);
            }
        } else {
            let o = choose|o: int| #[trigger] live.dom().contains(o) && o <= x < o + live[o];
            assert(l2.dom().contains(o) && l2[o] == live[o]);
        }
    }
}

/// `off` lies between the holes before `k` and hole `k`.
pub open spec fn gap_at(holes: Seq<Hole>, k: int, off: int) -> bool {
    &&& 0 <= k <= holes.len()
    &&& forall|j: int| 0 <= j < k ==> (#[trigger] holes[j]).off < off
    &&& forall|j: int| k <= j < holes.len() ==> off < (#[trigger] holes[j]).off
}

/// `[off, off + size)` is a block of the region that no hole reaches into.
pub open spec fn apart(holes: Seq<Hole>, off: int, size: int) -> bool {
    forall|j: int|
        #![trigger holes[j]]
        0 <= j < holes.len() ==> off + size <= holes[j].off || holes[j].off + holes[j].size <= off
}

/// The index of the merged hole after `[off, off + size)` is freed before hole
/// `k`.
spec fn fill_index(holes: Seq<Hole>, k: int, off: int) -> int {
    if k > 0 && holes[k - 1].off + holes[k - 1].size == off {
        k - 1
    } else {
        k
    }
}

/// How many holes the list loses when `[off, off + size)` is freed before hole
/// `k`.
spec fn fill_shift(holes: Seq<Hole>, k: int, off: int, size: int) -> int {
    (if k < holes.len() && off + size == holes[k].off {
        k + 1
    } else {
        k
    }) - (fill_index(holes, k, off) + 1)
}

/// The holes after `[off, off + size)` is freed, one by one.
proof fn lemma_fill_index(holes: Seq<Hole>, k: int, off: int, size: int)
    requires
        0 <= k <= holes.len(),
    ensures
        ({
            let new = fill(holes, k, off, size);
            let m = fill_index(holes, k, off);
            let shift = fill_shift(holes, k, off, size);
            let left = k > 0 && holes[k - 1].off + holes[k - 1].size == off;
            let right = k < holes.len() && off + size == holes[k].off;
            let start = if left {
                holes[k - 1].off
            } else {
                off
            };
            let end = if right {
                holes[k].off + holes[k].size
            } else {
                off + size
            };
            &&& new.len() == holes.len() - shift
            &&& m < new.len()
            &&& forall|a: int| #![trigger new[a]] 0 <= a < m ==> new[a] == holes[a]
            &&& forall|a: int| #![trigger new[a]] m < a < new.len() ==> new[a] == holes[a + shift]
            &&& new[m] == (Hole { off: start, size: end - start })
        }),
{
    reveal(fill);
}

/// Freeing a block leaves the holes in order and apart.
proof fn lemma_fill_ok(holes: Seq<Hole>, region: int, k: int, off: int, size: int)
    requires
        holes_ok(holes, region),
        gap_at(holes, k, off),
        apart(holes, off, size),
        hole_ok(Hole { off, size }, region),
    ensures
        holes_ok(fill(holes, k, off, size), region),
{
    let new = fill(holes, k, off, size);
    let left = k > 0 && holes[k - 1].off + holes[k - 1].size == off;
    let right = k < holes.len() && off + size == holes[k].off;
    let m = fill_index(holes, k, off);
    let shift = fill_shift(holes, k, off, size);
    lemma_fill_index(holes, k, off, size);
    if k > 0 {
        assert(hole_ok(holes[k - 1], region));
    }
    if k < holes.len() {
        assert(hole_ok(holes[k], region));
    }
    assert forall|a: int| 0 <= a < new.len() implies hole_ok(#[trigger] new[a], region) by {
        if a < m {
            assert(new[a] == holes[a]);
        } else if a > m {
            assert(new[a] == holes[a + shift]);
        }
    }
    assert forall|a: int, b: int| 0 <= a < b < new.len() implies (#[trigger] new[a]).off
        + new[a].size < (#[trigger] new[b]).off by {
        if a < m {
            assert(new[a] == holes[a]);
        } else if a > m {
            assert(new[a] == holes[a + shift]);
        }
        if b < m {
            assert(new[b] == holes[b]);
        } else if b > m {
            assert(new[b] == holes[b + shift]);
        }
    }
}

/// A freed block leaves the other blocks apart from every hole.
proof fn lemma_fill_live(
    holes: Seq<Hole>,
    live: Map<int, int>,
    region: int,
    k: int,
    off: int,
)
    requires
        holes_ok(holes, region),
        live_ok(live, holes, region),
        live.dom().contains(off),
        gap_at(holes, k, off),
    ensures
        live_ok(live.remove(off), fill(holes, k, off, live[off]), region),
{
    let size = live[off];
    let new = fill(holes, k, off, size);
    let rest = live.remove(off);
    let left = k > 0 && holes[k - 1].off + holes[k - 1].size == off;
    let right = k < holes.len() && off + size == holes[k].off;
    let m = fill_index(holes, k, off);
    let shift = fill_shift(holes, k, off, size);
    lemma_fill_index(holes, k, off, size);
    assert forall|o: int, a: int|
        #![trigger rest.dom().contains(o), new[a]]
        rest.dom().contains(o) && 0 <= a < new.len() implies o + rest[o] <= new[a].off
        || new[a].off + new[a].size <= o by {
        assert(live.dom().contains(o));
        assert(hole_ok(Hole { off: o, size: live[o] }, region));
        if a < m {
            assert(new[a] == holes[a]);
        } else if a > m {
            assert(new[a] == holes[a + shift]);
        } else {
            if left {
                assert(o + live[o] <= holes[k - 1].off || holes[k - 1].off + holes[k - 1].size
                    <= o);
            }
            if right {
                assert(o + live[o] <= holes[k].off || holes[k].off + holes[k].size <= o);
            }
        }
    }
    assert forall|o: int, p: int|
        #![trigger rest.dom().contains(o), rest.dom().contains(p)]
        rest.dom().contains(o) && rest.dom().contains(p) && o < p implies o + rest[o] <= p by {
        assert(live.dom().contains(o) && live.dom().contains(p));
    }
}

/// A freed block is free.
proof fn lemma_fill_covered(
    holes: Seq<Hole>,
    live: Map<int, int>,
    region: int,
    k: int,
    off: int,
)
    requires
        holes_ok(holes, region),
        live_ok(live, holes, region),
        covered(holes, live, region),
        live.dom().contains(off),
        gap_at(holes, k, off),
    ensures
        covered(fill(holes, k, off, live[off]), live.remove(off), region),
{
    reveal(covered);
    let size = live[off];
    let new = fill(holes, k, off, size);
    let rest = live.remove(off);
    let left = k > 0 && holes[k - 1].off + holes[k - 1].size == off;
    let right = k < holes.len() && off + size == holes[k].off;
    let m = fill_index(holes, k, off);
    let shift = fill_shift(holes, k, off, size);
    lemma_fill_index(holes, k, off, size);
    assert(hole_ok(Hole { off, size }, region));
    if k > 0 {
        assert(hole_ok(holes[k - 1], region));
    }
    if k < holes.len() {
        assert(hole_ok(holes[k], region));
    }
    assert forall|x: int| 0 <= x < region implies #[trigger] in_hole(new, x) || in_live(
        rest,
        x,
    ) by {
        if in_hole(holes, x) {
            let j = choose|j: int|
                #![trigger holes[j]]
                0 <= j < holes.len() && holes[j].off <= x < holes[j].off + holes[j].size;
            if j < m {
                assert(new[j] == holes[j]);
            } else if (left && j == k - 1) || (right && j == k) {
                assert(new[m].off <= x < new[m].off + new[m].size);
            } else {
                assert(new[j - shift] == holes[j]);
            }
        } else {
            let o = choose|o: int| #[trigger] live.dom().contains(o) && o <= x < o + live[o];
            if o == off {
                assert(new[m].off <= x < new[m].off + new[m].size);
            } else {
                assert(rest.dom().contains(o) && rest[o] == live[o]);
            }
        }
    }
}

/// The words of the region, written as for `[off, off + size)` freed before
/// hole `k`: the merged hole has its header, the hole before it names it, and
/// nothing else has changed.
spec fn fill_written(
    old_mem: Seq<u64>,
    mem: Seq<u64>,
    holes: Seq<Hole>,
    k: int,
    off: int,
    size: int,
) -> bool {
    let left = k > 0 && holes[k - 1].off + holes[k - 1].size == off;
    let right = k < holes.len() && off + size == holes[k].off;
    let start = if left {
        holes[k - 1].off
    } else {
        off
    };
    let end = if right {
        holes[k].off + holes[k].size
    } else {
        off + size
    };
    let next = if right {
        next_of(holes, k)
    } else if k < holes.len() {
        holes[k].off as u64
    } else {
        NIL
    };
    &&& mem.len() == old_mem.len()
    &&& mem[start / 8] == end - start
    &&& mem[start / 8 + 1] == next
    &&& !left && k > 0 ==> mem[holes[k - 1].off / 8 + 1] == off
    &&& forall|w: int|
        0 <= w < mem.len() && w != start / 8 && w != start / 8 + 1 && (!left && k > 0 ==> w
            != holes[k - 1].off / 8 + 1) ==> #[trigger] mem[w] == old_mem[w]
}

/// The holes before the freed block keep their headers, but for the link to it.
proof fn lemma_fill_linked_before(
    old_mem: Seq<u64>,
    mem: Seq<u64>,
    holes: Seq<Hole>,
    region: int,
    k: int,
    off: int,
    size: int,
    a: int,
)
    requires
        holes_ok(holes, region),
        region <= 8 * mem.len(),
        linked(old_mem, holes),
        gap_at(holes, k, off),
        apart(holes, off, size),
        hole_ok(Hole { off, size }, region),
        fill_written(old_mem, mem, holes, k, off, size),
        0 <= a < fill_index(holes, k, off),
    ensures
        mem[holes[a].off / 8] == holes[a].size,
        a + 1 < k ==> mem[holes[a].off / 8 + 1] == next_of(holes, a),
        a + 1 == k ==> mem[holes[a].off / 8 + 1] == off,
{
    assert(hole_ok(holes[a], region));
    assert(hole_ok(holes[k - 1], region));
    assert(holes[a].off < off);
    if a + 1 < k {
        assert(holes[a].off + holes[a].size < holes[k - 1].off);
        assert(mem[holes[a].off / 8 + 1] == old_mem[holes[a].off / 8 + 1]);
    }
    assert(mem[holes[a].off / 8] == old_mem[holes[a].off / 8]);
}

/// The holes behind the freed block keep their headers.
proof fn lemma_fill_linked_after(
    old_mem: Seq<u64>,
    mem: Seq<u64>,
    holes: Seq<Hole>,
    region: int,
    k: int,
    off: int,
    size: int,
    b: int,
)
    requires
        holes_ok(holes, region),
        region <= 8 * mem.len(),
        linked(old_mem, holes),
        gap_at(holes, k, off),
        apart(holes, off, size),
        hole_ok(Hole { off, size }, region),
        fill_written(old_mem, mem, holes, k, off, size),
        k <= b < holes.len(),
        k < b || off + size != holes[k].off,
    ensures
        mem[holes[b].off / 8] == holes[b].size,
        mem[holes[b].off / 8 + 1] == next_of(holes, b),
{
    assert(hole_ok(holes[b], region));
    assert(off < holes[b].off);
    if k > 0 {
        assert(hole_ok(holes[k - 1], region));
        assert(holes[k - 1].off < off);
    }
    assert(mem[holes[b].off / 8] == old_mem[holes[b].off / 8]);
    assert(mem[holes[b].off / 8 + 1] == old_mem[holes[b].off / 8 + 1]);
}

/// The headers form the list of the holes after a block is freed.
#[verifier::spinoff_prover]
proof fn lemma_fill_linked(
    old_mem: Seq<u64>,
    mem: Seq<u64>,
    holes: Seq<Hole>,
    region: int,
    k: int,
    off: int,
    size: int,
)
    requires
        holes_ok(holes, region),
        region <= 8 * mem.len(),
        linked(old_mem, holes),
        gap_at(holes, k, off),
        apart(holes, off, size),
        hole_ok(Hole { off, size }, region),
        fill_written(old_mem, mem, holes, k, off, size),
    ensures
        linked(mem, fill(holes, k, off, size)),
{
    let new = fill(holes, k, off, size);
    let left = k > 0 && holes[k - 1].off + holes[k - 1].size == off;
    let right = k < holes.len() && off + size == holes[k].off;
    let m = fill_index(holes, k, off);
    let shift = fill_shift(holes, k, off, size);
    lemma_fill_index(holes, k, off, size);
    if k > 0 {
        assert(hole_ok(holes[k - 1], region));
    }
    assert forall|a: int| #![trigger new[a]] 0 <= a < new.len() implies {
        &&& mem[new[a].off / 8] == new[a].size
        &&& mem[new[a].off / 8 + 1] == next_of(new, a)
    } by {
        if a < m {
            lemma_fill_linked_before(old_mem, mem, holes, region, k, off, size, a);
        } else if a > m {
            lemma_fill_linked_after(old_mem, mem, holes, region, k, off, size, a + shift);
        }
    }
}

impl<'a> FreeList<'a> {
    /// Insert a free block at `off` of `size` bytes into the address-sorted
    /// list, merging with the previous and/or next block when contiguous.
    #[verifier::spinoff_prover]
    #[verifier::rlimit(40)]
    fn insert_free(&mut self, off: u64, size: u64)
        requires
            old(self).wf(),
            old(self).live@.dom().contains(off as int),
            old(self).live@[off as int] == size,
        ensures
            final(self).wf(),
            final(self).same_region(*old(self)),
            final(final(self).mem)@ == final(old(self).mem)@,
            final(self).live@ == old(self).live@.remove(off as int),
            exists|k: int|
                #[trigger] gap_at(old(self).holes@, k, off as int) && final(self).holes@ == fill(
                    old(self).holes@,
                    k,
                    off as int,
                    size as int,
                ),
            forall|w: int|
                #![trigger final(self).mem@[w]]
                0 <= w < old(self).mem@.len() && Self::outside_holes(old(self).holes@, w) && (8 * w
                    + 8 <= off || off + size <= 8 * w) ==> final(self).mem@[w]
                    == old(self).mem@[w],
    {
        let ghost before = *self;
        let ghost hs = self.holes@;
        proof {
            assert(hole_ok(Hole { off: off as int, size: size as int }, self.size as int));
            assert(apart(hs, off as int, size as int));
        }
        let mut prev: u64 = NIL;
        let mut cur: u64 = self.head;
        let ghost mut k: int = 0;
        proof {
            if hs.len() > 0 {
                assert(hole_ok(hs[0], self.size as int));
            }
        }
        while cur != NIL && cur < off
            invariant
                self.wf(),
                *self == before,
                hs == self.holes@,
                0 <= k <= hs.len(),
                cur == if k < hs.len() {
                    hs[k].off as u64
                } else {
                    NIL
                },
                k < hs.len() ==> hole_ok(hs[k], self.size as int),
                prev == if k == 0 {
                    NIL
                } else {
                    hs[k - 1].off as u64
                },
                forall|j: int| 0 <= j < k ==> (#[trigger] hs[j]).off < off,
            decreases hs.len() - k,
        {
            prev = cur;
            cur = self.entry_next(cur);
            proof {
                k = k + 1;
                if k < hs.len() {
                    assert(hole_ok(hs[k], self.size as int));
                }
            }
        }
        proof {
            if k < hs.len() {
                assert(hs[k].off != off);
                assert forall|j: int| k <= j < hs.len() implies off < (#[trigger] hs[j]).off by {
                    if j > k {
                        assert(hs[k].off + hs[k].size < hs[j].off);
                    }
                }
            }
            assert(gap_at(hs, k, off as int));
            if k > 0 {
                assert(hole_ok(hs[k - 1], self.size as int));
                assert(hs[k - 1].off < off);
            }
        }
        if prev != NIL && prev + self.entry_size(prev) == off {
            // Merge into the previous block.
            let merged: u64 = self.entry_size(prev) + size;
            self.set_size(prev, merged);
            // And possibly into the following block too.
            if cur != NIL && prev + merged == cur {
                let cur_size: u64 = self.entry_size(cur);
                let cur_next: u64 = self.entry_next(cur);
                self.set_size(prev, merged + cur_size);
                self.set_next(prev, cur_next);
            }
        } else {
            let mut new_size: u64 = size;
            let mut new_next: u64 = cur;
            if cur != NIL && off + size == cur {
                new_size = new_size + self.entry_size(cur);
                new_next = self.entry_next(cur);
            }
            self.write_entry(off, new_size, new_next);
            if prev == NIL {
                self.head = off;
            } else {
                self.set_next(prev, off);
            }
        }
        self.holes = Ghost(fill(hs, k, off as int, size as int));
        self.live = Ghost(self.live@.remove(off as int));
        proof {
            lemma_fill_index(hs, k, off as int, size as int);
            assert(fill_written(before.mem@, self.mem@, hs, k, off as int, size as int));
            lemma_fill_ok(hs, self.size as int, k, off as int, size as int);
            lemma_fill_live(hs, before.live@, self.size as int, k, off as int);
            lemma_fill_covered(hs, before.live@, self.size as int, k, off as int);
            lemma_fill_linked(
                before.mem@,
                self.mem@,
                hs,
                self.size as int,
                k,
                off as int,
                size as int,
            );
        }
    }

    /// Return the block at `addr`, which was handed out for `layout`, to the
    /// free list, coalescing with adjacent free blocks.
    pub fn dealloc(&mut self, addr: u64, layout: Layout)
        requires
            old(self).wf(),
            old(self).live@.dom().contains(addr - old(self).base),
            old(self).live@[addr - old(self).base] == layout.block_size(),
        ensures
            final(self).wf(),
            final(self).same_region(*old(self)),
            final(final(self).mem)@ == final(old(self).mem)@,
            final(self).live@ == old(self).live@.remove(addr - old(self).base),
            exists|k: int|
                #[trigger] gap_at(old(self).holes@, k, addr - old(self).base) && final(self).holes@
                    == fill(old(self).holes@, k, addr - old(self).base, layout.block_size()),
            forall|w: int|
                #![trigger final(self).mem@[w]]
                0 <= w < old(self).mem@.len() && Self::outside_holes(old(self).holes@, w) && (8 * w
                    + 8 <= addr - old(self).base || addr - old(self).base + layout.block_size() <= 8
                    * w) ==> final(self).mem@[w] == old(self).mem@[w],
    {
        let size: u64 = block_size_for(&layout);
        proof {
            assert(hole_ok(
                Hole { off: addr - self.base, size: size as int },
                self.size as int,
            ));
        }
        self.insert_free(addr - self.base, size);
    }

    /// Total free bytes (sum of all hole sizes). O(number of holes).
    pub fn free_bytes(&self) -> (r: u64)
        requires
            self.wf(),
        ensures
            r == hole_bytes(self.holes@),
    {
        let mut total: u64 = 0;
        let mut cur: u64 = self.head;
        let ghost mut i: int = 0;
        while cur != NIL
            invariant
                self.wf(),
                0 <= i <= self.holes@.len(),
                cur == if i < self.holes@.len() {
                    self.holes@[i].off as u64
                } else {
                    NIL
                },
                total == hole_bytes(self.holes@.subrange(0, i)),
                total <= self.size,
            decreases self.holes@.len() - i,
        {
            proof {
                assert(hole_ok(self.holes@[i], self.size as int));
                let upto = self.holes@.subrange(0, i + 1);
                assert(upto.drop_last() =~= self.holes@.subrange(0, i));
                lemma_hole_bytes_bound(self.holes@, self.size as int, i + 1);
            }
            total = total + self.entry_size(cur);
            cur = self.entry_next(cur);
            proof {
                i = i + 1;
                if i < self.holes@.len() {
                    assert(hole_ok(self.holes@[i], self.size as int));
                }
            }
        }
        assert(self.holes@.subrange(0, i) =~= self.holes@);
        total
    }

    /// True if the word at `addr` belongs to a block that is handed out.
    pub open spec fn owns_word(self, addr: u64) -> bool {
        exists|o: int|
            {
                &&& #[trigger] self.live@.dom().contains(o)
                &&& (addr - self.base) % 8 == 0
                &&& o <= addr - self.base
                &&& addr - self.base + 8 <= o + self.live@[o]
            }
    }

    /// The word at `addr` of a block that is handed out.
    pub fn read_word(&self, addr: u64) -> (r: u64)
        requires
            self.wf(),
            self.owns_word(addr),
        ensures
            r == old(self.mem)@[(addr - self.base) / 8],
    {
        let ghost o = choose|o: int|
            #[trigger] self.live@.dom().contains(o) && o <= addr - self.base && addr - self.base + 8
                <= o + self.live@[o];
        assert(hole_ok(Hole { off: o, size: self.live@[o] }, self.size as int));
        assert(self.mem.len() == self.mem@.len());
        self.mem[((addr - self.base) / ALIGN) as usize]
    }

    /// Set the word at `addr` of a block that is handed out.
    pub fn write_word(&mut self, addr: u64, value: u64)
        requires
            old(self).wf(),
            old(self).owns_word(addr),
        ensures
            final(self).wf(),
            final(self).same_region(*old(self)),
            final(final(self).mem)@ == final(old(self).mem)@,
            final(self).holes == old(self).holes,
            final(self).live == old(self).live,
            final(self).mem@ == old(self).mem@.update((addr - old(self).base) / 8, value),
    {
        let ghost o = choose|o: int|
            #[trigger] self.live@.dom().contains(o) && o <= addr - self.base && addr - self.base + 8
                <= o + self.live@[o];
        let ghost before = *self;
        proof {
            assert(hole_ok(Hole { off: o, size: self.live@[o] }, self.size as int));
            assert(self.mem.len() == self.mem@.len());
        }
        self.mem[((addr - self.base) / ALIGN) as usize] = value;
        proof {
            assert forall|i: int| #![trigger self.holes@[i]] 0 <= i < self.holes@.len() implies {
                &&& self.mem@[self.holes@[i].off / 8] == self.holes@[i].size
                &&& self.mem@[self.holes@[i].off / 8 + 1] == next_of(self.holes@, i)
            } by {
                assert(hole_ok(self.holes@[i], self.size as int));
                assert(before.live@.dom().contains(o));
                assert(o + before.live@[o] <= before.holes@[i].off || before.holes@[i].off
                    + before.holes@[i].size <= o);
            }
        }
    }
}

/// Holes in order take up no more than the room up to where the last one ends.
proof fn lemma_hole_bytes_bound(holes: Seq<Hole>, size: int, n: int)
    requires
        holes_ok(holes, size),
        0 <= n <= holes.len(),
    ensures
        0 <= hole_bytes(holes.subrange(0, n)),
        n > 0 ==> hole_bytes(holes.subrange(0, n)) <= holes[n - 1].off + holes[n - 1].size,
        n == 0 ==> hole_bytes(holes.subrange(0, n)) == 0,
        hole_bytes(holes.subrange(0, n)) <= if n > 0 {
            size
        } else {
            0
        },
    decreases n,
{
    if n > 0 {
        lemma_hole_bytes_bound(holes, size, n - 1);
        assert(holes.subrange(0, n).drop_last() =~= holes.subrange(0, n - 1));
        assert(hole_ok(holes[n - 1], size));
        if n > 1 {
            assert(holes[n - 2].off + holes[n - 2].size < holes[n - 1].off);
        }
    }
}

/// Free bytes add up over parts of the list.
proof fn lemma_hole_bytes_concat(a: Seq<Hole>, b: Seq<Hole>)
    ensures
        hole_bytes(a + b) == hole_bytes(a) + hole_bytes(b),
    decreases b.len(),
{
    if b.len() == 0 {
        assert(a + b =~= a);
    } else {
        lemma_hole_bytes_concat(a, b.drop_last());
        assert((a + b).drop_last() =~= a + b.drop_last());
    }
}

/// Taking a block out of a hole makes the free bytes fewer by the block's size.
pub proof fn law_allocate_takes_block_size(holes: Seq<Hole>, i: int, at: int, need: int)
    requires
        0 <= i < holes.len(),
        holes[i].off <= at,
        at + need <= holes[i].off + holes[i].size,
    ensures
        hole_bytes(carve(holes, i, at, need)) == hole_bytes(holes) - need,
{
    reveal(carve);
    let pre = holes.subrange(0, i);
    let post = holes.subrange(i + 1, holes.len() as int);
    let mid = remnants(holes[i], at, need);
    assert(holes =~= (pre + seq![holes[i]]) + post);
    lemma_hole_bytes_concat(pre + seq![holes[i]], post);
    lemma_hole_bytes_concat(pre, seq![holes[i]]);
    lemma_hole_bytes_concat(pre + mid, post);
    lemma_hole_bytes_concat(pre, mid);
    reveal_with_fuel(hole_bytes, 3);
    assert(seq![holes[i]].drop_last() =~= seq![]);
    assert(hole_bytes(mid) == holes[i].size - need) by {
        if mid.len() == 2 {
            assert(mid.drop_last().drop_last() =~= seq![]);
        } else if mid.len() == 1 {
            assert(mid.drop_last() =~= seq![]);
        }
    }
}

/// Freeing a block right after it was taken out of a hole restores the holes as
/// they were: what was split merges back.
pub proof fn law_free_undoes_allocate(
    holes: Seq<Hole>,
    size: int,
    i: int,
    at: int,
    need: int,
    k: int,
)
    requires
        holes_ok(holes, size),
        0 <= i < holes.len(),
        0 < need,
        holes[i].off <= at,
        at + need <= holes[i].off + holes[i].size,
        gap_at(carve(holes, i, at, need), k, at),
    ensures
        fill(carve(holes, i, at, need), k, at, need) == holes,
{
    reveal(carve);
    reveal(fill);
    let cut = carve(holes, i, at, need);
    let n = remnants(holes[i], at, need).len() as int;
    let f: int = if at == holes[i].off {
        0
    } else {
        1
    };
    // The block lies behind the front remnant and before what follows it.
    assert(k == i + f) by {
        if k < i + f {
            if k < i {
                assert(cut[k] == holes[k]);
                assert(holes[k].off + holes[k].size < holes[i].off);
                assert(hole_ok(holes[k], size));
            }
            assert(cut[k].off < at);
        } else if k > i + f {
            if n > f {
                assert(cut[i + f].off == at + need);
            } else {
                assert(cut[i + f] == holes[i + 1]);
                assert(holes[i].off + holes[i].size < holes[i + 1].off);
            }
        }
    }
    if i > 0 {
        assert(cut[i - 1] == holes[i - 1]);
        assert(holes[i - 1].off + holes[i - 1].size < holes[i].off);
    }
    if n == f && i + 1 < holes.len() {
        assert(cut[i + f] == holes[i + 1]);
        assert(holes[i].off + holes[i].size < holes[i + 1].off);
    }
    assert(fill(cut, k, at, need) =~= holes);
}

/// Blocks that are handed out at the same time do not overlap, and none reaches
/// into a hole.
pub proof fn law_live_blocks_do_not_overlap(list: FreeList, o: int, p: int, i: int)
    requires
        list.wf(),
        list.live@.dom().contains(o),
        list.live@.dom().contains(p),
        o != p,
        0 <= i < list.holes@.len(),
    ensures
        o + list.live@[o] <= p || p + list.live@[p] <= o,
        o + list.live@[o] <= list.holes@[i].off || list.holes@[i].off + list.holes@[i].size <= o,
        0 <= o && o + list.live@[o] <= list.size,
{
    assert(hole_ok(Hole { off: o, size: list.live@[o] }, list.size as int));
}

/// Freeing a block adds its size to the free bytes.
pub proof fn law_free_returns_block_size(holes: Seq<Hole>, k: int, off: int, size: int)
    requires
        0 <= k <= holes.len(),
    ensures
        hole_bytes(fill(holes, k, off, size)) == hole_bytes(holes) + size,
{
    reveal(fill);
    let left = k > 0 && holes[k - 1].off + holes[k - 1].size == off;
    let right = k < holes.len() && off + size == holes[k].off;
    let a = if left {
        k - 1
    } else {
        k
    };
    let b = if right {
        k + 1
    } else {
        k
    };
    let pre = holes.subrange(0, a);
    let mid = holes.subrange(a, b);
    let post = holes.subrange(b, holes.len() as int);
    let merged = fill(holes, k, off, size)[a];
    assert(holes =~= (pre + mid) + post);
    assert(fill(holes, k, off, size) =~= (pre + seq![merged]) + post);
    lemma_hole_bytes_concat(pre + mid, post);
    lemma_hole_bytes_concat(pre, mid);
    lemma_hole_bytes_concat(pre + seq![merged], post);
    lemma_hole_bytes_concat(pre, seq![merged]);
    reveal_with_fuel(hole_bytes, 3);
    assert(seq![merged].drop_last() =~= seq![]);
    assert(hole_bytes(mid) == merged.size - size) by {
        if mid.len() == 2 {
            assert(mid.drop_last().drop_last() =~= seq![]);
        } else if mid.len() == 1 {
            assert(mid.drop_last() =~= seq![]);
        }
    }
}

/// Once every block has been given back, in whatever order, the region is one
/// free block again: everything has coalesced.
pub proof fn law_all_freed_is_one_hole(holes: Seq<Hole>, size: int)
    requires
        0 < size,
        holes_ok(holes, size),
        covered(holes, Map::<int, int>::empty(), size),
    ensures
        holes == seq![Hole { off: 0, size }],
        hole_bytes(holes) == size,
{
    reveal(covered);
    let none = Map::<int, int>::empty();
    assert(in_hole(holes, 0) || in_live(none, 0));
    let i = choose|i: int|
        #![trigger holes[i]]
        0 <= i < holes.len() && holes[i].off <= 0 < holes[i].off + holes[i].size;
    assert(hole_ok(holes[i], size));
    assert(hole_ok(holes[0], size));
    if i > 0 {
        assert(holes[0].off + holes[0].size < holes[i].off);
    }
    let first = holes[0];
    if first.size < size {
        assert(in_hole(holes, first.size) || in_live(none, first.size));
        let j = choose|j: int|
            #![trigger holes[j]]
            0 <= j < holes.len() && holes[j].off <= first.size < holes[j].off + holes[j].size;
        assert(holes[0].off + holes[0].size < holes[j].off);
    }
    if holes.len() > 1 {
        assert(hole_ok(holes[1], size));
        assert(holes[0].off + holes[0].size < holes[1].off);
    }
    assert(holes =~= seq![Hole { off: 0, size }]);
    reveal_with_fuel(hole_bytes, 2);
    assert(holes.drop_last() =~= seq![]);
}

/// A block takes up what was asked for, rounded up to whole words and to two
/// words at least, and it is aligned as was asked for, to whole words at least.
pub proof fn law_blocks_are_whole_words(layout: Layout)
    ensures
        layout.block_size() % 8 == 0,
        layout.spec_size() <= 16 ==> layout.block_size() == 16,
        layout.spec_size() > 16 ==> layout.spec_size() <= layout.block_size() < layout.spec_size()
            + 8,
        layout.spec_align() <= 8 ==> layout.block_align() == 8,
        layout.spec_align() > 8 ==> layout.block_align() == layout.spec_align(),
{
}

/// Offset `x` of `hole` is aligned, and what lies before it in the hole is
/// nothing or large enough to stay a hole.
pub open spec fn can_start_at(base: int, hole: Hole, align: int, x: int) -> bool {
    &&& hole.off <= x
    &&& (base + x) % align == 0
    &&& x == hole.off || x >= hole.off + 16
}

/// A block goes to the lowest offset of a hole at which it can start. It goes
/// there if it fits, and what lies behind it is nothing or large enough to stay a
/// hole; otherwise it does not go into this hole.
pub proof fn law_where_a_block_goes(base: int, hole: Hole, need: int, align: int, x: int)
    requires
        0 <= base,
        0 <= hole.off,
        0 < align,
        can_start_at(base, hole, align, x),
        forall|y: int| #[trigger] can_start_at(base, hole, align, y) ==> x <= y,
    ensures
        ({
            let rest = hole.off + hole.size - x - need;
            place(base, hole, need, align) == if rest == 0 || rest >= 16 {
                Some(x)
            } else {
                None
            }
        }),
{
    let first = align_up(base + hole.off, align) - base;
    let second = align_up(base + hole.off + 16, align) - base;
    lemma_align_up(base + hole.off, align);
    lemma_align_up(base + hole.off + 16, align);
    lemma_multiples_apart(base + x, base + first, align);
    lemma_multiples_apart(base + x, base + second, align);
    if first != hole.off && first - hole.off < 16 {
        assert(can_start_at(base, hole, align, second));
    } else {
        assert(can_start_at(base, hole, align, first));
    }
}

/// Two multiples of `m` are the same or at least `m` apart.
proof fn lemma_multiples_apart(a: int, b: int, m: int)
    requires
        0 < m,
        a % m == 0,
        b % m == 0,
    ensures
        a < b ==> a + m <= b,
        b < a ==> b + m <= a,
{
    vstd::arithmetic::div_mod::lemma_fundamental_div_mod(a, m);
    vstd::arithmetic::div_mod::lemma_fundamental_div_mod(b, m);
    let p = a / m;
    let q = b / m;
    assert(m * p < m * q ==> m * p + m <= m * q) by (nonlinear_arith)
        requires
            0 < m,
    ;
    assert(m * q < m * p ==> m * q + m <= m * p) by (nonlinear_arith)
        requires
            0 < m,
    ;
}

/// Taking a block out of a hole takes away the bytes of the block and no others.
pub proof fn law_a_block_takes_its_own_bytes(
    holes: Seq<Hole>,
    size: int,
    i: int,
    at: int,
    need: int,
    x: int,
)
    requires
        holes_ok(holes, size),
        0 <= i < holes.len(),
        0 < need,
        holes[i].off <= at,
        at + need <= holes[i].off + holes[i].size,
    ensures
        in_hole(carve(holes, i, at, need), x) <==> in_hole(holes, x) && !(at <= x < at + need),
{
    let new = carve(holes, i, at, need);
    let mid = remnants(holes[i], at, need);
    let n = mid.len() as int;
    lemma_carve_index(holes, i, at, need);
    if in_hole(new, x) {
        let a = choose|a: int|
            #![trigger new[a]]
            0 <= a < new.len() && new[a].off <= x < new[a].off + new[a].size;
        if a < i {
            assert(new[a] == holes[a]);
            assert(holes[a].off + holes[a].size < holes[i].off);
        } else if a >= i + n {
            assert(new[a] == holes[a - n + 1]);
            assert(holes[i].off + holes[i].size < holes[a - n + 1].off);
        } else {
            assert(new[a] == mid[a - i]);
            assert(holes[i].off <= x < holes[i].off + holes[i].size);
        }
    }
    if in_hole(holes, x) && !(at <= x < at + need) {
        let a = choose|a: int|
            #![trigger holes[a]]
            0 <= a < holes.len() && holes[a].off <= x < holes[a].off + holes[a].size;
        if a < i {
            assert(new[a] == holes[a]);
        } else if a > i {
            assert(new[a + n - 1] == holes[a]);
        } else if x < at {
            assert(new[i] == mid[0]);
        } else if at == holes[i].off {
            assert(new[i] == mid[0]);
        } else {
            assert(new[i + 1] == mid[1]);
        }
    }
}

/// Freeing a block makes its bytes free and no others.
pub proof fn law_freeing_gives_its_own_bytes(holes: Seq<Hole>, k: int, off: int, size: int, x: int)
    requires
        0 <= k <= holes.len(),
        0 < size,
        forall|j: int| 0 <= j < holes.len() ==> 0 < (#[trigger] holes[j]).size,
    ensures
        in_hole(fill(holes, k, off, size), x) <==> in_hole(holes, x) || off <= x < off + size,
{
    reveal(fill);
    let new = fill(holes, k, off, size);
    let left = k > 0 && holes[k - 1].off + holes[k - 1].size == off;
    let right = k < holes.len() && off + size == holes[k].off;
    let lo = if left {
        k - 1
    } else {
        k
    };
    let hi = if right {
        k + 1
    } else {
        k
    };
    assert(forall|a: int| #![trigger new[a]] 0 <= a < lo ==> new[a] == holes[a]);
    assert(forall|a: int| #![trigger new[a]] lo < a < new.len() ==> new[a] == holes[a - lo - 1 + hi]);
    if in_hole(new, x) {
        let a = choose|a: int|
            #![trigger new[a]]
            0 <= a < new.len() && new[a].off <= x < new[a].off + new[a].size;
        if a < lo {
            assert(new[a] == holes[a]);
        } else if a > lo {
            assert(new[a] == holes[a - lo - 1 + hi]);
        } else if left && x < off {
            assert(holes[k - 1].off <= x);
        } else if right && x >= off + size {
            assert(holes[k].off <= x);
        }
    }
    if off <= x < off + size {
        assert(new[lo].off <= x < new[lo].off + new[lo].size);
    }
    if in_hole(holes, x) {
        let a = choose|a: int|
            #![trigger holes[a]]
            0 <= a < holes.len() && holes[a].off <= x < holes[a].off + holes[a].size;
        if a < lo {
            assert(new[a] == holes[a]);
        } else if a >= hi {
            assert(new[a - hi + lo + 1] == holes[a]);
        } else {
            assert(new[lo].off <= x < new[lo].off + new[lo].size);
        }
    }
}

} // verus!
