//! A simple bitmask implementation for tracking free/used items in a pool.

use vstd::prelude::*;

verus! {

/// Bit `bit` of `word`.
pub open spec fn bit_of(word: u32, bit: u32) -> bool {
    word & (1u32 << bit) != 0
}

/// Setting and clearing one bit changes that bit alone.
proof fn lemma_bits(word: u32, bit: u32, other: u32)
    requires
        bit < 32,
        other < 32,
    ensures
        bit_of(word | (1u32 << bit), other) == (other == bit || bit_of(word, other)),
        bit_of(word & !(1u32 << bit), other) == (other != bit && bit_of(word, other)),
        !bit_of(0, other),
{
    assert(((word | (1u32 << bit)) & (1u32 << other) != 0) == (other == bit || word & (1u32
        << other) != 0)) by (bit_vector)
        requires
            bit < 32,
            other < 32,
    ;
    assert(((word & !(1u32 << bit)) & (1u32 << other) != 0) == (other != bit && word & (1u32
        << other) != 0)) by (bit_vector)
        requires
            bit < 32,
            other < 32,
    ;
    assert(0u32 & (1u32 << other) == 0) by (bit_vector);
}

/// A fixed number of flags, all lowered at first.
pub struct Bitmask {
    size: usize,
    bits: Vec<u32>,
}

impl View for Bitmask {
    /// The flags.
    type V = Seq<bool>;

    closed spec fn view(&self) -> Seq<bool> {
        Seq::new(
            self.size as nat,
            |i: int| bit_of(self.bits@[i / 32], (i % 32) as u32),
        )
    }
}

impl Bitmask {
    /// There is a bit for every flag.
    pub closed spec fn wf(self) -> bool {
        32 * self.bits@.len() >= self.size
    }

    /// `size` flags, all lowered.
    pub fn new(size: usize) -> (r: Self)
        ensures
            r.wf(),
            r@ == Seq::new(size as nat, |i: int| false),
    {
        let num_words: usize = size / 32 + if size % 32 == 0 {
            0
        } else {
            1
        };
        let r = Bitmask { size, bits: vec![0; num_words] };
        proof {
            assert forall|i: int| 0 <= i < size implies #[trigger] r@[i] == false by {
                lemma_bits(0, 0, (i % 32) as u32);
            }
            assert(r@ =~= Seq::new(size as nat, |i: int| false));
        }
        r
    }

    /// Is flag `idx` raised?
    pub fn is_set(&self, idx: usize) -> (r: bool)
        requires
            self.wf(),
            idx < self@.len(),
        ensures
            r == self@[idx as int],
    {
        let word: usize = idx / 32;
        let bit: u32 = (idx % 32) as u32;
        (self.bits[word] & (1u32 << bit)) != 0
    }

    /// Raise flag `idx`.
    pub fn set(&mut self, idx: usize)
        requires
            old(self).wf(),
            idx < old(self)@.len(),
        ensures
            final(self).wf(),
            final(self)@ == old(self)@.update(idx as int, true),
    {
        let ghost before = *self;
        let word: usize = idx / 32;
        let bit: u32 = (idx % 32) as u32;
        let w: u32 = self.bits[word] | (1u32 << bit);
        self.bits[word] = w;
        proof {
            assert forall|i: int| 0 <= i < self.size implies #[trigger] self@[i] == before@.update(
                idx as int,
                true,
            )[i] by {
                lemma_bits(before.bits@[word as int], bit, (i % 32) as u32);
            }
            assert(self@ =~= before@.update(idx as int, true));
        }
    }

    /// Lower flag `idx`.
    pub fn clear(&mut self, idx: usize)
        requires
            old(self).wf(),
            idx < old(self)@.len(),
        ensures
            final(self).wf(),
            final(self)@ == old(self)@.update(idx as int, false),
    {
        let ghost before = *self;
        let word: usize = idx / 32;
        let bit: u32 = (idx % 32) as u32;
        let w: u32 = self.bits[word] & !(1u32 << bit);
        self.bits[word] = w;
        proof {
            assert forall|i: int| 0 <= i < self.size implies #[trigger] self@[i] == before@.update(
                idx as int,
                false,
            )[i] by {
                lemma_bits(before.bits@[word as int], bit, (i % 32) as u32);
            }
            assert(self@ =~= before@.update(idx as int, false));
        }
    }

    /// Number of flags.
    pub fn size(&self) -> (r: usize)
        ensures
            r == self@.len(),
    {
        self.size
    }
}

} // verus!
