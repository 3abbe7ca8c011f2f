//! Logical cores, and the walk that enumerates them. This is useful for pairing
//! lcores with ports and queues.

use vstd::prelude::*;

verus! {

#[derive(Copy, Clone, Debug, Eq, PartialEq, Structural)]
pub struct Lcore {
    pub id: u32,
    pub socket: u32,
}

/// A walk over the enabled lcores. Each step reports the next enabled lcore
/// after [`LcoreIter::curr`].
pub struct LcoreIter {
    pub curr: u32,
}

impl LcoreIter {
    pub fn new() -> (r: Self)
        ensures
            r.curr == u32::MAX,
    {
        // Sentinel: the EAL gives the next enabled lcore strictly greater than
        // the one it is asked about, so starting with the C `-1` yields the
        // first enabled lcore on the first step.
        LcoreIter { curr: u32::MAX }
    }

    /// Report that `nxt`, on `socket`, is the next enabled lcore after the
    /// current one. At `max` or above there is none, and the walk stays at its
    /// end.
    pub fn next(&mut self, nxt: u32, max: u32, socket: u32) -> (r: Option<Lcore>)
        ensures
            r == if nxt < max {
                Some(Lcore { id: nxt, socket })
            } else {
                None
            },
            final(self).curr == if nxt < max {
                nxt
            } else {
                max
            },
    {
        if nxt >= max {
            // Latch so subsequent steps also return None.
            self.curr = max;
            return None;
        }
        self.curr = nxt;
        Some(Lcore { id: nxt, socket })
    }
}

impl Default for LcoreIter {
    fn default() -> (r: Self)
        ensures
            r.curr == u32::MAX,
    {
        Self::new()
    }
}

} // verus!
