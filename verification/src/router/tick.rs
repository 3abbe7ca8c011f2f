//! Time as the router sees it.

use crate::text;
use crate::text::{push_decimal, push_text};
use vstd::prelude::*;

verus! {

/// Monotonic millisecond tick. Callers pass `now` to every state-changing
/// operation; the tables never read the clock themselves, so tests drive time
/// explicitly and the production loop can use any source it likes.
#[derive(Clone, Copy, PartialEq, Eq, Structural, PartialOrd, Ord, Debug)]
pub struct Tick(pub u64);

impl Default for Tick {
    fn default() -> (r: Self)
        ensures
            r == Tick(0),
    {
        Tick(0)
    }
}

impl Tick {
    /// Milliseconds from `earlier` to `self`, or 0 if `earlier` is the later.
    pub open spec fn since(self, earlier: Tick) -> u64 {
        if self.0 >= earlier.0 {
            (self.0 - earlier.0) as u64
        } else {
            0
        }
    }

    pub fn ms(v: u64) -> (r: Self)
        ensures
            r == Tick(v),
    {
        Tick(v)
    }

    /// Milliseconds elapsed since `earlier`, saturating at 0 if `earlier` is in
    /// the future (clock skew, freshly inserted entry, ...).
    pub fn elapsed_since(self, earlier: Tick) -> (r: u64)
        ensures
            r == self.since(earlier),
    {
        self.0.saturating_sub(earlier.0)
    }

    /// The tick as text, as in `250 ms`.
    pub fn to_string(&self) -> (r: String)
        ensures
            r@ == text::decimal(self.0 as nat) + " ms"@,
    {
        let mut s = String::new();
        push_decimal(&mut s, self.0);
        push_text(&mut s, " ms");
        assert(s@ =~= text::decimal(self.0 as nat) + " ms"@);
        s
    }

    /// The tick as it is listed in status output, as in `Tick(250)`.
    pub open spec fn listed(self) -> Seq<char> {
        "Tick("@ + text::decimal(self.0 as nat) + ")"@
    }

    /// Append the tick as it is listed in status output.
    pub fn push_listed(&self, s: &mut String)
        ensures
            final(s)@ == old(s)@ + self.listed(),
    {
        let ghost before = s@;
        push_text(s, "Tick(");
        push_decimal(s, self.0);
        push_text(s, ")");
        assert(s@ =~= before + self.listed());
    }
}

} // verus!
