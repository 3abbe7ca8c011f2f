//! Hardware type.

use vstd::prelude::*;

verus! {

pub const ETHERNET: u16 = 1;

} // verus!
