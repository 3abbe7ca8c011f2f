//! Protocol type (reuses EtherType values).

use vstd::prelude::*;

verus! {

pub const IPV4: u16 = 0x0800;

} // verus!
