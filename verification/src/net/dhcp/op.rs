//! `op` field.

use vstd::prelude::*;

verus! {

pub const BOOTREQUEST: u8 = 1;
pub const BOOTREPLY: u8 = 2;

} // verus!
