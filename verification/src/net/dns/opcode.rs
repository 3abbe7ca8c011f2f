//! OPCODE values.

use vstd::prelude::*;

verus! {

pub const QUERY: u8 = 0;
pub const IQUERY: u8 = 1;
pub const STATUS: u8 = 2;
pub const NOTIFY: u8 = 4;
pub const UPDATE: u8 = 5;

} // verus!
