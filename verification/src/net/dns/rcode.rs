//! RCODE values (response code).

use vstd::prelude::*;

verus! {

pub const NO_ERROR: u8 = 0;
pub const FORMAT_ERROR: u8 = 1;
pub const SERVER_FAILURE: u8 = 2;
pub const NAME_ERROR: u8 = 3;
pub const NOT_IMPLEMENTED: u8 = 4;
pub const REFUSED: u8 = 5;

} // verus!
