//! QR bit: query vs. response.

use vstd::prelude::*;

verus! {

pub const QUERY: u8 = 0;
pub const RESPONSE: u8 = 1;

} // verus!
