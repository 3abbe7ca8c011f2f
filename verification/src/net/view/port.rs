//! Well-known transport ports used to classify the application layer.

use vstd::prelude::*;

verus! {

/// DNS, over both UDP and TCP.
pub const DNS: u16 = 53;
/// DHCP / BOOTP server port.
pub const DHCP_SERVER: u16 = 67;
/// DHCP / BOOTP client port.
pub const DHCP_CLIENT: u16 = 68;

} // verus!
