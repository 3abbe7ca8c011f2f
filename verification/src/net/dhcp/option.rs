//! Selected DHCP option codes.

use vstd::prelude::*;

verus! {

pub const PAD: u8 = 0;
pub const SUBNET_MASK: u8 = 1;
pub const ROUTER: u8 = 3;
pub const DNS_SERVER: u8 = 6;
pub const REQUESTED_IP: u8 = 50;
pub const LEASE_TIME: u8 = 51;
pub const MESSAGE_TYPE: u8 = 53;
pub const SERVER_ID: u8 = 54;
pub const PARAMETER_REQUEST_LIST: u8 = 55;
/// T1: when the client should start renewing, in seconds.
pub const RENEWAL_TIME: u8 = 58;
/// T2: when the client should start rebinding, in seconds.
pub const REBINDING_TIME: u8 = 59;
pub const END: u8 = 255;

} // verus!
