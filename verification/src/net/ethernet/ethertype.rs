//! Common EtherType values (host byte order).

use vstd::prelude::*;

verus! {

pub const IPV4: u16 = 0x0800;
pub const ARP: u16 = 0x0806;
pub const IPV6: u16 = 0x86dd;
pub const VLAN: u16 = 0x8100;

} // verus!
