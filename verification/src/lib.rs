//! A userspace IPv4 router: packet formats, address assignment, NAT,
//! connection tracking, neighbour resolution and the forwarding decisions
//! built from them, with machine-checked contracts.

pub mod dpdk;
pub mod mem;
pub mod net;
pub mod router;
pub mod sync;
pub mod table;
pub mod text;
