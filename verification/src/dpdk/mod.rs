//! Packet buffers, ports and logical cores as the router sees them.

pub mod lcore;
pub mod mbuf;
pub mod port;
pub mod util;
