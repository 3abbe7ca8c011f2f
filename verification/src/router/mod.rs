//! Router control plane and forwarding decisions.

pub mod app;
pub mod arp;
pub mod conf;
pub mod conntrack;
pub mod dhcp;
pub mod fdb;
pub mod forwarding;
pub mod frame;
pub mod guarantees;
pub mod leases;
pub mod neighbor;
pub mod pool;
pub mod setup;
pub mod tick;
pub mod translation;
pub mod worker;
