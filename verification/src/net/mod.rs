//! Packet formats and the arithmetic that goes with them.

pub mod addr;
pub mod wire;

pub mod anatomy;
pub mod arp;
pub mod checksum;
pub mod dhcp;
pub mod dns;
pub mod ethernet;
pub mod ip;
pub mod tcp;
pub mod udp;
pub mod util;
pub mod view;
