//! Structures for router configuration. Router configuration allows the
//! user to configure specific ports by interface name to a role (WAN OR LAN)
//! and assign an IP address to the router on that interface.

use crate::net::addr::Ipv4Addr;
use crate::net::util::Netmask;
use vstd::prelude::*;

verus! {

#[derive(Clone)]
pub struct RouterConfig {
    pub interfaces: Vec<InterfaceConfig>,
    pub lan: LanConfig,
    pub dhcp: DhcpConfig,
    pub dns: Dns,
}

#[derive(Clone)]
pub struct InterfaceConfig {
    pub name: String,
    pub role: InterfaceRole,
}

#[derive(Clone, Copy, Eq, PartialEq, Structural, Debug)]
pub enum InterfaceRole {
    Wan,
    Lan,
}

#[derive(Clone, Copy, Debug)]
pub struct LanConfig {
    pub ip: Ipv4Addr,
    pub mask: Netmask,
}

#[derive(Clone, Copy, Debug)]
pub struct DhcpConfig {
    pub pool_start: Ipv4Addr,
    pub pool_end: Ipv4Addr,
}

#[derive(Clone)]
pub struct Alias {
    pub ip: Ipv4Addr,
    pub fqdn: String,
}

#[derive(Clone)]
pub struct Dns {
    pub servers: Vec<Ipv4Addr>,
    pub search_domains: Vec<String>,
    pub aliases: Vec<Alias>,
}

} // verus!
