//! Offload-capability bits, mirroring DPDK's stable `RTE_ETH_*_OFFLOAD_*` ABI
//! values. Bit positions are stable across DPDK 20.11+.

use vstd::prelude::*;

verus! {

/// `RTE_ETH_TX_OFFLOAD_IPV4_CKSUM`: NIC computes the IPv4 header checksum.
pub const TX_IPV4_CKSUM: u64 = 0x2;

/// `RTE_ETH_TX_OFFLOAD_UDP_CKSUM`: NIC computes the UDP checksum.
pub const TX_UDP_CKSUM: u64 = 0x4;

/// `RTE_ETH_TX_OFFLOAD_TCP_CKSUM`: NIC computes the TCP checksum.
pub const TX_TCP_CKSUM: u64 = 0x8;

/// `RTE_ETH_TX_OFFLOAD_MULTI_SEGS`: NIC accepts multi-segment (chained) mbufs.
pub const TX_MULTI_SEGS: u64 = 0x8000;

/// `RTE_ETH_RX_OFFLOAD_IPV4_CKSUM`: NIC verifies the IPv4 header checksum.
pub const RX_IPV4_CKSUM: u64 = 0x2;

/// `RTE_ETH_RX_OFFLOAD_UDP_CKSUM`: NIC verifies the UDP checksum.
pub const RX_UDP_CKSUM: u64 = 0x4;

/// `RTE_ETH_RX_OFFLOAD_TCP_CKSUM`: NIC verifies the TCP checksum.
pub const RX_TCP_CKSUM: u64 = 0x8;

/// `enum rte_eth_rx_mq_mode::RTE_ETH_MQ_RX_RSS`: distribute RX traffic across
/// queues using a hash over the flow type set in `rss_conf.rss_hf`.
pub const MQ_MODE_RSS: u32 = 1;

/// `RTE_ETH_RSS_IPV4`: hash on IPv4 src/dst.
pub const RSS_IPV4: u64 = 0x4;

/// `RTE_ETH_RSS_NONFRAG_IPV4_TCP`: hash the IPv4 + TCP 4-tuple.
pub const RSS_TCP_IPV4: u64 = 0x10;

/// `RTE_ETH_RSS_NONFRAG_IPV4_UDP`: hash the IPv4 + UDP 4-tuple.
pub const RSS_UDP_IPV4: u64 = 0x20;

} // verus!
