//! NIC port configuration.
//!
//! Decides what a port is configured with (queue counts, RSS, rings), in which
//! order it is brought up, and which logical core polls and feeds which queue.
//! The device calls themselves are made by whoever drives these decisions.

use crate::net::ethernet::MacAddr;
use crate::text;
use crate::text::{push_boolean, push_decimal, push_hex_fixed, push_signed, push_text};
use std::collections::HashMap;
use vstd::prelude::*;

pub mod caps;

verus! {

broadcast use vstd::std_specs::hash::group_hash_axioms;

/// What is asked of a port.
#[derive(Clone, Copy, Debug)]
pub struct PortConfig {
    pub port_id: u16,
    /// Number of RX queues to ask for. Clamped to `[1, info.max_rx_queues]`.
    /// Set this to the number of lcores that will poll this port: each lcore
    /// gets its own queue, and when the NIC supports RSS we'll enable it so
    /// inbound flows fan out across the queues (Toeplitz over IPv4 +
    /// TCP/UDP 4-tuples, intersected with what the device advertises).
    pub nb_rx_queues: u16,
    /// Number of TX queues. Same clamp; set per lcore that will TX on this port.
    pub nb_tx_queues: u16,
    pub rx_ring_size: u16,
    pub tx_ring_size: u16,
}

/// What is configured on the device after clamping the caller's request against
/// the NIC's reported capabilities.
#[derive(Debug, Clone, Copy)]
pub struct PortSetup {
    pub port_id: u16,
    pub rx_queues: u16,
    pub tx_queues: u16,
    /// True when RSS was enabled across the RX queues. False means all RX
    /// traffic lands on queue 0 (virtio without RSS, single-queue request,
    /// or the device offers no usable hash types).
    pub rss_enabled: bool,
}

#[derive(Debug, Clone, Copy)]
pub enum PortError {
    Configure(i32),
    RxQueueSetup { queue: u16, err: i32 },
    TxQueueSetup { queue: u16, err: i32 },
    Start(i32),
    Promiscuous(i32),
    Info(i32),
}

impl PortError {
    /// The error as text.
    pub open spec fn message(self) -> Seq<char> {
        match self {
            PortError::Configure(e) => "port configure failed: "@ + text::signed(e as int),
            PortError::RxQueueSetup { queue, err } => "RX queue "@ + text::decimal(queue as nat)
                + " setup failed: "@ + text::signed(err as int),
            PortError::TxQueueSetup { queue, err } => "TX queue "@ + text::decimal(queue as nat)
                + " setup failed: "@ + text::signed(err as int),
            PortError::Start(e) => "port start failed: "@ + text::signed(e as int),
            PortError::Promiscuous(e) => "promiscuous enable failed: "@ + text::signed(e as int),
            PortError::Info(e) => "rte_eth_dev_info_get failed: "@ + text::signed(e as int),
        }
    }

    /// The error as text.
    pub fn to_string(&self) -> (r: String)
        ensures
            r@ == self.message(),
    {
        let mut s = String::new();
        match self {
            PortError::Configure(e) => {
                push_text(&mut s, "port configure failed: ");
                push_signed(&mut s, *e);
            },
            PortError::RxQueueSetup { queue, err } => {
                push_text(&mut s, "RX queue ");
                push_decimal(&mut s, *queue as u64);
                push_text(&mut s, " setup failed: ");
                push_signed(&mut s, *err);
            },
            PortError::TxQueueSetup { queue, err } => {
                push_text(&mut s, "TX queue ");
                push_decimal(&mut s, *queue as u64);
                push_text(&mut s, " setup failed: ");
                push_signed(&mut s, *err);
            },
            PortError::Start(e) => {
                push_text(&mut s, "port start failed: ");
                push_signed(&mut s, *e);
            },
            PortError::Promiscuous(e) => {
                push_text(&mut s, "promiscuous enable failed: ");
                push_signed(&mut s, *e);
            },
            PortError::Info(e) => {
                push_text(&mut s, "rte_eth_dev_info_get failed: ");
                push_signed(&mut s, *e);
            },
        }
        assert(s@ =~= self.message());
        s
    }
}

/// A snapshot of one port's capabilities.
///
/// These are exactly the facts the router design branches on: queue counts
/// decide whether each worker can own an independent WAN TX queue; the RSS
/// fields decide whether RSS-aligned steering is even possible (it generally
/// is not on virtio); the checksum-offload bits decide whether NAT can lean on
/// the NIC or must update checksums in software.
#[derive(Clone, Debug)]
pub struct PortInfo {
    pub port_id: u16,
    pub driver_name: String,
    pub socket_id: i32,
    pub ether_addr: MacAddr,
    pub max_rx_queues: u16,
    pub max_tx_queues: u16,
    pub max_rx_pktlen: u32,
    pub max_mac_addrs: u32,
    pub rx_offload_capa: u64,
    pub tx_offload_capa: u64,
    /// RSS redirection-table size (0 means no usable RSS).
    pub reta_size: u16,
    /// RSS hash-key size in bytes (0 means key not configurable).
    pub hash_key_size: u8,
    /// Bitmask of supported RSS hash types (`RTE_ETH_RSS_*`).
    pub flow_type_rss_offloads: u64,
}

impl PortInfo {
    /// A redirection table *and* at least one hash type.
    pub open spec fn spec_rss_usable(self) -> bool {
        self.reta_size > 0 && self.flow_type_rss_offloads != 0
    }

    /// Whether RSS is usable: a redirection table *and* at least one hash type.
    /// When false (the expected case on virtio) we fall back to the software
    /// port-range demux instead of RSS-aligned steering.
    pub fn rss_usable(&self) -> (r: bool)
        ensures
            r == self.spec_rss_usable(),
    {
        self.reta_size > 0 && self.flow_type_rss_offloads != 0
    }

    /// Whether each worker can own an independent WAN TX queue (the fast path),
    /// given `workers` worker cores.
    pub fn supports_per_core_tx(&self, workers: u16) -> (r: bool)
        ensures
            r == (workers <= self.max_tx_queues),
    {
        self.max_tx_queues >= workers
    }

    /// Whether the NIC can compute IPv4 + L4 checksums on TX, letting NAT skip
    /// software checksum work.
    pub fn tx_checksum_offload(&self) -> (r: bool)
        ensures
            r == (has(self.tx_offload_capa, caps::TX_IPV4_CKSUM) && has(
                self.tx_offload_capa,
                caps::TX_UDP_CKSUM,
            ) && has(self.tx_offload_capa, caps::TX_TCP_CKSUM)),
    {
        let c: u64 = self.tx_offload_capa;
        proof {
            lemma_three_bits(c);
        }
        c & (caps::TX_IPV4_CKSUM | caps::TX_UDP_CKSUM | caps::TX_TCP_CKSUM) == (caps::TX_IPV4_CKSUM
            | caps::TX_UDP_CKSUM | caps::TX_TCP_CKSUM)
    }

    /// Whether the NIC verifies IPv4 + L4 checksums on RX.
    pub fn rx_checksum_offload(&self) -> (r: bool)
        ensures
            r == (has(self.rx_offload_capa, caps::RX_IPV4_CKSUM) && has(
                self.rx_offload_capa,
                caps::RX_UDP_CKSUM,
            ) && has(self.rx_offload_capa, caps::RX_TCP_CKSUM)),
    {
        let c: u64 = self.rx_offload_capa;
        proof {
            lemma_three_bits(c);
        }
        c & (caps::RX_IPV4_CKSUM | caps::RX_UDP_CKSUM | caps::RX_TCP_CKSUM) == (caps::RX_IPV4_CKSUM
            | caps::RX_UDP_CKSUM | caps::RX_TCP_CKSUM)
    }

    /// The capabilities as text, without a newline at the end.
    pub open spec fn summary(self) -> Seq<char> {
        "port "@ + text::decimal(self.port_id as nat) + " ("@ + self.driver_name@ + ")\n"@
            + self.socket_line() + self.queue_line() + self.size_lines() + self.rss_line()
            + self.tx_line() + self.rx_line()
    }

    pub open spec fn socket_line(self) -> Seq<char> {
        "  socket_id        : "@ + text::signed(self.socket_id as int) + "\n"@
    }

    pub open spec fn queue_line(self) -> Seq<char> {
        "  queues           : "@ + text::decimal(self.max_rx_queues as nat) + " rx / "@
            + text::decimal(self.max_tx_queues as nat) + " tx (max)\n"@
    }

    pub open spec fn size_lines(self) -> Seq<char> {
        "  max_rx_pktlen    : "@ + text::decimal(self.max_rx_pktlen as nat)
            + "\n  max_mac_addrs    : "@ + text::decimal(self.max_mac_addrs as nat) + "\n"@
    }

    pub open spec fn rss_line(self) -> Seq<char> {
        "  rss              : "@ + (if self.spec_rss_usable() {
            "usable"@
        } else {
            "unusable"@
        }) + " (reta="@ + text::decimal(self.reta_size as nat) + ", key="@ + text::decimal(
            self.hash_key_size as nat,
        ) + " bytes, types=0x"@ + text::hex_fixed(self.flow_type_rss_offloads as nat, 16)
            + ")\n"@
    }

    pub open spec fn tx_line(self) -> Seq<char> {
        let c = self.tx_offload_capa;
        flag("  tx cksum offload : ipv4="@, c, caps::TX_IPV4_CKSUM) + flag(
            " udp="@,
            c,
            caps::TX_UDP_CKSUM,
        ) + flag(" tcp="@, c, caps::TX_TCP_CKSUM) + flag(" multiseg="@, c, caps::TX_MULTI_SEGS)
            + "\n"@
    }

    pub open spec fn rx_line(self) -> Seq<char> {
        let c = self.rx_offload_capa;
        flag("  rx cksum offload : ipv4="@, c, caps::RX_IPV4_CKSUM) + flag(
            " udp="@,
            c,
            caps::RX_UDP_CKSUM,
        ) + flag(" tcp="@, c, caps::RX_TCP_CKSUM)
    }

    /// The capabilities as text, without a newline at the end.
    pub fn to_string(&self) -> (r: String)
        ensures
            r@ == self.summary(),
    {
        let mut s = String::new();
        push_text(&mut s, "port ");
        push_decimal(&mut s, self.port_id as u64);
        push_text(&mut s, " (");
        push_text(&mut s, self.driver_name.as_str());
        push_text(&mut s, ")\n");
        self.push_socket_line(&mut s);
        self.push_queue_line(&mut s);
        self.push_size_lines(&mut s);
        self.push_rss_line(&mut s);
        self.push_tx_line(&mut s);
        self.push_rx_line(&mut s);
        assert(s@ =~= self.summary());
        s
    }

    fn push_socket_line(&self, s: &mut String)
        ensures
            final(s)@ == old(s)@ + self.socket_line(),
    {
        let ghost before = s@;
        push_text(s, "  socket_id        : ");
        push_signed(s, self.socket_id);
        push_text(s, "\n");
        assert(s@ =~= before + self.socket_line());
    }

    fn push_queue_line(&self, s: &mut String)
        ensures
            final(s)@ == old(s)@ + self.queue_line(),
    {
        let ghost before = s@;
        push_text(s, "  queues           : ");
        push_decimal(s, self.max_rx_queues as u64);
        push_text(s, " rx / ");
        push_decimal(s, self.max_tx_queues as u64);
        push_text(s, " tx (max)\n");
        assert(s@ =~= before + self.queue_line());
    }

    fn push_size_lines(&self, s: &mut String)
        ensures
            final(s)@ == old(s)@ + self.size_lines(),
    {
        let ghost before = s@;
        push_text(s, "  max_rx_pktlen    : ");
        push_decimal(s, self.max_rx_pktlen as u64);
        push_text(s, "\n  max_mac_addrs    : ");
        push_decimal(s, self.max_mac_addrs as u64);
        push_text(s, "\n");
        assert(s@ =~= before + self.size_lines());
    }

    fn push_rss_line(&self, s: &mut String)
        ensures
            final(s)@ == old(s)@ + self.rss_line(),
    {
        let ghost before = s@;
        push_text(s, "  rss              : ");
        if self.rss_usable() {
            push_text(s, "usable");
        } else {
            push_text(s, "unusable");
        }
        push_text(s, " (reta=");
        push_decimal(s, self.reta_size as u64);
        push_text(s, ", key=");
        push_decimal(s, self.hash_key_size as u64);
        push_text(s, " bytes, types=0x");
        push_hex_fixed(s, self.flow_type_rss_offloads, 16);
        push_text(s, ")\n");
        assert(s@ =~= before + self.rss_line());
    }

    fn push_tx_line(&self, s: &mut String)
        ensures
            final(s)@ == old(s)@ + self.tx_line(),
    {
        let ghost before = s@;
        let c: u64 = self.tx_offload_capa;
        push_flag(s, "  tx cksum offload : ipv4=", c, caps::TX_IPV4_CKSUM);
        push_flag(s, " udp=", c, caps::TX_UDP_CKSUM);
        push_flag(s, " tcp=", c, caps::TX_TCP_CKSUM);
        push_flag(s, " multiseg=", c, caps::TX_MULTI_SEGS);
        push_text(s, "\n");
        assert(s@ =~= before + self.tx_line());
    }

    fn push_rx_line(&self, s: &mut String)
        ensures
            final(s)@ == old(s)@ + self.rx_line(),
    {
        let ghost before = s@;
        let c: u64 = self.rx_offload_capa;
        push_flag(s, "  rx cksum offload : ipv4=", c, caps::RX_IPV4_CKSUM);
        push_flag(s, " udp=", c, caps::RX_UDP_CKSUM);
        push_flag(s, " tcp=", c, caps::RX_TCP_CKSUM);
        assert(s@ =~= before + self.rx_line());
    }
}

/// A label and whether the capability `bit` is among `capa`.
#[verifier::opaque]
pub open spec fn flag(label: Seq<char>, capa: u64, bit: u64) -> Seq<char> {
    label + text::boolean(has(capa, bit))
}

fn push_flag(s: &mut String, label: &str, capa: u64, bit: u64)
    ensures
        final(s)@ == old(s)@ + flag(label@, capa, bit),
{
    let ghost before = s@;
    push_text(s, label);
    push_boolean(s, capa & bit != 0);
    proof {
        reveal(flag);
    }
    assert(s@ =~= before + flag(label@, capa, bit));
}

/// The capability `bit` is among `capa`.
pub open spec fn has(capa: u64, bit: u64) -> bool {
    capa & bit != 0
}

/// All three checksum bits are there if each of them is.
proof fn lemma_three_bits(c: u64)
    ensures
        (c & (0x2u64 | 0x4u64 | 0x8u64) == (0x2u64 | 0x4u64 | 0x8u64)) == (c & 0x2u64 != 0 && c
            & 0x4u64 != 0 && c & 0x8u64 != 0),
{
    assert((c & (0x2u64 | 0x4u64 | 0x8u64) == (0x2u64 | 0x4u64 | 0x8u64)) == (c & 0x2u64 != 0 && c
        & 0x4u64 != 0 && c & 0x8u64 != 0)) by (bit_vector);
}

/// What the device reports of itself.
#[derive(Debug)]
pub struct DeviceInfo {
    pub driver_name: String,
    /// NUMA socket of the device, negative if it has no affinity.
    pub socket: i32,
    pub ether_addr: MacAddr,
    pub max_rx_queues: u16,
    pub max_tx_queues: u16,
    pub max_rx_pktlen: u32,
    pub max_mac_addrs: u32,
    pub rx_offload_capa: u64,
    pub tx_offload_capa: u64,
    pub reta_size: u16,
    pub hash_key_size: u8,
    pub flow_type_rss_offloads: u64,
}

/// The NUMA socket to place things on for a device on `socket`: virtio etc.
/// report -1 (no affinity), which stands for socket 0.
pub open spec fn spec_socket(socket: i32) -> i32 {
    if socket < 0 {
        0
    } else {
        socket
    }
}

/// The NUMA socket to place things on for a device on `socket`.
pub fn normalised_socket(socket: i32) -> (r: i32)
    ensures
        r == spec_socket(socket),
{
    if socket < 0 {
        0
    } else {
        socket
    }
}

/// One port's capabilities: `rc` is what the probe of the port returned, and
/// `dev` what it reported if that was zero.
pub fn info(port_id: u16, rc: i32, dev: DeviceInfo) -> (r: Result<PortInfo, PortError>)
    ensures
        r == if rc != 0 {
            Err(PortError::Info(rc))
        } else {
            Ok::<PortInfo, PortError>(
                PortInfo {
                    port_id,
                    driver_name: dev.driver_name,
                    socket_id: spec_socket(dev.socket),
                    ether_addr: dev.ether_addr,
                    max_rx_queues: dev.max_rx_queues,
                    max_tx_queues: dev.max_tx_queues,
                    max_rx_pktlen: dev.max_rx_pktlen,
                    max_mac_addrs: dev.max_mac_addrs,
                    rx_offload_capa: dev.rx_offload_capa,
                    tx_offload_capa: dev.tx_offload_capa,
                    reta_size: dev.reta_size,
                    hash_key_size: dev.hash_key_size,
                    flow_type_rss_offloads: dev.flow_type_rss_offloads,
                },
            )
        },
{
    if rc != 0 {
        return Err(PortError::Info(rc));
    }
    Ok(
        PortInfo {
            port_id,
            driver_name: dev.driver_name,
            socket_id: normalised_socket(dev.socket),
            ether_addr: dev.ether_addr,
            max_rx_queues: dev.max_rx_queues,
            max_tx_queues: dev.max_tx_queues,
            max_rx_pktlen: dev.max_rx_pktlen,
            max_mac_addrs: dev.max_mac_addrs,
            rx_offload_capa: dev.rx_offload_capa,
            tx_offload_capa: dev.tx_offload_capa,
            reta_size: dev.reta_size,
            hash_key_size: dev.hash_key_size,
            flow_type_rss_offloads: dev.flow_type_rss_offloads,
        },
    )
}

/// `want` clamped to at least 1 and at most what the device supports.
pub open spec fn clamped(want: u16, max: u16) -> u16 {
    if want < 1 || max < 1 {
        1
    } else if want > max {
        max
    } else {
        want
    }
}

fn clamp_queues(want: u16, max: u16) -> (r: u16)
    ensures
        r == clamped(want, max),
{
    if want < 1 || max < 1 {
        1
    } else if want > max {
        max
    } else {
        want
    }
}

/// The steps of bringing up a port, in order.
#[derive(Clone, Copy, PartialEq, Eq, Structural, Debug)]
pub enum InitStep {
    /// Configure the device with the queue counts and the RSS hash types.
    Configure,
    /// Set up this RX queue.
    RxQueue(u16),
    /// Set up this TX queue.
    TxQueue(u16),
    /// Start the port.
    Start,
    /// Enable promiscuous mode: our stack must see all packets destined for our
    /// IP, not just those matching the NIC's MAC filter.
    Promiscuous,
    /// The port is up.
    Done,
}

/// A port that is being brought up.
///
/// The device's capabilities decide what it is configured with:
///
/// - the requested RX/TX queue counts are clamped to `info.max_*_queues`,
/// - if the NIC supports RSS *and* we have more than one RX queue, RSS is
///   enabled over the IPv4 + TCP/UDP hash types the device advertises (so each
///   lcore polling its own queue sees a disjoint slice of the inbound flows),
/// - descriptor rings are allocated on the port's own NUMA socket.
///
/// The driver performs each step in turn and reports what the device call
/// returned.
#[derive(Clone, Copy, Debug)]
pub struct PortInit {
    pub setup: PortSetup,
    /// RSS hash types to configure; zero if RSS is not enabled.
    pub rss_hf: u64,
    /// NUMA socket for the descriptor rings.
    pub socket: u32,
    pub step: InitStep,
}

/// What `config` makes of a port with the capabilities `info`.
pub open spec fn planned_setup(config: PortConfig, info: PortInfo) -> PortSetup {
    let rx = clamped(config.nb_rx_queues, info.max_rx_queues);
    PortSetup {
        port_id: config.port_id,
        rx_queues: rx,
        tx_queues: clamped(config.nb_tx_queues, info.max_tx_queues),
        rss_enabled: rx > 1 && info.spec_rss_usable(),
    }
}

/// The step after `step` succeeded.
pub open spec fn step_after(setup: PortSetup, step: InitStep) -> InitStep {
    match step {
        InitStep::Configure => InitStep::RxQueue(0),
        InitStep::RxQueue(q) => if q + 1 < setup.rx_queues {
            InitStep::RxQueue((q + 1) as u16)
        } else {
            InitStep::TxQueue(0)
        },
        InitStep::TxQueue(q) => if q + 1 < setup.tx_queues {
            InitStep::TxQueue((q + 1) as u16)
        } else {
            InitStep::Start
        },
        InitStep::Start => InitStep::Promiscuous,
        InitStep::Promiscuous => InitStep::Done,
        InitStep::Done => InitStep::Done,
    }
}

/// The error of a step for which the device call returned `ret`.
pub open spec fn step_error(step: InitStep, ret: i32) -> Option<PortError> {
    if ret >= 0 {
        None
    } else {
        match step {
            InitStep::Configure => Some(PortError::Configure(ret)),
            InitStep::RxQueue(queue) => Some(PortError::RxQueueSetup { queue, err: ret }),
            InitStep::TxQueue(queue) => Some(PortError::TxQueueSetup { queue, err: ret }),
            InitStep::Start => Some(PortError::Start(ret)),
            InitStep::Promiscuous => Some(PortError::Promiscuous(ret)),
            InitStep::Done => None,
        }
    }
}

/// Plan how to bring up a port with the capabilities `info`.
pub fn init_port(config: &PortConfig, info: &PortInfo) -> (r: PortInit)
    ensures
        r == (PortInit {
            setup: planned_setup(*config, *info),
            rss_hf: if planned_setup(*config, *info).rss_enabled {
                (caps::RSS_IPV4 | caps::RSS_TCP_IPV4 | caps::RSS_UDP_IPV4)
                    & info.flow_type_rss_offloads
            } else {
                0
            },
            socket: spec_socket(info.socket_id) as u32,
            step: InitStep::Configure,
        }),
{
    // Clamp queue counts to what the device supports (and to at least 1).
    let rx: u16 = clamp_queues(config.nb_rx_queues, info.max_rx_queues);
    let tx: u16 = clamp_queues(config.nb_tx_queues, info.max_tx_queues);
    // RSS is only meaningful when we actually have multiple RX queues *and* the
    // device advertises at least one hash type and a redirection table.
    let rss_enabled: bool = rx > 1 && info.rss_usable();
    // We intersect the desired hash types with what the device advertises so it
    // doesn't reject the request for asking for an unsupported flow type.
    let rss_hf: u64 = if rss_enabled {
        (caps::RSS_IPV4 | caps::RSS_TCP_IPV4 | caps::RSS_UDP_IPV4) & info.flow_type_rss_offloads
    } else {
        0
    };
    PortInit {
        setup: PortSetup {
            port_id: config.port_id,
            rx_queues: rx,
            tx_queues: tx,
            rss_enabled,
        },
        rss_hf,
        socket: normalised_socket(info.socket_id) as u32,
        step: InitStep::Configure,
    }
}

impl PortInit {
    /// Report that the device call of the current step returned `ret`: on
    /// success go on to the next step, on failure stay and say what failed.
    pub fn advance(&mut self, ret: i32) -> (r: Result<(), PortError>)
        ensures
            match step_error(old(self).step, ret) {
                Some(e) => r == Err::<(), PortError>(e) && *final(self) == *old(self),
                None => r == Ok::<(), PortError>(()) && *final(self) == (PortInit {
                    step: step_after(old(self).setup, old(self).step),
                    ..*old(self)
                }),
            },
    {
        if ret < 0 {
            match self.step {
                InitStep::Configure => {
                    return Err(PortError::Configure(ret));
                },
                InitStep::RxQueue(queue) => {
                    return Err(PortError::RxQueueSetup { queue, err: ret });
                },
                InitStep::TxQueue(queue) => {
                    return Err(PortError::TxQueueSetup { queue, err: ret });
                },
                InitStep::Start => {
                    return Err(PortError::Start(ret));
                },
                InitStep::Promiscuous => {
                    return Err(PortError::Promiscuous(ret));
                },
                InitStep::Done => {},
            }
        }
        self.step = match self.step {
            InitStep::Configure => InitStep::RxQueue(0),
            InitStep::RxQueue(q) => if q < self.setup.rx_queues && self.setup.rx_queues - q > 1 {
                InitStep::RxQueue(q + 1)
            } else {
                InitStep::TxQueue(0)
            },
            InitStep::TxQueue(q) => if q < self.setup.tx_queues && self.setup.tx_queues - q > 1 {
                InitStep::TxQueue(q + 1)
            } else {
                InitStep::Start
            },
            InitStep::Start => InitStep::Promiscuous,
            InitStep::Promiscuous => InitStep::Done,
            InitStep::Done => InitStep::Done,
        };
        Ok(())
    }
}

/// The `n`-th step of bringing up a port.
pub open spec fn nth_step(setup: PortSetup, n: nat) -> InitStep
    decreases n,
{
    if n == 0 {
        InitStep::Configure
    } else {
        step_after(setup, nth_step(setup, (n - 1) as nat))
    }
}

/// A port is brought up in a fixed number of steps: it is configured, every RX
/// queue and then every TX queue is set up, each once and in order, and then it
/// is started.
pub proof fn law_every_queue_is_set_up_once(setup: PortSetup, q: nat)
    requires
        setup.rx_queues >= 1,
        setup.tx_queues >= 1,
    ensures
        nth_step(setup, 0) == InitStep::Configure,
        q < setup.rx_queues ==> nth_step(setup, 1 + q) == InitStep::RxQueue(q as u16),
        q < setup.tx_queues ==> nth_step(setup, 1 + setup.rx_queues as nat + q)
            == InitStep::TxQueue(q as u16),
        nth_step(setup, 1 + setup.rx_queues as nat + setup.tx_queues as nat) == InitStep::Start,
        nth_step(setup, 2 + setup.rx_queues as nat + setup.tx_queues as nat)
            == InitStep::Promiscuous,
        nth_step(setup, 3 + setup.rx_queues as nat + setup.tx_queues as nat) == InitStep::Done,
{
    if q < setup.rx_queues {
        lemma_rx_step(setup, q);
    }
    lemma_rx_step(setup, (setup.rx_queues - 1) as nat);
    if q < setup.tx_queues {
        lemma_tx_step(setup, q);
    }
    lemma_tx_step(setup, (setup.tx_queues - 1) as nat);
    let n = 1 + setup.rx_queues as nat + setup.tx_queues as nat;
    assert(nth_step(setup, n) == step_after(setup, nth_step(setup, (n - 1) as nat)));
    assert(nth_step(setup, n + 1) == step_after(setup, nth_step(setup, n)));
    assert(nth_step(setup, n + 2) == step_after(setup, nth_step(setup, n + 1)));
}

proof fn lemma_rx_step(setup: PortSetup, q: nat)
    requires
        q < setup.rx_queues,
    ensures
        nth_step(setup, 1 + q) == InitStep::RxQueue(q as u16),
    decreases q,
{
    if q > 0 {
        lemma_rx_step(setup, (q - 1) as nat);
    } else {
        assert(nth_step(setup, 0) == InitStep::Configure);
    }
    assert(nth_step(setup, 1 + q) == step_after(setup, nth_step(setup, q)));
}

proof fn lemma_tx_step(setup: PortSetup, q: nat)
    requires
        setup.rx_queues >= 1,
        q < setup.tx_queues,
    ensures
        nth_step(setup, 1 + setup.rx_queues as nat + q) == InitStep::TxQueue(q as u16),
    decreases q,
{
    let n = 1 + setup.rx_queues as nat + q;
    if q > 0 {
        lemma_tx_step(setup, (q - 1) as nat);
    } else {
        lemma_rx_step(setup, (setup.rx_queues - 1) as nat);
    }
    assert(nth_step(setup, n) == step_after(setup, nth_step(setup, (n - 1) as nat)));
}

/// Max number of packets handed out per receive burst.
pub const BURST: usize = 32;

/// Lcore `i` polls queue `i`, for the first `n` of `lcores`.
pub open spec fn rss_map(lcores: Seq<u32>, n: nat) -> Map<u32, u16>
    decreases n,
{
    if n == 0 {
        Map::empty()
    } else {
        rss_map(lcores, (n - 1) as nat).insert(lcores[n - 1], (n - 1) as u16)
    }
}

/// The RX queue that each lcore polls. With RSS every lcore has a queue of its
/// own as long as there are queues; without it only `owner` polls, queue 0.
pub open spec fn rx_map(setup: PortSetup, lcores: Seq<u32>, owner: u32) -> Map<u32, u16> {
    if setup.rss_enabled {
        rss_map(
            lcores,
            if lcores.len() < setup.rx_queues {
                lcores.len()
            } else {
                setup.rx_queues as nat
            },
        )
    } else {
        Map::empty().insert(owner, 0u16)
    }
}

/// The TX queue that each of the first `n` of `lcores` feeds, of `queues` in
/// turn.
pub open spec fn tx_map(lcores: Seq<u32>, queues: u16, n: nat) -> Map<u32, u16>
    decreases n,
{
    if n == 0 {
        Map::empty()
    } else {
        tx_map(lcores, queues, (n - 1) as nat).insert(
            lcores[n - 1],
            ((n - 1) % (queues as int)) as u16,
        )
    }
}

/// Number of TX queues to spread the lcores over.
pub open spec fn tx_queue_count(setup: PortSetup) -> u16 {
    if setup.tx_queues < 1 {
        1
    } else {
        setup.tx_queues
    }
}

/// A configured port together with the per-lcore queue assignment that routes
/// bursts onto the right queue (or a software-side fallback when there isn't
/// one).
///
/// **RX**
/// - If RSS was enabled (`setup.rss_enabled`), lcore *i* polls queue *i*, up
///   to `setup.rx_queues`. Excess lcores have no queue to poll: they would
///   otherwise race against another lcore on the same queue, which DPDK doesn't
///   allow.
/// - If RSS isn't available, exactly one lcore is the **RX owner** of hw
///   queue 0 (the only queue carrying anything). All other lcores have no
///   queue, and the runtime is expected to fan packets out from the owner via
///   its own steering structures. This is what "software-defined steering"
///   means here: queue ownership is a runtime decision, not a NIC feature.
///
/// **TX**
/// - Each lcore is mapped to a TX queue. When the device exposes at least as
///   many TX queues as lcores assigned to the port, every lcore gets its own
///   queue. When TX queues are oversubscribed, sharers have to serialize.
pub struct Port {
    pub info: PortInfo,
    pub setup: PortSetup,
    /// The RX queue that each lcore polls.
    pub rx: HashMap<u32, u16>,
    /// The TX queue that each lcore feeds.
    pub tx: HashMap<u32, u16>,
}

/// `rand::random_range` over `0..n`: some number below `n`, which a range of at
/// least one number has. Which one it is is up to chance.
#[verifier::external_body]
fn random_index(n: usize) -> (r: usize)
    requires
        n > 0,
    ensures
        r < n,
{
    rand::random_range(0..n)
}

impl Port {
    /// The RX queue that each lcore polls.
    pub open spec fn rx_queues(self) -> Map<u32, u16> {
        self.rx@
    }

    /// The TX queue that each lcore feeds.
    pub open spec fn tx_queues(self) -> Map<u32, u16> {
        self.tx@
    }

    /// Build the per-lcore plan over a port that has been brought up. `lcores`
    /// is the set of lcores that will own RX/TX on this port (typically the
    /// workers on the port's NUMA socket). Without RSS the RX owner is chosen
    /// at random from them.
    pub fn new(setup: PortSetup, info: PortInfo, lcores: &[u32]) -> (r: Self)
        requires
            lcores@.len() > 0,
        ensures
            r.info == info,
            r.setup == setup,
            r.tx_queues() == tx_map(lcores@, tx_queue_count(setup), lcores@.len()),
            exists|i: int|
                0 <= i < lcores@.len() && r.rx_queues() == rx_map(
                    setup,
                    lcores@,
                    #[trigger] lcores@[i],
                ),
    {
        let owner: usize = if setup.rss_enabled {
            0
        } else {
            random_index(lcores.len())
        };
        let r = Self::with_owner(setup, info, lcores, lcores[owner]);
        assert(r.rx_queues() == rx_map(setup, lcores@, lcores@[owner as int]));
        r
    }

    /// Build the per-lcore plan with `owner` as the RX owner if there is no
    /// RSS.
    pub fn with_owner(setup: PortSetup, info: PortInfo, lcores: &[u32], owner: u32) -> (r: Self)
        ensures
            r.info == info,
            r.setup == setup,
            r.tx_queues() == tx_map(lcores@, tx_queue_count(setup), lcores@.len()),
            r.rx_queues() == rx_map(setup, lcores@, owner),
    {
        let mut rx: HashMap<u32, u16> = HashMap::new();
        if setup.rss_enabled {
            // Excess lcores aren't assigned a queue (sharing one would race).
            let mut q: u16 = 0;
            while q < setup.rx_queues && (q as usize) < lcores.len()
                invariant
                    q <= setup.rx_queues,
                    q <= lcores@.len(),
                    rx@ == rss_map(lcores@, q as nat),
                decreases setup.rx_queues - q,
            {
                rx.insert(lcores[q as usize], q);
                q = q + 1;
            }
        } else {
            rx.insert(owner, 0);
        }
        let queues: u16 = if setup.tx_queues < 1 {
            1
        } else {
            setup.tx_queues
        };
        let mut tx: HashMap<u32, u16> = HashMap::new();
        let mut i: usize = 0;
        while i < lcores.len()
            invariant
                i <= lcores@.len(),
                queues >= 1,
                tx@ == tx_map(lcores@, queues, i as nat),
            decreases lcores@.len() - i,
        {
            tx.insert(lcores[i], (i % queues as usize) as u16);
            i = i + 1;
        }
        Port { info, setup, rx, tx }
    }

    pub fn port_id(&self) -> (r: u16)
        ensures
            r == self.info.port_id,
    {
        self.info.port_id
    }

    pub fn info(&self) -> (r: &PortInfo)
        ensures
            *r == self.info,
    {
        &self.info
    }

    pub fn setup(&self) -> (r: &PortSetup)
        ensures
            *r == self.setup,
    {
        &self.setup
    }

    /// Whether `lcore` is responsible for polling a hardware RX queue on this
    /// port. `false` for non-owners in the no-RSS fallback and for excess
    /// lcores in the RSS case.
    pub fn is_rx_owner(&self, lcore: u32) -> (r: bool)
        ensures
            r == self.rx_queues().dom().contains(lcore),
    {
        self.rx.contains_key(&lcore)
    }

    /// The RX queue that `lcore` polls; `None` if it isn't assigned one on this
    /// port (non-owner with no RSS, or excess lcore with RSS).
    pub fn rx_queue(&self, lcore: u32) -> (r: Option<u16>)
        ensures
            r == self.rx_queues().get(lcore),
    {
        match self.rx.get(&lcore) {
            Some(q) => Some(*q),
            None => None,
        }
    }

    /// The TX queue that `lcore` feeds. Lcores that are not assigned one fall
    /// through to queue 0.
    pub fn tx_queue(&self, lcore: u32) -> (r: u16)
        ensures
            r == match self.tx_queues().get(lcore) {
                Some(q) => q,
                None => 0,
            },
    {
        match self.tx.get(&lcore) {
            Some(q) => *q,
            None => 0,
        }
    }
}

/// No two lcores poll the same RX queue, and every queue that is polled is one
/// of the port's.
pub proof fn law_rx_queues_are_exclusive(
    setup: PortSetup,
    lcores: Seq<u32>,
    owner: u32,
    a: u32,
    b: u32,
)
    requires
        setup.rx_queues >= 1,
        a != b,
        rx_map(setup, lcores, owner).dom().contains(a),
    ensures
        rx_map(setup, lcores, owner)[a] < setup.rx_queues,
        rx_map(setup, lcores, owner).dom().contains(b) ==> rx_map(setup, lcores, owner)[a]
            != rx_map(setup, lcores, owner)[b],
{
    if setup.rss_enabled {
        let n = if lcores.len() < setup.rx_queues {
            lcores.len()
        } else {
            setup.rx_queues as nat
        };
        lemma_rss_map(lcores, n, a, b);
    }
}

proof fn lemma_rss_map(lcores: Seq<u32>, n: nat, a: u32, b: u32)
    requires
        n <= u16::MAX,
        a != b,
        rss_map(lcores, n).dom().contains(a),
    ensures
        rss_map(lcores, n)[a] < n,
        rss_map(lcores, n).dom().contains(b) ==> rss_map(lcores, n)[b] < n && rss_map(lcores, n)[a]
            != rss_map(lcores, n)[b],
    decreases n,
{
    if n > 0 {
        let rest = rss_map(lcores, (n - 1) as nat);
        if rest.dom().contains(a) {
            lemma_rss_map(lcores, (n - 1) as nat, a, b);
        }
        if rest.dom().contains(b) {
            lemma_rss_map(lcores, (n - 1) as nat, b, a);
        }
    }
}

/// Every TX queue that is fed is one of the port's, and when there are at least
/// as many TX queues as lcores no two lcores share one.
pub proof fn law_tx_queues_are_exclusive_if_there_are_enough(
    lcores: Seq<u32>,
    queues: u16,
    a: u32,
    b: u32,
)
    requires
        queues >= 1,
        tx_map(lcores, queues, lcores.len()).dom().contains(a),
    ensures
        tx_map(lcores, queues, lcores.len())[a] < queues,
        a != b && lcores.len() <= queues && tx_map(lcores, queues, lcores.len()).dom().contains(b)
            ==> tx_map(lcores, queues, lcores.len())[a] != tx_map(lcores, queues, lcores.len())[b],
{
    lemma_tx_map(lcores, queues, lcores.len(), a);
    if a != b && lcores.len() <= queues && tx_map(lcores, queues, lcores.len()).dom().contains(b) {
        lemma_tx_map_is_rss_map(lcores, queues, lcores.len());
        lemma_rss_map(lcores, lcores.len(), a, b);
    }
}

proof fn lemma_tx_map(lcores: Seq<u32>, queues: u16, n: nat, a: u32)
    requires
        queues >= 1,
        tx_map(lcores, queues, n).dom().contains(a),
    ensures
        tx_map(lcores, queues, n)[a] < queues,
    decreases n,
{
    if n > 0 && lcores[n - 1] != a {
        lemma_tx_map(lcores, queues, (n - 1) as nat, a);
    }
}

/// With enough TX queues the lcores are spread as they are over RX queues.
proof fn lemma_tx_map_is_rss_map(lcores: Seq<u32>, queues: u16, n: nat)
    requires
        n <= queues,
    ensures
        tx_map(lcores, queues, n) == rss_map(lcores, n),
    decreases n,
{
    if n > 0 {
        lemma_tx_map_is_rss_map(lcores, queues, (n - 1) as nat);
        vstd::arithmetic::div_mod::lemma_small_mod((n - 1) as nat, queues as nat);
    }
}

/// A walk over the valid ports: each is found by asking for the next one at or
/// after an id, until there is none below `limit`.
pub struct PortScan {
    pub found: Vec<u16>,
    pub limit: u16,
}

impl PortScan {
    /// A walk that has found nothing yet. The first id to ask for is 0.
    pub fn new(limit: u16) -> (r: Self)
        ensures
            r.found@ == Seq::<u16>::empty(),
            r.limit == limit,
    {
        PortScan { found: Vec::new(), limit }
    }

    /// Report that `next` is the next valid port: record it and say from which
    /// id on to ask for the one after it, or end the walk if it is not below
    /// the limit.
    pub fn advance(&mut self, next: u16) -> (r: Option<u16>)
        ensures
            final(self).limit == old(self).limit,
            next < old(self).limit ==> r == Some((next + 1) as u16) && final(self).found@ == old(
                self,
            ).found@.push(next),
            next >= old(self).limit ==> r is None && final(self).found@ == old(self).found@,
    {
        if next < self.limit {
            self.found.push(next);
            Some(next + 1)
        } else {
            None
        }
    }
}

/// The lines that report the ports that were found.
pub open spec fn report_line(port_id: u16, info: Result<PortInfo, PortError>) -> Seq<char> {
    match info {
        Ok(i) => i.summary(),
        Err(e) => "port "@ + text::decimal(port_id as nat) + ": "@ + e.message(),
    }
}

/// What is printed for the port `port_id` after it was probed.
pub fn report_port(port_id: u16, info: &Result<PortInfo, PortError>) -> (r: String)
    ensures
        r@ == report_line(port_id, *info),
{
    match info {
        Ok(i) => i.to_string(),
        Err(e) => {
            let mut s = String::new();
            push_text(&mut s, "port ");
            push_decimal(&mut s, port_id as u64);
            push_text(&mut s, ": ");
            push_text(&mut s, e.to_string().as_str());
            assert(s@ =~= report_line(port_id, *info));
            s
        },
    }
}

/// A port gets as many queues as are asked for where the device has that many,
/// all that the device has where it has fewer, and never less than one. Packets
/// are spread over the RX queues if there are several and the device has both a
/// redirection table and a hash type.
pub proof fn law_what_a_port_gets(config: PortConfig, info: PortInfo)
    ensures
        ({
            let s = planned_setup(config, info);
            &&& s.port_id == config.port_id
            &&& 1 <= s.rx_queues
            &&& 1 <= s.tx_queues
            &&& 1 <= config.nb_rx_queues <= info.max_rx_queues ==> s.rx_queues
                == config.nb_rx_queues
            &&& 1 <= info.max_rx_queues < config.nb_rx_queues ==> s.rx_queues == info.max_rx_queues
            &&& config.nb_rx_queues == 0 || info.max_rx_queues == 0 ==> s.rx_queues == 1
            &&& 1 <= config.nb_tx_queues <= info.max_tx_queues ==> s.tx_queues
                == config.nb_tx_queues
            &&& 1 <= info.max_tx_queues < config.nb_tx_queues ==> s.tx_queues == info.max_tx_queues
            &&& config.nb_tx_queues == 0 || info.max_tx_queues == 0 ==> s.tx_queues == 1
            &&& s.rss_enabled <==> s.rx_queues >= 2 && info.reta_size != 0
                && info.flow_type_rss_offloads != 0
        }),
{
}

/// A device call fails if it returns a negative number, and then the error names
/// the step, its queue and that number.
pub proof fn law_failures_name_the_step(q: u16, ret: i32)
    ensures
        ret >= 0 ==> {
            &&& step_error(InitStep::Configure, ret) is None
            &&& step_error(InitStep::RxQueue(q), ret) is None
            &&& step_error(InitStep::TxQueue(q), ret) is None
            &&& step_error(InitStep::Start, ret) is None
            &&& step_error(InitStep::Promiscuous, ret) is None
        },
        ret < 0 ==> {
            &&& step_error(InitStep::Configure, ret) == Some(PortError::Configure(ret))
            &&& step_error(InitStep::RxQueue(q), ret) == Some(
                PortError::RxQueueSetup { queue: q, err: ret },
            )
            &&& step_error(InitStep::TxQueue(q), ret) == Some(
                PortError::TxQueueSetup { queue: q, err: ret },
            )
            &&& step_error(InitStep::Start, ret) == Some(PortError::Start(ret))
            &&& step_error(InitStep::Promiscuous, ret) == Some(PortError::Promiscuous(ret))
        },
        step_error(InitStep::Done, ret) is None,
{
}

/// With RSS the lcores have the RX queues in order, one each as far as they go;
/// without it the owner alone has one, the first. The TX queues go round among
/// the lcores in order.
pub proof fn law_queues_go_in_order(
    setup: PortSetup,
    lcores: Seq<u32>,
    owner: u32,
    queues: u16,
    k: int,
)
    requires
        lcores.no_duplicates(),
        0 <= k < lcores.len(),
        queues >= 1,
    ensures
        setup.rss_enabled && k < setup.rx_queues ==> rx_map(setup, lcores, owner).get(lcores[k])
            == Some(k as u16),
        setup.rss_enabled && k >= setup.rx_queues ==> rx_map(setup, lcores, owner).get(lcores[k])
            is None,
        !setup.rss_enabled ==> rx_map(setup, lcores, owner).get(lcores[k]) == if lcores[k]
            == owner {
            Some(0u16)
        } else {
            None
        },
        !setup.rss_enabled ==> rx_map(setup, lcores, owner).get(owner) == Some(0u16),
        tx_map(lcores, queues, lcores.len()).get(lcores[k]) == Some((k % queues as int) as u16),
{
    let n = if lcores.len() < setup.rx_queues {
        lcores.len()
    } else {
        setup.rx_queues as nat
    };
    lemma_rss_map_at(lcores, n, k);
    lemma_tx_map_at(lcores, queues, lcores.len(), k);
}

proof fn lemma_rss_map_at(lcores: Seq<u32>, n: nat, k: int)
    requires
        lcores.no_duplicates(),
        0 <= k < lcores.len(),
        n <= lcores.len(),
    ensures
        rss_map(lcores, n).get(lcores[k]) == if k < n {
            Some(k as u16)
        } else {
            None
        },
    decreases n,
{
    if n > 0 {
        lemma_rss_map_at(lcores, (n - 1) as nat, k);
    }
}

proof fn lemma_tx_map_at(lcores: Seq<u32>, queues: u16, n: nat, k: int)
    requires
        lcores.no_duplicates(),
        0 <= k < n,
        n <= lcores.len(),
    ensures
        tx_map(lcores, queues, n).get(lcores[k]) == Some((k % queues as int) as u16),
    decreases n,
{
    if k < n - 1 {
        lemma_tx_map_at(lcores, queues, (n - 1) as nat, k);
    }
}

/// A capability is there if its bit is set. On TX the checksums of IPv4, UDP and
/// TCP are bits 1, 2 and 3 and several segments bit 15; on RX the checksums are
/// bits 1, 2 and 3.
pub proof fn law_capabilities_are_bits(c: u64)
    ensures
        has(c, caps::TX_IPV4_CKSUM) <==> (c / 2) % 2 == 1,
        has(c, caps::TX_UDP_CKSUM) <==> (c / 4) % 2 == 1,
        has(c, caps::TX_TCP_CKSUM) <==> (c / 8) % 2 == 1,
        has(c, caps::TX_MULTI_SEGS) <==> (c / 32768) % 2 == 1,
        has(c, caps::RX_IPV4_CKSUM) <==> (c / 2) % 2 == 1,
        has(c, caps::RX_UDP_CKSUM) <==> (c / 4) % 2 == 1,
        has(c, caps::RX_TCP_CKSUM) <==> (c / 8) % 2 == 1,
{
    assert((c & 0x2u64 != 0 <==> (c / 2) % 2 == 1) && (c & 0x4u64 != 0 <==> (c / 4) % 2 == 1) && (c
        & 0x8u64 != 0 <==> (c / 8) % 2 == 1) && (c & 0x8000u64 != 0 <==> (c / 32768) % 2 == 1))
        by (bit_vector);
}

/// The capabilities of a port read as one line for each of its properties, in
/// this order and in these words.
pub proof fn law_port_in_words(p: PortInfo)
    ensures
        p.summary() == ("port "@ + text::decimal(p.port_id as nat) + " ("@ + p.driver_name@
            + ")\n"@) + ("  socket_id        : "@ + text::signed(p.socket_id as int) + "\n"@) + (
        "  queues           : "@ + text::decimal(p.max_rx_queues as nat) + " rx / "@
            + text::decimal(p.max_tx_queues as nat) + " tx (max)\n"@) + ("  max_rx_pktlen    : "@
            + text::decimal(p.max_rx_pktlen as nat) + "\n  max_mac_addrs    : "@ + text::decimal(
            p.max_mac_addrs as nat,
        ) + "\n"@) + ("  rss              : "@ + (if p.reta_size == 0 || p.flow_type_rss_offloads
            == 0 {
            "unusable"@
        } else {
            "usable"@
        }) + " (reta="@ + text::decimal(p.reta_size as nat) + ", key="@ + text::decimal(
            p.hash_key_size as nat,
        ) + " bytes, types=0x"@ + text::hex_fixed(p.flow_type_rss_offloads as nat, 16) + ")\n"@)
            + p.tx_line() + p.rx_line(),
        p.tx_line() == ("  tx cksum offload : ipv4="@ + text::boolean(
            (p.tx_offload_capa / 2) % 2 == 1,
        )) + (" udp="@ + text::boolean((p.tx_offload_capa / 4) % 2 == 1)) + (" tcp="@
            + text::boolean((p.tx_offload_capa / 8) % 2 == 1)) + (" multiseg="@ + text::boolean(
            (p.tx_offload_capa / 32768) % 2 == 1,
        )) + "\n"@,
        p.rx_line() == ("  rx cksum offload : ipv4="@ + text::boolean(
            (p.rx_offload_capa / 2) % 2 == 1,
        )) + (" udp="@ + text::boolean((p.rx_offload_capa / 4) % 2 == 1)) + (" tcp="@
            + text::boolean((p.rx_offload_capa / 8) % 2 == 1)),
{
    let t = p.tx_offload_capa;
    let r = p.rx_offload_capa;
    law_capabilities_are_bits(t);
    law_capabilities_are_bits(r);
    lemma_flag("  tx cksum offload : ipv4="@, t, caps::TX_IPV4_CKSUM, (t / 2) % 2 == 1);
    lemma_flag(" udp="@, t, caps::TX_UDP_CKSUM, (t / 4) % 2 == 1);
    lemma_flag(" tcp="@, t, caps::TX_TCP_CKSUM, (t / 8) % 2 == 1);
    lemma_flag(" multiseg="@, t, caps::TX_MULTI_SEGS, (t / 32768) % 2 == 1);
    lemma_flag("  rx cksum offload : ipv4="@, r, caps::RX_IPV4_CKSUM, (r / 2) % 2 == 1);
    lemma_flag(" udp="@, r, caps::RX_UDP_CKSUM, (r / 4) % 2 == 1);
    lemma_flag(" tcp="@, r, caps::RX_TCP_CKSUM, (r / 8) % 2 == 1);
}

proof fn lemma_flag(label: Seq<char>, capa: u64, bit: u64, there: bool)
    requires
        has(capa, bit) == there,
    ensures
        flag(label, capa, bit) == label + text::boolean(there),
{
    reveal(flag);
}

} // verus!
