use userspace_router::dpdk::lcore::{Lcore, LcoreIter};
use userspace_router::dpdk::mbuf::Mbuf;
use userspace_router::dpdk::port::{
    caps, info, init_port, normalised_socket, report_port, DeviceInfo, InitStep, Port, PortConfig,
    PortError, PortInfo, PortScan, PortSetup,
};
use userspace_router::dpdk::util::assign_ports;
use userspace_router::net::addr::Ipv4Addr;
use userspace_router::net::ethernet::EthernetHeader;
use userspace_router::net::util::Netmask;
use userspace_router::router::conf::{
    Alias, DhcpConfig, Dns, InterfaceConfig, InterfaceRole, LanConfig, RouterConfig,
};
use userspace_router::router::setup::{
    check_ports, dedicated_lcores, lan_pool, lan_server, mempool_name, no_load, roles, SetupError,
    LEASE_SECS,
};
use userspace_router::text::{
    push_boolean, push_decimal, push_hex2, push_hex_fixed, push_signed, push_text,
};

fn device(socket: i32) -> DeviceInfo {
    DeviceInfo {
        driver_name: String::from("net_ixgbe"),
        socket,
        ether_addr: [2, 0, 0, 0, 0, 7],
        max_rx_queues: 4,
        max_tx_queues: 2,
        max_rx_pktlen: 9728,
        max_mac_addrs: 128,
        rx_offload_capa: caps::RX_IPV4_CKSUM | caps::RX_UDP_CKSUM | caps::RX_TCP_CKSUM,
        tx_offload_capa: caps::TX_IPV4_CKSUM | caps::TX_TCP_CKSUM,
        reta_size: 512,
        hash_key_size: 40,
        flow_type_rss_offloads: caps::RSS_IPV4 | caps::RSS_UDP_IPV4 | 0x8,
    }
}

fn port_info(port_id: u16, socket: i32) -> PortInfo {
    info(port_id, 0, device(socket)).unwrap()
}

fn config(rx: u16, tx: u16) -> PortConfig {
    PortConfig {
        port_id: 3,
        nb_rx_queues: rx,
        nb_tx_queues: tx,
        rx_ring_size: 1024,
        tx_ring_size: 1024,
    }
}

#[test]
fn capabilities_are_reported() {
    let i = port_info(3, -1);
    assert_eq!(i.socket_id, 0);
    assert!(i.rss_usable());
    assert!(i.supports_per_core_tx(2) && !i.supports_per_core_tx(3));
    assert!(i.rx_checksum_offload());
    assert!(!i.tx_checksum_offload());
    let text = "port 3 (net_ixgbe)\n  socket_id        : 0\n  queues           : 4 rx / 2 tx (max)\n  max_rx_pktlen    : 9728\n  max_mac_addrs    : 128\n  rss              : usable (reta=512, key=40 bytes, types=0x000000000000002c)\n  tx cksum offload : ipv4=true udp=false tcp=true multiseg=false\n  rx cksum offload : ipv4=true udp=true tcp=true";
    assert_eq!(i.to_string(), text);
    assert_eq!(report_port(3, &Ok(i)), text);
}

#[test]
fn a_failed_probe_is_reported() {
    let r = info(5, -19, device(0));
    assert!(matches!(r, Err(PortError::Info(-19))));
    assert_eq!(report_port(5, &r), "port 5: rte_eth_dev_info_get failed: -19");
}

#[test]
fn rss_needs_a_table_and_a_hash_type() {
    let mut d = device(0);
    d.reta_size = 0;
    assert!(!info(0, 0, d).unwrap().rss_usable());
    let mut d = device(0);
    d.flow_type_rss_offloads = 0;
    assert!(!info(0, 0, d).unwrap().rss_usable());
}

#[test]
fn sockets_without_affinity_count_as_the_first() {
    assert_eq!(normalised_socket(-1), 0);
    assert_eq!(normalised_socket(1), 1);
}

#[test]
fn queue_counts_are_clamped() {
    let i = port_info(3, 1);
    let p = init_port(&config(8, 8), &i);
    assert_eq!((p.setup.rx_queues, p.setup.tx_queues), (4, 2));
    assert!(p.setup.rss_enabled);
    assert_eq!(p.rss_hf, caps::RSS_IPV4 | caps::RSS_UDP_IPV4);
    assert_eq!(p.socket, 1);
    let p = init_port(&config(0, 0), &i);
    assert_eq!((p.setup.rx_queues, p.setup.tx_queues), (1, 1));
    assert!(!p.setup.rss_enabled);
    assert_eq!(p.rss_hf, 0);
}

#[test]
fn ports_come_up_step_by_step() {
    let mut p = init_port(&config(2, 2), &port_info(3, 0));
    let mut seen = Vec::new();
    while p.step != InitStep::Done {
        seen.push(p.step);
        p.advance(0).unwrap();
    }
    assert_eq!(
        seen,
        vec![
            InitStep::Configure,
            InitStep::RxQueue(0),
            InitStep::RxQueue(1),
            InitStep::TxQueue(0),
            InitStep::TxQueue(1),
            InitStep::Start,
            InitStep::Promiscuous,
        ]
    );
}

/// What is said when the `n`-th step fails.
fn failure(n: usize) -> String {
    let mut p = init_port(&config(2, 2), &port_info(3, 0));
    for _ in 0..n {
        p.advance(0).unwrap();
    }
    let step = p.step;
    let e = p.advance(-22).unwrap_err();
    assert_eq!(p.step, step);
    e.to_string()
}

#[test]
fn each_step_has_its_error() {
    assert_eq!(failure(0), "port configure failed: -22");
    assert_eq!(failure(2), "RX queue 1 setup failed: -22");
    assert_eq!(failure(3), "TX queue 0 setup failed: -22");
    assert_eq!(failure(5), "port start failed: -22");
    assert_eq!(failure(6), "promiscuous enable failed: -22");
}

fn setup(rx_queues: u16, tx_queues: u16, rss_enabled: bool) -> PortSetup {
    PortSetup { port_id: 3, rx_queues, tx_queues, rss_enabled }
}

#[test]
fn with_rss_every_lcore_has_a_queue_while_there_are_queues() {
    let p = Port::new(setup(2, 2, true), port_info(3, 0), &[10, 11, 12]);
    assert_eq!(p.rx_queue(10), Some(0));
    assert_eq!(p.rx_queue(11), Some(1));
    assert_eq!(p.rx_queue(12), None);
    assert!(p.is_rx_owner(11) && !p.is_rx_owner(12));
    assert_eq!((p.tx_queue(10), p.tx_queue(11), p.tx_queue(12)), (0, 1, 0));
    assert_eq!(p.tx_queue(99), 0);
    assert_eq!(p.port_id(), 3);
    assert_eq!(p.setup().rx_queues, 2);
    assert_eq!(p.info().max_rx_queues, 4);
}

#[test]
fn without_rss_exactly_one_lcore_polls() {
    let lcores = [10, 11, 12, 13];
    let mut owners = Vec::new();
    for _ in 0..200 {
        let p = Port::new(setup(1, 4, false), port_info(3, 0), &lcores);
        let polling: Vec<u32> = lcores.iter().copied().filter(|l| p.is_rx_owner(*l)).collect();
        assert_eq!(polling.len(), 1);
        assert_eq!(p.rx_queue(polling[0]), Some(0));
        owners.push(polling[0]);
    }
    owners.sort();
    owners.dedup();
    assert!(owners.len() > 1, "the owner is chosen at random");
    let p = Port::with_owner(setup(1, 4, false), port_info(3, 0), &lcores, 12);
    assert_eq!((p.rx_queue(12), p.rx_queue(10)), (Some(0), None));
    assert_eq!(p.tx_queue(13), 3);
}

#[test]
fn ports_are_scanned_in_order() {
    let mut s = PortScan::new(32);
    assert_eq!(s.advance(1), Some(2));
    assert_eq!(s.advance(4), Some(5));
    assert_eq!(s.advance(32), None);
    assert_eq!(s.found, vec![1, 4]);
}

#[test]
fn lcores_are_walked() {
    let mut it = LcoreIter::default();
    assert_eq!(it.curr, u32::MAX);
    assert_eq!(it.next(2, 128, 0), Some(Lcore { id: 2, socket: 0 }));
    assert_eq!(it.curr, 2);
    assert_eq!(it.next(5, 128, 1), Some(Lcore { id: 5, socket: 1 }));
    assert_eq!(it.next(128, 128, 0), None);
    assert_eq!(it.curr, 128);
    assert_eq!(it.next(128, 128, 0), None);
}

fn lcores() -> Vec<Lcore> {
    vec![Lcore { id: 1, socket: 0 }, Lcore { id: 2, socket: 0 }, Lcore { id: 3, socket: 1 }]
}

#[test]
fn ports_go_to_lcores_on_their_socket() {
    let ports =
        [port_info(0, 0), port_info(1, 0), port_info(2, 0), port_info(3, 1), port_info(4, 7)];
    let a = assign_ports(&ports, &lcores());
    assert_eq!(a.get(&0), Some(&1));
    assert_eq!(a.get(&1), Some(&2));
    assert_eq!(a.get(&2), Some(&1));
    assert_eq!(a.get(&3), Some(&3));
    // No lcore on socket 7: the first of the least loaded ones.
    assert_eq!(a.get(&4), Some(&2));
    assert_eq!(a.len(), 5);
}

#[test]
fn a_port_is_served_by_the_lcores_of_its_socket() {
    let mut load = no_load(&lcores());
    assert_eq!(dedicated_lcores(&lcores(), 0, &mut load), vec![1, 2]);
    assert_eq!(dedicated_lcores(&lcores(), 1, &mut load), vec![3]);
    // For want of a local lcore, the least loaded one, the lowest id first.
    assert_eq!(dedicated_lcores(&lcores(), 7, &mut load), vec![1]);
    assert_eq!(dedicated_lcores(&lcores(), 7, &mut load), vec![2]);
    assert_eq!(dedicated_lcores(&lcores(), 7, &mut load), vec![3]);
    assert_eq!(dedicated_lcores(&lcores(), 7, &mut load), vec![1]);
    assert_eq!(load[0].ports, 2);
    assert_eq!(load[1].ports, 1);
}

fn interface(name: &str, role: InterfaceRole) -> InterfaceConfig {
    InterfaceConfig { name: String::from(name), role }
}

#[test]
fn the_first_wan_interface_counts() {
    let r = roles(&vec![
        interface("a", InterfaceRole::Lan),
        interface("b", InterfaceRole::Wan),
        interface("c", InterfaceRole::Lan),
        interface("d", InterfaceRole::Wan),
    ])
    .unwrap();
    assert_eq!(r.wan, 1);
    assert_eq!(r.lans, vec![0, 2]);
}

#[test]
fn unusable_configurations_are_refused() {
    let e = roles(&vec![interface("a", InterfaceRole::Lan)]).err().unwrap();
    assert_eq!(e, SetupError::NoWan);
    assert_eq!(e.to_string(), "WAN port not configured");
    let e = check_ports(1, &vec![0, 1]).unwrap_err();
    assert_eq!(e, SetupError::WanIsLan);
    assert_eq!(e.to_string(), "WAN port must be distinct from LAN ports");
    let e = check_ports(1, &vec![]).unwrap_err();
    assert_eq!(e, SetupError::NoLan);
    assert_eq!(e.to_string(), "at least one LAN port required");
    assert_eq!(check_ports(1, &vec![0, 2]), Ok(vec![1, 0, 2]));
}

fn router_config(start: Ipv4Addr, end: Ipv4Addr) -> RouterConfig {
    RouterConfig {
        interfaces: vec![],
        lan: LanConfig {
            ip: Ipv4Addr::new(192, 168, 1, 1),
            mask: Netmask::new(Ipv4Addr::new(255, 255, 255, 0)).unwrap(),
        },
        dhcp: DhcpConfig { pool_start: start, pool_end: end },
        dns: Dns {
            servers: vec![Ipv4Addr::new(9, 9, 9, 9)],
            search_domains: vec![],
            aliases: vec![Alias {
                ip: Ipv4Addr::new(192, 168, 1, 5),
                fqdn: String::from("printer.lan"),
            }],
        },
    }
}

#[test]
fn the_lan_advertises_the_router() {
    let c = router_config(Ipv4Addr::new(192, 168, 1, 1), Ipv4Addr::new(192, 168, 1, 9));
    let s = lan_server(&c, [2, 0, 0, 0, 0, 1]);
    assert_eq!(s.server_ip, c.lan.ip);
    assert_eq!(s.gateway, c.lan.ip);
    assert_eq!(s.subnet_mask, Ipv4Addr::new(255, 255, 255, 0));
    assert_eq!(s.dns, vec![c.lan.ip, Ipv4Addr::new(9, 9, 9, 9)]);
    assert_eq!(s.lease_secs, LEASE_SECS);
    // The router's own address is not handed out.
    let p = lan_pool(&c).unwrap();
    assert_eq!(
        p.intervals,
        vec![(Ipv4Addr::new(192, 168, 1, 2), Ipv4Addr::new(192, 168, 1, 9))]
    );
    let c = router_config(Ipv4Addr::new(192, 168, 1, 9), Ipv4Addr::new(192, 168, 1, 8));
    assert!(lan_pool(&c).is_none());
}

#[test]
fn pools_are_named_by_socket() {
    assert_eq!(mempool_name(0), "MEMPOOL0");
    assert_eq!(mempool_name(-1), "MEMPOOL-1");
}

#[test]
fn text_is_built_piece_by_piece() {
    let mut s = String::new();
    push_text(&mut s, "n=");
    push_decimal(&mut s, 0);
    push_decimal(&mut s, u64::MAX);
    push_text(&mut s, " ");
    push_signed(&mut s, i32::MIN);
    push_text(&mut s, " ");
    push_hex2(&mut s, 0x0f);
    push_hex_fixed(&mut s, 0xabc, 4);
    push_text(&mut s, " ");
    push_boolean(&mut s, true);
    push_boolean(&mut s, false);
    assert_eq!(s, "n=018446744073709551615 -2147483648 0f0abc truefalse");
}

#[test]
fn buffers_grow_into_their_room() {
    let mut m = Mbuf::with_room(20);
    assert_eq!((m.data_len(), m.pkt_len()), (0, 0));
    assert!(m.ethernet().is_none());
    m.append(14).unwrap()[13] = 0x55;
    assert_eq!(m.data_len(), 14);
    assert_eq!(m.data()[13], 0x55);
    assert!(m.append(7).is_none());
    assert_eq!(m.append(6).unwrap(), &[0u8; 6]);
    assert!(m.ethernet().is_some());
    m.data_mut()[0] = 9;
    assert_eq!(m.data()[0], 9);
}

#[test]
fn headers_are_edited_in_a_buffer() {
    let mut m = Mbuf::from_bytes(vec![7u8; 20]);
    assert!(m.header_at_mut::<EthernetHeader>(7).is_none());
    let hdr = m.header_at_mut::<EthernetHeader>(6).unwrap();
    let mut e: EthernetHeader = hdr.get();
    assert_eq!(e.src, [7; 6]);
    e.src = [1, 2, 3, 4, 5, 6];
    hdr.put(&e);
    assert_eq!(m.data(), &[7, 7, 7, 7, 7, 7, 7, 7, 7, 7, 7, 7, 1, 2, 3, 4, 5, 6, 7, 7]);
}
