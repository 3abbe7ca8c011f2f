use userspace_router::dpdk::mbuf::Mbuf;
use userspace_router::dpdk::port::{Port, PortInfo, PortSetup};
use userspace_router::net::addr::Ipv4Addr;
use userspace_router::net::arp as narp;
use userspace_router::net::checksum;
use userspace_router::net::dhcp::MessageType;
use userspace_router::net::ethernet::{ethertype, EthernetHeader, MacAddr, BROADCAST};
use userspace_router::net::ip::{proto, Ipv4Header};
use userspace_router::net::tcp::{flag, TcpHeader};
use userspace_router::net::util::{software_defined_mac, Netmask};
use userspace_router::net::view;
use userspace_router::net::wire::mut_from_prefix;
use userspace_router::router::app::{
    AppCtx, LanPortCtx, LanSegment, PortCtx, Transmit, WanPortCtx, SWEEP_INTERVAL_MS,
};
use userspace_router::router::conf::{DhcpConfig, Dns, LanConfig, RouterConfig};
use userspace_router::router::conntrack::ConnTrack;
use userspace_router::router::dhcp::{serve, DhcpClient, DhcpServerConfig};
use userspace_router::router::fdb::Fdb;
use userspace_router::router::frame::{build_udp_ipv4, UdpV4};
use userspace_router::router::leases::LeaseTable;
use userspace_router::router::neighbor::{NeighborTable, REQUEST_INTERVAL_MS};
use userspace_router::router::pool::AddressPool;
use userspace_router::router::setup::{assemble, WAN_XID};
use userspace_router::router::tick::Tick;
use userspace_router::router::translation::Nat;
use userspace_router::router::worker::{egress, ingress, set_ethernet};

const SERVER_MAC: MacAddr = [0x02, 0, 0, 0, 0, 0xaa];
const WAN_MAC: MacAddr = [0x02, 0, 0, 0, 0, 0x01];
const HOST_MAC: MacAddr = [0x02, 0, 0, 0, 0, 0x10];
const OTHER_MAC: MacAddr = [0x02, 0, 0, 0, 0, 0x11];
const GW_MAC: MacAddr = [0x02, 0, 0, 0, 0, 0xee];

const WAN: u16 = 0;
const LAN_1: u16 = 1;
const LAN_2: u16 = 2;
const LAN_3: u16 = 3;

fn server_ip() -> Ipv4Addr {
    Ipv4Addr::new(192, 168, 1, 1)
}

fn host_ip() -> Ipv4Addr {
    Ipv4Addr::new(192, 168, 1, 50)
}

fn gw_ip() -> Ipv4Addr {
    Ipv4Addr::new(203, 0, 113, 1)
}

fn leased_ip() -> Ipv4Addr {
    Ipv4Addr::new(203, 0, 113, 100)
}

fn remote_ip() -> Ipv4Addr {
    Ipv4Addr::new(8, 8, 8, 8)
}

fn port(port_id: u16, mac: MacAddr) -> Port {
    let info = PortInfo {
        port_id,
        driver_name: String::from("net_virtio"),
        socket_id: 0,
        ether_addr: mac,
        max_rx_queues: 1,
        max_tx_queues: 1,
        max_rx_pktlen: 1518,
        max_mac_addrs: 1,
        rx_offload_capa: 0,
        tx_offload_capa: 0,
        reta_size: 0,
        hash_key_size: 0,
        flow_type_rss_offloads: 0,
    };
    Port::new(PortSetup { port_id, rx_queues: 1, tx_queues: 1, rss_enabled: false }, info, &[1])
}

fn lan_mac(port_id: u16) -> MacAddr {
    [0x02, 0, 0, 0, 1, port_id as u8]
}

fn server_config() -> DhcpServerConfig {
    DhcpServerConfig {
        server_ip: server_ip(),
        server_mac: SERVER_MAC,
        gateway: server_ip(),
        subnet_mask: Ipv4Addr::new(255, 255, 255, 0),
        dns: vec![server_ip()],
        lease_secs: 600,
    }
}

/// A router with one WAN and three LAN ports.
fn router() -> AppCtx {
    let lan_ports = [LAN_1, LAN_2, LAN_3]
        .iter()
        .map(|id| LanPortCtx::new(port(*id, lan_mac(*id)), server_config()))
        .collect();
    AppCtx::new(
        server_ip(),
        SERVER_MAC,
        Fdb::new(),
        Nat::new(Ipv4Addr::unspecified(), 40000, 40010),
        ConnTrack::new(),
        WanPortCtx::new(
            port(WAN, WAN_MAC),
            NeighborTable::new(WAN_MAC, Ipv4Addr::unspecified()),
            DhcpClient::new(WAN_MAC, 7),
        ),
        LanSegment {
            neighbors: NeighborTable::new(SERVER_MAC, server_ip()),
            pool: AddressPool::new(
                Ipv4Addr::new(192, 168, 1, 50),
                Ipv4Addr::new(192, 168, 1, 60),
            ),
            leases: LeaseTable::default(),
        },
        lan_ports,
    )
}

fn receive(app: &mut AppCtx, port: PortCtx, frame: &[u8], now: u64) -> Vec<Transmit> {
    app.drive(Tick::ms(now), port, vec![Mbuf::from_bytes(frame.to_vec())])
}

fn ports_of(sent: &[Transmit]) -> Vec<u16> {
    sent.iter().map(|t| t.port_id).collect()
}

fn request(mac: MacAddr, ip: Ipv4Addr, target: Ipv4Addr) -> Vec<u8> {
    let mut f = vec![0u8; narp::FRAME_LEN];
    narp::build_request(&mut f, mac, ip, target).unwrap();
    f
}

fn reply(mac: MacAddr, ip: Ipv4Addr, to_mac: MacAddr, to: Ipv4Addr) -> Vec<u8> {
    let mut f = vec![0u8; narp::FRAME_LEN];
    narp::build_reply(&mut f, mac, ip, to_mac, to).unwrap();
    f
}

/// A TCP segment without payload.
fn segment(
    macs: (MacAddr, MacAddr),
    src: (Ipv4Addr, u16),
    dst: (Ipv4Addr, u16),
    flags: u8,
) -> Vec<u8> {
    let mut f = vec![0u8; 54];
    let (hdr, rest) = mut_from_prefix::<EthernetHeader>(&mut f).unwrap();
    let mut e = EthernetHeader::default();
    e.src = macs.0;
    e.dst = macs.1;
    e.set_ethertype(ethertype::IPV4);
    hdr.put(&e);
    let (hdr, rest) = mut_from_prefix::<Ipv4Header>(rest).unwrap();
    let mut i = Ipv4Header::default();
    i.set_version_ihl(4, 5);
    i.set_total_len(40);
    i.ttl = 64;
    i.protocol = proto::TCP;
    i.set_src(src.0);
    i.set_dst(dst.0);
    hdr.put(&i);
    let (hdr, _) = mut_from_prefix::<TcpHeader>(rest).unwrap();
    let mut t = TcpHeader::default();
    t.set_src_port(src.1);
    t.set_dst_port(dst.1);
    t.set_data_offset(5);
    t.set_flag(flags, true);
    hdr.put(&t);
    let c = checksum::ipv4_header(&f[14..34]);
    f[24..26].copy_from_slice(&c.to_be_bytes());
    let mut acc = checksum::accumulate(0, &f[26..34]);
    acc = acc.wrapping_add(6 + 20);
    acc = checksum::accumulate(acc, &f[34..54]);
    let c = checksum::finish(acc);
    f[50..52].copy_from_slice(&c.to_be_bytes());
    f
}

fn datagram(src_mac: MacAddr, dst_mac: MacAddr, dst_ip: Ipv4Addr) -> Vec<u8> {
    let p = UdpV4 {
        src_mac,
        dst_mac,
        src_ip: host_ip(),
        dst_ip,
        src_port: 5000,
        dst_port: 5001,
        ttl: 64,
    };
    let mut f = vec![0u8; 64];
    let n = build_udp_ipv4(&mut f, &p, &[1, 2, 3]).unwrap();
    f.truncate(n);
    f
}

/// Run the WAN side's DHCP client against an upstream server until its address
/// is in use.
fn bring_up_wan(app: &mut AppCtx) {
    let cfg = DhcpServerConfig {
        server_ip: gw_ip(),
        server_mac: GW_MAC,
        gateway: gw_ip(),
        subnet_mask: Ipv4Addr::new(255, 255, 255, 0),
        dns: vec![],
        lease_secs: 600,
    };
    let mut pool = AddressPool::new(leased_ip(), leased_ip());
    let mut leases = LeaseTable::default();
    let mut up = [0u8; 600];
    let mut sent = app.drive(Tick::ms(0), PortCtx::Wan, vec![]);
    for _ in 0..2 {
        assert_eq!(ports_of(&sent), vec![WAN]);
        let n = {
            let eth = view::parse(&sent[0].frame).unwrap();
            let dhcp = eth.ipv4().unwrap().udp().unwrap().dhcp().unwrap();
            serve(&cfg, &mut pool, &mut leases, &dhcp, &mut up).unwrap()
        };
        sent = receive(app, PortCtx::Wan, &up[..n], 1);
    }
    // The address was put into use, and the gateway is asked for.
    assert_eq!(ports_of(&sent), vec![WAN]);
    assert_eq!(sent[0].frame, request(WAN_MAC, leased_ip(), gw_ip()));
    // Nothing more happens on its own.
    assert!(app.drive(Tick::ms(2), PortCtx::Wan, vec![]).is_empty());
}

#[test]
fn a_router_is_put_together_from_its_configuration() {
    let config = |start: u8, end: u8| RouterConfig {
        interfaces: vec![],
        lan: LanConfig {
            ip: server_ip(),
            mask: Netmask::new(Ipv4Addr::new(255, 255, 255, 0)).unwrap(),
        },
        dhcp: DhcpConfig {
            pool_start: Ipv4Addr::new(192, 168, 1, start),
            pool_end: Ipv4Addr::new(192, 168, 1, end),
        },
        dns: Dns { servers: vec![], search_domains: vec![], aliases: vec![] },
    };
    let ports = || [LAN_1, LAN_2].iter().map(|id| port(*id, lan_mac(*id))).collect();
    assert!(assemble(&config(9, 8), port(WAN, WAN_MAC), ports(), 40000, 40010).is_none());
    let mut app = assemble(&config(1, 9), port(WAN, WAN_MAC), ports(), 40000, 40010).unwrap();
    assert_eq!(app.wan_port().port_id(), WAN);
    assert_eq!(app.lan_ports().len(), 2);
    // The router answers with the MAC that stands for its address.
    let mac = software_defined_mac(server_ip());
    let sent = receive(&mut app, PortCtx::Lan(0), &request(OTHER_MAC, host_ip(), server_ip()), 1);
    assert_eq!(sent[0].frame, reply(mac, server_ip(), OTHER_MAC, host_ip()));
    // Its own address, the lowest of the pool, is not handed out.
    let mut client = DhcpClient::new(HOST_MAC, 99);
    let mut out = [0u8; 600];
    let n = client.poll(&mut out).unwrap();
    let sent = receive(&mut app, PortCtx::Lan(1), &out[..n], 2);
    let eth = view::parse(&sent[0].frame).unwrap();
    let dhcp = eth.ipv4().unwrap().udp().unwrap().dhcp().unwrap();
    assert_eq!(dhcp.header().your_ip(), Ipv4Addr::new(192, 168, 1, 2));
    // The WAN side starts by looking for an address.
    let sent = app.drive(Tick::ms(3), PortCtx::Wan, vec![]);
    let eth = view::parse(&sent[0].frame).unwrap();
    let dhcp = eth.ipv4().unwrap().udp().unwrap().dhcp().unwrap();
    assert_eq!(dhcp.message_type(), Some(MessageType::Discover));
    assert_eq!(dhcp.header().xid(), WAN_XID);
}

#[test]
fn requests_for_the_router_are_answered() {
    let mut app = router();
    let sent = receive(&mut app, PortCtx::Lan(1), &request(HOST_MAC, host_ip(), server_ip()), 1);
    assert_eq!(ports_of(&sent), vec![LAN_2]);
    assert_eq!(sent[0].frame, reply(SERVER_MAC, server_ip(), HOST_MAC, host_ip()));
}

#[test]
fn broadcast_requests_for_others_are_flooded() {
    let mut app = router();
    let f = request(HOST_MAC, host_ip(), Ipv4Addr::new(192, 168, 1, 77));
    let sent = receive(&mut app, PortCtx::Lan(0), &f, 1);
    assert_eq!(ports_of(&sent), vec![LAN_2, LAN_3]);
    assert!(sent.iter().all(|t| t.frame == f));
}

#[test]
fn the_lan_is_bridged() {
    let mut app = router();
    // Unknown destination: flooded, but not back out on the port it came from.
    let f = datagram(HOST_MAC, OTHER_MAC, remote_ip());
    assert_eq!(ports_of(&receive(&mut app, PortCtx::Lan(0), &f, 1)), vec![LAN_2, LAN_3]);
    // The answer goes to the port the host was seen on, and nowhere else.
    let g = datagram(OTHER_MAC, HOST_MAC, remote_ip());
    let sent = receive(&mut app, PortCtx::Lan(2), &g, 2);
    assert_eq!(ports_of(&sent), vec![LAN_1]);
    assert_eq!(sent[0].frame, g);
    // Both are known now.
    assert_eq!(ports_of(&receive(&mut app, PortCtx::Lan(0), &f, 3)), vec![LAN_3]);
    // A frame to a host on the same port goes nowhere.
    let h = datagram([2, 0, 0, 0, 0, 0x12], HOST_MAC, remote_ip());
    assert!(receive(&mut app, PortCtx::Lan(0), &h, 4).is_empty());
    // Broadcasts go everywhere else.
    let b = datagram(HOST_MAC, BROADCAST, Ipv4Addr::broadcast());
    assert_eq!(ports_of(&receive(&mut app, PortCtx::Lan(1), &b, 5)), vec![LAN_1, LAN_3]);
}

#[test]
fn the_lan_is_given_addresses() {
    let mut app = router();
    let mut client = DhcpClient::new(HOST_MAC, 99);
    let mut out = [0u8; 600];
    let n = client.poll(&mut out).unwrap();
    let sent = receive(&mut app, PortCtx::Lan(0), &out[..n], 1);
    assert_eq!(ports_of(&sent), vec![LAN_1]);
    let eth = view::parse(&sent[0].frame).unwrap();
    let dhcp = eth.ipv4().unwrap().udp().unwrap().dhcp().unwrap();
    client.on_receive(&dhcp);
    // The client roams to another port and keeps its address.
    let n = client.poll(&mut out).unwrap();
    let sent = receive(&mut app, PortCtx::Lan(2), &out[..n], 2);
    assert_eq!(ports_of(&sent), vec![LAN_3]);
    let eth = view::parse(&sent[0].frame).unwrap();
    let dhcp = eth.ipv4().unwrap().udp().unwrap().dhcp().unwrap();
    client.on_receive(&dhcp);
    assert_eq!(client.bound_ip(), Some(Ipv4Addr::new(192, 168, 1, 50)));
}

#[test]
fn an_address_in_use_is_not_leased() {
    let mut app = router();
    // A host uses the lowest address of the pool without having asked for it.
    receive(&mut app, PortCtx::Lan(0), &request(OTHER_MAC, host_ip(), server_ip()), 1);
    let mut client = DhcpClient::new(HOST_MAC, 99);
    let mut out = [0u8; 600];
    let n = client.poll(&mut out).unwrap();
    let sent = receive(&mut app, PortCtx::Lan(0), &out[..n], 2);
    let eth = view::parse(&sent[0].frame).unwrap();
    let dhcp = eth.ipv4().unwrap().udp().unwrap().dhcp().unwrap();
    assert_eq!(dhcp.message_type(), Some(MessageType::Offer));
    assert_eq!(dhcp.header().your_ip(), Ipv4Addr::new(192, 168, 1, 51));
    // The host moves to another address: its first one is free again.
    let moved = Ipv4Addr::new(192, 168, 1, 55);
    receive(&mut app, PortCtx::Lan(0), &request(OTHER_MAC, moved, server_ip()), 3);
    let mut second = DhcpClient::new([2, 0, 0, 0, 0, 0x13], 100);
    let n = second.poll(&mut out).unwrap();
    let sent = receive(&mut app, PortCtx::Lan(0), &out[..n], 4);
    let eth = view::parse(&sent[0].frame).unwrap();
    let dhcp = eth.ipv4().unwrap().udp().unwrap().dhcp().unwrap();
    assert_eq!(dhcp.header().your_ip(), host_ip());
}

#[test]
fn nothing_leaves_before_the_wan_is_up() {
    let mut app = router();
    let syn = segment((HOST_MAC, SERVER_MAC), (host_ip(), 1234), (remote_ip(), 80), flag::SYN);
    assert!(receive(&mut app, PortCtx::Lan(0), &syn, 1).is_empty());
}

#[test]
fn only_tcp_leaves() {
    let mut app = router();
    bring_up_wan(&mut app);
    let f = datagram(HOST_MAC, SERVER_MAC, remote_ip());
    assert!(receive(&mut app, PortCtx::Lan(0), &f, 3).is_empty());
}

#[test]
fn a_connection_goes_out_and_its_answer_comes_back() {
    let mut app = router();
    bring_up_wan(&mut app);
    let syn = segment((HOST_MAC, SERVER_MAC), (host_ip(), 1234), (remote_ip(), 80), flag::SYN);
    // The gateway is not known yet: it is asked for, and the segment waits.
    let sent = receive(&mut app, PortCtx::Lan(0), &syn, 3);
    assert_eq!(ports_of(&sent), vec![WAN]);
    assert_eq!(sent[0].frame, request(WAN_MAC, leased_ip(), gw_ip()));
    // The gateway answers: the segment goes out, translated.
    let sent =
        receive(&mut app, PortCtx::Wan, &reply(GW_MAC, gw_ip(), WAN_MAC, leased_ip()), 4);
    assert_eq!(ports_of(&sent), vec![WAN]);
    let expected = segment((WAN_MAC, GW_MAC), (leased_ip(), 40000), (remote_ip(), 80), flag::SYN);
    assert_eq!(sent[0].frame, expected);
    // The next segment goes out at once.
    let sent = receive(&mut app, PortCtx::Lan(0), &syn, 5);
    assert_eq!(ports_of(&sent), vec![WAN]);
    assert_eq!(sent[0].frame, expected);

    // The answer of the peer waits until the host is known on the LAN.
    let back = segment(
        (GW_MAC, WAN_MAC),
        (remote_ip(), 80),
        (leased_ip(), 40000),
        flag::SYN | flag::ACK,
    );
    let sent = receive(&mut app, PortCtx::Wan, &back, 6);
    assert_eq!(ports_of(&sent), vec![LAN_1, LAN_2, LAN_3]);
    assert!(sent.iter().all(|t| t.frame == request(SERVER_MAC, server_ip(), host_ip())));
    let sent = receive(
        &mut app,
        PortCtx::Lan(0),
        &reply(HOST_MAC, host_ip(), SERVER_MAC, server_ip()),
        7,
    );
    assert_eq!(ports_of(&sent), vec![LAN_1]);
    assert_eq!(
        sent[0].frame,
        segment(
            (lan_mac(LAN_1), HOST_MAC),
            (remote_ip(), 80),
            (host_ip(), 1234),
            flag::SYN | flag::ACK
        )
    );
    // A stranger who hits the same port is not let in.
    let stranger = segment(
        (GW_MAC, WAN_MAC),
        (Ipv4Addr::new(198, 51, 100, 9), 80),
        (leased_ip(), 40000),
        flag::ACK,
    );
    assert!(receive(&mut app, PortCtx::Wan, &stranger, 8).is_empty());
}

#[test]
fn unsolicited_segments_are_dropped() {
    let mut app = router();
    bring_up_wan(&mut app);
    let f = segment((GW_MAC, WAN_MAC), (remote_ip(), 80), (leased_ip(), 40000), flag::SYN);
    assert!(receive(&mut app, PortCtx::Wan, &f, 3).is_empty());
    let g = datagram(GW_MAC, WAN_MAC, leased_ip());
    assert!(receive(&mut app, PortCtx::Wan, &g, 4).is_empty());
    assert!(receive(&mut app, PortCtx::Wan, &[0u8; 10], 5).is_empty());
}

#[test]
fn frames_of_a_burst_are_handled_in_order() {
    let mut app = router();
    let a = request(HOST_MAC, host_ip(), server_ip());
    let b = datagram(OTHER_MAC, HOST_MAC, remote_ip());
    let sent = app.drive(
        Tick::ms(1),
        PortCtx::Lan(0),
        vec![Mbuf::from_bytes(a), Mbuf::from_bytes(vec![1, 2, 3]), Mbuf::from_bytes(b)],
    );
    // The first is answered, the second dropped, the third is for this port.
    assert_eq!(ports_of(&sent), vec![LAN_1]);
}

#[test]
fn sweeps_ask_again_and_then_give_up() {
    let mut app = router();
    bring_up_wan(&mut app);
    let syn = segment((HOST_MAC, SERVER_MAC), (host_ip(), 1234), (remote_ip(), 80), flag::SYN);
    assert_eq!(receive(&mut app, PortCtx::Lan(0), &syn, 10).len(), 1);
    // The first sweep comes at once and finds nothing to do.
    assert!(app.maybe_sweep(Tick::ms(11)).is_empty());
    let t = 10 + REQUEST_INTERVAL_MS;
    let sent = app.maybe_sweep(Tick::ms(t));
    assert_eq!(ports_of(&sent), vec![WAN]);
    assert_eq!(sent[0].frame, request(WAN_MAC, leased_ip(), gw_ip()));
    // Not again before the interval is over.
    assert!(app.maybe_sweep(Tick::ms(t + SWEEP_INTERVAL_MS - 1)).is_empty());
    assert!(app.maybe_sweep(Tick::ms(t + SWEEP_INTERVAL_MS)).is_empty());
    assert_eq!(app.maybe_sweep(Tick::ms(t + REQUEST_INTERVAL_MS)).len(), 1);
    assert!(app.maybe_sweep(Tick::ms(t + 2 * REQUEST_INTERVAL_MS)).is_empty());
    // The segment was given up: an answer that late finds nothing to send.
    let sent = receive(
        &mut app,
        PortCtx::Wan,
        &reply(GW_MAC, gw_ip(), WAN_MAC, leased_ip()),
        t + 3 * REQUEST_INTERVAL_MS,
    );
    assert!(sent.is_empty());
}

/// A router that asked for its gateway at `now`, in order to send a segment.
fn asking_router(now: u64) -> AppCtx {
    let mut app = router();
    bring_up_wan(&mut app);
    let syn = segment((HOST_MAC, SERVER_MAC), (host_ip(), 1234), (remote_ip(), 80), flag::SYN);
    assert_eq!(receive(&mut app, PortCtx::Lan(0), &syn, now).len(), 1);
    app
}

#[test]
fn sweeps_stay_apart_after_a_long_time() {
    let t = (1 << 32) + 1_000_000;
    let mut app = asking_router(t);
    let due = t + REQUEST_INTERVAL_MS;
    assert!(app.maybe_sweep(Tick::ms(due - 1)).is_empty());
    // A request is due, but the last sweep was too recent.
    assert!(app.maybe_sweep(Tick::ms(due)).is_empty());
    assert!(app.maybe_sweep(Tick::ms(due - 1 + SWEEP_INTERVAL_MS - 1)).is_empty());
    assert_eq!(app.maybe_sweep(Tick::ms(due - 1 + SWEEP_INTERVAL_MS)).len(), 1);
}

#[test]
fn a_sweep_at_the_start_counts() {
    let mut app = asking_router(0);
    assert!(app.maybe_sweep(Tick::ms(0)).is_empty());
    assert!(app.maybe_sweep(Tick::ms(100)).is_empty());
    // These are swept at, and ten milliseconds later is too early each time.
    for t in [340, 590, 840] {
        assert!(app.maybe_sweep(Tick::ms(t)).is_empty());
        assert!(app.maybe_sweep(Tick::ms(t + 10)).is_empty());
    }
    assert_eq!(app.maybe_sweep(Tick::ms(1090)).len(), 1);
}

#[test]
fn the_ports_are_at_hand() {
    let app = router();
    assert_eq!(app.wan_port().port_id(), WAN);
    assert_eq!(app.wan_port().info().ether_addr, WAN_MAC);
    assert_eq!(app.wan_port().setup.rx_queues, 1);
    assert_eq!(app.wan_port().rx.get(&1), Some(&0));
    let ids: Vec<u16> = app.lan_ports().iter().map(|l| l.port.port_id()).collect();
    assert_eq!(ids, vec![LAN_1, LAN_2, LAN_3]);
    let mut wan = WanPortCtx::new(
        port(WAN, WAN_MAC),
        NeighborTable::new(WAN_MAC, Ipv4Addr::unspecified()),
        DhcpClient::new(WAN_MAC, 7),
    );
    assert_eq!(wan.gateway_ip(), None);
    wan.gateway = gw_ip();
    assert_eq!(wan.gateway_ip(), Some(gw_ip()));
}

#[test]
fn a_worker_translates_in_place() {
    let mut table = Nat::new(leased_ip(), 40000, 40010);
    let mut m = Mbuf::from_bytes(segment(
        (HOST_MAC, SERVER_MAC),
        (host_ip(), 1234),
        (remote_ip(), 80),
        flag::SYN,
    ));
    assert!(egress(&mut m, &mut table, WAN_MAC, GW_MAC));
    assert_eq!(
        m.data(),
        segment((WAN_MAC, GW_MAC), (leased_ip(), 40000), (remote_ip(), 80), flag::SYN)
    );
    let mut m = Mbuf::from_bytes(segment(
        (GW_MAC, WAN_MAC),
        (remote_ip(), 80),
        (leased_ip(), 40000),
        flag::ACK,
    ));
    let to = ingress(&mut m, &table).unwrap();
    assert_eq!((to.dst_ip, to.dst_port), (host_ip(), 1234));
    set_ethernet(&mut m, SERVER_MAC, HOST_MAC);
    assert_eq!(
        m.data(),
        segment((SERVER_MAC, HOST_MAC), (remote_ip(), 80), (host_ip(), 1234), flag::ACK)
    );
    // What is not TCP or UDP is left alone.
    let arp = request(HOST_MAC, host_ip(), server_ip());
    let mut m = Mbuf::from_bytes(arp.clone());
    assert!(!egress(&mut m, &mut table, WAN_MAC, GW_MAC));
    assert_eq!(m.data(), arp);
}
