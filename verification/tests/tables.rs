use userspace_router::net::addr::Ipv4Addr;
use userspace_router::net::checksum;
use userspace_router::net::ethernet::{ethertype, EthernetHeader, MacAddr};
use userspace_router::net::ip::{proto, Ipv4Header};
use userspace_router::net::tcp::{flag, TcpHeader};
use userspace_router::net::view;
use userspace_router::net::wire::mut_from_prefix;
use userspace_router::router::conntrack::{
    transition_on_recv, transition_on_send, ConnTrack, SharedConnTrack, TcpState,
};
use userspace_router::router::fdb::{Fdb, SharedFdb};
use userspace_router::router::frame::{build_udp_ipv4, frame_len, UdpV4, DEFAULT_TTL};
use userspace_router::router::leases::{LeaseTable, SharedLeases};
use userspace_router::router::pool::{AddressPool, SharedAddressPool};
use userspace_router::router::tick::Tick;
use userspace_router::router::translation::{
    translate_egress, translate_ingress, Nat, SharedNat, L4,
};
use userspace_router::sync::bitmask::Bitmask;

const INT_PORT: u16 = 49_152;
const EXT_PORT: u16 = 443;

fn int_ip() -> Ipv4Addr {
    Ipv4Addr::new(192, 168, 1, 50)
}

fn ext_ip() -> Ipv4Addr {
    Ipv4Addr::new(203, 0, 113, 10)
}

/// Helpers to read flow state out of conntrack for assertions.
fn states(c: &ConnTrack) -> Option<(TcpState, TcpState)> {
    c.states(int_ip(), INT_PORT, ext_ip(), EXT_PORT)
}

fn out(c: &mut ConnTrack, flags: u8, t_ms: u64) -> (TcpState, TcpState) {
    c.observe_egress(int_ip(), INT_PORT, ext_ip(), EXT_PORT, flags, Tick::ms(t_ms))
}

fn into_(c: &mut ConnTrack, flags: u8, t_ms: u64) -> bool {
    c.check_ingress(int_ip(), INT_PORT, ext_ip(), EXT_PORT, flags, Tick::ms(t_ms))
}

#[test]
fn three_way_handshake_walks_both_endpoints_to_established() {
    let mut c = ConnTrack::new();

    // (CLOSED, CLOSED) --SYN--> (SYN-SENT, SYN-RECEIVED)
    assert_eq!(out(&mut c, flag::SYN, 0), (TcpState::SynSent, TcpState::SynReceived));

    // (SYN-SENT, SYN-RECEIVED) <--SYN+ACK-- (ESTABLISHED, SYN-RECEIVED)
    // External sends SYN+ACK; it stays SYN-RECEIVED (resend semantics).
    assert!(into_(&mut c, flag::SYN | flag::ACK, 1));
    assert_eq!(states(&c).unwrap(), (TcpState::Established, TcpState::SynReceived));

    // (ESTABLISHED, SYN-RECEIVED) --ACK--> (ESTABLISHED, ESTABLISHED)
    out(&mut c, flag::ACK, 2);
    assert_eq!(states(&c).unwrap(), (TcpState::Established, TcpState::Established));
}

#[test]
fn simultaneous_open_walks_to_established() {
    // Both sides send SYN before seeing the other's.
    let mut c = ConnTrack::new();
    out(&mut c, flag::SYN, 0);
    // External (somehow) sends bare SYN: we move internal to SYN-RECEIVED.
    assert!(into_(&mut c, flag::SYN, 1));
    assert_eq!(states(&c).unwrap(), (TcpState::SynReceived, TcpState::SynReceived));
    // Now the SYN+ACK each side sends drives both to ESTABLISHED.
    out(&mut c, flag::SYN | flag::ACK, 2);
    assert!(into_(&mut c, flag::SYN | flag::ACK, 3));
    assert_eq!(states(&c).unwrap(), (TcpState::Established, TcpState::Established));
}

#[test]
fn normal_active_close_runs_through_fin_wait_states() {
    let mut c = ConnTrack::new();
    // Bring the flow to ESTABLISHED.
    out(&mut c, flag::SYN, 0);
    into_(&mut c, flag::SYN | flag::ACK, 1);
    out(&mut c, flag::ACK, 2);

    // Internal sends FIN: internal moves to FIN-WAIT-1, external to CLOSE-WAIT.
    out(&mut c, flag::FIN | flag::ACK, 3);
    assert_eq!(states(&c).unwrap(), (TcpState::FinWait1, TcpState::CloseWait));

    // External ACKs our FIN: internal moves to FIN-WAIT-2.
    into_(&mut c, flag::ACK, 4);
    assert_eq!(states(&c).unwrap(), (TcpState::FinWait2, TcpState::CloseWait));

    // External (its app called close) sends its FIN. CLOSE-WAIT + FIN leads
    // external to LAST-ACK; FIN-WAIT-2 + FIN leads internal to TIME-WAIT.
    into_(&mut c, flag::FIN | flag::ACK, 5);
    assert_eq!(states(&c).unwrap(), (TcpState::TimeWait, TcpState::LastAck));

    // Internal ACKs that FIN: external closes, internal stays in TIME-WAIT
    // waiting out 2*MSL. The flow lives until TIME-WAIT ages out.
    out(&mut c, flag::ACK, 6);
    assert_eq!(states(&c).unwrap(), (TcpState::TimeWait, TcpState::Closed));
}

#[test]
fn crossed_fins_with_ack_collapse_to_time_wait() {
    // B's FIN+ACK arrives at A before B has seen A's FIN. The ACK acknowledges
    // A's FIN, so A goes from FIN-WAIT-1 to TIME-WAIT directly.
    let mut c = ConnTrack::new();
    out(&mut c, flag::SYN, 0);
    into_(&mut c, flag::SYN | flag::ACK, 1);
    out(&mut c, flag::ACK, 2);

    out(&mut c, flag::FIN | flag::ACK, 3);
    into_(&mut c, flag::FIN | flag::ACK, 4);

    assert_eq!(states(&c).unwrap(), (TcpState::TimeWait, TcpState::LastAck));
}

#[test]
fn simultaneous_close_via_bare_fin_routes_through_closing() {
    // A sends FIN, then receives B's FIN without an ACK for A's FIN: A needs the
    // peer's ACK before it can move on.
    let mut c = ConnTrack::new();
    out(&mut c, flag::SYN, 0);
    into_(&mut c, flag::SYN | flag::ACK, 1);
    out(&mut c, flag::ACK, 2);

    // A sends FIN.
    out(&mut c, flag::FIN | flag::ACK, 3);
    assert_eq!(states(&c).unwrap(), (TcpState::FinWait1, TcpState::CloseWait));

    // B's bare FIN crosses in: no ACK of A's FIN.
    into_(&mut c, flag::FIN, 4);
    assert_eq!(states(&c).unwrap(), (TcpState::Closing, TcpState::LastAck));

    // B's eventual ACK closes A out into TIME-WAIT.
    into_(&mut c, flag::ACK, 5);
    assert_eq!(states(&c).unwrap(), (TcpState::TimeWait, TcpState::LastAck));
}

#[test]
fn rst_immediately_closes_both_sides() {
    let mut c = ConnTrack::new();
    out(&mut c, flag::SYN, 0);
    into_(&mut c, flag::SYN | flag::ACK, 1);
    out(&mut c, flag::ACK, 2);

    // External RSTs the flow.
    let admitted = into_(&mut c, flag::RST, 3);
    assert!(admitted, "RST should be delivered to the internal host");
    // Both states should be Closed: the flow is reaped.
    assert!(states(&c).is_none(), "fully-closed flow should be removed");
}

#[test]
fn unsolicited_ingress_is_dropped() {
    let mut c = ConnTrack::new();
    assert!(!into_(&mut c, flag::SYN | flag::ACK, 0));
    assert!(!into_(&mut c, flag::ACK, 0));
    assert!(!into_(&mut c, flag::SYN, 0));
    assert_eq!(c.len(), 0, "rejected ingress shouldn't create flows");
}

#[test]
fn wrong_peer_attack_is_dropped() {
    let mut c = ConnTrack::new();
    out(&mut c, flag::SYN, 0);
    // A stranger hitting the same internal endpoint at the same port:
    let stranger = Ipv4Addr::new(198, 51, 100, 99);
    let ok =
        c.check_ingress(int_ip(), INT_PORT, stranger, EXT_PORT, flag::SYN | flag::ACK, Tick::ms(1));
    assert!(!ok);
}

#[test]
fn idle_syn_sent_is_swept_after_60s() {
    let mut c = ConnTrack::new();
    out(&mut c, flag::SYN, 0);
    // 1 ms before SYN-SENT timeout: alive.
    c.sweep(Tick::ms(TcpState::SynSent.idle_timeout_ms() - 1));
    assert_eq!(c.len(), 1);
    // At/past the timeout: gone. The flow's timeout is the longer of both
    // sides', and SYN-RECEIVED has the same 60 s.
    c.sweep(Tick::ms(TcpState::SynSent.idle_timeout_ms()));
    assert_eq!(c.len(), 0);
}

#[test]
fn time_wait_uses_2_msl_timeout() {
    let mut c = ConnTrack::new();
    // Drive into TIME-WAIT via the active-close path.
    out(&mut c, flag::SYN, 0);
    into_(&mut c, flag::SYN | flag::ACK, 1);
    out(&mut c, flag::ACK, 2);
    out(&mut c, flag::FIN | flag::ACK, 3);
    into_(&mut c, flag::ACK, 4);
    into_(&mut c, flag::FIN | flag::ACK, 5);
    let (i, _) = states(&c).unwrap();
    assert_eq!(i, TcpState::TimeWait);

    // Refresh `last_seen` to 5 ms (the last update).
    // Inside the TIME-WAIT timeout: still alive.
    c.sweep(Tick::ms(5 + TcpState::TimeWait.idle_timeout_ms() - 1));
    assert_eq!(c.len(), 1);
    // Past the TIME-WAIT timeout: gone.
    c.sweep(Tick::ms(5 + TcpState::TimeWait.idle_timeout_ms()));
    assert_eq!(c.len(), 0);
}

#[test]
fn established_uses_a_long_timeout_so_idle_keepalives_survive() {
    let mut c = ConnTrack::new();
    out(&mut c, flag::SYN, 0);
    into_(&mut c, flag::SYN | flag::ACK, 1);
    out(&mut c, flag::ACK, 2);
    // Hours later, nothing has been flowing: the flow should still be alive.
    c.sweep(Tick::ms(6 * 60 * 60_000)); // 6 hours
    assert_eq!(c.len(), 1);
}

#[test]
fn shared_handle_mirrors_inner_state() {
    let s = SharedConnTrack::new();
    let (i, e) = s.observe_egress(int_ip(), INT_PORT, ext_ip(), EXT_PORT, flag::SYN, Tick::ms(0));
    assert_eq!((i, e), (TcpState::SynSent, TcpState::SynReceived));
    assert_eq!(
        s.states(int_ip(), INT_PORT, ext_ip(), EXT_PORT),
        Some((TcpState::SynSent, TcpState::SynReceived))
    );
    assert!(s.check_ingress(
        int_ip(),
        INT_PORT,
        ext_ip(),
        EXT_PORT,
        flag::SYN | flag::ACK,
        Tick::ms(1)
    ));
    assert_eq!(
        s.states(int_ip(), INT_PORT, ext_ip(), EXT_PORT),
        Some((TcpState::Established, TcpState::SynReceived))
    );
}

#[test]
fn a_shared_table_holds_no_closed_flow() {
    let s = SharedConnTrack::new();
    s.observe_egress(int_ip(), INT_PORT, ext_ip(), EXT_PORT, flag::SYN, Tick::ms(0));
    s.observe_egress(int_ip(), INT_PORT + 1, ext_ip(), EXT_PORT, flag::SYN, Tick::ms(0));
    s.observe_egress(int_ip(), INT_PORT, ext_ip(), EXT_PORT, flag::RST, Tick::ms(1));
    s.sweep(Tick::ms(2));
    assert_eq!(s.states(int_ip(), INT_PORT, ext_ip(), EXT_PORT), None);
    assert_eq!(s.len(), 1);
}

#[test]
fn send_transitions_match_rfc_9293() {
    assert_eq!(transition_on_send(TcpState::Closed, flag::SYN), TcpState::SynSent);
    assert_eq!(transition_on_send(TcpState::Listen, flag::SYN | flag::ACK), TcpState::SynReceived);
    assert_eq!(
        transition_on_send(TcpState::Established, flag::FIN | flag::ACK),
        TcpState::FinWait1
    );
    assert_eq!(transition_on_send(TcpState::CloseWait, flag::FIN | flag::ACK), TcpState::LastAck);
    assert_eq!(transition_on_send(TcpState::Established, flag::RST), TcpState::Closed);
    // Stable states for non-driving flags:
    assert_eq!(transition_on_send(TcpState::Established, flag::ACK), TcpState::Established);
    assert_eq!(transition_on_send(TcpState::FinWait2, flag::ACK), TcpState::FinWait2);
}

#[test]
fn recv_transitions_match_rfc_9293() {
    assert_eq!(transition_on_recv(TcpState::SynSent, flag::SYN | flag::ACK), TcpState::Established);
    assert_eq!(transition_on_recv(TcpState::SynSent, flag::SYN), TcpState::SynReceived);
    assert_eq!(transition_on_recv(TcpState::SynReceived, flag::ACK), TcpState::Established);
    assert_eq!(
        transition_on_recv(TcpState::Established, flag::FIN | flag::ACK),
        TcpState::CloseWait
    );
    assert_eq!(transition_on_recv(TcpState::FinWait1, flag::FIN | flag::ACK), TcpState::TimeWait);
    assert_eq!(transition_on_recv(TcpState::FinWait1, flag::ACK), TcpState::FinWait2);
    assert_eq!(transition_on_recv(TcpState::FinWait1, flag::FIN), TcpState::Closing);
    assert_eq!(transition_on_recv(TcpState::FinWait2, flag::FIN | flag::ACK), TcpState::TimeWait);
    assert_eq!(transition_on_recv(TcpState::Closing, flag::ACK), TcpState::TimeWait);
    assert_eq!(transition_on_recv(TcpState::LastAck, flag::ACK), TcpState::Closed);
    assert_eq!(transition_on_recv(TcpState::Established, flag::RST), TcpState::Closed);
}

#[test]
fn flows_are_listed() {
    let mut c = ConnTrack::default();
    assert!(c.is_empty());
    assert_eq!(c.status(), "ConnTrack:\n");
    out(&mut c, flag::SYN, 17);
    assert_eq!(
        c.status(),
        "ConnTrack:\n  192.168.1.50:49152 ↔ 203.0.113.10:443 → (SynSent, SynReceived) @ 17 ms\n"
    );
    assert_eq!(SharedConnTrack::default().status(), "ConnTrack:\n");
}

#[test]
fn timeouts_have_their_lengths() {
    assert_eq!(TcpState::SynSent.idle_timeout_ms(), 60_000);
    assert_eq!(TcpState::SynReceived.idle_timeout_ms(), 60_000);
}

const MAC_A: MacAddr = [0x02, 0, 0, 0, 0, 0x10];
const MAC_B: MacAddr = [0x02, 0, 0, 0, 0, 0x11];

fn ip_a() -> Ipv4Addr {
    Ipv4Addr::new(192, 168, 1, 100)
}

fn ip_b() -> Ipv4Addr {
    Ipv4Addr::new(192, 168, 1, 101)
}

/// Compile-time check: the handles are `Send + Sync` so workers can share them.
fn is_send_sync<T: Send + Sync>() {}

#[test]
fn handles_can_be_shared() {
    is_send_sync::<SharedLeases>();
    is_send_sync::<SharedAddressPool>();
    is_send_sync::<SharedConnTrack>();
    is_send_sync::<SharedNat>();
    is_send_sync::<SharedFdb>();
}

#[test]
fn clones_observe_one_table() {
    let a = SharedLeases::new();
    let b = a.clone();
    a.insert(MAC_A, ip_a());
    assert_eq!(b.lookup(MAC_A), Some(ip_a()));
    assert_eq!(a.len(), 1);
    assert_eq!(b.len(), 1);
}

#[test]
fn remove_returns_then_clears() {
    let l = SharedLeases::new();
    l.insert(MAC_A, ip_a());
    l.insert(MAC_B, ip_b());
    assert_eq!(l.remove(MAC_A), Some(ip_a()));
    assert!(l.lookup(MAC_A).is_none());
    // Idempotent.
    assert_eq!(l.remove(MAC_A), None);
    // The other binding is untouched.
    assert_eq!(l.lookup(MAC_B), Some(ip_b()));
    assert_eq!(l.len(), 1);
}

#[test]
fn leases_are_listed() {
    let mut t = LeaseTable::default();
    assert!(t.is_empty());
    t.insert(MAC_A, ip_a());
    assert_eq!(t.status(), "  Leases:\n    [02, 00, 00, 00, 00, 10] → 192.168.1.100\n");
    t.insert(MAC_A, ip_b());
    assert_eq!(t.lookup(MAC_A), Some(ip_b()));
    assert_eq!(t.len(), 1);
}

#[test]
fn macs_are_found_where_they_were_last_seen() {
    let mut f = Fdb::new();
    assert!(f.is_empty());
    f.insert(MAC_B, 1);
    f.insert(MAC_A, 2);
    f.insert(MAC_B, 3);
    assert_eq!(f.lookup(MAC_B), Some(3));
    assert_eq!(f.lookup([0; 6]), None);
    assert_eq!(f.len(), 2);
    assert_eq!(
        f.status(),
        "FDB entries:\n  02:00:00:00:00:10 → port 2\n  02:00:00:00:00:11 → port 3\n"
    );
    let s = SharedFdb::default();
    s.clone().insert(MAC_A, 9);
    assert_eq!(s.lookup(MAC_A), Some(9));
    assert_eq!(s.len(), 1);
}

fn wan_ip() -> Ipv4Addr {
    Ipv4Addr::new(203, 0, 113, 1)
}

/// One's-complement check of an L4 segment incl. pseudo-header; 0 == valid.
fn l4_check(src: [u8; 4], dst: [u8; 4], proto: u8, seg: &[u8]) -> u16 {
    let mut acc = 0u32;
    acc = checksum::accumulate(acc, &src);
    acc = checksum::accumulate(acc, &dst);
    acc = acc.wrapping_add(proto as u32);
    acc = acc.wrapping_add(seg.len() as u32);
    acc = checksum::accumulate(acc, seg);
    checksum::finish(acc)
}

fn build_tcp(buf: &mut [u8], src: Ipv4Addr, dst: Ipv4Addr, sp: u16, dp: u16) -> usize {
    let (eth_len, ip_len, tcp_len) = (14, 20, 20);
    let total = eth_len + ip_len + tcp_len;
    buf[..total].fill(0);
    {
        let (hdr, rest) = mut_from_prefix::<EthernetHeader>(buf).unwrap();
        let mut e = EthernetHeader::default();
        e.set_ethertype(ethertype::IPV4);
        hdr.put(&e);
        let (hdr, rest) = mut_from_prefix::<Ipv4Header>(rest).unwrap();
        let mut i = Ipv4Header::default();
        i.set_version_ihl(4, 5);
        i.set_total_len((ip_len + tcp_len) as u16);
        i.ttl = 64;
        i.protocol = proto::TCP;
        i.set_src(src);
        i.set_dst(dst);
        hdr.put(&i);
        let (hdr, _) = mut_from_prefix::<TcpHeader>(rest).unwrap();
        let mut t = TcpHeader::default();
        t.set_src_port(sp);
        t.set_dst_port(dp);
        t.set_data_offset(5);
        hdr.put(&t);
    }
    let ipc = checksum::ipv4_header(&buf[eth_len..eth_len + ip_len]);
    buf[eth_len + 10..eth_len + 12].copy_from_slice(&ipc.to_be_bytes());
    let c = l4_check(src.octets(), dst.octets(), proto::TCP, &buf[34..54]);
    buf[34 + 16..34 + 18].copy_from_slice(&c.to_be_bytes());
    total
}

#[test]
fn mapping_is_stable_unique_and_reversible() {
    let mut nat = Nat::new(wan_ip(), 40000, 40002);
    let host_a = Ipv4Addr::new(192, 168, 1, 2);
    let host_b = Ipv4Addr::new(192, 168, 1, 3);

    let a = nat.egress(L4::Tcp, host_a, 1111).unwrap();
    let a2 = nat.egress(L4::Tcp, host_a, 1111).unwrap();
    assert_eq!(a, a2, "same endpoint -> same mapping");
    assert_eq!(a.new_src_ip, wan_ip());

    let b = nat.egress(L4::Tcp, host_b, 1111).unwrap();
    assert_ne!(a.new_src_port, b.new_src_port, "distinct endpoints differ");

    assert_eq!(nat.ingress(L4::Tcp, a.new_src_port), Some((host_a, 1111)));

    // TCP pool has 3 ports; a + b used 2, one more, then exhausted.
    let _c = nat.egress(L4::Tcp, Ipv4Addr::new(192, 168, 1, 4), 1).unwrap();
    assert!(nat.egress(L4::Tcp, Ipv4Addr::new(192, 168, 1, 5), 1).is_none());
    // UDP is a separate namespace, so it still has ports.
    assert!(nat.egress(L4::Udp, Ipv4Addr::new(192, 168, 1, 6), 1).is_some());
    assert_eq!(nat.active(), 4);
}

#[test]
fn ports_are_handed_out_around_the_range() {
    let mut nat = Nat::new(wan_ip(), 65534, 65535);
    let host = int_ip();
    assert_eq!(nat.egress(L4::Tcp, host, 1).unwrap().new_src_port, 65534);
    // Both protocols move the next port to try.
    assert_eq!(nat.egress(L4::Udp, host, 1).unwrap().new_src_port, 65535);
    assert_eq!(nat.egress(L4::Tcp, host, 2).unwrap().new_src_port, 65535);
    assert_eq!(nat.egress(L4::Tcp, host, 3), None);
    assert_eq!(nat.egress(L4::Udp, host, 2).unwrap().new_src_port, 65534);
    assert_eq!(nat.egress(L4::Udp, host, 3), None);
    // Those that are bound stay so.
    assert_eq!(nat.egress(L4::Tcp, host, 1).unwrap().new_src_port, 65534);
}

#[test]
fn translate_egress_udp_rewrites_and_checksums() {
    let mut nat = Nat::new(wan_ip(), 40000, 40010);
    let p = UdpV4 {
        src_mac: [2, 0, 0, 0, 0, 1],
        dst_mac: [2, 0, 0, 0, 0, 2],
        src_ip: Ipv4Addr::new(192, 168, 1, 50),
        dst_ip: Ipv4Addr::new(8, 8, 8, 8),
        src_port: 5000,
        dst_port: 53,
        ttl: 64,
    };
    let mut buf = [0u8; 128];
    let n = build_udp_ipv4(&mut buf, &p, &[9, 9]).unwrap();

    let e = translate_egress(&mut buf[..n], &mut nat).unwrap();
    assert_eq!(e.new_src_ip, wan_ip());

    // Checksums still verify after the rewrite.
    assert_eq!(checksum::checksum(&buf[14..34]), 0);
    let udp_len = 8 + 2;
    assert_eq!(l4_check(wan_ip().octets(), [8, 8, 8, 8], proto::UDP, &buf[34..34 + udp_len]), 0);

    // Source rewritten, destination untouched.
    let ip = view::parse(&buf[..n]).unwrap().ipv4().unwrap();
    assert_eq!(ip.header().src(), wan_ip());
    let udp = ip.udp().unwrap();
    assert_eq!(udp.src_port(), e.new_src_port);
    assert_eq!(udp.dst_port(), 53);
}

#[test]
fn translate_egress_tcp_rewrites_and_checksums() {
    let mut nat = Nat::new(wan_ip(), 40000, 40010);
    let mut buf = [0u8; 128];
    let n = build_tcp(
        &mut buf,
        Ipv4Addr::new(192, 168, 1, 50),
        Ipv4Addr::new(8, 8, 8, 8),
        1234,
        80,
    );

    let e = translate_egress(&mut buf[..n], &mut nat).unwrap();

    assert_eq!(checksum::checksum(&buf[14..34]), 0);
    assert_eq!(l4_check(wan_ip().octets(), [8, 8, 8, 8], proto::TCP, &buf[34..34 + 20]), 0);

    let ip = view::parse(&buf[..n]).unwrap().ipv4().unwrap();
    assert_eq!(ip.header().src(), wan_ip());
    let tcp = ip.tcp().unwrap();
    assert_eq!(tcp.src_port(), e.new_src_port);
    assert_eq!(tcp.dst_port(), 80);
}

#[test]
fn egress_then_ingress_round_trips_udp() {
    let mut nat = Nat::new(wan_ip(), 40000, 40010);
    let host = Ipv4Addr::new(192, 168, 1, 50);
    let remote = Ipv4Addr::new(8, 8, 8, 8);

    // Outbound: learn the binding (host:5000 -> WAN:ext).
    let ext = nat.egress(L4::Udp, host, 5000).unwrap().new_src_port;

    // Craft the return datagram: remote:53 -> WAN:ext.
    let p = UdpV4 {
        src_mac: [2, 0, 0, 0, 0, 2],
        dst_mac: [2, 0, 0, 0, 0, 1],
        src_ip: remote,
        dst_ip: wan_ip(),
        src_port: 53,
        dst_port: ext,
        ttl: 64,
    };
    let mut buf = [0u8; 128];
    let n = build_udp_ipv4(&mut buf, &p, &[7, 7, 7]).unwrap();

    let r = translate_ingress(&mut buf[..n], &nat).unwrap();
    assert_eq!(r.dst_ip, host);
    assert_eq!(r.dst_port, 5000);

    // Checksums verify and the destination is now the internal host.
    assert_eq!(checksum::checksum(&buf[14..34]), 0);
    let udp_len = 8 + 3;
    assert_eq!(l4_check(remote.octets(), host.octets(), proto::UDP, &buf[34..34 + udp_len]), 0);
    let ip = view::parse(&buf[..n]).unwrap().ipv4().unwrap();
    assert_eq!(ip.header().dst(), host);
    assert_eq!(ip.udp().unwrap().dst_port(), 5000);
}

#[test]
fn ingress_without_binding_is_dropped() {
    let nat = Nat::new(wan_ip(), 40000, 40010);
    let p = UdpV4 {
        src_mac: [2, 0, 0, 0, 0, 2],
        dst_mac: [2, 0, 0, 0, 0, 1],
        src_ip: Ipv4Addr::new(8, 8, 8, 8),
        dst_ip: wan_ip(),
        src_port: 53,
        dst_port: 40005, // no binding ever created for this port
        ttl: 64,
    };
    let mut buf = [0u8; 128];
    let n = build_udp_ipv4(&mut buf, &p, &[0]).unwrap();
    assert!(translate_ingress(&mut buf[..n], &nat).is_none());
}

#[test]
fn non_tcp_udp_is_ignored() {
    let mut nat = Nat::new(wan_ip(), 40000, 40010);
    // An ARP frame: ethertype 0x0806, no IPv4 layer.
    let mut buf = [0u8; 60];
    buf[12..14].copy_from_slice(&ethertype::ARP.to_be_bytes());
    assert!(translate_egress(&mut buf, &mut nat).is_none());
}

#[test]
fn later_fragments_are_not_translated() {
    let mut nat = Nat::new(wan_ip(), 40000, 40010);
    let mut buf = [0u8; 54];
    build_tcp(&mut buf, int_ip(), ext_ip(), 1234, 80);
    buf[21] = 1; // fragment offset 8
    let before = buf;
    assert!(translate_egress(&mut buf, &mut nat).is_none());
    assert_eq!(buf, before);
    assert_eq!(nat.active(), 0);
}

#[test]
fn a_udp_datagram_without_checksum_stays_without() {
    let mut nat = Nat::new(wan_ip(), 40000, 40010);
    let p = UdpV4 {
        src_mac: [2, 0, 0, 0, 0, 1],
        dst_mac: [2, 0, 0, 0, 0, 2],
        src_ip: int_ip(),
        dst_ip: ext_ip(),
        src_port: 5000,
        dst_port: 53,
        ttl: DEFAULT_TTL,
    };
    let mut buf = [0u8; 64];
    let n = build_udp_ipv4(&mut buf, &p, &[1, 2, 3, 4]).unwrap();
    buf[40] = 0;
    buf[41] = 0;
    translate_egress(&mut buf[..n], &mut nat).unwrap();
    assert_eq!(&buf[40..42], &[0, 0]);
    assert_eq!(checksum::checksum(&buf[14..34]), 0);
}

#[test]
fn a_shared_table_translates_both_ways() {
    let s = SharedNat::new(Nat::new(Ipv4Addr::unspecified(), 40000, 40010));
    s.set_wan_ip(wan_ip());
    assert_eq!(s.clone().wan_ip(), wan_ip());
    let mut f = [0u8; 54];
    build_tcp(&mut f, int_ip(), ext_ip(), 1234, 80);
    let e = s.translate_egress(&mut f).unwrap();
    assert_eq!(e.new_src_port, 40000);
    let mut g = [0u8; 54];
    build_tcp(&mut g, ext_ip(), wan_ip(), 80, e.new_src_port);
    let i = s.translate_ingress(&mut g).unwrap();
    assert_eq!((i.dst_ip, i.dst_port), (int_ip(), 1234));
}

#[test]
fn a_shared_table_keeps_its_bindings() {
    let s = SharedNat::new(Nat::new(wan_ip(), 40000, 40010));
    let mut f = [0u8; 54];
    build_tcp(&mut f, int_ip(), ext_ip(), 1234, 80);
    assert_eq!(s.translate_egress(&mut f).unwrap().new_src_port, 40000);
    build_tcp(&mut f, int_ip(), ext_ip(), 1235, 80);
    assert_eq!(s.translate_egress(&mut f).unwrap().new_src_port, 40001);
    s.set_wan_ip(Ipv4Addr::new(203, 0, 113, 77));
    build_tcp(&mut f, int_ip(), ext_ip(), 1234, 80);
    assert_eq!(s.translate_egress(&mut f).unwrap().new_src_port, 40000);
}

#[test]
fn protocols_have_their_numbers() {
    assert_eq!((L4::Tcp.proto(), L4::Udp.proto()), (6, 17));
    assert_eq!(L4::from_proto(6), Some(L4::Tcp));
    assert_eq!(L4::from_proto(17), Some(L4::Udp));
    assert_eq!(L4::from_proto(proto::ICMP), None);
}

#[test]
fn builds_parseable_checksummed_datagram() {
    let mut buf = [0u8; 128];
    let p = UdpV4 {
        src_mac: [0x02, 0, 0, 0, 0, 1],
        dst_mac: [0x02, 0, 0, 0, 0, 2],
        src_ip: Ipv4Addr::new(10, 0, 0, 1),
        dst_ip: Ipv4Addr::new(10, 0, 0, 2),
        src_port: 1234,
        dst_port: 53,
        ttl: DEFAULT_TTL,
    };
    let payload = [0xde, 0xad, 0xbe, 0xef];
    let n = build_udp_ipv4(&mut buf, &p, &payload).unwrap();
    assert_eq!(n, frame_len(payload.len()));

    // IPv4 + UDP checksums verify to zero.
    assert_eq!(checksum::checksum(&buf[14..14 + 20]), 0);

    // And it parses back through the view layer.
    let udp = view::parse(&buf[..n]).unwrap().ipv4().unwrap().udp().unwrap();
    assert_eq!(udp.dst_port(), 53);
    assert_eq!(udp.payload(), &payload);
}

#[test]
fn a_datagram_needs_room() {
    let p = UdpV4 {
        src_mac: MAC_A,
        dst_mac: MAC_B,
        src_ip: ip_a(),
        dst_ip: ip_b(),
        src_port: 1,
        dst_port: 2,
        ttl: 3,
    };
    let mut buf = [0u8; 45];
    assert!(build_udp_ipv4(&mut buf, &p, &[1, 2, 3, 4]).is_none());
    assert!(buf.iter().all(|b| *b == 0));
    assert_eq!(build_udp_ipv4(&mut buf, &p, &[1, 2, 3]), Some(45));
    assert_eq!(frame_len(3), 45);
    assert_eq!(&buf[42..], &[1, 2, 3]);
}

#[test]
fn test_roundtrip() {
    let mut pool =
        AddressPool::new(Ipv4Addr::new(192, 168, 1, 1), Ipv4Addr::new(192, 168, 1, 254));

    let addrs = pool.take(10).expect("enough addresses");
    assert_eq!(addrs.len(), 10);
    assert_eq!(addrs[0], Ipv4Addr::new(192, 168, 1, 1));
    assert_eq!(addrs[9], Ipv4Addr::new(192, 168, 1, 10));

    assert_eq!(
        pool.intervals,
        vec![(Ipv4Addr::new(192, 168, 1, 11), Ipv4Addr::new(192, 168, 1, 254))]
    );

    // Release some addresses and check they are re-allocated.
    for addr in addrs {
        pool.release(addr);
    }

    assert_eq!(
        pool.intervals,
        vec![(Ipv4Addr::new(192, 168, 1, 1), Ipv4Addr::new(192, 168, 1, 254))]
    );
}

#[test]
fn reserve_splits_shrinks_and_removes() {
    // Reserve in the middle of a single interval -> the interval splits.
    let mut p = AddressPool::new(Ipv4Addr::new(10, 0, 0, 1), Ipv4Addr::new(10, 0, 0, 10));
    assert_eq!(p.reserve(Ipv4Addr::new(10, 0, 0, 5)), Some(Ipv4Addr::new(10, 0, 0, 5)));
    assert_eq!(
        p.intervals,
        vec![
            (Ipv4Addr::new(10, 0, 0, 1), Ipv4Addr::new(10, 0, 0, 4)),
            (Ipv4Addr::new(10, 0, 0, 6), Ipv4Addr::new(10, 0, 0, 10)),
        ]
    );
    // Idempotent: already removed; subsequent reserve returns None.
    assert_eq!(p.reserve(Ipv4Addr::new(10, 0, 0, 5)), None);

    // Reserve at start/end shrinks the interval.
    let mut p = AddressPool::new(Ipv4Addr::new(10, 0, 0, 1), Ipv4Addr::new(10, 0, 0, 3));
    assert_eq!(p.reserve(Ipv4Addr::new(10, 0, 0, 1)), Some(Ipv4Addr::new(10, 0, 0, 1)));
    assert_eq!(p.reserve(Ipv4Addr::new(10, 0, 0, 3)), Some(Ipv4Addr::new(10, 0, 0, 3)));
    assert_eq!(p.intervals, vec![(Ipv4Addr::new(10, 0, 0, 2), Ipv4Addr::new(10, 0, 0, 2))]);
    // Now the only interval is a single element: reserving it removes it.
    assert_eq!(p.reserve(Ipv4Addr::new(10, 0, 0, 2)), Some(Ipv4Addr::new(10, 0, 0, 2)));
    assert!(p.intervals.is_empty());
}

#[test]
fn reserve_handles_interior_address_in_pool() {
    let mut p =
        AddressPool::new(Ipv4Addr::new(192, 168, 1, 100), Ipv4Addr::new(192, 168, 1, 200));
    assert_eq!(
        p.reserve(Ipv4Addr::new(192, 168, 1, 150)),
        Some(Ipv4Addr::new(192, 168, 1, 150))
    );
    // Out-of-range addresses are quietly ignored.
    assert_eq!(p.reserve(Ipv4Addr::new(192, 168, 1, 50)), None);
    assert_eq!(p.reserve(Ipv4Addr::new(192, 168, 1, 250)), None);
    assert_eq!(p.reserve(Ipv4Addr::new(0, 0, 0, 0)), None);
}

#[test]
fn take_after_reserve_skips_the_reserved_address() {
    let mut p = AddressPool::new(Ipv4Addr::new(10, 0, 0, 1), Ipv4Addr::new(10, 0, 0, 10));
    p.reserve(Ipv4Addr::new(10, 0, 0, 5));
    let addrs = p.take(9).expect("9 available after one reserved");
    assert!(addrs.iter().all(|&ip| ip != Ipv4Addr::new(10, 0, 0, 5)));
    assert_eq!(addrs.len(), 9);
    // The pool is now empty.
    assert!(p.take(1).is_none());
}

#[test]
fn releasing_a_free_address_changes_nothing() {
    let mut p = AddressPool::new(Ipv4Addr::new(10, 0, 0, 1), Ipv4Addr::new(10, 0, 0, 10));
    p.reserve(Ipv4Addr::new(10, 0, 0, 5));
    let before = p.intervals.clone();
    p.release(Ipv4Addr::new(10, 0, 0, 8));
    assert_eq!(p.intervals, before);
    // Releasing the reserved one joins the intervals again.
    p.release(Ipv4Addr::new(10, 0, 0, 5));
    assert_eq!(p.intervals, vec![(Ipv4Addr::new(10, 0, 0, 1), Ipv4Addr::new(10, 0, 0, 10))]);
}

#[test]
fn a_pool_reaches_the_ends_of_the_address_space() {
    let mut p = AddressPool::new(Ipv4Addr::unspecified(), Ipv4Addr::broadcast());
    assert_eq!(p.reserve(Ipv4Addr::broadcast()), Some(Ipv4Addr::broadcast()));
    assert_eq!(p.reserve(Ipv4Addr::unspecified()), Some(Ipv4Addr::unspecified()));
    p.release(Ipv4Addr::broadcast());
    p.release(Ipv4Addr::unspecified());
    assert_eq!(p.intervals.len(), 1);
    assert_eq!(p.take_lowest(), Some(Ipv4Addr::unspecified()));
    assert_eq!((p.start(), p.end()), (Ipv4Addr::unspecified(), Ipv4Addr::broadcast()));
}

#[test]
fn a_shared_pool_keeps_to_its_bounds() {
    let (start, end) = (Ipv4Addr::new(10, 0, 0, 100), Ipv4Addr::new(10, 0, 0, 102));
    let p = SharedAddressPool::new(start, end);
    assert_eq!(p.reserve(Ipv4Addr::new(10, 0, 0, 99)), None);
    assert_eq!(p.reserve(Ipv4Addr::new(10, 0, 0, 103)), None);
    assert!(p.take(4).is_none());
    assert_eq!(p.take(3).unwrap(), vec![start, Ipv4Addr::new(10, 0, 0, 101), end]);
    // What is given back at the bounds is there again.
    p.release(start);
    p.release(end);
    assert_eq!(p.take(2).unwrap(), vec![start, end]);
}

#[test]
fn free_addresses_are_taken_in_ascending_order() {
    let a = |b: u8| Ipv4Addr::new(10, 0, 0, b);
    let mut p = AddressPool::new(a(1), a(9));
    p.reserve(a(2));
    p.reserve(a(5));
    p.reserve(a(6));
    p.release(a(5));
    let out = p.take(7).unwrap();
    assert_eq!(out, vec![a(1), a(3), a(4), a(5), a(7), a(8), a(9)]);
    assert!(p.take(1).is_none());
}

#[test]
fn clones_of_a_pool_share_its_addresses() {
    let a = SharedAddressPool::new(ip_a(), ip_b());
    let b = a.clone();
    assert_eq!(a.take(1), Some(vec![ip_a()]));
    assert_eq!(b.reserve(ip_a()), None);
    assert_eq!(b.take(2), None);
    b.release(ip_a());
    assert_eq!(a.take(2), Some(vec![ip_a(), ip_b()]));
    assert_eq!((b.start(), b.end()), (ip_a(), ip_b()));
}

#[test]
fn ticks_saturate() {
    assert_eq!(Tick::ms(5).elapsed_since(Tick::ms(3)), 2);
    assert_eq!(Tick::ms(3).elapsed_since(Tick::ms(5)), 0);
    assert_eq!(Tick::default(), Tick::ms(0));
    assert_eq!(Tick::ms(250).to_string(), "250 ms");
    let mut s = String::new();
    Tick::ms(7).push_listed(&mut s);
    assert_eq!(s, "Tick(7)");
}

#[test]
fn bits_are_set_one_by_one() {
    let mut m = Bitmask::new(130);
    assert_eq!(m.size(), 130);
    for i in [0, 63, 64, 129] {
        m.set(i);
    }
    m.clear(63);
    for i in 0..130 {
        assert_eq!(m.is_set(i), i == 0 || i == 64 || i == 129);
    }
}
