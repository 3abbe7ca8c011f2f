use userspace_router::net::addr::Ipv4Addr;
use userspace_router::net::arp as narp;
use userspace_router::net::ethernet::MacAddr;
use userspace_router::net::view;
use userspace_router::router::arp::respond;
use userspace_router::router::neighbor::{
    Action, NeighborTable, SharedNeighbor, CACHE_TTL_MS, MAX_PENDING_PER_IP, REQUEST_INTERVAL_MS,
};
use userspace_router::router::tick::Tick;

const OUR_MAC: MacAddr = [0x02, 0, 0, 0, 0, 0x01];
const PEER_MAC: MacAddr = [0x02, 0, 0, 0, 0, 0x50];
const T0: Tick = Tick(0);

fn our_ip() -> Ipv4Addr {
    Ipv4Addr::new(192, 168, 1, 1)
}

fn peer_ip() -> Ipv4Addr {
    Ipv4Addr::new(192, 168, 1, 50)
}

#[test]
fn cache_hit_forwards_immediately() {
    let mut n = NeighborTable::<u32>::new(OUR_MAC, our_ip());
    n.insert(peer_ip(), PEER_MAC, T0);
    let mut req = [0u8; narp::FRAME_LEN];
    match n.resolve(peer_ip(), 42, &mut req, T0) {
        Action::Forward { mac, packet } => {
            assert_eq!(mac, PEER_MAC);
            assert_eq!(packet, 42);
        }
        _ => panic!("expected Forward"),
    }
    assert!(req.iter().all(|b| *b == 0), "no request should be built");
}

#[test]
fn miss_queues_and_emits_request_only_on_first() {
    let mut n = NeighborTable::<u32>::new(OUR_MAC, our_ip());
    let mut req = [0u8; narp::FRAME_LEN];

    let first = n.resolve(peer_ip(), 1, &mut req, T0);
    if let Action::Queued { request_len: Some(len) } = first {
        assert_eq!(len, narp::FRAME_LEN);
        let arp = view::parse(&req).unwrap().arp().unwrap();
        assert!(arp.is_request());
        assert_eq!(arp.target_ip(), peer_ip());
        assert_eq!(arp.sender_ip(), our_ip());
    } else {
        panic!("first miss should queue + build a request");
    }

    let mut req2 = [0u8; narp::FRAME_LEN];
    let second = n.resolve(peer_ip(), 2, &mut req2, T0);
    assert!(matches!(second, Action::Queued { request_len: None }));
    assert!(req2.iter().all(|b| *b == 0));
    assert_eq!(n.pending_targets(), 1);
}

#[test]
fn arp_reply_unblocks_queued_packets() {
    let mut n = NeighborTable::<u32>::new(OUR_MAC, our_ip());
    let mut req = [0u8; narp::FRAME_LEN];
    let _ = n.resolve(peer_ip(), 10, &mut req, T0);
    let _ = n.resolve(peer_ip(), 11, &mut req, T0);
    let _ = n.resolve(peer_ip(), 12, &mut req, T0);
    assert_eq!(n.pending_targets(), 1);

    let mut reply = [0u8; narp::FRAME_LEN];
    narp::build_reply(&mut reply, PEER_MAC, peer_ip(), OUR_MAC, our_ip()).unwrap();
    let pkt = view::parse(&reply).unwrap().arp().unwrap();

    let (mac, mut drained) =
        n.on_arp(pkt.sender_ip(), pkt.sha, T0).expect("queued packets should drain");
    assert_eq!(mac, PEER_MAC);
    drained.sort();
    assert_eq!(drained, vec![10, 11, 12]);
    assert_eq!(n.pending_targets(), 0);
    assert_eq!(n.lookup(peer_ip()), Some(PEER_MAC));
}

#[test]
fn pending_queue_overflows_into_drop() {
    let mut n = NeighborTable::<u32>::new(OUR_MAC, our_ip());
    let mut req = [0u8; narp::FRAME_LEN];
    for i in 0..MAX_PENDING_PER_IP as u32 {
        assert!(matches!(n.resolve(peer_ip(), i, &mut req, T0), Action::Queued { .. }));
    }
    match n.resolve(peer_ip(), 999, &mut req, T0) {
        Action::Drop { packet } => assert_eq!(packet, 999),
        _ => panic!("expected Drop on overflow"),
    }
}

#[test]
fn on_arp_learns_even_without_pending_packets() {
    let mut n = NeighborTable::<u32>::new(OUR_MAC, our_ip());
    let mut frame = [0u8; narp::FRAME_LEN];
    narp::build_request(&mut frame, PEER_MAC, peer_ip(), our_ip()).unwrap();
    let pkt = view::parse(&frame).unwrap().arp().unwrap();
    assert!(n.on_arp(pkt.sender_ip(), pkt.sha, T0).is_none());
    assert_eq!(n.lookup(peer_ip()), Some(PEER_MAC));
}

#[test]
fn sweep_retransmits_then_drops() {
    let mut n = NeighborTable::<u32>::new(OUR_MAC, our_ip());
    let mut req = [0u8; narp::FRAME_LEN];
    // Attempt 1 at t=0.
    assert!(matches!(
        n.resolve(peer_ip(), 7, &mut req, T0),
        Action::Queued { request_len: Some(_) }
    ));

    let mut emitted = 0usize;
    // No retry yet: not enough time has passed.
    let swept = n.sweep(Tick::ms(REQUEST_INTERVAL_MS - 1));
    emitted += swept.requests.len();
    assert_eq!(emitted, 0);
    assert!(swept.dropped.is_empty());

    // Attempt 2 at t=interval.
    let swept = n.sweep(Tick::ms(REQUEST_INTERVAL_MS));
    emitted += swept.requests.len();
    assert_eq!(emitted, 1);
    assert!(swept.dropped.is_empty());
    assert_eq!(swept.requests[0], req);

    // Attempt 3 at t=2*interval.
    let swept = n.sweep(Tick::ms(2 * REQUEST_INTERVAL_MS));
    emitted += swept.requests.len();
    assert_eq!(emitted, 2);
    assert!(swept.dropped.is_empty());

    // At t=3*interval we've hit MAX_REQUEST_ATTEMPTS: queue is returned for
    // the caller to free, and the pending entry is removed.
    let swept = n.sweep(Tick::ms(3 * REQUEST_INTERVAL_MS));
    emitted += swept.requests.len();
    assert_eq!(emitted, 2, "no further requests after the cap");
    assert_eq!(swept.dropped, vec![7]);
    assert_eq!(n.pending_targets(), 0);
}

#[test]
fn sweep_ages_out_stale_cache_entries() {
    let mut n = NeighborTable::<u32>::new(OUR_MAC, our_ip());
    n.insert(peer_ip(), PEER_MAC, T0);
    assert_eq!(n.lookup(peer_ip()), Some(PEER_MAC));

    // Just inside TTL: still cached.
    let _ = n.sweep(Tick::ms(CACHE_TTL_MS - 1));
    assert_eq!(n.lookup(peer_ip()), Some(PEER_MAC));

    // At/past TTL: evicted.
    let _ = n.sweep(Tick::ms(CACHE_TTL_MS));
    assert_eq!(n.lookup(peer_ip()), None);
}

/// Compile-time check: a `SharedNeighbor<u32>` is `Send + Sync`, the property
/// the multi-worker design depends on.
fn requires_send_sync<T: Send + Sync>(_: &T) {}

#[test]
fn shared_clones_observe_one_table() {
    let a = SharedNeighbor::<u32>::new(OUR_MAC, our_ip());
    requires_send_sync(&a);
    let b = a.clone();
    a.insert(peer_ip(), PEER_MAC, T0);
    assert_eq!(b.lookup(peer_ip()), Some(PEER_MAC));
    assert_eq!(a.known(), 1);
    assert_eq!(b.known(), 1);
}

#[test]
fn shared_resolve_and_on_arp_round_trip() {
    let n = SharedNeighbor::<u32>::new(OUR_MAC, our_ip());
    let mut req = [0u8; narp::FRAME_LEN];
    assert!(matches!(
        n.resolve(peer_ip(), 7, &mut req, T0),
        Action::Queued { request_len: Some(_) }
    ));

    let mut reply = [0u8; narp::FRAME_LEN];
    narp::build_reply(&mut reply, PEER_MAC, peer_ip(), OUR_MAC, our_ip()).unwrap();
    let pkt = view::parse(&reply).unwrap().arp().unwrap();
    let (mac, drained) = n.on_arp(pkt.sender_ip(), pkt.sha, T0).unwrap();
    assert_eq!(mac, PEER_MAC);
    assert_eq!(drained, vec![7]);
    // Cache populated; a second clone sees the same MAC.
    assert_eq!(n.clone().lookup(peer_ip()), Some(PEER_MAC));
}

#[test]
fn a_shared_table_asks_in_the_name_of_its_mac() {
    let n = SharedNeighbor::<u32>::new(OUR_MAC, our_ip());
    let moved = Ipv4Addr::new(192, 168, 1, 2);
    n.insert(our_ip(), PEER_MAC, T0);
    n.set_our_ip(moved);
    let mut req = [0u8; narp::FRAME_LEN];
    let _ = n.resolve(peer_ip(), 7, &mut req, T0);
    let pkt = view::parse(&req).unwrap().arp().unwrap();
    assert_eq!(pkt.sha, OUR_MAC);
    assert_eq!(pkt.sender_ip(), moved);
}

#[test]
fn a_second_sweep_at_the_same_time_is_idle() {
    let n = SharedNeighbor::<u32>::new(OUR_MAC, our_ip());
    let mut req = [0u8; narp::FRAME_LEN];
    let _ = n.resolve(peer_ip(), 7, &mut req, T0);
    assert_eq!(n.sweep(Tick::ms(REQUEST_INTERVAL_MS)).requests.len(), 1);
    let again = n.sweep(Tick::ms(REQUEST_INTERVAL_MS));
    assert!(again.requests.is_empty() && again.dropped.is_empty());
    assert_eq!(n.pending_targets(), 1);
}

#[test]
fn queues_of_different_targets_are_apart() {
    let mut n = NeighborTable::<u32>::new(OUR_MAC, our_ip());
    let other = Ipv4Addr::new(192, 168, 1, 51);
    let mut req = [0u8; narp::FRAME_LEN];
    let _ = n.resolve(peer_ip(), 1, &mut req, T0);
    let _ = n.resolve(other, 2, &mut req, T0);
    let _ = n.resolve(peer_ip(), 3, &mut req, T0);
    assert_eq!(n.pending_targets(), 2);
    assert_eq!(n.on_arp(peer_ip(), PEER_MAC, T0), Some((PEER_MAC, vec![1, 3])));
    assert_eq!(n.pending_targets(), 1);
    assert_eq!(n.on_arp(other, OUR_MAC, T0), Some((OUR_MAC, vec![2])));
}

#[test]
fn a_neighbor_is_found_by_its_mac() {
    let mut n = NeighborTable::<u32>::new(OUR_MAC, our_ip());
    assert_eq!(n.reverse_lookup(PEER_MAC), None);
    n.insert(peer_ip(), PEER_MAC, T0);
    assert_eq!(n.reverse_lookup(PEER_MAC), Some(peer_ip()));
    let moved = Ipv4Addr::new(192, 168, 1, 60);
    n.insert(moved, PEER_MAC, T0);
    assert_eq!(n.reverse_lookup(PEER_MAC), Some(moved));
}

#[test]
fn a_short_buffer_gets_no_request() {
    let mut n = NeighborTable::<u32>::new(OUR_MAC, our_ip());
    let mut short = [0u8; narp::FRAME_LEN - 1];
    assert!(matches!(
        n.resolve(peer_ip(), 1, &mut short, T0),
        Action::Queued { request_len: None }
    ));
    assert_eq!(n.pending_targets(), 1);
}

#[test]
fn requests_name_the_address_in_use() {
    let mut n = NeighborTable::<u32>::new(OUR_MAC, Ipv4Addr::unspecified());
    n.set_our_ip(our_ip());
    let mut req = [0u8; narp::FRAME_LEN];
    let _ = n.resolve(peer_ip(), 1, &mut req, T0);
    assert_eq!(view::parse(&req).unwrap().arp().unwrap().sender_ip(), our_ip());
}

#[test]
fn neighbors_are_listed() {
    let mut n = NeighborTable::<u32>::new(OUR_MAC, our_ip());
    n.insert(peer_ip(), PEER_MAC, Tick::ms(5));
    let mut req = [0u8; narp::FRAME_LEN];
    let _ = n.resolve(Ipv4Addr::new(192, 168, 1, 51), 1, &mut req, Tick::ms(6));
    let s = n.status();
    assert!(s.contains("    192.168.1.50 -> 02:00:00:00:00:50 (learned at Tick(5))\n"));
    assert!(s.contains("    192.168.1.51: 1 packets, last request at Tick(6), attempts 1\n"));
}

#[test]
fn replies_only_for_owned_ips() {
    let our_mac = [0x02, 0, 0, 0, 0, 1];
    let our_ip = Ipv4Addr::new(192, 168, 1, 1);
    let peer_mac = [0x02, 0, 0, 0, 0, 2];
    let peer_ip = Ipv4Addr::new(192, 168, 1, 50);

    let mut req = [0u8; narp::FRAME_LEN];
    narp::build_request(&mut req, peer_mac, peer_ip, our_ip).unwrap();

    let mut out = [0u8; narp::FRAME_LEN];
    let n = respond(our_mac, &[our_ip], &req, &mut out).expect("reply for owned ip");
    assert_eq!(n, narp::FRAME_LEN);

    let reply = view::parse(&out[..n]).unwrap().arp().unwrap();
    assert!(reply.is_reply());
    assert_eq!(reply.sender_ip(), our_ip);
    assert_eq!(reply.sha, our_mac);
    assert_eq!(reply.target_ip(), peer_ip);

    // A request for an address we don't own is ignored.
    let other = Ipv4Addr::new(192, 168, 1, 99);
    let mut req2 = [0u8; narp::FRAME_LEN];
    narp::build_request(&mut req2, peer_mac, peer_ip, other).unwrap();
    assert!(respond(our_mac, &[our_ip], &req2, &mut out).is_none());
}

#[test]
fn arp_replies_are_not_answered() {
    let mut f = [0u8; narp::FRAME_LEN];
    narp::build_reply(&mut f, PEER_MAC, peer_ip(), OUR_MAC, our_ip()).unwrap();
    let mut out = [0u8; narp::FRAME_LEN];
    assert!(respond(OUR_MAC, &[our_ip()], &f, &mut out).is_none());
    assert!(out.iter().all(|b| *b == 0));
}
