use userspace_router::net::addr::Ipv4Addr;
use userspace_router::net::dhcp::MessageType;
use userspace_router::net::ethernet::{MacAddr, BROADCAST};
use userspace_router::net::view;
use userspace_router::net::view::DhcpView;
use userspace_router::router::dhcp::{
    serve, ClientState, DhcpClient, DhcpServer, DhcpServerConfig, SharedDhcpClient,
};
use userspace_router::router::leases::{LeaseTable, SharedLeases};
use userspace_router::router::pool::{AddressPool, SharedAddressPool};

/// Walk a frame down to its DHCP view and run `f` on it.
fn with_dhcp<R>(frame: &[u8], f: impl FnOnce(&DhcpView) -> R) -> R {
    let eth = view::parse(frame).expect("eth");
    let ip = eth.ipv4().expect("ipv4");
    let udp = ip.udp().expect("udp");
    let dhcp = udp.dhcp().expect("dhcp");
    f(&dhcp)
}

#[test]
fn full_dora_between_client_and_server() {
    let client_mac = [0x02, 0, 0, 0, 0, 0x10];
    let server_mac = [0x02, 0, 0, 0, 0, 0x01];
    let server_ip = Ipv4Addr::new(192, 168, 1, 1);

    let pool =
        SharedAddressPool::new(Ipv4Addr::new(192, 168, 1, 100), Ipv4Addr::new(192, 168, 1, 110));
    pool.reserve(server_ip);

    let mut client = DhcpClient::new(client_mac, 0xABCD_1234);
    let server = DhcpServer::new(
        DhcpServerConfig {
            server_ip,
            server_mac,
            gateway: server_ip,
            subnet_mask: Ipv4Addr::new(255, 255, 255, 0),
            dns: vec![Ipv4Addr::new(1, 1, 1, 1)],
            lease_secs: 3600,
        },
        pool,
        SharedLeases::new(),
    );

    let mut out = [0u8; 600];
    let mut reply = [0u8; 600];

    // DISCOVER -> OFFER
    let n = client.poll(&mut out).unwrap();
    assert_eq!(client.state(), ClientState::Selecting);
    let on = with_dhcp(&out[..n], |v| server.handle(v, &mut reply)).unwrap();
    with_dhcp(&reply[..on], |v| client.on_receive(v));
    assert_eq!(client.state(), ClientState::Requesting);

    // REQUEST -> ACK
    let n = client.poll(&mut out).unwrap();
    let an = with_dhcp(&out[..n], |v| server.handle(v, &mut reply)).unwrap();
    with_dhcp(&reply[..an], |v| client.on_receive(v));
    assert_eq!(client.state(), ClientState::Bound);

    let lease = client.lease().unwrap();
    assert!(lease.ip >= Ipv4Addr::new(192, 168, 1, 100));
    assert!(lease.ip <= Ipv4Addr::new(192, 168, 1, 110));
    assert_eq!(lease.gateway, Some(server_ip));
    assert_eq!(lease.server_id, Some(server_ip));
    assert_eq!(lease.lease_secs, Some(3600));
    assert_eq!(lease.subnet_mask, Some(Ipv4Addr::new(255, 255, 255, 0)));
    // The server recorded the binding for this MAC.
    assert_eq!(server.lease_of(&client_mac), Some(lease.ip));
}

#[test]
fn distinct_clients_get_distinct_addresses() {
    let server_ip = Ipv4Addr::new(10, 0, 0, 1);
    let server = DhcpServer::new(
        DhcpServerConfig {
            server_ip,
            server_mac: [0x02, 0, 0, 0, 0, 1],
            gateway: server_ip,
            subnet_mask: Ipv4Addr::new(255, 255, 255, 0),
            dns: vec![],
            lease_secs: 600,
        },
        SharedAddressPool::new(Ipv4Addr::new(10, 0, 0, 100), Ipv4Addr::new(10, 0, 0, 110)),
        SharedLeases::new(),
    );

    let mut out = [0u8; 600];
    let mut reply = [0u8; 600];
    let mut offered = Vec::new();
    for last in 0x20u8..0x23 {
        let mut c = DhcpClient::new([0x02, 0, 0, 0, 0, last], last as u32);
        let n = c.poll(&mut out).unwrap();
        let on = with_dhcp(&out[..n], |v| server.handle(v, &mut reply)).unwrap();
        with_dhcp(&reply[..on], |v| c.on_receive(v));
        offered.push(c.offered_ip.unwrap());
    }
    offered.sort();
    offered.dedup();
    assert_eq!(offered.len(), 3, "each client should get a unique address");
}

/// On a bridged LAN, two physical ports each run their own `DhcpServer` but the
/// lease state has to be one set: a client that DISCOVERs on one port and
/// REQUESTs on the other must get an ACK for the *same* address, not a NAK or a
/// different lease.
#[test]
fn bridged_servers_share_leases_across_a_roam() {
    let client_mac = [0x02, 0, 0, 0, 0, 0x10];
    let server_ip = Ipv4Addr::new(192, 168, 1, 1);
    let pool =
        SharedAddressPool::new(Ipv4Addr::new(192, 168, 1, 100), Ipv4Addr::new(192, 168, 1, 110));
    let leases = SharedLeases::new();

    let make = |mac: MacAddr| {
        DhcpServer::new(
            DhcpServerConfig {
                server_ip,
                server_mac: mac,
                gateway: server_ip,
                subnet_mask: Ipv4Addr::new(255, 255, 255, 0),
                dns: vec![],
                lease_secs: 600,
            },
            pool.clone(),
            leases.clone(),
        )
    };
    let server_a = make([0x02, 0, 0, 0, 0, 0x01]);
    let server_b = make([0x02, 0, 0, 0, 0, 0x02]);

    let mut client = DhcpClient::new(client_mac, 0xCAFE_BABE);
    let mut out = [0u8; 600];
    let mut reply = [0u8; 600];

    // DISCOVER lands on server A: it allocates from the shared pool and records
    // the binding in the shared lease table.
    let n = client.poll(&mut out).unwrap();
    let on = with_dhcp(&out[..n], |v| server_a.handle(v, &mut reply)).unwrap();
    with_dhcp(&reply[..on], |v| client.on_receive(v));

    // The client roams to the other port for its REQUEST. Server B has never
    // seen this MAC before, but it observes the lease and ACKs the same IP.
    let n = client.poll(&mut out).unwrap();
    let an = with_dhcp(&out[..n], |v| server_b.handle(v, &mut reply)).unwrap();
    with_dhcp(&reply[..an], |v| client.on_receive(v));

    assert_eq!(client.state(), ClientState::Bound);
    let ip = client.bound_ip().unwrap();
    // Both servers see the same binding.
    assert_eq!(server_a.lease_of(&client_mac), Some(ip));
    assert_eq!(server_b.lease_of(&client_mac), Some(ip));
    // And only one address came out of the pool.
    assert_eq!(leases.len(), 1);
}

const MAC: MacAddr = [0x02, 0, 0, 0, 0, 0x10];

fn config() -> DhcpServerConfig {
    DhcpServerConfig {
        server_ip: Ipv4Addr::new(192, 168, 1, 1),
        server_mac: [0x02, 0, 0, 0, 0, 0x01],
        gateway: Ipv4Addr::new(192, 168, 1, 2),
        subnet_mask: Ipv4Addr::new(255, 255, 255, 0),
        dns: vec![Ipv4Addr::new(1, 1, 1, 1), Ipv4Addr::new(8, 8, 8, 8)],
        lease_secs: 600,
    }
}

fn pool() -> AddressPool {
    AddressPool::new(Ipv4Addr::new(192, 168, 1, 100), Ipv4Addr::new(192, 168, 1, 101))
}

#[test]
fn an_offer_says_what_the_server_hands_out() {
    let cfg = config();
    let mut addresses = pool();
    let mut leases = LeaseTable::default();
    let mut client = DhcpClient::new(MAC, 7);
    let mut out = [0u8; 600];
    let mut reply = [0u8; 600];
    let n = client.poll(&mut out).unwrap();
    let on =
        with_dhcp(&out[..n], |v| serve(&cfg, &mut addresses, &mut leases, v, &mut reply)).unwrap();
    let eth = view::parse(&reply[..on]).unwrap();
    assert_eq!(eth.header().src, cfg.server_mac);
    with_dhcp(&reply[..on], |v| {
        assert_eq!(v.message_type(), Some(MessageType::Offer));
        let o = v.offer().unwrap();
        assert_eq!(o.transaction_id(), 7);
        assert_eq!(o.client_hardware_addr(), &MAC);
        assert_eq!(o.offered_ip(), Ipv4Addr::new(192, 168, 1, 100));
        assert_eq!(o.server_id(), Some(cfg.server_ip));
        assert_eq!(o.lease_time(), Some(600));
        assert_eq!(o.subnet_mask(), Some(cfg.subnet_mask));
        assert_eq!(o.routers().collect(), vec![cfg.gateway]);
        assert_eq!(o.dns_servers().collect(), cfg.dns);
    });
    assert_eq!(leases.lookup(MAC), Some(Ipv4Addr::new(192, 168, 1, 100)));
    // Asked again, the server offers the same address.
    with_dhcp(&out[..n], |v| serve(&cfg, &mut addresses, &mut leases, v, &mut reply)).unwrap();
    with_dhcp(&reply[..on], |v| {
        assert_eq!(v.offer().unwrap().offered_ip(), Ipv4Addr::new(192, 168, 1, 100));
    });
    assert_eq!(leases.len(), 1);
}

#[test]
fn a_request_for_another_address_is_refused() {
    let cfg = config();
    let mut addresses = pool();
    let mut leases = LeaseTable::default();
    let mut client = DhcpClient::new(MAC, 7);
    let mut out = [0u8; 600];
    let mut reply = [0u8; 600];
    client.state = ClientState::Requesting;
    client.offered_ip = Some(Ipv4Addr::new(192, 168, 1, 77));
    client.server_id = Some(cfg.server_ip);
    let n = client.poll(&mut out).unwrap();
    let on =
        with_dhcp(&out[..n], |v| serve(&cfg, &mut addresses, &mut leases, v, &mut reply)).unwrap();
    assert_eq!(view::parse(&reply[..on]).unwrap().header().dst, BROADCAST);
    with_dhcp(&reply[..on], |v| {
        assert_eq!(v.message_type(), Some(MessageType::Nak));
        assert!(v.header().your_ip().is_unspecified());
        client.on_receive(v);
    });
    // The client starts over.
    assert_eq!(client.state(), ClientState::Init);
    assert_eq!(client.offered_ip, None);
    assert_eq!(client.server_id, None);
}

#[test]
fn a_request_for_another_server_is_not_answered() {
    let cfg = config();
    let mut addresses = pool();
    let mut leases = LeaseTable::default();
    let mut client = DhcpClient::new(MAC, 7);
    let mut out = [0u8; 600];
    let mut reply = [0u8; 600];
    client.state = ClientState::Requesting;
    client.offered_ip = Some(Ipv4Addr::new(192, 168, 1, 100));
    client.server_id = Some(Ipv4Addr::new(192, 168, 1, 9));
    let n = client.poll(&mut out).unwrap();
    let r = with_dhcp(&out[..n], |v| serve(&cfg, &mut addresses, &mut leases, v, &mut reply));
    assert!(r.is_none());
    assert!(leases.is_empty());
    assert!(reply.iter().all(|b| *b == 0));
}

#[test]
fn an_empty_pool_offers_nothing() {
    let cfg = config();
    let mut addresses = pool();
    let mut leases = LeaseTable::default();
    addresses.take(2).unwrap();
    let mut client = DhcpClient::new(MAC, 7);
    let mut out = [0u8; 600];
    let mut reply = [0u8; 600];
    let n = client.poll(&mut out).unwrap();
    let r = with_dhcp(&out[..n], |v| serve(&cfg, &mut addresses, &mut leases, v, &mut reply));
    assert!(r.is_none());
}

#[test]
fn a_released_address_can_be_leased_again() {
    let cfg = config();
    let mut addresses = pool();
    let mut leases = LeaseTable::default();
    let mut client = DhcpClient::new(MAC, 7);
    let mut out = [0u8; 600];
    let mut reply = [0u8; 600];
    let n = client.poll(&mut out).unwrap();
    with_dhcp(&out[..n], |v| serve(&cfg, &mut addresses, &mut leases, v, &mut reply)).unwrap();
    assert_eq!(addresses.intervals.len(), 1);
    assert_eq!(addresses.intervals[0].0, Ipv4Addr::new(192, 168, 1, 101));
    // Turn the DISCOVER into a RELEASE: the message type is the first option.
    let at = 14 + 20 + 8 + 240;
    assert_eq!(&out[at..at + 3], &[53, 1, 1]);
    out[at + 2] = 7;
    let r = with_dhcp(&out[..n], |v| serve(&cfg, &mut addresses, &mut leases, v, &mut reply));
    assert!(r.is_none());
    assert!(leases.is_empty());
    assert_eq!(addresses.intervals, pool().intervals);
}

#[test]
fn a_client_ignores_what_is_not_for_it() {
    let cfg = config();
    let mut addresses = pool();
    let mut leases = LeaseTable::default();
    let mut client = DhcpClient::new(MAC, 7);
    let mut out = [0u8; 600];
    let mut reply = [0u8; 600];
    let n = client.poll(&mut out).unwrap();
    let on =
        with_dhcp(&out[..n], |v| serve(&cfg, &mut addresses, &mut leases, v, &mut reply)).unwrap();
    let mut other = DhcpClient::new(MAC, 8);
    other.poll(&mut out).unwrap();
    with_dhcp(&reply[..on], |v| other.on_receive(v));
    assert_eq!(other.state(), ClientState::Selecting);
    // Nothing to send while an offer is awaited.
    assert!(client.poll(&mut out).is_none());
    // A short buffer takes no frame and leaves the client where it is.
    let mut fresh = DhcpClient::new(MAC, 9);
    assert!(fresh.poll(&mut out[..100]).is_none());
    assert_eq!(fresh.state(), ClientState::Init);
}

#[test]
fn a_shared_client_is_one_client() {
    let a = SharedDhcpClient::from(DhcpClient::new(MAC, 7));
    let b = a.clone();
    let mut out = [0u8; 600];
    let n = a.poll(&mut out).unwrap();
    assert_eq!(b.state(), ClientState::Selecting);
    assert_eq!(b.bound_ip(), None);
    assert!(b.lease().is_none());
    let server = DhcpServer::new(
        config(),
        SharedAddressPool::new(Ipv4Addr::new(192, 168, 1, 100), Ipv4Addr::new(192, 168, 1, 101)),
        SharedLeases::new(),
    );
    let mut reply = [0u8; 600];
    let on = with_dhcp(&out[..n], |v| server.handle(v, &mut reply)).unwrap();
    with_dhcp(&reply[..on], |v| b.on_receive(v));
    let n = a.poll(&mut out).unwrap();
    let an = with_dhcp(&out[..n], |v| server.handle(v, &mut reply)).unwrap();
    with_dhcp(&reply[..an], |v| b.on_receive(v));
    assert_eq!(a.state(), ClientState::Bound);
    assert_eq!(a.bound_ip(), Some(Ipv4Addr::new(192, 168, 1, 100)));
    assert_eq!(a.lease().unwrap().gateway, Some(Ipv4Addr::new(192, 168, 1, 2)));
}

#[test]
fn a_server_leases_from_its_own_range() {
    let pool =
        SharedAddressPool::new(Ipv4Addr::new(192, 168, 1, 100), Ipv4Addr::new(192, 168, 1, 101));
    let server = DhcpServer::new(config(), pool, SharedLeases::new());
    let mut out = [0u8; 600];
    let mut reply = [0u8; 600];
    for k in 0..3u8 {
        let mac = [2, 0, 0, 0, 1, k];
        let mut client = DhcpClient::new(mac, 7);
        let n = client.poll(&mut out).unwrap();
        let r = with_dhcp(&out[..n], |v| server.handle(v, &mut reply));
        let expected = [Some(100), Some(101), None][k as usize];
        assert_eq!(r.is_some(), expected.is_some());
        assert_eq!(server.lease_of(&mac), expected.map(|b| Ipv4Addr::new(192, 168, 1, b)));
    }
}

#[test]
fn a_server_keeps_reserved_addresses() {
    let server = DhcpServer::new(
        config(),
        SharedAddressPool::new(Ipv4Addr::new(192, 168, 1, 100), Ipv4Addr::new(192, 168, 1, 101)),
        SharedLeases::new(),
    );
    assert_eq!(server.start(), Ipv4Addr::new(192, 168, 1, 100));
    assert_eq!(server.end(), Ipv4Addr::new(192, 168, 1, 101));
    server.reserve(Ipv4Addr::new(192, 168, 1, 100));
    let mut client = DhcpClient::new(MAC, 7);
    let mut out = [0u8; 600];
    let mut reply = [0u8; 600];
    let n = client.poll(&mut out).unwrap();
    with_dhcp(&out[..n], |v| server.handle(v, &mut reply)).unwrap();
    assert_eq!(server.lease_of(&MAC), Some(Ipv4Addr::new(192, 168, 1, 101)));
    server.release(Ipv4Addr::new(192, 168, 1, 100));
    let mut other = DhcpClient::new([2, 0, 0, 0, 0, 0x11], 8);
    let n = other.poll(&mut out).unwrap();
    with_dhcp(&out[..n], |v| server.handle(v, &mut reply)).unwrap();
    assert_eq!(
        server.lease_of(&[2, 0, 0, 0, 0, 0x11]),
        Some(Ipv4Addr::new(192, 168, 1, 100))
    );
}
