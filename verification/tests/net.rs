use userspace_router::net::addr::Ipv4Addr;
use userspace_router::net::arp::{
    build_reply, build_request, handle, oper, Action, ArpPacket, NeighborCache, FRAME_LEN,
    UNKNOWN_HARDWARE_ADDR,
};
use userspace_router::net::checksum;
use userspace_router::net::checksum::{accumulate, finish, ipv4_header, udp_ipv4, update};
use userspace_router::net::dhcp::{
    message_type, option, DhcpHeader, Lease, MessageType, Offer, Options, OptionsIter,
    OptionsWriter, Request,
};
use userspace_router::net::dns::{DnsHeader, FLAG_QR_RESPONSE, FLAG_RECURSION_DESIRED};
use userspace_router::net::ethernet::{
    display_mac, ethertype, same_mac, EthernetHeader, MacAddr, VlanTag, BROADCAST,
};
use userspace_router::net::ip::{proto, Ipv4Header};
use userspace_router::net::tcp::{flag, TcpHeader};
use userspace_router::net::udp::UdpHeader;
use userspace_router::net::util::{
    format_mac, mac_from_digest, netmask_to_prefix, prefix_to_netmask, software_defined_mac,
    Netmask,
};
use userspace_router::net::view::{parse, port};
use userspace_router::net::wire::{mut_from, mut_from_prefix, ref_from, ref_from_prefix, U16Be, U32Be};

const OUR_MAC: MacAddr = [0x02, 0x00, 0x00, 0x00, 0x00, 0x01];
const PEER_MAC: MacAddr = [0x02, 0x00, 0x00, 0x00, 0x00, 0x02];

/// The protocol field of the UDP pseudo-header.
const UDP_PROTO_WORD: u32 = 17;

fn our_ip() -> Ipv4Addr {
    Ipv4Addr::new(10, 0, 0, 1)
}

fn peer_ip() -> Ipv4Addr {
    Ipv4Addr::new(10, 0, 0, 2)
}

fn parse_arp(buf: &[u8]) -> (EthernetHeader, ArpPacket) {
    let (eth, rest) = ref_from_prefix::<EthernetHeader>(buf).unwrap();
    let (arp, _) = ref_from_prefix::<ArpPacket>(rest).unwrap();
    (eth, arp)
}

#[test]
fn request_is_broadcast_and_well_formed() {
    let mut buf = [0u8; FRAME_LEN];
    let n = build_request(&mut buf, OUR_MAC, our_ip(), peer_ip()).unwrap();
    assert_eq!(n, FRAME_LEN);

    let (eth, arp) = parse_arp(&buf);
    assert_eq!(eth.dst, BROADCAST);
    assert_eq!(eth.src, OUR_MAC);
    assert_eq!(eth.ethertype(), ethertype::ARP);
    assert!(arp.is_ethernet_ipv4());
    assert!(arp.is_request());
    assert_eq!(arp.sender_ip(), our_ip());
    assert_eq!(arp.target_ip(), peer_ip());
    assert_eq!(arp.tha, UNKNOWN_HARDWARE_ADDR);
}

#[test]
fn handle_replies_to_request_for_us() {
    // Craft an inbound request from the peer asking for our IP.
    let mut in_buf = [0u8; FRAME_LEN];
    build_request(&mut in_buf, PEER_MAC, peer_ip(), our_ip()).unwrap();
    let (_, in_arp) = parse_arp(&in_buf);

    let mut cache = NeighborCache::new();
    let mut out_buf = [0u8; FRAME_LEN];
    let action = handle(OUR_MAC, our_ip(), &mut cache, &in_arp, &mut out_buf);

    assert_eq!(action, Action::SendReply(FRAME_LEN));
    // We learned the requester's mapping.
    assert_eq!(cache.lookup(&peer_ip()), Some(PEER_MAC));

    let (eth, arp) = parse_arp(&out_buf);
    assert_eq!(eth.dst, PEER_MAC);
    assert_eq!(eth.src, OUR_MAC);
    assert!(arp.is_reply());
    assert_eq!(arp.sender_ip(), our_ip());
    assert_eq!(arp.target_ip(), peer_ip());
    assert_eq!(arp.tha, PEER_MAC);
}

#[test]
fn handle_ignores_request_for_other_host() {
    let other_ip = Ipv4Addr::new(10, 0, 0, 99);
    let mut in_buf = [0u8; FRAME_LEN];
    build_request(&mut in_buf, PEER_MAC, peer_ip(), other_ip).unwrap();
    let (_, in_arp) = parse_arp(&in_buf);

    let mut cache = NeighborCache::new();
    let mut out_buf = [0u8; FRAME_LEN];
    let action = handle(OUR_MAC, our_ip(), &mut cache, &in_arp, &mut out_buf);

    assert_eq!(action, Action::Nothing);
    // Still learned the sender even though we don't reply.
    assert_eq!(cache.lookup(&peer_ip()), Some(PEER_MAC));
}

#[test]
fn arp_replies_and_foreign_packets_are_not_answered() {
    let mut in_buf = [0u8; FRAME_LEN];
    build_reply(&mut in_buf, PEER_MAC, peer_ip(), OUR_MAC, our_ip()).unwrap();
    let (_, mut pkt) = parse_arp(&in_buf);
    let mut cache = NeighborCache::default();
    let mut out_buf = [0u8; FRAME_LEN];
    assert_eq!(handle(OUR_MAC, our_ip(), &mut cache, &pkt, &mut out_buf), Action::Nothing);
    assert_eq!(cache.len(), 1);

    // Not Ethernet/IPv4: nothing is learned.
    pkt.hlen = 8;
    pkt.set_oper(oper::REQUEST);
    let mut cache = NeighborCache::new();
    assert_eq!(handle(OUR_MAC, our_ip(), &mut cache, &pkt, &mut out_buf), Action::Nothing);
    assert!(cache.is_empty());
    assert!(out_buf.iter().all(|b| *b == 0));
}

#[test]
fn a_reply_needs_room() {
    let mut in_buf = [0u8; FRAME_LEN];
    build_request(&mut in_buf, PEER_MAC, peer_ip(), our_ip()).unwrap();
    let (_, in_arp) = parse_arp(&in_buf);
    let mut cache = NeighborCache::new();
    let mut short = [0u8; FRAME_LEN - 1];
    assert_eq!(handle(OUR_MAC, our_ip(), &mut cache, &in_arp, &mut short), Action::Nothing);
    // The Ethernet header had room and was written, the rest was not.
    assert_eq!(&short[..14], &[2, 0, 0, 0, 0, 2, 2, 0, 0, 0, 0, 1, 8, 6]);
    assert!(short[14..].iter().all(|b| *b == 0));
    let mut tiny = [0u8; 13];
    assert!(build_request(&mut tiny, OUR_MAC, our_ip(), peer_ip()).is_none());
    assert_eq!(tiny, [0u8; 13]);
}

#[test]
fn neighbors_can_be_forgotten() {
    let mut cache = NeighborCache::new();
    cache.insert(peer_ip(), PEER_MAC);
    cache.insert(our_ip(), OUR_MAC);
    assert_eq!(cache.remove(&peer_ip()), Some(PEER_MAC));
    assert_eq!(cache.remove(&peer_ip()), None);
    assert_eq!(cache.lookup(&our_ip()), Some(OUR_MAC));
    assert_eq!(cache.len(), 1);
}

#[test]
fn an_arp_request_has_these_bytes() {
    let mut buf = [0xaau8; FRAME_LEN + 1];
    build_request(&mut buf, OUR_MAC, our_ip(), peer_ip()).unwrap();
    assert_eq!(
        buf,
        [
            0xff, 0xff, 0xff, 0xff, 0xff, 0xff, 2, 0, 0, 0, 0, 1, 8, 6, 0, 1, 8, 0, 6, 4, 0, 1, 2,
            0, 0, 0, 0, 1, 10, 0, 0, 1, 0, 0, 0, 0, 0, 0, 10, 0, 0, 2, 0xaa
        ]
    );
}

#[test]
fn ipv4_checksum_verifies_to_zero() {
    // A 20-byte IPv4 header with the checksum field (bytes 10..12) zeroed.
    let mut hdr = [
        0x45, 0x00, 0x00, 0x3c, 0x1c, 0x46, 0x40, 0x00, 0x40, 0x06, 0x00, 0x00, 0xac, 0x10, 0x0a,
        0x63, 0xac, 0x10, 0x0a, 0x0c,
    ];
    let c = ipv4_header(&hdr);
    hdr[10..12].copy_from_slice(&c.to_be_bytes());
    // Header including the checksum now sums to zero.
    assert_eq!(checksum::checksum(&hdr), 0);
    assert_eq!(c, 0xb1e6);
}

#[test]
fn udp_checksum_round_trips() {
    let src = [10, 0, 0, 1];
    let dst = [10, 0, 0, 2];
    // UDP header (ports 68->67, len 12, cksum 0) + 4 payload bytes.
    let mut udp = [0x00, 68, 0x00, 67, 0x00, 12, 0x00, 0x00, 0xde, 0xad, 0xbe, 0xef];
    let c = udp_ipv4(src, dst, &udp);
    udp[6..8].copy_from_slice(&c.to_be_bytes());
    // Recomputing over the segment with the checksum in place verifies.
    let mut acc = 0u32;
    acc = accumulate(acc, &src);
    acc = accumulate(acc, &dst);
    acc = acc.wrapping_add(UDP_PROTO_WORD);
    acc = acc.wrapping_add(udp.len() as u32);
    acc = accumulate(acc, &udp);
    assert_eq!(finish(acc), 0);
}

#[test]
fn a_field_of_odd_length_is_updated() {
    // In the middle of the data, where the field shares its last word, and at
    // the end of data of odd length.
    for (off, new) in [(2usize, [9u8, 8, 7]), (4, [0, 0, 0xff])] {
        let mut data = [0x12, 0x34, 0x56, 0x78, 0x9a, 0xbc, 0xde];
        let stored = checksum::checksum(&data);
        let updated = update(stored, &data[off..off + 3], &new);
        data[off..off + 3].copy_from_slice(&new);
        assert_eq!(updated, checksum::checksum(&data));
    }
    assert_eq!(update(0xffff, &[0], &[1]), 0xfeff);
}

#[test]
fn incremental_update_matches_full_recompute() {
    let mut hdr = [
        0x45, 0x00, 0x00, 0x3c, 0x1c, 0x46, 0x40, 0x00, 0x40, 0x06, 0x00, 0x00, 0xac, 0x10, 0x0a,
        0x63, 0xac, 0x10, 0x0a, 0x0c,
    ];
    let stored = ipv4_header(&hdr);
    hdr[10..12].copy_from_slice(&stored.to_be_bytes());
    assert_eq!(checksum::checksum(&hdr), 0);

    // Rewrite the source address (bytes 12..16) NAT-style.
    let old_src = [hdr[12], hdr[13], hdr[14], hdr[15]];
    let new_src = [203, 0, 113, 7];
    let updated = update(stored, &old_src, &new_src);

    // Full recompute over the modified header must agree.
    hdr[12..16].copy_from_slice(&new_src);
    hdr[10..12].copy_from_slice(&[0, 0]);
    assert_eq!(updated, ipv4_header(&hdr));
}

#[test]
fn an_odd_byte_is_padded_with_zero() {
    assert_eq!(checksum::checksum(&[]), 0xffff);
    assert_eq!(checksum::checksum(&[0x12]), !0x1200);
    assert_eq!(checksum::checksum(&[0x12, 0x34, 0x56]), !(0x1234 + 0x5600));
    // The carry comes round.
    assert_eq!(checksum::checksum(&[0xff, 0xff, 0x00, 0x01]), !1);
}

#[test]
fn a_udp_checksum_of_zero_is_sent_as_all_ones() {
    // The pseudo-header and the segment add up to 0xffff.
    let src = [0, 0, 0, 0];
    let dst = [0, 0, 0, 0];
    let word: u16 = 0xffff - 17 - 8 - 8;
    let mut udp = [0u8; 8];
    udp[4..6].copy_from_slice(&8u16.to_be_bytes());
    udp[0..2].copy_from_slice(&word.to_be_bytes());
    assert_eq!(udp_ipv4(src, dst, &udp), 0xffff);
}

/// Length byte for a single IPv4-address option value.
const IPV4_OPT_LEN: u8 = 4;
/// Length byte for a 32-bit seconds option value.
const SECONDS_OPT_LEN: u8 = 4;

#[test]
fn parses_ack_into_lease() {
    let header = DhcpHeader::default();
    let opts = [
        option::MESSAGE_TYPE,
        1,
        message_type::ACK,
        option::SERVER_ID,
        IPV4_OPT_LEN,
        192,
        168,
        1,
        1,
        // 0x0000_0E10 == 3600 seconds.
        option::LEASE_TIME,
        SECONDS_OPT_LEN,
        0x00,
        0x00,
        0x0e,
        0x10,
        option::SUBNET_MASK,
        IPV4_OPT_LEN,
        255,
        255,
        255,
        0,
        option::ROUTER,
        IPV4_OPT_LEN,
        192,
        168,
        1,
        254,
        option::DNS_SERVER,
        8,
        8,
        8,
        8,
        8,
        1,
        1,
        1,
        1,
        option::END,
    ];

    let lease = Lease::parse(&header, &opts).expect("ACK should parse as a lease");
    assert_eq!(lease.server_id(), Some(Ipv4Addr::new(192, 168, 1, 1)));
    assert_eq!(lease.lease_time(), Some(3600));
    assert_eq!(lease.subnet_mask(), Some(Ipv4Addr::new(255, 255, 255, 0)));

    let routers: Vec<_> = lease.routers().collect();
    assert_eq!(routers, vec![Ipv4Addr::new(192, 168, 1, 254)]);

    let dns: Vec<_> = lease.dns_servers().collect();
    assert_eq!(dns, vec![Ipv4Addr::new(8, 8, 8, 8), Ipv4Addr::new(1, 1, 1, 1)]);

    // The message-type gate rejects the wrong interpretation.
    assert!(Offer::parse(&header, &opts).is_none());
    assert!(Request::parse(&header, &opts).is_none());
}

#[test]
fn parses_offer_and_request() {
    let header = DhcpHeader::default();

    let offer_opts = [
        option::MESSAGE_TYPE,
        1,
        message_type::OFFER,
        option::SERVER_ID,
        IPV4_OPT_LEN,
        10,
        0,
        0,
        1,
        option::END,
    ];
    let offer = Offer::parse(&header, &offer_opts).expect("OFFER");
    assert_eq!(offer.server_id(), Some(Ipv4Addr::new(10, 0, 0, 1)));

    let request_opts = [
        option::MESSAGE_TYPE,
        1,
        message_type::REQUEST,
        option::REQUESTED_IP,
        IPV4_OPT_LEN,
        10,
        0,
        0,
        50,
        option::SERVER_ID,
        IPV4_OPT_LEN,
        10,
        0,
        0,
        1,
        option::END,
    ];
    let request = Request::parse(&header, &request_opts).expect("REQUEST");
    assert_eq!(request.requested_ip(), Some(Ipv4Addr::new(10, 0, 0, 50)));
    assert_eq!(request.server_id(), Some(Ipv4Addr::new(10, 0, 0, 1)));
}

#[test]
fn options_stop_at_the_end_marker_or_at_a_cut() {
    // PAD is skipped, END stops.
    let mut it = OptionsIter::new(&[0, 0, 1, 1, 9, 255, 3, 1, 8]);
    assert_eq!(it.next(), Some((1, &[9u8][..])));
    assert_eq!(it.next(), None);
    assert_eq!(it.next(), None);
    // A length that points past the end stops as well.
    let mut it = OptionsIter::new(&[1, 1, 9, 3, 5, 8]);
    assert_eq!(it.next(), Some((1, &[9u8][..])));
    assert_eq!(it.next(), None);
    // A code without a length stops.
    let mut it = OptionsIter::new(&[1]);
    assert_eq!(it.next(), None);
}

#[test]
fn written_options_are_read_back() {
    let mut buf = [0u8; 64];
    let mut w = OptionsWriter::new(&mut buf);
    assert!(w.is_empty());
    assert!(w.message_type(MessageType::Offer));
    assert!(w.ipv4(option::SERVER_ID, our_ip()));
    assert!(w.seconds(option::LEASE_TIME, 3600));
    assert!(w.seconds(option::RENEWAL_TIME, 1800));
    assert!(w.seconds(option::REBINDING_TIME, 3150));
    assert!(w.ipv4_list(option::ROUTER, &[our_ip(), peer_ip()]));
    assert!(w.end());
    let n = w.len();
    assert_eq!(n, 3 + 6 + 6 + 6 + 6 + 10 + 1);
    let opts = Options::new(&buf[..n]);
    assert_eq!(opts.message_type(), Some(MessageType::Offer));
    assert_eq!(opts.server_id(), Some(our_ip()));
    assert_eq!(opts.lease_time(), Some(3600));
    assert_eq!(opts.renewal_time(), Some(1800));
    assert_eq!(opts.rebinding_time(), Some(3150));
    assert_eq!(opts.routers().collect(), vec![our_ip(), peer_ip()]);
    assert_eq!(opts.dns_servers().collect(), vec![]);
    assert_eq!(opts.get(option::SUBNET_MASK), None);
}

#[test]
fn options_that_do_not_fit_are_refused() {
    let mut buf = [0u8; 5];
    let mut w = OptionsWriter::new(&mut buf);
    assert!(!w.ipv4(option::SERVER_ID, our_ip()));
    assert_eq!(w.len(), 0);
    assert!(w.option(1, &[7, 8, 9]));
    assert!(!w.end());
    assert_eq!(w.len(), 5);

    let mut big = [0u8; 600];
    let mut w = OptionsWriter::new(&mut big);
    assert!(!w.option(1, &[0u8; 256]));
    assert!(w.option(1, &[0u8; 255]));
    assert!(!w.ipv4_list(option::ROUTER, &[our_ip(); 64]));
    assert!(w.ipv4_list(option::ROUTER, &[our_ip(); 63]));
    assert_eq!(w.len(), 257 + 254);
}

#[test]
fn message_types_have_their_numbers() {
    for v in 0..=255u8 {
        match MessageType::from_u8(v) {
            Some(t) => {
                assert_eq!(t.to_u8(), v);
                assert!((1..=8).contains(&v));
            }
            None => assert!(!(1..=8).contains(&v)),
        }
    }
    assert_eq!(MessageType::from_u8(message_type::NAK), Some(MessageType::Nak));
    assert_eq!(MessageType::Release.to_u8(), message_type::RELEASE);
}

const DNS_ID: u16 = 0x1234;

/// Build an Ethernet/IPv4/UDP/DNS packet into `buf` and return its length.
fn build_dns_over_udp(buf: &mut [u8]) -> usize {
    let total_ip = Ipv4Header::MIN_LEN + UdpHeader::LEN + DnsHeader::LEN;

    let (hdr, rest) = mut_from_prefix::<EthernetHeader>(buf).unwrap();
    let mut eth: EthernetHeader = hdr.get();
    eth.set_ethertype(ethertype::IPV4);
    hdr.put(&eth);

    let (hdr, rest) = mut_from_prefix::<Ipv4Header>(rest).unwrap();
    let mut ipv4: Ipv4Header = hdr.get();
    ipv4.set_version_ihl(4, 5);
    ipv4.protocol = proto::UDP;
    ipv4.set_total_len(total_ip as u16);
    hdr.put(&ipv4);

    let (hdr, rest) = mut_from_prefix::<UdpHeader>(rest).unwrap();
    let mut udp: UdpHeader = hdr.get();
    udp.set_dst_port(port::DNS);
    udp.set_length((UdpHeader::LEN + DnsHeader::LEN) as u16);
    hdr.put(&udp);

    let (hdr, _) = mut_from_prefix::<DnsHeader>(rest).unwrap();
    let mut dns: DnsHeader = hdr.get();
    dns.set_id(DNS_ID);
    hdr.put(&dns);

    EthernetHeader::LEN + total_ip
}

#[test]
fn descends_eth_ipv4_udp_dns() {
    // Oversized buffer so trailing bytes act as Ethernet padding.
    let mut buf = [0u8; 64];
    let len = build_dns_over_udp(&mut buf);

    let eth = parse(&buf).unwrap();
    assert!(eth.is_ipv4());

    let ipv4 = eth.ipv4().unwrap();
    assert!(ipv4.is_udp());

    let udp = ipv4.udp().unwrap();
    assert!(udp.is_dns());
    // Payload is trimmed to the DNS message, not the padded buffer.
    assert_eq!(udp.payload().len(), DnsHeader::LEN);

    let dns = udp.dns().unwrap();
    assert_eq!(dns.header().id(), DNS_ID);

    // The reported offset locates the DNS header within the original frame.
    assert_eq!(dns.header_offset(), len - DnsHeader::LEN);
}

#[test]
fn non_arp_frame_has_no_arp_view() {
    let mut buf = [0u8; 64];
    build_dns_over_udp(&mut buf);
    let eth = parse(&buf).unwrap();
    assert!(eth.arp().is_none());
    assert!(eth.ipv4().unwrap().tcp().is_none());
}

#[test]
fn a_vlan_tag_is_skipped() {
    let mut plain = [0u8; 64];
    let len = build_dns_over_udp(&mut plain);
    let mut tagged = vec![0u8; 12];
    tagged.extend_from_slice(&[0x81, 0x00, 0x60, 0x05]);
    tagged.extend_from_slice(&plain[12..len]);
    let eth = parse(&tagged).unwrap();
    assert_eq!(eth.ethertype(), ethertype::IPV4);
    assert_eq!(eth.payload_offset(), 18);
    assert_eq!(eth.ipv4().unwrap().udp().unwrap().dns().unwrap().header().id(), DNS_ID);

    let (tag, _) = ref_from_prefix::<VlanTag>(&tagged[14..]).unwrap();
    assert_eq!((tag.pcp(), tag.dei(), tag.vid()), (3, false, 5));
    assert_eq!(tag.inner_ethertype(), ethertype::IPV4);
}

#[test]
fn short_or_wrong_layers_have_no_view() {
    assert!(parse(&[0u8; 13]).is_none());
    let mut buf = [0u8; 64];
    let len = build_dns_over_udp(&mut buf);
    // Cut inside the IPv4 header, inside the UDP header, inside the DNS header.
    assert!(parse(&buf[..20]).unwrap().ipv4().is_none());
    assert!(parse(&buf[..40]).unwrap().ipv4().unwrap().udp().is_none());
    assert!(parse(&buf[..len - 1]).unwrap().ipv4().unwrap().udp().unwrap().dns().is_none());
    // A header length below the minimum.
    buf[14] = 0x44;
    assert!(parse(&buf).unwrap().ipv4().is_none());
}

#[test]
fn addresses_have_a_dotted_form() {
    let ip = Ipv4Addr::new(192, 168, 1, 250);
    assert_eq!(ip.bits, 0xc0a8_01fa);
    assert_eq!(ip.octets(), [192, 168, 1, 250]);
    assert_eq!(Ipv4Addr::from_octets([192, 168, 1, 250]), ip);
    assert_eq!(ip.to_string(), "192.168.1.250");
    assert_eq!(Ipv4Addr::unspecified().to_string(), "0.0.0.0");
    assert_eq!(Ipv4Addr::broadcast().to_string(), "255.255.255.255");
    assert!(Ipv4Addr::unspecified().is_unspecified() && !ip.is_unspecified());
}

#[test]
fn netmasks_are_contiguous() {
    assert_eq!(prefix_to_netmask(0), Some(Ipv4Addr::new(0, 0, 0, 0)));
    assert_eq!(prefix_to_netmask(24), Some(Ipv4Addr::new(255, 255, 255, 0)));
    assert_eq!(prefix_to_netmask(32), Some(Ipv4Addr::new(255, 255, 255, 255)));
    assert_eq!(prefix_to_netmask(33), None);
    for p in 0..=32u8 {
        assert_eq!(netmask_to_prefix(prefix_to_netmask(p).unwrap()), Some(p));
    }
    assert_eq!(netmask_to_prefix(Ipv4Addr::new(255, 0, 255, 0)), None);
    assert!(Netmask::new(Ipv4Addr::new(0, 0, 0, 255)).is_none());
    let m = Netmask::new(Ipv4Addr::new(255, 255, 240, 0)).unwrap();
    assert_eq!(m.prefix(), 20);
    assert_eq!(m.netmask(), Ipv4Addr::new(255, 255, 240, 0));
    assert_eq!(m.network(Ipv4Addr::new(10, 1, 0x37, 9)), Ipv4Addr::new(10, 1, 0x30, 0));
}

#[test]
fn software_defined_macs_come_from_the_digest() {
    // SHA-256 of "192.168.1.1" starts with c5 eb 5a 4c c7 6a.
    let mac = software_defined_mac(Ipv4Addr::new(192, 168, 1, 1));
    assert_eq!(mac, [0xc6, 0xeb, 0x5a, 0x4c, 0xc7, 0x6a]);
    // The same address has the same MAC, another has another.
    assert_eq!(software_defined_mac(Ipv4Addr::new(192, 168, 1, 1)), mac);
    assert_ne!(software_defined_mac(Ipv4Addr::new(192, 168, 1, 2)), mac);
    for last in 0..=255u8 {
        let m = software_defined_mac(Ipv4Addr::new(10, 0, 0, last));
        assert_eq!(m[0] & 0x03, 0x02, "locally administered and not a group address");
    }
}

#[test]
fn a_digest_makes_a_local_unicast_mac() {
    let mut digest = [0u8; 32];
    for i in 0..32u8 {
        digest[i as usize] = 0xf1 + i % 8;
    }
    assert_eq!(mac_from_digest(&digest), [0xf2, 0xf2, 0xf3, 0xf4, 0xf5, 0xf6]);
    digest[0] = 0;
    assert_eq!(mac_from_digest(&digest)[0], 0x02);
}

#[test]
fn macs_have_a_text_form() {
    let mac = [0x02, 0x00, 0x5e, 0x10, 0xab, 0x01];
    assert_eq!(format_mac(&mac), "02:00:5e:10:ab:01");
    assert_eq!(display_mac(&mac), "02:00:5e:10:ab:01");
    assert!(same_mac(&mac, &mac));
    assert!(!same_mac(&mac, &[0x02, 0x00, 0x5e, 0x10, 0xab, 0x02]));
}

#[test]
fn byte_order_round_trips() {
    let mut v = U16Be::new(0x1234);
    assert_eq!((v.hi, v.lo), (0x12, 0x34));
    assert_eq!(v.get(), 0x1234);
    v.set(0xff00);
    assert_eq!(u16::from(v), 0xff00);
    assert_eq!(U16Be::from(7).get(), 7);
    assert_eq!(U16Be::default().get(), 0);
    let mut w = U32Be::new(0x0102_0304);
    assert_eq!((w.b0, w.b1, w.b2, w.b3), (1, 2, 3, 4));
    w.set(0xdead_beef);
    assert_eq!(u32::from(w), 0xdead_beef);
}

#[test]
fn headers_are_read_and_written_in_place() {
    let mut buf = [0u8; 21];
    assert!(ref_from::<Ipv4Header>(&buf[..19]).is_none());
    assert!(mut_from::<Ipv4Header>(&mut buf[..19]).is_none());
    let hdr = mut_from::<Ipv4Header>(&mut buf).unwrap();
    let mut ip = Ipv4Header::default();
    ip.set_version_ihl(4, 5);
    ip.set_total_len(0x0102);
    ip.set_src(our_ip());
    ip.set_dst(peer_ip());
    hdr.put(&ip);
    assert_eq!(&buf[..4], &[0x45, 0, 1, 2]);
    assert_eq!(&buf[12..], &[10, 0, 0, 1, 10, 0, 0, 2, 0]);
    let back = ref_from::<Ipv4Header>(&buf).unwrap();
    assert_eq!((back.version(), back.ihl(), back.header_len()), (4, 5, 20));
    assert_eq!((back.src(), back.dst()), (our_ip(), peer_ip()));
}

#[test]
fn tcp_flags_are_independent() {
    let mut t = TcpHeader::default();
    t.set_flag(flag::SYN, true);
    t.set_flag(flag::ACK, true);
    t.set_flag(flag::SYN, false);
    assert!(t.has_flag(flag::ACK) && !t.has_flag(flag::SYN));
    t.set_data_offset(6);
    assert_eq!((t.data_offset(), t.header_len()), (6, 24));
    t.set_seq(0x0102_0304);
    t.set_ack(5);
    t.set_window(6);
    assert_eq!((t.seq(), t.ack(), t.window(), t.urgent_ptr()), (0x0102_0304, 5, 6, 0));
}

#[test]
fn dns_flags_are_read() {
    let mut d = DnsHeader::default();
    d.set_flags(FLAG_QR_RESPONSE | FLAG_RECURSION_DESIRED | (4 << 11) | 3);
    assert!(d.is_response() && d.recursion_desired());
    assert!(!d.authoritative() && !d.truncated() && !d.recursion_available());
    assert_eq!((d.opcode(), d.rcode()), (4, 3));
    d.set_question_count(2);
    d.set_answer_count(1);
    assert_eq!((d.question_count(), d.answer_count()), (2, 1));
    assert_eq!((d.authority_count(), d.additional_count()), (0, 0));
}

#[test]
fn dhcp_headers_are_filled_field_by_field() {
    let mut h = DhcpHeader::default();
    assert!(!h.has_magic_cookie());
    h.init_ethernet(1);
    assert!(h.has_magic_cookie());
    assert_eq!((h.op, h.htype, h.hlen), (1, 1, 6));
    h.set_xid(0x0102_0304);
    h.set_secs(5);
    h.set_broadcast(true);
    h.set_client_ip(Ipv4Addr::new(1, 0, 0, 1));
    h.set_your_ip(Ipv4Addr::new(2, 0, 0, 2));
    h.set_server_ip(Ipv4Addr::new(3, 0, 0, 3));
    h.set_gateway_ip(Ipv4Addr::new(4, 0, 0, 4));
    h.set_client_hardware_addr(&OUR_MAC);
    assert_eq!((h.xid(), h.secs(), h.broadcast()), (0x0102_0304, 5, true));
    assert_eq!(h.client_ip(), Ipv4Addr::new(1, 0, 0, 1));
    assert_eq!(h.your_ip(), Ipv4Addr::new(2, 0, 0, 2));
    assert_eq!(h.server_ip(), Ipv4Addr::new(3, 0, 0, 3));
    assert_eq!(h.gateway_ip(), Ipv4Addr::new(4, 0, 0, 4));
    let mut buf = [0u8; 240];
    mut_from::<DhcpHeader>(&mut buf).unwrap().put(&h);
    assert_eq!(&buf[..12], &[1, 1, 6, 0, 1, 2, 3, 4, 0, 5, 0x80, 0]);
    assert_eq!(&buf[12..28], &[1, 0, 0, 1, 2, 0, 0, 2, 3, 0, 0, 3, 4, 0, 0, 4]);
    assert_eq!(&buf[28..36], &[2, 0, 0, 0, 0, 1, 0, 0]);
    assert_eq!(&buf[236..], &[0x63, 0x82, 0x53, 0x63]);
    h.set_broadcast(false);
    assert!(!h.broadcast());
    // A longer hardware address is cut to the field.
    h.set_client_hardware_addr(&[9u8; 20]);
    assert_eq!((h.hlen, h.chaddr), (16, [9u8; 16]));
}

#[test]
fn ethernet_and_ip_bits_are_read() {
    let mut e = EthernetHeader::default();
    e.dst = BROADCAST;
    assert!(e.is_broadcast() && e.is_multicast());
    e.dst = [0x01, 0, 0x5e, 0, 0, 1];
    assert!(!e.is_broadcast() && e.is_multicast());
    e.dst = OUR_MAC;
    assert!(!e.is_broadcast() && !e.is_multicast());

    let mut t = VlanTag::default();
    t.set_vid(0xfabc);
    assert_eq!((t.pcp(), t.dei(), t.vid()), (0, false, 0xabc));

    let mut buf = [0u8; 20];
    buf[0] = 0x45;
    buf[6] = 0x60;
    buf[7] = 0x07;
    buf[12..20].copy_from_slice(&[1, 2, 3, 4, 5, 6, 7, 8]);
    let ip = ref_from::<Ipv4Header>(&buf).unwrap();
    assert!(ip.dont_fragment() && ip.more_fragments());
    assert_eq!(ip.fragment_offset(), 7);
    assert_eq!((ip.src_words().get(), ip.dst_words().get()), (0x0102_0304, 0x0506_0708));
}
