//! Build an Ethernet/IPv4/UDP frame around a payload, with software checksums.
//! Used to construct DHCP datagrams (and any other locally originated UDP).

use crate::net::addr::Ipv4Addr;
use crate::net::anatomy;
use crate::net::checksum;
use crate::net::ethernet::{ethertype, EthernetHeader, MacAddr};
use crate::net::ip::{proto, Ipv4Header};
use crate::net::udp::UdpHeader;
use crate::net::view;
use crate::net::wire;
use crate::net::wire::{store_at, Pod, U16Be, U32Be};
use vstd::prelude::*;

verus! {

const ETH: usize = 14;

const IP: usize = 20;

const UDP: usize = 8;

/// Offset of the checksum field within the IPv4 header.
const IP_CKSUM_OFFSET: usize = 10;

/// Offset of the checksum field within the UDP header.
const UDP_CKSUM_OFFSET: usize = 6;

/// IPv4 version (4) and IHL in 32-bit words (5 = no options).
const IPV4_VERSION: u8 = 4;

const IPV4_IHL_NO_OPTIONS: u8 = 5;

/// Default TTL for locally originated datagrams.
pub const DEFAULT_TTL: u8 = 64;

/// Bytes of header in front of the payload.
pub const HEADERS_LEN: usize = 42;

/// Addressing for a UDP/IPv4 datagram.
pub struct UdpV4 {
    pub src_mac: MacAddr,
    pub dst_mac: MacAddr,
    pub src_ip: Ipv4Addr,
    pub dst_ip: Ipv4Addr,
    pub src_port: u16,
    pub dst_port: u16,
    pub ttl: u8,
}

impl UdpV4 {
    /// The Ethernet header of the datagram.
    pub open spec fn ethernet_header(self) -> EthernetHeader {
        EthernetHeader {
            dst: self.dst_mac,
            src: self.src_mac,
            ethertype: U16Be::spec_new(ethertype::IPV4),
        }
    }

    /// The IPv4 header in front of `n` bytes of UDP payload.
    pub open spec fn ipv4_header(self, n: nat, cksum: u16) -> Ipv4Header {
        Ipv4Header {
            version_ihl: 0x45,
            dscp_ecn: 0,
            total_len: U16Be::spec_new(((28 + n) % 0x1_0000) as u16),
            identification: U16Be { hi: 0, lo: 0 },
            flags_fragment: U16Be { hi: 0, lo: 0 },
            ttl: self.ttl,
            protocol: proto::UDP,
            checksum: U16Be::spec_new(cksum),
            src: U32Be::spec_new(self.src_ip.bits),
            dst: U32Be::spec_new(self.dst_ip.bits),
        }
    }

    /// The UDP header in front of `n` bytes of payload.
    pub open spec fn udp_header(self, n: nat, cksum: u16) -> UdpHeader {
        UdpHeader {
            src_port: U16Be::spec_new(self.src_port),
            dst_port: U16Be::spec_new(self.dst_port),
            length: U16Be::spec_new(((8 + n) % 0x1_0000) as u16),
            checksum: U16Be::spec_new(cksum),
        }
    }

    /// The checksum of the IPv4 header.
    pub open spec fn ip_checksum(self, n: nat) -> u16 {
        checksum::spec_checksum(self.ipv4_header(n, 0).bytes())
    }

    /// The checksum of the UDP datagram.
    pub open spec fn udp_checksum(self, payload: Seq<u8>) -> u16 {
        checksum::spec_udp_ipv4(
            self.src_ip.spec_octets(),
            self.dst_ip.spec_octets(),
            self.udp_header(payload.len(), 0).bytes() + payload,
        )
    }

    /// The whole frame around `payload`.
    pub open spec fn frame(self, payload: Seq<u8>) -> Seq<u8> {
        self.ethernet_header().bytes() + self.ipv4_header(
            payload.len(),
            self.ip_checksum(payload.len()),
        ).bytes() + self.udp_header(payload.len(), self.udp_checksum(payload)).bytes() + payload
    }
}

/// A frame is its headers and the payload.
pub proof fn lemma_frame_len(p: UdpV4, payload: Seq<u8>)
    ensures
        p.frame(payload).len() == HEADERS_LEN + payload.len(),
{
}

/// Total frame length for a UDP/IPv4 datagram carrying `payload_len` bytes.
pub fn frame_len(payload_len: usize) -> (r: usize)
    requires
        payload_len + HEADERS_LEN <= usize::MAX,
    ensures
        r == payload_len + HEADERS_LEN,
{
    ETH + IP + UDP + payload_len
}

/// Build the full frame into `buf`; returns the total length, or `None`, with
/// `buf` unchanged, if `buf` is too small.
pub fn build_udp_ipv4(buf: &mut [u8], p: &UdpV4, payload: &[u8]) -> (r: Option<usize>)
    ensures
        r == if old(buf)@.len() >= HEADERS_LEN + payload@.len() {
            Some((HEADERS_LEN + payload@.len()) as usize)
        } else {
            None
        },
        final(buf)@ == if old(buf)@.len() >= HEADERS_LEN + payload@.len() {
            wire::splice(old(buf)@, 0, p.frame(payload@))
        } else {
            old(buf)@
        },
{
    if buf.len() < HEADERS_LEN || buf.len() - HEADERS_LEN < payload.len() {
        return None;
    }
    let total: usize = frame_len(payload.len());
    let udp_len: usize = UDP + payload.len();
    let udp_off: usize = ETH + IP;
    let ghost before = buf@;
    let ghost n = payload@.len();
    let ghost e = p.ethernet_header().bytes();
    let ghost i = p.ipv4_header(n, 0).bytes();
    let ghost u = p.udp_header(n, 0).bytes();

    let mut head: [u8; 14] = [0u8; 14];
    ethernet_header(p).store(&mut head);
    store_at(buf, 0, &head);
    let mut head: [u8; 20] = [0u8; 20];
    ipv4_header(p, payload.len()).store(&mut head);
    store_at(buf, ETH, &head);
    let mut head: [u8; 8] = [0u8; 8];
    udp_header(p, payload.len()).store(&mut head);
    store_at(buf, udp_off, &head);
    store_at(buf, HEADERS_LEN, payload);
    assert(buf@ == laid_out(before, e, i, u, payload@));
    proof {
        p.ethernet_header().lemma_len();
        p.ipv4_header(n, 0).lemma_len();
        p.udp_header(n, 0).lemma_len();
        lemma_laid_out(before, e, i, u, payload@);
    }

    // Checksums (header checksum fields are currently zero).
    let ip_cksum: u16 = checksum::ipv4_header(&buf[ETH..ETH + IP]);
    store_at(buf, ETH + IP_CKSUM_OFFSET, &be_bytes(ip_cksum));
    proof {
        lemma_ip_filled(before, e, i, u, payload@, wire::bytes16(ip_cksum));
    }
    let udp_cksum: u16 = checksum::udp_ipv4(
        p.src_ip.octets(),
        p.dst_ip.octets(),
        &buf[udp_off..udp_off + udp_len],
    );
    store_at(buf, udp_off + UDP_CKSUM_OFFSET, &be_bytes(udp_cksum));
    proof {
        lemma_udp_filled(
            before,
            e,
            i,
            u,
            payload@,
            wire::bytes16(ip_cksum),
            wire::bytes16(udp_cksum),
        );
        lemma_ip_checksum_field(*p, n, ip_cksum);
        lemma_udp_checksum_field(*p, n, udp_cksum);
    }
    Some(total)
}

fn ethernet_header(p: &UdpV4) -> (r: EthernetHeader)
    ensures
        r == p.ethernet_header(),
{
    EthernetHeader { dst: p.dst_mac, src: p.src_mac, ethertype: U16Be::new(ethertype::IPV4) }
}

/// The IPv4 header, with the fields that don't matter here (identification,
/// flags / fragment offset, DSCP/ECN) and the checksum zero.
fn ipv4_header(p: &UdpV4, payload_len: usize) -> (r: Ipv4Header)
    requires
        payload_len + HEADERS_LEN <= usize::MAX,
    ensures
        r == p.ipv4_header(payload_len as nat, 0),
{
    let mut ip = Ipv4Header {
        version_ihl: 0,
        dscp_ecn: 0,
        total_len: U16Be::new(((IP + UDP + payload_len) % 0x1_0000) as u16),
        identification: U16Be { hi: 0, lo: 0 },
        flags_fragment: U16Be { hi: 0, lo: 0 },
        ttl: p.ttl,
        protocol: proto::UDP,
        checksum: U16Be::new(0),
        src: U32Be::new(p.src_ip.bits),
        dst: U32Be::new(p.dst_ip.bits),
    };
    ip.set_version_ihl(IPV4_VERSION, IPV4_IHL_NO_OPTIONS);
    ip
}

fn udp_header(p: &UdpV4, payload_len: usize) -> (r: UdpHeader)
    requires
        payload_len + HEADERS_LEN <= usize::MAX,
    ensures
        r == p.udp_header(payload_len as nat, 0),
{
    UdpHeader {
        src_port: U16Be::new(p.src_port),
        dst_port: U16Be::new(p.dst_port),
        length: U16Be::new(((UDP + payload_len) % 0x1_0000) as u16),
        checksum: U16Be::new(0),
    }
}

/// `buf` with three headers and a payload written one after the other.
spec fn laid_out(
    buf: Seq<u8>,
    e: Seq<u8>,
    i: Seq<u8>,
    u: Seq<u8>,
    payload: Seq<u8>,
) -> Seq<u8> {
    wire::splice(
        wire::splice(wire::splice(wire::splice(buf, 0, e), 14, i), 34, u),
        42,
        payload,
    )
}

proof fn lemma_laid_out(buf: Seq<u8>, e: Seq<u8>, i: Seq<u8>, u: Seq<u8>, payload: Seq<u8>)
    requires
        e.len() == 14,
        i.len() == 20,
        u.len() == 8,
        42 + payload.len() <= buf.len(),
    ensures
        laid_out(buf, e, i, u, payload) == wire::splice(buf, 0, e + i + u + payload),
        laid_out(buf, e, i, u, payload).subrange(14, 34) == i,
{
    assert(laid_out(buf, e, i, u, payload) =~= wire::splice(buf, 0, e + i + u + payload));
    assert(laid_out(buf, e, i, u, payload).subrange(14, 34) =~= i);
}

/// Filling in the checksum of the IPv4 header.
proof fn lemma_ip_filled(
    buf: Seq<u8>,
    e: Seq<u8>,
    i: Seq<u8>,
    u: Seq<u8>,
    payload: Seq<u8>,
    c: Seq<u8>,
)
    requires
        e.len() == 14,
        i.len() == 20,
        u.len() == 8,
        c.len() == 2,
        42 + payload.len() <= buf.len(),
    ensures
        ({
            let s = wire::splice(wire::splice(buf, 0, e + i + u + payload), 24, c);
            &&& s == wire::splice(buf, 0, e + wire::splice(i, 10, c) + u + payload)
            &&& s.subrange(34, 42 + payload.len() as int) == u + payload
        }),
{
    let s = wire::splice(wire::splice(buf, 0, e + i + u + payload), 24, c);
    assert(s =~= wire::splice(buf, 0, e + wire::splice(i, 10, c) + u + payload));
    assert(s.subrange(34, 42 + payload.len() as int) =~= u + payload);
}

/// Filling in the checksum of the UDP header.
proof fn lemma_udp_filled(
    buf: Seq<u8>,
    e: Seq<u8>,
    i: Seq<u8>,
    u: Seq<u8>,
    payload: Seq<u8>,
    c: Seq<u8>,
    d: Seq<u8>,
)
    requires
        e.len() == 14,
        i.len() == 20,
        u.len() == 8,
        c.len() == 2,
        d.len() == 2,
        42 + payload.len() <= buf.len(),
    ensures
        wire::splice(wire::splice(buf, 0, e + wire::splice(i, 10, c) + u + payload), 40, d)
            == wire::splice(
            buf,
            0,
            e + wire::splice(i, 10, c) + wire::splice(u, 6, d) + payload,
        ),
{
    assert(wire::splice(
        wire::splice(buf, 0, e + wire::splice(i, 10, c) + u + payload),
        40,
        d,
    ) =~= wire::splice(buf, 0, e + wire::splice(i, 10, c) + wire::splice(u, 6, d) + payload));
}

proof fn lemma_ip_checksum_field(p: UdpV4, n: nat, c: u16)
    ensures
        wire::splice(p.ipv4_header(n, 0).bytes(), 10, wire::bytes16(c)) == p.ipv4_header(
            n,
            c,
        ).bytes(),
{
    assert(wire::splice(p.ipv4_header(n, 0).bytes(), 10, wire::bytes16(c)) =~= p.ipv4_header(
        n,
        c,
    ).bytes());
}

proof fn lemma_udp_checksum_field(p: UdpV4, n: nat, c: u16)
    ensures
        wire::splice(p.udp_header(n, 0).bytes(), 6, wire::bytes16(c)) == p.udp_header(
            n,
            c,
        ).bytes(),
{
    assert(wire::splice(p.udp_header(n, 0).bytes(), 6, wire::bytes16(c)) =~= p.udp_header(
        n,
        c,
    ).bytes());
}

/// A frame parses back into the datagram it was built from, and its IPv4 and
/// UDP checksums verify. (The IPv4 and UDP lengths are 16-bit numbers: a longer
/// payload does not fit in a datagram.)
pub proof fn law_built_frame_reads_back(p: UdpV4, payload: Seq<u8>)
    requires
        payload.len() + 28 <= 0xffff,
    ensures
        ({
            let f = p.frame(payload);
            let n = f.len() as int;
            &&& n == HEADERS_LEN + payload.len()
            &&& f.subrange(0, 6) == p.dst_mac@
            &&& f.subrange(6, 12) == p.src_mac@
            &&& view::frame_ipv4(f) == Some(view::Ipv4Layout { start: 14, l4_start: 34, end: n })
            &&& f[22] == p.ttl
            &&& wire::be32(f, 26) == p.src_ip.bits
            &&& wire::be32(f, 30) == p.dst_ip.bits
            &&& view::frame_udp(f) == Some(view::L4Layout { start: 34, payload_start: 42, end: n })
            &&& wire::be16(f, 34) == p.src_port
            &&& wire::be16(f, 36) == p.dst_port
            &&& f.subrange(42, n) == payload
            &&& checksum::spec_checksum(f.subrange(14, 34)) == 0
            &&& checksum::verifies(
                checksum::udp_sum(
                    p.src_ip.spec_octets(),
                    p.dst_ip.spec_octets(),
                    f.subrange(34, n),
                ) % 0x1_0000_0000,
            )
        }),
{
    let f = p.frame(payload);
    let n = payload.len();
    let c = p.ip_checksum(n);
    let d = p.udp_checksum(payload);
    let e = p.ethernet_header().bytes();
    let i = p.ipv4_header(n, c).bytes();
    let u = p.udp_header(n, d).bytes();
    lemma_frame_parts(e, i, u, payload);
    assert(f.subrange(0, 6) =~= p.dst_mac@);
    assert(f.subrange(6, 12) =~= p.src_mac@);
    lemma_frame_fields(p, payload);

    lemma_ip_checksum_field(p, n, c);
    checksum::law_checksum_verifies_to_zero(p.ipv4_header(n, 0).bytes(), 10);

    let bare = p.udp_header(n, 0).bytes() + payload;
    lemma_udp_checksum_field(p, n, d);
    assert(wire::splice(bare, 6, wire::bytes16(d)) =~= u + payload);
    checksum::law_udp_checksum_verifies(
        p.src_ip.spec_octets(),
        p.dst_ip.spec_octets(),
        bare,
    );
}

/// The bytes of a frame, one field after the other.
pub proof fn law_built_frame_bytes(p: UdpV4, payload: Seq<u8>)
    requires
        payload.len() + 28 <= 0xffff,
    ensures
        anatomy::datagram_bytes(
            p.frame(payload),
            p.dst_mac,
            p.src_mac,
            p.src_ip,
            p.dst_ip,
            p.src_port as int,
            p.dst_port as int,
            p.ttl as int,
            payload,
        ),
{
    lemma_built_fields(p, payload);
    lemma_built_ip_checksum(p, payload);
    lemma_built_udp_checksum(p, payload);
}

proof fn lemma_built_fields(p: UdpV4, payload: Seq<u8>)
    requires
        payload.len() + 28 <= 0xffff,
    ensures
        ({
            let f = p.frame(payload);
            let n = payload.len();
            &&& f.len() == 42 + n
            &&& anatomy::mac_is(f, 0, p.dst_mac)
            &&& anatomy::mac_is(f, 6, p.src_mac)
            &&& anatomy::num16(f, 12) == 0x0800
            &&& f[14] == 0x45
            &&& f[15] == 0
            &&& anatomy::num16(f, 16) == 28 + n
            &&& anatomy::num32(f, 18) == 0
            &&& f[22] == p.ttl
            &&& f[23] == 17
            &&& anatomy::num16(f, 24) == p.ip_checksum(n)
            &&& anatomy::ip_is(f, 26, p.src_ip)
            &&& anatomy::ip_is(f, 30, p.dst_ip)
            &&& anatomy::num16(f, 34) == p.src_port
            &&& anatomy::num16(f, 36) == p.dst_port
            &&& anatomy::num16(f, 38) == 8 + n
            &&& anatomy::num16(f, 40) == p.udp_checksum(payload)
            &&& f.subrange(42, f.len() as int) == payload
        }),
{
    let f = p.frame(payload);
    let n = payload.len();
    let ip = p.ipv4_header(n, p.ip_checksum(n));
    let udp = p.udp_header(n, p.udp_checksum(payload));
    lemma_frame_fields(p, payload);
    lemma_frame_parts(p.ethernet_header().bytes(), ip.bytes(), udp.bytes(), payload);
    anatomy::law_network_order(f, 26, 0, 0);
    anatomy::law_network_order(f, 30, 0, 0);
    anatomy::law_network_order(f, 34, 0, 0);
    anatomy::law_network_order(f, 36, 0, 0);
    assert(f[0] == p.dst_mac[0] && f[1] == p.dst_mac[1] && f[2] == p.dst_mac[2] && f[3]
        == p.dst_mac[3] && f[4] == p.dst_mac[4] && f[5] == p.dst_mac[5]);
    assert(f[6] == p.src_mac[0] && f[7] == p.src_mac[1] && f[8] == p.src_mac[2] && f[9]
        == p.src_mac[3] && f[10] == p.src_mac[4] && f[11] == p.src_mac[5]);
    assert(f[12] == 0x08 && f[13] == 0x00 && f[14] == 0x45 && f[15] == 0 && f[18] == 0 && f[19] == 0
        && f[20] == 0 && f[21] == 0 && f[22] == p.ttl && f[23] == 17);
    assert(f[16] == ip.total_len.hi && f[17] == ip.total_len.lo);
    assert(f[24] == ip.checksum.hi && f[25] == ip.checksum.lo);
    assert(f[38] == udp.length.hi && f[39] == udp.length.lo);
    assert(f[40] == udp.checksum.hi && f[41] == udp.checksum.lo);
}

proof fn lemma_built_ip_checksum(p: UdpV4, payload: Seq<u8>)
    requires
        payload.len() + 28 <= 0xffff,
    ensures
        p.ip_checksum(payload.len()) != 0xffff,
        anatomy::header_sum(p.frame(payload), 14) % 0xffff == 0,
{
    let f = p.frame(payload);
    let h0 = p.ipv4_header(payload.len(), 0).bytes();
    law_built_frame_reads_back(p, payload);
    assert(h0.len() == 20 && h0[0] == 0x45);
    lemma_header_checksums(h0, f);
}

proof fn lemma_header_checksums(h0: Seq<u8>, f: Seq<u8>)
    requires
        h0.len() == 20,
        h0[0] == 0x45,
        f.len() >= 34,
        checksum::spec_checksum(f.subrange(14, 34)) == 0,
    ensures
        checksum::spec_checksum(h0) != 0xffff,
        anatomy::header_sum(f, 14) % 0xffff == 0,
{
    let h = f.subrange(14, 34);
    lemma_header_words(h);
    assert(header_words(h) == anatomy::header_sum(f, 14));
    checksum::lemma_word_sum_bound(h);
    checksum::lemma_verifies(checksum::word_sum(h) as int);
    let none = seq![0u8, 0u8, 0u8, 0u8];
    checksum::law_checksum_completes_the_sum(h0, none, none, none);
    checksum::law_words_add_up(h0[0], h0[1], h0.subrange(2, 20));
    assert(h0 =~= seq![h0[0], h0[1]] + h0.subrange(2, 20));
}

proof fn lemma_built_udp_checksum(p: UdpV4, payload: Seq<u8>)
    requires
        payload.len() + 28 <= 0xffff,
    ensures
        p.udp_checksum(payload) != 0,
        ({
            let f = p.frame(payload);
            (anatomy::num16(f, 26) + anatomy::num16(f, 28) + anatomy::num16(f, 30)
                + anatomy::num16(f, 32) + 17 + 8 + payload.len() + checksum::word_sum(
                f.subrange(34, f.len() as int),
            )) % 0xffff == 0
        }),
{
    law_built_frame_reads_back(p, payload);
    lemma_udp_checksums(p.src_ip, p.dst_ip, p.frame(payload));
}

proof fn lemma_udp_checksums(src: Ipv4Addr, dst: Ipv4Addr, f: Seq<u8>)
    requires
        42 <= f.len() <= 0x1_000d,
        wire::be32(f, 26) == src.bits,
        wire::be32(f, 30) == dst.bits,
        checksum::verifies(
            checksum::udp_sum(
                src.spec_octets(),
                dst.spec_octets(),
                f.subrange(34, f.len() as int),
            ) % 0x1_0000_0000,
        ),
    ensures
        (anatomy::num16(f, 26) + anatomy::num16(f, 28) + anatomy::num16(f, 30) + anatomy::num16(
            f,
            32,
        ) + 17 + (f.len() - 34) + checksum::word_sum(f.subrange(34, f.len() as int))) % 0xffff == 0,
{
    let (from, to) = (src.spec_octets(), dst.spec_octets());
    let tail = f.subrange(34, f.len() as int);
    let a = checksum::word_sum(from) as int;
    let b = checksum::word_sum(to) as int;
    let t = checksum::word_sum(tail) as int;
    assert(a == anatomy::num16(f, 26) + anatomy::num16(f, 28)) by {
        lemma_octet_words(src, f, 26);
    }
    assert(b == anatomy::num16(f, 30) + anatomy::num16(f, 32)) by {
        lemma_octet_words(dst, f, 30);
    }
    assert(t <= 0xffff * 0x8000) by {
        checksum::lemma_word_sum_bound(tail);
    }
    assert(0 <= a <= 0x2_0000 && 0 <= b <= 0x2_0000);
    let len = (f.len() - 34) as nat;
    assert(tail.len() == len);
    let s = a + b + 17 + len + t;
    assert(checksum::udp_sum(from, to, tail) == s);
    lemma_verified_sum(s);
}

proof fn lemma_verified_sum(s: int)
    requires
        0 <= s < 0x1_0000_0000,
        checksum::verifies(s % 0x1_0000_0000),
    ensures
        s % 0xffff == 0,
{
    checksum::lemma_verifies(s);
}

spec fn header_words(h: Seq<u8>) -> int {
    anatomy::header_sum(h, 0)
}

/// The words of an IPv4 header without options add up to its sum.
proof fn lemma_header_words(h: Seq<u8>)
    requires
        h.len() == 20,
    ensures
        checksum::word_sum(h) == header_words(h),
{
    reveal_with_fuel(checksum::word_sum, 11);
    assert(h.subrange(2, 20).subrange(2, 18) =~= h.subrange(4, 20));
    assert(h.subrange(4, 20).subrange(2, 16) =~= h.subrange(6, 20));
    assert(h.subrange(6, 20).subrange(2, 14) =~= h.subrange(8, 20));
    assert(h.subrange(8, 20).subrange(2, 12) =~= h.subrange(10, 20));
    assert(h.subrange(10, 20).subrange(2, 10) =~= h.subrange(12, 20));
    assert(h.subrange(12, 20).subrange(2, 8) =~= h.subrange(14, 20));
    assert(h.subrange(14, 20).subrange(2, 6) =~= h.subrange(16, 20));
    assert(h.subrange(16, 20).subrange(2, 4) =~= h.subrange(18, 20));
    assert(h.subrange(18, 20).subrange(2, 2) =~= Seq::<u8>::empty());
}

/// The words of an address that stands at `i`.
proof fn lemma_octet_words(ip: Ipv4Addr, f: Seq<u8>, i: int)
    requires
        0 <= i,
        i + 4 <= f.len(),
        wire::be32(f, i) == ip.bits,
    ensures
        checksum::word_sum(ip.spec_octets()) == anatomy::num16(f, i) + anatomy::num16(f, i + 2),
        ip.spec_octets().len() == 4,
{
    let o = ip.spec_octets();
    wire::lemma_be32_digits(f[i], f[i + 1], f[i + 2], f[i + 3]);
    assert(o.subrange(2, 4).len() == 2);
    checksum::lemma_word_sum_two(o.subrange(2, 4));
}

/// Where the parts of a frame lie.
proof fn lemma_frame_parts(e: Seq<u8>, i: Seq<u8>, u: Seq<u8>, payload: Seq<u8>)
    requires
        e.len() == 14,
        i.len() == 20,
        u.len() == 8,
    ensures
        ({
            let f = e + i + u + payload;
            let n = f.len() as int;
            &&& n == 42 + payload.len()
            &&& f.subrange(14, 34) == i
            &&& f.subrange(34, n) == u + payload
            &&& f.subrange(42, n) == payload
        }),
{
    let f = e + i + u + payload;
    let n = f.len() as int;
    assert(f.subrange(14, 34) =~= i);
    assert(f.subrange(34, n) =~= u + payload);
    assert(f.subrange(42, n) =~= payload);
}

/// The fields of a frame that a parser looks at.
proof fn lemma_frame_fields(p: UdpV4, payload: Seq<u8>)
    requires
        payload.len() + 28 <= 0xffff,
    ensures
        ({
            let f = p.frame(payload);
            let n = f.len() as int;
            &&& f[22] == p.ttl
            &&& wire::be32(f, 26) == p.src_ip.bits
            &&& wire::be32(f, 30) == p.dst_ip.bits
            &&& wire::be16(f, 34) == p.src_port
            &&& wire::be16(f, 36) == p.dst_port
            &&& view::frame_ipv4(f) == Some(view::Ipv4Layout { start: 14, l4_start: 34, end: n })
            &&& view::frame_udp(f) == Some(view::L4Layout { start: 34, payload_start: 42, end: n })
        }),
{
    let f = p.frame(payload);
    let n = payload.len();
    let ip = p.ipv4_header(n, p.ip_checksum(n));
    let udp = p.udp_header(n, p.udp_checksum(payload));
    wire::lemma_be32_value(p.src_ip.bits);
    wire::lemma_be32_value(p.dst_ip.bits);
    assert(f[12] == 0x08 && f[13] == 0x00);
    assert(f[14] == 0x45);
    assert(f[16] == ip.total_len.hi && f[17] == ip.total_len.lo);
    assert(f[22] == p.ttl);
    assert(f[23] == proto::UDP);
    assert(f[26] == ip.src.b0 && f[27] == ip.src.b1 && f[28] == ip.src.b2 && f[29] == ip.src.b3);
    assert(f[30] == ip.dst.b0 && f[31] == ip.dst.b1 && f[32] == ip.dst.b2 && f[33] == ip.dst.b3);
    assert(f[34] == udp.src_port.hi && f[35] == udp.src_port.lo);
    assert(f[36] == udp.dst_port.hi && f[37] == udp.dst_port.lo);
    assert(f[38] == udp.length.hi && f[39] == udp.length.lo);
    assert(wire::be16(f, 12) == ethertype::IPV4);
    assert(wire::be16(f, 16) == 28 + n);
    assert(wire::be16(f, 38) == 8 + n);
}

/// The two bytes of `v` in network order.
fn be_bytes(v: u16) -> (r: [u8; 2])
    ensures
        r@ == wire::bytes16(v),
{
    let r = [(v / 0x100) as u8, (v % 0x100) as u8];
    assert(r@ =~= wire::bytes16(v));
    r
}

} // verus!
