//! Frames byte by byte: where the numbers of each header stand, and what makes
//! a run of bytes an IPv4 packet, a TCP segment, a UDP datagram or an ARP
//! message. The promises about what is sent and received are stated in these
//! terms.

use crate::net::addr::Ipv4Addr;
use crate::net::arp;
use crate::net::arp::ArpPacket;
use crate::net::checksum;
use crate::net::dns;
use crate::net::dns::DnsHeader;
use crate::net::ethernet;
use crate::net::ethernet::{EthernetHeader, MacAddr, VlanTag};
use crate::net::ip::Ipv4Header;
use crate::net::tcp::TcpHeader;
use crate::net::udp::UdpHeader;
use crate::net::view;
use crate::net::wire;
use crate::net::wire::Pod;
use crate::text;
use vstd::prelude::*;

verus! {

/// The two bytes at `i` as a number.
pub open spec fn num16(f: Seq<u8>, i: int) -> int {
    256 * f[i] + f[i + 1]
}

/// The four bytes at `i` as a number.
pub open spec fn num32(f: Seq<u8>, i: int) -> int {
    16777216 * f[i] + 65536 * f[i + 1] + 256 * f[i + 2] + f[i + 3]
}

/// The six bytes at `i` are those of `mac`.
pub open spec fn mac_is(f: Seq<u8>, i: int, mac: MacAddr) -> bool {
    &&& f[i] == mac[0]
    &&& f[i + 1] == mac[1]
    &&& f[i + 2] == mac[2]
    &&& f[i + 3] == mac[3]
    &&& f[i + 4] == mac[4]
    &&& f[i + 5] == mac[5]
}

/// An Ethernet frame whose payload, of the type `kind`, starts at `l3`: right
/// behind the header, or behind one VLAN tag.
pub open spec fn carries(f: Seq<u8>, kind: int, l3: int) -> bool {
    ||| l3 == 14 && f.len() >= 14 && num16(f, 12) == kind && kind != 0x8100
    ||| l3 == 18 && f.len() >= 18 && num16(f, 12) == 0x8100 && num16(f, 16) == kind
}

/// An IPv4 packet from `l3` to `end`, whose payload starts at `l4`. The packet
/// ends where its length field says, if that can be; else with the frame.
pub open spec fn ipv4_at(f: Seq<u8>, l3: int, l4: int, end: int) -> bool {
    let words = f[l3] % 16;
    let total = num16(f, l3 + 2);
    &&& carries(f, 0x0800, l3)
    &&& l3 + 20 <= f.len()
    &&& words >= 5
    &&& l4 == l3 + 4 * words
    &&& l4 <= f.len()
    &&& end == if 4 * words <= total && l3 + total <= f.len() {
        l3 + total
    } else {
        f.len() as int
    }
}

/// A TCP segment from `l4` to `end` in an IPv4 packet at `l3`.
pub open spec fn tcp_at(f: Seq<u8>, l3: int, l4: int, end: int) -> bool {
    let words = f[l4 + 12] / 16;
    &&& ipv4_at(f, l3, l4, end)
    &&& f[l3 + 9] == 6
    &&& l4 + 20 <= f.len()
    &&& words >= 5
    &&& l4 + 4 * words <= end
}

/// A UDP datagram from `l4` on in an IPv4 packet at `l3` that ends at `end`.
pub open spec fn udp_at(f: Seq<u8>, l3: int, l4: int, end: int) -> bool {
    &&& ipv4_at(f, l3, l4, end)
    &&& f[l3 + 9] == 17
    &&& l4 + 8 <= end
}

/// Where the datagram at `l4` ends: where its own length field says, if that
/// can be; else with the packet.
pub open spec fn udp_end(f: Seq<u8>, l4: int, end: int) -> int {
    if num16(f, l4 + 4) >= 8 && l4 + num16(f, l4 + 4) <= end {
        l4 + num16(f, l4 + 4)
    } else {
        end
    }
}

/// An ARP message at `l3`.
pub open spec fn arp_at(f: Seq<u8>, l3: int) -> bool {
    carries(f, 0x0806, l3) && l3 + 28 <= f.len()
}

/// The bytes of the TCP segment's flags: which of FIN, SYN, RST and ACK are set.
pub open spec fn fin(flags: u8) -> bool {
    flags % 2 == 1
}

pub open spec fn syn(flags: u8) -> bool {
    flags / 2 % 2 == 1
}

pub open spec fn rst(flags: u8) -> bool {
    flags / 4 % 2 == 1
}

pub open spec fn ack(flags: u8) -> bool {
    flags / 16 % 2 == 1
}

/// The numbers on the wire are in network order.
pub proof fn law_network_order(f: Seq<u8>, i: int, x: u16, y: u32)
    ensures
        wire::be16(f, i) == num16(f, i),
        wire::be32(f, i) == num32(f, i),
        wire::bytes16(x).len() == 2,
        num16(wire::bytes16(x), 0) == x,
        wire::bytes32(y).len() == 4,
        num32(wire::bytes32(y), 0) == y,
        mac_is(f, i, ethernet::mac_at(f, i)),
{
    wire::lemma_be32_value(y);
}

/// A MAC address is told by its bytes.
pub proof fn lemma_mac_at(f: Seq<u8>, i: int, mac: MacAddr)
    ensures
        mac_is(f, i, mac) <==> ethernet::mac_at(f, i) == mac,
{
    if mac_is(f, i, mac) {
        assert(ethernet::mac_at(f, i) =~= mac);
    }
}

/// A frame is found to carry what its type field says, behind a VLAN tag or
/// not.
pub proof fn law_ethernet_is_found(f: Seq<u8>, kind: u16, l3: int)
    ensures
        carries(f, kind as int, l3) <==> view::ethernet_layout(f, 0) == Some(
            view::EthernetLayout { start: 0, ethertype: kind, l3_start: l3 },
        ),
        view::ethernet_layout(f, 0) is None <==> f.len() < 14 || f.len() < 18 && num16(f, 12)
            == 0x8100,
{
}

/// The IPv4 packet of a frame, and the TCP segment or UDP datagram in it, are
/// found where they stand, and where none stands none is found.
pub proof fn law_packets_are_found(f: Seq<u8>, l3: int, l4: int, end: int)
    ensures
        ipv4_at(f, l3, l4, end) <==> view::frame_ipv4(f) == Some(
            view::Ipv4Layout { start: l3, l4_start: l4, end },
        ),
        tcp_at(f, l3, l4, end) <==> view::frame_ipv4(f) == Some(
            view::Ipv4Layout { start: l3, l4_start: l4, end },
        ) && view::frame_tcp(f) == Some(
            view::L4Layout { start: l4, payload_start: l4 + 4 * (f[l4 + 12] / 16), end },
        ),
        udp_at(f, l3, l4, end) <==> view::frame_ipv4(f) == Some(
            view::Ipv4Layout { start: l3, l4_start: l4, end },
        ) && view::frame_udp(f) == Some(
            view::L4Layout { start: l4, payload_start: l4 + 8, end: udp_end(f, l4, end) },
        ),
        tcp_at(f, l3, l4, end) ==> view::frame_udp(f) is None,
        udp_at(f, l3, l4, end) ==> view::frame_tcp(f) is None,
{
    law_ethernet_is_found(f, 0x0800, l3);
    law_network_order(f, l3 + 2, 0, 0);
    law_network_order(f, l4 + 4, 0, 0);
}

/// `new` is the checksum that `old` becomes when `words` words of what it
/// covers, which sum to `lost`, are replaced by as many that sum to `gained`:
/// the one's complement of the sum of the complements of the old and of the new
/// words, with the carries added back in.
pub open spec fn checksum_follows(old: int, new: int, words: int, lost: int, gained: int) -> bool {
    let n = 0xffff - old + (0xffff * words - lost) + gained;
    &&& 0 <= new <= 0xffff
    &&& (new + n) % 0xffff == 0
    &&& n == 0 <==> new == 0xffff
}

/// The frame `t` is `s` with the address at `ip_at` and the port at `port_at`
/// replaced, and with the checksums at `l3 + 10` and `ck` brought up to date:
/// that of the IPv4 header for the address, that of the transport header for
/// both. Nothing else is changed. A UDP checksum of zero stands for none and
/// stays; one that comes out as zero is sent as all ones.
pub open spec fn readdressed(
    s: Seq<u8>,
    t: Seq<u8>,
    udp: bool,
    l3: int,
    ip_at: int,
    port_at: int,
    ck: int,
    ip: Ipv4Addr,
    port: u16,
) -> bool {
    let lost = num16(s, ip_at) + num16(s, ip_at + 2);
    let gained = num16(t, ip_at) + num16(t, ip_at + 2);
    &&& t.len() == s.len()
    &&& num32(t, ip_at) == ip.bits
    &&& num16(t, port_at) == port
    &&& checksum_follows(num16(s, l3 + 10), num16(t, l3 + 10), 2, lost, gained)
    &&& if udp && num16(s, ck) == 0 {
        num16(t, ck) == 0
    } else {
        exists|mid: int, last: int| #[trigger]
            checksum_follows(num16(s, ck), mid, 2, lost, gained) && #[trigger] checksum_follows(
                mid,
                last,
                1,
                num16(s, port_at),
                num16(t, port_at),
            ) && num16(t, ck) == if udp && last == 0 {
                0xffff
            } else {
                last
            }
    }
    &&& forall|i: int|
        0 <= i < s.len() && !(ip_at <= i < ip_at + 4) && !(port_at <= i < port_at + 2) && !(l3 + 10
            <= i < l3 + 12) && !(ck <= i < ck + 2) ==> #[trigger] t[i] == s[i]
}

/// The four bytes of an address.
pub open spec fn ip_is(f: Seq<u8>, i: int, ip: Ipv4Addr) -> bool {
    num32(f, i) == ip.bits
}

/// The 42 bytes of an ARP message over Ethernet: addressed to `dst`, it says
/// that `sender_ip` is at `sender`, and asks for, or tells, `target_ip`.
pub open spec fn arp_bytes(
    f: Seq<u8>,
    op: int,
    dst: MacAddr,
    sender: MacAddr,
    sender_ip: Ipv4Addr,
    target: MacAddr,
    target_ip: Ipv4Addr,
) -> bool {
    &&& f.len() == 42
    &&& mac_is(f, 0, dst)
    &&& mac_is(f, 6, sender)
    &&& num16(f, 12) == 0x0806
    &&& num16(f, 14) == 1
    &&& num16(f, 16) == 0x0800
    &&& f[18] == 6
    &&& f[19] == 4
    &&& num16(f, 20) == op
    &&& mac_is(f, 22, sender)
    &&& ip_is(f, 28, sender_ip)
    &&& mac_is(f, 32, target)
    &&& ip_is(f, 38, target_ip)
}

/// An ARP message is built with every field in its place.
pub proof fn law_arp_frame_bytes(
    op: u16,
    dst: MacAddr,
    sender: MacAddr,
    sender_ip: Ipv4Addr,
    target: MacAddr,
    target_ip: Ipv4Addr,
)
    ensures
        arp_bytes(
            arp::arp_frame(op, dst@, sender@, sender_ip, target@, target_ip),
            op as int,
            dst,
            sender,
            sender_ip,
            target,
            target_ip,
        ),
{
    wire::lemma_be32_value(sender_ip.bits);
    wire::lemma_be32_value(target_ip.bits);
}

/// The ten words of an IPv4 header without options, summed.
pub open spec fn header_sum(f: Seq<u8>, l3: int) -> int {
    num16(f, l3) + num16(f, l3 + 2) + num16(f, l3 + 4) + num16(f, l3 + 6) + num16(f, l3 + 8)
        + num16(f, l3 + 10) + num16(f, l3 + 12) + num16(f, l3 + 14) + num16(f, l3 + 16) + num16(
        f,
        l3 + 18,
    )
}

/// The bytes of a UDP datagram over IPv4 and Ethernet, without options, tags or
/// fragmentation, with checksums that verify.
pub open spec fn datagram_bytes(
    f: Seq<u8>,
    dst_mac: MacAddr,
    src_mac: MacAddr,
    src_ip: Ipv4Addr,
    dst_ip: Ipv4Addr,
    src_port: int,
    dst_port: int,
    ttl: int,
    payload: Seq<u8>,
) -> bool {
    &&& f.len() == 42 + payload.len()
    &&& mac_is(f, 0, dst_mac)
    &&& mac_is(f, 6, src_mac)
    &&& num16(f, 12) == 0x0800
    &&& f[14] == 0x45
    &&& f[15] == 0
    &&& num16(f, 16) == 28 + payload.len()
    &&& num32(f, 18) == 0
    &&& f[22] == ttl
    &&& f[23] == 17
    &&& num16(f, 24) != 0xffff
    &&& header_sum(f, 14) % 0xffff == 0
    &&& ip_is(f, 26, src_ip)
    &&& ip_is(f, 30, dst_ip)
    &&& num16(f, 34) == src_port
    &&& num16(f, 36) == dst_port
    &&& num16(f, 38) == 8 + payload.len()
    &&& num16(f, 40) != 0
    &&& (num16(f, 26) + num16(f, 28) + num16(f, 30) + num16(f, 32) + 17 + 8 + payload.len()
        + checksum::word_sum(f.subrange(34, f.len() as int))) % 0xffff == 0
    &&& f.subrange(42, f.len() as int) == payload
}

/// Where the fields of an Ethernet header and of a VLAN tag stand.
pub proof fn law_ethernet_fields(h: EthernetHeader, t: VlanTag)
    ensures
        h.bytes().len() == 14,
        mac_is(h.bytes(), 0, h.dst),
        mac_is(h.bytes(), 6, h.src),
        num16(h.bytes(), 12) == h.ethertype.value(),
        t.bytes().len() == 4,
        num16(t.bytes(), 0) == t.tci.value(),
        num16(t.bytes(), 2) == t.inner_ethertype.value(),
{
}

/// Where the fields of an ARP message stand.
pub proof fn law_arp_fields(h: ArpPacket)
    ensures
        h.bytes().len() == 28,
        num16(h.bytes(), 0) == h.htype.value(),
        num16(h.bytes(), 2) == h.ptype.value(),
        h.bytes()[4] == h.hlen,
        h.bytes()[5] == h.plen,
        num16(h.bytes(), 6) == h.oper.value(),
        mac_is(h.bytes(), 8, h.sha),
        num32(h.bytes(), 14) == h.spa.value(),
        mac_is(h.bytes(), 18, h.tha),
        num32(h.bytes(), 24) == h.tpa.value(),
{
}

/// Where the fields of an IPv4 header stand.
pub proof fn law_ipv4_fields(h: Ipv4Header)
    ensures
        h.bytes().len() == 20,
        h.bytes()[0] == h.version_ihl,
        h.bytes()[1] == h.dscp_ecn,
        num16(h.bytes(), 2) == h.total_len.value(),
        num16(h.bytes(), 4) == h.identification.value(),
        num16(h.bytes(), 6) == h.flags_fragment.value(),
        h.bytes()[8] == h.ttl,
        h.bytes()[9] == h.protocol,
        num16(h.bytes(), 10) == h.checksum.value(),
        num32(h.bytes(), 12) == h.src.value(),
        num32(h.bytes(), 16) == h.dst.value(),
{
}

/// Where the fields of a TCP header and of a UDP header stand.
pub proof fn law_transport_fields(h: TcpHeader, u: UdpHeader)
    ensures
        h.bytes().len() == 20,
        num16(h.bytes(), 0) == h.src_port.value(),
        num16(h.bytes(), 2) == h.dst_port.value(),
        num32(h.bytes(), 4) == h.seq.value(),
        num32(h.bytes(), 8) == h.ack.value(),
        h.bytes()[12] == h.data_offset_reserved,
        h.bytes()[13] == h.flags,
        num16(h.bytes(), 14) == h.window.value(),
        num16(h.bytes(), 16) == h.checksum.value(),
        num16(h.bytes(), 18) == h.urgent_ptr.value(),
        u.bytes().len() == 8,
        num16(u.bytes(), 0) == u.src_port.value(),
        num16(u.bytes(), 2) == u.dst_port.value(),
        num16(u.bytes(), 4) == u.length.value(),
        num16(u.bytes(), 6) == u.checksum.value(),
{
}

/// Where the fields of a DNS header stand, and which bit of its flags, counted
/// from the right, says what: a response is bit 15, an authoritative answer
/// bit 10, truncation bit 9, recursion desired bit 8 and available bit 7.
pub proof fn law_dns_fields(h: DnsHeader)
    ensures
        h.bytes().len() == 12,
        num16(h.bytes(), 0) == h.id.value(),
        num16(h.bytes(), 2) == h.flags.value(),
        num16(h.bytes(), 4) == h.qdcount.value(),
        num16(h.bytes(), 6) == h.ancount.value(),
        num16(h.bytes(), 8) == h.nscount.value(),
        num16(h.bytes(), 10) == h.arcount.value(),
        ({
            let v = h.flags.value();
            &&& v & dns::FLAG_QR_RESPONSE != 0 <==> v / 32768 == 1
            &&& v & dns::FLAG_AUTHORITATIVE != 0 <==> (v / 1024) % 2 == 1
            &&& v & dns::FLAG_TRUNCATED != 0 <==> (v / 512) % 2 == 1
            &&& v & dns::FLAG_RECURSION_DESIRED != 0 <==> (v / 256) % 2 == 1
            &&& v & dns::FLAG_RECURSION_AVAILABLE != 0 <==> (v / 128) % 2 == 1
        }),
{
    let v: u16 = h.flags.value();
    assert((v & 0x8000 != 0 <==> v / 32768 == 1) && (v & 0x0400 != 0 <==> (v / 1024) % 2 == 1) && (v
        & 0x0200 != 0 <==> (v / 512) % 2 == 1) && (v & 0x0100 != 0 <==> (v / 256) % 2 == 1) && (v
        & 0x0080 != 0 <==> (v / 128) % 2 == 1)) by (bit_vector);
}

/// An address is written as its four bytes in decimal, the highest first, with
/// dots between them.
pub proof fn law_dotted_notation(ip: Ipv4Addr)
    ensures
        ip.dotted() == text::decimal((ip.bits / 16777216) as nat) + seq!['.'] + text::decimal(
            (ip.bits / 65536 % 256) as nat,
        ) + seq!['.'] + text::decimal((ip.bits / 256 % 256) as nat) + seq!['.'] + text::decimal(
            (ip.bits % 256) as nat,
        ),
{
}

/// A hardware address is written as its six bytes in hexadecimal, with colons
/// between them.
pub proof fn law_colon_notation(mac: MacAddr)
    ensures
        ethernet::mac_text(mac@, 6) == text::hex2(mac[0]) + seq![':'] + text::hex2(mac[1])
            + seq![':'] + text::hex2(mac[2]) + seq![':'] + text::hex2(mac[3]) + seq![':']
            + text::hex2(mac[4]) + seq![':'] + text::hex2(mac[5]),
{
    reveal_with_fuel(ethernet::mac_text, 7);
    assert(ethernet::mac_text(mac@, 6) =~= text::hex2(mac[0]) + seq![':'] + text::hex2(mac[1])
        + seq![':'] + text::hex2(mac[2]) + seq![':'] + text::hex2(mac[3]) + seq![':'] + text::hex2(
        mac[4],
    ) + seq![':'] + text::hex2(mac[5]));
}

} // verus!
