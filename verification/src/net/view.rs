//! Layered interpretation of a packet buffer.
//!
//! Begin with a byte slice and walk down the protocol stack one layer at a
//! time:
//!
//! ```text
//! Ethernet -+- IPv4 -+- TCP -- DNS
//!           |        +- UDP -+- DHCP
//!           |                +- DNS
//!           +- ARP
//! ```
//!
//! Each step is a bounds check. A `*View` borrows the original buffer for
//! `'a`, so the payload slices it hands back point straight into that buffer;
//! headers are read out as values. Every view also reports the absolute byte
//! offset of its header via `header_offset()`, which locates the layer for
//! in-place edits.

use crate::net::arp::ArpPacket;
use crate::net::dhcp;
use crate::net::dhcp::DhcpHeader;
use crate::net::dns::DnsHeader;
use crate::net::ethernet::{ethertype, EthernetHeader, VlanTag};
use crate::net::ip::{proto, Ipv4Header};
use crate::net::tcp::TcpHeader;
use crate::net::udp::UdpHeader;
use crate::net::wire;
use crate::net::wire::{ref_from, Pod};
use vstd::prelude::*;

pub mod port;

verus! {

/// Where the parts of an Ethernet frame lie.
pub struct EthernetLayout {
    pub start: int,
    /// Ethertype after stripping a VLAN tag (the inner type if tagged).
    pub ethertype: u16,
    /// Offset where the L3 payload begins (past the header and any VLAN tag).
    pub l3_start: int,
}

/// Where the parts of an IPv4 packet lie.
pub struct Ipv4Layout {
    pub start: int,
    pub l4_start: int,
    pub end: int,
}

/// Where the parts of a TCP segment or a UDP datagram lie.
pub struct L4Layout {
    pub start: int,
    pub payload_start: int,
    pub end: int,
}

/// The Ethernet frame at `start`, with any single VLAN tag resolved.
pub open spec fn ethernet_layout(s: Seq<u8>, start: int) -> Option<EthernetLayout> {
    if s.len() < start + 14 {
        None
    } else if wire::be16(s, start + 12) != ethertype::VLAN {
        Some(
            EthernetLayout {
                start,
                ethertype: wire::be16(s, start + 12),
                l3_start: start + 14,
            },
        )
    } else if s.len() < start + 18 {
        None
    } else {
        Some(
            EthernetLayout {
                start,
                ethertype: wire::be16(s, start + 16),
                l3_start: start + 18,
            },
        )
    }
}

/// The IPv4 packet at `start`. The end is the one that the header declares, or
/// the end of the buffer if that is absent or implausible.
pub open spec fn ipv4_layout(s: Seq<u8>, start: int) -> Option<Ipv4Layout> {
    let hlen = s[start] % 16 * 4;
    let total = wire::be16(s, start + 2);
    if s.len() < start + 20 || hlen < 20 || s.len() < start + hlen {
        None
    } else {
        Some(
            Ipv4Layout {
                start,
                l4_start: start + hlen,
                end: if total >= hlen && start + total <= s.len() {
                    start + total
                } else {
                    s.len() as int
                },
            },
        )
    }
}

/// The TCP segment at `start` of a packet that ends at `end`.
pub open spec fn tcp_layout(s: Seq<u8>, start: int, end: int) -> Option<L4Layout> {
    let hlen = s[start + 12] / 16 * 4;
    if s.len() < start + 20 || hlen < 20 || end < start + hlen || s.len() < start + hlen {
        None
    } else {
        Some(L4Layout { start, payload_start: start + hlen, end })
    }
}

/// The UDP datagram at `start` of a packet that ends at `end`. Its length field
/// bounds it further if it is sane.
pub open spec fn udp_layout(s: Seq<u8>, start: int, end: int) -> Option<L4Layout> {
    let declared = wire::be16(s, start + 4);
    if s.len() < start + 8 || end < start + 8 {
        None
    } else {
        Some(
            L4Layout {
                start,
                payload_start: start + 8,
                end: if declared >= 8 && start + declared <= end {
                    start + declared
                } else {
                    end
                },
            },
        )
    }
}

/// The IPv4 packet that the frame `s` carries, if it carries one.
pub open spec fn frame_ipv4(s: Seq<u8>) -> Option<Ipv4Layout> {
    match ethernet_layout(s, 0) {
        Some(eth) => if eth.ethertype == ethertype::IPV4 {
            ipv4_layout(s, eth.l3_start)
        } else {
            None
        },
        None => None,
    }
}

/// The protocol field of the IPv4 packet at `start`.
pub open spec fn ipv4_protocol(s: Seq<u8>, start: int) -> u8 {
    s[start + 9]
}

/// The TCP segment that the frame `s` carries, if it carries one.
pub open spec fn frame_tcp(s: Seq<u8>) -> Option<L4Layout> {
    match frame_ipv4(s) {
        Some(ip) => if ipv4_protocol(s, ip.start) == proto::TCP {
            tcp_layout(s, ip.l4_start, ip.end)
        } else {
            None
        },
        None => None,
    }
}

/// The UDP datagram that the frame `s` carries, if it carries one.
pub open spec fn frame_udp(s: Seq<u8>) -> Option<L4Layout> {
    match frame_ipv4(s) {
        Some(ip) => if ipv4_protocol(s, ip.start) == proto::UDP {
            udp_layout(s, ip.l4_start, ip.end)
        } else {
            None
        },
        None => None,
    }
}

/// Read the bytes of `buf` starting at `off` as a `T`, if they fit.
pub(crate) fn header_at<T: Pod>(buf: &[u8], off: usize) -> (r: Option<T>)
    ensures
        r is Some <==> off + T::wire_len() <= buf@.len(),
        r matches Some(hdr) ==> hdr.bytes() == buf@.subrange(
            off as int,
            off + T::wire_len(),
        ),
{
    if off > buf.len() {
        return None;
    }
    let rest: &[u8] = &buf[off..buf.len()];
    let r = ref_from::<T>(rest);
    proof {
        if r is Some {
            assert(rest@.subrange(0, T::wire_len() as int) =~= buf@.subrange(
                off as int,
                off + T::wire_len(),
            ));
        }
    }
    r
}

/// Entry point: interpret `buf` as an Ethernet frame.
pub fn parse(buf: &[u8]) -> (r: Option<EthernetView<'_>>)
    ensures
        r is Some <==> ethernet_layout(buf@, 0) is Some,
        r matches Some(v) ==> v.wf() && v.buf@ == buf@ && v.start == 0,
{
    EthernetView::parse(buf)
}

/// A view of an Ethernet II frame, with any single 802.1Q VLAN tag resolved.
#[derive(Clone, Copy)]
pub struct EthernetView<'a> {
    pub buf: &'a [u8],
    pub start: usize,
    /// Ethertype after stripping a VLAN tag (the inner type if tagged).
    pub ethertype: u16,
    /// Offset where the L3 payload begins (past the header and any VLAN tag).
    pub l3_start: usize,
}

impl<'a> EthernetView<'a> {
    /// The view is what its buffer holds.
    pub open spec fn wf(self) -> bool {
        ethernet_layout(self.buf@, self.start as int) == Some(
            EthernetLayout {
                start: self.start as int,
                ethertype: self.ethertype,
                l3_start: self.l3_start as int,
            },
        )
    }

    pub fn parse(buf: &'a [u8]) -> (r: Option<Self>)
        ensures
            r is Some <==> ethernet_layout(buf@, 0) is Some,
            r matches Some(v) ==> v.wf() && v.buf@ == buf@ && v.start == 0,
    {
        Self::parse_at(buf, 0)
    }

    fn parse_at(buf: &'a [u8], start: usize) -> (r: Option<Self>)
        ensures
            r is Some <==> ethernet_layout(buf@, start as int) is Some,
            r matches Some(v) ==> v.wf() && v.buf@ == buf@ && v.start == start,
    {
        let eth: EthernetHeader = match header_at(buf, start) {
            Some(h) => h,
            None => {
                return None;
            },
        };
        assert(buf.len() == buf@.len());
        let mut etype: u16 = eth.ethertype();
        let mut l3_start: usize = start + EthernetHeader::LEN;
        assert(eth.bytes()[12] == buf@[start + 12] && eth.bytes()[13] == buf@[start + 13]);
        if etype == ethertype::VLAN {
            let tag: VlanTag = match header_at(buf, l3_start) {
                Some(h) => h,
                None => {
                    return None;
                },
            };
            assert(tag.bytes()[2] == buf@[start + 16] && tag.bytes()[3] == buf@[start + 17]);
            etype = tag.inner_ethertype();
            l3_start = l3_start + VlanTag::LEN;
        }
        if l3_start > buf.len() {
            return None;
        }
        Some(EthernetView { buf, start, ethertype: etype, l3_start })
    }

    pub fn header(&self) -> (r: EthernetHeader)
        requires
            self.wf(),
        ensures
            r.bytes() == self.buf@.subrange(self.start as int, self.start + 14),
    {
        EthernetHeader::load(&self.buf[self.start..self.start + EthernetHeader::LEN])
    }

    pub fn header_offset(&self) -> (r: usize)
        ensures
            r == self.start,
    {
        self.start
    }

    /// Ethertype of the payload (inner type if the frame was VLAN-tagged).
    pub fn ethertype(&self) -> (r: u16)
        ensures
            r == self.ethertype,
    {
        self.ethertype
    }

    pub fn payload(&self) -> (r: &'a [u8])
        requires
            self.wf(),
        ensures
            r@ == self.buf@.subrange(self.l3_start as int, self.buf@.len() as int),
    {
        &self.buf[self.l3_start..self.buf.len()]
    }

    pub fn payload_offset(&self) -> (r: usize)
        ensures
            r == self.l3_start,
    {
        self.l3_start
    }

    pub fn is_ipv4(&self) -> (r: bool)
        ensures
            r == (self.ethertype == ethertype::IPV4),
    {
        self.ethertype == ethertype::IPV4
    }

    pub fn is_arp(&self) -> (r: bool)
        ensures
            r == (self.ethertype == ethertype::ARP),
    {
        self.ethertype == ethertype::ARP
    }

    /// Descend into IPv4 if this frame carries it.
    pub fn ipv4(&self) -> (r: Option<Ipv4View<'a>>)
        ensures
            r is Some <==> self.ethertype == ethertype::IPV4 && ipv4_layout(
                self.buf@,
                self.l3_start as int,
            ) is Some,
            r matches Some(v) ==> v.wf() && v.buf@ == self.buf@ && v.start == self.l3_start,
    {
        if self.is_ipv4() {
            Ipv4View::parse_at(self.buf, self.l3_start)
        } else {
            None
        }
    }

    /// Interpret the payload as an ARP packet if this frame carries one.
    pub fn arp(&self) -> (r: Option<ArpPacket>)
        ensures
            r is Some <==> self.ethertype == ethertype::ARP && self.l3_start + 28
                <= self.buf@.len(),
            r matches Some(arp) ==> arp.bytes() == self.buf@.subrange(
                self.l3_start as int,
                self.l3_start + 28,
            ),
    {
        if self.is_arp() {
            header_at(self.buf, self.l3_start)
        } else {
            None
        }
    }
}

/// A view of an IPv4 packet. `end` bounds the L4 region using the IP total
/// length, trimming any Ethernet padding.
#[derive(Clone, Copy)]
pub struct Ipv4View<'a> {
    pub buf: &'a [u8],
    pub start: usize,
    pub l4_start: usize,
    pub end: usize,
}

impl<'a> Ipv4View<'a> {
    /// The view is what its buffer holds.
    pub open spec fn wf(self) -> bool {
        ipv4_layout(self.buf@, self.start as int) == Some(
            Ipv4Layout {
                start: self.start as int,
                l4_start: self.l4_start as int,
                end: self.end as int,
            },
        )
    }

    fn parse_at(buf: &'a [u8], start: usize) -> (r: Option<Self>)
        ensures
            r is Some <==> ipv4_layout(buf@, start as int) is Some,
            r matches Some(v) ==> v.wf() && v.buf@ == buf@ && v.start == start,
    {
        let ip: Ipv4Header = match header_at(buf, start) {
            Some(h) => h,
            None => {
                return None;
            },
        };
        assert(ip.bytes()[0] == buf@[start as int]);
        assert(ip.bytes()[2] == buf@[start + 2] && ip.bytes()[3] == buf@[start + 3]);
        let len: usize = buf.len();
        let hlen: usize = ip.header_len();
        if hlen < Ipv4Header::MIN_LEN {
            return None;
        }
        if len - start < hlen {
            return None;
        }
        let l4_start: usize = start + hlen;
        // Prefer the length declared in the header; fall back to the buffer end
        // if it is absent or implausible.
        let total: usize = ip.total_len() as usize;
        let end: usize = if total >= hlen && total <= len - start {
            start + total
        } else {
            len
        };
        Some(Ipv4View { buf, start, l4_start, end })
    }

    pub fn header(&self) -> (r: Ipv4Header)
        requires
            self.wf(),
        ensures
            r.bytes() == self.buf@.subrange(self.start as int, self.start + 20),
    {
        Ipv4Header::load(&self.buf[self.start..self.start + Ipv4Header::MIN_LEN])
    }

    pub fn header_offset(&self) -> (r: usize)
        ensures
            r == self.start,
    {
        self.start
    }

    pub fn protocol(&self) -> (r: u8)
        requires
            self.wf(),
        ensures
            r == ipv4_protocol(self.buf@, self.start as int),
    {
        let h = self.header();
        assert(h.bytes()[9] == self.buf@[self.start + 9]);
        h.protocol
    }

    pub fn payload(&self) -> (r: &'a [u8])
        requires
            self.wf(),
        ensures
            r@ == self.buf@.subrange(self.l4_start as int, self.end as int),
    {
        &self.buf[self.l4_start..self.end]
    }

    pub fn payload_offset(&self) -> (r: usize)
        ensures
            r == self.l4_start,
    {
        self.l4_start
    }

    pub fn is_tcp(&self) -> (r: bool)
        requires
            self.wf(),
        ensures
            r == (ipv4_protocol(self.buf@, self.start as int) == proto::TCP),
    {
        self.protocol() == proto::TCP
    }

    pub fn is_udp(&self) -> (r: bool)
        requires
            self.wf(),
        ensures
            r == (ipv4_protocol(self.buf@, self.start as int) == proto::UDP),
    {
        self.protocol() == proto::UDP
    }

    pub fn tcp(&self) -> (r: Option<TcpView<'a>>)
        requires
            self.wf(),
        ensures
            r is Some <==> ipv4_protocol(self.buf@, self.start as int) == proto::TCP && tcp_layout(
                self.buf@,
                self.l4_start as int,
                self.end as int,
            ) is Some,
            r matches Some(v) ==> v.wf() && v.buf@ == self.buf@ && v.start == self.l4_start
                && v.end == self.end,
    {
        if self.is_tcp() {
            TcpView::parse_at(self.buf, self.l4_start, self.end)
        } else {
            None
        }
    }

    pub fn udp(&self) -> (r: Option<UdpView<'a>>)
        requires
            self.wf(),
        ensures
            r is Some <==> ipv4_protocol(self.buf@, self.start as int) == proto::UDP && udp_layout(
                self.buf@,
                self.l4_start as int,
                self.end as int,
            ) is Some,
            r matches Some(v) ==> v.wf() && v.buf@ == self.buf@ && v.start == self.l4_start
                && udp_layout(self.buf@, self.l4_start as int, self.end as int) == Some(
                L4Layout {
                    start: v.start as int,
                    payload_start: v.payload_start as int,
                    end: v.end as int,
                },
            ),
    {
        if self.is_udp() {
            UdpView::parse_at(self.buf, self.l4_start, self.end)
        } else {
            None
        }
    }
}

/// A view of a TCP segment.
#[derive(Clone, Copy)]
pub struct TcpView<'a> {
    pub buf: &'a [u8],
    pub start: usize,
    pub payload_start: usize,
    pub end: usize,
}

impl<'a> TcpView<'a> {
    /// The view is what its buffer holds.
    pub open spec fn wf(self) -> bool {
        &&& self.end <= self.buf@.len()
        &&& tcp_layout(self.buf@, self.start as int, self.end as int) == Some(
            L4Layout {
                start: self.start as int,
                payload_start: self.payload_start as int,
                end: self.end as int,
            },
        )
    }

    fn parse_at(buf: &'a [u8], start: usize, end: usize) -> (r: Option<Self>)
        requires
            end <= buf@.len(),
        ensures
            r is Some <==> tcp_layout(buf@, start as int, end as int) is Some,
            r matches Some(v) ==> v.wf() && v.buf@ == buf@ && v.start == start && v.end == end,
    {
        let tcp: TcpHeader = match header_at(buf, start) {
            Some(h) => h,
            None => {
                return None;
            },
        };
        assert(tcp.bytes()[12] == buf@[start + 12]);
        let hlen: usize = tcp.header_len();
        if hlen < TcpHeader::MIN_LEN {
            return None;
        }
        if end < start || end - start < hlen {
            return None;
        }
        Some(TcpView { buf, start, payload_start: start + hlen, end })
    }

    pub fn header(&self) -> (r: TcpHeader)
        requires
            self.wf(),
        ensures
            r.bytes() == self.buf@.subrange(self.start as int, self.start + 20),
    {
        TcpHeader::load(&self.buf[self.start..self.start + TcpHeader::MIN_LEN])
    }

    pub fn header_offset(&self) -> (r: usize)
        ensures
            r == self.start,
    {
        self.start
    }

    pub fn src_port(&self) -> (r: u16)
        requires
            self.wf(),
        ensures
            r == wire::be16(self.buf@, self.start as int),
    {
        let h = self.header();
        assert(h.bytes()[0] == self.buf@[self.start as int]);
        assert(h.bytes()[1] == self.buf@[self.start + 1]);
        h.src_port()
    }

    pub fn dst_port(&self) -> (r: u16)
        requires
            self.wf(),
        ensures
            r == wire::be16(self.buf@, self.start + 2),
    {
        let h = self.header();
        assert(h.bytes()[2] == self.buf@[self.start + 2]);
        assert(h.bytes()[3] == self.buf@[self.start + 3]);
        h.dst_port()
    }

    pub fn payload(&self) -> (r: &'a [u8])
        requires
            self.wf(),
        ensures
            r@ == self.buf@.subrange(self.payload_start as int, self.end as int),
    {
        &self.buf[self.payload_start..self.end]
    }

    pub fn payload_offset(&self) -> (r: usize)
        ensures
            r == self.payload_start,
    {
        self.payload_start
    }

    /// True if either endpoint is the DNS port (DNS-over-TCP).
    pub fn is_dns(&self) -> (r: bool)
        requires
            self.wf(),
        ensures
            r == (wire::be16(self.buf@, self.start as int) == port::DNS || wire::be16(
                self.buf@,
                self.start + 2,
            ) == port::DNS),
    {
        self.src_port() == port::DNS || self.dst_port() == port::DNS
    }

    pub fn dns(&self) -> (r: Option<DnsView<'a>>)
        requires
            self.wf(),
        ensures
            r is Some <==> (wire::be16(self.buf@, self.start as int) == port::DNS || wire::be16(
                self.buf@,
                self.start + 2,
            ) == port::DNS) && self.payload_start + 12 <= self.buf@.len(),
            r matches Some(v) ==> v.wf() && v.buf@ == self.buf@ && v.start == self.payload_start
                && v.end == self.end,
    {
        if self.is_dns() {
            DnsView::parse_at(self.buf, self.payload_start, self.end)
        } else {
            None
        }
    }
}

/// True of the DHCP/BOOTP ports.
pub open spec fn is_bootp(p: u16) -> bool {
    p == port::DHCP_SERVER || p == port::DHCP_CLIENT
}

/// A view of a UDP datagram. `end` is clamped by the UDP length field.
#[derive(Clone, Copy)]
pub struct UdpView<'a> {
    pub buf: &'a [u8],
    pub start: usize,
    pub payload_start: usize,
    pub end: usize,
}

impl<'a> UdpView<'a> {
    /// The view is what its buffer holds.
    pub open spec fn wf(self) -> bool {
        &&& self.end <= self.buf@.len()
        &&& self.payload_start == self.start + 8
        &&& self.payload_start <= self.end
    }

    fn parse_at(buf: &'a [u8], start: usize, end: usize) -> (r: Option<Self>)
        requires
            end <= buf@.len(),
        ensures
            r is Some <==> udp_layout(buf@, start as int, end as int) is Some,
            r matches Some(v) ==> v.wf() && v.buf@ == buf@ && v.start == start && udp_layout(
                buf@,
                start as int,
                end as int,
            ) == Some(
                L4Layout {
                    start: start as int,
                    payload_start: v.payload_start as int,
                    end: v.end as int,
                },
            ),
    {
        let udp: UdpHeader = match header_at(buf, start) {
            Some(h) => h,
            None => {
                return None;
            },
        };
        assert(udp.bytes()[4] == buf@[start + 4] && udp.bytes()[5] == buf@[start + 5]);
        assert(buf.len() == buf@.len());
        let payload_start: usize = start + UdpHeader::LEN;
        if payload_start > end {
            return None;
        }
        // Trust the UDP length when it is sane, else fall back to the IP-derived
        // end already passed in.
        let declared: usize = udp.length() as usize;
        let end: usize = if declared >= UdpHeader::LEN && declared <= end - start {
            start + declared
        } else {
            end
        };
        Some(UdpView { buf, start, payload_start, end })
    }

    pub fn header(&self) -> (r: UdpHeader)
        requires
            self.wf(),
        ensures
            r.bytes() == self.buf@.subrange(self.start as int, self.start + 8),
    {
        UdpHeader::load(&self.buf[self.start..self.start + UdpHeader::LEN])
    }

    pub fn header_offset(&self) -> (r: usize)
        ensures
            r == self.start,
    {
        self.start
    }

    pub fn src_port(&self) -> (r: u16)
        requires
            self.wf(),
        ensures
            r == wire::be16(self.buf@, self.start as int),
    {
        let h = self.header();
        assert(h.bytes()[0] == self.buf@[self.start as int]);
        assert(h.bytes()[1] == self.buf@[self.start + 1]);
        h.src_port()
    }

    pub fn dst_port(&self) -> (r: u16)
        requires
            self.wf(),
        ensures
            r == wire::be16(self.buf@, self.start + 2),
    {
        let h = self.header();
        assert(h.bytes()[2] == self.buf@[self.start + 2]);
        assert(h.bytes()[3] == self.buf@[self.start + 3]);
        h.dst_port()
    }

    pub fn payload(&self) -> (r: &'a [u8])
        requires
            self.wf(),
        ensures
            r@ == self.buf@.subrange(self.payload_start as int, self.end as int),
    {
        &self.buf[self.payload_start..self.end]
    }

    pub fn payload_offset(&self) -> (r: usize)
        ensures
            r == self.payload_start,
    {
        self.payload_start
    }

    /// True if either endpoint is a DHCP/BOOTP port.
    pub fn is_dhcp(&self) -> (r: bool)
        requires
            self.wf(),
        ensures
            r == (is_bootp(wire::be16(self.buf@, self.start as int)) || is_bootp(
                wire::be16(self.buf@, self.start + 2),
            )),
    {
        let s: u16 = self.src_port();
        let d: u16 = self.dst_port();
        s == port::DHCP_SERVER || s == port::DHCP_CLIENT || d == port::DHCP_SERVER || d
            == port::DHCP_CLIENT
    }

    /// True if either endpoint is the DNS port.
    pub fn is_dns(&self) -> (r: bool)
        requires
            self.wf(),
        ensures
            r == (wire::be16(self.buf@, self.start as int) == port::DNS || wire::be16(
                self.buf@,
                self.start + 2,
            ) == port::DNS),
    {
        self.src_port() == port::DNS || self.dst_port() == port::DNS
    }

    pub fn dhcp(&self) -> (r: Option<DhcpView<'a>>)
        requires
            self.wf(),
        ensures
            r is Some <==> (is_bootp(wire::be16(self.buf@, self.start as int)) || is_bootp(
                wire::be16(self.buf@, self.start + 2),
            )) && self.payload_start + 240 <= self.buf@.len(),
            r matches Some(v) ==> v.wf() && v.buf@ == self.buf@ && v.start == self.payload_start
                && v.end == self.end,
    {
        if self.is_dhcp() {
            DhcpView::parse_at(self.buf, self.payload_start, self.end)
        } else {
            None
        }
    }

    pub fn dns(&self) -> (r: Option<DnsView<'a>>)
        requires
            self.wf(),
        ensures
            r is Some <==> (wire::be16(self.buf@, self.start as int) == port::DNS || wire::be16(
                self.buf@,
                self.start + 2,
            ) == port::DNS) && self.payload_start + 12 <= self.buf@.len(),
            r matches Some(v) ==> v.wf() && v.buf@ == self.buf@ && v.start == self.payload_start
                && v.end == self.end,
    {
        if self.is_dns() {
            DnsView::parse_at(self.buf, self.payload_start, self.end)
        } else {
            None
        }
    }
}

/// A view of a DHCPv4 message: the fixed header plus its options region.
#[derive(Clone, Copy)]
pub struct DhcpView<'a> {
    pub buf: &'a [u8],
    pub start: usize,
    pub options_start: usize,
    pub end: usize,
}

/// The options region of a DHCP message that starts at `start` and ends at
/// `end`: what follows the fixed header.
pub open spec fn dhcp_options(s: Seq<u8>, start: int, end: int) -> Seq<u8> {
    s.subrange(
        if start + 240 <= end {
            start + 240
        } else {
            end
        },
        end,
    )
}

impl<'a> DhcpView<'a> {
    /// The view is what its buffer holds.
    pub open spec fn wf(self) -> bool {
        &&& self.start + 240 <= self.buf@.len()
        &&& self.end <= self.buf@.len()
        &&& self.options_start == if self.start + 240 <= self.end {
            self.start + 240
        } else {
            self.end as int
        }
    }

    /// The bytes of the fixed header.
    pub open spec fn header_bytes(self) -> Seq<u8> {
        self.buf@.subrange(self.start as int, self.start + 240)
    }

    /// The bytes of the options region.
    pub open spec fn option_bytes(self) -> Seq<u8> {
        self.buf@.subrange(self.options_start as int, self.end as int)
    }

    fn parse_at(buf: &'a [u8], start: usize, end: usize) -> (r: Option<Self>)
        requires
            end <= buf@.len(),
        ensures
            r is Some <==> start + 240 <= buf@.len(),
            r matches Some(v) ==> v.wf() && v.buf@ == buf@ && v.start == start && v.end == end,
    {
        if start > buf.len() || buf.len() - start < DhcpHeader::LEN {
            return None;
        }
        let options_start: usize = if start + DhcpHeader::LEN <= end {
            start + DhcpHeader::LEN
        } else {
            end
        };
        Some(DhcpView { buf, start, options_start, end })
    }

    pub fn header(&self) -> (r: DhcpHeader)
        requires
            self.wf(),
        ensures
            r.bytes() == self.header_bytes(),
    {
        assert(self.buf.len() == self.buf@.len());
        DhcpHeader::load(&self.buf[self.start..self.start + DhcpHeader::LEN])
    }

    pub fn header_offset(&self) -> (r: usize)
        ensures
            r == self.start,
    {
        self.start
    }

    /// Raw options bytes (the TLV trailer after the magic cookie).
    pub fn options(&self) -> (r: &'a [u8])
        requires
            self.wf(),
        ensures
            r@ == self.option_bytes(),
    {
        &self.buf[self.options_start..self.end]
    }

    /// Iterator over the `(code, value)` DHCP options.
    pub fn options_iter(&self) -> (r: dhcp::OptionsIter<'a>)
        requires
            self.wf(),
        ensures
            r@ == dhcp::options_of(self.option_bytes()),
    {
        dhcp::OptionsIter::new(self.options())
    }

    /// Typed access to the options region.
    pub fn typed_options(&self) -> (r: dhcp::Options<'a>)
        requires
            self.wf(),
        ensures
            r@ == self.option_bytes(),
    {
        dhcp::Options::new(self.options())
    }

    /// The DHCP message type (option 53), if present.
    pub fn message_type(&self) -> (r: Option<dhcp::MessageType>)
        requires
            self.wf(),
        ensures
            r == dhcp::spec_message_type(self.option_bytes()),
    {
        self.typed_options().message_type()
    }

    /// Interpret the message as a DHCPOFFER (`None` unless it is one).
    pub fn offer(&self) -> (r: Option<dhcp::Offer<'a>>)
        requires
            self.wf(),
        ensures
            r is Some <==> dhcp::spec_message_type(self.option_bytes()) == Some(
                dhcp::MessageType::Offer,
            ),
            r matches Some(m) ==> m.header.bytes() == self.header_bytes() && m.options@
                == self.option_bytes(),
    {
        dhcp::Offer::parse(&self.header(), self.options())
    }

    /// Interpret the message as a DHCPREQUEST (`None` unless it is one).
    pub fn request(&self) -> (r: Option<dhcp::Request<'a>>)
        requires
            self.wf(),
        ensures
            r is Some <==> dhcp::spec_message_type(self.option_bytes()) == Some(
                dhcp::MessageType::Request,
            ),
            r matches Some(m) ==> m.header.bytes() == self.header_bytes() && m.options@
                == self.option_bytes(),
    {
        dhcp::Request::parse(&self.header(), self.options())
    }

    /// Interpret the message as the lease granted by a DHCPACK (`None` unless
    /// it is an ACK).
    pub fn lease(&self) -> (r: Option<dhcp::Lease<'a>>)
        requires
            self.wf(),
        ensures
            r is Some <==> dhcp::spec_message_type(self.option_bytes()) == Some(
                dhcp::MessageType::Ack,
            ),
            r matches Some(m) ==> m.header.bytes() == self.header_bytes() && m.options@
                == self.option_bytes(),
    {
        dhcp::Lease::parse(&self.header(), self.options())
    }
}

/// A view of a DNS message: the fixed header plus the question/record body.
#[derive(Clone, Copy)]
pub struct DnsView<'a> {
    pub buf: &'a [u8],
    pub start: usize,
    pub body_start: usize,
    pub end: usize,
}

impl<'a> DnsView<'a> {
    /// The view is what its buffer holds.
    pub open spec fn wf(self) -> bool {
        &&& self.start + 12 <= self.buf@.len()
        &&& self.end <= self.buf@.len()
        &&& self.body_start == if self.start + 12 <= self.end {
            self.start + 12
        } else {
            self.end as int
        }
    }

    fn parse_at(buf: &'a [u8], start: usize, end: usize) -> (r: Option<Self>)
        requires
            end <= buf@.len(),
        ensures
            r is Some <==> start + 12 <= buf@.len(),
            r matches Some(v) ==> v.wf() && v.buf@ == buf@ && v.start == start && v.end == end,
    {
        if start > buf.len() || buf.len() - start < DnsHeader::LEN {
            return None;
        }
        let body_start: usize = if start + DnsHeader::LEN <= end {
            start + DnsHeader::LEN
        } else {
            end
        };
        Some(DnsView { buf, start, body_start, end })
    }

    pub fn header(&self) -> (r: DnsHeader)
        requires
            self.wf(),
        ensures
            r.bytes() == self.buf@.subrange(self.start as int, self.start + 12),
    {
        assert(self.buf.len() == self.buf@.len());
        DnsHeader::load(&self.buf[self.start..self.start + DnsHeader::LEN])
    }

    pub fn header_offset(&self) -> (r: usize)
        ensures
            r == self.start,
    {
        self.start
    }

    /// Raw bytes following the header (questions and resource records, which
    /// use name compression and so are not read here).
    pub fn body(&self) -> (r: &'a [u8])
        requires
            self.wf(),
        ensures
            r@ == self.buf@.subrange(self.body_start as int, self.end as int),
    {
        &self.buf[self.body_start..self.end]
    }
}

/// The layers of a frame lie inside each other: every header that a view
/// reports lies within the frame, after the header of the layer below it, and
/// every payload ends within the frame.
pub proof fn law_layers_nest(s: Seq<u8>)
    ensures
        frame_ipv4(s) matches Some(ip) ==> 14 <= ip.start && ip.start + 20 <= ip.l4_start
            <= ip.end <= s.len(),
        frame_tcp(s) matches Some(t) ==> frame_ipv4(s) matches Some(ip) && t.start == ip.l4_start
            && t.start + 20 <= t.payload_start <= t.end <= ip.end,
        frame_udp(s) matches Some(u) ==> frame_ipv4(s) matches Some(ip) && u.start == ip.l4_start
            && u.start + 8 == u.payload_start <= u.end <= ip.end,
        !(frame_tcp(s) is Some && frame_udp(s) is Some),
{
}

} // verus!
