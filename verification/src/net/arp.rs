//! ARP packet for IPv4-over-Ethernet (the common case).

use crate::net::addr::Ipv4Addr;
use crate::net::ethernet::{ethertype, EthernetHeader, MacAddr, BROADCAST};
use crate::net::wire;
use crate::net::wire::{mut_from_prefix, Pod, U16Be, U32Be};
use std::collections::HashMap;
use vstd::prelude::*;

pub mod htype;
pub mod oper;
pub mod ptype;

verus! {

broadcast use vstd::std_specs::hash::group_hash_axioms;

/// Hardware address length for Ethernet: a MAC is 6 bytes.
pub const ETHERNET_HLEN: u8 = 6;

/// Protocol address length for IPv4: an address is 4 bytes.
pub const IPV4_PLEN: u8 = 4;

/// Target hardware address used in a request: it is unknown (that is what we
/// are asking for), so it is sent as all zeros.
pub const UNKNOWN_HARDWARE_ADDR: MacAddr = [0, 0, 0, 0, 0, 0];

/// Total length of an Ethernet-framed IPv4 ARP message: L2 header + payload.
pub const FRAME_LEN: usize = 42;

/// ARP packet, fixed at 28 bytes for 6-byte MACs and 4-byte IPv4 addresses.
#[derive(Clone, Copy, Debug)]
pub struct ArpPacket {
    pub htype: U16Be,
    pub ptype: U16Be,
    pub hlen: u8,
    pub plen: u8,
    pub oper: U16Be,
    /// Sender hardware address.
    pub sha: MacAddr,
    /// Sender protocol address.
    pub spa: U32Be,
    /// Target hardware address.
    pub tha: MacAddr,
    /// Target protocol address.
    pub tpa: U32Be,
}

impl Pod for ArpPacket {
    open spec fn wire_len() -> nat {
        28
    }

    open spec fn bytes(self) -> Seq<u8> {
        seq![
            self.htype.hi,
            self.htype.lo,
            self.ptype.hi,
            self.ptype.lo,
            self.hlen,
            self.plen,
            self.oper.hi,
            self.oper.lo,
            self.sha[0],
            self.sha[1],
            self.sha[2],
            self.sha[3],
            self.sha[4],
            self.sha[5],
            self.spa.b0,
            self.spa.b1,
            self.spa.b2,
            self.spa.b3,
            self.tha[0],
            self.tha[1],
            self.tha[2],
            self.tha[3],
            self.tha[4],
            self.tha[5],
            self.tpa.b0,
            self.tpa.b1,
            self.tpa.b2,
            self.tpa.b3,
        ]
    }

    proof fn lemma_len(self) {
    }

    proof fn lemma_injective(self, other: Self) {
        assert(self.bytes()[0] == other.bytes()[0]);
        assert(self.bytes()[1] == other.bytes()[1]);
        assert(self.bytes()[2] == other.bytes()[2]);
        assert(self.bytes()[3] == other.bytes()[3]);
        assert(self.bytes()[4] == other.bytes()[4]);
        assert(self.bytes()[5] == other.bytes()[5]);
        assert(self.bytes()[6] == other.bytes()[6]);
        assert(self.bytes()[7] == other.bytes()[7]);
        assert(self.bytes()[8] == other.bytes()[8]);
        assert(self.bytes()[9] == other.bytes()[9]);
        assert(self.bytes()[10] == other.bytes()[10]);
        assert(self.bytes()[11] == other.bytes()[11]);
        assert(self.bytes()[12] == other.bytes()[12]);
        assert(self.bytes()[13] == other.bytes()[13]);
        assert(self.sha =~= other.sha);
        assert(self.bytes()[14] == other.bytes()[14]);
        assert(self.bytes()[15] == other.bytes()[15]);
        assert(self.bytes()[16] == other.bytes()[16]);
        assert(self.bytes()[17] == other.bytes()[17]);
        assert(self.bytes()[18] == other.bytes()[18]);
        assert(self.bytes()[19] == other.bytes()[19]);
        assert(self.bytes()[20] == other.bytes()[20]);
        assert(self.bytes()[21] == other.bytes()[21]);
        assert(self.bytes()[22] == other.bytes()[22]);
        assert(self.bytes()[23] == other.bytes()[23]);
        assert(self.tha =~= other.tha);
        assert(self.bytes()[24] == other.bytes()[24]);
        assert(self.bytes()[25] == other.bytes()[25]);
        assert(self.bytes()[26] == other.bytes()[26]);
        assert(self.bytes()[27] == other.bytes()[27]);
    }

    fn size() -> (n: usize) {
        28
    }

    fn load(buf: &[u8]) -> (r: Self) {
        let r = ArpPacket {
            htype: U16Be { hi: buf[0], lo: buf[1] },
            ptype: U16Be { hi: buf[2], lo: buf[3] },
            hlen: buf[4],
            plen: buf[5],
            oper: U16Be { hi: buf[6], lo: buf[7] },
            sha: [buf[8], buf[9], buf[10], buf[11], buf[12], buf[13]],
            spa: U32Be { b0: buf[14], b1: buf[15], b2: buf[16], b3: buf[17] },
            tha: [buf[18], buf[19], buf[20], buf[21], buf[22], buf[23]],
            tpa: U32Be { b0: buf[24], b1: buf[25], b2: buf[26], b3: buf[27] },
        };
        assert(r.bytes() =~= buf@);
        r
    }

    fn store(&self, buf: &mut [u8]) {
        buf[0] = self.htype.hi;
        buf[1] = self.htype.lo;
        buf[2] = self.ptype.hi;
        buf[3] = self.ptype.lo;
        buf[4] = self.hlen;
        buf[5] = self.plen;
        buf[6] = self.oper.hi;
        buf[7] = self.oper.lo;
        buf[8] = self.sha[0];
        buf[9] = self.sha[1];
        buf[10] = self.sha[2];
        buf[11] = self.sha[3];
        buf[12] = self.sha[4];
        buf[13] = self.sha[5];
        buf[14] = self.spa.b0;
        buf[15] = self.spa.b1;
        buf[16] = self.spa.b2;
        buf[17] = self.spa.b3;
        buf[18] = self.tha[0];
        buf[19] = self.tha[1];
        buf[20] = self.tha[2];
        buf[21] = self.tha[3];
        buf[22] = self.tha[4];
        buf[23] = self.tha[5];
        buf[24] = self.tpa.b0;
        buf[25] = self.tpa.b1;
        buf[26] = self.tpa.b2;
        buf[27] = self.tpa.b3;
        assert(buf@ =~= self.bytes());
    }
}

impl Default for ArpPacket {
    /// The all-zero header.
    fn default() -> (r: Self)
        ensures
            r.bytes() == Seq::new(28, |i: int| 0u8),
    {
        let r = ArpPacket {
            htype: U16Be { hi: 0, lo: 0 },
            ptype: U16Be { hi: 0, lo: 0 },
            hlen: 0,
            plen: 0,
            oper: U16Be { hi: 0, lo: 0 },
            sha: [0, 0, 0, 0, 0, 0],
            spa: U32Be { b0: 0, b1: 0, b2: 0, b3: 0 },
            tha: [0, 0, 0, 0, 0, 0],
            tpa: U32Be { b0: 0, b1: 0, b2: 0, b3: 0 },
        };
        assert(r.bytes() =~= Seq::new(28, |i: int| 0u8));
        r
    }
}

impl ArpPacket {
    pub const LEN: usize = 28;

    /// True of a well-formed Ethernet/IPv4 ARP packet.
    pub open spec fn spec_is_ethernet_ipv4(self) -> bool {
        &&& self.htype.value() == htype::ETHERNET
        &&& self.ptype.value() == ptype::IPV4
        &&& self.hlen == ETHERNET_HLEN
        &&& self.plen == IPV4_PLEN
    }

    pub fn htype(&self) -> (r: u16)
        ensures
            r == self.htype.value(),
    {
        self.htype.get()
    }

    pub fn ptype(&self) -> (r: u16)
        ensures
            r == self.ptype.value(),
    {
        self.ptype.get()
    }

    pub fn oper(&self) -> (r: u16)
        ensures
            r == self.oper.value(),
    {
        self.oper.get()
    }

    pub fn set_oper(&mut self, v: u16)
        ensures
            *final(self) == (Self { oper: U16Be::spec_new(v), ..*old(self) }),
            final(self).oper.value() == v,
    {
        self.oper.set(v);
    }

    pub fn is_request(&self) -> (r: bool)
        ensures
            r == (self.oper.value() == oper::REQUEST),
    {
        self.oper() == oper::REQUEST
    }

    pub fn is_reply(&self) -> (r: bool)
        ensures
            r == (self.oper.value() == oper::REPLY),
    {
        self.oper() == oper::REPLY
    }

    pub fn sender_ip(&self) -> (r: Ipv4Addr)
        ensures
            r.bits == self.spa.value(),
    {
        Ipv4Addr { bits: self.spa.get() }
    }

    pub fn target_ip(&self) -> (r: Ipv4Addr)
        ensures
            r.bits == self.tpa.value(),
    {
        Ipv4Addr { bits: self.tpa.get() }
    }

    pub fn set_sender_ip(&mut self, addr: Ipv4Addr)
        ensures
            *final(self) == (Self { spa: U32Be::spec_new(addr.bits), ..*old(self) }),
            final(self).spa.value() == addr.bits,
    {
        self.spa.set(addr.bits);
    }

    pub fn set_target_ip(&mut self, addr: Ipv4Addr)
        ensures
            *final(self) == (Self { tpa: U32Be::spec_new(addr.bits), ..*old(self) }),
            final(self).tpa.value() == addr.bits,
    {
        self.tpa.set(addr.bits);
    }

    /// Fill in an Ethernet/IPv4 ARP request header (does not set the L2 frame).
    pub fn init_ethernet_ipv4(&mut self, op: u16)
        ensures
            final(self).spec_is_ethernet_ipv4(),
            *final(self) == (Self {
                htype: U16Be::spec_new(htype::ETHERNET),
                ptype: U16Be::spec_new(ptype::IPV4),
                hlen: ETHERNET_HLEN,
                plen: IPV4_PLEN,
                oper: U16Be::spec_new(op),
                ..*old(self)
            }),
    {
        self.htype.set(htype::ETHERNET);
        self.ptype.set(ptype::IPV4);
        self.hlen = ETHERNET_HLEN;
        self.plen = IPV4_PLEN;
        self.oper.set(op);
    }

    /// True if this is a well-formed Ethernet/IPv4 ARP packet.
    pub fn is_ethernet_ipv4(&self) -> (r: bool)
        ensures
            r == self.spec_is_ethernet_ipv4(),
    {
        self.htype() == htype::ETHERNET && self.ptype() == ptype::IPV4 && self.hlen == ETHERNET_HLEN
            && self.plen == IPV4_PLEN
    }
}

/// The bytes of the Ethernet header of an ARP message.
pub open spec fn arp_ethernet_bytes(dst: Seq<u8>, src: Seq<u8>) -> Seq<u8> {
    dst + src + wire::bytes16(ethertype::ARP)
}

/// The bytes of an Ethernet-framed ARP message.
pub open spec fn arp_frame(
    op: u16,
    dst: Seq<u8>,
    sender_mac: Seq<u8>,
    sender_ip: Ipv4Addr,
    target_mac: Seq<u8>,
    target_ip: Ipv4Addr,
) -> Seq<u8> {
    arp_ethernet_bytes(dst, sender_mac) + wire::bytes16(htype::ETHERNET) + wire::bytes16(
        ptype::IPV4,
    ) + seq![ETHERNET_HLEN, IPV4_PLEN] + wire::bytes16(op) + sender_mac + wire::bytes32(
        sender_ip.bits,
    ) + target_mac + wire::bytes32(target_ip.bits)
}

/// What writing the ARP message `frame` makes of a buffer: the whole message
/// if it fits, the Ethernet header alone if only that fits, else nothing.
pub open spec fn arp_written(buf: Seq<u8>, frame: Seq<u8>) -> Seq<u8> {
    if buf.len() >= FRAME_LEN {
        wire::splice(buf, 0, frame)
    } else if buf.len() >= EthernetHeader::LEN {
        wire::splice(buf, 0, frame.subrange(0, EthernetHeader::LEN as int))
    } else {
        buf
    }
}

/// Write an Ethernet-framed ARP message.
fn build(
    buf: &mut [u8],
    op: u16,
    dst: MacAddr,
    sender_mac: MacAddr,
    sender_ip: Ipv4Addr,
    target_mac: MacAddr,
    target_ip: Ipv4Addr,
) -> (r: Option<usize>)
    ensures
        r == if old(buf)@.len() >= FRAME_LEN {
            Some(FRAME_LEN)
        } else {
            None
        },
        final(buf)@ == arp_written(
            old(buf)@,
            arp_frame(op, dst@, sender_mac@, sender_ip, target_mac@, target_ip),
        ),
{
    let ghost before = buf@;
    let ghost frame = arp_frame(op, dst@, sender_mac@, sender_ip, target_mac@, target_ip);
    let mut ok: bool = false;
    match mut_from_prefix::<EthernetHeader>(buf) {
        None => {},
        Some((win, rest)) => {
            let mut eth: EthernetHeader = win.get();
            eth.dst = dst;
            eth.src = sender_mac;
            eth.set_ethertype(ethertype::ARP);
            assert(eth.bytes() =~= frame.subrange(0, 14));
            win.put(&eth);
            match mut_from_prefix::<ArpPacket>(rest) {
                None => {},
                Some((win, _)) => {
                    let mut arp: ArpPacket = win.get();
                    arp.init_ethernet_ipv4(op);
                    arp.sha = sender_mac;
                    arp.set_sender_ip(sender_ip);
                    arp.tha = target_mac;
                    arp.set_target_ip(target_ip);
                    assert(arp.bytes() =~= frame.subrange(14, 42));
                    win.put(&arp);
                    ok = true;
                },
            }
        },
    }
    assert(buf@ =~= arp_written(before, frame));
    if ok {
        Some(FRAME_LEN)
    } else {
        None
    }
}

/// Build a "who has `target_ip`?" broadcast request into `buf`, returning the
/// number of bytes written ([`FRAME_LEN`]). Fails if `buf` is too small.
pub fn build_request(
    buf: &mut [u8],
    sender_mac: MacAddr,
    sender_ip: Ipv4Addr,
    target_ip: Ipv4Addr,
) -> (r: Option<usize>)
    ensures
        r == if old(buf)@.len() >= FRAME_LEN {
            Some(FRAME_LEN)
        } else {
            None
        },
        final(buf)@ == arp_written(
            old(buf)@,
            arp_frame(
                oper::REQUEST,
                BROADCAST@,
                sender_mac@,
                sender_ip,
                UNKNOWN_HARDWARE_ADDR@,
                target_ip,
            ),
        ),
{
    build(
        buf,
        oper::REQUEST,
        BROADCAST,
        sender_mac,
        sender_ip,
        UNKNOWN_HARDWARE_ADDR,
        target_ip,
    )
}

/// Build a unicast reply ("`sender_ip` is at `sender_mac`") addressed to the
/// requester into `buf`, returning the number of bytes written.
pub fn build_reply(
    buf: &mut [u8],
    sender_mac: MacAddr,
    sender_ip: Ipv4Addr,
    target_mac: MacAddr,
    target_ip: Ipv4Addr,
) -> (r: Option<usize>)
    ensures
        r == if old(buf)@.len() >= FRAME_LEN {
            Some(FRAME_LEN)
        } else {
            None
        },
        final(buf)@ == arp_written(
            old(buf)@,
            arp_frame(oper::REPLY, target_mac@, sender_mac@, sender_ip, target_mac@, target_ip),
        ),
{
    build(buf, oper::REPLY, target_mac, sender_mac, sender_ip, target_mac, target_ip)
}

/// IPv4 -> MAC mapping learned from observed ARP traffic.
///
/// This is intentionally a plain map with no expiry; a real stack would age
/// entries out. It exists so the data plane can resolve next-hop MACs without
/// blocking.
#[derive(Debug)]
pub struct NeighborCache {
    entries: HashMap<u32, MacAddr>,
}

impl View for NeighborCache {
    /// The MAC address known for each IPv4 address, by its 32-bit value.
    type V = Map<u32, MacAddr>;

    closed spec fn view(&self) -> Map<u32, MacAddr> {
        self.entries@
    }
}

impl Default for NeighborCache {
    fn default() -> (r: Self)
        ensures
            r@ == Map::<u32, MacAddr>::empty(),
    {
        NeighborCache { entries: HashMap::new() }
    }
}

impl NeighborCache {
    pub fn new() -> (r: Self)
        ensures
            r@ == Map::<u32, MacAddr>::empty(),
    {
        Self::default()
    }

    pub fn insert(&mut self, ip: Ipv4Addr, mac: MacAddr)
        ensures
            final(self)@ == old(self)@.insert(ip.bits, mac),
    {
        self.entries.insert(ip.bits, mac);
    }

    pub fn lookup(&self, ip: &Ipv4Addr) -> (r: Option<MacAddr>)
        ensures
            r == self@.get(ip.bits),
    {
        match self.entries.get(&ip.bits) {
            Some(mac) => Some(*mac),
            None => None,
        }
    }

    pub fn remove(&mut self, ip: &Ipv4Addr) -> (r: Option<MacAddr>)
        ensures
            r == old(self)@.get(ip.bits),
            final(self)@ == old(self)@.remove(ip.bits),
    {
        let r = self.entries.remove(&ip.bits);
        proof {
            if !old(self)@.dom().contains(ip.bits) {
                assert(self@ =~= old(self)@.remove(ip.bits));
            }
        }
        r
    }

    /// Record the sender's IP -> MAC mapping from any ARP packet (request or
    /// reply); both carry a valid sender hardware/protocol address.
    pub fn learn_from(&mut self, arp: &ArpPacket)
        ensures
            final(self)@ == old(self)@.insert(arp.spa.value(), arp.sha),
    {
        self.insert(arp.sender_ip(), arp.sha);
    }

    pub fn len(&self) -> (r: usize)
        ensures
            r == self@.len(),
            self@.dom().finite(),
    {
        self.entries.len()
    }

    pub fn is_empty(&self) -> (r: bool)
        ensures
            r == (self@.len() == 0),
            self@.dom().finite(),
    {
        self.entries.len() == 0
    }
}

/// What the caller should do after [`handle`] processes an inbound ARP packet.
#[derive(Debug, PartialEq, Eq, Structural)]
pub enum Action {
    /// A reply of this many bytes was written to the output buffer; transmit it.
    SendReply(usize),
    /// Nothing to transmit (not for us, was a reply, or malformed).
    Nothing,
}

/// Process one inbound ARP packet for the interface identified by
/// `(our_mac, our_ip)`.
///
/// The sender's mapping is learned into `cache` regardless of opcode. If the
/// packet is a request targeting `our_ip`, a reply is built into `out_buf` and
/// [`Action::SendReply`] is returned.
pub fn handle(
    our_mac: MacAddr,
    our_ip: Ipv4Addr,
    cache: &mut NeighborCache,
    in_arp: &ArpPacket,
    out_buf: &mut [u8],
) -> (r: Action)
    ensures
        final(cache)@ == if in_arp.spec_is_ethernet_ipv4() {
            old(cache)@.insert(in_arp.spa.value(), in_arp.sha)
        } else {
            old(cache)@
        },
        ({
            let asked = in_arp.spec_is_ethernet_ipv4() && in_arp.oper.value() == oper::REQUEST
                && in_arp.tpa.value() == our_ip.bits;
            &&& r == if asked && old(out_buf)@.len() >= FRAME_LEN {
                Action::SendReply(FRAME_LEN)
            } else {
                Action::Nothing
            }
            &&& final(out_buf)@ == if asked {
                arp_written(
                    old(out_buf)@,
                    arp_frame(
                        oper::REPLY,
                        in_arp.sha@,
                        our_mac@,
                        our_ip,
                        in_arp.sha@,
                        Ipv4Addr { bits: in_arp.spa.value() },
                    ),
                )
            } else {
                old(out_buf)@
            }
        }),
{
    if !in_arp.is_ethernet_ipv4() {
        return Action::Nothing;
    }
    cache.learn_from(in_arp);

    if in_arp.is_request() && in_arp.target_ip().bits == our_ip.bits {
        match build_reply(out_buf, our_mac, our_ip, in_arp.sha, in_arp.sender_ip()) {
            Some(len) => Action::SendReply(len),
            None => Action::Nothing,
        }
    } else {
        Action::Nothing
    }
}

/// A built message reads back as the message that was meant: an Ethernet/IPv4
/// ARP packet with the given opcode and addresses.
pub proof fn law_arp_frame_reads_back(
    op: u16,
    dst: MacAddr,
    sender_mac: MacAddr,
    sender_ip: Ipv4Addr,
    target_mac: MacAddr,
    target_ip: Ipv4Addr,
    eth: EthernetHeader,
    arp: ArpPacket,
)
    requires
        eth.bytes() == arp_frame(
            op,
            dst@,
            sender_mac@,
            sender_ip,
            target_mac@,
            target_ip,
        ).subrange(0, 14),
        arp.bytes() == arp_frame(
            op,
            dst@,
            sender_mac@,
            sender_ip,
            target_mac@,
            target_ip,
        ).subrange(14, 42),
    ensures
        eth.dst == dst,
        eth.src == sender_mac,
        eth.ethertype.value() == ethertype::ARP,
        arp.spec_is_ethernet_ipv4(),
        arp.oper.value() == op,
        arp.sha == sender_mac,
        arp.spa.value() == sender_ip.bits,
        arp.tha == target_mac,
        arp.tpa.value() == target_ip.bits,
{
    let e = EthernetHeader {
        dst,
        src: sender_mac,
        ethertype: U16Be::spec_new(ethertype::ARP),
    };
    let a = ArpPacket {
        htype: U16Be::spec_new(htype::ETHERNET),
        ptype: U16Be::spec_new(ptype::IPV4),
        hlen: ETHERNET_HLEN,
        plen: IPV4_PLEN,
        oper: U16Be::spec_new(op),
        sha: sender_mac,
        spa: U32Be::spec_new(sender_ip.bits),
        tha: target_mac,
        tpa: U32Be::spec_new(target_ip.bits),
    };
    assert(e.bytes() =~= eth.bytes());
    assert(a.bytes() =~= arp.bytes());
    e.lemma_injective(eth);
    a.lemma_injective(arp);
    wire::law_byte_order_round_trip(op, sender_ip.bits, a.oper, a.spa);
    wire::law_byte_order_round_trip(op, target_ip.bits, a.oper, a.tpa);
}

/// A message takes up the first 42 bytes of a buffer and leaves the rest alone. A
/// buffer that is too short for it gets its first 14 bytes, or nothing if it is
/// too short for those.
pub proof fn law_where_a_message_is_written(buf: Seq<u8>, frame: Seq<u8>, i: int)
    requires
        frame.len() == 42,
        0 <= i < buf.len(),
    ensures
        arp_written(buf, frame).len() == buf.len(),
        buf.len() >= 42 && i < 42 ==> arp_written(buf, frame)[i] == frame[i],
        i >= 42 ==> arp_written(buf, frame)[i] == buf[i],
        14 <= buf.len() < 42 && i < 14 ==> arp_written(buf, frame)[i] == frame[i],
        14 <= buf.len() < 42 && i >= 14 ==> arp_written(buf, frame)[i] == buf[i],
        buf.len() < 14 ==> arp_written(buf, frame)[i] == buf[i],
{
}

} // verus!
