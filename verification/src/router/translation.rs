//! Source NAT: rewrite LAN->WAN packets so they appear to originate from the
//! router's WAN address, and remember the mapping so return traffic can be
//! reversed.
//!
//! This is **endpoint-independent** ("full-cone") mapping: a given internal
//! `(protocol, ip, port)` always maps to the same external port regardless of
//! the remote peer, so the reverse lookup needs only `(protocol, ext_port)`.
//! The external port is drawn from a configurable range.
//!
//! [`translate_egress`] and [`translate_ingress`] work on a raw packet slice.

use crate::net::addr::Ipv4Addr;
use crate::net::anatomy;
use crate::net::checksum;
use crate::net::ip::proto;
use crate::net::view;
use crate::net::wire;
use crate::net::wire::U16Be;
use crate::sync::history;
use crate::sync::history::Evolving;
use crate::sync::spinlock::{Guarded, SpinLock};
use crate::table::{Key, Table};
use std::sync::Arc;
use vstd::prelude::*;

verus! {

/// Source-address field offset within the IPv4 header.
pub const IP_SRC_OFFSET: usize = 12;

/// Destination-address field offset within the IPv4 header.
pub const IP_DST_OFFSET: usize = 16;

/// Checksum field offset within the IPv4 header.
pub const IP_CKSUM_OFFSET: usize = 10;

/// Source-port field offset within a TCP/UDP header (both put it first).
pub const L4_SRC_PORT_OFFSET: usize = 0;

/// Destination-port field offset within a TCP/UDP header.
pub const L4_DST_PORT_OFFSET: usize = 2;

/// Checksum field offset within the TCP header.
pub const TCP_CKSUM_OFFSET: usize = 16;

/// Checksum field offset within the UDP header.
pub const UDP_CKSUM_OFFSET: usize = 6;

/// UDP checksum value meaning "not computed".
pub const UDP_CKSUM_DISABLED: u16 = 0;

/// The transport protocols we NAT.
#[derive(Clone, Copy, PartialEq, Eq, Structural, Hash, Debug)]
pub enum L4 {
    Tcp,
    Udp,
}

impl L4 {
    /// The IP protocol number.
    pub open spec fn spec_proto(self) -> u8 {
        match self {
            L4::Tcp => proto::TCP,
            L4::Udp => proto::UDP,
        }
    }

    /// The transport protocol of an IP protocol number, if it is one we NAT.
    pub open spec fn spec_from_proto(p: u8) -> Option<Self> {
        if p == proto::TCP {
            Some(L4::Tcp)
        } else if p == proto::UDP {
            Some(L4::Udp)
        } else {
            None
        }
    }

    pub fn proto(self) -> (r: u8)
        ensures
            r == self.spec_proto(),
    {
        match self {
            L4::Tcp => proto::TCP,
            L4::Udp => proto::UDP,
        }
    }

    pub fn from_proto(p: u8) -> (r: Option<Self>)
        ensures
            r == Self::spec_from_proto(p),
    {
        match p {
            proto::TCP => Some(L4::Tcp),
            proto::UDP => Some(L4::Udp),
            _ => None,
        }
    }
}

/// A transport protocol reads back from its number, and a number that stands
/// for one is its number.
pub proof fn law_l4_round_trip(l4: L4, p: u8)
    ensures
        L4::spec_from_proto(l4.spec_proto()) == Some(l4),
        L4::spec_from_proto(p) matches Some(l) ==> l.spec_proto() == p,
{
}

/// An internal (behind-NAT) transport endpoint.
#[derive(Clone, Copy, PartialEq, Eq, Structural, Hash, Debug)]
pub struct Endpoint {
    pub ip: Ipv4Addr,
    pub port: u16,
}

/// The source rewrite to apply to an egress packet.
#[derive(Clone, Copy, PartialEq, Eq, Structural, Debug)]
pub struct Egress {
    pub new_src_ip: Ipv4Addr,
    pub new_src_port: u16,
}

/// The destination rewrite applied to an ingress (return) packet: the internal
/// endpoint the flow belongs to. The caller uses this to choose the LAN egress
/// port and resolve the host's next-hop MAC.
#[derive(Clone, Copy, PartialEq, Eq, Structural, Debug)]
pub struct Ingress {
    pub dst_ip: Ipv4Addr,
    pub dst_port: u16,
}

/// Key of the forward map: protocol and internal endpoint.
#[derive(Clone, Copy, PartialEq, Eq, Structural, Hash, Debug)]
pub struct FwdKey {
    pub proto: u8,
    pub ip: Ipv4Addr,
    pub port: u16,
}

impl Key for FwdKey {
    open spec fn code(self) -> u128 {
        (self.proto * 0x1_0000_0000_0000 + self.ip.bits * 0x1_0000 + self.port) as u128
    }

    proof fn lemma_code_injective(self, other: Self) {
        assert(self.code() % 0x1_0000 == self.port);
        assert(other.code() % 0x1_0000 == other.port);
        assert(self.code() / 0x1_0000 == self.proto * 0x1_0000_0000 + self.ip.bits);
        assert(other.code() / 0x1_0000 == other.proto * 0x1_0000_0000 + other.ip.bits);
    }

    fn encode(&self) -> (r: u128) {
        self.proto as u128 * 0x1_0000_0000_0000 + self.ip.bits as u128 * 0x1_0000
            + self.port as u128
    }
}

/// Key of the reverse map: protocol and external port.
#[derive(Clone, Copy, PartialEq, Eq, Structural, Hash, Debug)]
pub struct RevKey {
    pub proto: u8,
    pub port: u16,
}

impl Key for RevKey {
    open spec fn code(self) -> u128 {
        (self.proto * 0x1_0000 + self.port) as u128
    }

    proof fn lemma_code_injective(self, other: Self) {
        assert(self.code() % 0x1_0000 == self.port);
        assert(other.code() % 0x1_0000 == other.port);
    }

    fn encode(&self) -> (r: u128) {
        self.proto as u128 * 0x1_0000 + self.port as u128
    }
}

/// What a NAT table holds.
#[verifier::ext_equal]
pub struct NatView {
    pub wan_ip: Ipv4Addr,
    pub port_lo: u16,
    pub port_hi: u16,
    pub next_port: u16,
    pub fwd: Map<FwdKey, u16>,
    pub rev: Map<RevKey, Endpoint>,
}

/// The port after `p` in the circle of ports from `lo` to `hi`.
pub open spec fn next_in_range(p: u16, lo: u16, hi: u16) -> u16 {
    if p >= hi {
        lo
    } else {
        (p + 1) as u16
    }
}

/// The first of `n` ports, from `cand` on around the circle, that is not bound
/// for `proto`.
pub open spec fn scan_ports(
    rev: Map<RevKey, Endpoint>,
    proto: u8,
    lo: u16,
    hi: u16,
    cand: u16,
    n: nat,
) -> Option<u16>
    decreases n,
{
    if n == 0 {
        None
    } else if !rev.dom().contains(RevKey { proto, port: cand }) {
        Some(cand)
    } else {
        scan_ports(rev, proto, lo, hi, next_in_range(cand, lo, hi), (n - 1) as nat)
    }
}

impl NatView {
    /// The forward and the reverse map are each other's inverse, and the ports
    /// are from the pool.
    pub open spec fn wf(self) -> bool {
        &&& 0 < self.port_lo <= self.next_port <= self.port_hi
        &&& forall|k: FwdKey| #[trigger]
            self.fwd.dom().contains(k) ==> {
                let e = RevKey { proto: k.proto, port: self.fwd[k] };
                &&& self.rev.dom().contains(e)
                &&& self.rev[e] == (Endpoint { ip: k.ip, port: k.port })
                &&& self.port_lo <= self.fwd[k] <= self.port_hi
            }
        &&& forall|e: RevKey| #[trigger]
            self.rev.dom().contains(e) ==> {
                let k = FwdKey { proto: e.proto, ip: self.rev[e].ip, port: self.rev[e].port };
                self.fwd.dom().contains(k) && self.fwd[k] == e.port
            }
    }

    /// The next free external port for `proto`.
    pub open spec fn free_port(self, proto: u8) -> Option<u16> {
        scan_ports(
            self.rev,
            proto,
            self.port_lo,
            self.port_hi,
            self.next_port,
            (self.port_hi - self.port_lo + 1) as nat,
        )
    }

    /// The external port that an outbound flow from `ip`:`port` gets: the one
    /// it is bound to, or else the next free one.
    pub open spec fn port_for(self, l4: L4, ip: Ipv4Addr, port: u16) -> Option<u16> {
        let key = FwdKey { proto: l4.spec_proto(), ip, port };
        if self.fwd.dom().contains(key) {
            Some(self.fwd[key])
        } else {
            self.free_port(l4.spec_proto())
        }
    }

    /// The table after an outbound flow from `ip`:`port` was seen: with a
    /// binding for it, if there is room for one.
    pub open spec fn after_egress(self, l4: L4, ip: Ipv4Addr, port: u16) -> NatView {
        let proto = l4.spec_proto();
        let key = FwdKey { proto, ip, port };
        if self.fwd.dom().contains(key) {
            self
        } else {
            match self.free_port(proto) {
                None => self,
                Some(e) => NatView {
                    next_port: next_in_range(e, self.port_lo, self.port_hi),
                    fwd: self.fwd.insert(key, e),
                    rev: self.rev.insert(RevKey { proto, port: e }, Endpoint { ip, port }),
                    ..self
                },
            }
        }
    }

    /// What an outbound flow from `ip`:`port` is translated to.
    pub open spec fn egress(self, l4: L4, ip: Ipv4Addr, port: u16) -> Option<Egress> {
        match self.port_for(l4, ip, port) {
            Some(e) => Some(Egress { new_src_ip: self.wan_ip, new_src_port: e }),
            None => None,
        }
    }

    /// The internal endpoint that an external port is bound to.
    pub open spec fn ingress(self, l4: L4, ext_port: u16) -> Option<Endpoint> {
        self.rev.get(RevKey { proto: l4.spec_proto(), port: ext_port })
    }
}

/// A per-shard NAT table: forward and reverse maps plus the external-port pool.
pub struct Nat {
    wan_ip: Ipv4Addr,
    port_lo: u16,
    port_hi: u16,
    next_port: u16,
    /// `(proto, internal ip, internal port)` -> external port.
    fwd: Table<FwdKey, u16>,
    /// `(proto, external port)` -> internal endpoint (for reverse/ingress).
    rev: Table<RevKey, Endpoint>,
}

impl View for Nat {
    type V = NatView;

    closed spec fn view(&self) -> NatView {
        NatView {
            wan_ip: self.wan_ip,
            port_lo: self.port_lo,
            port_hi: self.port_hi,
            next_port: self.next_port,
            fwd: self.fwd@,
            rev: self.rev@,
        }
    }
}

/// A scanned port is free and lies in the range.
proof fn lemma_scan_ports(
    rev: Map<RevKey, Endpoint>,
    proto: u8,
    lo: u16,
    hi: u16,
    cand: u16,
    n: nat,
)
    requires
        lo <= cand <= hi,
    ensures
        scan_ports(rev, proto, lo, hi, cand, n) matches Some(p) ==> lo <= p <= hi
            && !rev.dom().contains(RevKey { proto, port: p }),
    decreases n,
{
    if n > 0 && rev.dom().contains(RevKey { proto, port: cand }) {
        lemma_scan_ports(rev, proto, lo, hi, next_in_range(cand, lo, hi), (n - 1) as nat);
    }
}

/// How many steps `p` lies behind `from` on the circle of ports from `lo` to
/// `hi`.
pub open spec fn steps(from: u16, p: u16, lo: u16, hi: u16) -> int {
    if p >= from {
        p - from
    } else {
        p - from + (hi - lo + 1)
    }
}

/// A scan passes over bound ports only.
proof fn lemma_scan_order(
    rev: Map<RevKey, Endpoint>,
    proto: u8,
    lo: u16,
    hi: u16,
    cand: u16,
    n: nat,
    q: u16,
)
    requires
        lo <= cand <= hi,
        lo <= q <= hi,
        match scan_ports(rev, proto, lo, hi, cand, n) {
            None => steps(cand, q, lo, hi) < n,
            Some(p) => steps(cand, q, lo, hi) < steps(cand, p, lo, hi),
        },
    ensures
        rev.dom().contains(RevKey { proto, port: q }),
    decreases n,
{
    if n > 0 && rev.dom().contains(RevKey { proto, port: cand }) && q != cand {
        let next = next_in_range(cand, lo, hi);
        lemma_scan_ports(rev, proto, lo, hi, next, (n - 1) as nat);
        if let Some(p) = scan_ports(rev, proto, lo, hi, next, (n - 1) as nat) {
            assert(p != cand);
        }
        lemma_scan_order(rev, proto, lo, hi, next, (n - 1) as nat, q);
    }
}

/// There is no free port for a protocol exactly if every port of the range is
/// bound for it, and then a new flow gets none. Else the free port is in the
/// range and not bound, and every port before it, from the next one to try on,
/// is bound.
pub proof fn law_free_port_is_found(v: NatView, l4: L4, ip: Ipv4Addr, port: u16)
    requires
        v.wf(),
    ensures
        ({
            let proto = l4.spec_proto();
            let key = FwdKey { proto, ip, port };
            let full = forall|p: u16|
                v.port_lo <= p <= v.port_hi ==> #[trigger] v.rev.dom().contains(
                    RevKey { proto, port: p },
                );
            &&& v.free_port(proto) is None <==> full
            &&& v.egress(l4, ip, port) is None <==> !v.fwd.dom().contains(key) && full
            &&& v.free_port(proto) matches Some(p) ==> {
                &&& v.port_lo <= p <= v.port_hi
                &&& !v.rev.dom().contains(RevKey { proto, port: p })
                &&& forall|q: u16|
                    v.port_lo <= q <= v.port_hi && steps(v.next_port, q, v.port_lo, v.port_hi)
                        < steps(v.next_port, p, v.port_lo, v.port_hi)
                        ==> #[trigger] v.rev.dom().contains(RevKey { proto, port: q })
            }
        }),
{
    let proto = l4.spec_proto();
    let n = (v.port_hi - v.port_lo + 1) as nat;
    lemma_scan_ports(v.rev, proto, v.port_lo, v.port_hi, v.next_port, n);
    assert forall|q: u16|
        v.port_lo <= q <= v.port_hi && match v.free_port(proto) {
            None => true,
            Some(p) => steps(v.next_port, q, v.port_lo, v.port_hi) < steps(
                v.next_port,
                p,
                v.port_lo,
                v.port_hi,
            ),
        } implies #[trigger] v.rev.dom().contains(RevKey { proto, port: q }) by {
        lemma_scan_order(v.rev, proto, v.port_lo, v.port_hi, v.next_port, n, q);
    }
}

/// A binding that is created keeps the maps inverse to each other.
pub proof fn law_egress_keeps_invariant(v: NatView, l4: L4, ip: Ipv4Addr, port: u16)
    requires
        v.wf(),
    ensures
        v.after_egress(l4, ip, port).wf(),
{
    let proto = l4.spec_proto();
    lemma_scan_ports(
        v.rev,
        proto,
        v.port_lo,
        v.port_hi,
        v.next_port,
        (v.port_hi - v.port_lo + 1) as nat,
    );
}

impl Nat {
    /// Create a table translating to `wan_ip`, allocating external ports from
    /// the inclusive range `[port_lo, port_hi]`.
    pub fn new(wan_ip: Ipv4Addr, port_lo: u16, port_hi: u16) -> (r: Self)
        requires
            0 < port_lo <= port_hi,
        ensures
            r@.wf(),
            r@ == (NatView {
                wan_ip,
                port_lo,
                port_hi,
                next_port: port_lo,
                fwd: Map::<FwdKey, u16>::empty(),
                rev: Map::<RevKey, Endpoint>::empty(),
            }),
    {
        Nat {
            wan_ip,
            port_lo,
            port_hi,
            next_port: port_lo,
            fwd: Table::new(),
            rev: Table::new(),
        }
    }

    /// Update the WAN address (e.g. when the DHCP lease changes). Existing
    /// mappings keep their ports; only the address they translate to changes.
    pub fn set_wan_ip(&mut self, ip: Ipv4Addr)
        ensures
            final(self)@ == (NatView { wan_ip: ip, ..old(self)@ }),
    {
        self.wan_ip = ip;
    }

    pub fn wan_ip(&self) -> (r: Ipv4Addr)
        ensures
            r == self@.wan_ip,
    {
        self.wan_ip
    }

    /// Number of active bindings.
    pub fn active(&self) -> (r: usize)
        ensures
            r == self@.fwd.len(),
            self@.fwd.dom().finite(),
    {
        self.fwd.len()
    }

    /// Map an outbound flow's source endpoint to the WAN address + an external
    /// port, creating the binding on first sight. `None` if the pool is full.
    pub fn egress(&mut self, l4: L4, src_ip: Ipv4Addr, src_port: u16) -> (r: Option<Egress>)
        requires
            old(self)@.wf(),
        ensures
            r == old(self)@.egress(l4, src_ip, src_port),
            final(self)@ == old(self)@.after_egress(l4, src_ip, src_port),
            final(self)@.wf(),
    {
        proof {
            law_egress_keeps_invariant(self@, l4, src_ip, src_port);
        }
        let proto: u8 = l4.proto();
        let key = FwdKey { proto, ip: src_ip, port: src_port };
        let bound: Option<u16> = match self.fwd.get(&key) {
            Some(e) => Some(*e),
            None => None,
        };
        let ext: u16 = match bound {
            Some(e) => e,
            None => {
                let e: u16 = match self.alloc_port(proto) {
                    Some(e) => e,
                    None => {
                        return None;
                    },
                };
                self.fwd.insert(key, e);
                self.rev.insert(
                    RevKey { proto, port: e },
                    Endpoint { ip: src_ip, port: src_port },
                );
                e
            },
        };
        Some(Egress { new_src_ip: self.wan_ip, new_src_port: ext })
    }

    /// Reverse a return packet's destination (the external port) back to the
    /// internal endpoint, if a binding exists.
    pub fn ingress(&self, l4: L4, ext_port: u16) -> (r: Option<(Ipv4Addr, u16)>)
        ensures
            r == match self@.ingress(l4, ext_port) {
                Some(e) => Some((e.ip, e.port)),
                None => None,
            },
    {
        match self.rev.get(&RevKey { proto: l4.proto(), port: ext_port }) {
            Some(e) => Some((e.ip, e.port)),
            None => None,
        }
    }

    /// Find a free external port for `proto`, scanning circularly from the last
    /// handout. Ports are namespaced per protocol (TCP 40000 is not UDP 40000).
    fn alloc_port(&mut self, proto: u8) -> (r: Option<u16>)
        requires
            old(self)@.wf(),
        ensures
            r == old(self)@.free_port(proto),
            final(self)@ == match r {
                None => old(self)@,
                Some(p) => NatView {
                    next_port: next_in_range(p, old(self)@.port_lo, old(self)@.port_hi),
                    ..old(self)@
                },
            },
    {
        let span: u32 = (self.port_hi - self.port_lo) as u32 + 1;
        let mut cand: u16 = self.next_port;
        let mut tried: u32 = 0;
        while tried < span
            invariant
                self@ == old(self)@,
                self@.wf(),
                span == self@.port_hi - self@.port_lo + 1,
                tried <= span,
                self@.port_lo <= cand <= self@.port_hi,
                self@.free_port(proto) == scan_ports(
                    self@.rev,
                    proto,
                    self@.port_lo,
                    self@.port_hi,
                    cand,
                    (span - tried) as nat,
                ),
            decreases span - tried,
        {
            let port: u16 = cand;
            cand = if port >= self.port_hi {
                self.port_lo
            } else {
                port + 1
            };
            if !self.rev.contains(&RevKey { proto, port }) {
                self.next_port = cand;
                return Some(port);
            }
            tried = tried + 1;
        }
        None
    }
}

/// The same internal endpoint keeps the same external port: asking again gives
/// the same answer and changes nothing.
pub proof fn law_mapping_is_stable(v: NatView, l4: L4, ip: Ipv4Addr, port: u16)
    requires
        v.wf(),
        v.egress(l4, ip, port) is Some,
    ensures
        ({
            let w = v.after_egress(l4, ip, port);
            &&& w.egress(l4, ip, port) == v.egress(l4, ip, port)
            &&& w.after_egress(l4, ip, port) == w
        }),
{
}

/// A binding survives whatever other endpoints are mapped after it.
pub proof fn law_mapping_survives(
    v: NatView,
    l4: L4,
    ip: Ipv4Addr,
    port: u16,
    l4b: L4,
    ipb: Ipv4Addr,
    portb: u16,
)
    requires
        v.wf(),
        v.fwd.dom().contains(FwdKey { proto: l4.spec_proto(), ip, port }),
    ensures
        v.after_egress(l4b, ipb, portb).egress(l4, ip, port) == v.egress(l4, ip, port),
{
}

/// Different internal endpoints never share an external port of the same
/// protocol.
pub proof fn law_mapping_is_unique(v: NatView, a: FwdKey, b: FwdKey)
    requires
        v.wf(),
        v.fwd.dom().contains(a),
        v.fwd.dom().contains(b),
        a.proto == b.proto,
        a != b,
    ensures
        v.fwd[a] != v.fwd[b],
{
    assert(v.rev[RevKey { proto: a.proto, port: v.fwd[a] }] == (Endpoint { ip: a.ip, port: a.port }));
    assert(v.rev[RevKey { proto: b.proto, port: v.fwd[b] }] == (Endpoint { ip: b.ip, port: b.port }));
}

/// What an outbound endpoint is mapped to leads back to it.
pub proof fn law_mapping_is_reversible(v: NatView, l4: L4, ip: Ipv4Addr, port: u16)
    requires
        v.wf(),
    ensures
        v.egress(l4, ip, port) matches Some(e) ==> v.after_egress(l4, ip, port).ingress(
            l4,
            e.new_src_port,
        ) == Some(Endpoint { ip, port }),
{
}

/// The transport header that a frame carries, of a protocol we NAT: the
/// protocol and where the IPv4 packet and the header lie.
pub struct L4Place {
    pub l4: L4,
    pub ip: view::Ipv4Layout,
    pub l4_off: int,
}

/// The transport header that a frame carries, if it is TCP or UDP over IPv4.
pub open spec fn l4_place(s: Seq<u8>) -> Option<L4Place> {
    match view::frame_ipv4(s) {
        None => None,
        Some(ip) => match view::frame_tcp(s) {
            Some(t) => Some(L4Place { l4: L4::Tcp, ip, l4_off: t.start }),
            None => match view::frame_udp(s) {
                Some(u) => Some(L4Place { l4: L4::Udp, ip, l4_off: u.start }),
                None => None,
            },
        },
    }
}

/// The packet is a fragment other than the first one.
pub open spec fn later_fragment(s: Seq<u8>, ip_start: int) -> bool {
    wire::be16(s, ip_start + 6) & 0x1fff != 0
}

/// Offset of the checksum field in the header of a transport protocol.
pub open spec fn cksum_offset(l4: L4) -> int {
    match l4 {
        L4::Tcp => TCP_CKSUM_OFFSET as int,
        L4::Udp => UDP_CKSUM_OFFSET as int,
    }
}

/// The transport checksum after an address and a port of what it covers change.
/// A zero UDP checksum means "disabled" and stays; a computed zero is stored as
/// 0xffff.
pub open spec fn updated_l4_checksum(
    l4: L4,
    checksum: u16,
    old_ip: Seq<u8>,
    new_ip: Seq<u8>,
    old_port: Seq<u8>,
    new_port: Seq<u8>,
) -> u16 {
    let u = checksum::spec_update(
        checksum::spec_update(checksum, old_ip, new_ip),
        old_port,
        new_port,
    );
    if l4 == L4::Udp && checksum == UDP_CKSUM_DISABLED {
        checksum
    } else if l4 == L4::Udp && u == UDP_CKSUM_DISABLED {
        0xffff
    } else {
        u
    }
}

/// The frame with the address at `ip_field` and the port at `port_field` set,
/// and the IP header checksum and the transport checksum updated for it.
pub open spec fn rewritten(
    s: Seq<u8>,
    at: L4Place,
    ip_field: int,
    port_field: int,
    new_ip: Ipv4Addr,
    new_port: u16,
) -> Seq<u8> {
    let old_ip = s.subrange(ip_field, ip_field + 4);
    let old_port = s.subrange(port_field, port_field + 2);
    let ipb = wire::bytes32(new_ip.bits);
    let portb = wire::bytes16(new_port);
    let ipc_off = at.ip.start + IP_CKSUM_OFFSET;
    let l4c_off = at.l4_off + cksum_offset(at.l4);
    let ipc = checksum::spec_update(wire::be16(s, ipc_off), old_ip, ipb);
    let l4c = updated_l4_checksum(
        at.l4,
        wire::be16(s, l4c_off),
        old_ip,
        ipb,
        old_port,
        portb,
    );
    wire::splice(
        wire::splice(
            wire::splice(
                wire::splice(s, ip_field, ipb),
                ipc_off,
                wire::bytes16(ipc),
            ),
            port_field,
            portb,
        ),
        l4c_off,
        wire::bytes16(l4c),
    )
}

/// The source endpoint of the transport header.
pub open spec fn src_endpoint(s: Seq<u8>, at: L4Place) -> Endpoint {
    Endpoint {
        ip: Ipv4Addr { bits: wire::be32(s, at.ip.start + IP_SRC_OFFSET) },
        port: wire::be16(s, at.l4_off + L4_SRC_PORT_OFFSET),
    }
}

/// The destination endpoint of the transport header.
pub open spec fn dst_endpoint(s: Seq<u8>, at: L4Place) -> Endpoint {
    Endpoint {
        ip: Ipv4Addr { bits: wire::be32(s, at.ip.start + IP_DST_OFFSET) },
        port: wire::be16(s, at.l4_off + L4_DST_PORT_OFFSET),
    }
}

/// The frame with its source endpoint set to `to`.
pub open spec fn with_source(s: Seq<u8>, at: L4Place, to: Endpoint) -> Seq<u8> {
    rewritten(
        s,
        at,
        at.ip.start + IP_SRC_OFFSET,
        at.l4_off + L4_SRC_PORT_OFFSET,
        to.ip,
        to.port,
    )
}

/// The frame with its destination endpoint set to `to`.
pub open spec fn with_destination(s: Seq<u8>, at: L4Place, to: Endpoint) -> Seq<u8> {
    rewritten(
        s,
        at,
        at.ip.start + IP_DST_OFFSET,
        at.l4_off + L4_DST_PORT_OFFSET,
        to.ip,
        to.port,
    )
}

/// The frame can be source-translated: TCP or UDP over IPv4, and not a fragment
/// other than the first one.
pub open spec fn egress_place(s: Seq<u8>) -> Option<L4Place> {
    match l4_place(s) {
        Some(at) => if later_fragment(s, at.ip.start) {
            None
        } else {
            Some(at)
        },
        None => None,
    }
}

/// What source translation makes of a frame, with its result.
pub open spec fn egress_result(s: Seq<u8>, v: NatView) -> Option<Egress> {
    match egress_place(s) {
        Some(at) => {
            let src = src_endpoint(s, at);
            v.egress(at.l4, src.ip, src.port)
        },
        None => None,
    }
}

/// The frame after source translation.
pub open spec fn egress_frame(s: Seq<u8>, v: NatView) -> Seq<u8> {
    match (egress_place(s), egress_result(s, v)) {
        (Some(at), Some(e)) => with_source(
            s,
            at,
            Endpoint { ip: e.new_src_ip, port: e.new_src_port },
        ),
        _ => s,
    }
}

/// The table after source translation of a frame.
pub open spec fn egress_table(s: Seq<u8>, v: NatView) -> NatView {
    match egress_place(s) {
        Some(at) => {
            let src = src_endpoint(s, at);
            v.after_egress(at.l4, src.ip, src.port)
        },
        None => v,
    }
}

/// The internal endpoint that a frame's destination translates to.
pub open spec fn ingress_result(s: Seq<u8>, v: NatView) -> Option<Endpoint> {
    match l4_place(s) {
        Some(at) => v.ingress(at.l4, dst_endpoint(s, at).port),
        None => None,
    }
}

/// The frame after destination translation.
pub open spec fn ingress_frame(s: Seq<u8>, v: NatView) -> Seq<u8> {
    match (l4_place(s), ingress_result(s, v)) {
        (Some(at), Some(e)) => with_destination(s, at, e),
        _ => s,
    }
}

/// Where the transport header of a frame lies, as offsets.
struct Place {
    l4: L4,
    ip_off: usize,
    l4_off: usize,
}

/// Find the transport header of a frame.
fn classify(frame: &[u8]) -> (r: Option<Place>)
    ensures
        match r {
            None => l4_place(frame@) is None,
            Some(p) => l4_place(frame@) matches Some(at) && at.l4 == p.l4 && at.ip.start == p.ip_off
                && at.l4_off == p.l4_off,
        },
{
    let eth = match view::parse(frame) {
        Some(eth) => eth,
        None => {
            return None;
        },
    };
    let ip = match eth.ipv4() {
        Some(ip) => ip,
        None => {
            return None;
        },
    };
    let l4 = match L4::from_proto(ip.protocol()) {
        Some(l4) => l4,
        None => {
            return None;
        },
    };
    let l4_off: usize = match l4 {
        L4::Tcp => match ip.tcp() {
            Some(t) => t.header_offset(),
            None => {
                return None;
            },
        },
        L4::Udp => match ip.udp() {
            Some(u) => u.header_offset(),
            None => {
                return None;
            },
        },
    };
    Some(Place { l4, ip_off: ip.header_offset(), l4_off })
}

/// The 16-bit number at `off`.
fn read16(frame: &[u8], off: usize) -> (r: u16)
    requires
        off + 2 <= frame@.len(),
    ensures
        r == wire::be16(frame@, off as int),
{
    assert(frame.len() == frame@.len());
    U16Be { hi: frame[off], lo: frame[off + 1] }.get()
}

/// Set the 16-bit number at `off`.
fn write16(frame: &mut [u8], off: usize, v: u16)
    requires
        off + 2 <= old(frame)@.len(),
    ensures
        final(frame)@ == wire::splice(old(frame)@, off as int, wire::bytes16(v)),
{
    let be = U16Be::new(v);
    let bytes = [be.hi, be.lo];
    assert(bytes@ =~= wire::bytes16(v));
    wire::store_at(frame, off, &bytes);
}

/// The address at `off`.
fn read_addr(frame: &[u8], off: usize) -> (r: Ipv4Addr)
    requires
        off + 4 <= frame@.len(),
    ensures
        r.bits == wire::be32(frame@, off as int),
{
    assert(frame.len() == frame@.len());
    Ipv4Addr::new(frame[off], frame[off + 1], frame[off + 2], frame[off + 3])
}

/// Overwrite one IPv4 address field and one L4 port (both absolute offsets into
/// `frame`), then fix the IP header checksum and the L4 checksum incrementally.
/// Egress passes the source offsets, ingress the destination offsets: the
/// checksum maths is identical either way.
fn apply_rewrite(
    frame: &mut [u8],
    place: &Place,
    ip_field: usize,
    port_field: usize,
    new_ip: Ipv4Addr,
    new_port: u16,
    Ghost(at): Ghost<L4Place>,
)
    requires
        l4_place(old(frame)@) == Some(at),
        at.l4 == place.l4,
        at.ip.start == place.ip_off,
        at.l4_off == place.l4_off,
        ip_field == place.ip_off + IP_SRC_OFFSET && port_field == place.l4_off + L4_SRC_PORT_OFFSET
            || ip_field == place.ip_off + IP_DST_OFFSET && port_field == place.l4_off
            + L4_DST_PORT_OFFSET,
    ensures
        final(frame)@ == rewritten(
            old(frame)@,
            at,
            ip_field as int,
            port_field as int,
            new_ip,
            new_port,
        ),
{
    let ghost s = frame@;
    assert(frame.len() == frame@.len());
    let old_ip: [u8; 4] = wire::array_at::<4>(frame, ip_field);
    let old_port: [u8; 2] = wire::array_at::<2>(frame, port_field);
    let new_ip_b: [u8; 4] = new_ip.octets();
    let be = U16Be::new(new_port);
    let new_port_b = [be.hi, be.lo];
    assert(new_ip_b@ =~= wire::bytes32(new_ip.bits));
    assert(new_port_b@ =~= wire::bytes16(new_port));
    let ipc_off: usize = place.ip_off + IP_CKSUM_OFFSET;
    let l4c_off: usize = match place.l4 {
        L4::Tcp => place.l4_off + TCP_CKSUM_OFFSET,
        L4::Udp => place.l4_off + UDP_CKSUM_OFFSET,
    };

    // IP address field + IP header checksum.
    wire::store_at(frame, ip_field, &new_ip_b);
    let ipc: u16 = read16(frame, ipc_off);
    assert(ipc == wire::be16(s, ipc_off as int));
    write16(frame, ipc_off, checksum::update(ipc, &old_ip, &new_ip_b));

    // L4 port.
    wire::store_at(frame, port_field, &new_port_b);

    // L4 checksum (covers the IP pseudo-header + the port). A zero UDP checksum
    // means "disabled": leave it; a computed zero is stored as 0xFFFF.
    let l4c: u16 = read16(frame, l4c_off);
    assert(l4c == wire::be16(s, l4c_off as int));
    let is_udp: bool = match place.l4 {
        L4::Tcp => false,
        L4::Udp => true,
    };
    if !(is_udp && l4c == UDP_CKSUM_DISABLED) {
        let mut updated: u16 = checksum::update(l4c, &old_ip, &new_ip_b);
        updated = checksum::update(updated, &old_port, &new_port_b);
        if is_udp && updated == UDP_CKSUM_DISABLED {
            updated = 0xffff;
        }
        write16(frame, l4c_off, updated);
    } else {
        assert(frame@ =~= wire::splice(frame@, l4c_off as int, wire::bytes16(l4c)));
    }
}

/// Apply source NAT to an egress IPv4 TCP/UDP packet in `frame`, in place.
///
/// Returns the rewrite that was applied, or `None` if the packet isn't IPv4
/// TCP/UDP (e.g. ARP, ICMP, a non-initial fragment) or the pool is exhausted.
/// IP and L4 checksums are fixed up incrementally (RFC 1624) rather than
/// recomputed.
pub fn translate_egress(frame: &mut [u8], table: &mut Nat) -> (r: Option<Egress>)
    requires
        old(table)@.wf(),
    ensures
        r == egress_result(old(frame)@, old(table)@),
        final(frame)@ == egress_frame(old(frame)@, old(table)@),
        final(table)@ == egress_table(old(frame)@, old(table)@),
        final(table)@.wf(),
{
    // Phase 1: classify, capturing offsets + fields.
    let place = match classify(frame) {
        Some(place) => place,
        None => {
            return None;
        },
    };
    let ghost at = l4_place(frame@)->0;
    assert(frame.len() == frame@.len());
    if read16(frame, place.ip_off + 6) & 0x1fff != 0 {
        return None;
    }
    let src_ip = read_addr(frame, place.ip_off + IP_SRC_OFFSET);
    let src_port: u16 = read16(frame, place.l4_off + L4_SRC_PORT_OFFSET);

    // Phase 2: NAT decision.
    let xlate = match table.egress(place.l4, src_ip, src_port) {
        Some(xlate) => xlate,
        None => {
            return None;
        },
    };

    // Phase 3: rewrite the source IP + port and fix checksums in place.
    apply_rewrite(
        frame,
        &place,
        place.ip_off + IP_SRC_OFFSET,
        place.l4_off + L4_SRC_PORT_OFFSET,
        xlate.new_src_ip,
        xlate.new_src_port,
        Ghost(at),
    );
    Some(xlate)
}

/// Reverse source NAT for an inbound IPv4 TCP/UDP packet addressed to the WAN
/// address: rewrite the *destination* back to the internal endpoint that owns
/// the external (destination) port, fixing checksums in place.
///
/// Returns the internal endpoint (so the caller can pick the LAN egress port
/// and next-hop MAC), or `None` if no binding matches (drop it). Ingress never
/// creates state.
pub fn translate_ingress(frame: &mut [u8], table: &Nat) -> (r: Option<Ingress>)
    ensures
        r == match ingress_result(old(frame)@, table@) {
            Some(e) => Some(Ingress { dst_ip: e.ip, dst_port: e.port }),
            None => None,
        },
        final(frame)@ == ingress_frame(old(frame)@, table@),
{
    // Phase 1: classify, capturing the destination (= our external) endpoint.
    let place = match classify(frame) {
        Some(place) => place,
        None => {
            return None;
        },
    };
    let ghost at = l4_place(frame@)->0;
    assert(frame.len() == frame@.len());
    let dst_port: u16 = read16(frame, place.l4_off + L4_DST_PORT_OFFSET);

    // Phase 2: reverse lookup by external port.
    let (new_ip, new_port) = match table.ingress(place.l4, dst_port) {
        Some(e) => e,
        None => {
            return None;
        },
    };

    // Phase 3: rewrite the destination IP + port and fix checksums in place.
    apply_rewrite(
        frame,
        &place,
        place.ip_off + IP_DST_OFFSET,
        place.l4_off + L4_DST_PORT_OFFSET,
        new_ip,
        new_port,
        Ghost(at),
    );
    Some(Ingress { dst_ip: new_ip, dst_port: new_port })
}

/// The fields of the source or of the destination endpoint.
pub open spec fn endpoint_fields(at: L4Place, ip_field: int, port_field: int) -> bool {
    ||| ip_field == at.ip.start + IP_SRC_OFFSET && port_field == at.l4_off + L4_SRC_PORT_OFFSET
    ||| ip_field == at.ip.start + IP_DST_OFFSET && port_field == at.l4_off + L4_DST_PORT_OFFSET
}

/// Translation changes the address, the port and the two checksums, and nothing
/// else: the frame still carries the same packet, laid out in the same way.
pub proof fn law_translation_keeps_layout(
    s: Seq<u8>,
    at: L4Place,
    ip_field: int,
    port_field: int,
    new_ip: Ipv4Addr,
    new_port: u16,
)
    requires
        l4_place(s) == Some(at),
        endpoint_fields(at, ip_field, port_field),
    ensures
        ({
            let t = rewritten(s, at, ip_field, port_field, new_ip, new_port);
            &&& t.len() == s.len()
            &&& l4_place(t) == Some(at)
            &&& forall|i: int|
                0 <= i < s.len() && !(ip_field <= i < ip_field + 4) && !(port_field <= i < port_field
                    + 2) && !(at.ip.start + IP_CKSUM_OFFSET <= i < at.ip.start + IP_CKSUM_OFFSET
                    + 2) && !(at.l4_off + cksum_offset(at.l4) <= i < at.l4_off + cksum_offset(at.l4)
                    + 2) ==> #[trigger] t[i] == s[i]
            &&& wire::be32(t, ip_field) == new_ip.bits
            &&& wire::be16(t, port_field) == new_port
        }),
{
    let t = rewritten(s, at, ip_field, port_field, new_ip, new_port);
    let eth = view::ethernet_layout(s, 0)->0;
    assert(t[12] == s[12] && t[13] == s[13]);
    assert(eth.l3_start == 18 ==> t[16] == s[16] && t[17] == s[17]);
    assert(t[at.ip.start] == s[at.ip.start]);
    assert(t[at.ip.start + 2] == s[at.ip.start + 2]);
    assert(t[at.ip.start + 3] == s[at.ip.start + 3]);
    assert(t[at.ip.start + 9] == s[at.ip.start + 9]);
    assert(view::frame_ipv4(t) == view::frame_ipv4(s));
    if at.l4 == L4::Tcp {
        assert(t[at.l4_off + 12] == s[at.l4_off + 12]);
    } else {
        assert(t[at.l4_off + 4] == s[at.l4_off + 4]);
        assert(t[at.l4_off + 5] == s[at.l4_off + 5]);
    }
    wire::lemma_be32_value(new_ip.bits);
    assert(t[ip_field] == wire::bytes32(new_ip.bits)[0]);
    assert(t[ip_field + 1] == wire::bytes32(new_ip.bits)[1]);
    assert(t[ip_field + 2] == wire::bytes32(new_ip.bits)[2]);
    assert(t[ip_field + 3] == wire::bytes32(new_ip.bits)[3]);
    assert(t[port_field] == wire::bytes16(new_port)[0]);
    assert(t[port_field + 1] == wire::bytes16(new_port)[1]);
}

/// An updated checksum differs from the old one by what its words lost.
proof fn lemma_update_congruent(c: u16, old_words: Seq<u8>, new_words: Seq<u8>)
    requires
        old_words.len() == new_words.len(),
        old_words.len() <= 0x1000,
    ensures
        (checksum::spec_update(c, old_words, new_words) - c - checksum::word_sum(old_words)
            + checksum::word_sum(new_words)) % 0xffff == 0,
{
    checksum::lemma_word_sum_bound(old_words);
    checksum::lemma_word_sum_bound(new_words);
    checksum::lemma_inverse_word_sum(old_words);
    let k = ((old_words.len() + 1) / 2) as int;
    let u = checksum::update_sum(c, old_words, new_words);
    let r = checksum::spec_update(c, old_words, new_words) as int;
    let lost = checksum::word_sum(old_words) as int;
    let gained = checksum::word_sum(new_words) as int;
    assert(u == 0xffff - c + 0xffff * k - lost + gained);
    let q = checksum::lemma_folded_offset(u);
    assert(r == 0xffff - checksum::folded(u));
    assert(r - c - lost + gained == 0xffff * (q - k));
    checksum::lemma_same_residue(r - c - lost + gained, 0, q - k);
}

/// Sums that differ by a multiple of 0xffff verify alike, if they are positive.
proof fn lemma_verifies_alike(n: int, m: int)
    requires
        0 < n,
        0 < m,
        (n - m) % 0xffff == 0,
        checksum::verifies(m),
    ensures
        checksum::verifies(n),
{
    checksum::lemma_verifies(n);
    checksum::lemma_verifies(m);
}

/// The IPv4 header of the packet, options included.
pub open spec fn ip_header(s: Seq<u8>, at: L4Place) -> Seq<u8> {
    s.subrange(at.ip.start, at.ip.l4_start)
}

/// Two runs of whole words of `h` replaced: how the sum changes.
proof fn lemma_two_splices(h: Seq<u8>, a: int, ab: Seq<u8>, b: int, bb: Seq<u8>)
    requires
        0 <= a,
        0 <= b,
        a % 2 == 0,
        b % 2 == 0,
        ab.len() % 2 == 0,
        bb.len() == 2,
        a + ab.len() <= h.len(),
        b + 2 <= h.len(),
        a + ab.len() <= b || b + 2 <= a,
    ensures
        checksum::word_sum(wire::splice(wire::splice(h, a, ab), b, bb)) == checksum::word_sum(h)
            - checksum::word_sum(h.subrange(a, a + ab.len())) + checksum::word_sum(ab) - wire::be16(
            h,
            b,
        ) + wire::be16(bb, 0),
{
    let h1 = wire::splice(h, a, ab);
    checksum::lemma_word_sum_splice(h, a, ab);
    checksum::lemma_word_sum_splice(h1, b, bb);
    assert(h1.subrange(b, b + 2) =~= h.subrange(b, b + 2));
    checksum::lemma_word_sum_two(h.subrange(b, b + 2));
    checksum::lemma_word_sum_two(bb);
}

/// The IPv4 header after translation.
proof fn lemma_header_after(
    s: Seq<u8>,
    at: L4Place,
    ip_field: int,
    port_field: int,
    new_ip: Ipv4Addr,
    new_port: u16,
)
    requires
        l4_place(s) == Some(at),
        endpoint_fields(at, ip_field, port_field),
    ensures
        ({
            let c = wire::be16(s, at.ip.start + IP_CKSUM_OFFSET);
            let r = checksum::spec_update(
                c,
                s.subrange(ip_field, ip_field + 4),
                wire::bytes32(new_ip.bits),
            );
            ip_header(rewritten(s, at, ip_field, port_field, new_ip, new_port), at) == wire::splice(
                wire::splice(
                    ip_header(s, at),
                    ip_field - at.ip.start,
                    wire::bytes32(new_ip.bits),
                ),
                10,
                wire::bytes16(r),
            )
        }),
{
    let c = wire::be16(s, at.ip.start + IP_CKSUM_OFFSET);
    let ipb = wire::bytes32(new_ip.bits);
    let r = checksum::spec_update(c, s.subrange(ip_field, ip_field + 4), ipb);
    let t = rewritten(s, at, ip_field, port_field, new_ip, new_port);
    let want = wire::splice(
        wire::splice(ip_header(s, at), ip_field - at.ip.start, ipb),
        10,
        wire::bytes16(r),
    );
    assert forall|i: int| 0 <= i < at.ip.l4_start - at.ip.start implies #[trigger] ip_header(
        t,
        at,
    )[i] == want[i] by {
        assert(t[at.ip.start + i] == ip_header(t, at)[i]);
    }
    assert(ip_header(t, at) =~= want);
}

/// A valid IPv4 header checksum is still valid after translation.
#[verifier::spinoff_prover]
#[verifier::rlimit(60)]
pub proof fn law_ip_checksum_still_verifies(
    s: Seq<u8>,
    at: L4Place,
    ip_field: int,
    port_field: int,
    new_ip: Ipv4Addr,
    new_port: u16,
)
    requires
        l4_place(s) == Some(at),
        endpoint_fields(at, ip_field, port_field),
        checksum::spec_checksum(ip_header(s, at)) == 0,
    ensures
        checksum::spec_checksum(
            ip_header(rewritten(s, at, ip_field, port_field, new_ip, new_port), at),
        ) == 0,
{
    let g = ip_header(rewritten(s, at, ip_field, port_field, new_ip, new_port), at);
    let h = ip_header(s, at);
    let ipb = wire::bytes32(new_ip.bits);
    let rel = ip_field - at.ip.start;
    let old_ip = s.subrange(ip_field, ip_field + 4);
    let c = wire::be16(s, at.ip.start + IP_CKSUM_OFFSET);
    let r = checksum::spec_update(c, old_ip, ipb);
    lemma_header_after(s, at, ip_field, port_field, new_ip, new_port);
    lemma_two_splices(h, rel, ipb, 10, wire::bytes16(r));
    assert(h.subrange(rel, rel + 4) =~= old_ip);
    assert(wire::be16(h, 10) == c);
    lemma_update_congruent(c, old_ip, ipb);
    checksum::lemma_word_sum_bound(h);
    checksum::lemma_word_sum_bound(g);
    lemma_first_word(h);
    lemma_first_word(g);
    assert(g[0] == h[0] && h[0] == s[at.ip.start]);
    assert(h.len() <= 60);
    lemma_verifies_alike(checksum::word_sum(g) as int, checksum::word_sum(h) as int);
}

/// A sum is at least its first word.
proof fn lemma_first_word(s: Seq<u8>)
    requires
        s.len() >= 2,
    ensures
        checksum::word_sum(s) >= s[0] * 0x100,
{
}

/// Everything the transport checksum of a frame covers, summed: the pseudo-header
/// and the segment, which ends at `end`.
pub open spec fn l4_sum(s: Seq<u8>, at: L4Place, end: int) -> int {
    checksum::word_sum(s.subrange(at.ip.start + 12, at.ip.start + 16)) + checksum::word_sum(
        s.subrange(at.ip.start + 16, at.ip.start + 20),
    ) + at.l4.spec_proto() + (end - at.l4_off) + checksum::word_sum(s.subrange(at.l4_off, end))
}

/// The segment after translation.
proof fn lemma_segment_after(
    s: Seq<u8>,
    at: L4Place,
    ip_field: int,
    port_field: int,
    new_ip: Ipv4Addr,
    new_port: u16,
    end: int,
)
    requires
        l4_place(s) == Some(at),
        endpoint_fields(at, ip_field, port_field),
        at.l4_off + cksum_offset(at.l4) + 2 <= end <= s.len(),
    ensures
        ({
            let t = rewritten(s, at, ip_field, port_field, new_ip, new_port);
            let l4c = updated_l4_checksum(
                at.l4,
                wire::be16(s, at.l4_off + cksum_offset(at.l4)),
                s.subrange(ip_field, ip_field + 4),
                wire::bytes32(new_ip.bits),
                s.subrange(port_field, port_field + 2),
                wire::bytes16(new_port),
            );
            &&& t.subrange(at.l4_off, end) == wire::splice(
                wire::splice(
                    s.subrange(at.l4_off, end),
                    port_field - at.l4_off,
                    wire::bytes16(new_port),
                ),
                cksum_offset(at.l4),
                wire::bytes16(l4c),
            )
            &&& wire::be16(t, at.l4_off + cksum_offset(at.l4)) == l4c
        }),
{
    let t = rewritten(s, at, ip_field, port_field, new_ip, new_port);
    let c_off = at.l4_off + cksum_offset(at.l4);
    let portb = wire::bytes16(new_port);
    let l4c = updated_l4_checksum(
        at.l4,
        wire::be16(s, c_off),
        s.subrange(ip_field, ip_field + 4),
        wire::bytes32(new_ip.bits),
        s.subrange(port_field, port_field + 2),
        portb,
    );
    let want = wire::splice(
        wire::splice(s.subrange(at.l4_off, end), port_field - at.l4_off, portb),
        cksum_offset(at.l4),
        wire::bytes16(l4c),
    );
    let got = t.subrange(at.l4_off, end);
    assert forall|i: int| 0 <= i < end - at.l4_off implies #[trigger] got[i] == want[i] by {
        assert(t[at.l4_off + i] == got[i]);
    }
    assert(got =~= want);
    assert(t[c_off] == wire::bytes16(l4c)[0] && t[c_off + 1] == wire::bytes16(l4c)[1]);
}

/// The addresses of the pseudo-header after translation.
proof fn lemma_addresses_after(
    s: Seq<u8>,
    at: L4Place,
    ip_field: int,
    port_field: int,
    new_ip: Ipv4Addr,
    new_port: u16,
)
    requires
        l4_place(s) == Some(at),
        endpoint_fields(at, ip_field, port_field),
    ensures
        ({
            let t = rewritten(s, at, ip_field, port_field, new_ip, new_port);
            let a = at.ip.start + 12;
            checksum::word_sum(t.subrange(a, a + 4)) + checksum::word_sum(t.subrange(a + 4, a + 8))
                == checksum::word_sum(s.subrange(a, a + 4)) + checksum::word_sum(
                s.subrange(a + 4, a + 8),
            ) - checksum::word_sum(s.subrange(ip_field, ip_field + 4)) + checksum::word_sum(
                wire::bytes32(new_ip.bits),
            )
        }),
{
    let t = rewritten(s, at, ip_field, port_field, new_ip, new_port);
    let a = at.ip.start + 12;
    assert(t.subrange(ip_field, ip_field + 4) =~= wire::bytes32(new_ip.bits));
    if ip_field == a {
        assert(t.subrange(a + 4, a + 8) =~= s.subrange(a + 4, a + 8));
    } else {
        assert(t.subrange(a, a + 4) =~= s.subrange(a, a + 4));
    }
}

/// A valid TCP or UDP checksum is still valid after translation, and one that
/// is disabled stays disabled.
pub proof fn law_l4_checksum_still_verifies(
    s: Seq<u8>,
    at: L4Place,
    ip_field: int,
    port_field: int,
    new_ip: Ipv4Addr,
    new_port: u16,
    end: int,
)
    requires
        l4_place(s) == Some(at),
        endpoint_fields(at, ip_field, port_field),
        at.l4_off + cksum_offset(at.l4) + 2 <= end <= s.len(),
    ensures
        ({
            let t = rewritten(s, at, ip_field, port_field, new_ip, new_port);
            let c = wire::be16(s, at.l4_off + cksum_offset(at.l4));
            if at.l4 == L4::Udp && c == UDP_CKSUM_DISABLED {
                wire::be16(t, at.l4_off + cksum_offset(at.l4)) == UDP_CKSUM_DISABLED
            } else {
                checksum::verifies(l4_sum(s, at, end)) ==> checksum::verifies(l4_sum(t, at, end))
            }
        }),
{
    let t = rewritten(s, at, ip_field, port_field, new_ip, new_port);
    let ck = cksum_offset(at.l4);
    let c = wire::be16(s, at.l4_off + ck);
    let ipb = wire::bytes32(new_ip.bits);
    let portb = wire::bytes16(new_port);
    let old_ip = s.subrange(ip_field, ip_field + 4);
    let old_port = s.subrange(port_field, port_field + 2);
    let l4c = updated_l4_checksum(at.l4, c, old_ip, ipb, old_port, portb);
    lemma_segment_after(s, at, ip_field, port_field, new_ip, new_port, end);
    if !(at.l4 == L4::Udp && c == UDP_CKSUM_DISABLED) && checksum::verifies(l4_sum(s, at, end)) {
        let u1 = checksum::spec_update(c, old_ip, ipb);
        let u2 = checksum::spec_update(u1, old_port, portb);
        let seg = s.subrange(at.l4_off, end);
        let rel = port_field - at.l4_off;
        lemma_update_congruent(c, old_ip, ipb);
        lemma_update_congruent(u1, old_port, portb);
        lemma_addresses_after(s, at, ip_field, port_field, new_ip, new_port);
        lemma_two_splices(seg, rel, portb, ck, wire::bytes16(l4c));
        assert(seg.subrange(rel, rel + 2) =~= old_port);
        assert(wire::be16(seg, ck) == c);
        assert(wire::be16(wire::bytes16(l4c), 0) == l4c);
        let n = l4_sum(t, at, end);
        let m = l4_sum(s, at, end);
        let d1 = u1 - c - checksum::word_sum(old_ip) + checksum::word_sum(ipb);
        let d2 = u2 - u1 - checksum::word_sum(old_port) + checksum::word_sum(portb);
        assert(n - m == d1 + d2 + (l4c - u2));
        lemma_three_multiples(d1, d2, l4c - u2);
        lemma_verifies_alike(n, m);
    }
}

/// Multiples of 0xffff add up to one.
proof fn lemma_three_multiples(a: int, b: int, c: int)
    requires
        a % 0xffff == 0,
        b % 0xffff == 0,
        c % 0xffff == 0,
    ensures
        (a + b + c) % 0xffff == 0,
{
}

/// Return traffic finds its way back: once a frame has been source-translated,
/// any frame of the same protocol that is sent to the external port it was
/// given translates to the internal endpoint it came from.
pub proof fn law_egress_then_ingress(s: Seq<u8>, v: NatView, back: Seq<u8>, out: L4Place, at: L4Place)
    requires
        v.wf(),
        egress_place(s) == Some(out),
        egress_result(s, v) is Some,
        l4_place(back) == Some(at),
        at.l4 == out.l4,
        dst_endpoint(back, at).port == egress_result(s, v)->0.new_src_port,
    ensures
        ({
            let w = egress_table(s, v);
            let src = src_endpoint(s, out);
            &&& ingress_result(back, w) == Some(src)
            &&& l4_place(ingress_frame(back, w)) == Some(at)
            &&& dst_endpoint(ingress_frame(back, w), at) == src
        }),
{
    let src = src_endpoint(s, out);
    let w = egress_table(s, v);
    law_mapping_is_reversible(v, out.l4, src.ip, src.port);
    law_translation_keeps_layout(
        back,
        at,
        at.ip.start + IP_DST_OFFSET,
        at.l4_off + L4_DST_PORT_OFFSET,
        src.ip,
        src.port,
    );
}

/// A packet that is neither TCP nor UDP over IPv4 is left alone by both
/// translations, and so is the table.
pub proof fn law_other_packets_are_ignored(s: Seq<u8>, v: NatView)
    requires
        l4_place(s) is None,
    ensures
        egress_result(s, v) is None,
        egress_frame(s, v) == s,
        egress_table(s, v) == v,
        ingress_result(s, v) is None,
        ingress_frame(s, v) == s,
{
}

/// A TCP segment or UDP datagram stands at `l4` of a frame.
pub open spec fn l4_at(s: Seq<u8>, which: L4, l3: int, l4: int, end: int) -> bool {
    match which {
        L4::Tcp => anatomy::tcp_at(s, l3, l4, end),
        L4::Udp => anatomy::udp_at(s, l3, l4, end),
    }
}

/// The protocol number that stands for TCP, and for UDP, in an IPv4 header.
pub open spec fn assigned_number(which: L4) -> u8 {
    match which {
        L4::Tcp => 6,
        L4::Udp => 17,
    }
}

/// TCP and UDP over IPv4 are what translation works on, wherever the headers
/// end: with or without a VLAN tag, IP options or TCP options. A frame counts
/// as a later fragment by its fragment offset alone, whatever its flags are.
pub proof fn law_what_is_translated(s: Seq<u8>, which: L4, l3: int, l4: int, end: int)
    ensures
        l4_at(s, which, l3, l4, end) <==> l4_place(s) == Some(
            L4Place {
                l4: which,
                ip: view::Ipv4Layout { start: l3, l4_start: l4, end },
                l4_off: l4,
            },
        ),
        l4_at(s, which, l3, l4, end) ==> (egress_place(s) == l4_place(s) <==> anatomy::num16(
            s,
            l3 + 6,
        ) % 8192 == 0),
        l4_at(s, which, l3, l4, end) && anatomy::num16(s, l3 + 6) % 8192 != 0 ==> egress_place(
            s,
        ) is None,
{
    anatomy::law_packets_are_found(s, l3, l4, end);
    anatomy::law_network_order(s, l3 + 6, 0, 0);
    let w = wire::be16(s, l3 + 6);
    assert((w & 0x1fff != 0) == (w % 8192 != 0)) by (bit_vector);
    if let Some(at) = l4_place(s) {
        anatomy::law_packets_are_found(s, at.ip.start, at.ip.l4_start, at.ip.end);
    }
}

/// Source translation answers for every TCP segment and UDP datagram that is
/// not a later fragment: its source is given the WAN address and the port it is
/// bound to, or else one that is free. It is refused only if it is not bound and
/// every port of the range is bound for its protocol. The table remembers the
/// binding both ways and keeps all others, and the search for the next free port
/// goes on behind the one that was given, from the start again after the last.
pub proof fn law_egress_answers(
    s: Seq<u8>,
    v: NatView,
    which: L4,
    l3: int,
    l4: int,
    end: int,
    other: FwdKey,
    there: RevKey,
)
    requires
        v.wf(),
        l4_at(s, which, l3, l4, end),
        anatomy::num16(s, l3 + 6) % 8192 == 0,
    ensures
        ({
            let proto = assigned_number(which);
            let src = Endpoint {
                ip: Ipv4Addr { bits: anatomy::num32(s, l3 + 12) as u32 },
                port: anatomy::num16(s, l4) as u16,
            };
            let key = FwdKey { proto, ip: src.ip, port: src.port };
            let w = egress_table(s, v);
            let full = forall|p: u16|
                v.port_lo <= p <= v.port_hi ==> #[trigger] v.rev.dom().contains(
                    RevKey { proto, port: p },
                );
            &&& egress_result(s, v) == v.egress(which, src.ip, src.port)
            &&& egress_result(s, v) is None <==> !v.fwd.dom().contains(key) && full
            &&& egress_result(s, v) is None ==> w == v
            &&& egress_result(s, v) matches Some(e) ==> {
                let back = RevKey { proto, port: e.new_src_port };
                &&& e.new_src_ip == v.wan_ip
                &&& v.port_lo <= e.new_src_port <= v.port_hi
                &&& v.fwd.dom().contains(key) ==> e.new_src_port == v.fwd[key] && w == v
                &&& !v.fwd.dom().contains(key) ==> !v.rev.dom().contains(back)
                &&& !v.fwd.dom().contains(key) ==> w.next_port == if e.new_src_port == v.port_hi {
                    v.port_lo as int
                } else {
                    e.new_src_port + 1
                }
                &&& w.fwd.get(key) == Some(e.new_src_port)
                &&& w.rev.get(back) == Some(src)
                &&& other != key ==> w.fwd.get(other) == v.fwd.get(other)
                &&& there != back ==> w.rev.get(there) == v.rev.get(there)
            }
            &&& w.wan_ip == v.wan_ip && w.port_lo == v.port_lo && w.port_hi == v.port_hi
            &&& w.wf()
        }),
{
    law_what_is_translated(s, which, l3, l4, end);
    anatomy::law_network_order(s, l3 + 12, 0, 0);
    anatomy::law_network_order(s, l4, 0, 0);
    assert(assigned_number(which) == which.spec_proto());
    let src = src_endpoint(s, l4_place(s)->0);
    law_free_port_is_found(v, which, src.ip, src.port);
    law_egress_keeps_invariant(v, which, src.ip, src.port);
}

/// What source translation makes of the bytes of a frame: the source address and
/// port become those that were given, the two checksums follow, and everything
/// else, the destination above all, is as it was.
pub proof fn law_egress_rewrites_the_source(
    s: Seq<u8>,
    v: NatView,
    which: L4,
    l3: int,
    l4: int,
    end: int,
)
    requires
        l4_at(s, which, l3, l4, end),
    ensures
        ({
            let t = egress_frame(s, v);
            let ck = if which == L4::Tcp {
                l4 + 16
            } else {
                l4 + 6
            };
            match egress_result(s, v) {
                Some(e) => anatomy::readdressed(
                    s,
                    t,
                    which == L4::Udp,
                    l3,
                    l3 + 12,
                    l4,
                    ck,
                    e.new_src_ip,
                    e.new_src_port,
                ) && l4_at(t, which, l3, l4, end),
                None => t == s,
            }
        }),
{
    law_what_is_translated(s, which, l3, l4, end);
    let at = l4_place(s)->0;
    if let Some(e) = egress_result(s, v) {
        lemma_rewritten_bytes(s, at, l3 + 12, l4, e.new_src_ip, e.new_src_port);
        law_translation_keeps_layout(s, at, l3 + 12, l4, e.new_src_ip, e.new_src_port);
        law_what_is_translated(egress_frame(s, v), which, l3, l4, end);
    }
}

/// What destination translation makes of a frame: one whose destination port is
/// bound for its protocol is readdressed to the endpoint that owns the port,
/// and any other is left alone. Neither creates a binding.
pub proof fn law_ingress_rewrites_the_destination(
    s: Seq<u8>,
    v: NatView,
    which: L4,
    l3: int,
    l4: int,
    end: int,
)
    requires
        l4_at(s, which, l3, l4, end),
    ensures
        ({
            let proto = assigned_number(which);
            let port = RevKey { proto, port: anatomy::num16(s, l4 + 2) as u16 };
            let t = ingress_frame(s, v);
            let ck = if which == L4::Tcp {
                l4 + 16
            } else {
                l4 + 6
            };
            &&& ingress_result(s, v) == v.rev.get(port)
            &&& match v.rev.get(port) {
                Some(e) => anatomy::readdressed(
                    s,
                    t,
                    which == L4::Udp,
                    l3,
                    l3 + 16,
                    l4 + 2,
                    ck,
                    e.ip,
                    e.port,
                ) && l4_at(t, which, l3, l4, end),
                None => t == s,
            }
        }),
{
    law_what_is_translated(s, which, l3, l4, end);
    anatomy::law_network_order(s, l4 + 2, 0, 0);
    let at = l4_place(s)->0;
    if let Some(e) = ingress_result(s, v) {
        lemma_rewritten_bytes(s, at, l3 + 16, l4 + 2, e.ip, e.port);
        law_translation_keeps_layout(s, at, l3 + 16, l4 + 2, e.ip, e.port);
        law_what_is_translated(ingress_frame(s, v), which, l3, l4, end);
    }
}

/// What is neither TCP nor UDP over IPv4 is not translated in either direction,
/// and neither is a later fragment on its way out.
pub proof fn law_the_rest_is_left_alone(s: Seq<u8>, v: NatView)
    ensures
        (forall|which: L4, l3: int, l4: int, end: int| !#[trigger] l4_at(s, which, l3, l4, end))
            ==> {
            &&& egress_result(s, v) is None && egress_frame(s, v) == s && egress_table(s, v) == v
            &&& ingress_result(s, v) is None && ingress_frame(s, v) == s
        },
        (exists|which: L4, l3: int, l4: int, end: int| #[trigger]
            l4_at(s, which, l3, l4, end) && anatomy::num16(s, l3 + 6) % 8192 != 0)
            ==> egress_result(s, v) is None && egress_frame(s, v) == s && egress_table(s, v) == v,
{
    if let Some(at) = l4_place(s) {
        law_what_is_translated(s, at.l4, at.ip.start, at.ip.l4_start, at.ip.end);
        anatomy::law_packets_are_found(s, at.ip.start, at.ip.l4_start, at.ip.end);
        assert(l4_at(s, at.l4, at.ip.start, at.ip.l4_start, at.ip.end));
    }
    if exists|which: L4, l3: int, l4: int, end: int| #[trigger]
        l4_at(s, which, l3, l4, end) && anatomy::num16(s, l3 + 6) % 8192 != 0 {
        let (which, l3, l4, end) = choose|which: L4, l3: int, l4: int, end: int| #[trigger]
            l4_at(s, which, l3, l4, end) && anatomy::num16(s, l3 + 6) % 8192 != 0;
        law_what_is_translated(s, which, l3, l4, end);
    }
}

/// An updated checksum, in numbers.
proof fn lemma_update_follows(c: u16, old_words: Seq<u8>, new_words: Seq<u8>)
    requires
        old_words.len() == new_words.len(),
        old_words.len() <= 4,
    ensures
        anatomy::checksum_follows(
            c as int,
            checksum::spec_update(c, old_words, new_words) as int,
            ((old_words.len() + 1) / 2) as int,
            checksum::word_sum(old_words) as int,
            checksum::word_sum(new_words) as int,
        ),
{
    checksum::lemma_word_sum_bound(old_words);
    checksum::lemma_word_sum_bound(new_words);
    checksum::lemma_inverse_word_sum(old_words);
    let u = checksum::update_sum(c, old_words, new_words);
    let r = checksum::spec_update(c, old_words, new_words) as int;
    let q = checksum::lemma_folded_offset(u);
    assert(r == 0xffff - checksum::folded(u));
    checksum::lemma_same_residue(r + u, 0, q + 1);
}

/// The words of an address, and of a port.
proof fn lemma_word_sums(s: Seq<u8>, a: int, p: int)
    requires
        0 <= a,
        a + 4 <= s.len(),
        0 <= p,
        p + 2 <= s.len(),
    ensures
        checksum::word_sum(s.subrange(a, a + 4)) == anatomy::num16(s, a) + anatomy::num16(s, a + 2),
        checksum::word_sum(s.subrange(p, p + 2)) == anatomy::num16(s, p),
{
    let w = s.subrange(a, a + 4);
    assert(w.subrange(2, 4) =~= s.subrange(a + 2, a + 4));
    checksum::lemma_word_sum_two(s.subrange(a + 2, a + 4));
    checksum::lemma_word_sum_two(s.subrange(p, p + 2));
}

/// What [`rewritten`] makes of the bytes of a frame.
proof fn lemma_rewritten_bytes(
    s: Seq<u8>,
    at: L4Place,
    ip_field: int,
    port_field: int,
    new_ip: Ipv4Addr,
    new_port: u16,
)
    requires
        l4_place(s) == Some(at),
        endpoint_fields(at, ip_field, port_field),
    ensures
        anatomy::readdressed(
            s,
            rewritten(s, at, ip_field, port_field, new_ip, new_port),
            at.l4 == L4::Udp,
            at.ip.start,
            ip_field,
            port_field,
            if at.l4 == L4::Tcp {
                at.l4_off + 16
            } else {
                at.l4_off + 6
            },
            new_ip,
            new_port,
        ),
{
    let t = rewritten(s, at, ip_field, port_field, new_ip, new_port);
    let ck = at.l4_off + cksum_offset(at.l4);
    let c = wire::be16(s, ck);
    let ipc = wire::be16(s, at.ip.start + 10);
    let old_ip = s.subrange(ip_field, ip_field + 4);
    let old_port = s.subrange(port_field, port_field + 2);
    let ipb = wire::bytes32(new_ip.bits);
    let portb = wire::bytes16(new_port);
    law_translation_keeps_layout(s, at, ip_field, port_field, new_ip, new_port);
    anatomy::law_network_order(t, ip_field, 0, 0);
    anatomy::law_network_order(t, port_field, 0, 0);
    anatomy::law_network_order(s, ck, 0, 0);
    anatomy::law_network_order(s, at.ip.start + 10, 0, 0);
    lemma_word_sums(s, ip_field, port_field);
    lemma_word_sums(t, ip_field, port_field);
    assert(t.subrange(ip_field, ip_field + 4) =~= ipb) by {
        assert(t[ip_field] == ipb[0] && t[ip_field + 1] == ipb[1] && t[ip_field + 2] == ipb[2]
            && t[ip_field + 3] == ipb[3]);
    }
    assert(t.subrange(port_field, port_field + 2) =~= portb) by {
        assert(t[port_field] == portb[0] && t[port_field + 1] == portb[1]);
    }
    // The checksum of the IPv4 header.
    let new_ipc = checksum::spec_update(ipc, old_ip, ipb);
    lemma_update_follows(ipc, old_ip, ipb);
    assert(anatomy::num16(t, at.ip.start + 10) == new_ipc) by {
        let b = wire::bytes16(new_ipc);
        assert(t[at.ip.start + 10] == b[0] && t[at.ip.start + 11] == b[1]);
    }
    // The checksum of the transport header.
    let l4c = updated_l4_checksum(at.l4, c, old_ip, ipb, old_port, portb);
    assert(anatomy::num16(t, ck) == l4c) by {
        let b = wire::bytes16(l4c);
        assert(t[ck] == b[0] && t[ck + 1] == b[1]);
    }
    let mid = checksum::spec_update(c, old_ip, ipb);
    let last = checksum::spec_update(mid, old_port, portb);
    lemma_update_follows(c, old_ip, ipb);
    lemma_update_follows(mid, old_port, portb);
    let lost = anatomy::num16(s, ip_field) + anatomy::num16(s, ip_field + 2);
    let gained = anatomy::num16(t, ip_field) + anatomy::num16(t, ip_field + 2);
    assert(anatomy::checksum_follows(anatomy::num16(s, ck), mid as int, 2, lost, gained));
    assert(anatomy::checksum_follows(
        mid as int,
        last as int,
        1,
        anatomy::num16(s, port_field),
        anatomy::num16(t, port_field),
    ));
}

/// What can happen to a NAT table.
pub enum NatEvent {
    /// A packet from this endpoint went out.
    Egress { l4: L4, ip: Ipv4Addr, port: u16 },
    /// The WAN address changed.
    WanIp(Ipv4Addr),
}

impl Evolving for NatView {
    type Event = NatEvent;

    open spec fn evolve(self, e: NatEvent) -> Self {
        match e {
            NatEvent::Egress { l4, ip, port } => self.after_egress(l4, ip, port),
            NatEvent::WanIp(ip) => NatView { wan_ip: ip, ..self },
        }
    }
}

/// Whatever packets and changes of the WAN address have made of a table, it
/// allocates from the same range of ports, keeps to its invariant, and still has
/// every binding that it had at first.
pub proof fn law_reached_table_keeps_bindings(start: NatView, now: NatView, key: FwdKey)
    requires
        start.wf(),
        history::reached(start, now),
    ensures
        now.wf(),
        now.port_lo == start.port_lo,
        now.port_hi == start.port_hi,
        start.fwd.dom().contains(key) ==> now.fwd.get(key) == start.fwd.get(key),
{
    let log = choose|log: Seq<NatEvent>| #[trigger] history::replayed(start, log) == now;
    lemma_replayed_table_keeps_bindings(start, log, key);
}

proof fn lemma_replayed_table_keeps_bindings(start: NatView, log: Seq<NatEvent>, key: FwdKey)
    requires
        start.wf(),
    ensures
        ({
            let now = history::replayed(start, log);
            &&& now.wf()
            &&& now.port_lo == start.port_lo
            &&& now.port_hi == start.port_hi
            &&& start.fwd.dom().contains(key) ==> now.fwd.get(key) == start.fwd.get(key)
        }),
    decreases log.len(),
{
    if log.len() > 0 {
        let before = history::replayed(start, log.drop_last());
        lemma_replayed_table_keeps_bindings(start, log.drop_last(), key);
        if let NatEvent::Egress { l4, ip, port } = log.last() {
            law_egress_keeps_invariant(before, l4, ip, port);
        }
    }
}

impl Guarded for Nat {
    open spec fn guarded(self, origin: Self) -> bool {
        self@.wf() && history::reached(origin@, self@)
    }
}

/// Cloneable handle to a [`Nat`] shared across workers. Every clone observes
/// the same forward/reverse tables and external-port pool. Every operation
/// takes the spinlock briefly.
///
/// What a call finds in the table is up to the other handles as well: the
/// contracts say what each call does with whatever it found. That is always
/// what packets and changes of the WAN address have made of the table that the
/// first handle was made with.
pub struct SharedNat {
    inner: Arc<SpinLock<Nat>>,
}

impl Clone for SharedNat {
    /// Another handle to the same table.
    fn clone(&self) -> (r: Self)
        ensures
            r == *self,
    {
        SharedNat { inner: self.inner.clone() }
    }
}

impl SharedNat {
    /// The table that the handle was made with.
    pub closed spec fn made_with(self) -> NatView {
        self.inner.made_with()@
    }

    /// A call on this handle can find the table `t`.
    pub open spec fn may_find(self, t: NatView) -> bool {
        t.wf() && history::reached(self.made_with(), t)
    }

    /// A handle to `table`.
    pub fn new(table: Nat) -> (r: Self)
        requires
            table@.wf(),
        ensures
            r.made_with() == table@,
    {
        proof {
            history::lemma_reached_itself(table@);
        }
        SharedNat { inner: Arc::new(SpinLock::new(table)) }
    }

    /// Update the WAN address (e.g. when the DHCP lease binds or changes).
    pub fn set_wan_ip(&self, ip: Ipv4Addr) {
        let mut guard = self.inner.lock();
        proof {
            history::lemma_reached_next(self.made_with(), guard.value()@, NatEvent::WanIp(ip));
        }
        guard.as_mut().set_wan_ip(ip);
        guard.unlock();
    }

    pub fn wan_ip(&self) -> (r: Ipv4Addr)
        ensures
            exists|found: NatView| #[trigger] self.may_find(found) && r == found.wan_ip,
    {
        let guard = self.inner.lock();
        let r = guard.as_ref().wan_ip();
        assert(self.may_find(guard.value()@));
        guard.unlock();
        r
    }

    /// Apply egress NAT to `frame` in place under the lock. See
    /// [`translate_egress`].
    pub fn translate_egress(&self, frame: &mut [u8]) -> (r: Option<Egress>)
        ensures
            exists|found: NatView| #[trigger]
                self.may_find(found) && r == egress_result(old(frame)@, found) && final(frame)@
                    == egress_frame(old(frame)@, found),
    {
        let mut guard = self.inner.lock();
        proof {
            assert(self.may_find(guard.value()@));
            if let Some(at) = egress_place(frame@) {
                let src = src_endpoint(frame@, at);
                history::lemma_reached_next(
                    self.made_with(),
                    guard.value()@,
                    NatEvent::Egress { l4: at.l4, ip: src.ip, port: src.port },
                );
            }
        }
        let r = translate_egress(frame, guard.as_mut());
        guard.unlock();
        r
    }

    /// Apply ingress NAT to `frame` in place under the lock. See
    /// [`translate_ingress`].
    pub fn translate_ingress(&self, frame: &mut [u8]) -> (r: Option<Ingress>)
        ensures
            exists|found: NatView| #[trigger]
                self.may_find(found) && r == match ingress_result(old(frame)@, found) {
                    Some(e) => Some(Ingress { dst_ip: e.ip, dst_port: e.port }),
                    None => None,
                } && final(frame)@ == ingress_frame(old(frame)@, found),
    {
        let guard = self.inner.lock();
        let r = translate_ingress(frame, guard.as_ref());
        assert(self.may_find(guard.value()@));
        guard.unlock();
        r
    }
}

} // verus!
