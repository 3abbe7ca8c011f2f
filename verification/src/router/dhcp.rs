//! DHCP control plane: a LAN-side server that hands out leases and a WAN-side
//! client that obtains the router's own address.
//!
//! Both produce/consume fully-formed Ethernet/IPv4/UDP frames (via
//! [`crate::router::frame`]) so the datapath only has to copy bytes onto an
//! mbuf. There is a single software-defined server-identity IP
//! ([`DhcpServerConfig::server_ip`]) used as the DHCP server-id on every LAN
//! interface.

use crate::net::addr::Ipv4Addr;
use crate::net::anatomy;
use crate::net::dhcp;
use crate::net::dhcp::{op, option, DhcpHeader, MessageType, OptionsWriter};
use crate::net::ethernet;
use crate::net::ethernet::{MacAddr, BROADCAST};
use crate::net::view;
use crate::net::view::{port, DhcpView};
use crate::net::wire;
use crate::net::wire::Pod;
use crate::router::frame;
use crate::router::frame::UdpV4;
use crate::router::leases::{LeaseEvent, LeaseTable, SharedLeases};
use crate::router::pool;
use crate::router::pool::{AddressPool, PoolView, SharedAddressPool};
use crate::sync::history;
use crate::sync::history::Evolving;
use crate::sync::spinlock::{Guarded, SpinLock};
use std::sync::Arc;
use vstd::prelude::*;

verus! {

/// Scratch size for a built DHCP payload (240-byte fixed header + options).
pub const PAYLOAD_MAX: usize = 512;

/// Most DNS servers that fit in a reply.
pub const DNS_MAX: usize = 60;

/// Options the client asks the server to send.
pub const PARAM_REQUEST_LIST: [u8; 4] = [1, 3, 6, 51];

/// What the two sides look at in a DHCP message.
#[verifier::ext_equal]
pub struct Message {
    pub xid: u32,
    pub flags: u16,
    pub client_ip: Ipv4Addr,
    pub your_ip: Ipv4Addr,
    /// The first six bytes of `chaddr`.
    pub mac: MacAddr,
    pub options: Seq<(u8, Seq<u8>)>,
}

/// The message with the fixed header `header` and the options region `options`.
pub open spec fn message(header: Seq<u8>, options: Seq<u8>) -> Message {
    Message {
        xid: wire::be32(header, 4),
        flags: wire::be16(header, 10),
        client_ip: Ipv4Addr { bits: wire::be32(header, 12) },
        your_ip: Ipv4Addr { bits: wire::be32(header, 16) },
        mac: ethernet::mac_at(header, 28),
        options: dhcp::options_of(options),
    }
}

/// The message that `v` shows.
pub open spec fn seen(v: DhcpView<'_>) -> Message {
    message(v.header_bytes(), v.option_bytes())
}

/// The DHCP message that the frame `f` carries, if it carries one.
pub open spec fn frame_dhcp(f: Seq<u8>) -> Option<Message> {
    match view::frame_udp(f) {
        Some(u) => if (view::is_bootp(wire::be16(f, u.start)) || view::is_bootp(
            wire::be16(f, u.start + 2),
        )) && u.payload_start + 240 <= f.len() {
            Some(
                message(
                    f.subrange(u.payload_start, u.payload_start + 240),
                    view::dhcp_options(f, u.payload_start, u.end),
                ),
            )
        } else {
            None
        },
        None => None,
    }
}

impl Message {
    /// First value of the option `code`.
    pub open spec fn value(self, code: u8) -> Option<Seq<u8>> {
        dhcp::first_value(self.options, code)
    }

    /// The message type (option 53).
    pub open spec fn kind(self) -> Option<MessageType> {
        match self.value(option::MESSAGE_TYPE) {
            Some(v) => if v.len() > 0 {
                MessageType::spec_from_u8(v[0])
            } else {
                None
            },
            None => None,
        }
    }

    /// The broadcast flag.
    pub open spec fn broadcast(self) -> bool {
        self.flags & dhcp::BROADCAST_FLAG != 0
    }

    /// The address of an option that holds one.
    pub open spec fn addr(self, code: u8) -> Option<Ipv4Addr> {
        dhcp::spec_opt_ipv4(self.value(code))
    }

    /// The first of the addresses that an option lists.
    pub open spec fn first_addr(self, code: u8) -> Option<Ipv4Addr> {
        match self.value(code) {
            Some(v) => if dhcp::ipv4_list_of(v).len() > 0 {
                Some(dhcp::ipv4_list_of(v)[0])
            } else {
                None
            },
            None => None,
        }
    }

    /// The address that a client asks for: the requested-address option, or the
    /// address it says it has.
    pub open spec fn requested(self) -> Ipv4Addr {
        match self.addr(option::REQUESTED_IP) {
            Some(ip) => ip,
            None => self.client_ip,
        }
    }
}

/// The fixed header of a message between Ethernet hosts.
pub open spec fn fixed_header(
    op: u8,
    xid: u32,
    flags: u16,
    yiaddr: Ipv4Addr,
    siaddr: Ipv4Addr,
    mac: MacAddr,
) -> Seq<u8> {
    seq![op, dhcp::HTYPE_ETHERNET, dhcp::HLEN_ETHERNET, 0] + wire::bytes32(xid) + seq![0u8, 0u8]
        + wire::bytes16(flags) + wire::bytes32(0) + wire::bytes32(yiaddr.bits) + wire::bytes32(
        siaddr.bits,
    ) + wire::bytes32(0) + dhcp::hardware_addr_field(mac@) + Seq::new(192, |i: int| 0u8)
        + wire::bytes32(DhcpHeader::MAGIC_COOKIE)
}

/// The whole message: fixed header, options, and the `END` marker.
pub open spec fn payload(header: Seq<u8>, options: Seq<(u8, Seq<u8>)>) -> Seq<u8> {
    header + dhcp::encoded_options(options) + seq![option::END]
}

/// The first six bytes of `chaddr` as a MAC.
fn client_mac(header: &DhcpHeader) -> (r: MacAddr)
    ensures
        r == ethernet::mac_at(header.bytes(), 28),
{
    let c = &header.chaddr;
    let mac = [c[0], c[1], c[2], c[3], c[4], c[5]];
    assert(header.bytes()[28] == c[0]);
    assert(header.bytes()[29] == c[1]);
    assert(header.bytes()[30] == c[2]);
    assert(header.bytes()[31] == c[3]);
    assert(header.bytes()[32] == c[4]);
    assert(header.bytes()[33] == c[5]);
    assert(mac =~= ethernet::mac_at(header.bytes(), 28));
    mac
}

/// The fixed header with the fields that are not given zero.
fn build_header(
    op: u8,
    xid: u32,
    broadcast: bool,
    yiaddr: Ipv4Addr,
    siaddr: Ipv4Addr,
    mac: MacAddr,
) -> (r: DhcpHeader)
    ensures
        r.bytes() == fixed_header(
            op,
            xid,
            if broadcast {
                dhcp::BROADCAST_FLAG
            } else {
                0
            },
            yiaddr,
            siaddr,
            mac,
        ),
{
    let mut h = DhcpHeader {
        op,
        htype: 0,
        hlen: 0,
        hops: 0,
        xid: wire::U32Be::new(xid),
        secs: wire::U16Be::new(0),
        flags: wire::U16Be::new(0),
        ciaddr: wire::U32Be::new(0),
        yiaddr: wire::U32Be::new(yiaddr.bits),
        siaddr: wire::U32Be::new(siaddr.bits),
        giaddr: wire::U32Be::new(0),
        chaddr: [0u8; 16],
        sname: [0u8; 64],
        file: [0u8; 128],
        magic_cookie: wire::U32Be::new(0),
    };
    h.init_ethernet(op);
    if broadcast {
        h.set_broadcast(true);
    }
    h.set_client_hardware_addr(&mac);
    proof {
        assert(0u16 | dhcp::BROADCAST_FLAG == dhcp::BROADCAST_FLAG) by (bit_vector);
        let flags = if broadcast {
            dhcp::BROADCAST_FLAG
        } else {
            0
        };
        assert(h.bytes() =~= fixed_header(op, xid, flags, yiaddr, siaddr, mac));
    }
    h
}

/// What the header of a message says, read off its bytes.
proof fn lemma_header_fields(h: DhcpHeader)
    ensures
        h.xid.value() == wire::be32(h.bytes(), 4),
        h.flags.value() == wire::be16(h.bytes(), 10),
        h.ciaddr.value() == wire::be32(h.bytes(), 12),
        h.yiaddr.value() == wire::be32(h.bytes(), 16),
{
    let b = h.bytes();
    assert(b[4] == h.xid.b0 && b[5] == h.xid.b1 && b[6] == h.xid.b2 && b[7] == h.xid.b3);
    assert(b[10] == h.flags.hi && b[11] == h.flags.lo);
    assert(b[12] == h.ciaddr.b0 && b[13] == h.ciaddr.b1 && b[14] == h.ciaddr.b2 && b[15]
        == h.ciaddr.b3);
    assert(b[16] == h.yiaddr.b0 && b[17] == h.yiaddr.b1 && b[18] == h.yiaddr.b2 && b[19]
        == h.yiaddr.b3);
}

/// Static configuration for the LAN DHCP server.
pub struct DhcpServerConfig {
    /// The single software-defined server identity (DHCP server-id + `siaddr`).
    pub server_ip: Ipv4Addr,
    /// MAC of the LAN interface that will source replies.
    pub server_mac: MacAddr,
    /// Default gateway handed to clients (often equal to `server_ip`).
    pub gateway: Ipv4Addr,
    pub subnet_mask: Ipv4Addr,
    pub dns: Vec<Ipv4Addr>,
    pub lease_secs: u32,
}

/// What the server answers.
pub struct Reply {
    pub kind: MessageType,
    pub your_ip: Ipv4Addr,
    /// The client asked to be answered by broadcast.
    pub broadcast: bool,
}

/// The addresses that are free and those that are leased.
#[verifier::ext_equal]
pub struct Bindings {
    pub pool: PoolView,
    pub leases: Map<MacAddr, Ipv4Addr>,
}

impl Bindings {
    /// The address that `mac` gets: the one it has, or else the lowest free one.
    pub open spec fn assigned(self, mac: MacAddr) -> Option<Ipv4Addr> {
        if self.leases.dom().contains(mac) {
            Some(self.leases[mac])
        } else {
            pool::lowest(self.pool.free)
        }
    }

    /// The bindings after `mac` was given its address.
    pub open spec fn after_assign(self, mac: MacAddr) -> Bindings {
        match self.assigned(mac) {
            Some(ip) => if self.leases.dom().contains(mac) {
                self
            } else {
                Bindings { pool: self.pool.reserved(ip), leases: self.leases.insert(mac, ip) }
            },
            None => self,
        }
    }

    /// The bindings after `mac` gave its address back. (An address outside the
    /// bounds of the pool is forgotten and not added to the pool.)
    pub open spec fn after_release(self, mac: MacAddr) -> Bindings {
        if self.leases.dom().contains(mac) {
            Bindings {
                pool: if self.pool.covers(self.leases[mac]) {
                    self.pool.released(self.leases[mac])
                } else {
                    self.pool
                },
                leases: self.leases.remove(mac),
            }
        } else {
            self
        }
    }
}

impl DhcpServerConfig {
    /// The client is selecting another server: stay quiet.
    pub open spec fn other_server(self, m: Message) -> bool {
        m.addr(option::SERVER_ID) matches Some(id) && id != self.server_ip
    }

    /// The bindings after the message `m` was handled.
    pub open spec fn after(self, b: Bindings, m: Message) -> Bindings {
        match m.kind() {
            Some(MessageType::Discover) => b.after_assign(m.mac),
            Some(MessageType::Request) => if self.other_server(m) {
                b
            } else {
                b.after_assign(m.mac)
            },
            Some(MessageType::Release) | Some(MessageType::Decline) => b.after_release(m.mac),
            _ => b,
        }
    }

    /// The answer to the message `m`: an offer of its address for a DISCOVER;
    /// for a REQUEST to this server an ACK if the client asks for the address
    /// that it gets and a NAK if it asks for another.
    pub open spec fn reply(self, b: Bindings, m: Message) -> Option<Reply> {
        match (m.kind(), b.assigned(m.mac)) {
            (Some(MessageType::Discover), Some(ip)) => Some(
                Reply { kind: MessageType::Offer, your_ip: ip, broadcast: m.broadcast() },
            ),
            (Some(MessageType::Request), Some(ip)) => if self.other_server(m) {
                None
            } else if m.requested() == ip {
                Some(Reply { kind: MessageType::Ack, your_ip: ip, broadcast: m.broadcast() })
            } else {
                Some(
                    Reply {
                        kind: MessageType::Nak,
                        your_ip: Ipv4Addr { bits: 0 },
                        broadcast: true,
                    },
                )
            },
            _ => None,
        }
    }

    /// The options of a reply.
    pub open spec fn options(self, kind: MessageType) -> Seq<(u8, Seq<u8>)> {
        let head = seq![
            (option::MESSAGE_TYPE, seq![kind.spec_to_u8()]),
            (option::SERVER_ID, wire::bytes32(self.server_ip.bits)),
        ];
        let lease = head.push((option::LEASE_TIME, wire::bytes32(self.lease_secs))).push(
            (option::SUBNET_MASK, wire::bytes32(self.subnet_mask.bits)),
        ).push((option::ROUTER, wire::bytes32(self.gateway.bits)));
        if kind == MessageType::Nak {
            head
        } else if self.dns@.len() == 0 {
            lease
        } else {
            lease.push((option::DNS_SERVER, dhcp::encoded_ipv4_list(self.dns@)))
        }
    }

    /// The options of a reply fit in the payload buffer.
    pub open spec fn fits(self, kind: MessageType) -> bool {
        kind == MessageType::Nak || self.dns@.len() <= DNS_MAX
    }

    /// The fixed header of a reply.
    pub open spec fn header(self, xid: u32, your_ip: Ipv4Addr, client: MacAddr) -> Seq<u8> {
        fixed_header(op::BOOTREPLY, xid, 0, your_ip, self.server_ip, client)
    }

    /// Where a reply goes: to the client, or to everyone if the client asked
    /// for that or the reply is a NAK.
    pub open spec fn params(self, r: Reply, client: MacAddr) -> UdpV4 {
        let to_all = r.broadcast || r.kind == MessageType::Nak;
        UdpV4 {
            src_mac: self.server_mac,
            dst_mac: if to_all {
                BROADCAST
            } else {
                client
            },
            src_ip: self.server_ip,
            dst_ip: if to_all {
                Ipv4Addr { bits: 0xffff_ffff }
            } else {
                r.your_ip
            },
            src_port: port::DHCP_SERVER,
            dst_port: port::DHCP_CLIENT,
            ttl: frame::DEFAULT_TTL,
        }
    }

    /// The frame of a reply; `None` if the reply does not fit in a message.
    pub open spec fn reply_frame(self, r: Reply, xid: u32, client: MacAddr) -> Option<Seq<u8>> {
        if self.fits(r.kind) {
            Some(
                self.params(r, client).frame(
                    payload(self.header(xid, r.your_ip, client), self.options(r.kind)),
                ),
            )
        } else {
            None
        }
    }

    /// The frame that answers the message `m`, if there is one.
    pub open spec fn answer(self, b: Bindings, m: Message) -> Option<Seq<u8>> {
        match self.reply(b, m) {
            Some(r) => self.reply_frame(r, m.xid, m.mac),
            None => None,
        }
    }
}

/// The length that is reported for a frame built into a buffer of `room` bytes.
pub open spec fn built_len(f: Option<Seq<u8>>, room: nat) -> Option<usize> {
    match f {
        Some(f) => if f.len() <= room {
            Some(f.len() as usize)
        } else {
            None
        },
        None => None,
    }
}

/// What is left in a buffer that a frame was built into.
pub open spec fn built_into(buf: Seq<u8>, f: Option<Seq<u8>>) -> Seq<u8> {
    match f {
        Some(f) => if f.len() <= buf.len() {
            wire::splice(buf, 0, f)
        } else {
            buf
        },
        None => buf,
    }
}

/// Write the reply options; `false` if they do not fit.
fn write_reply_options(w: &mut OptionsWriter<'_>, cfg: &DhcpServerConfig, kind: MessageType) -> (r:
    bool)
    requires
        old(w).wf(),
        old(w).len == 0,
        old(w).buf@.len() == 272,
    ensures
        final(final(w).buf)@ == final(old(w).buf)@,
        r == cfg.fits(kind),
        final(w).wf(),
        final(w).buf@.len() == 272,
        r ==> final(w).written() == dhcp::encoded_options(cfg.options(kind)) + seq![option::END],
{
    let ghost opts = Seq::<(u8, Seq<u8>)>::empty();
    assert(w.written() =~= dhcp::encoded_options(opts));
    if !w.message_type(kind) {
        return false;
    }
    proof {
        dhcp::lemma_encoded_options_push(opts, option::MESSAGE_TYPE, seq![kind.spec_to_u8()]);
    }
    let ghost opts = opts.push((option::MESSAGE_TYPE, seq![kind.spec_to_u8()]));
    if !w.ipv4(option::SERVER_ID, cfg.server_ip) {
        return false;
    }
    proof {
        dhcp::lemma_encoded_options_push(
            opts,
            option::SERVER_ID,
            wire::bytes32(cfg.server_ip.bits),
        );
    }
    let ghost opts = opts.push((option::SERVER_ID, wire::bytes32(cfg.server_ip.bits)));
    assert(w.written() == dhcp::encoded_options(opts));
    assert(w.len == 9);
    if kind == MessageType::Nak {
        assert(opts =~= cfg.options(kind));
        return w.end();
    }
    if !w.seconds(option::LEASE_TIME, cfg.lease_secs) {
        return false;
    }
    proof {
        dhcp::lemma_encoded_options_push(opts, option::LEASE_TIME, wire::bytes32(cfg.lease_secs));
    }
    let ghost opts = opts.push((option::LEASE_TIME, wire::bytes32(cfg.lease_secs)));
    if !w.ipv4(option::SUBNET_MASK, cfg.subnet_mask) {
        return false;
    }
    proof {
        dhcp::lemma_encoded_options_push(
            opts,
            option::SUBNET_MASK,
            wire::bytes32(cfg.subnet_mask.bits),
        );
    }
    let ghost opts = opts.push((option::SUBNET_MASK, wire::bytes32(cfg.subnet_mask.bits)));
    if !w.ipv4(option::ROUTER, cfg.gateway) {
        return false;
    }
    proof {
        dhcp::lemma_encoded_options_push(opts, option::ROUTER, wire::bytes32(cfg.gateway.bits));
    }
    let ghost opts = opts.push((option::ROUTER, wire::bytes32(cfg.gateway.bits)));
    assert(w.written() == dhcp::encoded_options(opts));
    assert(w.len == 27);
    if cfg.dns.len() == 0 {
        assert(opts =~= cfg.options(kind));
        return w.end();
    }
    if !w.ipv4_list(option::DNS_SERVER, cfg.dns.as_slice()) {
        return false;
    }
    proof {
        let list = dhcp::encoded_ipv4_list(cfg.dns@);
        dhcp::lemma_encoded_ipv4_list_len(cfg.dns@);
        dhcp::lemma_encoded_options_push(opts, option::DNS_SERVER, list);
        assert(opts.push((option::DNS_SERVER, list)) =~= cfg.options(kind));
    }
    w.end()
}

fn build_payload(
    cfg: &DhcpServerConfig,
    kind: MessageType,
    xid: u32,
    yiaddr: Ipv4Addr,
    client: MacAddr,
    buf: &mut [u8],
) -> (r: Option<usize>)
    requires
        old(buf)@.len() == PAYLOAD_MAX,
    ensures
        final(buf)@.len() == PAYLOAD_MAX,
        r is Some <==> cfg.fits(kind),
        r matches Some(n) ==> n <= PAYLOAD_MAX && final(buf)@.subrange(0, n as int) == payload(
            cfg.header(xid, yiaddr, client),
            cfg.options(kind),
        ),
{
    let header = build_header(op::BOOTREPLY, xid, false, yiaddr, cfg.server_ip, client);
    let (head, tail) = buf.split_at_mut(DhcpHeader::LEN);
    header.store(head);
    let ghost h = head@;
    let mut w = OptionsWriter::new(tail);
    let ok: bool = write_reply_options(&mut w, cfg, kind);
    let n: usize = w.len();
    let ghost written = w.written();
    let ghost options = w.buf@;
    if !ok {
        return None;
    }
    assert((h + options).subrange(0, 240 + n) =~= h + written);
    assert(h + (dhcp::encoded_options(cfg.options(kind)) + seq![option::END]) =~= payload(
        cfg.header(xid, yiaddr, client),
        cfg.options(kind),
    ));
    Some(DhcpHeader::LEN + n)
}

fn build_reply(
    cfg: &DhcpServerConfig,
    reply: &Reply,
    xid: u32,
    client: MacAddr,
    out: &mut [u8],
) -> (r: Option<usize>)
    ensures
        r == built_len(cfg.reply_frame(*reply, xid, client), old(out)@.len()),
        final(out)@ == built_into(old(out)@, cfg.reply_frame(*reply, xid, client)),
{
    let mut buf: [u8; 512] = [0u8; PAYLOAD_MAX];
    let plen: usize = match build_payload(cfg, reply.kind, xid, reply.your_ip, client, &mut buf) {
        Some(n) => n,
        None => {
            return None;
        },
    };
    // A client without an address generally can't receive unicast; honour the
    // broadcast flag and always broadcast a NAK.
    let to_all: bool = reply.broadcast || reply.kind == MessageType::Nak;
    let params = UdpV4 {
        src_mac: cfg.server_mac,
        dst_mac: if to_all {
            BROADCAST
        } else {
            client
        },
        src_ip: cfg.server_ip,
        dst_ip: if to_all {
            Ipv4Addr::broadcast()
        } else {
            reply.your_ip
        },
        src_port: port::DHCP_SERVER,
        dst_port: port::DHCP_CLIENT,
        ttl: frame::DEFAULT_TTL,
    };
    assert(params == cfg.params(*reply, client));
    proof {
        frame::lemma_frame_len(params, buf@.subrange(0, plen as int));
    }
    frame::build_udp_ipv4(out, &params, &buf[0..plen])
}

/// Return the address bound to `mac`, allocating the next free pool address on
/// first contact. Subsequent calls for the same MAC are idempotent: they return
/// the same IP they took the first time. This is what makes
/// DISCOVER -> OFFER -> REQUEST -> ACK work: the IP offered to a client must
/// match the IP we still hold for it when REQUEST arrives.
fn assign(pool: &mut AddressPool, leases: &mut LeaseTable, mac: MacAddr) -> (r: Option<Ipv4Addr>)
    requires
        old(pool).wf(),
    ensures
        final(pool).wf(),
        r == (Bindings { pool: old(pool)@, leases: old(leases)@ }).assigned(mac),
        (Bindings { pool: final(pool)@, leases: final(leases)@ }) == (Bindings {
            pool: old(pool)@,
            leases: old(leases)@,
        }).after_assign(mac),
{
    if let Some(ip) = leases.lookup(mac) {
        return Some(ip);
    }
    // First contact: take from the pool and record the binding so the matching
    // REQUEST reaches the same address.
    match pool.take_lowest() {
        Some(ip) => {
            leases.insert(mac, ip);
            Some(ip)
        },
        None => None,
    }
}

/// Process an inbound DHCP message against the addresses and leases given and,
/// if a reply is warranted, build the response frame into `out`, returning its
/// length.
pub fn serve(
    cfg: &DhcpServerConfig,
    pool: &mut AddressPool,
    leases: &mut LeaseTable,
    view: &DhcpView<'_>,
    out: &mut [u8],
) -> (r: Option<usize>)
    requires
        view.wf(),
        old(pool).wf(),
    ensures
        final(pool).wf(),
        ({
            let before = Bindings { pool: old(pool)@, leases: old(leases)@ };
            let after = Bindings { pool: final(pool)@, leases: final(leases)@ };
            let answer = cfg.answer(before, seen(*view));
            &&& after == cfg.after(before, seen(*view))
            &&& r == built_len(answer, old(out)@.len())
            &&& final(out)@ == built_into(old(out)@, answer)
        }),
{
    let header = view.header();
    let mac: MacAddr = client_mac(&header);
    let xid: u32 = header.xid();
    let broadcast: bool = header.broadcast();
    let opts = view.typed_options();
    proof {
        lemma_header_fields(header);
    }
    let kind = match view.message_type() {
        Some(k) => k,
        None => {
            return None;
        },
    };
    assert(seen(*view).kind() == Some(kind));
    match kind {
        MessageType::Discover => match assign(pool, leases, mac) {
            Some(ip) => {
                let reply = Reply { kind: MessageType::Offer, your_ip: ip, broadcast };
                build_reply(cfg, &reply, xid, mac, out)
            },
            None => None,
        },
        MessageType::Request => {
            // If the client is selecting another server, stay quiet.
            if let Some(sid) = opts.server_id() {
                if sid != cfg.server_ip {
                    return None;
                }
            }
            let requested: Ipv4Addr = match opts.requested_ip() {
                Some(ip) => ip,
                None => header.client_ip(),
            };
            assert(requested == seen(*view).requested());
            match assign(pool, leases, mac) {
                Some(ip) => {
                    let reply = if requested == ip {
                        Reply { kind: MessageType::Ack, your_ip: ip, broadcast }
                    } else {
                        // The client wants something we won't give it.
                        Reply {
                            kind: MessageType::Nak,
                            your_ip: Ipv4Addr::unspecified(),
                            broadcast: true,
                        }
                    };
                    build_reply(cfg, &reply, xid, mac, out)
                },
                None => None,
            }
        },
        MessageType::Release | MessageType::Decline => {
            // Return the address to the pool so it can be re-leased. Without
            // this the pool would leak one address per release.
            if let Some(ip) = leases.remove(mac) {
                if pool.start().bits <= ip.bits && ip.bits <= pool.end().bits {
                    pool.release(ip);
                }
            }
            None
        },
        _ => None,
    }
}

/// A simple DHCP server. The [`SharedAddressPool`] and [`SharedLeases`] are
/// handles to state behind spinlocks; multiple [`DhcpServer`] instances (one
/// per LAN port) sharing the same handles act as a single bridged server: a
/// client roaming between ports keeps its lease.
///
/// What a call finds in the pool and in the lease table is up to the other
/// handles as well: the contracts say what each call does with whatever it
/// found. [`serve`] says what becomes of the two.
pub struct DhcpServer {
    cfg: DhcpServerConfig,
    pool: SharedAddressPool,
    leases: SharedLeases,
}

impl DhcpServer {
    /// The configuration of the server.
    pub closed spec fn config(self) -> DhcpServerConfig {
        self.cfg
    }

    /// The pool that the server leases addresses from.
    pub closed spec fn addresses(self) -> SharedAddressPool {
        self.pool
    }

    /// The table that the server records its leases in.
    pub closed spec fn recorded(self) -> SharedLeases {
        self.leases
    }

    pub fn new(cfg: DhcpServerConfig, pool: SharedAddressPool, leases: SharedLeases) -> (r: Self)
        ensures
            r.config() == cfg,
            r.addresses() == pool,
            r.recorded() == leases,
    {
        DhcpServer { cfg, pool, leases }
    }

    /// Reserve an IP, preventing it from being leased out. Useful if a host on
    /// the LAN is using a static IP address.
    pub fn reserve(&self, ip: Ipv4Addr) {
        let _ = self.pool.reserve(ip);
    }

    /// Release an IP back to the pool, as is the case when a host changed its
    /// static IP.
    pub fn release(&self, ip: Ipv4Addr)
        requires
            self.addresses().spec_start().bits <= ip.bits <= self.addresses().spec_end().bits,
    {
        self.pool.release(ip);
    }

    /// Start of the DHCP range
    pub fn start(&self) -> (r: Ipv4Addr)
        ensures
            r == self.addresses().spec_start(),
    {
        self.pool.start()
    }

    /// End of DHCP range
    pub fn end(&self) -> (r: Ipv4Addr)
        ensures
            r == self.addresses().spec_end(),
    {
        self.pool.end()
    }

    /// Currently-assigned address for `mac`, if any. Reads the shared table:
    /// any peer server in the bridged set sees the same answer.
    pub fn lease_of(&self, mac: &MacAddr) -> (r: Option<Ipv4Addr>)
        ensures
            exists|found: Map<MacAddr, Ipv4Addr>| #[trigger]
                self.recorded().may_find(found) && r == found.get(*mac),
    {
        assert(self.recorded() == self.leases);
        self.leases.lookup(*mac)
    }

    /// Process an inbound DHCP message and, if a reply is warranted, build the
    /// response frame into `out`, returning its length.
    pub fn handle(&self, view: &DhcpView<'_>, out: &mut [u8]) -> (r: Option<usize>)
        requires
            view.wf(),
        ensures
            exists|found: Bindings|
                {
                    let answer = #[trigger] self.config().answer(found, seen(*view));
                    &&& self.addresses().may_find(found.pool)
                    &&& self.recorded().may_find(found.leases)
                    &&& r == built_len(answer, old(out)@.len())
                    &&& final(out)@ == built_into(old(out)@, answer)
                },
    {
        let mut leases = self.leases.lock();
        let mut pool = self.pool.lock();
        let ghost found = Bindings { pool: pool.value()@, leases: leases.value()@ };
        proof {
            let mac = seen(*view).mac;
            let made = self.leases.made_with();
            if let Some(ip) = found.assigned(mac) {
                history::lemma_reached_next(made, found.leases, LeaseEvent::Bound(mac, ip));
            }
            history::lemma_reached_next(made, found.leases, LeaseEvent::Removed(mac));
        }
        let r = serve(&self.cfg, pool.as_mut(), leases.as_mut(), view, out);
        pool.unlock();
        leases.unlock();
        assert(r == built_len(self.config().answer(found, seen(*view)), old(out)@.len()));
        r
    }
}

#[derive(Clone, Copy, PartialEq, Eq, Structural, Debug)]
pub enum ClientState {
    Init,
    Selecting,
    Requesting,
    Bound,
}

/// The configuration the client learned from the server's ACK.
#[derive(Clone, Copy, Debug)]
pub struct DhcpLease {
    pub ip: Ipv4Addr,
    pub subnet_mask: Option<Ipv4Addr>,
    pub gateway: Option<Ipv4Addr>,
    pub server_id: Option<Ipv4Addr>,
    pub lease_secs: Option<u32>,
}

/// A minimal DHCP client driving the DISCOVER -> OFFER -> REQUEST -> ACK
/// exchange.
pub struct DhcpClient {
    pub mac: MacAddr,
    pub xid: u32,
    pub state: ClientState,
    pub offered_ip: Option<Ipv4Addr>,
    pub server_id: Option<Ipv4Addr>,
    pub lease: Option<DhcpLease>,
}

impl DhcpClient {
    /// What the client sends next: a DISCOVER in `Init`, a REQUEST in
    /// `Requesting`, nothing otherwise.
    pub open spec fn next_kind(self) -> Option<MessageType> {
        match self.state {
            ClientState::Init => Some(MessageType::Discover),
            ClientState::Requesting => Some(MessageType::Request),
            _ => None,
        }
    }

    /// The options of a message from the client.
    pub open spec fn options(self, kind: MessageType) -> Seq<(u8, Seq<u8>)> {
        let head = seq![(option::MESSAGE_TYPE, seq![kind.spec_to_u8()])];
        let asking = match self.offered_ip {
            Some(ip) => if kind == MessageType::Request {
                head.push((option::REQUESTED_IP, wire::bytes32(ip.bits)))
            } else {
                head
            },
            None => head,
        };
        let naming = match self.server_id {
            Some(id) => if kind == MessageType::Request {
                asking.push((option::SERVER_ID, wire::bytes32(id.bits)))
            } else {
                asking
            },
            None => asking,
        };
        naming.push((option::PARAMETER_REQUEST_LIST, PARAM_REQUEST_LIST@))
    }

    /// The fixed header of a message from the client.
    pub open spec fn header(self) -> Seq<u8> {
        fixed_header(
            op::BOOTREQUEST,
            self.xid,
            dhcp::BROADCAST_FLAG,
            Ipv4Addr { bits: 0 },
            Ipv4Addr { bits: 0 },
            self.mac,
        )
    }

    /// Client has no address yet: source 0.0.0.0:68 -> 255.255.255.255:67.
    pub open spec fn params(self) -> UdpV4 {
        UdpV4 {
            src_mac: self.mac,
            dst_mac: BROADCAST,
            src_ip: Ipv4Addr { bits: 0 },
            dst_ip: Ipv4Addr { bits: 0xffff_ffff },
            src_port: port::DHCP_CLIENT,
            dst_port: port::DHCP_SERVER,
            ttl: frame::DEFAULT_TTL,
        }
    }

    /// The frame of a message from the client.
    pub open spec fn message_frame(self, kind: MessageType) -> Seq<u8> {
        self.params().frame(payload(self.header(), self.options(kind)))
    }

    /// The frame that the client sends next, if it sends one.
    pub open spec fn next_frame(self) -> Option<Seq<u8>> {
        match self.next_kind() {
            Some(kind) => Some(self.message_frame(kind)),
            None => None,
        }
    }

    /// The client after it sent its next message.
    pub open spec fn after_send(self) -> DhcpClient {
        if self.state == ClientState::Init {
            DhcpClient { state: ClientState::Selecting, ..self }
        } else {
            self
        }
    }

    /// The client after it received the message `m`: an offer that it waits for
    /// is taken up, an ACK that it waits for binds it, and a NAK sends it back
    /// to the start. Anything else, and every message of another transaction,
    /// leaves it as it is.
    pub open spec fn after_receive(self, m: Message) -> DhcpClient {
        if m.xid != self.xid {
            self
        } else if m.kind() == Some(MessageType::Offer) && self.state == ClientState::Selecting {
            DhcpClient {
                offered_ip: Some(m.your_ip),
                server_id: m.addr(option::SERVER_ID),
                state: ClientState::Requesting,
                ..self
            }
        } else if m.kind() == Some(MessageType::Ack) && self.state == ClientState::Requesting {
            DhcpClient {
                lease: Some(
                    DhcpLease {
                        ip: m.your_ip,
                        subnet_mask: m.addr(option::SUBNET_MASK),
                        gateway: m.first_addr(option::ROUTER),
                        server_id: m.addr(option::SERVER_ID),
                        lease_secs: dhcp::spec_opt_seconds(m.value(option::LEASE_TIME)),
                    },
                ),
                state: ClientState::Bound,
                ..self
            }
        } else if m.kind() == Some(MessageType::Nak) {
            DhcpClient { offered_ip: None, server_id: None, state: ClientState::Init, ..self }
        } else {
            self
        }
    }

    /// The address that the client is bound to, if it is.
    pub open spec fn spec_bound_ip(self) -> Option<Ipv4Addr> {
        match self.lease {
            Some(l) => Some(l.ip),
            None => None,
        }
    }

    pub fn new(mac: MacAddr, xid: u32) -> (r: Self)
        ensures
            r == (DhcpClient {
                mac,
                xid,
                state: ClientState::Init,
                offered_ip: None,
                server_id: None,
                lease: None,
            }),
    {
        DhcpClient {
            mac,
            xid,
            state: ClientState::Init,
            offered_ip: None,
            server_id: None,
            lease: None,
        }
    }

    pub fn state(&self) -> (r: ClientState)
        ensures
            r == self.state,
    {
        self.state
    }

    pub fn lease(&self) -> (r: Option<&DhcpLease>)
        ensures
            r == match self.lease {
                Some(l) => Some(&l),
                None => None,
            },
    {
        match &self.lease {
            Some(l) => Some(l),
            None => None,
        }
    }

    pub fn bound_ip(&self) -> (r: Option<Ipv4Addr>)
        ensures
            r == self.spec_bound_ip(),
    {
        match &self.lease {
            Some(l) => Some(l.ip),
            None => None,
        }
    }

    /// Produce the next outbound message (DISCOVER in `Init`, REQUEST in
    /// `Requesting`), advancing the protocol where appropriate. Returns the
    /// frame length written to `out`, or `None` if there's nothing to send.
    pub fn poll(&mut self, out: &mut [u8]) -> (r: Option<usize>)
        ensures
            r == built_len(old(self).next_frame(), old(out)@.len()),
            final(out)@ == built_into(old(out)@, old(self).next_frame()),
            *final(self) == if r is Some {
                old(self).after_send()
            } else {
                *old(self)
            },
    {
        match self.state {
            ClientState::Init => {
                let r = self.build(MessageType::Discover, out);
                if r.is_some() {
                    self.state = ClientState::Selecting;
                }
                r
            },
            ClientState::Requesting => self.build(MessageType::Request, out),
            ClientState::Selecting | ClientState::Bound => None,
        }
    }

    /// Feed a received DHCP message, advancing the state machine.
    pub fn on_receive(&mut self, view: &DhcpView<'_>)
        requires
            view.wf(),
        ensures
            *final(self) == old(self).after_receive(seen(*view)),
    {
        let header = view.header();
        proof {
            lemma_header_fields(header);
        }
        if header.xid() != self.xid {
            return ;  // not our transaction
        }
        let opts = view.typed_options();
        let kind = view.message_type();
        assert(kind == seen(*view).kind());
        match kind {
            Some(MessageType::Offer) => {
                if self.state == ClientState::Selecting {
                    self.offered_ip = Some(header.your_ip());
                    self.server_id = opts.server_id();
                    self.state = ClientState::Requesting;
                }
            },
            Some(MessageType::Ack) => {
                if self.state == ClientState::Requesting {
                    let mut routers = opts.routers();
                    let gateway = routers.next();
                    self.lease = Some(
                        DhcpLease {
                            ip: header.your_ip(),
                            subnet_mask: opts.subnet_mask(),
                            gateway,
                            server_id: opts.server_id(),
                            lease_secs: opts.lease_time(),
                        },
                    );
                    self.state = ClientState::Bound;
                }
            },
            Some(MessageType::Nak) => {
                self.offered_ip = None;
                self.server_id = None;
                self.state = ClientState::Init;
            },
            _ => {},
        }
    }

    /// Write the options of a message.
    fn write_options(&self, w: &mut OptionsWriter<'_>, kind: MessageType) -> (r: bool)
        requires
            old(w).wf(),
            old(w).len == 0,
            old(w).buf@.len() == 272,
        ensures
            final(final(w).buf)@ == final(old(w).buf)@,
            r,
            final(w).wf(),
            final(w).buf@.len() == 272,
            final(w).written() == dhcp::encoded_options(self.options(kind)) + seq![option::END],
    {
        let ghost mut opts = Seq::<(u8, Seq<u8>)>::empty();
        assert(w.written() =~= dhcp::encoded_options(opts));
        if !w.message_type(kind) {
            return false;
        }
        proof {
            dhcp::lemma_encoded_options_push(opts, option::MESSAGE_TYPE, seq![kind.spec_to_u8()]);
            opts = opts.push((option::MESSAGE_TYPE, seq![kind.spec_to_u8()]));
        }
        if kind == MessageType::Request {
            if let Some(ip) = self.offered_ip {
                if !w.ipv4(option::REQUESTED_IP, ip) {
                    return false;
                }
                proof {
                    let value = wire::bytes32(ip.bits);
                    dhcp::lemma_encoded_options_push(opts, option::REQUESTED_IP, value);
                    opts = opts.push((option::REQUESTED_IP, value));
                }
            }
            if let Some(id) = self.server_id {
                if !w.ipv4(option::SERVER_ID, id) {
                    return false;
                }
                proof {
                    let value = wire::bytes32(id.bits);
                    dhcp::lemma_encoded_options_push(opts, option::SERVER_ID, value);
                    opts = opts.push((option::SERVER_ID, value));
                }
            }
        }
        if !w.option(option::PARAMETER_REQUEST_LIST, &PARAM_REQUEST_LIST) {
            return false;
        }
        proof {
            dhcp::lemma_encoded_options_push(
                opts,
                option::PARAMETER_REQUEST_LIST,
                PARAM_REQUEST_LIST@,
            );
            opts = opts.push((option::PARAMETER_REQUEST_LIST, PARAM_REQUEST_LIST@));
            assert(opts =~= self.options(kind));
        }
        w.end()
    }

    fn build(&self, kind: MessageType, out: &mut [u8]) -> (r: Option<usize>)
        ensures
            r == built_len(Some(self.message_frame(kind)), old(out)@.len()),
            final(out)@ == built_into(old(out)@, Some(self.message_frame(kind))),
    {
        let mut buf: [u8; 512] = [0u8; PAYLOAD_MAX];
        let plen: usize = self.build_payload(kind, &mut buf);
        let params = UdpV4 {
            src_mac: self.mac,
            dst_mac: BROADCAST,
            src_ip: Ipv4Addr::unspecified(),
            dst_ip: Ipv4Addr::broadcast(),
            src_port: port::DHCP_CLIENT,
            dst_port: port::DHCP_SERVER,
            ttl: frame::DEFAULT_TTL,
        };
        assert(params == self.params());
        proof {
            frame::lemma_frame_len(params, buf@.subrange(0, plen as int));
        }
        frame::build_udp_ipv4(out, &params, &buf[0..plen])
    }

    fn build_payload(&self, kind: MessageType, buf: &mut [u8]) -> (r: usize)
        requires
            old(buf)@.len() == PAYLOAD_MAX,
        ensures
            final(buf)@.len() == PAYLOAD_MAX,
            r <= PAYLOAD_MAX,
            final(buf)@.subrange(0, r as int) == payload(self.header(), self.options(kind)),
    {
        let header = build_header(
            op::BOOTREQUEST,
            self.xid,
            true,
            Ipv4Addr::unspecified(),
            Ipv4Addr::unspecified(),
            self.mac,
        );
        let (head, tail) = buf.split_at_mut(DhcpHeader::LEN);
        header.store(head);
        let ghost h = head@;
        let mut w = OptionsWriter::new(tail);
        let _ = self.write_options(&mut w, kind);
        let n: usize = w.len();
        let ghost written = w.written();
        let ghost options = w.buf@;
        assert((h + options).subrange(0, 240 + n) =~= h + written);
        assert(h + (dhcp::encoded_options(self.options(kind)) + seq![option::END]) =~= payload(
            self.header(),
            self.options(kind),
        ));
        DhcpHeader::LEN + n
    }
}

/// What can happen to a client.
pub enum ClientEvent {
    /// It sent its next message.
    Sent,
    /// It received a message.
    Received(Message),
}

impl Evolving for DhcpClient {
    type Event = ClientEvent;

    open spec fn evolve(self, e: ClientEvent) -> Self {
        match e {
            ClientEvent::Sent => self.after_send(),
            ClientEvent::Received(m) => self.after_receive(m),
        }
    }
}

/// Whatever messages have made of a new client, it is the same one, and it is
/// bound only with a lease.
pub proof fn law_reached_client_is_bound_with_a_lease(start: DhcpClient, now: DhcpClient)
    requires
        start.state == ClientState::Init,
        history::reached(start, now),
    ensures
        now.mac == start.mac,
        now.xid == start.xid,
        now.state == ClientState::Bound ==> now.lease is Some,
        now.state == ClientState::Requesting ==> now.offered_ip is Some,
{
    let log = choose|log: Seq<ClientEvent>| #[trigger] history::replayed(start, log) == now;
    lemma_replayed_client(start, log);
}

proof fn lemma_replayed_client(start: DhcpClient, log: Seq<ClientEvent>)
    requires
        start.state == ClientState::Init,
    ensures
        ({
            let now = history::replayed(start, log);
            &&& now.mac == start.mac
            &&& now.xid == start.xid
            &&& now.state == ClientState::Bound ==> now.lease is Some
            &&& now.state == ClientState::Requesting ==> now.offered_ip is Some
        }),
    decreases log.len(),
{
    if log.len() > 0 {
        lemma_replayed_client(start, log.drop_last());
    }
}

impl Guarded for DhcpClient {
    open spec fn guarded(self, origin: Self) -> bool {
        history::reached(origin, self)
    }
}

/// A shared implementation of the DHCP client that can be used across workers.
///
/// What a call finds in the client is up to the other handles as well: the
/// contracts say what each call does with whatever it found. That is always
/// what messages have made of the client that the first handle was made of.
pub struct SharedDhcpClient {
    inner: Arc<SpinLock<DhcpClient>>,
}

impl Clone for SharedDhcpClient {
    /// Another handle to the same client.
    fn clone(&self) -> (r: Self)
        ensures
            r == *self,
    {
        SharedDhcpClient { inner: self.inner.clone() }
    }
}

impl From<DhcpClient> for SharedDhcpClient {
    fn from(value: DhcpClient) -> (r: Self)
        ensures
            r.made_with() == value,
    {
        proof {
            history::lemma_reached_itself(value);
        }
        SharedDhcpClient { inner: Arc::new(SpinLock::new(value)) }
    }
}

impl vstd::std_specs::convert::FromSpecImpl<DhcpClient> for SharedDhcpClient {
    /// Every handle is a new one.
    open spec fn obeys_from_spec() -> bool {
        false
    }

    open spec fn from_spec(value: DhcpClient) -> Self {
        arbitrary()
    }
}

impl SharedDhcpClient {
    /// The client that the handle was made of.
    pub closed spec fn made_with(self) -> DhcpClient {
        self.inner.made_with()
    }

    /// A call on this handle can find the client `c`.
    pub open spec fn may_find(self, c: DhcpClient) -> bool {
        history::reached(self.made_with(), c)
    }

    pub fn state(&self) -> (r: ClientState)
        ensures
            exists|found: DhcpClient| #[trigger] self.may_find(found) && r == found.state,
    {
        let guard = self.inner.lock();
        let r = guard.as_ref().state();
        assert(self.may_find(guard.value()));
        guard.unlock();
        r
    }

    pub fn lease(&self) -> (r: Option<DhcpLease>)
        ensures
            exists|found: DhcpClient| #[trigger] self.may_find(found) && r == found.lease,
    {
        let guard = self.inner.lock();
        let r = match guard.as_ref().lease() {
            Some(l) => Some(*l),
            None => None,
        };
        assert(self.may_find(guard.value()));
        guard.unlock();
        r
    }

    pub fn bound_ip(&self) -> (r: Option<Ipv4Addr>)
        ensures
            exists|found: DhcpClient| #[trigger]
                self.may_find(found) && r == found.spec_bound_ip(),
    {
        let guard = self.inner.lock();
        let r = guard.as_ref().bound_ip();
        assert(self.may_find(guard.value()));
        guard.unlock();
        r
    }

    /// Produce the next outbound message, as [`DhcpClient::poll`] does.
    pub fn poll(&self, out: &mut [u8]) -> (r: Option<usize>)
        ensures
            exists|found: DhcpClient|
                {
                    let next = found.next_frame();
                    &&& #[trigger] self.may_find(found)
                    &&& r == built_len(next, old(out)@.len())
                    &&& final(out)@ == built_into(old(out)@, next)
                },
    {
        let mut guard = self.inner.lock();
        proof {
            assert(self.may_find(guard.value()));
            history::lemma_reached_next(self.made_with(), guard.value(), ClientEvent::Sent);
        }
        let r = guard.as_mut().poll(out);
        guard.unlock();
        r
    }

    /// Feed a received DHCP message, as [`DhcpClient::on_receive`] does.
    pub fn on_receive(&self, view: &DhcpView<'_>)
        requires
            view.wf(),
    {
        let mut guard = self.inner.lock();
        proof {
            history::lemma_reached_next(
                self.made_with(),
                guard.value(),
                ClientEvent::Received(seen(*view)),
            );
        }
        guard.as_mut().on_receive(view);
        guard.unlock();
    }
}

/// The value of the first option with the code `code`.
proof fn lemma_first_value(opts: Seq<(u8, Seq<u8>)>, code: u8, i: int)
    requires
        0 <= i < opts.len(),
        opts[i].0 == code,
        forall|j: int| 0 <= j < i ==> (#[trigger] opts[j]).0 != code,
    ensures
        dhcp::first_value(opts, code) == Some(opts[i].1),
    decreases i,
{
    if i > 0 {
        let rest = opts.subrange(1, opts.len() as int);
        assert(opts[0].0 != code);
        assert forall|j: int| 0 <= j < i - 1 implies (#[trigger] rest[j]).0 != code by {
            assert(rest[j] == opts[j + 1]);
        }
        lemma_first_value(rest, code, i - 1);
    }
}

/// A code that no option has has no value.
proof fn lemma_no_value(opts: Seq<(u8, Seq<u8>)>, code: u8)
    requires
        forall|j: int| 0 <= j < opts.len() ==> (#[trigger] opts[j]).0 != code,
    ensures
        dhcp::first_value(opts, code) is None,
    decreases opts.len(),
{
    if opts.len() > 0 {
        let rest = opts.subrange(1, opts.len() as int);
        assert forall|j: int| 0 <= j < rest.len() implies (#[trigger] rest[j]).0 != code by {
            assert(rest[j] == opts[j + 1]);
        }
        assert(opts[0].0 != code);
        lemma_no_value(rest, code);
    }
}

/// The fields of a fixed header read back.
proof fn lemma_fixed_header(
    op: u8,
    xid: u32,
    flags: u16,
    yiaddr: Ipv4Addr,
    siaddr: Ipv4Addr,
    mac: MacAddr,
)
    ensures
        ({
            let h = fixed_header(op, xid, flags, yiaddr, siaddr, mac);
            &&& h.len() == 240
            &&& wire::be32(h, 4) == xid
            &&& wire::be16(h, 10) == flags
            &&& wire::be32(h, 12) == 0
            &&& wire::be32(h, 16) == yiaddr.bits
            &&& ethernet::mac_at(h, 28) == mac
        }),
{
    let h = fixed_header(op, xid, flags, yiaddr, siaddr, mac);
    wire::lemma_be32_value(xid);
    wire::lemma_be32_value(yiaddr.bits);
    let x = wire::bytes32(xid);
    let y = wire::bytes32(yiaddr.bits);
    let f = wire::bytes16(flags);
    assert(h[4] == x[0] && h[5] == x[1] && h[6] == x[2] && h[7] == x[3]);
    assert(h[10] == f[0] && h[11] == f[1]);
    assert(h[12] == 0 && h[13] == 0 && h[14] == 0 && h[15] == 0);
    assert(h[16] == y[0] && h[17] == y[1] && h[18] == y[2] && h[19] == y[3]);
    assert(h[28] == mac[0] && h[29] == mac[1] && h[30] == mac[2] && h[31] == mac[3] && h[32]
        == mac[4] && h[33] == mac[5]);
    assert(ethernet::mac_at(h, 28) =~= mac);
}

/// A DHCP message that was put into a frame is found in it again, with the
/// fields and the options it was built from.
pub proof fn law_message_reads_back(
    p: UdpV4,
    op: u8,
    xid: u32,
    flags: u16,
    yiaddr: Ipv4Addr,
    siaddr: Ipv4Addr,
    mac: MacAddr,
    options: Seq<(u8, Seq<u8>)>,
)
    requires
        view::is_bootp(p.src_port) || view::is_bootp(p.dst_port),
        dhcp::encodable(options),
        240 + dhcp::encoded_options(options).len() + 1 + 28 <= 0xffff,
    ensures
        frame_dhcp(
            p.frame(payload(fixed_header(op, xid, flags, yiaddr, siaddr, mac), options)),
        ) == Some(
            Message {
                xid,
                flags,
                client_ip: Ipv4Addr { bits: 0 },
                your_ip: yiaddr,
                mac,
                options,
            },
        ),
{
    let h = fixed_header(op, xid, flags, yiaddr, siaddr, mac);
    let body = payload(h, options);
    let f = p.frame(body);
    lemma_fixed_header(op, xid, flags, yiaddr, siaddr, mac);
    frame::law_built_frame_reads_back(p, body);
    let n = f.len() as int;
    assert(f.subrange(42, 282) =~= h) by {
        assert(f.subrange(42, n) == body);
        assert forall|i: int| 0 <= i < 240 implies f[42 + i] == h[i] by {
            assert(f.subrange(42, n)[i] == body[i]);
        }
    }
    assert(view::dhcp_options(f, 42, n) =~= dhcp::encoded_options(options) + seq![option::END]
        + Seq::<u8>::empty()) by {
        assert(f.subrange(42, n) == body);
        assert forall|i: int| 240 <= i < body.len() implies f[42 + i] == body[i] by {
            assert(f.subrange(42, n)[i] == body[i]);
        }
    }
    dhcp::law_options_round_trip(options, Seq::empty());
}

impl Bindings {
    /// No two clients have the same address, no leased address is free, and
    /// free and leased addresses lie within the bounds of the pool.
    pub open spec fn ok(self) -> bool {
        &&& forall|x: Ipv4Addr| #[trigger] self.pool.free.contains(x) ==> self.pool.covers(x)
        &&& forall|a: MacAddr| #[trigger]
            self.leases.dom().contains(a) ==> self.pool.covers(self.leases[a])
                && !self.pool.free.contains(self.leases[a])
        &&& forall|a: MacAddr, b: MacAddr|
            self.leases.dom().contains(a) && self.leases.dom().contains(b) && a != b
                ==> #[trigger] self.leases[a] != #[trigger] self.leases[b]
    }
}

/// A free address that is handed out was free.
pub proof fn lemma_lowest_is_free(s: Set<Ipv4Addr>)
    ensures
        pool::lowest(s) matches Some(x) ==> s.contains(x),
{
    if exists|x: Ipv4Addr| pool::is_lowest(s, x) {
        let x = choose|x: Ipv4Addr| pool::is_lowest(s, x);
        assert(pool::is_lowest(s, x));
    }
}

/// Once a client has been given an address it is given the same one again, and
/// asking again changes nothing.
pub proof fn law_assignment_is_stable(b: Bindings, mac: MacAddr)
    requires
        b.assigned(mac) is Some,
    ensures
        b.after_assign(mac).assigned(mac) == b.assigned(mac),
        b.after_assign(mac).after_assign(mac) == b.after_assign(mac),
        b.after_assign(mac).leases.get(mac) == b.assigned(mac),
{
}

/// Distinct clients have distinct addresses, and no address is leased and free
/// at once: every message that a server handles, and every address that is
/// reserved, keeps it so.
pub proof fn law_leases_stay_distinct(cfg: DhcpServerConfig, b: Bindings, m: Message, ip: Ipv4Addr)
    requires
        b.ok(),
    ensures
        cfg.after(b, m).ok(),
        (Bindings { pool: b.pool.reserved(ip), ..b }).ok(),
{
    lemma_lowest_is_free(b.pool.free);
    let after = cfg.after(b, m);
    assert forall|x: MacAddr, y: MacAddr|
        after.leases.dom().contains(x) && after.leases.dom().contains(y) && x
            != y implies #[trigger] after.leases[x] != #[trigger] after.leases[y] by {
        if b.leases.dom().contains(x) && b.leases.dom().contains(y) {
            assert(b.leases[x] != b.leases[y]);
        }
    }
}

/// A client without a lease is offered, or given, an address within the bounds
/// of the pool, one that was free.
pub proof fn law_new_lease_is_in_range(cfg: DhcpServerConfig, b: Bindings, m: Message)
    requires
        b.pool.wf(),
        !b.leases.dom().contains(m.mac),
    ensures
        b.assigned(m.mac) matches Some(ip) ==> b.pool.covers(ip) && b.pool.free.contains(ip),
        cfg.reply(b, m) matches Some(r) ==> r.kind == MessageType::Nak || b.pool.covers(r.your_ip)
            && b.pool.free.contains(r.your_ip),
{
    lemma_lowest_is_free(b.pool.free);
}

/// What a client gives back is free again, and what a client has is not.
pub proof fn law_released_address_is_free(b: Bindings, mac: MacAddr)
    requires
        b.ok(),
        b.leases.dom().contains(mac),
    ensures
        !b.pool.free.contains(b.leases[mac]),
        b.after_release(mac).pool.free.contains(b.leases[mac]),
        b.after_release(mac).leases.get(mac) is None,
{
}

/// The options of a reply can be encoded, and take up what they do.
proof fn lemma_reply_options(cfg: DhcpServerConfig, kind: MessageType)
    requires
        cfg.fits(kind),
    ensures
        dhcp::encodable(cfg.options(kind)),
        dhcp::encoded_options(cfg.options(kind)).len() <= 271,
{
    let o = cfg.options(kind);
    let none = Seq::<(u8, Seq<u8>)>::empty();
    let t = seq![kind.spec_to_u8()];
    let id = wire::bytes32(cfg.server_ip.bits);
    let a = none.push((option::MESSAGE_TYPE, t));
    let b = a.push((option::SERVER_ID, id));
    dhcp::lemma_encoded_options_push(none, option::MESSAGE_TYPE, t);
    dhcp::lemma_encoded_options_push(a, option::SERVER_ID, id);
    if kind == MessageType::Nak {
        assert(o =~= b);
    } else {
        let secs = wire::bytes32(cfg.lease_secs);
        let mask = wire::bytes32(cfg.subnet_mask.bits);
        let gw = wire::bytes32(cfg.gateway.bits);
        let c = b.push((option::LEASE_TIME, secs));
        let d = c.push((option::SUBNET_MASK, mask));
        let e = d.push((option::ROUTER, gw));
        dhcp::lemma_encoded_options_push(b, option::LEASE_TIME, secs);
        dhcp::lemma_encoded_options_push(c, option::SUBNET_MASK, mask);
        dhcp::lemma_encoded_options_push(d, option::ROUTER, gw);
        if cfg.dns@.len() == 0 {
            assert(o =~= e);
        } else {
            let list = dhcp::encoded_ipv4_list(cfg.dns@);
            dhcp::lemma_encoded_ipv4_list_len(cfg.dns@);
            dhcp::lemma_encoded_options_push(e, option::DNS_SERVER, list);
            assert(o =~= e.push((option::DNS_SERVER, list)));
        }
    }
}

/// What the options of a reply say.
proof fn lemma_reply_values(cfg: DhcpServerConfig, kind: MessageType)
    ensures
        ({
            let o = cfg.options(kind);
            &&& dhcp::first_value(o, option::MESSAGE_TYPE) == Some(seq![kind.spec_to_u8()])
            &&& dhcp::first_value(o, option::SERVER_ID) == Some(wire::bytes32(cfg.server_ip.bits))
            &&& kind != MessageType::Nak ==> {
                &&& dhcp::first_value(o, option::LEASE_TIME) == Some(wire::bytes32(cfg.lease_secs))
                &&& dhcp::first_value(o, option::SUBNET_MASK) == Some(
                    wire::bytes32(cfg.subnet_mask.bits),
                )
                &&& dhcp::first_value(o, option::ROUTER) == Some(wire::bytes32(cfg.gateway.bits))
            }
        }),
{
    let o = cfg.options(kind);
    assert(o[0].0 == option::MESSAGE_TYPE && o[1].0 == option::SERVER_ID);
    lemma_first_value(o, option::MESSAGE_TYPE, 0);
    lemma_first_value(o, option::SERVER_ID, 1);
    if kind != MessageType::Nak {
        assert(o[2].0 == option::LEASE_TIME && o[3].0 == option::SUBNET_MASK && o[4].0
            == option::ROUTER);
        lemma_first_value(o, option::LEASE_TIME, 2);
        lemma_first_value(o, option::SUBNET_MASK, 3);
        lemma_first_value(o, option::ROUTER, 4);
    }
}

/// An address that was stored in an option reads back from it.
proof fn lemma_stored_addr(ip: Ipv4Addr, secs: u32)
    ensures
        dhcp::spec_opt_ipv4(Some(wire::bytes32(ip.bits))) == Some(ip),
        dhcp::spec_opt_seconds(Some(wire::bytes32(secs))) == Some(secs),
        dhcp::ipv4_list_of(wire::bytes32(ip.bits)).len() == 1,
        dhcp::ipv4_list_of(wire::bytes32(ip.bits))[0] == ip,
{
    wire::lemma_be32_value(ip.bits);
    wire::lemma_be32_value(secs);
}

/// The message that a client finds in a reply.
pub open spec fn reply_message(
    cfg: DhcpServerConfig,
    r: Reply,
    xid: u32,
    client: MacAddr,
) -> Message {
    Message {
        xid,
        flags: 0,
        client_ip: Ipv4Addr { bits: 0 },
        your_ip: r.your_ip,
        mac: client,
        options: cfg.options(r.kind),
    }
}

/// A reply that fits in a message is found in the frame that carries it: it is
/// of the kind that was decided on, names the server, and, unless it is a NAK,
/// brings the lease time, the subnet mask and the gateway.
pub proof fn law_reply_reads_back(cfg: DhcpServerConfig, r: Reply, xid: u32, client: MacAddr)
    requires
        cfg.fits(r.kind),
    ensures
        ({
            let m = reply_message(cfg, r, xid, client);
            &&& cfg.reply_frame(r, xid, client) matches Some(f) && frame_dhcp(f) == Some(m)
            &&& m.kind() == Some(r.kind)
            &&& m.addr(option::SERVER_ID) == Some(cfg.server_ip)
            &&& r.kind != MessageType::Nak ==> {
                &&& m.addr(option::SUBNET_MASK) == Some(cfg.subnet_mask)
                &&& m.first_addr(option::ROUTER) == Some(cfg.gateway)
                &&& dhcp::spec_opt_seconds(m.value(option::LEASE_TIME)) == Some(cfg.lease_secs)
            }
        }),
{
    lemma_reply_options(cfg, r.kind);
    lemma_reply_values(cfg, r.kind);
    law_message_reads_back(
        cfg.params(r, client),
        op::BOOTREPLY,
        xid,
        0,
        r.your_ip,
        cfg.server_ip,
        client,
        cfg.options(r.kind),
    );
    lemma_stored_addr(cfg.server_ip, cfg.lease_secs);
    lemma_stored_addr(cfg.subnet_mask, 0);
    lemma_stored_addr(cfg.gateway, 0);
    dhcp::law_message_type_round_trip(r.kind, 0);
}

/// The message that a server finds in what a client sends.
pub open spec fn client_message(c: DhcpClient, kind: MessageType) -> Message {
    Message {
        xid: c.xid,
        flags: dhcp::BROADCAST_FLAG,
        client_ip: Ipv4Addr { bits: 0 },
        your_ip: Ipv4Addr { bits: 0 },
        mac: c.mac,
        options: c.options(kind),
    }
}

/// The options of a client's message can be encoded, and take up what they do.
proof fn lemma_client_options(c: DhcpClient, kind: MessageType)
    ensures
        dhcp::encodable(c.options(kind)),
        dhcp::encoded_options(c.options(kind)).len() <= 271,
{
    let none = Seq::<(u8, Seq<u8>)>::empty();
    let t = seq![kind.spec_to_u8()];
    let a = none.push((option::MESSAGE_TYPE, t));
    dhcp::lemma_encoded_options_push(none, option::MESSAGE_TYPE, t);
    let b = match c.offered_ip {
        Some(ip) => if kind == MessageType::Request {
            a.push((option::REQUESTED_IP, wire::bytes32(ip.bits)))
        } else {
            a
        },
        None => a,
    };
    if c.offered_ip is Some {
        let ip = c.offered_ip->0;
        dhcp::lemma_encoded_options_push(a, option::REQUESTED_IP, wire::bytes32(ip.bits));
    }
    let d = match c.server_id {
        Some(id) => if kind == MessageType::Request {
            b.push((option::SERVER_ID, wire::bytes32(id.bits)))
        } else {
            b
        },
        None => b,
    };
    if c.server_id is Some {
        let id = c.server_id->0;
        dhcp::lemma_encoded_options_push(b, option::SERVER_ID, wire::bytes32(id.bits));
    }
    dhcp::lemma_encoded_options_push(d, option::PARAMETER_REQUEST_LIST, PARAM_REQUEST_LIST@);
    assert(c.options(kind) =~= d.push((option::PARAMETER_REQUEST_LIST, PARAM_REQUEST_LIST@)));
}

/// What a client sends is found in the frame that carries it: a message of the
/// kind that was sent, and in a REQUEST the address and the server that the
/// client was offered.
pub proof fn law_client_message_reads_back(c: DhcpClient, kind: MessageType)
    ensures
        frame_dhcp(c.message_frame(kind)) == Some(client_message(c, kind)),
        client_message(c, kind).kind() == Some(kind),
        client_message(c, kind).broadcast(),
        kind == MessageType::Request ==> {
            &&& client_message(c, kind).addr(option::REQUESTED_IP) == c.offered_ip
            &&& client_message(c, kind).addr(option::SERVER_ID) == c.server_id
        },
{
    let o = c.options(kind);
    lemma_client_options(c, kind);
    law_message_reads_back(
        c.params(),
        op::BOOTREQUEST,
        c.xid,
        dhcp::BROADCAST_FLAG,
        Ipv4Addr { bits: 0 },
        Ipv4Addr { bits: 0 },
        c.mac,
        o,
    );
    dhcp::law_message_type_round_trip(kind, 0);
    assert(dhcp::BROADCAST_FLAG & dhcp::BROADCAST_FLAG != 0) by (bit_vector);
    assert(o[0].0 == option::MESSAGE_TYPE);
    lemma_first_value(o, option::MESSAGE_TYPE, 0);
    if kind == MessageType::Request {
        match c.offered_ip {
            Some(ip) => {
                lemma_stored_addr(ip, 0);
                assert(o[1].0 == option::REQUESTED_IP);
                lemma_first_value(o, option::REQUESTED_IP, 1);
            },
            None => {
                lemma_no_value(o, option::REQUESTED_IP);
            },
        }
        match c.server_id {
            Some(id) => {
                lemma_stored_addr(id, 0);
                let at: int = if c.offered_ip is Some {
                    2
                } else {
                    1
                };
                assert(o[at].0 == option::SERVER_ID);
                lemma_first_value(o, option::SERVER_ID, at);
            },
            None => {
                lemma_no_value(o, option::SERVER_ID);
            },
        }
    }
}

/// The whole exchange: a new client's DISCOVER is answered with an offer of the
/// address that is assigned to it, its REQUEST with an ACK for the same
/// address, and the client ends up bound to it with what the server is
/// configured to hand out. The REQUEST may reach another server of the bridged
/// LAN that shares the server identity and the bindings.
pub proof fn law_discover_offer_request_ack(
    first: DhcpServerConfig,
    second: DhcpServerConfig,
    b: Bindings,
    mac: MacAddr,
    xid: u32,
)
    requires
        b.assigned(mac) is Some,
        first.dns@.len() <= DNS_MAX,
        second.dns@.len() <= DNS_MAX,
        first.server_ip == second.server_ip,
    ensures
        ({
            let ip = b.assigned(mac)->0;
            let fresh = DhcpClient {
                mac,
                xid,
                state: ClientState::Init,
                offered_ip: None,
                server_id: None,
                lease: None,
            };
            // DISCOVER -> OFFER
            let discover = frame_dhcp(fresh.next_frame()->0)->0;
            let offer = first.answer(b, discover)->0;
            let selecting = fresh.after_send();
            let requesting = selecting.after_receive(frame_dhcp(offer)->0);
            let offered = first.after(b, discover);
            // REQUEST -> ACK
            let request = frame_dhcp(requesting.next_frame()->0)->0;
            let ack = second.answer(offered, request)->0;
            let bound = requesting.after_receive(frame_dhcp(ack)->0);
            &&& fresh.next_frame() is Some && frame_dhcp(fresh.next_frame()->0) is Some
            &&& first.answer(b, discover) is Some && frame_dhcp(offer) is Some
            &&& selecting.state == ClientState::Selecting
            &&& requesting.state == ClientState::Requesting
            &&& requesting.offered_ip == Some(ip)
            &&& offered.leases.get(mac) == Some(ip)
            &&& requesting.next_frame() is Some && frame_dhcp(requesting.next_frame()->0) is Some
            &&& second.answer(offered, request) is Some && frame_dhcp(ack) is Some
            &&& second.after(offered, request) == offered
            &&& bound.state == ClientState::Bound
            &&& bound.lease == Some(
                DhcpLease {
                    ip,
                    subnet_mask: Some(second.subnet_mask),
                    gateway: Some(second.gateway),
                    server_id: Some(second.server_ip),
                    lease_secs: Some(second.lease_secs),
                },
            )
        }),
{
    let ip = b.assigned(mac)->0;
    let fresh = DhcpClient {
        mac,
        xid,
        state: ClientState::Init,
        offered_ip: None,
        server_id: None,
        lease: None,
    };
    law_client_message_reads_back(fresh, MessageType::Discover);
    let discover = client_message(fresh, MessageType::Discover);
    let offer = Reply { kind: MessageType::Offer, your_ip: ip, broadcast: discover.broadcast() };
    assert(first.reply(b, discover) == Some(offer));
    law_reply_reads_back(first, offer, xid, mac);
    let offered = first.after(b, discover);
    law_assignment_is_stable(b, mac);
    let requesting = fresh.after_send().after_receive(reply_message(first, offer, xid, mac));
    law_client_message_reads_back(requesting, MessageType::Request);
    let request = client_message(requesting, MessageType::Request);
    assert(!second.other_server(request));
    let ack = Reply { kind: MessageType::Ack, your_ip: ip, broadcast: request.broadcast() };
    assert(second.reply(offered, request) == Some(ack));
    law_reply_reads_back(second, ack, xid, mac);
}

/// A client that asks for an address other than the one it gets is refused, and
/// a refused client starts over.
pub proof fn law_refused_request_starts_over(
    cfg: DhcpServerConfig,
    b: Bindings,
    c: DhcpClient,
    m: Message,
)
    requires
        m.kind() == Some(MessageType::Request),
        m.xid == c.xid,
        !cfg.other_server(m),
        b.assigned(m.mac) matches Some(ip) && ip != m.requested(),
    ensures
        cfg.answer(b, m) matches Some(f) && frame_dhcp(f) matches Some(nak) && c.after_receive(
            nak,
        ) == (DhcpClient { state: ClientState::Init, offered_ip: None, server_id: None, ..c }),
{
    let nak = Reply { kind: MessageType::Nak, your_ip: Ipv4Addr { bits: 0 }, broadcast: true };
    assert(cfg.reply(b, m) == Some(nak));
    law_reply_reads_back(cfg, nak, m.xid, m.mac);
}

/// A datagram from or to a BOOTP port that is long enough is a DHCP message,
/// with its fields where they stand, and nothing else is one. Its options run
/// from the magic cookie to the end of the datagram.
pub proof fn law_message_is_found(f: Seq<u8>, l3: int, l4: int, end: int)
    ensures
        anatomy::udp_at(f, l3, l4, end) ==> {
            let src = anatomy::num16(f, l4);
            let dst = anatomy::num16(f, l4 + 2);
            let b = l4 + 8;
            let last = anatomy::udp_end(f, l4, end);
            &&& frame_dhcp(f) is Some <==> (src == 67 || src == 68 || dst == 67 || dst == 68) && b
                + 240 <= f.len()
            &&& frame_dhcp(f) matches Some(m) ==> {
                &&& m.xid == anatomy::num32(f, b + 4)
                &&& m.flags == anatomy::num16(f, b + 10)
                &&& m.client_ip.bits == anatomy::num32(f, b + 12)
                &&& m.your_ip.bits == anatomy::num32(f, b + 16)
                &&& anatomy::mac_is(f, b + 28, m.mac)
                &&& m.options == if b + 240 <= last {
                    dhcp::options_of(f.subrange(b + 240, last))
                } else {
                    seq![]
                }
            }
        },
        frame_dhcp(f) is Some ==> exists|l3: int, l4: int, end: int| #[trigger]
            anatomy::udp_at(f, l3, l4, end),
{
    anatomy::law_packets_are_found(f, l3, l4, end);
    if frame_dhcp(f) is Some {
        let ip = view::frame_ipv4(f)->0;
        anatomy::law_packets_are_found(f, ip.start, ip.l4_start, ip.end);
        assert(anatomy::udp_at(f, ip.start, ip.l4_start, ip.end));
    }
    if anatomy::udp_at(f, l3, l4, end) && l4 + 248 <= f.len() {
        let b = l4 + 8;
        let h = f.subrange(b, b + 240);
        let last = anatomy::udp_end(f, l4, end);
        assert(h[4] == f[b + 4] && h[5] == f[b + 5] && h[6] == f[b + 6] && h[7] == f[b + 7]);
        assert(h[10] == f[b + 10] && h[11] == f[b + 11]);
        assert(h[12] == f[b + 12] && h[13] == f[b + 13] && h[14] == f[b + 14] && h[15] == f[b
            + 15]);
        assert(h[16] == f[b + 16] && h[17] == f[b + 17] && h[18] == f[b + 18] && h[19] == f[b
            + 19]);
        assert(h[28] == f[b + 28] && h[29] == f[b + 29] && h[30] == f[b + 30] && h[31] == f[b + 31]
            && h[32] == f[b + 32] && h[33] == f[b + 33]);
        let o = view::dhcp_options(f, b, last);
        if b + 240 <= last {
            assert(o =~= f.subrange(b + 240, last));
        } else {
            assert(o.len() == 0);
            dhcp::law_options_are_read(o, 1, o, o);
        }
    }
}

/// What a message says is in its options, by their numbers: 53 is its type, 50
/// the address that is asked for, 54 the server that is meant, 1 the mask and 3
/// the gateways. A client asks for the address of option 50, or else for the one
/// it says it has.
pub proof fn law_message_speaks_by_its_options(m: Message, code: u8)
    ensures
        m.value(code) == dhcp::first_value(m.options, code),
        m.kind() == match dhcp::first_value(m.options, 53) {
            Some(v) => if v.len() > 0 {
                MessageType::spec_from_u8(v[0])
            } else {
                None
            },
            None => None,
        },
        m.broadcast() <==> m.flags >= 0x8000,
        m.addr(code) == dhcp::spec_opt_ipv4(dhcp::first_value(m.options, code)),
        m.first_addr(code) == match dhcp::first_value(m.options, code) {
            Some(v) => if v.len() >= 4 {
                Some(Ipv4Addr { bits: anatomy::num32(v, 0) as u32 })
            } else {
                None
            },
            None => None,
        },
        m.requested() == match dhcp::spec_opt_ipv4(dhcp::first_value(m.options, 50)) {
            Some(ip) => ip,
            None => m.client_ip,
        },
{
    let w = m.flags;
    assert((w & 0x8000 != 0) == (w >= 0x8000)) by (bit_vector);
    if let Some(v) = dhcp::first_value(m.options, code) {
        dhcp::law_option_values(v, 0);
        anatomy::law_network_order(v, 0, 0, 0);
    }
}

/// A set of addresses that is not empty has a lowest one.
proof fn lemma_has_lowest(s: Set<Ipv4Addr>, x: Ipv4Addr)
    requires
        s.contains(x),
    ensures
        exists|y: Ipv4Addr| pool::is_lowest(s, y),
    decreases x.bits,
{
    if exists|y: Ipv4Addr| s.contains(y) && y.bits < x.bits {
        let y = choose|y: Ipv4Addr| s.contains(y) && y.bits < x.bits;
        lemma_has_lowest(s, y);
    } else {
        assert(pool::is_lowest(s, x));
    }
}

/// Who gets which address: a client that has a lease gets that address; another
/// gets the lowest free one, which is then its own and no longer free. A client
/// goes without only if there is no free address left. No other client's lease
/// is touched.
pub proof fn law_who_gets_which_address(
    b: Bindings,
    mac: MacAddr,
    other: MacAddr,
    x: Ipv4Addr,
)
    requires
        other != mac,
    ensures
        ({
            let after = b.after_assign(mac);
            let free = b.pool.free;
            &&& b.leases.dom().contains(mac) ==> b.assigned(mac) == Some(b.leases[mac]) && after
                == b
            &&& !b.leases.dom().contains(mac) ==> match b.assigned(mac) {
                Some(ip) => {
                    &&& free.contains(ip)
                    &&& free.contains(x) ==> ip.bits <= x.bits
                    &&& after.leases.get(mac) == Some(ip)
                    &&& after.pool.free.contains(x) <==> free.contains(x) && x != ip
                },
                None => !free.contains(x) && after == b,
            }
            &&& after.leases.get(other) == b.leases.get(other)
            &&& after.pool.start == b.pool.start && after.pool.end == b.pool.end
        }),
{
    if !b.leases.dom().contains(mac) && b.pool.free.contains(x) {
        lemma_has_lowest(b.pool.free, x);
    }
    if exists|y: Ipv4Addr| pool::is_lowest(b.pool.free, y) {
        let y = choose|y: Ipv4Addr| pool::is_lowest(b.pool.free, y);
        assert(pool::is_lowest(b.pool.free, y));
    }
}

/// What the server does about a message, by its type. A DISCOVER is answered
/// with an offer. A REQUEST that names no server, or this one, is answered with
/// an ACK if it asks for the address that the client gets, and with a NAK
/// otherwise; one that names another server is left alone. A RELEASE or DECLINE
/// frees the client's address. Nothing else is answered or has any effect.
pub proof fn law_what_the_server_does(
    cfg: DhcpServerConfig,
    b: Bindings,
    m: Message,
    other: MacAddr,
    x: Ipv4Addr,
)
    requires
        other != m.mac,
    ensures
        ({
            let after = cfg.after(b, m);
            let reply = cfg.reply(b, m);
            let meant = match dhcp::spec_opt_ipv4(dhcp::first_value(m.options, 54)) {
                Some(id) => id == cfg.server_ip,
                None => true,
            };
            let asks = m.kind() == Some(MessageType::Discover) || m.kind() == Some(
                MessageType::Request,
            ) && meant;
            let gives_back = m.kind() == Some(MessageType::Release) || m.kind() == Some(
                MessageType::Decline,
            );
            &&& asks ==> after == b.after_assign(m.mac)
            &&& asks && b.assigned(m.mac) is None ==> reply is None
            &&& !asks ==> reply is None
            &&& asks ==> match b.assigned(m.mac) {
                None => reply is None,
                Some(ip) => {
                    &&& reply is Some
                    &&& m.kind() == Some(MessageType::Discover) ==> reply->0.kind
                        == MessageType::Offer && reply->0.your_ip == ip && reply->0.broadcast
                        == m.broadcast()
                    &&& m.kind() == Some(MessageType::Request) && m.requested() == ip
                        ==> reply->0.kind == MessageType::Ack && reply->0.your_ip == ip
                        && reply->0.broadcast == m.broadcast()
                    &&& m.kind() == Some(MessageType::Request) && m.requested() != ip
                        ==> reply->0.kind == MessageType::Nak && reply->0.your_ip.bits == 0
                },
            }
            &&& gives_back ==> {
                &&& after.leases.get(m.mac) is None
                &&& after.leases.get(other) == b.leases.get(other)
                &&& after.pool.free.contains(x) <==> b.pool.free.contains(x) || b.leases.get(m.mac)
                    == Some(x) && b.pool.start.bits <= x.bits <= b.pool.end.bits
            }
            &&& !asks && !gives_back ==> after == b
            &&& after.pool.start == b.pool.start && after.pool.end == b.pool.end
        }),
{
}

/// The options of a reply, by number and in order.
proof fn lemma_reply_option_list(cfg: DhcpServerConfig, kind: MessageType)
    ensures
        ({
            let o = cfg.options(kind);
            &&& o.len() == if kind == MessageType::Nak {
                2int
            } else if cfg.dns@.len() == 0 {
                5
            } else {
                6
            }
            &&& o[0] == (53u8, seq![kind.spec_to_u8()])
            &&& o[1] == (54u8, wire::bytes32(cfg.server_ip.bits))
            &&& kind != MessageType::Nak ==> {
                &&& o[2] == (51u8, wire::bytes32(cfg.lease_secs))
                &&& o[3] == (1u8, wire::bytes32(cfg.subnet_mask.bits))
                &&& o[4] == (3u8, wire::bytes32(cfg.gateway.bits))
                &&& cfg.dns@.len() > 0 ==> o[5] == (6u8, dhcp::encoded_ipv4_list(cfg.dns@))
            }
        }),
{
}

/// Every reply says what kind it is and which server it comes from; an offer and
/// an ACK alike bring the lease time, the subnet mask, the gateway and all of the
/// configured name servers, in order; a NAK brings none of them.
pub proof fn law_reply_brings_the_configuration(
    cfg: DhcpServerConfig,
    r: Reply,
    xid: u32,
    client: MacAddr,
)
    requires
        r.kind == MessageType::Nak || cfg.dns@.len() <= 60,
    ensures
        cfg.reply_frame(r, xid, client) is Some,
        frame_dhcp(cfg.reply_frame(r, xid, client)->0) matches Some(m) && {
            let says = |code: u8| dhcp::first_value(m.options, code);
            &&& m.xid == xid
            &&& m.mac == client
            &&& m.your_ip == r.your_ip
            &&& m.client_ip.bits == 0
            &&& m.kind() == Some(r.kind)
            &&& dhcp::spec_opt_ipv4(says(54)) == Some(cfg.server_ip)
            &&& r.kind != MessageType::Nak ==> {
                &&& dhcp::spec_opt_seconds(says(51)) == Some(cfg.lease_secs)
                &&& dhcp::spec_opt_ipv4(says(1)) == Some(cfg.subnet_mask)
                &&& dhcp::spec_opt_ipv4(says(3)) == Some(cfg.gateway)
                &&& cfg.dns@.len() > 0 ==> says(6) is Some && dhcp::ipv4_list_of(says(6)->0)
                    == cfg.dns@
                &&& cfg.dns@.len() == 0 ==> says(6) is None
            }
            &&& r.kind == MessageType::Nak ==> says(51) is None && says(1) is None && says(3)
                is None && says(6) is None
        },
{
    law_reply_reads_back(cfg, r, xid, client);
    lemma_reply_option_list(cfg, r.kind);
    lemma_listed_values(cfg.options(r.kind));
    assert(dhcp::spec_opt_ipv4(Some(wire::bytes32(cfg.server_ip.bits))) == Some(cfg.server_ip)) by {
        lemma_stored_addr(cfg.server_ip, 0);
    }
    if r.kind != MessageType::Nak {
        lemma_stored_addr(cfg.subnet_mask, cfg.lease_secs);
        lemma_stored_addr(cfg.gateway, 0);
        dhcp::law_ipv4_list_round_trip(cfg.dns@);
    }
}

/// Where the values of a reply's options stand.
proof fn lemma_listed_values(o: Seq<(u8, Seq<u8>)>)
    requires
        o.len() == 2 || o.len() == 5 || o.len() == 6,
        o[0].0 == 53,
        o[1].0 == 54,
        o.len() > 2 ==> o[2].0 == 51 && o[3].0 == 1 && o[4].0 == 3,
        o.len() > 5 ==> o[5].0 == 6,
    ensures
        dhcp::first_value(o, 54) == Some(o[1].1),
        o.len() > 2 ==> {
            &&& dhcp::first_value(o, 51) == Some(o[2].1)
            &&& dhcp::first_value(o, 1) == Some(o[3].1)
            &&& dhcp::first_value(o, 3) == Some(o[4].1)
        },
        o.len() == 2 ==> dhcp::first_value(o, 51) is None && dhcp::first_value(o, 1) is None
            && dhcp::first_value(o, 3) is None,
        o.len() > 5 ==> dhcp::first_value(o, 6) == Some(o[5].1),
        o.len() <= 5 ==> dhcp::first_value(o, 6) is None,
{
    lemma_first_value(o, 54, 1);
    if o.len() > 2 {
        lemma_first_value(o, 51, 2);
        lemma_first_value(o, 1, 3);
        lemma_first_value(o, 3, 4);
    } else {
        lemma_no_value(o, 51);
        lemma_no_value(o, 1);
        lemma_no_value(o, 3);
    }
    if o.len() > 5 {
        lemma_first_value(o, 6, 5);
    } else {
        lemma_no_value(o, 6);
    }
}

/// The 240 bytes of a BOOTP header between Ethernet hosts.
pub open spec fn bootp_bytes(
    h: Seq<u8>,
    op: int,
    xid: int,
    flags: int,
    yours: Ipv4Addr,
    server: Ipv4Addr,
    client: MacAddr,
) -> bool {
    &&& h.len() >= 240
    &&& h[0] == op
    &&& h[1] == 1
    &&& h[2] == 6
    &&& h[3] == 0
    &&& anatomy::num32(h, 4) == xid
    &&& anatomy::num16(h, 8) == 0
    &&& anatomy::num16(h, 10) == flags
    &&& anatomy::num32(h, 12) == 0
    &&& anatomy::ip_is(h, 16, yours)
    &&& anatomy::ip_is(h, 20, server)
    &&& anatomy::num32(h, 24) == 0
    &&& anatomy::mac_is(h, 28, client)
    &&& forall|i: int| 34 <= i < 236 ==> #[trigger] h[i] == 0
    &&& h[236] == 99
    &&& h[237] == 130
    &&& h[238] == 83
    &&& h[239] == 99
}

proof fn lemma_bootp_bytes(
    op: u8,
    xid: u32,
    flags: u16,
    yiaddr: Ipv4Addr,
    siaddr: Ipv4Addr,
    mac: MacAddr,
    rest: Seq<u8>,
)
    ensures
        bootp_bytes(
            fixed_header(op, xid, flags, yiaddr, siaddr, mac) + rest,
            op as int,
            xid as int,
            flags as int,
            yiaddr,
            siaddr,
            mac,
        ),
{
    let f = fixed_header(op, xid, flags, yiaddr, siaddr, mac);
    let h = f + rest;
    assert(f.len() == 240);
    wire::lemma_be32_value(xid);
    wire::lemma_be32_value(yiaddr.bits);
    wire::lemma_be32_value(siaddr.bits);
    let (x, y, z, g) = (
        wire::bytes32(xid),
        wire::bytes32(yiaddr.bits),
        wire::bytes32(siaddr.bits),
        wire::bytes16(flags),
    );
    assert(h[0] == op && h[1] == 1 && h[2] == 6 && h[3] == 0);
    assert(h[4] == x[0] && h[5] == x[1] && h[6] == x[2] && h[7] == x[3]);
    assert(h[8] == 0 && h[9] == 0);
    assert(h[10] == g[0] && h[11] == g[1]);
    assert(h[12] == 0 && h[13] == 0 && h[14] == 0 && h[15] == 0);
    assert(h[16] == y[0] && h[17] == y[1] && h[18] == y[2] && h[19] == y[3]);
    assert(h[20] == z[0] && h[21] == z[1] && h[22] == z[2] && h[23] == z[3]);
    assert(h[24] == 0 && h[25] == 0 && h[26] == 0 && h[27] == 0);
    assert(h[28] == mac[0] && h[29] == mac[1] && h[30] == mac[2] && h[31] == mac[3] && h[32]
        == mac[4] && h[33] == mac[5]);
    assert(h[236] == 99 && h[237] == 130 && h[238] == 83 && h[239] == 99);
}

/// The bytes of a reply and where it goes: from the server's address and port to
/// the client's port, to the client itself, or to everyone if the client asked
/// for that or is refused.
pub proof fn law_reply_bytes(cfg: DhcpServerConfig, r: Reply, xid: u32, client: MacAddr)
    requires
        r.kind == MessageType::Nak || cfg.dns@.len() <= 60,
    ensures
        ({
            let f = cfg.reply_frame(r, xid, client)->0;
            let body = f.subrange(42, f.len() as int);
            let to_all = r.broadcast || r.kind == MessageType::Nak;
            &&& cfg.reply_frame(r, xid, client) is Some
            &&& to_all ==> anatomy::datagram_bytes(
                f,
                [255u8, 255, 255, 255, 255, 255],
                cfg.server_mac,
                cfg.server_ip,
                Ipv4Addr { bits: 0xffff_ffff },
                67,
                68,
                64,
                body,
            )
            &&& !to_all ==> anatomy::datagram_bytes(
                f,
                client,
                cfg.server_mac,
                cfg.server_ip,
                r.your_ip,
                67,
                68,
                64,
                body,
            )
            &&& bootp_bytes(body, 2, xid as int, 0, r.your_ip, cfg.server_ip, client)
        }),
{
    let h = cfg.header(xid, r.your_ip, client);
    let o = cfg.options(r.kind);
    let body = payload(h, o);
    lemma_reply_options(cfg, r.kind);
    lemma_fixed_header(op::BOOTREPLY, xid, 0, r.your_ip, cfg.server_ip, client);
    frame::law_built_frame_bytes(cfg.params(r, client), body);
    lemma_bootp_bytes(
        op::BOOTREPLY,
        xid,
        0,
        r.your_ip,
        cfg.server_ip,
        client,
        dhcp::encoded_options(o) + seq![option::END],
    );
    assert(body =~= h + (dhcp::encoded_options(o) + seq![option::END]));
}

/// A reply is left out only if its options do not fit: it lists more than sixty
/// name servers.
pub proof fn law_reply_fits(cfg: DhcpServerConfig, r: Reply, xid: u32, client: MacAddr)
    ensures
        cfg.reply_frame(r, xid, client) is Some <==> r.kind == MessageType::Nak || cfg.dns@.len()
            <= 60,
        forall|b: Bindings, m: Message| #[trigger] cfg.answer(b, m) == match cfg.reply(b, m) {
            Some(reply) => cfg.reply_frame(reply, m.xid, m.mac),
            None => None,
        },
{
}

/// What the client sends, and when: a DISCOVER to begin with, and a REQUEST for
/// what it was offered, again and again until it is answered. Both go from no
/// address to everyone; a REQUEST names the offered address and the server that
/// offered it. The client waits for an offer once it sent its DISCOVER.
pub proof fn law_what_the_client_sends(c: DhcpClient)
    ensures
        c.state == ClientState::Selecting || c.state == ClientState::Bound ==> c.next_frame()
            is None,
        c.state == ClientState::Init ==> c.next_frame() == Some(
            c.message_frame(MessageType::Discover),
        ) && c.after_send() == (DhcpClient { state: ClientState::Selecting, ..c }),
        c.state == ClientState::Requesting ==> c.next_frame() == Some(
            c.message_frame(MessageType::Request),
        ) && c.after_send() == c,
        c.next_frame() matches Some(f) ==> {
            let body = f.subrange(42, f.len() as int);
            &&& anatomy::datagram_bytes(
                f,
                [255u8, 255, 255, 255, 255, 255],
                c.mac,
                Ipv4Addr { bits: 0 },
                Ipv4Addr { bits: 0xffff_ffff },
                68,
                67,
                64,
                body,
            )
            &&& bootp_bytes(
                body,
                1,
                c.xid as int,
                0x8000,
                Ipv4Addr { bits: 0 },
                Ipv4Addr { bits: 0 },
                c.mac,
            )
            &&& frame_dhcp(f) matches Some(m) && {
                &&& m.xid == c.xid
                &&& m.mac == c.mac
                &&& m.broadcast()
                &&& c.state == ClientState::Init ==> m.kind() == Some(MessageType::Discover)
                    && m.value(50) is None && m.value(54) is None
                &&& c.state == ClientState::Requesting ==> m.kind() == Some(MessageType::Request)
                    && m.addr(50) == c.offered_ip && m.addr(54) == c.server_id
                &&& m.value(55) == Some(seq![1u8, 3u8, 6u8, 51u8])
            }
        },
{
    if let Some(kind) = c.next_kind() {
        lemma_client_bytes(c, kind);
        lemma_client_says(c, kind);
    }
}

proof fn lemma_client_bytes(c: DhcpClient, kind: MessageType)
    ensures
        ({
            let f = c.message_frame(kind);
            let body = f.subrange(42, f.len() as int);
            &&& anatomy::datagram_bytes(
                f,
                [255u8, 255, 255, 255, 255, 255],
                c.mac,
                Ipv4Addr { bits: 0 },
                Ipv4Addr { bits: 0xffff_ffff },
                68,
                67,
                64,
                body,
            )
            &&& bootp_bytes(
                body,
                1,
                c.xid as int,
                0x8000,
                Ipv4Addr { bits: 0 },
                Ipv4Addr { bits: 0 },
                c.mac,
            )
        }),
{
    let h = c.header();
    let o = c.options(kind);
    let body = payload(h, o);
    lemma_client_options(c, kind);
    lemma_fixed_header(
        op::BOOTREQUEST,
        c.xid,
        dhcp::BROADCAST_FLAG,
        Ipv4Addr { bits: 0 },
        Ipv4Addr { bits: 0 },
        c.mac,
    );
    frame::law_built_frame_bytes(c.params(), body);
    lemma_bootp_bytes(
        op::BOOTREQUEST,
        c.xid,
        dhcp::BROADCAST_FLAG,
        Ipv4Addr { bits: 0 },
        Ipv4Addr { bits: 0 },
        c.mac,
        dhcp::encoded_options(o) + seq![option::END],
    );
    assert(body =~= h + (dhcp::encoded_options(o) + seq![option::END]));
}

proof fn lemma_client_says(c: DhcpClient, kind: MessageType)
    requires
        kind == MessageType::Discover || kind == MessageType::Request,
    ensures
        frame_dhcp(c.message_frame(kind)) matches Some(m) && {
            &&& m.xid == c.xid
            &&& m.mac == c.mac
            &&& m.broadcast()
            &&& m.kind() == Some(kind)
            &&& kind == MessageType::Discover ==> m.value(50) is None && m.value(54) is None
            &&& kind == MessageType::Request ==> m.addr(50) == c.offered_ip && m.addr(54)
                == c.server_id
            &&& m.value(55) == Some(seq![1u8, 3u8, 6u8, 51u8])
        },
{
    let o = c.options(kind);
    law_client_message_reads_back(c, kind);
    let last = o.len() - 1;
    assert(o[last] == (55u8, PARAM_REQUEST_LIST@));
    assert(PARAM_REQUEST_LIST@ =~= seq![1u8, 3u8, 6u8, 51u8]);
    assert(o[0].0 == 53);
    lemma_first_value(o, 55, last);
    if kind == MessageType::Discover {
        lemma_no_value(o, 50);
        lemma_no_value(o, 54);
    }
}

/// What the client makes of a message: it takes up an offer that it waits for,
/// is bound by the ACK that it waits for, with all that the ACK brings, and
/// starts over after a NAK. Messages of other transactions, and whatever else
/// comes at another time, leave it as it is.
pub proof fn law_what_the_client_takes_up(c: DhcpClient, m: Message)
    ensures
        ({
            let after = c.after_receive(m);
            let says = |code: u8| dhcp::first_value(m.options, code);
            let offer = m.kind() == Some(MessageType::Offer) && c.state == ClientState::Selecting;
            let ack = m.kind() == Some(MessageType::Ack) && c.state == ClientState::Requesting;
            let nak = m.kind() == Some(MessageType::Nak);
            &&& after.mac == c.mac && after.xid == c.xid
            &&& m.xid != c.xid || !(offer || ack || nak) ==> after == c
            &&& m.xid == c.xid && offer ==> {
                &&& after.state == ClientState::Requesting
                &&& after.offered_ip == Some(m.your_ip)
                &&& after.server_id == dhcp::spec_opt_ipv4(says(54))
                &&& after.lease == c.lease
            }
            &&& m.xid == c.xid && ack ==> {
                &&& after.state == ClientState::Bound
                &&& after.lease is Some
                &&& after.lease->0.ip == m.your_ip
                &&& after.lease->0.subnet_mask == dhcp::spec_opt_ipv4(says(1))
                &&& after.lease->0.server_id == dhcp::spec_opt_ipv4(says(54))
                &&& after.lease->0.lease_secs == dhcp::spec_opt_seconds(says(51))
                &&& says(3) is None ==> after.lease->0.gateway is None
                &&& says(3) matches Some(v) ==> after.lease->0.gateway == if v.len() >= 4 {
                    Some(Ipv4Addr { bits: anatomy::num32(v, 0) as u32 })
                } else {
                    None
                }
                &&& after.offered_ip == c.offered_ip && after.server_id == c.server_id
                &&& after.spec_bound_ip() == Some(m.your_ip)
            }
            &&& m.xid == c.xid && nak ==> {
                &&& after.state == ClientState::Init
                &&& after.offered_ip is None && after.server_id is None
                &&& after.lease == c.lease
            }
            &&& c.lease is None ==> c.spec_bound_ip() is None
            &&& c.lease matches Some(l) ==> c.spec_bound_ip() == Some(l.ip)
        }),
{
    law_message_speaks_by_its_options(m, 3);
    law_message_speaks_by_its_options(m, 54);
    law_message_speaks_by_its_options(m, 1);
}

/// Walk a frame down to its DHCP message.
pub(crate) fn parse_dhcp(frame: &[u8]) -> (r: Option<DhcpView<'_>>)
    ensures
        match r {
            Some(v) => v.wf() && frame_dhcp(frame@) == Some(seen(v)),
            None => frame_dhcp(frame@) is None,
        },
{
    let eth = match view::parse(frame) {
        Some(v) => v,
        None => {
            return None;
        },
    };
    let ip = match eth.ipv4() {
        Some(v) => v,
        None => {
            return None;
        },
    };
    let udp = match ip.udp() {
        Some(v) => v,
        None => {
            return None;
        },
    };
    udp.dhcp()
}

/// The longest frame that the server and the client build.
pub const DHCP_FRAME_MAX: usize = 554;

/// Every frame that the server or the client builds fits in
/// [`DHCP_FRAME_MAX`] bytes.
pub proof fn lemma_dhcp_frames_are_short(
    cfg: DhcpServerConfig,
    b: Bindings,
    m: Message,
    c: DhcpClient,
)
    ensures
        cfg.answer(b, m) matches Some(f) ==> f.len() <= DHCP_FRAME_MAX,
        c.next_frame() matches Some(f) ==> f.len() <= DHCP_FRAME_MAX,
{
    if let Some(r) = cfg.reply(b, m) {
        if cfg.fits(r.kind) {
            lemma_reply_options(cfg, r.kind);
            lemma_fixed_header(op::BOOTREPLY, m.xid, 0, r.your_ip, cfg.server_ip, m.mac);
            frame::lemma_frame_len(
                cfg.params(r, m.mac),
                payload(cfg.header(m.xid, r.your_ip, m.mac), cfg.options(r.kind)),
            );
        }
    }
    if let Some(kind) = c.next_kind() {
        lemma_client_options(c, kind);
        lemma_fixed_header(
            op::BOOTREQUEST,
            c.xid,
            dhcp::BROADCAST_FLAG,
            Ipv4Addr { bits: 0 },
            Ipv4Addr { bits: 0 },
            c.mac,
        );
        frame::lemma_frame_len(c.params(), payload(c.header(), c.options(kind)));
    }
}

/// A frame is built at the start of the buffer, its length is reported, and what
/// lies behind it stays. One that does not fit is not begun.
pub proof fn law_built_whole_or_not_at_all(buf: Seq<u8>, f: Seq<u8>, i: int)
    requires
        f.len() <= usize::MAX,
    ensures
        f.len() <= buf.len() ==> {
            &&& built_len(Some(f), buf.len()) matches Some(n) && n == f.len()
            &&& built_into(buf, Some(f)).len() == buf.len()
            &&& 0 <= i < f.len() ==> built_into(buf, Some(f))[i] == f[i]
            &&& f.len() <= i < buf.len() ==> built_into(buf, Some(f))[i] == buf[i]
        },
        f.len() > buf.len() ==> built_len(Some(f), buf.len()) is None && built_into(buf, Some(f))
            == buf,
        built_len(None, buf.len()) is None && built_into(buf, None) == buf,
{
}

} // verus!
