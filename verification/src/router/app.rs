//! The router itself: the state that is shared across all ports. This includes
//! the neighbor tables, the FDB, NAT, the connection table and the DHCP client
//! and server. Each received frame is handed in, and what has to be sent
//! because of it comes back.

use crate::dpdk::mbuf::Mbuf;
use crate::dpdk::port::Port;
use crate::net::addr::Ipv4Addr;
use crate::net::arp as arp_packet;
use crate::net::ethernet;
use crate::net::ethernet::{same_mac, MacAddr, BROADCAST};
use crate::net::view;
use crate::net::wire;
use crate::net::wire::Pod;
use crate::router::arp;
use crate::router::conntrack::ConnTrack;
use crate::router::dhcp;
use crate::router::dhcp::{Bindings, DhcpClient, DhcpServerConfig};
use crate::router::fdb::Fdb;
use crate::router::forwarding;
use crate::router::forwarding::{AppView, Sent};
use crate::router::leases::LeaseTable;
use crate::router::neighbor;
use crate::router::neighbor::{Action, NeighborTable, NeighborView};
use crate::router::pool::AddressPool;
use crate::router::tick::Tick;
use crate::router::translation::{translate_egress, translate_ingress, Nat};
use crate::router::worker;
use crate::table;
use vstd::prelude::*;
use vstd::slice::slice_to_vec;

verus! {

/// Max Ethernet frame we build into per-iteration scratch buffers.
pub const FRAME_MAX: usize = 1518;

/// Minimum gap between sweeps.
pub const SWEEP_INTERVAL_MS: u64 = 250;

/// A frame to send on a port.
pub struct Transmit {
    pub port_id: u16,
    pub frame: Vec<u8>,
}

impl View for Transmit {
    type V = Sent;

    open spec fn view(&self) -> Sent {
        Sent { port_id: self.port_id, bytes: self.frame@ }
    }
}

/// The frames of a list.
pub open spec fn sent_all(out: Seq<Transmit>) -> Seq<Sent> {
    Seq::new(out.len(), |i: int| out[i]@)
}

/// The WAN side: its port, the neighbors on its link and the client that
/// obtains its address.
pub struct WanPortCtx {
    pub port: Port,
    pub neighbors: NeighborTable<Mbuf>,
    pub dhcp: DhcpClient,
    /// The address that was last put into use. Zero means "not yet bound".
    pub bound: Ipv4Addr,
    /// WAN next-hop (upstream gateway) IP learned from the DHCP lease. The
    /// egress path resolves this against [`Self::neighbors`] to find the
    /// gateway MAC. Zero means "not yet known".
    pub gateway: Ipv4Addr,
}

impl WanPortCtx {
    pub fn new(port: Port, neighbors: NeighborTable<Mbuf>, dhcp: DhcpClient) -> (r: Self)
        ensures
            r == (WanPortCtx {
                port,
                neighbors,
                dhcp,
                bound: Ipv4Addr { bits: 0 },
                gateway: Ipv4Addr { bits: 0 },
            }),
    {
        WanPortCtx {
            port,
            neighbors,
            dhcp,
            bound: Ipv4Addr { bits: 0 },
            gateway: Ipv4Addr { bits: 0 },
        }
    }

    /// Currently-known WAN gateway IP, or `None` until the DHCP lease binds.
    pub fn gateway_ip(&self) -> (r: Option<Ipv4Addr>)
        ensures
            r == if self.gateway.bits == 0 {
                None
            } else {
                Some(self.gateway)
            },
    {
        if self.gateway.is_unspecified() {
            None
        } else {
            Some(self.gateway)
        }
    }
}

/// One LAN port, with what the DHCP server says on it.
pub struct LanPortCtx {
    pub port: Port,
    pub dhcp: DhcpServerConfig,
}

impl LanPortCtx {
    pub fn new(port: Port, dhcp: DhcpServerConfig) -> (r: Self)
        ensures
            r == (LanPortCtx { port, dhcp }),
    {
        LanPortCtx { port, dhcp }
    }
}

/// What the LAN ports share: they are one broadcast domain, so a client roaming
/// between physical ports keeps its lease.
pub struct LanSegment {
    pub neighbors: NeighborTable<Mbuf>,
    pub pool: AddressPool,
    pub leases: LeaseTable,
}

/// Which of the router's ports a frame came in on.
#[derive(Clone, Copy, PartialEq, Eq, Structural, Debug)]
pub enum PortCtx {
    Wan,
    /// The LAN port with this index.
    Lan(usize),
}

/// The router.
pub struct AppCtx {
    server_ip: Ipv4Addr,
    server_mac: MacAddr,
    fdb: Fdb,
    translation: Nat,
    conntrack: ConnTrack,
    wan: WanPortCtx,
    lan: LanSegment,
    lan_ports: Vec<LanPortCtx>,
    /// Throttle the sweep to at most once per [`SWEEP_INTERVAL_MS`]. `None` is
    /// "never swept".
    last_sweep_ms: Option<u64>,
}

/// The bytes of the frames that wait in a neighbor table.
pub open spec fn waiting_bytes(v: NeighborView<Mbuf>) -> NeighborView<Seq<u8>> {
    v.map_packets(|m: Mbuf| m@)
}

impl View for AppCtx {
    type V = AppView;

    closed spec fn view(&self) -> AppView {
        AppView {
            server_ip: self.server_ip,
            server_mac: self.server_mac,
            fdb: self.fdb@,
            nat_table: self.translation@,
            flows: self.conntrack@,
            bindings: Bindings { pool: self.lan.pool@, leases: self.lan.leases@ },
            lan: waiting_bytes(self.lan.neighbors@),
            lan_ports: self.lan_ports@,
            wan: waiting_bytes(self.wan.neighbors@),
            wan_port: self.wan.port,
            client: self.wan.dhcp,
            bound: self.wan.bound,
            gateway: self.wan.gateway,
            last_sweep: self.last_sweep_ms,
        }
    }
}

/// An ARP message has a fixed length.
proof fn lemma_arp_frame_len(
    op: u16,
    dst: MacAddr,
    sender_mac: MacAddr,
    sender_ip: Ipv4Addr,
    target_mac: MacAddr,
    target_ip: Ipv4Addr,
)
    ensures
        arp_packet::arp_frame(op, dst@, sender_mac@, sender_ip, target_mac@, target_ip).len()
            == arp_packet::FRAME_LEN,
{
}

/// Writing a frame over a buffer of its length leaves the frame.
proof fn lemma_written_whole(buf: Seq<u8>, frame: Seq<u8>)
    requires
        buf.len() == frame.len(),
    ensures
        wire::splice(buf, 0, frame) == frame,
{
    assert(wire::splice(buf, 0, frame) =~= frame);
}

/// Append a frame to send.
fn send(out: &mut Vec<Transmit>, port_id: u16, frame: Vec<u8>)
    ensures
        sent_all(final(out)@) == sent_all(old(out)@).push(Sent { port_id, bytes: frame@ }),
{
    let ghost before = sent_all(out@);
    out.push(Transmit { port_id, frame });
    assert(sent_all(out@) =~= before.push(Sent { port_id, bytes: frame@ }));
}

/// The MAC address at `off`.
fn read_mac(frame: &[u8], off: usize) -> (r: MacAddr)
    requires
        off + 6 <= frame@.len(),
    ensures
        r == ethernet::mac_at(frame@, off as int),
{
    assert(frame.len() == frame@.len());
    let r = [
        frame[off],
        frame[off + 1],
        frame[off + 2],
        frame[off + 3],
        frame[off + 4],
        frame[off + 5],
    ];
    assert(r =~= ethernet::mac_at(frame@, off as int));
    r
}

/// Read the IPv4 + TCP 5-tuple (src_ip, src_port, dst_ip, dst_port) and the TCP
/// flag byte from `frame`. Returns `None` if the frame isn't a parseable
/// IPv4 + TCP packet, i.e. drop-on-egress + drop-on-ingress for a TCP-only
/// router.
fn parse_tcp_tuple(frame: &[u8]) -> (r: Option<(Ipv4Addr, u16, Ipv4Addr, u16, u8)>)
    ensures
        match r {
            Some((src_ip, src_port, dst_ip, dst_port, flags)) => forwarding::tcp_tuple(frame@)
                == Some(
                forwarding::TcpTuple { src_ip, src_port, dst_ip, dst_port, flags },
            ),
            None => forwarding::tcp_tuple(frame@) is None,
        },
{
    let eth = match view::parse(frame) {
        Some(v) => v,
        None => {
            return None;
        },
    };
    let ip = match eth.ipv4() {
        Some(v) => v,
        None => {
            return None;
        },
    };
    let tcp = match ip.tcp() {
        Some(v) => v,
        None => {
            return None;
        },
    };
    let h = ip.header();
    let t = tcp.header();
    proof {
        let b = h.bytes();
        let at = ip.start as int;
        assert(b[12] == frame@[at + 12] && b[13] == frame@[at + 13] && b[14] == frame@[at + 14]
            && b[15] == frame@[at + 15]);
        assert(b[16] == frame@[at + 16] && b[17] == frame@[at + 17] && b[18] == frame@[at + 18]
            && b[19] == frame@[at + 19]);
        assert(t.bytes()[13] == frame@[tcp.start + 13]);
    }
    Some((h.src(), tcp.src_port(), h.dst(), tcp.dst_port(), t.flags))
}

impl AppCtx {
    /// The tables are what their operations keep them.
    pub closed spec fn wf(self) -> bool {
        self.lan.pool.wf() && self@.wf()
    }

    pub fn new(
        server_ip: Ipv4Addr,
        server_mac: MacAddr,
        fdb: Fdb,
        translation: Nat,
        conntrack: ConnTrack,
        wan: WanPortCtx,
        lan: LanSegment,
        lan_ports: Vec<LanPortCtx>,
    ) -> (r: Self)
        requires
            translation@.wf(),
            wan.neighbors@.wf(),
            lan.neighbors@.wf(),
            lan.pool.wf(),
        ensures
            r.wf(),
            r@ == (AppView {
                server_ip,
                server_mac,
                fdb: fdb@,
                nat_table: translation@,
                flows: conntrack@,
                bindings: Bindings { pool: lan.pool@, leases: lan.leases@ },
                lan: waiting_bytes(lan.neighbors@),
                lan_ports: lan_ports@,
                wan: waiting_bytes(wan.neighbors@),
                wan_port: wan.port,
                client: wan.dhcp,
                bound: wan.bound,
                gateway: wan.gateway,
                last_sweep: None,
            }),
    {
        proof {
            lemma_bytes_wf(wan.neighbors@);
            lemma_bytes_wf(lan.neighbors@);
        }
        AppCtx {
            server_ip,
            server_mac,
            fdb,
            translation,
            conntrack,
            wan,
            lan,
            lan_ports,
            last_sweep_ms: None,
        }
    }

    /// The WAN port.
    pub fn wan_port(&self) -> (r: &Port)
        ensures
            *r == self@.wan_port,
    {
        &self.wan.port
    }

    /// The LAN ports.
    pub fn lan_ports(&self) -> (r: &Vec<LanPortCtx>)
        ensures
            r@ == self@.lan_ports,
    {
        &self.lan_ports
    }

    /// Every LAN port but `except` sends a copy of `data`.
    fn flood(&self, data: &[u8], except: Option<u16>, out: &mut Vec<Transmit>)
        ensures
            sent_all(final(out)@) == sent_all(old(out)@) + self@.flood(data@, except),
    {
        let ghost before = sent_all(out@);
        let mut i: usize = 0;
        assert(before =~= before + forwarding::flooded(self@.lan_ports, data@, except, 0));
        while i < self.lan_ports.len()
            invariant
                i <= self.lan_ports@.len(),
                sent_all(out@) == before + forwarding::flooded(
                    self@.lan_ports,
                    data@,
                    except,
                    i as nat,
                ),
            decreases self.lan_ports@.len() - i,
        {
            let id: u16 = self.lan_ports[i].port.port_id();
            let skip: bool = match except {
                Some(e) => e == id,
                None => false,
            };
            if !skip {
                send(out, id, slice_to_vec(data));
            }
            i = i + 1;
            assert(sent_all(out@) =~= before + forwarding::flooded(
                self@.lan_ports,
                data@,
                except,
                i as nat,
            ));
        }
    }

    /// Whether one of the LAN ports has the id `id`.
    fn has_lan_port(&self, id: u16) -> (r: bool)
        ensures
            r == self@.has_lan_port(id),
    {
        let mut i: usize = 0;
        while i < self.lan_ports.len()
            invariant
                i <= self.lan_ports@.len(),
                forall|j: int| 0 <= j < i ==> #[trigger] self@.lan_id(j) != id,
            decreases self.lan_ports@.len() - i,
        {
            if self.lan_ports[i].port.port_id() == id {
                assert(self@.lan_id(i as int) == id);
                return true;
            }
            assert(self@.lan_id(i as int) != id);
            i = i + 1;
        }
        false
    }

    /// Send `packet` to `mac` on the LAN side. On an FDB hit it goes out on the
    /// learned port; on a miss a copy goes out on every LAN port so the
    /// destination still receives it (unknown-unicast flood is what teaches
    /// bridges).
    ///
    /// `except_port` is the LAN port the packet came in on, when this helper is
    /// used for intra-LAN forwarding (so we don't echo the frame back to the
    /// sender). `None` from the WAN-ingress path means "flood every LAN port"
    /// since the packet came from off-bridge.
    fn transmit_to_mac_or_flood_except(
        &self,
        mac: MacAddr,
        packet: Mbuf,
        except_port: Option<u16>,
        out: &mut Vec<Transmit>,
    )
        ensures
            sent_all(final(out)@) == sent_all(old(out)@) + self@.to_mac(
                mac,
                packet@,
                except_port,
            ),
    {
        let ghost before = sent_all(out@);
        match self.fdb.lookup(mac) {
            Some(port) => {
                let echo: bool = match except_port {
                    Some(e) => e == port,
                    None => false,
                };
                if !echo && self.has_lan_port(port) {
                    send(out, port, packet.bytes);
                }
                // Otherwise the FDB says this MAC is on the ingress port itself
                // (don't echo back to the sender), or the entry is stale and
                // points at a port we do not own: drop.
            },
            None => {
                self.flood(packet.data(), except_port, out);
            },
        }
        assert(sent_all(out@) =~= before + self@.to_mac(mac, packet@, except_port));
    }
}

/// Mapping packets to their bytes keeps a table well-formed.
proof fn lemma_bytes_wf(v: NeighborView<Mbuf>)
    ensures
        waiting_bytes(v).wf() == v.wf(),
{
    let m: Mbuf = arbitrary();
    v.lemma_map_packets(|m: Mbuf| m@, Ipv4Addr { bits: 0 }, m, BROADCAST, Tick(0));
}

/// Send frames that waited for a neighbor to it, in order.
fn drain(
    packets: Vec<Mbuf>,
    port_id: u16,
    src: MacAddr,
    dst: MacAddr,
    out: &mut Vec<Transmit>,
)
    ensures
        sent_all(final(out)@) == sent_all(old(out)@) + forwarding::drained(
            port_id,
            packets@.map_values(|m: Mbuf| m@),
            src,
            dst,
        ),
{
    let ghost before = sent_all(out@);
    let ghost all = packets@;
    let ghost queue = all.map_values(|m: Mbuf| m@);
    let ghost sent = forwarding::drained(port_id, queue, src, dst);
    let mut packets = packets;
    let ghost mut n: int = 0;
    assert(sent_all(out@) =~= before + sent.subrange(0, 0));
    assert(packets@ =~= all.subrange(0, all.len() as int));
    while packets.len() > 0
        invariant
            0 <= n <= all.len(),
            sent.len() == all.len(),
            queue == all.map_values(|m: Mbuf| m@),
            sent == forwarding::drained(port_id, queue, src, dst),
            packets@ == all.subrange(n, all.len() as int),
            sent_all(out@) == before + sent.subrange(0, n),
        ensures
            n == all.len(),
            sent_all(out@) == before + sent.subrange(0, n),
        decreases packets@.len(),
    {
        let mut q = packets.remove(0);
        assert(q == all[n]);
        worker::set_ethernet(&mut q, src, dst);
        send(out, port_id, q.bytes);
        proof {
            assert(sent[n] == (Sent {
                port_id,
                bytes: worker::with_ethernet(queue[n], src, dst),
            }));
            assert(sent.subrange(0, n + 1) =~= sent.subrange(0, n).push(sent[n]));
            assert(before + sent.subrange(0, n + 1) =~= (before + sent.subrange(0, n)).push(
                sent[n],
            ));
            n = n + 1;
            assert(packets@ =~= all.subrange(n, all.len() as int));
        }
    }
    assert(sent.subrange(0, n) =~= sent);
}

impl AppCtx {
    /// Learn from an ARP message on LAN port `i` that `ip` is at `mac`, and send
    /// what waited for it.
    fn lan_learn(
        &mut self,
        i: usize,
        ip: Ipv4Addr,
        mac: MacAddr,
        now: Tick,
        out: &mut Vec<Transmit>,
    )
        requires
            old(self).wf(),
            i < old(self)@.lan_ports.len(),
        ensures
            final(self).wf(),
            final(self)@ == old(self)@.lan_learn(i as int, ip, mac, now).app,
            sent_all(final(out)@) == sent_all(old(out)@) + old(self)@.lan_learn(
                i as int,
                ip,
                mac,
                now,
            ).sent,
    {
        let ghost v = self@;
        let ghost before = sent_all(out@);
        let ghost table = self.lan.neighbors@;
        proof {
            lemma_bytes(table, ip, mac, now);
        }
        let drained = self.lan.neighbors.on_arp(ip, mac, now);
        if let Some((mac_resolved, packets)) = drained {
            let id: u16 = self.lan_ports[i].port.port_id();
            let src: MacAddr = self.lan_ports[i].port.info().ether_addr;
            drain(packets, id, src, mac_resolved, out);
        }
        assert(self@ =~= v.lan_learn(i as int, ip, mac, now).app);
        assert(sent_all(out@) =~= before + v.lan_learn(i as int, ip, mac, now).sent);
    }

    /// Learn from an ARP message on the WAN port that `ip` is at `mac`, and send
    /// what waited for it.
    fn wan_learn(&mut self, ip: Ipv4Addr, mac: MacAddr, now: Tick, out: &mut Vec<Transmit>)
        requires
            old(self).wf(),
        ensures
            final(self).wf(),
            final(self)@ == old(self)@.wan_learn(ip, mac, now).app,
            sent_all(final(out)@) == sent_all(old(out)@) + old(self)@.wan_learn(ip, mac, now).sent,
    {
        let ghost v = self@;
        let ghost before = sent_all(out@);
        let ghost table = self.wan.neighbors@;
        proof {
            lemma_bytes(table, ip, mac, now);
        }
        let drained = self.wan.neighbors.on_arp(ip, mac, now);
        if let Some((mac_resolved, packets)) = drained {
            let id: u16 = self.wan.port.port_id();
            let src: MacAddr = self.wan.port.info().ether_addr;
            drain(packets, id, src, mac_resolved, out);
        }
        assert(self@ =~= v.wan_learn(ip, mac, now).app);
        assert(sent_all(out@) =~= before + v.wan_learn(ip, mac, now).sent);
    }

    /// Every ARP is a "this address is in use" claim: reserve the sender in the
    /// DHCP pool so we never lease that IP out to someone else. If the sender's
    /// MAC previously held a different IP from our pool, release the stale one
    /// so it can be re-leased.
    fn claim(&mut self, pkt: &arp_packet::ArpPacket, Ghost(a): Ghost<arp::ArpMessage>)
        requires
            old(self).wf(),
            arp::says(*pkt, a),
        ensures
            final(self).wf(),
            final(self)@ == old(self)@.claim(a),
    {
        let ghost v = self@;
        let sender_ip = pkt.sender_ip();
        let _ = self.lan.pool.reserve(sender_ip);
        if let Some(old_ip) = self.lan.neighbors.reverse_lookup(pkt.sha) {
            if old_ip != sender_ip && self.lan.pool.start().bits <= old_ip.bits && old_ip.bits
                <= self.lan.pool.end().bits {
                self.lan.pool.release(old_ip);
            }
        }
        assert(self@ =~= v.claim(a));
    }

    /// ARP handling on a LAN port: reserve/release in the DHCP pool, learn the
    /// sender mapping (and that of the target, in a reply), then either flood
    /// (foreign request) or reply (request for the router IP).
    fn handle_lan_arp(&mut self, now: Tick, i: usize, m: &Mbuf, out: &mut Vec<Transmit>)
        requires
            old(self).wf(),
            i < old(self)@.lan_ports.len(),
        ensures
            final(self).wf(),
            final(self)@ == old(self)@.lan_arp(i as int, m@, now).app,
            sent_all(final(out)@) == sent_all(old(out)@) + old(self)@.lan_arp(
                i as int,
                m@,
                now,
            ).sent,
    {
        let ghost v = self@;
        let ghost before = sent_all(out@);
        let data = m.data();
        let pkt = match arp::parse_arp(data) {
            Some(pkt) => pkt,
            None => {
                assert(before =~= before + v.idle().sent);
                return ;
            },
        };
        let ghost a = arp::frame_arp(m@)->0;
        let ghost claimed = v.claim(a);
        let ghost first = claimed.lan_learn(i as int, a.sender_ip, a.sha, now);
        let sender_ip = pkt.sender_ip();
        let target_ip = pkt.target_ip();
        assert(sender_ip == a.sender_ip && target_ip == a.target_ip);
        self.claim(&pkt, Ghost(a));
        self.lan_learn(i, sender_ip, pkt.sha, now, out);
        let ghost second = if a.oper == arp_packet::oper::REPLY && a.target_ip.bits != 0 {
            first.app.lan_learn(i as int, a.target_ip, a.tha, now)
        } else {
            first.app.idle()
        };
        // Replies also teach us about the target.
        if pkt.is_reply() && !target_ip.is_unspecified() {
            self.lan_learn(i, target_ip, pkt.tha, now, out);
        }
        assert(sent_all(out@) =~= before + first.sent + second.sent);
        assert(self@ == second.app);
        self.answer_arp(i, &pkt, data, out, Ghost(a));
        assert(sent_all(out@) =~= before + v.lan_arp(i as int, m@, now).sent);
    }

    /// Flood a broadcast request for another host to every *other* LAN port, so
    /// the bridged segment behaves like one broadcast domain; answer a request
    /// for the router directly.
    fn answer_arp(
        &self,
        i: usize,
        pkt: &arp_packet::ArpPacket,
        data: &[u8],
        out: &mut Vec<Transmit>,
        Ghost(a): Ghost<arp::ArpMessage>,
    )
        requires
            i < self@.lan_ports.len(),
            arp::frame_arp(data@) == Some(a),
            arp::says(*pkt, a),
        ensures
            sent_all(final(out)@) == sent_all(old(out)@) + self@.arp_answer(i as int, a, data@),
    {
        let ghost before = sent_all(out@);
        let id: u16 = self.lan_ports[i].port.port_id();
        let target_ip = pkt.target_ip();
        assert(target_ip == a.target_ip);
        if pkt.is_request() {
            if target_ip == self.server_ip {
                let mut reply: [u8; 42] = [0u8; 42];
                let ghost blank = reply@;
                let _ = arp_packet::build_reply(
                    &mut reply,
                    self.server_mac,
                    self.server_ip,
                    pkt.sha,
                    pkt.sender_ip(),
                );
                proof {
                    lemma_arp_frame_len(
                        arp_packet::oper::REPLY,
                        a.sha,
                        self.server_mac,
                        a.target_ip,
                        a.sha,
                        a.sender_ip,
                    );
                    lemma_written_whole(blank, arp::reply_to(self.server_mac, a));
                }
                send(out, id, slice_to_vec(&reply));
                assert(sent_all(out@) =~= before + self@.arp_answer(i as int, a, data@));
            } else if same_mac(&read_mac(data, 0), &BROADCAST) {
                self.flood(data, Some(id), out);
            }
        }
        assert(sent_all(out@) =~= before + self@.arp_answer(i as int, a, data@));
    }

    /// ARP handling on the WAN port: learn the sender (and target, in a reply)
    /// and drain any packets that were waiting on that resolution. Drained
    /// packets are NAT-translated egress traffic queued by the egress path.
    fn handle_wan_arp(&mut self, now: Tick, m: &Mbuf, out: &mut Vec<Transmit>)
        requires
            old(self).wf(),
        ensures
            final(self).wf(),
            final(self)@ == old(self)@.wan_arp(m@, now).app,
            sent_all(final(out)@) == sent_all(old(out)@) + old(self)@.wan_arp(m@, now).sent,
    {
        let ghost v = self@;
        let ghost before = sent_all(out@);
        let pkt = match arp::parse_arp(m.data()) {
            Some(pkt) => pkt,
            None => {
                assert(before =~= before + v.idle().sent);
                return ;
            },
        };
        let ghost a = arp::frame_arp(m@)->0;
        let sender_ip = pkt.sender_ip();
        let target_ip = pkt.target_ip();
        assert(sender_ip == a.sender_ip && target_ip == a.target_ip);
        let ghost first = if a.sender_ip.bits != 0 {
            v.wan_learn(a.sender_ip, a.sha, now)
        } else {
            v.idle()
        };
        if !sender_ip.is_unspecified() {
            self.wan_learn(sender_ip, pkt.sha, now, out);
        }
        assert(self@ == first.app);
        assert(sent_all(out@) =~= before + first.sent);
        if pkt.is_reply() && !target_ip.is_unspecified() {
            self.wan_learn(target_ip, pkt.tha, now, out);
        }
        assert(sent_all(out@) =~= before + v.wan_arp(m@, now).sent);
    }
}

/// What a table holds after an address was learned, with packets taken as their
/// bytes.
proof fn lemma_bytes(v: NeighborView<Mbuf>, ip: Ipv4Addr, mac: MacAddr, now: Tick)
    ensures
        waiting_bytes(v).queue(ip) == v.queue(ip).map_values(|m: Mbuf| m@),
        waiting_bytes(v.after_arp(ip, mac, now)) == waiting_bytes(v).after_arp(ip, mac, now),
        waiting_bytes(v.after_arp(ip, mac, now)).wf() == v.after_arp(ip, mac, now).wf(),
        waiting_bytes(v).wf() == v.wf(),
{
    let m: Mbuf = arbitrary();
    v.lemma_map_packets(|m: Mbuf| m@, ip, m, mac, now);
    lemma_bytes_wf(v.after_arp(ip, mac, now));
}

/// What a table holds after a packet was sent through it, with packets taken as
/// their bytes.
proof fn lemma_bytes_resolve(v: NeighborView<Mbuf>, ip: Ipv4Addr, packet: Mbuf, now: Tick)
    ensures
        waiting_bytes(v).queue(ip).len() == v.queue(ip).len(),
        waiting_bytes(v.after_resolve(ip, packet, now)) == waiting_bytes(v).after_resolve(
            ip,
            packet@,
            now,
        ),
        waiting_bytes(v.after_resolve(ip, packet, now)).wf() == v.after_resolve(
            ip,
            packet,
            now,
        ).wf(),
        waiting_bytes(v).wf() == v.wf(),
        waiting_bytes(v).request(ip) == v.request(ip),
{
    v.lemma_map_packets(|m: Mbuf| m@, ip, packet, BROADCAST, now);
    lemma_bytes_wf(v.after_resolve(ip, packet, now));
}

/// The request for a neighbor has a fixed length.
proof fn lemma_request_len<P>(v: NeighborView<P>, ip: Ipv4Addr)
    ensures
        v.request(ip).len() == arp_packet::FRAME_LEN,
{
    lemma_arp_frame_len(
        arp_packet::oper::REQUEST,
        BROADCAST,
        v.our_mac,
        v.our_ip,
        arp_packet::UNKNOWN_HARDWARE_ADDR,
        ip,
    );
}

impl AppCtx {
    /// Send a translated packet to the WAN next hop, or queue it until that is
    /// known. On a cache miss an ARP request goes out alongside (on the first
    /// miss for the gateway).
    fn send_to_gateway(&mut self, m: Mbuf, now: Tick, out: &mut Vec<Transmit>)
        requires
            old(self).wf(),
        ensures
            final(self).wf(),
            final(self)@ == old(self)@.to_gateway(m@, now).app,
            sent_all(final(out)@) == sent_all(old(out)@) + old(self)@.to_gateway(m@, now).sent,
    {
        let ghost v = self@;
        let ghost before = sent_all(out@);
        let gateway: Ipv4Addr = self.wan.gateway;
        let id: u16 = self.wan.port.port_id();
        let wan_mac: MacAddr = self.wan.port.info().ether_addr;
        let mut req_buf: [u8; 42] = [0u8; 42];
        proof {
            lemma_bytes_resolve(self.wan.neighbors@, gateway, m, now);
            lemma_request_len(self.wan.neighbors@, gateway);
            lemma_written_whole(req_buf@, self.wan.neighbors@.request(gateway));
        }
        match self.wan.neighbors.resolve(gateway, m, &mut req_buf, now) {
            Action::Forward { mac, packet } => {
                let mut p = packet;
                worker::set_ethernet(&mut p, wan_mac, mac);
                send(out, id, p.bytes);
            },
            Action::Queued { request_len } => {
                // First miss for this target also synthesises an ARP request.
                if request_len.is_some() {
                    send(out, id, slice_to_vec(&req_buf));
                }
            },
            Action::Drop { packet: _ } => {
                // Pending queue overflow for the gateway: drop.
            },
        }
        assert(self@ =~= v.to_gateway(m@, now).app);
        assert(sent_all(out@) =~= before + v.to_gateway(m@, now).sent);
    }

    /// LAN->WAN egress NAT path. **TCP only**: this router is a TCP-only NAT,
    /// matching the ingress firewall policy. Non-TCP egress (UDP/ICMP/...) is
    /// dropped at the boundary so the NAT port pool and conntrack table only
    /// hold useful state.
    ///
    /// Steps: parse 5-tuple + flags -> update conntrack -> translate (rewrites
    /// IP src + L4 src port + checksums) -> resolve WAN gateway MAC -> send.
    fn lan_egress_nat(&mut self, now: Tick, m: Mbuf, out: &mut Vec<Transmit>)
        requires
            old(self).wf(),
        ensures
            final(self).wf(),
            final(self)@ == old(self)@.lan_egress(m@, now).app,
            sent_all(final(out)@) == sent_all(old(out)@) + old(self)@.lan_egress(m@, now).sent,
    {
        let ghost v = self@;
        let ghost before = sent_all(out@);
        let ghost f = m@;
        assert(before =~= before + v.idle().sent);
        if self.wan.gateway_ip().is_none() || self.translation.wan_ip().is_unspecified() {
            return ;
        }
        // Parse the pre-NAT TCP 5-tuple + flags. `None` here means "not TCP":
        // drop it; we don't translate non-TCP.
        let (int_ip, int_port, ext_ip, ext_port, flags) = match parse_tcp_tuple(m.data()) {
            Some(t) => t,
            None => {
                return ;
            },
        };
        // Update conntrack with the *pre-NAT* internal endpoint. This is the
        // state the ingress side will look up via the same 5-tuple.
        let _ = self.conntrack.observe_egress(int_ip, int_port, ext_ip, ext_port, flags, now);

        // Now rewrite IP src + L4 src port + checksums in place.
        let mut m = m;
        if translate_egress(m.data_mut(), &mut self.translation).is_none() {
            assert(self@ =~= v.lan_egress(f, now).app);
            return ;
        }
        self.send_to_gateway(m, now, out);
    }
}
impl AppCtx {
    /// IPv4 handling on a LAN port. Takes ownership of `m` because some of the
    /// routing paths (bridging, NAT egress queue) consume it.
    fn handle_lan_ipv4(&mut self, now: Tick, i: usize, m: Mbuf, out: &mut Vec<Transmit>)
        requires
            old(self).wf(),
            i < old(self)@.lan_ports.len(),
            m@.len() >= 14,
        ensures
            final(self).wf(),
            final(self)@ == old(self)@.lan_ipv4(i as int, m@, now).app,
            sent_all(final(out)@) == sent_all(old(out)@) + old(self)@.lan_ipv4(
                i as int,
                m@,
                now,
            ).sent,
    {
        let ghost v = self@;
        let ghost before = sent_all(out@);
        let id: u16 = self.lan_ports[i].port.port_id();

        // DHCP first: every DHCP message is unicast or broadcast IPv4/UDP that
        // the LAN server must handle, regardless of dst MAC.
        if let Some(view) = dhcp::parse_dhcp(m.data()) {
            let mut scratch: [u8; 1518] = [0u8; FRAME_MAX];
            let ghost blank = scratch@;
            let n = dhcp::serve(
                &self.lan_ports[i].dhcp,
                &mut self.lan.pool,
                &mut self.lan.leases,
                &view,
                &mut scratch,
            );
            proof {
                let cfg = v.lan_ports[i as int].dhcp;
                let msg = dhcp::seen(view);
                dhcp::lemma_dhcp_frames_are_short(cfg, v.bindings, msg, v.client);
                if let Some(f) = cfg.answer(v.bindings, msg) {
                    assert(scratch@.subrange(0, f.len() as int) =~= f);
                }
            }
            if let Some(n) = n {
                send(out, id, slice_to_vec(&scratch[0..n]));
            }
            assert(self@ =~= v.lan_ipv4(i as int, m@, now).app);
            assert(sent_all(out@) =~= before + v.lan_ipv4(i as int, m@, now).sent);
            return ;
        }
        // Packets addressed to the router MAC are bound for the upstream
        // (LAN -> WAN) NAT egress path.

        let dst: MacAddr = read_mac(m.data(), 0);
        if same_mac(&dst, &self.server_mac) {
            self.lan_egress_nat(now, m, out);
        } else if same_mac(&dst, &BROADCAST) {
            // Flood across the bridge to every other LAN port.
            self.flood(m.data(), Some(id), out);
        } else {
            // Unicast: FDB hit -> forward to that port. Miss -> flood. Skip
            // looping the frame back onto the ingress port: a host shouldn't
            // see its own outbound traffic.
            self.transmit_to_mac_or_flood_except(dst, m, Some(id), out);
        }
    }

    /// Send a translated packet to the LAN host `ip`, or queue it until the host
    /// is known.
    fn send_to_host(&mut self, ip: Ipv4Addr, m: Mbuf, now: Tick, out: &mut Vec<Transmit>)
        requires
            old(self).wf(),
            old(self)@.lan_ports.len() > 0,
        ensures
            final(self).wf(),
            final(self)@ == old(self)@.to_host(ip, m@, now).app,
            sent_all(final(out)@) == sent_all(old(out)@) + old(self)@.to_host(ip, m@, now).sent,
    {
        let ghost v = self@;
        let ghost before = sent_all(out@);
        let src: MacAddr = self.lan_ports[0].port.info().ether_addr;
        let mut req_buf: [u8; 42] = [0u8; 42];
        proof {
            lemma_bytes_resolve(self.lan.neighbors@, ip, m, now);
            lemma_request_len(self.lan.neighbors@, ip);
            lemma_written_whole(req_buf@, self.lan.neighbors@.request(ip));
        }
        match self.lan.neighbors.resolve(ip, m, &mut req_buf, now) {
            Action::Forward { mac, packet } => {
                let mut p = packet;
                worker::set_ethernet(&mut p, src, mac);
                // FDB lookup picks the egress LAN port. On miss, flood. No port
                // to exclude: the packet came from the WAN.
                self.transmit_to_mac_or_flood_except(mac, p, None, out);
            },
            Action::Queued { request_len } => {
                // First miss for this host also synthesises an ARP request.
                // Flood it across LAN ports because the host could be on any
                // of them.
                if request_len.is_some() {
                    self.flood(&req_buf, None, out);
                }
            },
            Action::Drop { packet: _ } => {
                // Pending queue overflow for this internal IP: drop.
            },
        }
        assert(self@ =~= v.to_host(ip, m@, now).app);
        assert(sent_all(out@) =~= before + v.to_host(ip, m@, now).sent);
    }

    /// WAN->LAN ingress NAT path. **TCP only, and only flows we initiated**:
    /// every inbound packet must (a) be TCP and (b) match a conntrack entry
    /// previously opened by outbound LAN traffic. Everything else is dropped
    /// at the WAN boundary.
    ///
    /// Order matters: we parse the pre-NAT 5-tuple from the inbound packet
    /// (source = external peer; destination is our WAN IP + the NAT-allocated
    /// external port), translate to get the internal endpoint, then check
    /// conntrack with the canonical (int, ext) key.
    fn wan_ingress_nat(&mut self, now: Tick, m: Mbuf, out: &mut Vec<Transmit>)
        requires
            old(self).wf(),
        ensures
            final(self).wf(),
            final(self)@ == old(self)@.wan_ingress(m@, now).app,
            sent_all(final(out)@) == sent_all(old(out)@) + old(self)@.wan_ingress(m@, now).sent,
    {
        let ghost v = self@;
        let ghost before = sent_all(out@);
        let ghost f = m@;
        assert(before =~= before + v.idle().sent);
        // TCP filter + capture the external peer endpoint.
        let (ext_ip, ext_port, _, _, flags) = match parse_tcp_tuple(m.data()) {
            Some(t) => t,
            None => {
                return ;
            },
        };
        // Reverse-NAT in place. After this the packet's dst is the internal
        // endpoint we want to deliver to.
        let mut m = m;
        let ingress = match translate_ingress(m.data_mut(), &self.translation) {
            Some(e) => e,
            None => {
                return ;
            },
        };
        // Conntrack check. Same canonical key as on egress: the internal
        // endpoint stays internal regardless of direction.
        let admitted: bool = self.conntrack.check_ingress(
            ingress.dst_ip,
            ingress.dst_port,
            ext_ip,
            ext_port,
            flags,
            now,
        );
        if !admitted || self.lan_ports.len() == 0 {
            assert(self@ =~= v.wan_ingress(f, now).app);
            return ;
        }
        self.send_to_host(ingress.dst_ip, m, now, out);
    }

    /// A frame that was received on LAN port `i`.
    fn lan_frame(&mut self, now: Tick, i: usize, m: Mbuf, out: &mut Vec<Transmit>)
        requires
            old(self).wf(),
            i < old(self)@.lan_ports.len(),
        ensures
            final(self).wf(),
            final(self)@ == old(self)@.lan_frame(i as int, m@, now).app,
            sent_all(final(out)@) == sent_all(old(out)@) + old(self)@.lan_frame(
                i as int,
                m@,
                now,
            ).sent,
    {
        let ghost v = self@;
        proof {
            reveal(AppView::lan_frame);
        }
        let ghost before = sent_all(out@);
        assert(before =~= before + v.idle().sent);
        // Classify: pull out just enough header info to route the frame.
        let (is_arp, is_ipv4) = match m.ethernet() {
            Some(eth) => (eth.is_arp(), eth.is_ipv4()),
            None => {
                return ;
            },
        };
        // Learn the sender: record `src_mac -> this port` so subsequent unicast
        // frames to this MAC skip the flood.
        let src: MacAddr = read_mac(m.data(), 6);
        let id: u16 = self.lan_ports[i].port.port_id();
        self.fdb.insert(src, id);
        assert(self@ =~= v.seen_on(ethernet::mac_at(m@, 6), v.lan_id(i as int)));

        if is_arp {
            self.handle_lan_arp(now, i, &m, out);
        } else if is_ipv4 {
            self.handle_lan_ipv4(now, i, m, out);
        }
        // Anything else (IPv6, LLDP, ...) drops on the floor.
    }

    /// A frame that was received on the WAN port.
    fn wan_frame(&mut self, now: Tick, m: Mbuf, out: &mut Vec<Transmit>)
        requires
            old(self).wf(),
        ensures
            final(self).wf(),
            final(self)@ == old(self)@.wan_frame(m@, now).app,
            sent_all(final(out)@) == sent_all(old(out)@) + old(self)@.wan_frame(m@, now).sent,
    {
        let ghost v = self@;
        proof {
            reveal(AppView::wan_frame);
        }
        let ghost before = sent_all(out@);
        assert(before =~= before + v.idle().sent);
        let (is_arp, is_ipv4) = match m.ethernet() {
            Some(eth) => (eth.is_arp(), eth.is_ipv4()),
            None => {
                return ;
            },
        };
        // Symmetric with the LAN side: record the sender MAC behind this port.
        let src: MacAddr = read_mac(m.data(), 6);
        let id: u16 = self.wan.port.port_id();
        self.fdb.insert(src, id);
        let ghost w = v.seen_on(ethernet::mac_at(m@, 6), v.wan_id());
        assert(self@ =~= w);

        if is_arp {
            self.handle_wan_arp(now, &m, out);
            return ;
        }
        // Feed any DHCP message to the WAN client state machine. DHCP is the
        // control plane for our own WAN address: it isn't NAT'd.
        if let Some(view) = dhcp::parse_dhcp(m.data()) {
            self.wan.dhcp.on_receive(&view);
            assert(self@ =~= v.wan_frame(m@, now).app);
            return ;
        }
        // Anything else IPv4: try reverse NAT and forward into the LAN.
        if is_ipv4 {
            self.wan_ingress_nat(now, m, out);
        }
        // Non-ARP/non-IPv4 (IPv6, etc.) drops.
    }
}

/// The bytes of a burst of packets.
pub open spec fn burst_bytes(burst: Seq<Mbuf>) -> Seq<Seq<u8>> {
    Seq::new(burst.len(), |i: int| burst[i]@)
}

impl AppCtx {
    /// What the WAN side does on its own: put a newly leased address into use,
    /// or drive one iteration of the DHCP client.
    fn wan_tick(&mut self, out: &mut Vec<Transmit>)
        requires
            old(self).wf(),
        ensures
            final(self).wf(),
            final(self)@ == old(self)@.wan_tick().app,
            sent_all(final(out)@) == sent_all(old(out)@) + old(self)@.wan_tick().sent,
    {
        let ghost v = self@;
        proof {
            reveal(AppView::wan_tick);
        }
        let ghost before = sent_all(out@);
        let id: u16 = self.wan.port.port_id();
        match self.wan.dhcp.bound_ip() {
            Some(ip) => {
                // Only act on the bind transition.
                if ip != self.wan.bound {
                    self.bind(ip, out);
                } else {
                    assert(before =~= before + v.idle().sent);
                }
            },
            None => {
                let mut scratch: [u8; 1518] = [0u8; FRAME_MAX];
                proof {
                    dhcp::lemma_dhcp_frames_are_short(
                        arbitrary(),
                        v.bindings,
                        arbitrary(),
                        v.client,
                    );
                }
                let n = self.wan.dhcp.poll(&mut scratch);
                proof {
                    if let Some(f) = v.client.next_frame() {
                        assert(scratch@.subrange(0, f.len() as int) =~= f);
                    }
                }
                if let Some(n) = n {
                    send(out, id, slice_to_vec(&scratch[0..n]));
                }
                assert(self@ =~= v.wan_tick().app);
                assert(sent_all(out@) =~= before + v.wan_tick().sent);
            },
        }
    }

    /// Put the leased address `ip` into use. If the upstream named a gateway,
    /// remember it and ask for its MAC at once, so the egress path doesn't take
    /// the cache-miss hit on the first translated packet.
    fn bind(&mut self, ip: Ipv4Addr, out: &mut Vec<Transmit>)
        requires
            old(self).wf(),
        ensures
            final(self).wf(),
            final(self)@ == old(self)@.bind(ip).app,
            sent_all(final(out)@) == sent_all(old(out)@) + old(self)@.bind(ip).sent,
    {
        let ghost v = self@;
        let ghost before = sent_all(out@);
        let id: u16 = self.wan.port.port_id();
        let wan_mac: MacAddr = self.wan.port.info().ether_addr;
        proof {
            lemma_bytes_wf(self.wan.neighbors@);
        }
        self.wan.bound = ip;
        self.wan.neighbors.set_our_ip(ip);
        self.translation.set_wan_ip(ip);
        proof {
            lemma_bytes_wf(self.wan.neighbors@);
            assert(self@.wan =~= NeighborView { our_ip: ip, ..v.wan });
            assert(self@.wan.wf());
        }
        let gateway = match self.wan.dhcp.lease() {
            Some(l) => l.gateway,
            None => None,
        };
        if let Some(gw) = gateway {
            self.wan.gateway = gw;
            let mut req: [u8; 42] = [0u8; 42];
            let ghost blank = req@;
            let _ = arp_packet::build_request(&mut req, wan_mac, ip, gw);
            proof {
                lemma_arp_frame_len(
                    arp_packet::oper::REQUEST,
                    BROADCAST,
                    wan_mac,
                    ip,
                    arp_packet::UNKNOWN_HARDWARE_ADDR,
                    gw,
                );
                lemma_written_whole(
                    blank,
                    arp_packet::arp_frame(
                        arp_packet::oper::REQUEST,
                        BROADCAST@,
                        wan_mac@,
                        ip,
                        arp_packet::UNKNOWN_HARDWARE_ADDR@,
                        gw,
                    ),
                );
            }
            send(out, id, slice_to_vec(&req));
        }
        assert(self@ =~= v.bind(ip).app);
        assert(sent_all(out@) =~= before + v.bind(ip).sent);
    }

    /// Drive a single cycle of a port: handle a burst of frames that were
    /// received on it, and on the WAN port put a newly leased address into use
    /// or drive the DHCP client. Returns what is to be sent, in order.
    pub fn drive(&mut self, now: Tick, port: PortCtx, burst: Vec<Mbuf>) -> (r: Vec<Transmit>)
        requires
            old(self).wf(),
            old(self)@.has_port(port),
        ensures
            final(self).wf(),
            final(self)@ == old(self)@.cycle(port, burst_bytes(burst@), now).app,
            sent_all(r@) == old(self)@.cycle(port, burst_bytes(burst@), now).sent,
    {
        let ghost v = self@;
        let ghost all = burst@;
        let ghost frames = burst_bytes(all);
        let mut out: Vec<Transmit> = Vec::new();
        let mut burst = burst;
        let ghost mut n: nat = 0;
        assert(sent_all(out@) =~= v.burst(port, frames, now, 0).sent);
        assert(burst@ =~= all.subrange(0, all.len() as int));
        while burst.len() > 0
            invariant
                self.wf(),
                v.has_port(port),
                self@.lan_ports == v.lan_ports,
                n <= all.len(),
                frames == burst_bytes(all),
                burst@ == all.subrange(n as int, all.len() as int),
                self@ == v.burst(port, frames, now, n).app,
                sent_all(out@) == v.burst(port, frames, now, n).sent,
            ensures
                n == all.len(),
                self.wf(),
                self@ == v.burst(port, frames, now, n).app,
                sent_all(out@) == v.burst(port, frames, now, n).sent,
            decreases burst@.len(),
        {
            let m = burst.remove(0);
            let ghost before = self@;
            assert(m == all[n as int]);
            assert(frames[n as int] == m@);
            match port {
                PortCtx::Wan => {
                    self.wan_frame(now, m, &mut out);
                },
                PortCtx::Lan(i) => {
                    self.lan_frame(now, i, m, &mut out);
                },
            }
            proof {
                forwarding::lemma_ports_stay(before, port, m@, now);
                n = n + 1;
                assert(burst@ =~= all.subrange(n as int, all.len() as int));
            }
        }
        if let PortCtx::Wan = port {
            self.wan_tick(&mut out);
        }
        out
    }

    /// Run a sweep if at least `SWEEP_INTERVAL_MS` has elapsed since the
    /// previous one: retransmit ARP requests, give up on targets that never
    /// replied, age out the neighbor caches and idle flows. Returns what is to
    /// be sent. The LAN table is one for all LAN ports, and its requests go out
    /// on the first of them.
    pub fn maybe_sweep(&mut self, now: Tick) -> (r: Vec<Transmit>)
        requires
            old(self).wf(),
        ensures
            final(self).wf(),
            !old(self)@.sweep_due(now) ==> final(self)@ == old(self)@ && r@.len() == 0,
            old(self)@.sweep_due(now) ==> final(self)@ == old(self)@.after_sweep(now) && exists|
                wan_order: Seq<Ipv4Addr>,
                lan_order: Seq<Ipv4Addr>,
            | #[trigger]
                old(self)@.sweeps(now, wan_order, lan_order, sent_all(r@)),
    {
        let ghost v = self@;
        let mut out: Vec<Transmit> = Vec::new();
        // The first sweep happens immediately rather than after the interval
        // elapses.
        if let Some(last) = self.last_sweep_ms {
            if now.elapsed_since(Tick(last)) < SWEEP_INTERVAL_MS {
                return out;
            }
        }
        self.last_sweep_ms = Some(now.0);
        let ghost wan_table = self.wan.neighbors@;
        let ghost lan_table = self.lan.neighbors@;
        proof {
            lemma_bytes_sweep(wan_table, now);
            lemma_bytes_sweep(lan_table, now);
        }
        let wan_id: u16 = self.wan.port.port_id();
        let swept = self.wan.neighbors.sweep(now);
        let ghost wan_order = choose|order: Seq<Ipv4Addr>| #[trigger]
            neighbor::sweeps(
                wan_table,
                order,
                now,
                neighbor::frames_of(swept.requests@),
                swept.dropped@,
            );
        proof {
            wan_table.lemma_map_requests(|m: Mbuf| m@, wan_order, now, wan_order.len());
        }
        send_requests(&swept.requests, wan_id, &mut out);
        assert(sent_all(out@) =~= forwarding::sent_on(
            v.wan_id(),
            v.wan.sweep_requests(wan_order, now, wan_order.len()),
        ));
        if self.lan_ports.len() > 0 {
            let lan_id: u16 = self.lan_ports[0].port.port_id();
            let swept = self.lan.neighbors.sweep(now);
            let ghost lan_order = choose|order: Seq<Ipv4Addr>| #[trigger]
                neighbor::sweeps(
                    lan_table,
                    order,
                    now,
                    neighbor::frames_of(swept.requests@),
                    swept.dropped@,
                );
            proof {
                lan_table.lemma_map_requests(|m: Mbuf| m@, lan_order, now, lan_order.len());
            }
            send_requests(&swept.requests, lan_id, &mut out);
            assert(v.sweeps(now, wan_order, lan_order, sent_all(out@)));
        } else {
            assert(v.sweeps(now, wan_order, Seq::empty(), sent_all(out@)));
        }
        // Same cadence as the neighbor sweep: both want to age out idle state.
        self.conntrack.sweep(now);
        assert(self@ =~= v.after_sweep(now));
        out
    }
}

/// Send ARP requests on a port.
fn send_requests(requests: &Vec<[u8; 42]>, port_id: u16, out: &mut Vec<Transmit>)
    ensures
        sent_all(final(out)@) == sent_all(old(out)@) + forwarding::sent_on(
            port_id,
            neighbor::frames_of(requests@),
        ),
{
    let ghost before = sent_all(out@);
    let ghost sent = forwarding::sent_on(port_id, neighbor::frames_of(requests@));
    let mut i: usize = 0;
    assert(before =~= before + sent.subrange(0, 0));
    while i < requests.len()
        invariant
            i <= requests@.len(),
            sent == forwarding::sent_on(port_id, neighbor::frames_of(requests@)),
            sent_all(out@) == before + sent.subrange(0, i as int),
        decreases requests@.len() - i,
    {
        send(out, port_id, slice_to_vec(&requests[i]));
        proof {
            assert(sent[i as int] == (Sent { port_id, bytes: requests@[i as int]@ }));
            assert(before + sent.subrange(0, i + 1) =~= (before + sent.subrange(0, i as int)).push(
                sent[i as int],
            ));
        }
        i = i + 1;
    }
    assert(sent.subrange(0, i as int) =~= sent);
}

/// What a table holds after a sweep, with packets taken as their bytes.
proof fn lemma_bytes_sweep(v: NeighborView<Mbuf>, now: Tick)
    ensures
        waiting_bytes(v.after_sweep(now)) == waiting_bytes(v).after_sweep(now),
        waiting_bytes(v.after_sweep(now)).wf() == v.after_sweep(now).wf(),
        waiting_bytes(v).wf() == v.wf(),
{
    let m: Mbuf = arbitrary();
    v.lemma_map_packets(|m: Mbuf| m@, Ipv4Addr { bits: 0 }, m, BROADCAST, now);
    lemma_bytes_wf(v.after_sweep(now));
}

} // verus!
