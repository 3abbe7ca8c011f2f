//! What the router does with each frame: the state that its ports share, and
//! what a received frame makes of that state and has sent.
//!
//! LAN ports form one bridged segment with one neighbor table, one address pool
//! and one lease table. LAN hosts reach the WAN through TCP-only NAT behind a
//! stateful firewall.

use crate::dpdk::port::Port;
use crate::net::addr::Ipv4Addr;
use crate::net::arp::oper;
use crate::net::dhcp::MessageType;
use crate::net::ethernet;
use crate::net::ethernet::{ethertype, MacAddr, BROADCAST};
use crate::net::view;
use crate::net::wire;
use crate::router::app::{LanPortCtx, PortCtx, SWEEP_INTERVAL_MS};
use crate::router::arp;
use crate::router::arp::ArpMessage;
use crate::router::conntrack;
use crate::router::conntrack::{Conn, FlowKey};
use crate::router::dhcp;
use crate::router::dhcp::{Bindings, DhcpClient};
use crate::router::neighbor;
use crate::router::neighbor::{Action, NeighborView};
use crate::router::tick::Tick;
use crate::router::translation;
use crate::router::translation::NatView;
use crate::router::worker;
use crate::table;
use vstd::prelude::*;

verus! {

/// A frame that is sent on a port.
#[verifier::ext_equal]
pub struct Sent {
    pub port_id: u16,
    pub bytes: Seq<u8>,
}

/// The state that the ports share.
#[verifier::ext_equal]
pub struct AppView {
    /// The IP address the router responds to on the LAN.
    pub server_ip: Ipv4Addr,
    /// The software defined MAC address that the router responds to on the LAN.
    pub server_mac: MacAddr,
    /// The port behind which each MAC was last seen.
    pub fdb: Map<MacAddr, u16>,
    pub nat_table: NatView,
    pub flows: Map<FlowKey, Conn>,
    /// The address pool and the leases of the LAN.
    pub bindings: Bindings,
    /// Neighbors on the LAN, with the frames that wait for them.
    pub lan: NeighborView<Seq<u8>>,
    pub lan_ports: Seq<LanPortCtx>,
    /// Neighbors on the WAN link, with the frames that wait for them.
    pub wan: NeighborView<Seq<u8>>,
    pub wan_port: Port,
    /// The client that obtains the router's own WAN address.
    pub client: DhcpClient,
    /// The WAN address that was last put into use; zero if there was none.
    pub bound: Ipv4Addr,
    /// The WAN next hop; zero while it is not known.
    pub gateway: Ipv4Addr,
    /// When the tables were last swept, in milliseconds; `None` for never.
    pub last_sweep: Option<u64>,
}

/// What a frame makes of the state, and what is sent because of it.
#[verifier::ext_equal]
pub struct Step {
    pub app: AppView,
    pub sent: Seq<Sent>,
}

/// The first `n` LAN ports, apart from `except`, each send `bytes`.
pub open spec fn flooded(
    ports: Seq<LanPortCtx>,
    bytes: Seq<u8>,
    except: Option<u16>,
    n: nat,
) -> Seq<Sent>
    decreases n,
{
    if n == 0 {
        seq![]
    } else {
        let rest = flooded(ports, bytes, except, (n - 1) as nat);
        let id = ports[n - 1].port.info.port_id;
        if except == Some(id) {
            rest
        } else {
            rest.push(Sent { port_id: id, bytes })
        }
    }
}

/// Frames that waited for a neighbor, sent to it.
pub open spec fn drained(
    port_id: u16,
    queue: Seq<Seq<u8>>,
    src: MacAddr,
    dst: MacAddr,
) -> Seq<Sent> {
    Seq::new(
        queue.len(),
        |i: int| Sent { port_id, bytes: worker::with_ethernet(queue[i], src, dst) },
    )
}

/// The endpoints of a TCP segment, and its flags.
pub struct TcpTuple {
    pub src_ip: Ipv4Addr,
    pub src_port: u16,
    pub dst_ip: Ipv4Addr,
    pub dst_port: u16,
    pub flags: u8,
}

/// The endpoints and flags of the TCP segment that the frame `f` carries, if it
/// carries one.
pub open spec fn tcp_tuple(f: Seq<u8>) -> Option<TcpTuple> {
    match (view::frame_ipv4(f), view::frame_tcp(f)) {
        (Some(ip), Some(t)) => Some(
            TcpTuple {
                src_ip: Ipv4Addr { bits: wire::be32(f, ip.start + 12) },
                src_port: wire::be16(f, t.start),
                dst_ip: Ipv4Addr { bits: wire::be32(f, ip.start + 16) },
                dst_port: wire::be16(f, t.start + 2),
                flags: f[t.start + 13],
            },
        ),
        _ => None,
    }
}

impl AppView {
    /// The tables are what their operations keep them.
    pub open spec fn wf(self) -> bool {
        self.nat_table.wf() && self.lan.wf() && self.wan.wf()
    }

    /// The id of the WAN port.
    pub open spec fn wan_id(self) -> u16 {
        self.wan_port.info.port_id
    }

    /// The MAC address of the WAN port.
    pub open spec fn wan_mac(self) -> MacAddr {
        self.wan_port.info.ether_addr
    }

    /// The LAN port `i`.
    pub open spec fn lan_id(self, i: int) -> u16 {
        self.lan_ports[i].port.info.port_id
    }

    /// The state is left as it is and nothing is sent.
    pub open spec fn idle(self) -> Step {
        Step { app: self, sent: seq![] }
    }

    /// Every LAN port but `except` sends `bytes`.
    pub open spec fn flood(self, bytes: Seq<u8>, except: Option<u16>) -> Seq<Sent> {
        flooded(self.lan_ports, bytes, except, self.lan_ports.len())
    }

    /// One of the LAN ports has the id `id`.
    pub open spec fn has_lan_port(self, id: u16) -> bool {
        exists|i: int| 0 <= i < self.lan_ports.len() && #[trigger] self.lan_id(i) == id
    }

    /// The frame goes out on the port that `mac` was learned on; if it was not
    /// learned, on every LAN port. It does not go back out on the port
    /// `except` that it came in on.
    pub open spec fn to_mac(self, mac: MacAddr, bytes: Seq<u8>, except: Option<u16>) -> Seq<Sent> {
        match self.fdb.get(mac) {
            Some(id) => if Some(id) != except && self.has_lan_port(id) {
                seq![Sent { port_id: id, bytes }]
            } else {
                seq![]
            },
            None => self.flood(bytes, except),
        }
    }

    /// `mac` was seen behind the port `id`.
    pub open spec fn seen_on(self, mac: MacAddr, id: u16) -> AppView {
        AppView { fdb: self.fdb.insert(mac, id), ..self }
    }

    /// An ARP message on LAN port `i` shows that `ip` is at `mac`: what waited
    /// for it is sent there.
    pub open spec fn lan_learn(self, i: int, ip: Ipv4Addr, mac: MacAddr, now: Tick) -> Step {
        Step {
            app: AppView { lan: self.lan.after_arp(ip, mac, now), ..self },
            sent: drained(
                self.lan_id(i),
                self.lan.queue(ip),
                self.lan_ports[i].port.info.ether_addr,
                mac,
            ),
        }
    }

    /// An ARP message on the WAN port shows that `ip` is at `mac`: what waited
    /// for it is sent there.
    pub open spec fn wan_learn(self, ip: Ipv4Addr, mac: MacAddr, now: Tick) -> Step {
        Step {
            app: AppView { wan: self.wan.after_arp(ip, mac, now), ..self },
            sent: drained(self.wan_id(), self.wan.queue(ip), self.wan_mac(), mac),
        }
    }

    /// An ARP message claims the address of its sender: it is not leased out,
    /// and the address from the pool that the sender was last seen with, if it
    /// is another one, becomes free.
    pub open spec fn claim(self, a: ArpMessage) -> AppView {
        let reserved = self.bindings.pool.reserved(a.sender_ip);
        let pool = match self.lan.resolved.get(a.sha) {
            Some(old_ip) => if old_ip != a.sender_ip && reserved.covers(old_ip) {
                reserved.released(old_ip)
            } else {
                reserved
            },
            None => reserved,
        };
        AppView { bindings: Bindings { pool, ..self.bindings }, ..self }
    }

    /// What is sent for an ARP request on LAN port `i`: a broadcast request for
    /// another host is flooded to the other LAN ports, a request for the router
    /// is answered.
    pub open spec fn arp_answer(self, i: int, a: ArpMessage, f: Seq<u8>) -> Seq<Sent> {
        if a.oper != oper::REQUEST {
            seq![]
        } else if a.target_ip == self.server_ip {
            seq![Sent { port_id: self.lan_id(i), bytes: arp::reply_to(self.server_mac, a) }]
        } else if ethernet::mac_at(f, 0) == BROADCAST {
            self.flood(f, Some(self.lan_id(i)))
        } else {
            seq![]
        }
    }

    /// An ARP frame on LAN port `i`. The sender is learned from every message,
    /// the target from a reply.
    pub open spec fn lan_arp(self, i: int, f: Seq<u8>, now: Tick) -> Step {
        match arp::frame_arp(f) {
            Some(a) => {
                let first = self.claim(a).lan_learn(i, a.sender_ip, a.sha, now);
                let second = if a.oper == oper::REPLY && a.target_ip.bits != 0 {
                    first.app.lan_learn(i, a.target_ip, a.tha, now)
                } else {
                    first.app.idle()
                };
                Step {
                    app: second.app,
                    sent: first.sent + second.sent + second.app.arp_answer(i, a, f),
                }
            },
            None => self.idle(),
        }
    }

    /// The frame is translated and sent to the WAN next hop, or queued until
    /// the next hop is known.
    pub open spec fn to_gateway(self, f: Seq<u8>, now: Tick) -> Step {
        Step {
            app: AppView { wan: self.wan.after_resolve(self.gateway, f, now), ..self },
            sent: match neighbor::resolve_action(self.wan, self.gateway, f, 42) {
                Action::Forward { mac, packet } => seq![
                    Sent {
                        port_id: self.wan_id(),
                        bytes: worker::with_ethernet(packet, self.wan_mac(), mac),
                    },
                ],
                Action::Queued { request_len: Some(_) } => seq![
                    Sent { port_id: self.wan_id(), bytes: self.wan.request(self.gateway) },
                ],
                _ => seq![],
            },
        }
    }

    /// LAN->WAN egress NAT. Nothing happens while the router has no WAN address
    /// or no next hop, or if the frame carries no TCP. Otherwise the flow is
    /// noted, and the frame is sent if it can be translated.
    pub open spec fn lan_egress(self, f: Seq<u8>, now: Tick) -> Step {
        if self.gateway.bits == 0 || self.nat_table.wan_ip.bits == 0 {
            self.idle()
        } else {
            match tcp_tuple(f) {
                Some(t) => {
                    let key = FlowKey {
                        int_ip: t.src_ip,
                        int_port: t.src_port,
                        ext_ip: t.dst_ip,
                        ext_port: t.dst_port,
                    };
                    let noted = AppView {
                        flows: conntrack::after_egress(self.flows, key, t.flags, now),
                        nat_table: translation::egress_table(f, self.nat_table),
                        ..self
                    };
                    if translation::egress_result(f, self.nat_table) is Some {
                        noted.to_gateway(translation::egress_frame(f, self.nat_table), now)
                    } else {
                        noted.idle()
                    }
                },
                None => self.idle(),
            }
        }
    }

    /// An IPv4 frame on LAN port `i`: DHCP is served; frames for the router's
    /// MAC go to the WAN; broadcasts are flooded; the rest is bridged.
    pub open spec fn lan_ipv4(self, i: int, f: Seq<u8>, now: Tick) -> Step {
        let dst = ethernet::mac_at(f, 0);
        match dhcp::frame_dhcp(f) {
            Some(m) => {
                let cfg = self.lan_ports[i].dhcp;
                Step {
                    app: AppView { bindings: cfg.after(self.bindings, m), ..self },
                    sent: match cfg.answer(self.bindings, m) {
                        Some(bytes) => seq![Sent { port_id: self.lan_id(i), bytes }],
                        None => seq![],
                    },
                }
            },
            None => if dst == self.server_mac {
                self.lan_egress(f, now)
            } else if dst == BROADCAST {
                Step { app: self, sent: self.flood(f, Some(self.lan_id(i))) }
            } else {
                Step { app: self, sent: self.to_mac(dst, f, Some(self.lan_id(i))) }
            },
        }
    }

    /// A frame on LAN port `i`: its sender is learned, and ARP and IPv4 are
    /// handled. Anything else is dropped.
    #[verifier::opaque]
    pub open spec fn lan_frame(self, i: int, f: Seq<u8>, now: Tick) -> Step {
        match view::ethernet_layout(f, 0) {
            Some(eth) => {
                let v = self.seen_on(ethernet::mac_at(f, 6), self.lan_id(i));
                if eth.ethertype == ethertype::ARP {
                    v.lan_arp(i, f, now)
                } else if eth.ethertype == ethertype::IPV4 {
                    v.lan_ipv4(i, f, now)
                } else {
                    v.idle()
                }
            },
            None => self.idle(),
        }
    }

    /// An ARP frame on the WAN port. The sender is learned from every message,
    /// the target from a reply.
    pub open spec fn wan_arp(self, f: Seq<u8>, now: Tick) -> Step {
        match arp::frame_arp(f) {
            Some(a) => {
                let first = if a.sender_ip.bits != 0 {
                    self.wan_learn(a.sender_ip, a.sha, now)
                } else {
                    self.idle()
                };
                let second = if a.oper == oper::REPLY && a.target_ip.bits != 0 {
                    first.app.wan_learn(a.target_ip, a.tha, now)
                } else {
                    first.app.idle()
                };
                Step { app: second.app, sent: first.sent + second.sent }
            },
            None => self.idle(),
        }
    }

    /// A translated frame goes to the LAN host `ip`, or is queued until the
    /// host is known. The request for the host goes out on every LAN port.
    pub open spec fn to_host(self, ip: Ipv4Addr, f: Seq<u8>, now: Tick) -> Step {
        Step {
            app: AppView { lan: self.lan.after_resolve(ip, f, now), ..self },
            sent: match neighbor::resolve_action(self.lan, ip, f, 42) {
                Action::Forward { mac, packet } => self.to_mac(
                    mac,
                    worker::with_ethernet(packet, self.lan_ports[0].port.info.ether_addr, mac),
                    None,
                ),
                Action::Queued { request_len: Some(_) } => self.flood(self.lan.request(ip), None),
                _ => seq![],
            },
        }
    }

    /// WAN->LAN ingress NAT. A frame is dropped unless it carries TCP, its
    /// destination port is bound, and it belongs to a flow that is open.
    pub open spec fn wan_ingress(self, f: Seq<u8>, now: Tick) -> Step {
        match (tcp_tuple(f), translation::ingress_result(f, self.nat_table)) {
            (Some(t), Some(e)) => {
                let key = FlowKey {
                    int_ip: e.ip,
                    int_port: e.port,
                    ext_ip: t.src_ip,
                    ext_port: t.src_port,
                };
                let noted = AppView {
                    flows: conntrack::after_ingress(self.flows, key, t.flags, now),
                    ..self
                };
                if conntrack::admits(self.flows, key) && self.lan_ports.len() > 0 {
                    noted.to_host(e.ip, translation::ingress_frame(f, self.nat_table), now)
                } else {
                    noted.idle()
                }
            },
            _ => self.idle(),
        }
    }

    /// A frame on the WAN port: its sender is learned, ARP is handled, DHCP is
    /// fed to the client, and other IPv4 is tried on the ingress path. Anything
    /// else is dropped.
    #[verifier::opaque]
    pub open spec fn wan_frame(self, f: Seq<u8>, now: Tick) -> Step {
        match view::ethernet_layout(f, 0) {
            Some(eth) => {
                let v = self.seen_on(ethernet::mac_at(f, 6), self.wan_id());
                if eth.ethertype == ethertype::ARP {
                    v.wan_arp(f, now)
                } else {
                    match dhcp::frame_dhcp(f) {
                        Some(m) => (AppView { client: v.client.after_receive(m), ..v }).idle(),
                        None => if eth.ethertype == ethertype::IPV4 {
                            v.wan_ingress(f, now)
                        } else {
                            v.idle()
                        },
                    }
                }
            },
            None => self.idle(),
        }
    }

    /// The client has an address that is not in use yet: it is put into use,
    /// and if the lease names a gateway, that becomes the next hop and is asked
    /// for at once.
    pub open spec fn bind(self, ip: Ipv4Addr) -> Step {
        let v = AppView {
            bound: ip,
            wan: NeighborView { our_ip: ip, ..self.wan },
            nat_table: NatView { wan_ip: ip, ..self.nat_table },
            ..self
        };
        match self.client.lease {
            Some(l) => match l.gateway {
                Some(gw) => Step {
                    app: AppView { gateway: gw, ..v },
                    sent: seq![
                        Sent {
                            port_id: self.wan_id(),
                            bytes: crate::net::arp::arp_frame(
                                oper::REQUEST,
                                BROADCAST@,
                                self.wan_mac()@,
                                ip,
                                crate::net::arp::UNKNOWN_HARDWARE_ADDR@,
                                gw,
                            ),
                        },
                    ],
                },
                None => v.idle(),
            },
            None => v.idle(),
        }
    }

    /// What the WAN side does on its own: put a new address into use, or drive
    /// the client that is to obtain one.
    #[verifier::opaque]
    pub open spec fn wan_tick(self) -> Step {
        match self.client.spec_bound_ip() {
            Some(ip) => if ip != self.bound {
                self.bind(ip)
            } else {
                self.idle()
            },
            None => match self.client.next_frame() {
                Some(bytes) => Step {
                    app: AppView { client: self.client.after_send(), ..self },
                    sent: seq![Sent { port_id: self.wan_id(), bytes }],
                },
                None => self.idle(),
            },
        }
    }
}

impl AppView {
    /// `port` is one of the router's ports.
    pub open spec fn has_port(self, port: PortCtx) -> bool {
        match port {
            PortCtx::Wan => true,
            PortCtx::Lan(i) => i < self.lan_ports.len(),
        }
    }

    /// A frame that was received on `port`.
    pub open spec fn receive(self, port: PortCtx, f: Seq<u8>, now: Tick) -> Step {
        match port {
            PortCtx::Wan => self.wan_frame(f, now),
            PortCtx::Lan(i) => self.lan_frame(i as int, f, now),
        }
    }

    /// The first `n` of the frames that were received on `port`, one after the
    /// other.
    pub open spec fn burst(
        self,
        port: PortCtx,
        frames: Seq<Seq<u8>>,
        now: Tick,
        n: nat,
    ) -> Step
        decreases n,
    {
        if n == 0 {
            self.idle()
        } else {
            let b = self.burst(port, frames, now, (n - 1) as nat);
            let s = b.app.receive(port, frames[n - 1], now);
            Step { app: s.app, sent: b.sent + s.sent }
        }
    }

    /// A cycle of a port: all the frames of a burst, and on the WAN port what
    /// the WAN side does on its own.
    pub open spec fn cycle(self, port: PortCtx, frames: Seq<Seq<u8>>, now: Tick) -> Step {
        let b = self.burst(port, frames, now, frames.len());
        if port == PortCtx::Wan {
            let t = b.app.wan_tick();
            Step { app: t.app, sent: b.sent + t.sent }
        } else {
            b
        }
    }

    /// It is time to sweep: at once if there was no sweep yet, else after the
    /// interval.
    pub open spec fn sweep_due(self, now: Tick) -> bool {
        match self.last_sweep {
            None => true,
            Some(last) => now.since(Tick(last)) >= SWEEP_INTERVAL_MS,
        }
    }

    /// The state after a sweep.
    pub open spec fn after_sweep(self, now: Tick) -> AppView {
        AppView {
            wan: self.wan.after_sweep(now),
            lan: if self.lan_ports.len() > 0 {
                self.lan.after_sweep(now)
            } else {
                self.lan
            },
            flows: conntrack::after_sweep(self.flows, now),
            last_sweep: Some(now.0),
            ..self
        }
    }

    /// What is sent by a sweep that visits the targets of the WAN and of the
    /// LAN in the orders given: requests for the targets that have not answered
    /// yet, those of the LAN on the first LAN port.
    pub open spec fn sweep_sent(
        self,
        now: Tick,
        wan_order: Seq<Ipv4Addr>,
        lan_order: Seq<Ipv4Addr>,
    ) -> Seq<Sent> {
        sent_on(self.wan_id(), self.wan.sweep_requests(wan_order, now, wan_order.len())) + (
        if self.lan_ports.len() > 0 {
            sent_on(self.lan_id(0), self.lan.sweep_requests(lan_order, now, lan_order.len()))
        } else {
            seq![]
        })
    }

    /// `sent` is what a sweep sends.
    pub open spec fn sweeps(
        self,
        now: Tick,
        wan_order: Seq<Ipv4Addr>,
        lan_order: Seq<Ipv4Addr>,
        sent: Seq<Sent>,
    ) -> bool {
        &&& table::lists(wan_order, self.wan.pending.dom())
        &&& self.lan_ports.len() > 0 ==> table::lists(lan_order, self.lan.pending.dom())
        &&& sent == self.sweep_sent(now, wan_order, lan_order)
    }
}

/// Frames that are sent on one port.
pub open spec fn sent_on(port_id: u16, frames: Seq<Seq<u8>>) -> Seq<Sent> {
    Seq::new(frames.len(), |i: int| Sent { port_id, bytes: frames[i] })
}

/// A frame does not change which ports the router has.
pub proof fn lemma_ports_stay(v: AppView, port: PortCtx, f: Seq<u8>, now: Tick)
    ensures
        v.receive(port, f, now).app.lan_ports == v.lan_ports,
        v.receive(port, f, now).app.wan_port == v.wan_port,
{
    reveal(AppView::lan_frame);
    reveal(AppView::wan_frame);
}

/// Frames do not count as sweeps.
proof fn lemma_burst_sweeps_nothing(
    v: AppView,
    port: PortCtx,
    frames: Seq<Seq<u8>>,
    now: Tick,
    n: nat,
)
    ensures
        v.burst(port, frames, now, n).app.last_sweep == v.last_sweep,
    decreases n,
{
    if n > 0 {
        lemma_burst_sweeps_nothing(v, port, frames, now, (n - 1) as nat);
        reveal(AppView::lan_frame);
        reveal(AppView::wan_frame);
    }
}

/// Sweeps are at least the interval apart: after one, the next is due once the
/// interval has passed and not before, whatever a port did in between and
/// however late it is.
pub proof fn law_sweeps_are_apart(
    v: AppView,
    swept: Tick,
    port: PortCtx,
    frames: Seq<Seq<u8>>,
    between: Tick,
    now: Tick,
)
    ensures
        v.after_sweep(swept).sweep_due(now) <==> now.0 >= swept.0 + SWEEP_INTERVAL_MS,
        v.after_sweep(swept).cycle(port, frames, between).app.sweep_due(now) <==> now.0 >= swept.0
            + SWEEP_INTERVAL_MS,
{
    reveal(AppView::wan_tick);
    lemma_burst_sweeps_nothing(v.after_sweep(swept), port, frames, between, frames.len());
}

/// Whatever frame comes in, the tables keep to their invariants.
pub proof fn law_frames_keep_tables(v: AppView, port: PortCtx, f: Seq<u8>, now: Tick)
    requires
        v.wf(),
    ensures
        v.receive(port, f, now).app.wf(),
{
    reveal(AppView::lan_frame);
    reveal(AppView::wan_frame);
    if let Some(a) = arp::frame_arp(f) {
        let zero = Seq::<u8>::empty();
        neighbor::law_queues_stay_bounded(v.lan, a.sender_ip, zero, a.sha, now);
        neighbor::law_queues_stay_bounded(
            v.lan.after_arp(a.sender_ip, a.sha, now),
            a.target_ip,
            zero,
            a.tha,
            now,
        );
        neighbor::law_queues_stay_bounded(v.wan, a.sender_ip, zero, a.sha, now);
        neighbor::law_queues_stay_bounded(v.wan, a.target_ip, zero, a.tha, now);
        neighbor::law_queues_stay_bounded(
            v.wan.after_arp(a.sender_ip, a.sha, now),
            a.target_ip,
            zero,
            a.tha,
            now,
        );
    }
    if let Some(at) = translation::egress_place(f) {
        let src = translation::src_endpoint(f, at);
        translation::law_egress_keeps_invariant(v.nat_table, at.l4, src.ip, src.port);
    }
    let e = translation::egress_frame(f, v.nat_table);
    neighbor::law_queues_stay_bounded(v.wan, v.gateway, e, BROADCAST, now);
    if let Some(host) = translation::ingress_result(f, v.nat_table) {
        let g = translation::ingress_frame(f, v.nat_table);
        neighbor::law_queues_stay_bounded(v.lan, host.ip, g, BROADCAST, now);
    }
}

/// What is flooded goes out on LAN ports only, and not on the one left out.
proof fn lemma_flooded(
    ports: Seq<LanPortCtx>,
    bytes: Seq<u8>,
    except: Option<u16>,
    n: nat,
    k: int,
)
    requires
        n <= ports.len(),
        0 <= k < flooded(ports, bytes, except, n).len(),
    ensures
        ({
            let s = flooded(ports, bytes, except, n)[k];
            &&& s.bytes == bytes
            &&& Some(s.port_id) != except
            &&& exists|i: int| 0 <= i < ports.len() && #[trigger] ports[i].port.info.port_id
                == s.port_id
        }),
    decreases n,
{
    let rest = flooded(ports, bytes, except, (n - 1) as nat);
    if k < rest.len() {
        lemma_flooded(ports, bytes, except, (n - 1) as nat, k);
    } else {
        assert(ports[n - 1].port.info.port_id == flooded(ports, bytes, except, n)[k].port_id);
    }
}

/// What is sent to a MAC on the LAN goes out on LAN ports only, and not on the
/// one left out.
proof fn lemma_to_mac(v: AppView, mac: MacAddr, bytes: Seq<u8>, except: Option<u16>, k: int)
    requires
        0 <= k < v.to_mac(mac, bytes, except).len(),
    ensures
        ({
            let s = v.to_mac(mac, bytes, except)[k];
            &&& s.bytes == bytes
            &&& Some(s.port_id) != except
            &&& v.has_lan_port(s.port_id)
        }),
{
    match v.fdb.get(mac) {
        Some(_) => {},
        None => {
            lemma_flooded(v.lan_ports, bytes, except, v.lan_ports.len(), k);
            let id = v.to_mac(mac, bytes, except)[k].port_id;
            let i = choose|i: int|
                0 <= i < v.lan_ports.len() && #[trigger] v.lan_ports[i].port.info.port_id == id;
            assert(v.lan_id(i) == id);
        },
    }
}

/// The WAN port is not one of the LAN ports.
pub open spec fn wan_is_apart(v: AppView) -> bool {
    !v.has_lan_port(v.wan_id())
}

/// The router lets nothing but TCP out: of what comes in on a LAN port, only a
/// TCP segment to the router's MAC has anything sent on the WAN port, and only
/// once the router has a WAN address and a next hop.
pub proof fn law_only_tcp_leaves(v: AppView, i: int, f: Seq<u8>, now: Tick, k: int)
    requires
        wan_is_apart(v),
        0 <= i < v.lan_ports.len(),
        0 <= k < v.lan_frame(i, f, now).sent.len(),
        v.lan_frame(i, f, now).sent[k].port_id == v.wan_id(),
    ensures
        tcp_tuple(f) is Some,
        ethernet::mac_at(f, 0) == v.server_mac,
        v.gateway.bits != 0,
        v.nat_table.wan_ip.bits != 0,
{
    reveal(AppView::lan_frame);
    assert(v.lan_id(i) != v.wan_id()) by {
        assert(v.has_lan_port(v.lan_id(i)));
    }
    let eth = view::ethernet_layout(f, 0)->0;
    let w = v.seen_on(ethernet::mac_at(f, 6), v.lan_id(i));
    let s = v.lan_frame(i, f, now).sent;
    if eth.ethertype == ethertype::ARP {
        let a = arp::frame_arp(f)->0;
        let first = w.claim(a).lan_learn(i, a.sender_ip, a.sha, now);
        let second = if a.oper == oper::REPLY && a.target_ip.bits != 0 {
            first.app.lan_learn(i, a.target_ip, a.tha, now)
        } else {
            first.app.idle()
        };
        let n1 = first.sent.len() as int;
        let n2 = second.sent.len() as int;
        if k >= n1 + n2 {
            let answer = second.app.arp_answer(i, a, f);
            assert(s[k] == answer[k - n1 - n2]);
            if a.target_ip != v.server_ip {
                lemma_flooded(
                    v.lan_ports,
                    f,
                    Some(v.lan_id(i)),
                    v.lan_ports.len(),
                    k - n1 - n2,
                );
                let j = choose|j: int|
                    0 <= j < v.lan_ports.len() && #[trigger] v.lan_ports[j].port.info.port_id
                        == v.wan_id();
                assert(v.lan_id(j) == v.wan_id());
            }
        }
    } else {
        let dst = ethernet::mac_at(f, 0);
        if dhcp::frame_dhcp(f) is None && dst != v.server_mac {
            if dst == BROADCAST {
                lemma_flooded(v.lan_ports, f, Some(v.lan_id(i)), v.lan_ports.len(), k);
                let j = choose|j: int|
                    0 <= j < v.lan_ports.len() && #[trigger] v.lan_ports[j].port.info.port_id
                        == v.wan_id();
                assert(v.lan_id(j) == v.wan_id());
            } else {
                lemma_to_mac(w, dst, f, Some(v.lan_id(i)), k);
                let j = choose|j: int|
                    0 <= j < w.lan_ports.len() && #[trigger] w.lan_id(j) == v.wan_id();
                assert(v.lan_id(j) == v.wan_id());
            }
        }
    }
}

/// Unsolicited inbound traffic is dropped: a WAN frame that is not ARP and does
/// not belong to a flow that was opened from inside has nothing sent, and
/// changes neither the flows nor the NAT bindings nor the LAN's tables.
pub proof fn law_unsolicited_inbound_is_dropped(v: AppView, f: Seq<u8>, now: Tick)
    requires
        arp::frame_arp(f) is None,
        match (tcp_tuple(f), translation::ingress_result(f, v.nat_table)) {
            (Some(t), Some(e)) => !conntrack::admits(
                v.flows,
                FlowKey {
                    int_ip: e.ip,
                    int_port: e.port,
                    ext_ip: t.src_ip,
                    ext_port: t.src_port,
                },
            ),
            _ => true,
        },
    ensures
        v.wan_frame(f, now).sent == Seq::<Sent>::empty(),
        v.wan_frame(f, now).app.flows == v.flows,
        v.wan_frame(f, now).app.nat_table == v.nat_table,
        v.wan_frame(f, now).app.lan == v.lan,
        v.wan_frame(f, now).app.bindings == v.bindings,
{
    reveal(AppView::wan_frame);
}

/// The router answers for its own address: of a request for it on a LAN port,
/// the last thing that is sent is the answer, on the same port.
pub proof fn law_requests_for_the_router_are_answered(v: AppView, i: int, f: Seq<u8>, now: Tick)
    requires
        arp::frame_arp(f) matches Some(a) && a.oper == oper::REQUEST && a.target_ip == v.server_ip,
    ensures
        v.lan_frame(i, f, now).sent.len() > 0,
        v.lan_frame(i, f, now).sent.last() == (Sent {
            port_id: v.lan_id(i),
            bytes: arp::reply_to(v.server_mac, arp::frame_arp(f)->0),
        }),
{
    reveal(AppView::lan_frame);
    assert(view::ethernet_layout(f, 0) matches Some(eth) && eth.ethertype == ethertype::ARP);
}

/// A LAN client that looks for an address is offered the one that is assigned
/// to it, on the port that it asked on.
pub proof fn law_lan_clients_are_offered_addresses(v: AppView, i: int, f: Seq<u8>, now: Tick)
    requires
        0 <= i < v.lan_ports.len(),
        v.lan_ports[i].dhcp.dns@.len() <= dhcp::DNS_MAX,
        view::ethernet_layout(f, 0) matches Some(eth) && eth.ethertype == ethertype::IPV4,
        dhcp::frame_dhcp(f) matches Some(m) && m.kind() == Some(MessageType::Discover)
            && v.bindings.assigned(m.mac) is Some,
    ensures
        ({
            let sent = v.lan_frame(i, f, now).sent;
            let m = dhcp::frame_dhcp(f)->0;
            &&& sent.len() == 1
            &&& sent[0].port_id == v.lan_id(i)
            &&& dhcp::frame_dhcp(sent[0].bytes) matches Some(offer) && offer.kind() == Some(
                MessageType::Offer,
            ) && offer.xid == m.xid && offer.mac == m.mac && Some(offer.your_ip)
                == v.bindings.assigned(m.mac)
            &&& v.lan_frame(i, f, now).app.bindings.leases.get(m.mac) == v.bindings.assigned(m.mac)
        }),
{
    reveal(AppView::lan_frame);
    let m = dhcp::frame_dhcp(f)->0;
    let cfg = v.lan_ports[i].dhcp;
    let offer = dhcp::Reply {
        kind: MessageType::Offer,
        your_ip: v.bindings.assigned(m.mac)->0,
        broadcast: m.broadcast(),
    };
    assert(cfg.reply(v.bindings, m) == Some(offer));
    dhcp::law_reply_reads_back(cfg, offer, m.xid, m.mac);
    dhcp::law_assignment_is_stable(v.bindings, m.mac);
}

/// Nothing that comes in on the WAN port opens a way in: it adds no flow and
/// no NAT binding, and neither does what the WAN side does on its own.
pub proof fn law_wan_opens_nothing(v: AppView, f: Seq<u8>, now: Tick, key: FlowKey)
    ensures
        v.wan_frame(f, now).app.flows.dom().contains(key) ==> v.flows.dom().contains(key),
        v.wan_frame(f, now).app.nat_table == v.nat_table,
        v.wan_tick().app.flows == v.flows,
        v.wan_tick().app.nat_table.rev == v.nat_table.rev,
        v.wan_tick().app.nat_table.fwd == v.nat_table.fwd,
{
    reveal(AppView::wan_frame);
    reveal(AppView::wan_tick);
}

/// A newly leased address is put into use once: from then on connections are
/// translated to it, the next hop is the gateway that the lease names, and as
/// long as the lease stays nothing more happens on its own.
pub proof fn law_lease_is_put_into_use_once(v: AppView, ip: Ipv4Addr)
    requires
        v.client.spec_bound_ip() == Some(ip),
        ip != v.bound,
    ensures
        ({
            let w = v.wan_tick().app;
            &&& w.nat_table.wan_ip == ip
            &&& w.wan.our_ip == ip
            &&& v.client.lease->0.gateway matches Some(gw) ==> w.gateway == gw
            &&& w.wan_tick() == w.idle()
        }),
{
    reveal(AppView::wan_tick);
}

/// The bridge does not send a frame back out on the port that it came in on: of
/// what is bridged, every copy goes out, unchanged, on another LAN port.
pub proof fn law_bridged_frames_do_not_echo(v: AppView, i: int, f: Seq<u8>, now: Tick, k: int)
    requires
        0 <= i < v.lan_ports.len(),
        view::ethernet_layout(f, 0) matches Some(eth) && eth.ethertype == ethertype::IPV4,
        dhcp::frame_dhcp(f) is None,
        ethernet::mac_at(f, 0) != v.server_mac,
        0 <= k < v.lan_frame(i, f, now).sent.len(),
    ensures
        v.lan_frame(i, f, now).sent[k].bytes == f,
        v.lan_frame(i, f, now).sent[k].port_id != v.lan_id(i),
        v.has_lan_port(v.lan_frame(i, f, now).sent[k].port_id),
{
    reveal(AppView::lan_frame);
    let w = v.seen_on(ethernet::mac_at(f, 6), v.lan_id(i));
    let dst = ethernet::mac_at(f, 0);
    let id = v.lan_frame(i, f, now).sent[k].port_id;
    if dst == BROADCAST {
        lemma_flooded(v.lan_ports, f, Some(v.lan_id(i)), v.lan_ports.len(), k);
        let j = choose|j: int|
            0 <= j < v.lan_ports.len() && #[trigger] v.lan_ports[j].port.info.port_id == id;
        assert(v.lan_id(j) == id);
    } else {
        lemma_to_mac(w, dst, f, Some(v.lan_id(i)), k);
        let j = choose|j: int| 0 <= j < w.lan_ports.len() && #[trigger] w.lan_id(j) == id;
        assert(v.lan_id(j) == id);
    }
}

/// A host that was seen on a LAN port is reached on that port: an IPv4 frame to
/// its MAC from another port, once it has sent something itself, goes out there
/// and nowhere else.
pub proof fn law_learned_host_is_reached(
    v: AppView,
    i: int,
    hello: Seq<u8>,
    j: int,
    f: Seq<u8>,
    now: Tick,
    later: Tick,
)
    requires
        0 <= i < v.lan_ports.len(),
        0 <= j < v.lan_ports.len(),
        v.lan_id(i) != v.lan_id(j),
        view::ethernet_layout(hello, 0) is Some,
        view::ethernet_layout(f, 0) matches Some(eth) && eth.ethertype == ethertype::IPV4,
        dhcp::frame_dhcp(f) is None,
        ethernet::mac_at(f, 0) == ethernet::mac_at(hello, 6),
        ethernet::mac_at(f, 0) != v.server_mac,
        ethernet::mac_at(f, 0) != BROADCAST,
        ethernet::mac_at(f, 0) != ethernet::mac_at(f, 6),
    ensures
        v.lan_frame(i, hello, now).app.lan_frame(j, f, later).sent == seq![
            Sent { port_id: v.lan_id(i), bytes: f },
        ],
{
    reveal(AppView::lan_frame);
    let w = v.lan_frame(i, hello, now).app;
    lemma_lan_keeps_fdb(v.seen_on(ethernet::mac_at(hello, 6), v.lan_id(i)), i, hello, now);
    assert(w.fdb.get(ethernet::mac_at(f, 0)) == Some(v.lan_id(i)));
    let x = w.seen_on(ethernet::mac_at(f, 6), w.lan_id(j));
    assert(x.lan_id(i) == v.lan_id(i));
    assert(x.has_lan_port(v.lan_id(i)));
}

proof fn lemma_lan_keeps_fdb(v: AppView, i: int, f: Seq<u8>, now: Tick)
    ensures
        v.lan_arp(i, f, now).app.fdb == v.fdb,
        v.lan_ipv4(i, f, now).app.fdb == v.fdb,
        v.lan_arp(i, f, now).app.lan_ports == v.lan_ports,
        v.lan_ipv4(i, f, now).app.lan_ports == v.lan_ports,
        v.lan_arp(i, f, now).app.server_mac == v.server_mac,
        v.lan_ipv4(i, f, now).app.server_mac == v.server_mac,
{
}

/// What a LAN host sent out is answered: once a TCP segment of the host was
/// translated and its flow is open, a segment from its peer to the address that
/// the host was given is led back to the host.
pub proof fn law_replies_reach_the_host(
    v: AppView,
    f: Seq<u8>,
    now: Tick,
    g: Seq<u8>,
    later: Tick,
)
    requires
        v.wf(),
        v.gateway.bits != 0,
        v.nat_table.wan_ip.bits != 0,
        v.lan_ports.len() > 0,
        translation::egress_result(f, v.nat_table) is Some,
        tcp_tuple(f) is Some,
        tcp_tuple(g) is Some,
        tcp_tuple(g)->0.src_ip == tcp_tuple(f)->0.dst_ip,
        tcp_tuple(g)->0.src_port == tcp_tuple(f)->0.dst_port,
        tcp_tuple(g)->0.dst_port == translation::egress_result(f, v.nat_table)->0.new_src_port,
        conntrack::admits(
            v.lan_egress(f, now).app.flows,
            FlowKey {
                int_ip: tcp_tuple(f)->0.src_ip,
                int_port: tcp_tuple(f)->0.src_port,
                ext_ip: tcp_tuple(f)->0.dst_ip,
                ext_port: tcp_tuple(f)->0.dst_port,
            },
        ),
    ensures
        ({
            let host = tcp_tuple(f)->0.src_ip;
            let out = v.lan_egress(f, now).app;
            let back = out.wan_ingress(g, later);
            let noted = AppView { flows: back.app.flows, ..out };
            back == noted.to_host(
                host,
                translation::ingress_frame(g, out.nat_table),
                later,
            )
        }),
{
    let t = tcp_tuple(f)->0;
    let at = translation::egress_place(f)->0;
    assert(at.l4 == translation::L4::Tcp);
    let src = translation::src_endpoint(f, at);
    assert(src.ip == t.src_ip && src.port == t.src_port);
    translation::law_mapping_is_reversible(v.nat_table, at.l4, src.ip, src.port);
    let out = v.lan_egress(f, now).app;
    assert(out.nat_table == v.nat_table.after_egress(at.l4, src.ip, src.port));
    let gt = translation::l4_place(g)->0;
    assert(gt.l4 == translation::L4::Tcp);
    assert(translation::dst_endpoint(g, gt).port == tcp_tuple(g)->0.dst_port);
    assert(translation::ingress_result(g, out.nat_table) == Some(src));
}

/// An address that a LAN host uses is not leased out: after an ARP message from
/// the host no client without a lease is given its address.
pub proof fn law_claimed_address_is_not_leased(v: AppView, a: ArpMessage, client: MacAddr)
    requires
        !v.bindings.leases.dom().contains(client),
    ensures
        v.claim(a).bindings.assigned(client) != Some(a.sender_ip),
{
    let free = v.claim(a).bindings.pool.free;
    assert(!free.contains(a.sender_ip));
    dhcp::lemma_lowest_is_free(free);
}

} // verus!
