//! What the router guarantees, stated on the bytes of the frames that come in
//! and go out.

use crate::net::addr::Ipv4Addr;
use crate::net::anatomy;
use crate::net::arp::oper;
use crate::net::ethernet;
use crate::net::ethernet::{MacAddr, BROADCAST};
use crate::net::view;
use crate::router::app::{LanPortCtx, PortCtx};
use crate::router::arp;
use crate::router::arp::ArpMessage;
use crate::router::conntrack;
use crate::router::conntrack::FlowKey;
use crate::router::dhcp;
use crate::router::forwarding;
use crate::router::forwarding::{AppView, Sent};
use crate::router::neighbor;
use crate::router::tick::Tick;
use crate::router::translation;
use crate::router::translation::{L4, RevKey};
use crate::router::worker;
use vstd::prelude::*;

verus! {

/// `t` is the frame `s` sent from `src` to `dst`: the Ethernet addresses are
/// theirs, and everything behind them is as it was.
pub open spec fn sent_from_to(s: Seq<u8>, t: Seq<u8>, src: MacAddr, dst: MacAddr) -> bool {
    &&& t.len() == s.len()
    &&& anatomy::mac_is(t, 0, dst)
    &&& anatomy::mac_is(t, 6, src)
    &&& forall|i: int| 12 <= i < s.len() ==> #[trigger] t[i] == s[i]
}

/// Rewriting the Ethernet addresses puts the destination first and the source
/// behind it, and changes nothing else. What has no room for them is left alone.
pub proof fn law_ethernet_addresses_are_set(s: Seq<u8>, src: MacAddr, dst: MacAddr)
    ensures
        s.len() >= 14 ==> sent_from_to(s, worker::with_ethernet(s, src, dst), src, dst),
        s.len() < 14 ==> worker::with_ethernet(s, src, dst) == s,
{
    if s.len() >= 14 {
        let t = worker::with_ethernet(s, src, dst);
        let d = dst@ + src@;
        assert(t[0] == d[0] && t[1] == d[1] && t[2] == d[2] && t[3] == d[3] && t[4] == d[4] && t[5]
            == d[5]);
        assert(t[6] == d[6] && t[7] == d[7] && t[8] == d[8] && t[9] == d[9] && t[10] == d[10]
            && t[11] == d[11]);
    }
}

/// Every frame with an Ethernet header teaches the bridge where its sender is:
/// behind the port that it came in on, and what is known of others stays. What
/// is too short for a header has no effect at all.
pub proof fn law_senders_are_learned(
    v: AppView,
    i: int,
    f: Seq<u8>,
    now: Tick,
    mac: MacAddr,
    other: MacAddr,
)
    requires
        anatomy::mac_is(f, 6, mac),
        other != mac,
    ensures
        ({
            let whole = f.len() >= 18 || f.len() >= 14 && anatomy::num16(f, 12) != 0x8100;
            let lan = v.lan_frame(i, f, now);
            let wan = v.wan_frame(f, now);
            &&& whole ==> lan.app.fdb.get(mac) == Some(v.lan_id(i)) && wan.app.fdb.get(mac) == Some(
                v.wan_id(),
            )
            &&& lan.app.fdb.get(other) == v.fdb.get(other)
            &&& wan.app.fdb.get(other) == v.fdb.get(other)
            &&& !whole ==> lan.app == v && lan.sent.len() == 0 && wan.app == v && wan.sent.len()
                == 0
        }),
{
    reveal(AppView::lan_frame);
    reveal(AppView::wan_frame);
    anatomy::lemma_mac_at(f, 6, mac);
    anatomy::law_ethernet_is_found(f, 0, 14);
}

/// What carries neither ARP nor IPv4 goes no further on either side.
pub proof fn law_other_protocols_are_dropped(v: AppView, i: int, f: Seq<u8>, now: Tick)
    requires
        forall|l3: int| !#[trigger] anatomy::carries(f, 0x0806, l3) && !anatomy::carries(
            f,
            0x0800,
            l3,
        ),
    ensures
        v.lan_frame(i, f, now).sent.len() == 0,
        v.wan_frame(f, now).sent.len() == 0,
        v.lan_frame(i, f, now).app == (AppView { fdb: v.lan_frame(i, f, now).app.fdb, ..v }),
        v.wan_frame(f, now).app == (AppView { fdb: v.wan_frame(f, now).app.fdb, ..v }),
{
    reveal(AppView::lan_frame);
    reveal(AppView::wan_frame);
    anatomy::law_ethernet_is_found(f, 0x0806, 14);
    anatomy::law_ethernet_is_found(f, 0x0806, 18);
    anatomy::law_ethernet_is_found(f, 0x0800, 14);
    anatomy::law_ethernet_is_found(f, 0x0800, 18);
    assert(!anatomy::carries(f, 0x0806, 14) && !anatomy::carries(f, 0x0806, 18));
}

/// The LAN ports have different ids.
pub open spec fn ids_differ(ports: Seq<LanPortCtx>) -> bool {
    forall|i: int, j: int|
        0 <= i < j < ports.len() ==> (#[trigger] ports[i]).port.info.port_id != (
        #[trigger] ports[j]).port.info.port_id
}

/// `sent` is a copy of `bytes` on each port but `except`, and nothing else: each
/// copy is `bytes`, goes out on a port of the list other than `except`, and on
/// each of those ports there is one, and no second one if the ids differ.
pub open spec fn copy_on_each(
    sent: Seq<Sent>,
    ports: Seq<LanPortCtx>,
    bytes: Seq<u8>,
    except: Option<u16>,
) -> bool {
    &&& forall|k: int|
        0 <= k < sent.len() ==> (#[trigger] sent[k]).bytes == bytes && Some(sent[k].port_id)
            != except
    &&& forall|k: int|
        0 <= k < sent.len() ==> exists|j: int|
            0 <= j < ports.len() && #[trigger] ports[j].port.info.port_id == (
            #[trigger] sent[k]).port_id
    &&& forall|j: int|
        0 <= j < ports.len() && Some(ports[j].port.info.port_id) != except ==> sent.contains(
            Sent { port_id: (#[trigger] ports[j]).port.info.port_id, bytes },
        )
    &&& ids_differ(ports) ==> forall|k: int, l: int|
        0 <= k < l < sent.len() ==> (#[trigger] sent[k]).port_id != (#[trigger] sent[l]).port_id
}

/// Flooding sends one copy on each LAN port but the one left out.
pub proof fn law_flooding_reaches_every_port(
    ports: Seq<LanPortCtx>,
    bytes: Seq<u8>,
    except: Option<u16>,
    n: nat,
)
    requires
        n <= ports.len(),
    ensures
        copy_on_each(
            forwarding::flooded(ports, bytes, except, n),
            ports.subrange(0, n as int),
            bytes,
            except,
        ),
    decreases n,
{
    let all = forwarding::flooded(ports, bytes, except, n);
    let first = ports.subrange(0, n as int);
    if n > 0 {
        let m = (n - 1) as nat;
        let rest = forwarding::flooded(ports, bytes, except, m);
        let fewer = ports.subrange(0, m as int);
        law_flooding_reaches_every_port(ports, bytes, except, m);
        let last = ports[m as int].port.info.port_id;
        assert forall|j: int| 0 <= j < m implies first[j] == #[trigger] fewer[j] by {}
        assert(first[m as int] == ports[m as int]);
        assert forall|k: int| 0 <= k < all.len() implies exists|j: int|
            0 <= j < first.len() && #[trigger] first[j].port.info.port_id == (
            #[trigger] all[k]).port_id by {
            if k < rest.len() {
                assert(all[k] == rest[k]);
                let j = choose|j: int|
                    0 <= j < fewer.len() && #[trigger] fewer[j].port.info.port_id
                        == rest[k].port_id;
                assert(first[j].port.info.port_id == all[k].port_id);
            } else {
                assert(first[m as int].port.info.port_id == all[k].port_id);
            }
        }
        assert forall|j: int|
            0 <= j < first.len() && Some((#[trigger] first[j]).port.info.port_id) != except implies
            all.contains(Sent { port_id: first[j].port.info.port_id, bytes }) by {
            if j < m {
                assert(fewer[j] == first[j]);
                assert(rest.contains(Sent { port_id: fewer[j].port.info.port_id, bytes }));
                let k = choose|k: int|
                    0 <= k < rest.len() && rest[k] == (Sent {
                        port_id: fewer[j].port.info.port_id,
                        bytes,
                    });
                assert(all[k] == rest[k]);
            } else {
                assert(all[rest.len() as int] == (Sent { port_id: last, bytes }));
            }
        }
        if ids_differ(first) {
            assert(ids_differ(fewer)) by {
                assert forall|a: int, b: int| 0 <= a < b < fewer.len() implies (
                #[trigger] fewer[a]).port.info.port_id != (
                #[trigger] fewer[b]).port.info.port_id by {
                    assert(first[a] == fewer[a] && first[b] == fewer[b]);
                }
            }
            assert forall|k: int, l: int| 0 <= k < l < all.len() implies (#[trigger] all[k]).port_id
                != (#[trigger] all[l]).port_id by {
                assert(all[k] == rest[k]);
                if l < rest.len() {
                    assert(all[l] == rest[l]);
                } else {
                    let j = choose|j: int|
                        0 <= j < fewer.len() && #[trigger] fewer[j].port.info.port_id
                            == rest[k].port_id;
                    assert(first[j] == fewer[j]);
                    assert(first[m as int].port.info.port_id == last);
                }
            }
        }
    }
}

/// All the LAN ports.
proof fn lemma_flood(v: AppView, bytes: Seq<u8>, except: Option<u16>)
    ensures
        copy_on_each(v.flood(bytes, except), v.lan_ports, bytes, except),
{
    law_flooding_reaches_every_port(v.lan_ports, bytes, except, v.lan_ports.len());
    assert(v.lan_ports.subrange(0, v.lan_ports.len() as int) =~= v.lan_ports);
}

/// The LAN ports are one bridge. An IPv4 frame that is neither DHCP nor meant
/// for the router goes on unchanged: on every other LAN port if it is a
/// broadcast, or if its destination, multicast or not, was not learned; on the
/// port of its destination alone if that was learned on another LAN port; and
/// nowhere if that is the port it came from, or no LAN port. Nothing but the
/// bridge's memory of the sender changes.
pub proof fn law_frames_are_bridged(
    v: AppView,
    i: int,
    f: Seq<u8>,
    now: Tick,
    l3: int,
    dst: MacAddr,
    src: MacAddr,
)
    requires
        0 <= i < v.lan_ports.len(),
        anatomy::carries(f, 0x0800, l3),
        dhcp::frame_dhcp(f) is None,
        anatomy::mac_is(f, 0, dst),
        anatomy::mac_is(f, 6, src),
        dst != v.server_mac,
    ensures
        ({
            let out = v.lan_frame(i, f, now);
            let here = v.lan_id(i);
            let to_all = dst == [255u8, 255, 255, 255, 255, 255];
            let known = if dst == src {
                Some(here)
            } else {
                v.fdb.get(dst)
            };
            &&& out.app == (AppView { fdb: v.fdb.insert(src, here), ..v })
            &&& to_all || known is None ==> copy_on_each(out.sent, v.lan_ports, f, Some(here))
            &&& !to_all ==> (known matches Some(id) ==> out.sent == if id != here
                && v.has_lan_port(id) {
                seq![Sent { port_id: id, bytes: f }]
            } else {
                seq![]
            })
        }),
{
    reveal(AppView::lan_frame);
    anatomy::law_ethernet_is_found(f, 0x0800, l3);
    anatomy::lemma_mac_at(f, 0, dst);
    anatomy::lemma_mac_at(f, 6, src);
    assert(BROADCAST =~= [255u8, 255, 255, 255, 255, 255]);
    let here = v.lan_id(i);
    let w = v.seen_on(src, here);
    lemma_flood(w, f, Some(here));
    if let Some(id) = w.fdb.get(dst) {
        assert(w.has_lan_port(id) == v.has_lan_port(id)) by {
            lemma_same_ports(v, w, id);
        }
    }
}

proof fn lemma_same_ports(v: AppView, w: AppView, id: u16)
    requires
        v.lan_ports == w.lan_ports,
    ensures
        w.has_lan_port(id) == v.has_lan_port(id),
{
    if v.has_lan_port(id) {
        let j = choose|j: int| 0 <= j < v.lan_ports.len() && #[trigger] v.lan_id(j) == id;
        assert(w.lan_id(j) == id);
    }
    if w.has_lan_port(id) {
        let j = choose|j: int| 0 <= j < w.lan_ports.len() && #[trigger] w.lan_id(j) == id;
        assert(v.lan_id(j) == id);
    }
}

/// The endpoints of a TCP segment are read off its bytes.
proof fn lemma_tcp_tuple(f: Seq<u8>, l3: int, l4: int, end: int)
    requires
        anatomy::tcp_at(f, l3, l4, end),
    ensures
        forwarding::tcp_tuple(f) is Some,
        ({
            let t = forwarding::tcp_tuple(f)->0;
            &&& t.src_ip.bits == anatomy::num32(f, l3 + 12)
            &&& t.src_port == anatomy::num16(f, l4)
            &&& t.dst_ip.bits == anatomy::num32(f, l3 + 16)
            &&& t.dst_port == anatomy::num16(f, l4 + 2)
            &&& t.flags == f[l4 + 13]
        }),
        dhcp::frame_dhcp(f) is None,
        view::ethernet_layout(f, 0) matches Some(eth) && eth.ethertype == 0x0800,
{
    anatomy::law_packets_are_found(f, l3, l4, end);
}

/// The flow of an outbound segment.
pub open spec fn flow_out(f: Seq<u8>, l3: int, l4: int) -> FlowKey {
    FlowKey {
        int_ip: Ipv4Addr { bits: anatomy::num32(f, l3 + 12) as u32 },
        int_port: anatomy::num16(f, l4) as u16,
        ext_ip: Ipv4Addr { bits: anatomy::num32(f, l3 + 16) as u32 },
        ext_port: anatomy::num16(f, l4 + 2) as u16,
    }
}

/// A LAN host's TCP segment to the router goes out to the gateway. It is noted
/// as its flow's, given the WAN address and a port, and, once the gateway's MAC
/// is known, sent there from the WAN port; until then it waits, and the first to
/// wait has the gateway asked for. Later fragments, and segments for which no
/// port is left, go no further.
pub proof fn law_segments_leave_through_the_gateway(
    v: AppView,
    i: int,
    f: Seq<u8>,
    now: Tick,
    l3: int,
    l4: int,
    end: int,
)
    requires
        v.wf(),
        0 <= i < v.lan_ports.len(),
        anatomy::tcp_at(f, l3, l4, end),
        anatomy::mac_is(f, 0, v.server_mac),
        v.gateway.bits != 0,
        v.nat_table.wan_ip.bits != 0,
    ensures
        ({
            let out = v.lan_frame(i, f, now);
            let fits = anatomy::num16(f, l3 + 6) % 8192 == 0;
            let given = v.nat_table.egress(
                L4::Tcp,
                Ipv4Addr { bits: anatomy::num32(f, l3 + 12) as u32 },
                anatomy::num16(f, l4) as u16,
            );
            let waiting = v.wan.queue(v.gateway);
            let known = v.wan.cache.dom().contains(v.gateway);
            &&& out.app.flows == conntrack::after_egress(
                v.flows,
                flow_out(f, l3, l4),
                f[l4 + 13],
                now,
            )
            &&& out.app.nat_table == translation::egress_table(f, v.nat_table)
            &&& out.app.lan == v.lan && out.app.bindings == v.bindings && out.app.client
                == v.client && out.app.gateway == v.gateway
            &&& !fits || given is None ==> out.sent.len() == 0 && out.app.wan == v.wan
            &&& fits ==> (given matches Some(e) ==> {
                let g = translation::egress_frame(f, v.nat_table);
                &&& anatomy::readdressed(
                    f,
                    g,
                    false,
                    l3,
                    l3 + 12,
                    l4,
                    l4 + 16,
                    e.new_src_ip,
                    e.new_src_port,
                )
                &&& e.new_src_ip == v.nat_table.wan_ip
                &&& known ==> {
                    &&& out.sent.len() == 1
                    &&& out.sent[0].port_id == v.wan_id()
                    &&& sent_from_to(
                        g,
                        out.sent[0].bytes,
                        v.wan_mac(),
                        v.wan.cache[v.gateway].mac,
                    )
                    &&& out.app.wan == v.wan
                }
                &&& !known && waiting.len() < 4 ==> out.app.wan.queue(v.gateway) == waiting.push(g)
                &&& !known && waiting.len() == 0 ==> {
                    &&& out.sent.len() == 1
                    &&& out.sent[0].port_id == v.wan_id()
                    &&& anatomy::arp_bytes(
                        out.sent[0].bytes,
                        1,
                        [255u8, 255, 255, 255, 255, 255],
                        v.wan.our_mac,
                        v.wan.our_ip,
                        [0u8, 0, 0, 0, 0, 0],
                        v.gateway,
                    )
                }
                &&& !known && waiting.len() > 0 ==> out.sent.len() == 0
                &&& !known && waiting.len() >= 4 ==> out.app.wan == v.wan
            })
        }),
{
    reveal(AppView::lan_frame);
    lemma_tcp_tuple(f, l3, l4, end);
    anatomy::lemma_mac_at(f, 0, v.server_mac);
    let w = v.seen_on(ethernet::mac_at(f, 6), v.lan_id(i));
    assert(v.lan_frame(i, f, now) == w.lan_egress(f, now));
    let key = flow_out(f, l3, l4);
    translation::law_what_is_translated(f, L4::Tcp, l3, l4, end);
    translation::law_egress_rewrites_the_source(f, v.nat_table, L4::Tcp, l3, l4, end);
    anatomy::law_network_order(f, l3 + 12, 0, 0);
    anatomy::law_network_order(f, l4, 0, 0);
    let g = translation::egress_frame(f, v.nat_table);
    if translation::egress_result(f, v.nat_table) is Some {
        let other = Ipv4Addr { bits: (v.gateway.bits - 1) as u32 };
        neighbor::law_what_becomes_of_a_packet(v.wan, v.gateway, g, now, 42, other);
        neighbor::law_request_bytes(v.wan, v.gateway, g);
        if v.wan.cache.dom().contains(v.gateway) {
            law_ethernet_addresses_are_set(g, v.wan_mac(), v.wan.cache[v.gateway].mac);
        }
    }
}

/// Until the router has a WAN address and a gateway, and for whatever is not
/// TCP, nothing leaves: a frame to the router is dropped without a trace.
pub proof fn law_nothing_leaves_before_the_lease(v: AppView, i: int, f: Seq<u8>, now: Tick)
    requires
        0 <= i < v.lan_ports.len(),
        anatomy::carries(f, 0x0800, 14) || anatomy::carries(f, 0x0800, 18),
        dhcp::frame_dhcp(f) is None,
        anatomy::mac_is(f, 0, v.server_mac),
        v.gateway.bits == 0 || v.nat_table.wan_ip.bits == 0 || (forall|l3: int, l4: int, end: int|
            !#[trigger] anatomy::tcp_at(f, l3, l4, end)),
    ensures
        v.lan_frame(i, f, now).sent.len() == 0,
        v.lan_frame(i, f, now).app == (AppView { fdb: v.lan_frame(i, f, now).app.fdb, ..v }),
{
    reveal(AppView::lan_frame);
    anatomy::law_ethernet_is_found(f, 0x0800, 14);
    anatomy::law_ethernet_is_found(f, 0x0800, 18);
    anatomy::lemma_mac_at(f, 0, v.server_mac);
    if forwarding::tcp_tuple(f) is Some {
        let ip = view::frame_ipv4(f)->0;
        anatomy::law_packets_are_found(f, ip.start, ip.l4_start, ip.end);
        assert(anatomy::tcp_at(f, ip.start, ip.l4_start, ip.end));
    }
}

/// Return traffic is led back. A TCP segment from the WAN to a port that is
/// bound, of a flow that is open, goes to the host that owns the port: readdressed
/// to it, and, once the host's MAC is known, sent to that MAC from the router's
/// first LAN port, on the LAN port that the host is behind, or on all of them if
/// that is not known. Until the MAC is known it waits, and the first to wait has
/// the host asked for on every LAN port.
pub proof fn law_return_traffic_reaches_the_host(
    v: AppView,
    f: Seq<u8>,
    now: Tick,
    l3: int,
    l4: int,
    end: int,
    src: MacAddr,
)
    requires
        v.wf(),
        v.lan_ports.len() > 0,
        anatomy::tcp_at(f, l3, l4, end),
        anatomy::mac_is(f, 6, src),
        v.nat_table.rev.dom().contains(
            RevKey { proto: 6, port: anatomy::num16(f, l4 + 2) as u16 },
        ),
        ({
            let host = v.nat_table.rev[RevKey { proto: 6, port: anatomy::num16(f, l4 + 2) as u16 }];
            conntrack::admits(
                v.flows,
                FlowKey {
                    int_ip: host.ip,
                    int_port: host.port,
                    ext_ip: Ipv4Addr { bits: anatomy::num32(f, l3 + 12) as u32 },
                    ext_port: anatomy::num16(f, l4) as u16,
                },
            )
        }),
    ensures
        ({
            let host = v.nat_table.rev[RevKey { proto: 6, port: anatomy::num16(f, l4 + 2) as u16 }];
            let key = FlowKey {
                int_ip: host.ip,
                int_port: host.port,
                ext_ip: Ipv4Addr { bits: anatomy::num32(f, l3 + 12) as u32 },
                ext_port: anatomy::num16(f, l4) as u16,
            };
            let out = v.wan_frame(f, now);
            let g = translation::ingress_frame(f, v.nat_table);
            let known = v.lan.cache.dom().contains(host.ip);
            let waiting = v.lan.queue(host.ip);
            &&& anatomy::readdressed(f, g, false, l3, l3 + 16, l4 + 2, l4 + 16, host.ip, host.port)
            &&& out.app.flows == conntrack::after_ingress(v.flows, key, f[l4 + 13], now)
            &&& out.app.nat_table == v.nat_table && out.app.wan == v.wan && out.app.bindings
                == v.bindings && out.app.client == v.client
            &&& known ==> {
                let mac = v.lan.cache[host.ip].mac;
                let from = v.lan_ports[0].port.info.ether_addr;
                &&& out.app.lan == v.lan
                &&& mac != src && v.fdb.dom().contains(mac) && v.has_lan_port(v.fdb[mac]) ==> {
                    &&& out.sent.len() == 1
                    &&& out.sent[0].port_id == v.fdb[mac]
                    &&& sent_from_to(g, out.sent[0].bytes, from, mac)
                }
                &&& mac != src && v.fdb.dom().contains(mac) && !v.has_lan_port(v.fdb[mac])
                    ==> out.sent.len() == 0
                &&& mac == src && !v.has_lan_port(v.wan_id()) ==> out.sent.len() == 0
                &&& mac != src && !v.fdb.dom().contains(mac) ==> exists|t: Seq<u8>| #[trigger]
                    sent_from_to(g, t, from, mac) && copy_on_each(out.sent, v.lan_ports, t, None)
            }
            &&& !known && waiting.len() < 4 ==> out.app.lan.queue(host.ip) == waiting.push(g)
            &&& !known && waiting.len() == 0 ==> exists|t: Seq<u8>| #[trigger]
                copy_on_each(out.sent, v.lan_ports, t, None) && anatomy::arp_bytes(
                    t,
                    1,
                    [255u8, 255, 255, 255, 255, 255],
                    v.lan.our_mac,
                    v.lan.our_ip,
                    [0u8, 0, 0, 0, 0, 0],
                    host.ip,
                )
            &&& !known && waiting.len() > 0 ==> out.sent.len() == 0
            &&& !known && waiting.len() >= 4 ==> out.app.lan == v.lan
        }),
{
    reveal(AppView::wan_frame);
    lemma_tcp_tuple(f, l3, l4, end);
    anatomy::lemma_mac_at(f, 6, src);
    translation::law_ingress_rewrites_the_destination(f, v.nat_table, L4::Tcp, l3, l4, end);
    let w = v.seen_on(src, v.wan_id());
    let host = v.nat_table.rev[RevKey { proto: 6, port: anatomy::num16(f, l4 + 2) as u16 }];
    let key = FlowKey {
        int_ip: host.ip,
        int_port: host.port,
        ext_ip: Ipv4Addr { bits: anatomy::num32(f, l3 + 12) as u32 },
        ext_port: anatomy::num16(f, l4) as u16,
    };
    let g = translation::ingress_frame(f, v.nat_table);
    let noted = AppView {
        flows: conntrack::after_ingress(v.flows, key, f[l4 + 13], now),
        ..w
    };
    assert(translation::ingress_result(f, v.nat_table) == Some(host));
    assert(v.wan_frame(f, now) == noted.to_host(host.ip, g, now));
    let other = Ipv4Addr { bits: if host.ip.bits == 0 { 1 } else { 0 } };
    neighbor::law_what_becomes_of_a_packet(v.lan, host.ip, g, now, 42, other);
    if v.lan.cache.dom().contains(host.ip) {
        let mac = v.lan.cache[host.ip].mac;
        let from = v.lan_ports[0].port.info.ether_addr;
        let t = worker::with_ethernet(g, from, mac);
        law_ethernet_addresses_are_set(g, from, mac);
        lemma_flood(noted, t, None);
        lemma_same_ports(v, noted, v.wan_id());
        if v.fdb.dom().contains(mac) {
            lemma_same_ports(v, noted, v.fdb[mac]);
        }
        assert(sent_from_to(g, t, from, mac));
    } else {
        let t = v.lan.request(host.ip);
        neighbor::law_request_bytes(v.lan, host.ip, g);
        lemma_flood(noted, t, None);
        if v.lan.queue(host.ip).len() == 0 {
            assert(copy_on_each(v.wan_frame(f, now).sent, v.lan_ports, t, None));
        }
    }
}

/// What comes in from the WAN and does not belong to an open flow goes nowhere:
/// it must be TCP, to a bound port, from the very peer that the host opened the
/// connection to. (ARP and DHCP are not forwarded either; they are the router's
/// own.)
pub proof fn law_the_wan_stays_out(
    v: AppView,
    f: Seq<u8>,
    now: Tick,
    l3: int,
)
    requires
        anatomy::carries(f, 0x0800, l3),
        dhcp::frame_dhcp(f) is None,
        forall|l4: int, end: int| #[trigger]
            anatomy::tcp_at(f, l3, l4, end) ==> {
                let port = RevKey { proto: 6, port: anatomy::num16(f, l4 + 2) as u16 };
                !v.nat_table.rev.dom().contains(port) || !conntrack::admits(
                    v.flows,
                    FlowKey {
                        int_ip: v.nat_table.rev[port].ip,
                        int_port: v.nat_table.rev[port].port,
                        ext_ip: Ipv4Addr { bits: anatomy::num32(f, l3 + 12) as u32 },
                        ext_port: anatomy::num16(f, l4) as u16,
                    },
                )
            },
    ensures
        v.wan_frame(f, now).sent.len() == 0,
        v.wan_frame(f, now).app == (AppView { fdb: v.wan_frame(f, now).app.fdb, ..v }),
{
    reveal(AppView::wan_frame);
    anatomy::law_ethernet_is_found(f, 0x0800, l3);
    if forwarding::tcp_tuple(f) is Some {
        let ip = view::frame_ipv4(f)->0;
        anatomy::law_packets_are_found(f, ip.start, ip.l4_start, ip.end);
        assert(anatomy::tcp_at(f, l3, ip.l4_start, ip.end));
        lemma_tcp_tuple(f, l3, ip.l4_start, ip.end);
        translation::law_ingress_rewrites_the_destination(
            f,
            v.nat_table,
            L4::Tcp,
            l3,
            ip.l4_start,
            ip.end,
        );
    }
}

/// `sent` is what waited in `queue`, in order, sent on one port from `src` to
/// `dst`.
pub open spec fn handed_on(
    sent: Seq<Sent>,
    queue: Seq<Seq<u8>>,
    port_id: u16,
    src: MacAddr,
    dst: MacAddr,
) -> bool {
    &&& sent.len() == queue.len()
    &&& forall|k: int|
        0 <= k < queue.len() ==> (#[trigger] sent[k]).port_id == port_id && (queue[k].len() >= 14
            ==> sent_from_to(queue[k], sent[k].bytes, src, dst))
}

proof fn lemma_drained(port_id: u16, queue: Seq<Seq<u8>>, src: MacAddr, dst: MacAddr)
    ensures
        handed_on(forwarding::drained(port_id, queue, src, dst), queue, port_id, src, dst),
{
    let sent = forwarding::drained(port_id, queue, src, dst);
    assert forall|k: int| 0 <= k < queue.len() implies (#[trigger] sent[k]).port_id == port_id && (
    queue[k].len() >= 14 ==> sent_from_to(queue[k], sent[k].bytes, src, dst)) by {
        law_ethernet_addresses_are_set(queue[k], src, dst);
    }
}

/// The free addresses after a LAN host showed itself: its own address is not
/// free, and one that it had before, if it is another, becomes free.
pub proof fn law_hosts_keep_their_addresses(
    v: AppView,
    a: ArpMessage,
    x: Ipv4Addr,
)
    ensures
        ({
            let b = v.claim(a).bindings;
            let moved_from = |x: Ipv4Addr|
                v.lan.resolved.dom().contains(a.sha) && v.lan.resolved[a.sha] == x && x
                    != a.sender_ip && v.bindings.pool.start.bits <= x.bits
                    <= v.bindings.pool.end.bits;
            &&& b.leases == v.bindings.leases
            &&& b.pool.start == v.bindings.pool.start && b.pool.end == v.bindings.pool.end
            &&& b.pool.free.contains(x) <==> x != a.sender_ip && (v.bindings.pool.free.contains(x)
                || moved_from(x))
            &&& v.claim(a) == (AppView { bindings: b, ..v })
        }),
{
}

/// An ARP request on a LAN port. Its sender is learned, and what waited for the
/// sender goes to it, on that port. Then, a request for the router's address is
/// answered there, in the router's name; a broadcast request for another host
/// is passed on, unchanged, to the other LAN ports; and any other has nothing
/// more sent.
pub proof fn law_arp_requests_on_the_lan(
    v: AppView,
    i: int,
    f: Seq<u8>,
    now: Tick,
    l3: int,
)
    requires
        0 <= i < v.lan_ports.len(),
        anatomy::arp_at(f, l3),
        anatomy::num16(f, l3 + 6) == 1,
    ensures
        ({
            let out = v.lan_frame(i, f, now);
            let a = arp::frame_arp(f)->0;
            let n = v.lan.queue(a.sender_ip).len() as int;
            let first = out.sent.subrange(0, n);
            let answer = out.sent.subrange(n, out.sent.len() as int);
            let to_router = a.target_ip == v.server_ip;
            let to_all = anatomy::mac_is(f, 0, [255u8, 255, 255, 255, 255, 255]);
            &&& out.sent.len() >= n
            &&& out.app.lan == v.lan.after_arp(a.sender_ip, a.sha, now)
            &&& out.app.bindings == v.claim(a).bindings
            &&& out.app.flows == v.flows && out.app.nat_table == v.nat_table && out.app.wan == v.wan
            &&& handed_on(
                first,
                v.lan.queue(a.sender_ip),
                v.lan_id(i),
                v.lan_ports[i].port.info.ether_addr,
                a.sha,
            )
            &&& to_router ==> {
                &&& answer.len() == 1
                &&& answer[0].port_id == v.lan_id(i)
                &&& anatomy::arp_bytes(
                    answer[0].bytes,
                    2,
                    a.sha,
                    v.server_mac,
                    v.server_ip,
                    a.sha,
                    a.sender_ip,
                )
            }
            &&& !to_router && to_all ==> copy_on_each(answer, v.lan_ports, f, Some(v.lan_id(i)))
            &&& !to_router && !to_all ==> answer.len() == 0
        }),
{
    reveal(AppView::lan_frame);
    arp::law_arp_message_is_found(f, l3);
    anatomy::law_ethernet_is_found(f, 0x0806, l3);
    let a = arp::frame_arp(f)->0;
    let w = v.seen_on(ethernet::mac_at(f, 6), v.lan_id(i));
    let learned = w.claim(a).lan_learn(i, a.sender_ip, a.sha, now);
    let last = learned.app.arp_answer(i, a, f);
    let out = v.lan_frame(i, f, now);
    assert(out.sent =~= learned.sent + last);
    let n = v.lan.queue(a.sender_ip).len() as int;
    assert(out.sent.subrange(0, n) =~= learned.sent);
    assert(out.sent.subrange(n, out.sent.len() as int) =~= last);
    lemma_drained(
        v.lan_id(i),
        v.lan.queue(a.sender_ip),
        v.lan_ports[i].port.info.ether_addr,
        a.sha,
    );
    anatomy::lemma_mac_at(f, 0, [255u8, 255, 255, 255, 255, 255]);
    assert(BROADCAST =~= [255u8, 255, 255, 255, 255, 255]);
    anatomy::law_arp_frame_bytes(2, a.sha, v.server_mac, a.target_ip, a.sha, a.sender_ip);
    lemma_flood(learned.app, f, Some(v.lan_id(i)));
}

/// An ARP message on a LAN port that is no request is not answered. A reply
/// teaches where its sender is, and where its target is, if it names one, and
/// what waited for them goes to them; any other message teaches its sender.
pub proof fn law_other_arp_on_the_lan(
    v: AppView,
    i: int,
    f: Seq<u8>,
    now: Tick,
    l3: int,
)
    requires
        0 <= i < v.lan_ports.len(),
        anatomy::arp_at(f, l3),
        anatomy::num16(f, l3 + 6) != 1,
    ensures
        ({
            let out = v.lan_frame(i, f, now);
            let a = arp::frame_arp(f)->0;
            let mine = v.lan_ports[i].port.info.ether_addr;
            let told = v.lan.after_arp(a.sender_ip, a.sha, now);
            let both = a.oper == 2 && a.target_ip.bits != 0;
            let n = v.lan.queue(a.sender_ip).len() as int;
            &&& out.sent.len() >= n
            &&& handed_on(
                out.sent.subrange(0, n),
                v.lan.queue(a.sender_ip),
                v.lan_id(i),
                mine,
                a.sha,
            )
            &&& both ==> {
                &&& out.app.lan == told.after_arp(a.target_ip, a.tha, now)
                &&& handed_on(
                    out.sent.subrange(n, out.sent.len() as int),
                    told.queue(a.target_ip),
                    v.lan_id(i),
                    mine,
                    a.tha,
                )
            }
            &&& !both ==> out.app.lan == told && out.sent.len() == n
            &&& out.app.bindings == v.claim(a).bindings
            &&& out.app.flows == v.flows && out.app.nat_table == v.nat_table && out.app.wan == v.wan
        }),
{
    reveal(AppView::lan_frame);
    arp::law_arp_message_is_found(f, l3);
    anatomy::law_ethernet_is_found(f, 0x0806, l3);
    let a = arp::frame_arp(f)->0;
    let w = v.seen_on(ethernet::mac_at(f, 6), v.lan_id(i));
    let mine = v.lan_ports[i].port.info.ether_addr;
    let told = v.lan.after_arp(a.sender_ip, a.sha, now);
    let n = v.lan.queue(a.sender_ip).len() as int;
    let out = v.lan_frame(i, f, now);
    lemma_drained(v.lan_id(i), v.lan.queue(a.sender_ip), mine, a.sha);
    lemma_drained(v.lan_id(i), told.queue(a.target_ip), mine, a.tha);
    assert(out.sent.subrange(0, n) =~= forwarding::drained(
        v.lan_id(i),
        v.lan.queue(a.sender_ip),
        mine,
        a.sha,
    ));
    if a.oper == 2 && a.target_ip.bits != 0 {
        assert(out.sent.subrange(n, out.sent.len() as int) =~= forwarding::drained(
            v.lan_id(i),
            told.queue(a.target_ip),
            mine,
            a.tha,
        ));
    }
}

/// An ARP message on the WAN port teaches where its sender is, unless it has no
/// address yet, and a reply where its target is; what waited for them goes out
/// to them on the WAN port. It is never answered, and it has no effect on the
/// LAN.
pub proof fn law_arp_on_the_wan(v: AppView, f: Seq<u8>, now: Tick, l3: int)
    requires
        anatomy::arp_at(f, l3),
    ensures
        ({
            let out = v.wan_frame(f, now);
            let a = arp::frame_arp(f)->0;
            let told = if a.sender_ip.bits != 0 {
                v.wan.after_arp(a.sender_ip, a.sha, now)
            } else {
                v.wan
            };
            let queue = if a.sender_ip.bits != 0 {
                v.wan.queue(a.sender_ip)
            } else {
                Seq::empty()
            };
            let both = anatomy::num16(f, l3 + 6) == 2 && a.target_ip.bits != 0;
            let n = queue.len() as int;
            &&& out.sent.len() >= n
            &&& handed_on(out.sent.subrange(0, n), queue, v.wan_id(), v.wan_mac(), a.sha)
            &&& both ==> {
                &&& out.app.wan == told.after_arp(a.target_ip, a.tha, now)
                &&& handed_on(
                    out.sent.subrange(n, out.sent.len() as int),
                    told.queue(a.target_ip),
                    v.wan_id(),
                    v.wan_mac(),
                    a.tha,
                )
            }
            &&& !both ==> out.app.wan == told && out.sent.len() == n
            &&& out.app == (AppView { fdb: out.app.fdb, wan: out.app.wan, ..v })
        }),
{
    reveal(AppView::wan_frame);
    arp::law_arp_message_is_found(f, l3);
    anatomy::law_ethernet_is_found(f, 0x0806, l3);
    let a = arp::frame_arp(f)->0;
    let told = if a.sender_ip.bits != 0 {
        v.wan.after_arp(a.sender_ip, a.sha, now)
    } else {
        v.wan
    };
    let queue = if a.sender_ip.bits != 0 {
        v.wan.queue(a.sender_ip)
    } else {
        Seq::empty()
    };
    let n = queue.len() as int;
    let out = v.wan_frame(f, now);
    lemma_drained(v.wan_id(), queue, v.wan_mac(), a.sha);
    lemma_drained(v.wan_id(), told.queue(a.target_ip), v.wan_mac(), a.tha);
    assert(out.sent.subrange(0, n) =~= forwarding::drained(v.wan_id(), queue, v.wan_mac(), a.sha));
    if a.oper == 2 && a.target_ip.bits != 0 {
        assert(out.sent.subrange(n, out.sent.len() as int) =~= forwarding::drained(
            v.wan_id(),
            told.queue(a.target_ip),
            v.wan_mac(),
            a.tha,
        ));
    }
}

/// DHCP on the LAN is the server's: whatever address the frame is sent to, its
/// answer, if there is one, goes out on the port that the message came in on,
/// and the leases are as the server leaves them. DHCP on the WAN is the
/// client's, and nothing is sent for it at once. Neither is forwarded.
pub proof fn law_dhcp_stays_on_its_side(v: AppView, i: int, f: Seq<u8>, now: Tick)
    requires
        0 <= i < v.lan_ports.len(),
        dhcp::frame_dhcp(f) is Some,
    ensures
        ({
            let m = dhcp::frame_dhcp(f)->0;
            let cfg = v.lan_ports[i].dhcp;
            let lan = v.lan_frame(i, f, now);
            let wan = v.wan_frame(f, now);
            &&& lan.app == (AppView {
                fdb: lan.app.fdb,
                bindings: cfg.after(v.bindings, m),
                ..v
            })
            &&& lan.sent == match cfg.answer(v.bindings, m) {
                Some(bytes) => seq![Sent { port_id: v.lan_id(i), bytes }],
                None => seq![],
            }
            &&& wan.app == (AppView { fdb: wan.app.fdb, client: v.client.after_receive(m), ..v })
            &&& wan.sent.len() == 0
        }),
{
    reveal(AppView::lan_frame);
    reveal(AppView::wan_frame);
}

/// What the WAN side does on its own. While the client has no lease, its next
/// message, if it has one to send, goes out on the WAN port. An address that was
/// leased and is not in use yet is put into use: it becomes the address that
/// connections are given and that neighbors are asked from; if the lease names a
/// gateway, that becomes the next hop, and is asked for at once. After that
/// there is nothing more to do.
pub proof fn law_what_the_wan_does_on_its_own(v: AppView)
    ensures
        ({
            let out = v.wan_tick();
            &&& v.client.lease is None ==> match v.client.next_frame() {
                Some(bytes) => out.sent == seq![Sent { port_id: v.wan_id(), bytes }] && out.app == (
                AppView { client: v.client.after_send(), ..v }),
                None => out.sent.len() == 0 && out.app == v,
            }
            &&& v.client.lease matches Some(l) ==> {
                &&& l.ip == v.bound ==> out.sent.len() == 0 && out.app == v
                &&& l.ip != v.bound ==> {
                    &&& out.app.bound == l.ip
                    &&& out.app.nat_table.wan_ip == l.ip
                    &&& out.app.nat_table.fwd == v.nat_table.fwd && out.app.nat_table.rev
                        == v.nat_table.rev && out.app.nat_table.next_port == v.nat_table.next_port
                    &&& out.app.wan.our_ip == l.ip
                    &&& out.app.wan.cache == v.wan.cache && out.app.wan.pending == v.wan.pending
                    &&& out.app.flows == v.flows && out.app.fdb == v.fdb && out.app.lan == v.lan
                        && out.app.bindings == v.bindings && out.app.client == v.client
                    &&& l.gateway is None ==> out.app.gateway == v.gateway && out.sent.len() == 0
                    &&& l.gateway matches Some(gw) ==> {
                        &&& out.app.gateway == gw
                        &&& out.sent.len() == 1
                        &&& out.sent[0].port_id == v.wan_id()
                        &&& anatomy::arp_bytes(
                            out.sent[0].bytes,
                            1,
                            [255u8, 255, 255, 255, 255, 255],
                            v.wan_mac(),
                            l.ip,
                            [0u8, 0, 0, 0, 0, 0],
                            gw,
                        )
                    }
                }
            }
        }),
{
    reveal(AppView::wan_tick);
    if let Some(l) = v.client.lease {
        if let Some(gw) = l.gateway {
            anatomy::law_arp_frame_bytes(
                1,
                BROADCAST,
                v.wan_mac(),
                l.ip,
                crate::net::arp::UNKNOWN_HARDWARE_ADDR,
                gw,
            );
            assert(BROADCAST =~= [255u8, 255, 255, 255, 255, 255]);
            assert(crate::net::arp::UNKNOWN_HARDWARE_ADDR =~= [0u8, 0, 0, 0, 0, 0]);
        }
    }
}

/// The frames of a burst are handled one after the other, each by what the ones
/// before it left, and what is sent for them is sent in that order; on the WAN
/// port the WAN side then does what it does on its own.
pub proof fn law_bursts_are_handled_in_order(
    v: AppView,
    frames: Seq<Seq<u8>>,
    f: Seq<u8>,
    now: Tick,
    i: usize,
)
    ensures
        ({
            let none = Seq::<Seq<u8>>::empty();
            let lan = PortCtx::Lan(i);
            let so_far = v.cycle(lan, frames, now);
            let then = so_far.app.lan_frame(i as int, f, now);
            let more = v.cycle(lan, frames.push(f), now);
            let wan_far = v.burst(PortCtx::Wan, frames, now, frames.len());
            let wan_then = wan_far.app.wan_frame(f, now);
            let wan_tick = wan_then.app.wan_tick();
            let wan_more = v.cycle(PortCtx::Wan, frames.push(f), now);
            &&& v.cycle(lan, none, now) == v.idle()
            &&& v.cycle(PortCtx::Wan, none, now) == v.wan_tick()
            &&& more.app == then.app
            &&& more.sent == so_far.sent + then.sent
            &&& wan_more.app == wan_tick.app
            &&& wan_more.sent == wan_far.sent + wan_then.sent + wan_tick.sent
            &&& v.burst(PortCtx::Wan, none, now, 0) == v.idle()
            &&& v.burst(PortCtx::Wan, frames.push(f), now, (frames.len() + 1) as nat).app
                == wan_then.app
        }),
{
    let n = frames.len();
    lemma_burst_prefix(v, PortCtx::Lan(i), frames, f, now, n);
    lemma_burst_prefix(v, PortCtx::Wan, frames, f, now, n);
    assert(frames.push(f)[n as int] == f);
    assert(v.idle().sent + v.wan_tick().sent =~= v.wan_tick().sent);
}

proof fn lemma_burst_prefix(
    v: AppView,
    port: PortCtx,
    frames: Seq<Seq<u8>>,
    f: Seq<u8>,
    now: Tick,
    n: nat,
)
    requires
        n <= frames.len(),
    ensures
        v.burst(port, frames.push(f), now, n) == v.burst(port, frames, now, n),
    decreases n,
{
    if n > 0 {
        lemma_burst_prefix(v, port, frames, f, now, (n - 1) as nat);
        assert(frames.push(f)[n - 1] == frames[n - 1]);
    }
}

/// A sweep is due a quarter of a second after the last one, or at once if there
/// was none. It ages the neighbors of both sides and the flows, each by its own
/// rule, and asks again for neighbors of the WAN on the WAN port and for those
/// of the LAN on the first LAN port. Nothing else changes.
pub proof fn law_when_and_what_is_swept(
    v: AppView,
    now: Tick,
    wan_order: Seq<Ipv4Addr>,
    lan_order: Seq<Ipv4Addr>,
)
    ensures
        ({
            let after = v.after_sweep(now);
            let sent = v.sweep_sent(now, wan_order, lan_order);
            let asked = v.wan.sweep_requests(wan_order, now, wan_order.len());
            let asked_lan = v.lan.sweep_requests(lan_order, now, lan_order.len());
            &&& v.last_sweep is None ==> v.sweep_due(now)
            &&& v.last_sweep matches Some(t) ==> (v.sweep_due(now) <==> now.0 >= t + 250)
            &&& after.last_sweep == Some(now.0)
            &&& after.wan == v.wan.after_sweep(now)
            &&& v.lan_ports.len() > 0 ==> after.lan == v.lan.after_sweep(now)
            &&& after.flows == conntrack::after_sweep(v.flows, now)
            &&& after == (AppView {
                last_sweep: after.last_sweep,
                wan: after.wan,
                lan: after.lan,
                flows: after.flows,
                ..v
            })
            &&& forall|k: int|
                0 <= k < asked.len() ==> #[trigger] sent[k] == (Sent {
                    port_id: v.wan_id(),
                    bytes: asked[k],
                })
            &&& v.lan_ports.len() > 0 ==> {
                &&& sent.len() == asked.len() + asked_lan.len()
                &&& forall|k: int|
                    0 <= k < asked_lan.len() ==> sent[asked.len() + k] == (Sent {
                        port_id: v.lan_ports[0].port.info.port_id,
                        bytes: #[trigger] asked_lan[k],
                    })
            }
            &&& v.lan_ports.len() == 0 ==> sent.len() == asked.len()
        }),
{
}

} // verus!
