//! What the runtime decides before the first packet: which interface is which,
//! which lcores serve a port, and what the LAN hands out.

use crate::dpdk::lcore::Lcore;
use crate::dpdk::port::Port;
use crate::net::addr::Ipv4Addr;
use crate::net::ethernet::MacAddr;
use crate::net::util;
use crate::net::util::software_defined_mac;
use crate::router::app;
use crate::router::app::{AppCtx, LanPortCtx, LanSegment, WanPortCtx};
use crate::router::conf::{InterfaceConfig, InterfaceRole, RouterConfig};
use crate::router::conntrack::{Conn, ConnTrack, FlowKey};
use crate::router::dhcp::{ClientState, DhcpClient, DhcpServerConfig};
use crate::router::fdb::Fdb;
use crate::router::forwarding::AppView;
use crate::router::leases::LeaseTable;
use crate::router::neighbor;
use crate::router::neighbor::NeighborTable;
use crate::router::pool::AddressPool;
use crate::router::translation::{Nat, NatView};
use crate::text;
use crate::text::{push_signed, push_text};
use vstd::prelude::*;

verus! {

/// Per-port RX/TX descriptor ring size.
pub const RING: u16 = 1024;

/// Number of mbufs in the pool (a Mersenne prime, per DPDK convention).
pub const NUM_MBUFS: u32 = 8191;

/// Per-core mbuf cache size.
pub const MBUF_CACHE: u32 = 256;

/// mbuf data room: default 2048 payload + 128 headroom.
pub const MBUF_DATA_ROOM: u16 = 2176;

/// LAN DHCP lease length handed out by the server.
pub const LEASE_SECS: u32 = 86_400;

/// Transaction id seed for the WAN client ("quic" in ASCII).
pub const WAN_XID: u32 = 0x7175_6963;

/// What keeps a configuration from being used.
#[derive(Clone, Copy, PartialEq, Eq, Structural, Debug)]
pub enum SetupError {
    NoWan,
    WanIsLan,
    NoLan,
}

impl SetupError {
    /// The error as text.
    pub open spec fn message(self) -> Seq<char> {
        match self {
            SetupError::NoWan => "WAN port not configured"@,
            SetupError::WanIsLan => "WAN port must be distinct from LAN ports"@,
            SetupError::NoLan => "at least one LAN port required"@,
        }
    }

    /// The error as text.
    pub fn to_string(&self) -> (r: String)
        ensures
            r@ == self.message(),
    {
        let mut s = String::new();
        match self {
            SetupError::NoWan => push_text(&mut s, "WAN port not configured"),
            SetupError::WanIsLan => push_text(&mut s, "WAN port must be distinct from LAN ports"),
            SetupError::NoLan => push_text(&mut s, "at least one LAN port required"),
        }
        assert(s@ =~= self.message());
        s
    }
}

/// The interfaces of a configuration by role, as indices.
pub struct Roles {
    pub wan: usize,
    pub lans: Vec<usize>,
}

/// Which of the first `n` interfaces have the LAN role, in order.
pub open spec fn lan_indices(interfaces: Seq<InterfaceConfig>, n: nat) -> Seq<usize>
    decreases n,
{
    if n == 0 {
        seq![]
    } else {
        let rest = lan_indices(interfaces, (n - 1) as nat);
        if interfaces[n - 1].role == InterfaceRole::Lan {
            rest.push((n - 1) as usize)
        } else {
            rest
        }
    }
}

/// Interface `i` is the first one with the WAN role.
pub open spec fn is_first_wan(interfaces: Seq<InterfaceConfig>, i: int) -> bool {
    &&& 0 <= i < interfaces.len()
    &&& interfaces[i].role == InterfaceRole::Wan
    &&& forall|j: int| 0 <= j < i ==> (#[trigger] interfaces[j]).role != InterfaceRole::Wan
}

/// Find the WAN interface, which is the first one with that role, and all LAN
/// interfaces. Fails if there is no WAN interface.
pub fn roles(interfaces: &Vec<InterfaceConfig>) -> (r: Result<Roles, SetupError>)
    ensures
        match r {
            Ok(roles) => is_first_wan(interfaces@, roles.wan as int) && roles.lans@ == lan_indices(
                interfaces@,
                interfaces@.len(),
            ),
            Err(e) => e == SetupError::NoWan && forall|i: int|
                0 <= i < interfaces@.len() ==> (#[trigger] interfaces@[i]).role
                    != InterfaceRole::Wan,
        },
{
    let mut wan: Option<usize> = None;
    let mut lans: Vec<usize> = Vec::new();
    let mut i: usize = 0;
    while i < interfaces.len()
        invariant
            i <= interfaces@.len(),
            lans@ == lan_indices(interfaces@, i as nat),
            match wan {
                Some(w) => w < i && is_first_wan(interfaces@, w as int),
                None => forall|j: int|
                    0 <= j < i ==> (#[trigger] interfaces@[j]).role != InterfaceRole::Wan,
            },
        decreases interfaces@.len() - i,
    {
        if interfaces[i].role == InterfaceRole::Wan {
            if wan.is_none() {
                wan = Some(i);
            }
        } else {
            lans.push(i);
        }
        i = i + 1;
    }
    match wan {
        Some(wan) => Ok(Roles { wan, lans }),
        None => Err(SetupError::NoWan),
    }
}

/// Check the ports that the interfaces turned out to be: the WAN port must be
/// distinct from the LAN ports, of which there must be at least one. Returns
/// all of them, the WAN port first.
pub fn check_ports(wan: u16, lans: &Vec<u16>) -> (r: Result<Vec<u16>, SetupError>)
    ensures
        match r {
            Ok(all) => !lans@.contains(wan) && lans@.len() > 0 && all@ == seq![wan] + lans@,
            Err(SetupError::WanIsLan) => lans@.contains(wan),
            Err(SetupError::NoLan) => lans@.len() == 0,
            Err(SetupError::NoWan) => false,
        },
{
    let mut all: Vec<u16> = Vec::new();
    all.push(wan);
    let mut i: usize = 0;
    assert(all@ =~= seq![wan] + lans@.subrange(0, 0));
    while i < lans.len()
        invariant
            i <= lans@.len(),
            forall|j: int| 0 <= j < i ==> lans@[j] != wan,
            all@ == seq![wan] + lans@.subrange(0, i as int),
        decreases lans@.len() - i,
    {
        if lans[i] == wan {
            assert(lans@[i as int] == wan);
            return Err(SetupError::WanIsLan);
        }
        all.push(lans[i]);
        i = i + 1;
        assert(all@ =~= seq![wan] + lans@.subrange(0, i as int));
    }
    if lans.len() == 0 {
        return Err(SetupError::NoLan);
    }
    assert(lans@.subrange(0, i as int) =~= lans@);
    Ok(all)
}

/// The ids of the first `n` lcores that are on `socket`, in order.
pub open spec fn local_lcores(lcores: Seq<Lcore>, socket: u32, n: nat) -> Seq<u32>
    decreases n,
{
    if n == 0 {
        seq![]
    } else {
        let rest = local_lcores(lcores, socket, (n - 1) as nat);
        if lcores[n - 1].socket == socket {
            rest.push(lcores[n - 1].id)
        } else {
            rest
        }
    }
}

/// How many ports each lcore has been given for want of one on the port's
/// socket.
pub struct LcoreLoad {
    pub lcore: u32,
    pub ports: usize,
}

/// Entry `i` has the least load, and the lowest id among those with that load.
pub open spec fn is_least_loaded(load: Seq<LcoreLoad>, i: int) -> bool {
    &&& 0 <= i < load.len()
    &&& forall|j: int|
        0 <= j < load.len() && j != i ==> load[i].ports < (#[trigger] load[j]).ports || (
        load[i].ports == load[j].ports && load[i].lcore <= load[j].lcore)
}

/// The load with one more port for entry `i`.
pub open spec fn with_one_more(load: Seq<LcoreLoad>, i: int) -> Seq<LcoreLoad> {
    load.update(i, LcoreLoad { lcore: load[i].lcore, ports: (load[i].ports + 1) as usize })
}

/// A load of zero for each lcore.
pub fn no_load(lcores: &Vec<Lcore>) -> (r: Vec<LcoreLoad>)
    ensures
        r@.len() == lcores@.len(),
        forall|i: int|
            0 <= i < lcores@.len() ==> (#[trigger] r@[i]) == (LcoreLoad {
                lcore: lcores@[i].id,
                ports: 0,
            }),
{
    let mut r: Vec<LcoreLoad> = Vec::new();
    let mut i: usize = 0;
    while i < lcores.len()
        invariant
            i <= lcores@.len(),
            r@.len() == i,
            forall|j: int|
                0 <= j < i ==> (#[trigger] r@[j]) == (LcoreLoad {
                    lcore: lcores@[j].id,
                    ports: 0,
                }),
        decreases lcores@.len() - i,
    {
        r.push(LcoreLoad { lcore: lcores[i].id, ports: 0 });
        i = i + 1;
    }
    r
}

fn find_least_loaded(load: &Vec<LcoreLoad>) -> (r: usize)
    requires
        load@.len() > 0,
    ensures
        is_least_loaded(load@, r as int),
{
    let mut best: usize = 0;
    let mut i: usize = 1;
    while i < load.len()
        invariant
            best < i <= load@.len(),
            forall|j: int|
                0 <= j < i && j != best ==> load@[best as int].ports < (#[trigger] load@[j]).ports
                    || (load@[best as int].ports == load@[j].ports && load@[best as int].lcore
                    <= load@[j].lcore),
        decreases load@.len() - i,
    {
        if load[i].ports < load[best].ports || (load[i].ports == load[best].ports && load[i].lcore
            < load[best].lcore) {
            best = i;
        }
        i = i + 1;
    }
    best
}

/// The lcores that are dedicated to a port on `socket`: those on the same NUMA
/// socket. If there are none, the lcore with the least load is assigned to the
/// port, and its load goes up.
pub fn dedicated_lcores(lcores: &Vec<Lcore>, socket: u32, load: &mut Vec<LcoreLoad>) -> (r: Vec<
    u32,
>)
    requires
        old(load)@.len() > 0,
        forall|i: int| 0 <= i < old(load)@.len() ==> (#[trigger] old(load)@[i]).ports < usize::MAX,
    ensures
        ({
            let local = local_lcores(lcores@, socket, lcores@.len());
            if local.len() > 0 {
                r@ == local && final(load)@ == old(load)@
            } else {
                exists|i: int|
                    {
                        &&& #[trigger] is_least_loaded(old(load)@, i)
                        &&& r@ == seq![old(load)@[i].lcore]
                        &&& final(load)@ == with_one_more(old(load)@, i)
                    }
            }
        }),
{
    let mut r: Vec<u32> = Vec::new();
    let mut i: usize = 0;
    while i < lcores.len()
        invariant
            i <= lcores@.len(),
            r@ == local_lcores(lcores@, socket, i as nat),
        decreases lcores@.len() - i,
    {
        if lcores[i].socket == socket {
            r.push(lcores[i].id);
        }
        i = i + 1;
    }
    if r.len() == 0 {
        let best: usize = find_least_loaded(load);
        let lcore: u32 = load[best].lcore;
        let ports: usize = load[best].ports;
        load.set(best, LcoreLoad { lcore, ports: ports + 1 });
        r.push(lcore);
        assert(r@ =~= seq![lcore]);
        assert(is_least_loaded(old(load)@, best as int));
    }
    r
}

/// The name of the mbuf pool on `socket`.
pub fn mempool_name(socket: i32) -> (r: String)
    ensures
        r@ == "MEMPOOL"@ + text::signed(socket as int),
{
    let mut s = String::new();
    push_text(&mut s, "MEMPOOL");
    push_signed(&mut s, socket);
    assert(s@ =~= "MEMPOOL"@ + text::signed(socket as int));
    s
}

/// `s` is what the DHCP server of the LAN hands out: the router is the gateway,
/// and the DNS server before the upstream ones.
pub open spec fn serves(config: RouterConfig, server_mac: MacAddr, s: DhcpServerConfig) -> bool {
    &&& s.server_ip == config.lan.ip
    &&& s.server_mac == server_mac
    &&& s.gateway == config.lan.ip
    &&& s.subnet_mask == config.lan.mask.spec_netmask()
    &&& s.dns@ == seq![config.lan.ip] + config.dns.servers@
    &&& s.lease_secs == LEASE_SECS
}

/// What the DHCP server of the LAN hands out. We advertise ourselves as the
/// gateway, and as the DNS server in addition to the upstream configured ones;
/// this way clients get DNS resolution as soon as they have a lease.
pub fn lan_server(config: &RouterConfig, server_mac: MacAddr) -> (r: DhcpServerConfig)
    ensures
        serves(*config, server_mac, r),
{
    let mut dns: Vec<Ipv4Addr> = Vec::new();
    dns.push(config.lan.ip);
    let mut i: usize = 0;
    assert(dns@ =~= seq![config.lan.ip] + config.dns.servers@.subrange(0, 0));
    while i < config.dns.servers.len()
        invariant
            i <= config.dns.servers@.len(),
            dns@ == seq![config.lan.ip] + config.dns.servers@.subrange(0, i as int),
        decreases config.dns.servers@.len() - i,
    {
        dns.push(config.dns.servers[i]);
        i = i + 1;
        assert(dns@ =~= seq![config.lan.ip] + config.dns.servers@.subrange(0, i as int));
    }
    assert(config.dns.servers@.subrange(0, i as int) =~= config.dns.servers@);
    DhcpServerConfig {
        server_ip: config.lan.ip,
        server_mac,
        gateway: config.lan.ip,
        subnet_mask: config.lan.mask.netmask(),
        dns,
        lease_secs: LEASE_SECS,
    }
}

/// The addresses that the LAN hands out, without the router's own (it may not
/// be in the pool, but that's okay: this is just a safety precaution). `None` if
/// the pool's bounds are the wrong way round.
pub fn lan_pool(config: &RouterConfig) -> (r: Option<AddressPool>)
    ensures
        r is Some <==> config.dhcp.pool_start.bits <= config.dhcp.pool_end.bits,
        r matches Some(p) ==> {
            &&& p.wf()
            &&& p.start == config.dhcp.pool_start
            &&& p.end == config.dhcp.pool_end
            &&& forall|x: Ipv4Addr| #[trigger] p.is_free(x) == (p.covers(x) && x != config.lan.ip)
        },
{
    if config.dhcp.pool_start.bits > config.dhcp.pool_end.bits {
        return None;
    }
    let mut pool = AddressPool::new(config.dhcp.pool_start, config.dhcp.pool_end);
    let _ = pool.reserve(config.lan.ip);
    Some(pool)
}

/// The state that a router starts in: it knows nothing yet, holds the addresses
/// of its pool but its own, and is about to look for a WAN address.
pub open spec fn starts(
    config: RouterConfig,
    wan: Port,
    lans: Seq<Port>,
    port_lo: u16,
    port_hi: u16,
    v: AppView,
) -> bool {
    &&& v.server_ip == config.lan.ip
    &&& v.server_mac@ == util::spec_software_defined_mac(config.lan.ip)
    &&& v.fdb == Map::<MacAddr, u16>::empty()
    &&& v.flows == Map::<FlowKey, Conn>::empty()
    &&& v.nat_table == (NatView {
        wan_ip: Ipv4Addr { bits: 0 },
        port_lo,
        port_hi,
        next_port: port_lo,
        fwd: Map::empty(),
        rev: Map::empty(),
    })
    &&& v.bindings.leases == Map::<MacAddr, Ipv4Addr>::empty()
    &&& v.bindings.pool.start == config.dhcp.pool_start
    &&& v.bindings.pool.end == config.dhcp.pool_end
    &&& forall|x: Ipv4Addr| #[trigger]
        v.bindings.pool.free.contains(x) == (v.bindings.pool.covers(x) && x != config.lan.ip)
    &&& v.lan == neighbor::fresh::<Seq<u8>>(v.server_mac, config.lan.ip)
    &&& v.wan == neighbor::fresh::<Seq<u8>>(wan.info.ether_addr, Ipv4Addr { bits: 0 })
    &&& v.lan_ports.len() == lans.len()
    &&& forall|i: int|
        0 <= i < lans.len() ==> (#[trigger] v.lan_ports[i]).port == lans[i] && serves(
            config,
            v.server_mac,
            v.lan_ports[i].dhcp,
        )
    &&& v.wan_port == wan
    &&& v.client == (DhcpClient {
        mac: wan.info.ether_addr,
        xid: WAN_XID,
        state: ClientState::Init,
        offered_ip: None,
        server_id: None,
        lease: None,
    })
    &&& v.bound.bits == 0
    &&& v.gateway.bits == 0
    &&& v.last_sweep is None
}

/// Put the router together from its configuration and its ports, with the
/// external ports from `port_lo` to `port_hi` for NAT. `None` if the bounds of
/// the address pool are the wrong way round.
pub fn assemble(
    config: &RouterConfig,
    wan: Port,
    lans: Vec<Port>,
    port_lo: u16,
    port_hi: u16,
) -> (r: Option<AppCtx>)
    requires
        0 < port_lo <= port_hi,
    ensures
        r is Some <==> config.dhcp.pool_start.bits <= config.dhcp.pool_end.bits,
        r matches Some(app) ==> app.wf() && starts(*config, wan, lans@, port_lo, port_hi, app@),
{
    let ghost all = lans@;
    let pool = match lan_pool(config) {
        Some(p) => p,
        None => {
            return None;
        },
    };
    let server_ip: Ipv4Addr = config.lan.ip;
    let server_mac: MacAddr = software_defined_mac(server_ip);
    let wan_mac: MacAddr = wan.info().ether_addr;
    let mut rest = lans;
    let mut ports: Vec<LanPortCtx> = Vec::new();
    while rest.len() > 0
        invariant
            ports@.len() + rest@.len() == all.len(),
            rest@ == all.subrange(ports@.len() as int, all.len() as int),
            forall|i: int|
                0 <= i < ports@.len() ==> (#[trigger] ports@[i]).port == all[i] && serves(
                    *config,
                    server_mac,
                    ports@[i].dhcp,
                ),
        decreases rest@.len(),
    {
        let port = rest.remove(0);
        ports.push(LanPortCtx::new(port, lan_server(config, server_mac)));
        assert(rest@ =~= all.subrange(ports@.len() as int, all.len() as int));
    }
    let wan_ctx = WanPortCtx::new(
        wan,
        NeighborTable::new(wan_mac, Ipv4Addr::unspecified()),
        DhcpClient::new(wan_mac, WAN_XID),
    );
    let lan = LanSegment {
        neighbors: NeighborTable::new(server_mac, server_ip),
        pool,
        leases: LeaseTable::default(),
    };
    proof {
        assert(app::waiting_bytes(neighbor::fresh(server_mac, server_ip)) =~= neighbor::fresh(
            server_mac,
            server_ip,
        ));
        assert(app::waiting_bytes(neighbor::fresh(wan_mac, Ipv4Addr { bits: 0 }))
            =~= neighbor::fresh(wan_mac, Ipv4Addr { bits: 0 }));
    }
    Some(
        AppCtx::new(
            server_ip,
            server_mac,
            Fdb::new(),
            Nat::new(Ipv4Addr::unspecified(), port_lo, port_hi),
            ConnTrack::new(),
            wan_ctx,
            lan,
            ports,
        ),
    )
}

/// The LAN interfaces are those with the LAN role, each once and in order.
pub proof fn law_lan_interfaces(interfaces: Seq<InterfaceConfig>, i: usize, a: int, b: int)
    requires
        interfaces.len() <= usize::MAX,
    ensures
        ({
            let lans = lan_indices(interfaces, interfaces.len());
            &&& lans.contains(i) <==> i < interfaces.len() && interfaces[i as int].role
                == InterfaceRole::Lan
            &&& 0 <= a < b < lans.len() ==> lans[a] < lans[b]
        }),
{
    lemma_lan_indices(interfaces, interfaces.len(), i);
}

proof fn lemma_lan_indices(interfaces: Seq<InterfaceConfig>, n: nat, i: usize)
    requires
        n <= interfaces.len() <= usize::MAX,
    ensures
        ({
            let lans = lan_indices(interfaces, n);
            &&& lans.contains(i) <==> i < n && interfaces[i as int].role == InterfaceRole::Lan
            &&& forall|a: int| 0 <= a < lans.len() ==> #[trigger] lans[a] < n
            &&& forall|a: int, b: int|
                0 <= a < b < lans.len() ==> #[trigger] lans[a] < #[trigger] lans[b]
        }),
    decreases n,
{
    if n > 0 {
        let rest = lan_indices(interfaces, (n - 1) as nat);
        let lans = lan_indices(interfaces, n);
        lemma_lan_indices(interfaces, (n - 1) as nat, i);
        if interfaces[n - 1].role == InterfaceRole::Lan {
            assert(lans[rest.len() as int] == (n - 1) as usize);
            if rest.contains(i) {
                let a = choose|a: int| 0 <= a < rest.len() && rest[a] == i;
                assert(lans[a] == i);
            }
        }
    }
}

/// The lcores that are local to a port are those on its socket, and no others.
pub proof fn law_local_lcores(lcores: Seq<Lcore>, socket: u32, id: u32)
    ensures
        local_lcores(lcores, socket, lcores.len()).contains(id) <==> exists|i: int|
            #![trigger lcores[i]]
            0 <= i < lcores.len() && lcores[i].socket == socket && lcores[i].id == id,
{
    lemma_local_lcores(lcores, socket, lcores.len(), id);
}

proof fn lemma_local_lcores(lcores: Seq<Lcore>, socket: u32, n: nat, id: u32)
    requires
        n <= lcores.len(),
    ensures
        local_lcores(lcores, socket, n).contains(id) <==> exists|i: int|
            #![trigger lcores[i]]
            0 <= i < n && lcores[i].socket == socket && lcores[i].id == id,
    decreases n,
{
    if n > 0 {
        let rest = local_lcores(lcores, socket, (n - 1) as nat);
        let all = local_lcores(lcores, socket, n);
        lemma_local_lcores(lcores, socket, (n - 1) as nat, id);
        assert(lcores[n - 1] == lcores[n - 1]);
        if lcores[n - 1].socket == socket {
            assert(all[rest.len() as int] == lcores[n - 1].id);
            if rest.contains(id) {
                let a = choose|a: int| 0 <= a < rest.len() && rest[a] == id;
                assert(all[a] == id);
            }
        }
    }
}

/// The hosts of the LAN are told that the router is their gateway, on the
/// configured network, and that it is the first DNS server, before the upstream
/// ones in their order; they are told to come again within a day.
pub proof fn law_what_the_lan_is_told(
    config: RouterConfig,
    server_mac: MacAddr,
    s: DhcpServerConfig,
    i: int,
)
    requires
        serves(config, server_mac, s),
    ensures
        s.server_ip == config.lan.ip,
        s.server_mac == server_mac,
        s.gateway == config.lan.ip,
        s.subnet_mask == config.lan.mask.spec_netmask(),
        s.dns@.len() == config.dns.servers@.len() + 1,
        s.dns@[0] == config.lan.ip,
        0 <= i < config.dns.servers@.len() ==> s.dns@[i + 1] == config.dns.servers@[i],
        s.lease_secs == 86400,
{
}

/// A router starts without a WAN address, bindings, leases, learned addresses or
/// neighbors. Every address of the pool but its own is free, every LAN port hands
/// out addresses, and its own hardware address on the LAN is made from its IP
/// address and belongs to no group.
pub proof fn law_how_a_router_starts(
    config: RouterConfig,
    wan: Port,
    lans: Seq<Port>,
    port_lo: u16,
    port_hi: u16,
    v: AppView,
    x: Ipv4Addr,
    i: int,
)
    requires
        starts(config, wan, lans, port_lo, port_hi, v),
    ensures
        v.server_ip == config.lan.ip,
        v.lan.our_ip == config.lan.ip,
        v.lan.our_mac == v.server_mac,
        v.server_mac@ == util::spec_software_defined_mac(config.lan.ip),
        v.server_mac@[0] % 4 == 2,
        v.wan.our_ip.bits == 0,
        v.wan.our_mac == wan.info.ether_addr,
        v.client.mac == wan.info.ether_addr,
        v.client.xid == 0x7175_6963,
        v.client.state == ClientState::Init,
        v.client.lease is None,
        v.client.offered_ip is None,
        v.client.server_id is None,
        v.bound.bits == 0,
        v.gateway.bits == 0,
        v.last_sweep is None,
        v.wan_port == wan,
        v.lan_ports.len() == lans.len(),
        0 <= i < lans.len() ==> v.lan_ports[i].port == lans[i] && serves(
            config,
            v.server_mac,
            v.lan_ports[i].dhcp,
        ),
        v.nat_table.wan_ip.bits == 0,
        v.nat_table.port_lo == port_lo,
        v.nat_table.port_hi == port_hi,
        v.nat_table.next_port == port_lo,
        v.nat_table.fwd.dom().is_empty(),
        v.nat_table.rev.dom().is_empty(),
        v.fdb.dom().is_empty(),
        v.flows.dom().is_empty(),
        v.bindings.leases.dom().is_empty(),
        v.lan.cache.dom().is_empty(),
        v.lan.pending.dom().is_empty(),
        v.wan.cache.dom().is_empty(),
        v.wan.pending.dom().is_empty(),
        v.bindings.pool.free.contains(x) <==> config.dhcp.pool_start.bits <= x.bits
            && x.bits <= config.dhcp.pool_end.bits && x != config.lan.ip,
{
    util::law_digest_gives_the_address(
        util::sha256_digest(vstd::utf8::encode_utf8(config.lan.ip.dotted())),
    );
}

/// A port without an lcore of its own goes to one that no other has fewer ports
/// than, the one with the lowest id if there are several, and that one alone then
/// counts one port more.
pub proof fn law_spare_lcore(load: Seq<LcoreLoad>, i: int, j: int)
    requires
        0 <= i < load.len(),
        0 <= j < load.len(),
        load[i].ports < usize::MAX,
    ensures
        is_least_loaded(load, i) ==> load[i].ports <= load[j].ports,
        is_least_loaded(load, i) && load[i].ports == load[j].ports ==> load[i].lcore
            <= load[j].lcore,
        with_one_more(load, i).len() == load.len(),
        with_one_more(load, i)[i].lcore == load[i].lcore,
        with_one_more(load, i)[i].ports == load[i].ports + 1,
        j != i ==> with_one_more(load, i)[j] == load[j],
{
}

} // verus!
