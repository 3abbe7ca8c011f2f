//! Per-packet datapath steps: NAT in place, and the Ethernet rewrite that
//! makes a packet ready for its next hop.

use crate::dpdk::mbuf::Mbuf;
use crate::net::ethernet::{EthernetHeader, MacAddr};
use crate::net::wire;
use crate::net::wire::store_at;
use crate::router::translation;
use crate::router::translation::{translate_egress, translate_ingress, Ingress, Nat};
use vstd::prelude::*;

verus! {

/// `s` with the Ethernet source and destination rewritten. What is too short
/// for an Ethernet header stays as it is.
pub open spec fn with_ethernet(s: Seq<u8>, src: MacAddr, dst: MacAddr) -> Seq<u8> {
    if s.len() >= EthernetHeader::LEN {
        wire::splice(s, 0, dst@ + src@)
    } else {
        s
    }
}

/// Apply egress NAT to `m` in place and rewrite its Ethernet addresses for the
/// WAN next hop, leaving it ready to transmit on the WAN port.
///
/// Returns `true` if the packet was translated (TX it on WAN); `false` if it
/// isn't an IPv4 TCP/UDP packet or the NAT pool is exhausted (the caller
/// decides whether to drop or handle it another way).
pub fn egress(m: &mut Mbuf, table: &mut Nat, wan_mac: MacAddr, gateway_mac: MacAddr) -> (r: bool)
    requires
        old(table)@.wf(),
    ensures
        r == (translation::egress_result(old(m)@, old(table)@) is Some),
        final(m)@ == if r {
            with_ethernet(translation::egress_frame(old(m)@, old(table)@), wan_mac, gateway_mac)
        } else {
            old(m)@
        },
        final(table)@ == translation::egress_table(old(m)@, old(table)@),
        final(table)@.wf(),
{
    let data = m.data_mut();
    if translate_egress(data, table).is_none() {
        return false;
    }
    // L3/L4 are rewritten; now point L2 at the WAN gateway.
    rewrite_ethernet(data, wan_mac, gateway_mac);
    true
}

/// Reverse NAT a WAN->LAN return packet in `m` in place. Returns the internal
/// host endpoint (`dst_ip`, `dst_port`) so the caller can pick the LAN egress
/// port and resolve the host's MAC; `None` if the packet matches no binding.
///
/// L2 is **not** rewritten here: the destination MAC is the internal host's,
/// which requires a neighbor-cache lookup keyed by the returned `dst_ip`. After
/// resolving it, call [`set_ethernet`] before transmitting on the LAN port.
pub fn ingress(m: &mut Mbuf, table: &Nat) -> (r: Option<Ingress>)
    ensures
        r == match translation::ingress_result(old(m)@, table@) {
            Some(e) => Some(Ingress { dst_ip: e.ip, dst_port: e.port }),
            None => None,
        },
        final(m)@ == translation::ingress_frame(old(m)@, table@),
{
    translate_ingress(m.data_mut(), table)
}

/// Rewrite the Ethernet source/destination of `m` (e.g. once the LAN next-hop
/// MAC is resolved for an ingress packet).
pub fn set_ethernet(m: &mut Mbuf, src: MacAddr, dst: MacAddr)
    ensures
        final(m)@ == with_ethernet(old(m)@, src, dst),
{
    rewrite_ethernet(m.data_mut(), src, dst);
}

fn rewrite_ethernet(data: &mut [u8], src: MacAddr, dst: MacAddr)
    ensures
        final(data)@ == with_ethernet(old(data)@, src, dst),
{
    if data.len() >= EthernetHeader::LEN {
        let ghost before = data@;
        store_at(data, 0, &dst);
        store_at(data, 6, &src);
        assert(data@ =~= with_ethernet(before, src, dst));
    }
}

} // verus!
