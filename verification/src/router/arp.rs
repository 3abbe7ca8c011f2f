//! ARP responder for the router's own addresses.
//!
//! A router does not *forward* ARP: ARP is link-local, scoped to one segment.
//! What it does is answer requests for the IPs it owns on a given interface
//! (its gateway IP, the DHCP server IP, etc.). Listing extra addresses in
//! `owned` also gives you proxy-ARP: the router answers on their behalf.

use crate::net::addr::Ipv4Addr;
use crate::net::anatomy;
use crate::net::arp;
use crate::net::arp::ArpPacket;
use crate::net::ethernet;
use crate::net::ethernet::{ethertype, MacAddr};
use crate::net::view;
use crate::net::wire;
use crate::net::wire::Pod;
use vstd::prelude::*;

verus! {

/// What the router looks at in an ARP packet.
pub struct ArpMessage {
    pub oper: u16,
    pub sha: MacAddr,
    pub sender_ip: Ipv4Addr,
    pub tha: MacAddr,
    pub target_ip: Ipv4Addr,
}

/// The ARP packet that the frame `f` carries, if it carries one.
pub open spec fn frame_arp(f: Seq<u8>) -> Option<ArpMessage> {
    match view::ethernet_layout(f, 0) {
        Some(eth) => if eth.ethertype == ethertype::ARP && eth.l3_start + 28 <= f.len() {
            Some(
                ArpMessage {
                    oper: wire::be16(f, eth.l3_start + 6),
                    sha: ethernet::mac_at(f, eth.l3_start + 8),
                    sender_ip: Ipv4Addr { bits: wire::be32(f, eth.l3_start + 14) },
                    tha: ethernet::mac_at(f, eth.l3_start + 18),
                    target_ip: Ipv4Addr { bits: wire::be32(f, eth.l3_start + 24) },
                },
            )
        } else {
            None
        },
        None => None,
    }
}

/// `a` is what `pkt` says.
pub open spec fn says(pkt: ArpPacket, a: ArpMessage) -> bool {
    &&& pkt.oper.value() == a.oper
    &&& pkt.sha == a.sha
    &&& pkt.spa.value() == a.sender_ip.bits
    &&& pkt.tha == a.tha
    &&& pkt.tpa.value() == a.target_ip.bits
}

/// Read the ARP packet of a frame.
pub(crate) fn parse_arp(frame: &[u8]) -> (r: Option<ArpPacket>)
    ensures
        match r {
            Some(pkt) => frame_arp(frame@) matches Some(a) && says(pkt, a),
            None => frame_arp(frame@) is None,
        },
{
    let eth = match view::parse(frame) {
        Some(eth) => eth,
        None => {
            return None;
        },
    };
    let r = eth.arp();
    proof {
        if let Some(pkt) = r {
            let at = eth.l3_start as int;
            let b = pkt.bytes();
            assert forall|i: int| 0 <= i < 28 implies b[i] == frame@[at + i] by {}
            assert(b[6] == frame@[at + 6] && b[7] == frame@[at + 7]);
            assert(b[8] == frame@[at + 8] && b[9] == frame@[at + 9] && b[10] == frame@[at + 10]
                && b[11] == frame@[at + 11] && b[12] == frame@[at + 12] && b[13] == frame@[at
                + 13]);
            assert(pkt.sha =~= ethernet::mac_at(frame@, at + 8));
            assert(b[14] == frame@[at + 14] && b[15] == frame@[at + 15] && b[16] == frame@[at + 16]
                && b[17] == frame@[at + 17]);
            assert(b[18] == frame@[at + 18] && b[19] == frame@[at + 19] && b[20] == frame@[at + 20]
                && b[21] == frame@[at + 21] && b[22] == frame@[at + 22] && b[23] == frame@[at
                + 23]);
            assert(pkt.tha =~= ethernet::mac_at(frame@, at + 18));
            assert(b[24] == frame@[at + 24] && b[25] == frame@[at + 25] && b[26] == frame@[at + 26]
                && b[27] == frame@[at + 27]);
        }
    }
    r
}

/// The request in `frame` that is to be answered: one for an address that is
/// owned.
pub open spec fn request_for(owned: Seq<Ipv4Addr>, frame: Seq<u8>) -> Option<ArpMessage> {
    match frame_arp(frame) {
        Some(a) => if a.oper == arp::oper::REQUEST && owned.contains(a.target_ip) {
            Some(a)
        } else {
            None
        },
        None => None,
    }
}

/// The answer to the request `a` by the owner of its target, `our_mac`.
pub open spec fn reply_to(our_mac: MacAddr, a: ArpMessage) -> Seq<u8> {
    arp::arp_frame(arp::oper::REPLY, a.sha@, our_mac@, a.target_ip, a.sha@, a.sender_ip)
}

/// If `frame` is an ARP request for one of `owned`, build the reply (from
/// `our_mac`) into `out` and return its length. Otherwise `None`.
pub fn respond(our_mac: MacAddr, owned: &[Ipv4Addr], frame: &[u8], out: &mut [u8]) -> (r: Option<
    usize,
>)
    ensures
        r == if request_for(owned@, frame@) is Some && old(out)@.len() >= arp::FRAME_LEN {
            Some(arp::FRAME_LEN)
        } else {
            None
        },
        final(out)@ == match request_for(owned@, frame@) {
            Some(a) => arp::arp_written(old(out)@, reply_to(our_mac, a)),
            None => old(out)@,
        },
{
    let pkt = match parse_arp(frame) {
        Some(pkt) => pkt,
        None => {
            return None;
        },
    };
    if !pkt.is_request() {
        return None;
    }
    let target = pkt.target_ip();
    if !lists_addr(owned, target) {
        return None;
    }
    // We are `target`; reply to the requester (its MAC + IP from the request).
    arp::build_reply(out, our_mac, target, pkt.sha, pkt.sender_ip())
}

fn lists_addr(list: &[Ipv4Addr], ip: Ipv4Addr) -> (r: bool)
    ensures
        r == list@.contains(ip),
{
    let mut i: usize = 0;
    while i < list.len()
        invariant
            i <= list@.len(),
            forall|j: int| 0 <= j < i ==> list@[j] != ip,
        decreases list@.len() - i,
    {
        if list[i] == ip {
            assert(list@[i as int] == ip);
            return true;
        }
        i = i + 1;
    }
    false
}

/// An ARP message is found in a frame that carries one, with its fields where
/// they stand, and in no other.
pub proof fn law_arp_message_is_found(f: Seq<u8>, l3: int)
    ensures
        anatomy::arp_at(f, l3) ==> frame_arp(f) is Some && {
            let a = frame_arp(f)->0;
            &&& a.oper == anatomy::num16(f, l3 + 6)
            &&& anatomy::mac_is(f, l3 + 8, a.sha)
            &&& anatomy::ip_is(f, l3 + 14, a.sender_ip)
            &&& anatomy::mac_is(f, l3 + 18, a.tha)
            &&& anatomy::ip_is(f, l3 + 24, a.target_ip)
        },
        frame_arp(f) is Some ==> anatomy::arp_at(f, 14) || anatomy::arp_at(f, 18),
{
    anatomy::law_ethernet_is_found(f, 0x0806, l3);
    anatomy::law_ethernet_is_found(f, 0x0806, 14);
    anatomy::law_ethernet_is_found(f, 0x0806, 18);
}

/// The requests that are answered are those for an address that is owned. The
/// answer goes to the one who asked, from the owner: it says that the address is
/// at `our_mac`.
pub proof fn law_owned_addresses_are_answered_for(
    our_mac: MacAddr,
    owned: Seq<Ipv4Addr>,
    f: Seq<u8>,
    l3: int,
)
    requires
        anatomy::arp_at(f, l3),
    ensures
        ({
            let a = frame_arp(f)->0;
            &&& request_for(owned, f) is Some <==> anatomy::num16(f, l3 + 6) == 1
                && owned.contains(Ipv4Addr { bits: anatomy::num32(f, l3 + 24) as u32 })
            &&& request_for(owned, f) is Some ==> request_for(owned, f) == Some(a)
            &&& anatomy::arp_bytes(
                reply_to(our_mac, a),
                2,
                a.sha,
                our_mac,
                a.target_ip,
                a.sha,
                a.sender_ip,
            )
        }),
{
    law_arp_message_is_found(f, l3);
    let a = frame_arp(f)->0;
    anatomy::law_arp_frame_bytes(2, a.sha, our_mac, a.target_ip, a.sha, a.sender_ip);
}

} // verus!
