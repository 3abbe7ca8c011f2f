//! Active ARP-based neighbor resolution for IPv4 over Ethernet.
//!
//! [`NeighborTable`] is a cache *plus* a per-target pending queue with
//! retransmits and aging. Egress packets needing a next-hop MAC go through
//! [`NeighborTable::resolve`]:
//!
//! - **Cache hit**: `Forward { mac, packet }`; transmit immediately.
//! - **Cache miss**: the packet is queued under `target_ip`. If this is the
//!   first miss for that target, an ARP request is built into the caller's
//!   buffer to transmit; subsequent misses for the same target queue silently.
//! - **Queue full**: `Drop { packet }`; the caller drops it.
//!
//! Inbound ARP frames are fed to [`NeighborTable::on_arp`], which learns the
//! sender mapping (so both requests and replies populate the cache) and returns
//! any packets that the new mapping unblocked.
//!
//! Time is passed in as a [`Tick`] so this stays fully deterministic and
//! testable. Call [`NeighborTable::sweep`] periodically to retransmit
//! unanswered requests, expire pending entries whose target never replied, and
//! age out stale cache entries.

use crate::net::addr::Ipv4Addr;
use crate::net::anatomy;
use crate::net::arp;
use crate::net::ethernet;
use crate::net::ethernet::{display_mac, MacAddr};
use crate::net::wire;
use crate::router::tick::Tick;
use crate::sync::history;
use crate::sync::history::Evolving;
use crate::sync::spinlock::{Guarded, SpinLock};
use crate::table;
use crate::table::Table;
use crate::text;
use crate::text::{push_decimal, push_text};
use std::sync::Arc;
use vstd::prelude::*;

verus! {

/// Cap on packets queued per unresolved target IP. A flapping or unreachable
/// host can't pin unbounded memory; excess packets are returned to the caller.
pub const MAX_PENDING_PER_IP: usize = 4;

/// How long to wait between ARP request attempts for the same target.
pub const REQUEST_INTERVAL_MS: u64 = 1000;

/// Number of ARP request attempts before giving up and dropping the queue.
pub const MAX_REQUEST_ATTEMPTS: u8 = 3;

/// Cache entries older than this are aged out by [`NeighborTable::sweep`].
pub const CACHE_TTL_MS: u64 = 300_000;

/// A cache entry plus when it was learned, so [`NeighborTable::sweep`] can age
/// it out.
#[derive(Clone, Copy)]
pub struct CachedEntry {
    pub mac: MacAddr,
    pub learned_at: Tick,
}

/// Per-target pending state: queued packets plus retransmit bookkeeping.
pub struct Pending<P> {
    pub packets: Vec<P>,
    /// When the most recent ARP request for this target was sent.
    pub last_request_at: Tick,
    /// How many request attempts have been made so far.
    pub attempts: u8,
}

/// What a pending entry holds.
#[verifier::ext_equal]
pub struct PendingView<P> {
    pub packets: Seq<P>,
    pub last_request_at: Tick,
    pub attempts: u8,
}

impl<P> View for Pending<P> {
    type V = PendingView<P>;

    open spec fn view(&self) -> PendingView<P> {
        PendingView {
            packets: self.packets@,
            last_request_at: self.last_request_at,
            attempts: self.attempts,
        }
    }
}

impl<P> PendingView<P> {
    /// The last request is old enough for the entry to be looked at again.
    pub open spec fn due(self, now: Tick) -> bool {
        now.since(self.last_request_at) >= REQUEST_INTERVAL_MS
    }

    /// The target has not answered any of the requests it gets: give up.
    pub open spec fn expired(self, now: Tick) -> bool {
        self.due(now) && self.attempts >= MAX_REQUEST_ATTEMPTS
    }

    /// Another request is to be sent.
    pub open spec fn retried(self, now: Tick) -> bool {
        self.due(now) && self.attempts < MAX_REQUEST_ATTEMPTS
    }

    /// The entry after a sweep that does not drop it.
    pub open spec fn swept(self, now: Tick) -> PendingView<P> {
        if self.retried(now) {
            PendingView { last_request_at: now, attempts: (self.attempts + 1) as u8, ..self }
        } else {
            self
        }
    }
}

/// What a neighbor table holds.
#[verifier::ext_equal]
pub struct NeighborView<P> {
    pub our_mac: MacAddr,
    pub our_ip: Ipv4Addr,
    /// The address last learned for each MAC.
    pub resolved: Map<MacAddr, Ipv4Addr>,
    /// The MAC learned for each address.
    pub cache: Map<Ipv4Addr, CachedEntry>,
    /// What waits for each address that is being resolved.
    pub pending: Map<Ipv4Addr, PendingView<P>>,
}

impl<P> NeighborView<P> {
    /// Every queue holds at least one packet and no more than the cap, and its
    /// target has been asked for at least once and no more often than the limit.
    pub open spec fn wf(self) -> bool {
        forall|ip: Ipv4Addr| #[trigger]
            self.pending.dom().contains(ip) ==> {
                &&& 1 <= self.pending[ip].packets.len() <= MAX_PENDING_PER_IP
                &&& 1 <= self.pending[ip].attempts <= MAX_REQUEST_ATTEMPTS
            }
    }

    /// The packets that wait for `ip`.
    pub open spec fn queue(self, ip: Ipv4Addr) -> Seq<P> {
        if self.pending.dom().contains(ip) {
            self.pending[ip].packets
        } else {
            seq![]
        }
    }

    /// The table after `ip` is learned to be at `mac`.
    pub open spec fn learned(self, ip: Ipv4Addr, mac: MacAddr, now: Tick) -> NeighborView<P> {
        NeighborView {
            cache: self.cache.insert(ip, CachedEntry { mac, learned_at: now }),
            resolved: self.resolved.insert(mac, ip),
            ..self
        }
    }

    /// The table after `packet` is sent to `ip`: if that is not in the cache,
    /// the packet is queued as long as there is room.
    pub open spec fn after_resolve(self, ip: Ipv4Addr, packet: P, now: Tick) -> NeighborView<P> {
        let q = self.queue(ip);
        if self.cache.dom().contains(ip) || q.len() >= MAX_PENDING_PER_IP {
            self
        } else if q.len() == 0 {
            NeighborView {
                pending: self.pending.insert(
                    ip,
                    PendingView { packets: seq![packet], last_request_at: now, attempts: 1 },
                ),
                ..self
            }
        } else {
            NeighborView {
                pending: self.pending.insert(
                    ip,
                    PendingView { packets: q.push(packet), ..self.pending[ip] },
                ),
                ..self
            }
        }
    }

    /// A packet to `ip` is the first one that waits for it: a request is built.
    pub open spec fn first_miss(self, ip: Ipv4Addr) -> bool {
        !self.cache.dom().contains(ip) && self.queue(ip).len() == 0
    }

    /// The request for `ip` as it stands on the wire.
    pub open spec fn request(self, ip: Ipv4Addr) -> Seq<u8> {
        arp::arp_frame(
            arp::oper::REQUEST,
            ethernet::BROADCAST@,
            self.our_mac@,
            self.our_ip,
            arp::UNKNOWN_HARDWARE_ADDR@,
            ip,
        )
    }

    /// The table after an ARP message showed that `ip` is at `mac`.
    pub open spec fn after_arp(self, ip: Ipv4Addr, mac: MacAddr, now: Tick) -> NeighborView<P> {
        let l = self.learned(ip, mac, now);
        NeighborView { pending: l.pending.remove(ip), ..l }
    }

    /// The cache after a sweep: entries that are not too old.
    pub open spec fn swept_cache(self, now: Tick) -> Map<Ipv4Addr, CachedEntry> {
        self.cache.restrict(
            Set::new(
                |ip: Ipv4Addr|
                    self.cache.dom().contains(ip) && now.since(self.cache[ip].learned_at)
                        < CACHE_TTL_MS,
            ),
        )
    }

    /// The table after a sweep.
    pub open spec fn after_sweep(self, now: Tick) -> NeighborView<P> {
        let cache = self.swept_cache(now);
        NeighborView {
            cache,
            resolved: self.resolved.restrict(
                Set::new(
                    |mac: MacAddr|
                        self.resolved.dom().contains(mac) && cache.dom().contains(
                            self.resolved[mac],
                        ),
                ),
            ),
            pending: Map::new(
                |ip: Ipv4Addr|
                    self.pending.dom().contains(ip) && !self.pending[ip].expired(now),
                |ip: Ipv4Addr| self.pending[ip].swept(now),
            ),
            ..self
        }
    }

    /// The requests that a sweep sends for the first `n` targets of `order`.
    pub open spec fn sweep_requests(self, order: Seq<Ipv4Addr>, now: Tick, n: nat) -> Seq<Seq<u8>>
        decreases n,
    {
        if n == 0 {
            seq![]
        } else {
            let rest = self.sweep_requests(order, now, (n - 1) as nat);
            let ip = order[n - 1];
            if self.pending[ip].retried(now) {
                rest.push(self.request(ip))
            } else {
                rest
            }
        }
    }

    /// The packets that a sweep gives up for the first `n` targets of `order`.
    pub open spec fn sweep_dropped(self, order: Seq<Ipv4Addr>, now: Tick, n: nat) -> Seq<P>
        decreases n,
    {
        if n == 0 {
            seq![]
        } else {
            let rest = self.sweep_dropped(order, now, (n - 1) as nat);
            let ip = order[n - 1];
            if self.pending[ip].expired(now) {
                rest + self.pending[ip].packets
            } else {
                rest
            }
        }
    }
}

/// Active resolver: cache + pending queues + retransmit/aging.
pub struct NeighborTable<P> {
    our_mac: MacAddr,
    our_ip: Ipv4Addr,
    resolved: Table<MacAddr, Ipv4Addr>,
    cache: Table<Ipv4Addr, CachedEntry>,
    pending: Table<Ipv4Addr, Pending<P>>,
}

impl<P> View for NeighborTable<P> {
    type V = NeighborView<P>;

    closed spec fn view(&self) -> NeighborView<P> {
        NeighborView {
            our_mac: self.our_mac,
            our_ip: self.our_ip,
            resolved: self.resolved@,
            cache: self.cache@,
            pending: pending_view(self.pending@),
        }
    }
}

/// The views of pending entries.
pub open spec fn pending_view<P>(m: Map<Ipv4Addr, Pending<P>>) -> Map<Ipv4Addr, PendingView<P>> {
    Map::new(|ip: Ipv4Addr| m.dom().contains(ip), |ip: Ipv4Addr| m[ip]@)
}

/// Outcome of [`NeighborTable::resolve`].
pub enum Action<P> {
    /// Cache hit: forward `packet` to `mac`.
    Forward { mac: MacAddr, packet: P },
    /// Cache miss; `packet` was queued. `request_len` is `Some(n)` iff an ARP
    /// request of `n` bytes was built into the caller's buffer to transmit
    /// (only the first miss for a given target emits one; later misses queue
    /// silently). It can also be `None` if `req_buf` was too small.
    Queued { request_len: Option<usize> },
    /// Cache miss and the pending queue for this target is full; `packet` is
    /// returned to the caller to drop.
    Drop { packet: P },
}

/// Outcome of [`NeighborTable::sweep`].
pub struct Swept<P> {
    /// ARP requests to transmit.
    pub requests: Vec<[u8; 42]>,
    /// Packets whose target never replied, to free.
    pub dropped: Vec<P>,
}

/// What [`NeighborTable::resolve`] returns for `packet` to `ip`.
pub open spec fn resolve_action<P>(
    v: NeighborView<P>,
    ip: Ipv4Addr,
    packet: P,
    buf_len: nat,
) -> Action<P> {
    if v.cache.dom().contains(ip) {
        Action::Forward { mac: v.cache[ip].mac, packet }
    } else if v.queue(ip).len() >= MAX_PENDING_PER_IP {
        Action::Drop { packet }
    } else {
        Action::Queued {
            request_len: if v.queue(ip).len() == 0 && buf_len >= arp::FRAME_LEN {
                Some(arp::FRAME_LEN)
            } else {
                None
            },
        }
    }
}

/// What [`NeighborTable::resolve`] leaves in the request buffer.
pub open spec fn resolve_buf<P>(v: NeighborView<P>, ip: Ipv4Addr, buf: Seq<u8>) -> Seq<u8> {
    if v.first_miss(ip) {
        arp::arp_written(buf, v.request(ip))
    } else {
        buf
    }
}

/// A sweep that visits the pending targets in the order `order`.
pub open spec fn sweeps<P>(
    v: NeighborView<P>,
    order: Seq<Ipv4Addr>,
    now: Tick,
    requests: Seq<Seq<u8>>,
    dropped: Seq<P>,
) -> bool {
    &&& table::lists(order, v.pending.dom())
    &&& requests == v.sweep_requests(order, now, order.len())
    &&& dropped == v.sweep_dropped(order, now, order.len())
}

/// The frames of a list of requests.
pub open spec fn frames_of(requests: Seq<[u8; 42]>) -> Seq<Seq<u8>> {
    Seq::new(requests.len(), |i: int| requests[i]@)
}

/// The status text up to the cache entries.
pub open spec fn status_header<P>(v: NeighborView<P>) -> Seq<char> {
    "ARP:\n  our_mac: "@ + ethernet::mac_text(v.our_mac@, 6) + ", our_ip: "@ + v.our_ip.dotted()
        + "\n  cache:\n"@
}

/// The status line of one cache entry.
pub open spec fn cache_line(ip: Ipv4Addr, e: CachedEntry) -> Seq<char> {
    "    "@ + ip.dotted() + " -> "@ + ethernet::mac_text(e.mac@, 6) + " (learned at "@
        + e.learned_at.listed() + ")\n"@
}

/// The status lines of the first `n` cache entries of `order`.
pub open spec fn cache_lines<P>(v: NeighborView<P>, order: Seq<Ipv4Addr>, n: nat) -> Seq<char>
    decreases n,
{
    if n == 0 {
        seq![]
    } else {
        cache_lines(v, order, (n - 1) as nat) + cache_line(order[n - 1], v.cache[order[n - 1]])
    }
}

/// The status line of one pending target.
pub open spec fn pending_line<P>(ip: Ipv4Addr, p: PendingView<P>) -> Seq<char> {
    "    "@ + ip.dotted() + ": "@ + text::decimal(p.packets.len())
        + " packets, last request at "@ + p.last_request_at.listed() + ", attempts "@
        + text::decimal(p.attempts as nat) + "\n"@
}

/// The status lines of the first `n` pending targets of `order`.
pub open spec fn pending_lines<P>(v: NeighborView<P>, order: Seq<Ipv4Addr>, n: nat) -> Seq<char>
    decreases n,
{
    if n == 0 {
        seq![]
    } else {
        pending_lines(v, order, (n - 1) as nat) + pending_line(
            order[n - 1],
            v.pending[order[n - 1]],
        )
    }
}

/// `t` is the status of `v`, with the cache and the pending targets in the
/// orders given.
pub open spec fn status_lists<P>(
    v: NeighborView<P>,
    cached: Seq<Ipv4Addr>,
    waiting: Seq<Ipv4Addr>,
    t: Seq<char>,
) -> bool {
    &&& table::lists(cached, v.cache.dom())
    &&& table::lists(waiting, v.pending.dom())
    &&& t == status_header(v) + cache_lines(v, cached, cached.len()) + "  pending:\n"@
        + pending_lines(v, waiting, waiting.len()) + "}\n"@
}

fn push_cache_line(s: &mut String, ip: Ipv4Addr, e: &CachedEntry)
    ensures
        final(s)@ == old(s)@ + cache_line(ip, *e),
{
    let ghost before = s@;
    push_text(s, "    ");
    push_text(s, ip.to_string().as_str());
    push_text(s, " -> ");
    push_text(s, display_mac(&e.mac).as_str());
    push_text(s, " (learned at ");
    e.learned_at.push_listed(s);
    push_text(s, ")\n");
    assert(s@ =~= before + cache_line(ip, *e));
}

fn push_pending_line<P>(s: &mut String, ip: Ipv4Addr, p: &Pending<P>)
    ensures
        final(s)@ == old(s)@ + pending_line(ip, p@),
{
    let ghost before = s@;
    push_text(s, "    ");
    push_text(s, ip.to_string().as_str());
    push_text(s, ": ");
    push_decimal(s, p.packets.len() as u64);
    push_text(s, " packets, last request at ");
    p.last_request_at.push_listed(s);
    push_text(s, ", attempts ");
    push_decimal(s, p.attempts as u64);
    push_text(s, "\n");
    assert(s@ =~= before + pending_line(ip, p@));
}

/// A table in which nothing is known and nothing waits.
pub open spec fn fresh<P>(our_mac: MacAddr, our_ip: Ipv4Addr) -> NeighborView<P> {
    NeighborView {
        our_mac,
        our_ip,
        resolved: Map::empty(),
        cache: Map::empty(),
        pending: Map::empty(),
    }
}

impl<P> NeighborTable<P> {
    pub fn new(our_mac: MacAddr, our_ip: Ipv4Addr) -> (r: Self)
        ensures
            r@.wf(),
            r@ == fresh::<P>(our_mac, our_ip),
    {
        let r = NeighborTable {
            our_mac,
            our_ip,
            resolved: Table::new(),
            cache: Table::new(),
            pending: Table::new(),
        };
        assert(r@.pending =~= Map::<Ipv4Addr, PendingView<P>>::empty());
        r
    }

    /// Update the interface's own IP (e.g. once the WAN DHCP lease binds).
    pub fn set_our_ip(&mut self, ip: Ipv4Addr)
        ensures
            final(self)@ == (NeighborView { our_ip: ip, ..old(self)@ }),
    {
        self.our_ip = ip;
    }

    /// Number of addresses in the cache.
    pub fn known(&self) -> (r: usize)
        ensures
            r == self@.cache.len(),
            self@.cache.dom().finite(),
    {
        self.cache.len()
    }

    /// Number of addresses that packets wait for.
    pub fn pending_targets(&self) -> (r: usize)
        ensures
            r == self@.pending.len(),
            self@.pending.dom().finite(),
    {
        assert(self@.pending.dom() =~= self.pending@.dom());
        self.pending.len()
    }

    /// Look up a MAC without touching the pending queue.
    pub fn lookup(&self, ip: Ipv4Addr) -> (r: Option<MacAddr>)
        ensures
            r == if self@.cache.dom().contains(ip) {
                Some(self@.cache[ip].mac)
            } else {
                None
            },
    {
        match self.cache.get(&ip) {
            Some(e) => Some(e.mac),
            None => None,
        }
    }

    /// Reverse lookup an IP from a MAC address without touching the pending
    /// queue.
    pub fn reverse_lookup(&self, mac: MacAddr) -> (r: Option<Ipv4Addr>)
        ensures
            r == self@.resolved.get(mac),
    {
        match self.resolved.get(&mac) {
            Some(ip) => Some(*ip),
            None => None,
        }
    }

    /// Insert a mapping directly (e.g. one learned from a DHCP exchange).
    pub fn insert(&mut self, ip: Ipv4Addr, mac: MacAddr, now: Tick)
        ensures
            final(self)@ == old(self)@.learned(ip, mac, now),
    {
        self.cache.insert(ip, CachedEntry { mac, learned_at: now });
        self.resolved.insert(mac, ip);
    }

    /// Try to resolve `target_ip` for `packet`, queuing on miss and emitting an
    /// ARP request when this is the first pending packet for that target.
    pub fn resolve(
        &mut self,
        target_ip: Ipv4Addr,
        packet: P,
        req_buf: &mut [u8],
        now: Tick,
    ) -> (r: Action<P>)
        ensures
            r == resolve_action(old(self)@, target_ip, packet, old(req_buf)@.len()),
            final(self)@ == old(self)@.after_resolve(target_ip, packet, now),
            final(req_buf)@ == resolve_buf(old(self)@, target_ip, old(req_buf)@),
            old(self)@.wf() ==> final(self)@.wf(),
    {
        match self.cache.get(&target_ip) {
            Some(e) => {
                return Action::Forward { mac: e.mac, packet };
            },
            None => {},
        }
        let waiting: usize = match self.pending.get(&target_ip) {
            Some(p) => p.packets.len(),
            None => 0,
        };
        if waiting >= MAX_PENDING_PER_IP {
            return Action::Drop { packet };
        }
        let ghost before = self@;
        let mut entry = match self.pending.remove(&target_ip) {
            Some(p) => p,
            None => Pending { packets: Vec::new(), last_request_at: now, attempts: 0 },
        };
        let first_miss: bool = entry.packets.len() == 0;
        entry.packets.push(packet);
        let request_len: Option<usize> = if first_miss {
            entry.attempts = 1;
            entry.last_request_at = now;
            arp::build_request(req_buf, self.our_mac, self.our_ip, target_ip)
        } else {
            None
        };
        self.pending.insert(target_ip, entry);
        proof {
            let after = before.after_resolve(target_ip, packet, now);
            if before.queue(target_ip).len() == 0 {
                assert(seq![packet] =~= Seq::<P>::empty().push(packet));
                assert(entry@.packets =~= seq![packet]);
            }
            assert(self@.pending =~= after.pending);
        }
        Action::Queued { request_len }
    }

    /// Feed an inbound ARP packet. Learns the sender's mapping (regardless of
    /// opcode) and returns any packets that were waiting on that sender, paired
    /// with its now-known MAC.
    pub fn on_arp(&mut self, ip: Ipv4Addr, mac: MacAddr, now: Tick) -> (r: Option<
        (MacAddr, Vec<P>),
    >)
        ensures
            final(self)@ == old(self)@.after_arp(ip, mac, now),
            match r {
                None => old(self)@.queue(ip).len() == 0,
                Some((m, packets)) => m == mac && packets@.len() > 0 && packets@
                    == old(self)@.queue(ip),
            },
            old(self)@.wf() ==> final(self)@.wf(),
    {
        self.insert(ip, mac, now);
        let drained = self.pending.remove(&ip);
        assert(self@.pending =~= old(self)@.pending.remove(ip));
        match drained {
            Some(p) => if p.packets.len() > 0 {
                Some((mac, p.packets))
            } else {
                None
            },
            None => None,
        }
    }

    /// Drive retransmits and aging. For each pending target whose last request
    /// is at least [`REQUEST_INTERVAL_MS`] old, a fresh ARP request is built
    /// and handed back to transmit. Targets that have hit
    /// [`MAX_REQUEST_ATTEMPTS`] have their queued packets handed back (to free)
    /// and the pending entry removed. Cache entries older than [`CACHE_TTL_MS`]
    /// are evicted. The targets are visited in no particular order.
    ///
    /// Call once per main-loop iteration with the current time.
    pub fn sweep(&mut self, now: Tick) -> (r: Swept<P>)
        ensures
            final(self)@ == old(self)@.after_sweep(now),
            exists|order: Seq<Ipv4Addr>| #[trigger]
                sweeps(old(self)@, order, now, frames_of(r.requests@), r.dropped@),
            old(self)@.wf() ==> final(self)@.wf(),
    {
        let ghost v = self@;
        let targets = self.pending.keys();
        let ghost order = targets@;
        assert(self@.pending.dom() =~= self.pending@.dom());
        let mut requests: Vec<[u8; 42]> = Vec::new();
        let mut dropped: Vec<P> = Vec::new();
        let mut i: usize = 0;
        assert(frames_of(requests@) =~= v.sweep_requests(order, now, 0));
        while i < targets.len()
            invariant
                targets@ == order,
                table::lists(order, v.pending.dom()),
                i <= order.len(),
                self@.our_mac == v.our_mac,
                self@.our_ip == v.our_ip,
                self@.cache == v.cache,
                self@.resolved == v.resolved,
                forall|j: int|
                    #![trigger order[j]]
                    i <= j < order.len() ==> self@.pending.dom().contains(order[j])
                        && self@.pending[order[j]] == v.pending[order[j]],
                forall|j: int|
                    #![trigger order[j]]
                    0 <= j < i ==> {
                        &&& self@.pending.dom().contains(order[j]) <==> !v.pending[order[j]].expired(
                            now,
                        )
                        &&& !v.pending[order[j]].expired(now) ==> self@.pending[order[j]]
                            == v.pending[order[j]].swept(now)
                    },
                forall|ip: Ipv4Addr| #[trigger]
                    self@.pending.dom().contains(ip) ==> v.pending.dom().contains(ip),
                frames_of(requests@) == v.sweep_requests(order, now, i as nat),
                dropped@ == v.sweep_dropped(order, now, i as nat),
            decreases order.len() - i,
        {
            let target: Ipv4Addr = targets[i];
            let ghost before = self@;
            assert(self@.pending.dom().contains(order[i as int]));
            assert(v.pending.dom().contains(target));
            match self.pending.remove(&target) {
                Some(entry) => {
                    let mut p = entry;
                    assert(p@ == v.pending[target]);
                    if now.elapsed_since(p.last_request_at) < REQUEST_INTERVAL_MS {
                        // Not time to retry yet.
                        self.pending.insert(target, p);
                    } else if p.attempts >= MAX_REQUEST_ATTEMPTS {
                        // Give up: hand back the queued packets and drop the
                        // entry.
                        dropped.append(&mut p.packets);
                    } else {
                        p.attempts = p.attempts + 1;
                        p.last_request_at = now;
                        let mut req: [u8; 42] = [0u8; 42];
                        let ghost blank = req@;
                        let built = arp::build_request(
                            &mut req,
                            self.our_mac,
                            self.our_ip,
                            target,
                        );
                        assert(req@ =~= v.request(target));
                        if built.is_some() {
                            requests.push(req);
                        }
                        self.pending.insert(target, p);
                        assert(frames_of(requests@) =~= v.sweep_requests(
                            order,
                            now,
                            i as nat,
                        ).push(v.request(target)));
                    }
                },
                None => {
                    assert(false);
                },
            }
            proof {
                assert forall|j: int| #![trigger order[j]] 0 <= j < order.len() && j != i implies (
                self@.pending.dom().contains(order[j]) <==> before.pending.dom().contains(
                    order[j],
                )) && (self@.pending.dom().contains(order[j]) ==> self@.pending[order[j]]
                    == before.pending[order[j]]) by {
                    assert(order[j] != order[i as int]);
                }
                assert forall|ip: Ipv4Addr| #[trigger] self@.pending.dom().contains(ip) implies
                    v.pending.dom().contains(ip) by {
                    assert(ip == target || before.pending.dom().contains(ip));
                }
            }
            i = i + 1;
        }
        let ghost mid = self@;
        // Age out stale cache entries.
        let fresh = |_ip: &Ipv4Addr, e: &CachedEntry| -> (keep: bool)
            ensures keep == (now.since(e.learned_at) < CACHE_TTL_MS)
            { is_fresh(e, now) };
        self.cache.retain(fresh);
        assert(self.cache@ =~= v.swept_cache(now));
        // Clear out old entries from the resolved mac table.
        let macs = self.resolved.keys();
        let ghost res0 = self.resolved@;
        let mut j: usize = 0;
        while j < macs.len()
            invariant
                j <= macs@.len(),
                table::lists(macs@, res0.dom()),
                self@.our_mac == mid.our_mac,
                self@.our_ip == mid.our_ip,
                self@.pending == mid.pending,
                self.cache@ == v.swept_cache(now),
                forall|m: MacAddr| #[trigger]
                    self.resolved@.dom().contains(m) ==> res0.dom().contains(m)
                        && self.resolved@[m] == res0[m],
                forall|k: int|
                    #![trigger macs@[k]]
                    0 <= k < j ==> (self.resolved@.dom().contains(macs@[k])
                        <==> self.cache@.dom().contains(res0[macs@[k]])),
                forall|k: int|
                    #![trigger macs@[k]]
                    j <= k < macs@.len() ==> self.resolved@.dom().contains(macs@[k]),
            decreases macs@.len() - j,
        {
            let mac: MacAddr = macs[j];
            assert(self.resolved@.dom().contains(macs@[j as int]));
            let stale: bool = match self.resolved.get(&mac) {
                Some(ip) => !self.cache.contains(ip),
                None => false,
            };
            if stale {
                let _ = self.resolved.remove(&mac);
            }
            proof {
                assert forall|k: int| #![trigger macs@[k]] 0 <= k < macs@.len() && k
                    != j implies macs@[k] != mac by {
                    assert(macs@[k] != macs@[j as int]);
                }
            }
            j = j + 1;
        }
        proof {
            let after = v.after_sweep(now);
            assert(self@.pending =~= after.pending) by {
                assert forall|ip: Ipv4Addr| #[trigger] self@.pending.dom().contains(ip)
                    <==> after.pending.dom().contains(ip) by {
                    if v.pending.dom().contains(ip) {
                        assert(order.contains(ip));
                        let k = choose|k: int| 0 <= k < order.len() && order[k] == ip;
                        assert(order[k] == ip);
                    }
                }
                assert forall|ip: Ipv4Addr| #[trigger] self@.pending.dom().contains(ip) implies
                    self@.pending[ip] == after.pending[ip] by {
                    assert(order.contains(ip));
                    let k = choose|k: int| 0 <= k < order.len() && order[k] == ip;
                    assert(order[k] == ip);
                }
            }
            assert(self@.resolved =~= after.resolved) by {
                assert forall|m: MacAddr| #[trigger] self@.resolved.dom().contains(m)
                    <==> after.resolved.dom().contains(m) by {
                    if res0.dom().contains(m) {
                        assert(macs@.contains(m));
                        let k = choose|k: int| 0 <= k < macs@.len() && macs@[k] == m;
                        assert(macs@[k] == m);
                    }
                }
            }
        }
        let swept = Swept { requests, dropped };
        assert(sweeps(v, order, now, frames_of(swept.requests@), swept.dropped@));
        swept
    }

    /// The table as text: the cache, then the pending targets, each in no
    /// particular order.
    pub fn status(&self) -> (r: String)
        ensures
            exists|cached: Seq<Ipv4Addr>, waiting: Seq<Ipv4Addr>| #[trigger]
                status_lists(self@, cached, waiting, r@),
    {
        let mut s = String::new();
        push_text(&mut s, "ARP:\n  our_mac: ");
        push_text(&mut s, display_mac(&self.our_mac).as_str());
        push_text(&mut s, ", our_ip: ");
        push_text(&mut s, self.our_ip.to_string().as_str());
        push_text(&mut s, "\n  cache:\n");
        assert(s@ =~= status_header(self@));
        let cached = self.cache.keys();
        let mut i: usize = 0;
        assert(s@ =~= status_header(self@) + cache_lines(self@, cached@, 0));
        while i < cached.len()
            invariant
                i <= cached@.len(),
                table::lists(cached@, self@.cache.dom()),
                s@ == status_header(self@) + cache_lines(self@, cached@, i as nat),
            decreases cached@.len() - i,
        {
            let ip: Ipv4Addr = cached[i];
            assert(cached@.contains(cached@[i as int]));
            match self.cache.get(&ip) {
                Some(e) => {
                    push_cache_line(&mut s, ip, e);
                },
                None => {
                    assert(false);
                },
            }
            i = i + 1;
            assert(s@ =~= status_header(self@) + cache_lines(self@, cached@, i as nat));
        }
        let ghost upper = s@ + "  pending:\n"@;
        push_text(&mut s, "  pending:\n");
        let waiting = self.pending.keys();
        assert(self@.pending.dom() =~= self.pending@.dom());
        let mut j: usize = 0;
        assert(s@ =~= upper + pending_lines(self@, waiting@, 0));
        while j < waiting.len()
            invariant
                j <= waiting@.len(),
                table::lists(waiting@, self@.pending.dom()),
                s@ == upper + pending_lines(self@, waiting@, j as nat),
            decreases waiting@.len() - j,
        {
            let ip: Ipv4Addr = waiting[j];
            assert(waiting@.contains(waiting@[j as int]));
            assert(self@.pending.dom().contains(ip));
            match self.pending.get(&ip) {
                Some(p) => {
                    push_pending_line(&mut s, ip, p);
                },
                None => {
                    assert(false);
                },
            }
            j = j + 1;
            assert(s@ =~= upper + pending_lines(self@, waiting@, j as nat));
        }
        push_text(&mut s, "}\n");
        assert(status_lists(self@, cached@, waiting@, s@));
        s
    }
}

fn is_fresh(e: &CachedEntry, now: Tick) -> (r: bool)
    ensures
        r == (now.since(e.learned_at) < CACHE_TTL_MS),
{
    now.elapsed_since(e.learned_at) < CACHE_TTL_MS
}

/// An address that was learned, directly or from an ARP message, is forwarded
/// to at once, and its MAC leads back to it.
pub proof fn law_learned_address_is_forwarded_to<P>(
    v: NeighborView<P>,
    ip: Ipv4Addr,
    mac: MacAddr,
    now: Tick,
    packet: P,
    buf_len: nat,
)
    ensures
        resolve_action(v.learned(ip, mac, now), ip, packet, buf_len) == (Action::Forward {
            mac,
            packet,
        }),
        resolve_action(v.after_arp(ip, mac, now), ip, packet, buf_len) == (Action::Forward {
            mac,
            packet,
        }),
        v.learned(ip, mac, now).resolved.get(mac) == Some(ip),
        v.after_arp(ip, mac, now).resolved.get(mac) == Some(ip),
{
}

/// Packets for an address that is not known queue up behind one another, and
/// only the first of them asks for it: as long as there is room each is
/// queued, and the queue comes back whole and in order once the address shows
/// up.
pub proof fn law_queue_is_handed_back_in_order<P>(
    v: NeighborView<P>,
    ip: Ipv4Addr,
    packet: P,
    next: P,
    now: Tick,
    later: Tick,
    buf_len: nat,
)
    requires
        !v.cache.dom().contains(ip),
        v.queue(ip).len() < MAX_PENDING_PER_IP,
    ensures
        v.after_resolve(ip, packet, now).queue(ip) == v.queue(ip).push(packet),
        v.first_miss(ip) <==> v.queue(ip).len() == 0,
        !v.after_resolve(ip, packet, now).first_miss(ip),
        v.queue(ip).len() + 1 < MAX_PENDING_PER_IP ==> resolve_action(
            v.after_resolve(ip, packet, now),
            ip,
            next,
            buf_len,
        ) == (Action::<P>::Queued { request_len: None }),
        v.queue(ip).len() + 1 == MAX_PENDING_PER_IP ==> resolve_action(
            v.after_resolve(ip, packet, now),
            ip,
            next,
            buf_len,
        ) == (Action::Drop { packet: next }),
        forall|mac: MacAddr|
            (#[trigger] v.after_resolve(ip, packet, now).after_arp(ip, mac, later)).queue(ip)
                == Seq::<P>::empty(),
{
    assert(v.after_resolve(ip, packet, now).queue(ip) =~= v.queue(ip).push(packet));
}

/// What happens to one address leaves what waits for the others alone.
pub proof fn law_targets_are_independent<P>(
    v: NeighborView<P>,
    ip: Ipv4Addr,
    other: Ipv4Addr,
    packet: P,
    mac: MacAddr,
    now: Tick,
)
    requires
        ip != other,
    ensures
        v.after_resolve(ip, packet, now).queue(other) == v.queue(other),
        v.after_arp(ip, mac, now).queue(other) == v.queue(other),
        v.after_arp(ip, mac, now).cache.get(other) == v.cache.get(other),
{
}

/// A sweep either keeps what waits for an address as it is or gives all of it
/// up, and gives it up only after the last request went unanswered; every MAC
/// that can be looked up afterwards leads to an address in the cache.
pub proof fn law_sweep_keeps_or_drops_whole_queues<P>(
    v: NeighborView<P>,
    ip: Ipv4Addr,
    mac: MacAddr,
    now: Tick,
)
    requires
        v.wf(),
    ensures
        v.after_sweep(now).wf(),
        v.pending.dom().contains(ip) && v.pending[ip].expired(now) ==> v.after_sweep(now).queue(ip)
            == Seq::<P>::empty(),
        !(v.pending.dom().contains(ip) && v.pending[ip].expired(now)) ==> v.after_sweep(now).queue(
            ip,
        ) == v.queue(ip),
        v.after_sweep(now).resolved.dom().contains(mac) ==> v.after_sweep(
            now,
        ).cache.dom().contains(v.after_sweep(now).resolved[mac]),
{
}

/// No queue ever outgrows its cap, whatever is sent and learned: every
/// operation keeps the bounds.
pub proof fn law_queues_stay_bounded<P>(
    v: NeighborView<P>,
    ip: Ipv4Addr,
    packet: P,
    mac: MacAddr,
    now: Tick,
)
    requires
        v.wf(),
    ensures
        v.learned(ip, mac, now).wf(),
        v.after_resolve(ip, packet, now).wf(),
        v.after_arp(ip, mac, now).wf(),
{
}

/// Every packet that waits for an address whose time is up is among those a
/// sweep gives back, whatever order it visits the targets in.
pub proof fn law_expired_packets_are_given_back<P>(
    v: NeighborView<P>,
    order: Seq<Ipv4Addr>,
    now: Tick,
    ip: Ipv4Addr,
    packet: P,
)
    requires
        table::lists(order, v.pending.dom()),
        v.pending.dom().contains(ip),
        v.pending[ip].expired(now),
        v.pending[ip].packets.contains(packet),
    ensures
        v.sweep_dropped(order, now, order.len()).contains(packet),
{
    assert(order.contains(ip));
    let k = choose|k: int| 0 <= k < order.len() && order[k] == ip;
    lemma_dropped_contains(v, order, now, order.len(), k, packet);
}

/// A second sweep at the same time has nothing left to do.
pub proof fn law_second_sweep_is_idle<P>(v: NeighborView<P>, order: Seq<Ipv4Addr>, now: Tick, n: nat)
    requires
        table::lists(order, v.after_sweep(now).pending.dom()),
        n <= order.len(),
    ensures
        v.after_sweep(now).after_sweep(now) == v.after_sweep(now),
        v.after_sweep(now).sweep_requests(order, now, n) == Seq::<Seq<u8>>::empty(),
        v.after_sweep(now).sweep_dropped(order, now, n) == Seq::<P>::empty(),
    decreases n,
{
    let w = v.after_sweep(now);
    assert(w.after_sweep(now).cache =~= w.cache);
    assert(w.after_sweep(now).resolved =~= w.resolved);
    assert(w.after_sweep(now).pending =~= w.pending);
    if n > 0 {
        law_second_sweep_is_idle(v, order, now, (n - 1) as nat);
        assert(order.contains(order[n - 1]));
        assert(w.pending.dom().contains(order[n - 1]));
        assert(!w.pending[order[n - 1]].due(now));
    }
}

/// What becomes of a packet. One to an address in the cache is forwarded to the
/// MAC that is noted there. One to another address waits behind those that wait
/// already, but no more than four wait; the first to wait has a request sent.
/// Nothing else in the table changes.
pub proof fn law_what_becomes_of_a_packet<P>(
    v: NeighborView<P>,
    ip: Ipv4Addr,
    packet: P,
    now: Tick,
    buf_len: nat,
    other: Ipv4Addr,
)
    requires
        other != ip,
        v.wf(),
    ensures
        ({
            let after = v.after_resolve(ip, packet, now);
            let action = resolve_action(v, ip, packet, buf_len);
            let waiting = if v.pending.dom().contains(ip) {
                v.pending[ip].packets
            } else {
                Seq::empty()
            };
            &&& after.our_mac == v.our_mac && after.our_ip == v.our_ip
            &&& after.cache == v.cache && after.resolved == v.resolved
            &&& after.pending.get(other) == v.pending.get(other)
            &&& v.queue(ip) == waiting
            &&& v.cache.dom().contains(ip) ==> action == (Action::Forward {
                mac: v.cache[ip].mac,
                packet,
            }) && after == v
            &&& !v.cache.dom().contains(ip) && waiting.len() >= 4 ==> action == (Action::Drop {
                packet,
            }) && after == v
            &&& !v.cache.dom().contains(ip) && waiting.len() < 4 ==> {
                &&& after.pending.dom().contains(ip)
                &&& after.pending[ip].packets == waiting.push(packet)
                &&& waiting.len() == 0 ==> {
                    &&& after.pending[ip].attempts == 1
                    &&& after.pending[ip].last_request_at == now
                    &&& action == Action::<P>::Queued {
                        request_len: if buf_len >= 42 {
                            Some(42usize)
                        } else {
                            None
                        },
                    }
                }
                &&& waiting.len() > 0 ==> {
                    &&& after.pending[ip].attempts == v.pending[ip].attempts
                    &&& after.pending[ip].last_request_at == v.pending[ip].last_request_at
                    &&& action == (Action::<P>::Queued { request_len: None })
                }
            }
        }),
{
}

/// A request asks everyone for the address, in the name of the table's own MAC
/// and address.
pub proof fn law_request_bytes<P>(v: NeighborView<P>, ip: Ipv4Addr, buf: Seq<u8>)
    ensures
        anatomy::arp_bytes(
            v.request(ip),
            1,
            [255u8, 255, 255, 255, 255, 255],
            v.our_mac,
            v.our_ip,
            [0u8, 0, 0, 0, 0, 0],
            ip,
        ),
        buf.len() == 42 && !v.cache.dom().contains(ip) && v.queue(ip).len() == 0 ==> resolve_buf(
            v,
            ip,
            buf,
        ) == v.request(ip),
        v.cache.dom().contains(ip) || v.queue(ip).len() > 0 ==> resolve_buf(v, ip, buf) == buf,
{
    anatomy::law_arp_frame_bytes(
        1,
        ethernet::BROADCAST,
        v.our_mac,
        v.our_ip,
        arp::UNKNOWN_HARDWARE_ADDR,
        ip,
    );
    assert(ethernet::BROADCAST =~= [255u8, 255, 255, 255, 255, 255]);
    assert(arp::UNKNOWN_HARDWARE_ADDR =~= [0u8, 0, 0, 0, 0, 0]);
    assert(wire::splice(buf, 0, v.request(ip)) =~= v.request(ip) || buf.len() != 42);
}

/// What is learned: the address is at the MAC, as of now, and the MAC has the
/// address. An ARP message also ends the wait for the address. What is known of
/// other addresses, and what waits for them, stays.
pub proof fn law_what_is_learned<P>(
    v: NeighborView<P>,
    ip: Ipv4Addr,
    mac: MacAddr,
    now: Tick,
    other: Ipv4Addr,
    other_mac: MacAddr,
)
    requires
        other != ip,
        other_mac != mac,
    ensures
        ({
            let told = v.learned(ip, mac, now);
            let seen = v.after_arp(ip, mac, now);
            &&& told.cache.get(ip) == Some(CachedEntry { mac, learned_at: now })
            &&& told.cache.get(other) == v.cache.get(other)
            &&& told.resolved.get(mac) == Some(ip)
            &&& told.resolved.get(other_mac) == v.resolved.get(other_mac)
            &&& told.pending == v.pending
            &&& seen.cache == told.cache && seen.resolved == told.resolved
            &&& seen.pending.get(ip) is None
            &&& seen.pending.get(other) == v.pending.get(other)
            &&& told.our_mac == v.our_mac && told.our_ip == v.our_ip
            &&& seen.our_mac == v.our_mac && seen.our_ip == v.our_ip
        }),
{
}

/// What a sweep does, in numbers. What was learned less than five minutes ago
/// stays in the cache, and only that, and a MAC leads to what stays. A target
/// that was asked for less than a second ago is left alone; after that it is
/// asked for again, up to three times in all, and then given up.
pub proof fn law_what_a_sweep_does<P>(v: NeighborView<P>, now: Tick, ip: Ipv4Addr, mac: MacAddr)
    requires
        v.cache.dom().contains(ip) ==> v.cache[ip].learned_at.0 <= now.0,
        v.pending.dom().contains(ip) ==> v.pending[ip].last_request_at.0 <= now.0,
        v.wf(),
    ensures
        ({
            let after = v.after_sweep(now);
            let p = v.pending[ip];
            let waited = now.0 - p.last_request_at.0;
            &&& after.our_mac == v.our_mac && after.our_ip == v.our_ip
            &&& after.cache.get(ip) == if v.cache.dom().contains(ip) && now.0
                - v.cache[ip].learned_at.0 < 300_000 {
                Some(v.cache[ip])
            } else {
                None
            }
            &&& after.resolved.get(mac) == if v.resolved.dom().contains(mac)
                && after.cache.dom().contains(v.resolved[mac]) {
                Some(v.resolved[mac])
            } else {
                None
            }
            &&& !v.pending.dom().contains(ip) ==> after.pending.get(ip) is None
            &&& v.pending.dom().contains(ip) && waited < 1000 ==> after.pending.get(ip) == Some(p)
            &&& v.pending.dom().contains(ip) && waited >= 1000 && p.attempts < 3 ==> {
                &&& after.pending.get(ip) is Some
                &&& after.pending[ip].packets == p.packets
                &&& after.pending[ip].attempts == p.attempts + 1
                &&& after.pending[ip].last_request_at == now
            }
            &&& v.pending.dom().contains(ip) && waited >= 1000 && p.attempts >= 3
                ==> after.pending.get(ip) is None
        }),
{
}

/// What a sweep sends and gives up, target by target: a request for each that is
/// asked for again, and the packets of each that is given up.
pub proof fn law_what_a_sweep_sends<P>(
    v: NeighborView<P>,
    order: Seq<Ipv4Addr>,
    now: Tick,
    n: nat,
)
    requires
        v.pending[order[n as int]].last_request_at.0 <= now.0,
    ensures
        ({
            let ip = order[n as int];
            let p = v.pending[ip];
            let waited = now.0 - p.last_request_at.0;
            let (r0, r1) = (
                v.sweep_requests(order, now, n),
                v.sweep_requests(order, now, (n + 1) as nat),
            );
            let (d0, d1) = (
                v.sweep_dropped(order, now, n),
                v.sweep_dropped(order, now, (n + 1) as nat),
            );
            &&& v.sweep_requests(order, now, 0).len() == 0
            &&& v.sweep_dropped(order, now, 0).len() == 0
            &&& waited >= 1000 && p.attempts < 3 ==> r1 == r0.push(v.request(ip)) && d1 == d0
            &&& waited >= 1000 && p.attempts >= 3 ==> r1 == r0 && d1 == d0 + p.packets
            &&& waited < 1000 ==> r1 == r0 && d1 == d0
        }),
{
}

impl<P> PendingView<P> {
    /// The same entry with each packet replaced by what `f` makes of it.
    pub open spec fn map_packets<Q>(self, f: spec_fn(P) -> Q) -> PendingView<Q> {
        PendingView {
            packets: self.packets.map_values(f),
            last_request_at: self.last_request_at,
            attempts: self.attempts,
        }
    }
}

impl<P> NeighborView<P> {
    /// The same table with each waiting packet replaced by what `f` makes of
    /// it.
    pub open spec fn map_packets<Q>(self, f: spec_fn(P) -> Q) -> NeighborView<Q> {
        NeighborView {
            our_mac: self.our_mac,
            our_ip: self.our_ip,
            resolved: self.resolved,
            cache: self.cache,
            pending: Map::new(
                |ip: Ipv4Addr| self.pending.dom().contains(ip),
                |ip: Ipv4Addr| self.pending[ip].map_packets(f),
            ),
        }
    }

    /// What a table does does not depend on what the packets are.
    pub proof fn lemma_map_packets<Q>(
        self,
        f: spec_fn(P) -> Q,
        ip: Ipv4Addr,
        packet: P,
        mac: MacAddr,
        now: Tick,
    )
        ensures
            self.map_packets(f).queue(ip) == self.queue(ip).map_values(f),
            self.after_resolve(ip, packet, now).map_packets(f) == self.map_packets(
                f,
            ).after_resolve(ip, f(packet), now),
            self.after_arp(ip, mac, now).map_packets(f) == self.map_packets(f).after_arp(
                ip,
                mac,
                now,
            ),
            self.after_sweep(now).map_packets(f) == self.map_packets(f).after_sweep(now),
            self.map_packets(f).wf() == self.wf(),
    {
        let m = self.map_packets(f);
        assert(m.queue(ip) =~= self.queue(ip).map_values(f));
        let a = self.after_resolve(ip, packet, now).map_packets(f);
        let b = m.after_resolve(ip, f(packet), now);
        assert(seq![packet].map_values(f) =~= seq![f(packet)]);
        assert(self.queue(ip).push(packet).map_values(f) =~= self.queue(ip).map_values(f).push(
            f(packet),
        ));
        assert(a.pending =~= b.pending);
        assert(self.after_arp(ip, mac, now).map_packets(f).pending =~= m.after_arp(
            ip,
            mac,
            now,
        ).pending);
        let c = self.after_sweep(now).map_packets(f);
        let d = m.after_sweep(now);
        assert(c.cache =~= d.cache);
        assert(c.resolved =~= d.resolved);
        assert(c.pending =~= d.pending);
        if self.wf() {
            assert forall|x: Ipv4Addr| #[trigger] m.pending.dom().contains(x) implies 1
                <= m.pending[x].packets.len() <= MAX_PENDING_PER_IP && 1 <= m.pending[x].attempts
                <= MAX_REQUEST_ATTEMPTS by {
                assert(self.pending.dom().contains(x));
            }
        }
        if m.wf() {
            assert forall|x: Ipv4Addr| #[trigger] self.pending.dom().contains(x) implies 1
                <= self.pending[x].packets.len() <= MAX_PENDING_PER_IP && 1
                <= self.pending[x].attempts <= MAX_REQUEST_ATTEMPTS by {
                assert(m.pending.dom().contains(x));
            }
        }
    }

    /// The requests that a sweep sends do not depend on what the packets are.
    pub proof fn lemma_map_requests<Q>(
        self,
        f: spec_fn(P) -> Q,
        order: Seq<Ipv4Addr>,
        now: Tick,
        n: nat,
    )
        requires
            n <= order.len(),
            table::lists(order, self.pending.dom()),
        ensures
            self.map_packets(f).sweep_requests(order, now, n) == self.sweep_requests(
                order,
                now,
                n,
            ),
            table::lists(order, self.map_packets(f).pending.dom()),
        decreases n,
    {
        assert(self.map_packets(f).pending.dom() =~= self.pending.dom());
        if n > 0 {
            self.lemma_map_requests(f, order, now, (n - 1) as nat);
            assert(order.contains(order[n - 1]));
            assert(self.pending.dom().contains(order[n - 1]));
        }
    }
}

proof fn lemma_dropped_contains<P>(
    v: NeighborView<P>,
    order: Seq<Ipv4Addr>,
    now: Tick,
    n: nat,
    k: int,
    packet: P,
)
    requires
        0 <= k < n <= order.len(),
        v.pending[order[k]].expired(now),
        v.pending[order[k]].packets.contains(packet),
    ensures
        v.sweep_dropped(order, now, n).contains(packet),
    decreases n,
{
    let rest = v.sweep_dropped(order, now, (n - 1) as nat);
    let all = v.sweep_dropped(order, now, n);
    if k == n - 1 {
        let q = v.pending[order[k]].packets;
        let i = choose|i: int| 0 <= i < q.len() && q[i] == packet;
        assert(all[rest.len() + i] == packet);
    } else {
        lemma_dropped_contains(v, order, now, (n - 1) as nat, k, packet);
        let i = choose|i: int| 0 <= i < rest.len() && rest[i] == packet;
        assert(all[i] == packet);
    }
}

/// What can happen to a neighbor table.
pub enum NeighborEvent<P> {
    /// The interface's own IP changed.
    OurIp(Ipv4Addr),
    /// A mapping was inserted.
    Learned { ip: Ipv4Addr, mac: MacAddr, now: Tick },
    /// A packet was to be sent to `ip`.
    Resolved { ip: Ipv4Addr, packet: P, now: Tick },
    /// An ARP message showed that `ip` is at `mac`.
    Arp { ip: Ipv4Addr, mac: MacAddr, now: Tick },
    /// Targets were asked for again, and what is too old was dropped.
    Swept { now: Tick },
}

impl<P> Evolving for NeighborView<P> {
    type Event = NeighborEvent<P>;

    open spec fn evolve(self, e: NeighborEvent<P>) -> Self {
        match e {
            NeighborEvent::OurIp(ip) => NeighborView { our_ip: ip, ..self },
            NeighborEvent::Learned { ip, mac, now } => self.learned(ip, mac, now),
            NeighborEvent::Resolved { ip, packet, now } => self.after_resolve(ip, packet, now),
            NeighborEvent::Arp { ip, mac, now } => self.after_arp(ip, mac, now),
            NeighborEvent::Swept { now } => self.after_sweep(now),
        }
    }
}

/// Whatever has happened to a table, it asks in the name of the same MAC, and
/// its queues stay within their bounds.
pub proof fn law_reached_table_keeps_its_mac<P>(start: NeighborView<P>, now: NeighborView<P>)
    requires
        start.wf(),
        history::reached(start, now),
    ensures
        now.wf(),
        now.our_mac == start.our_mac,
{
    let log = choose|log: Seq<NeighborEvent<P>>| #[trigger] history::replayed(start, log) == now;
    lemma_replayed_table_keeps_its_mac(start, log);
}

proof fn lemma_replayed_table_keeps_its_mac<P>(
    start: NeighborView<P>,
    log: Seq<NeighborEvent<P>>,
)
    requires
        start.wf(),
    ensures
        history::replayed(start, log).wf(),
        history::replayed(start, log).our_mac == start.our_mac,
    decreases log.len(),
{
    if log.len() > 0 {
        let before = history::replayed(start, log.drop_last());
        lemma_replayed_table_keeps_its_mac(start, log.drop_last());
        match log.last() {
            NeighborEvent::Resolved { ip, packet, now } => {
                law_queues_stay_bounded(before, ip, packet, before.our_mac, now);
            },
            NeighborEvent::Arp { ip, mac, now } => {
                law_queues_stay_bounded(before, ip, arbitrary(), mac, now);
            },
            NeighborEvent::Swept { now } => {
                law_queues_stay_bounded(
                    before,
                    Ipv4Addr { bits: 0 },
                    arbitrary(),
                    before.our_mac,
                    now,
                );
            },
            _ => {},
        }
    }
}

impl<P> Guarded for NeighborTable<P> {
    open spec fn guarded(self, origin: Self) -> bool {
        self@.wf() && history::reached(origin@, self@)
    }
}

/// A thread-safe handle to a [`NeighborTable`] shared across workers. Each
/// clone is another handle to the same table; the inner spinlock serializes
/// every operation.
///
/// What a call finds in the table is up to the other handles as well: the
/// contracts say what each call does with whatever it found. That is always
/// what the operations of the handles have made of the table that the first
/// handle was made with.
pub struct SharedNeighbor<P> {
    inner: Arc<SpinLock<NeighborTable<P>>>,
}

impl<P> Clone for SharedNeighbor<P> {
    /// Another handle to the same table.
    fn clone(&self) -> (r: Self)
        ensures
            r == *self,
    {
        SharedNeighbor { inner: self.inner.clone() }
    }
}

impl<P> SharedNeighbor<P> {
    /// The table that the handle was made with.
    pub closed spec fn made_with(self) -> NeighborView<P> {
        self.inner.made_with()@
    }

    /// A call on this handle can find the table `t`.
    pub open spec fn may_find(self, t: NeighborView<P>) -> bool {
        t.wf() && history::reached(self.made_with(), t)
    }

    /// A handle to a new, empty table.
    pub fn new(our_mac: MacAddr, our_ip: Ipv4Addr) -> (r: Self)
        ensures
            r.made_with() == fresh::<P>(our_mac, our_ip),
    {
        let table = NeighborTable::new(our_mac, our_ip);
        proof {
            history::lemma_reached_itself(table@);
        }
        SharedNeighbor { inner: Arc::new(SpinLock::new(table)) }
    }

    /// Update the interface's own IP.
    pub fn set_our_ip(&self, ip: Ipv4Addr) {
        let mut guard = self.inner.lock();
        proof {
            history::lemma_reached_next(
                self.made_with(),
                guard.value()@,
                NeighborEvent::OurIp(ip),
            );
        }
        guard.as_mut().set_our_ip(ip);
        guard.unlock();
    }

    /// Number of addresses in the cache.
    pub fn known(&self) -> (r: usize)
        ensures
            exists|found: NeighborView<P>| #[trigger]
                self.may_find(found) && found.cache.dom().finite() && r == found.cache.len(),
    {
        let guard = self.inner.lock();
        let r: usize = guard.as_ref().known();
        assert(self.may_find(guard.value()@));
        guard.unlock();
        r
    }

    /// Number of addresses that packets wait for.
    pub fn pending_targets(&self) -> (r: usize)
        ensures
            exists|found: NeighborView<P>| #[trigger]
                self.may_find(found) && found.pending.dom().finite() && r
                    == found.pending.len(),
    {
        let guard = self.inner.lock();
        let r: usize = guard.as_ref().pending_targets();
        assert(self.may_find(guard.value()@));
        guard.unlock();
        r
    }

    /// Look up a MAC without touching the pending queue.
    pub fn lookup(&self, ip: Ipv4Addr) -> (r: Option<MacAddr>)
        ensures
            exists|found: NeighborView<P>| #[trigger]
                self.may_find(found) && r == if found.cache.dom().contains(ip) {
                    Some(found.cache[ip].mac)
                } else {
                    None
                },
    {
        let guard = self.inner.lock();
        let r = guard.as_ref().lookup(ip);
        assert(self.may_find(guard.value()@));
        guard.unlock();
        r
    }

    /// Reverse lookup an IP from a MAC address without touching the pending
    /// queue.
    pub fn reverse_lookup(&self, mac: MacAddr) -> (r: Option<Ipv4Addr>)
        ensures
            exists|found: NeighborView<P>| #[trigger]
                self.may_find(found) && r == found.resolved.get(mac),
    {
        let guard = self.inner.lock();
        let r = guard.as_ref().reverse_lookup(mac);
        assert(self.may_find(guard.value()@));
        guard.unlock();
        r
    }

    /// Insert a mapping directly (e.g. one learned from a DHCP exchange).
    pub fn insert(&self, ip: Ipv4Addr, mac: MacAddr, now: Tick) {
        let mut guard = self.inner.lock();
        proof {
            history::lemma_reached_next(
                self.made_with(),
                guard.value()@,
                NeighborEvent::Learned { ip, mac, now },
            );
        }
        guard.as_mut().insert(ip, mac, now);
        guard.unlock();
    }

    /// Try to resolve `target_ip` for `packet`, as [`NeighborTable::resolve`]
    /// does.
    pub fn resolve(
        &self,
        target_ip: Ipv4Addr,
        packet: P,
        req_buf: &mut [u8],
        now: Tick,
    ) -> (r: Action<P>)
        ensures
            exists|found: NeighborView<P>| #[trigger]
                self.may_find(found) && r == resolve_action(
                    found,
                    target_ip,
                    packet,
                    old(req_buf)@.len(),
                ) && final(req_buf)@ == resolve_buf(found, target_ip, old(req_buf)@),
    {
        let mut guard = self.inner.lock();
        proof {
            assert(self.may_find(guard.value()@));
            history::lemma_reached_next(
                self.made_with(),
                guard.value()@,
                NeighborEvent::Resolved { ip: target_ip, packet, now },
            );
        }
        let r = guard.as_mut().resolve(target_ip, packet, req_buf, now);
        guard.unlock();
        r
    }

    /// Feed an inbound ARP packet, as [`NeighborTable::on_arp`] does.
    pub fn on_arp(&self, ip: Ipv4Addr, mac: MacAddr, now: Tick) -> (r: Option<(MacAddr, Vec<P>)>)
        ensures
            exists|found: NeighborView<P>| #[trigger]
                self.may_find(found) && match r {
                    None => found.queue(ip).len() == 0,
                    Some((m, packets)) => m == mac && packets@.len() > 0 && packets@
                        == found.queue(ip),
                },
    {
        let mut guard = self.inner.lock();
        proof {
            assert(self.may_find(guard.value()@));
            history::lemma_reached_next(
                self.made_with(),
                guard.value()@,
                NeighborEvent::Arp { ip, mac, now },
            );
        }
        let r = guard.as_mut().on_arp(ip, mac, now);
        guard.unlock();
        r
    }

    /// Drive retransmits and aging, as [`NeighborTable::sweep`] does.
    pub fn sweep(&self, now: Tick) -> (r: Swept<P>)
        ensures
            exists|found: NeighborView<P>, order: Seq<Ipv4Addr>| #[trigger]
                sweeps(found, order, now, frames_of(r.requests@), r.dropped@) && self.may_find(
                    found,
                ),
    {
        let mut guard = self.inner.lock();
        let ghost found = guard.value()@;
        proof {
            history::lemma_reached_next(self.made_with(), found, NeighborEvent::Swept { now });
        }
        let r = guard.as_mut().sweep(now);
        proof {
            let order = choose|order: Seq<Ipv4Addr>| #[trigger]
                sweeps(found, order, now, frames_of(r.requests@), r.dropped@);
            assert(sweeps(found, order, now, frames_of(r.requests@), r.dropped@));
        }
        guard.unlock();
        r
    }

    /// The table as text, as [`NeighborTable::status`] gives it.
    pub fn status(&self) -> (r: String)
        ensures
            exists|found: NeighborView<P>, cached: Seq<Ipv4Addr>, waiting: Seq<Ipv4Addr>|
                #[trigger]
                status_lists(found, cached, waiting, r@) && self.may_find(found),
    {
        let guard = self.inner.lock();
        let r = guard.as_ref().status();
        let ghost found = guard.value()@;
        proof {
            let (cached, waiting) = choose|cached: Seq<Ipv4Addr>, waiting: Seq<Ipv4Addr>|
                #[trigger]
                status_lists(found, cached, waiting, r@);
            assert(status_lists(found, cached, waiting, r@));
        }
        guard.unlock();
        r
    }
}

} // verus!
