//! Stateful TCP connection tracking: the firewall layer that complements the
//! address translation of [`crate::router::translation`].
//!
//! Implements the TCP state machine from **RFC 9293 3.3.2** (the eleven-state
//! FSM that supersedes RFC 793). Both endpoints of each TCP flow are modelled
//! because the router is a passive observer: every packet is sent by one peer
//! and received by the other, and each side has its own state. Egress packets
//! advance the internal peer via the *send* transitions and the external peer
//! via the *receive* transitions; ingress packets do the opposite.
//!
//! NAT is endpoint-independent (full-cone), so a binding tells how to *rewrite*
//! a return packet but not whether to *accept* it. Conntrack adds the state
//! needed for "this packet belongs to a flow we opened" checks.

use crate::net::addr::Ipv4Addr;
use crate::net::anatomy;
use crate::net::tcp::flag;
use crate::router::tick::Tick;
use crate::sync::history;
use crate::sync::history::Evolving;
use crate::sync::spinlock::{Guarded, SpinLock};
use crate::table;
use crate::table::{Key, Table};
use crate::text;
use crate::text::{push_decimal, push_text};
use std::sync::Arc;
use vstd::prelude::*;

verus! {

/// Key of a TCP flow. "Internal" / "external" names the side of the NAT:
/// `int_*` is the LAN host, `ext_*` is the public peer, independent of which
/// direction a given packet is travelling.
///
/// Protocol is implicit (TCP) since only TCP flows live here.
#[derive(Clone, Copy, PartialEq, Eq, Structural, Hash, Debug)]
pub struct FlowKey {
    pub int_ip: Ipv4Addr,
    pub int_port: u16,
    pub ext_ip: Ipv4Addr,
    pub ext_port: u16,
}

impl Key for FlowKey {
    open spec fn code(self) -> u128 {
        (self.int_ip.bits * 0x1_0000_0000_0000_0000 + self.int_port * 0x1_0000_0000_0000
            + self.ext_ip.bits * 0x1_0000 + self.ext_port) as u128
    }

    proof fn lemma_code_injective(self, other: Self) {
        lemma_code_parts(self);
        lemma_code_parts(other);
    }

    fn encode(&self) -> (r: u128) {
        self.int_ip.bits as u128 * 0x1_0000_0000_0000_0000 + self.int_port as u128
            * 0x1_0000_0000_0000 + self.ext_ip.bits as u128 * 0x1_0000 + self.ext_port as u128
    }
}

/// The fields of a key, taken apart from its code.
proof fn lemma_code_parts(k: FlowKey)
    ensures
        ({
            let n = k.code() as int;
            let n1 = n / 0x1_0000;
            let n2 = n1 / 0x1_0000_0000;
            &&& n % 0x1_0000 == k.ext_port
            &&& n1 % 0x1_0000_0000 == k.ext_ip.bits
            &&& n2 % 0x1_0000 == k.int_port
            &&& n2 / 0x1_0000 == k.int_ip.bits
        }),
{
    let n = k.code() as int;
    let n2 = k.int_ip.bits * 0x1_0000 + k.int_port;
    let n1 = n2 * 0x1_0000_0000 + k.ext_ip.bits;
    assert(n == n1 * 0x1_0000 + k.ext_port);
    vstd::arithmetic::div_mod::lemma_fundamental_div_mod_converse(
        n,
        0x1_0000,
        n1,
        k.ext_port as int,
    );
    vstd::arithmetic::div_mod::lemma_fundamental_div_mod_converse(
        n1,
        0x1_0000_0000,
        n2,
        k.ext_ip.bits as int,
    );
    vstd::arithmetic::div_mod::lemma_fundamental_div_mod_converse(
        n2,
        0x1_0000,
        k.int_ip.bits as int,
        k.int_port as int,
    );
}

/// The eleven TCP connection states from **RFC 9293 3.3.2**. Both endpoints'
/// states are modelled independently.
#[derive(Clone, Copy, PartialEq, Eq, Structural, Debug)]
pub enum TcpState {
    Closed,
    Listen,
    SynSent,
    SynReceived,
    Established,
    FinWait1,
    FinWait2,
    CloseWait,
    Closing,
    LastAck,
    TimeWait,
}

impl TcpState {
    /// Idle timeout of the state in milliseconds.
    pub open spec fn timeout(self) -> u64 {
        match self {
            TcpState::Closed => 10_000,
            TcpState::LastAck => 30_000,
            TcpState::TimeWait => 120_000,
            TcpState::Established => 86_400_000,
            _ => 60_000,
        }
    }

    /// Idle timeout, in milliseconds, before [`ConnTrack::sweep`] evicts a
    /// flow sitting in this state:
    ///
    /// - `Established` is long (24 h) because real flows are refreshed on
    ///   every packet.
    /// - `TimeWait` is 2*MSL (120 s, the conventional MSL of 60 s).
    /// - SYN-side states use 60 s: enough for OS retransmits, short enough
    ///   that half-open scans don't pin memory.
    /// - `Closed` is short (10 s) so that the entry sticks just long enough to
    ///   absorb final TCP noise.
    pub fn idle_timeout_ms(self) -> (r: u64)
        ensures
            r == self.timeout(),
    {
        match self {
            TcpState::Closed => 10_000,
            TcpState::Listen => 60_000,
            TcpState::SynSent | TcpState::SynReceived => 60_000,
            TcpState::Established => 24 * 60 * 60_000,
            TcpState::FinWait1 | TcpState::FinWait2 => 60_000,
            TcpState::CloseWait => 60_000,
            TcpState::Closing => 60_000,
            TcpState::LastAck => 30_000,
            TcpState::TimeWait => 120_000,
        }
    }

    /// The name of the state.
    pub open spec fn spec_name(self) -> Seq<char> {
        match self {
            TcpState::Closed => "Closed"@,
            TcpState::Listen => "Listen"@,
            TcpState::SynSent => "SynSent"@,
            TcpState::SynReceived => "SynReceived"@,
            TcpState::Established => "Established"@,
            TcpState::FinWait1 => "FinWait1"@,
            TcpState::FinWait2 => "FinWait2"@,
            TcpState::CloseWait => "CloseWait"@,
            TcpState::Closing => "Closing"@,
            TcpState::LastAck => "LastAck"@,
            TcpState::TimeWait => "TimeWait"@,
        }
    }

    fn name(self) -> (r: &'static str)
        ensures
            r@ == self.spec_name(),
    {
        match self {
            TcpState::Closed => "Closed",
            TcpState::Listen => "Listen",
            TcpState::SynSent => "SynSent",
            TcpState::SynReceived => "SynReceived",
            TcpState::Established => "Established",
            TcpState::FinWait1 => "FinWait1",
            TcpState::FinWait2 => "FinWait2",
            TcpState::CloseWait => "CloseWait",
            TcpState::Closing => "Closing",
            TcpState::LastAck => "LastAck",
            TcpState::TimeWait => "TimeWait",
        }
    }
}

/// Per-flow state: both peers' RFC 9293 states plus a `last_seen` for aging.
#[derive(Clone, Copy, PartialEq, Eq, Structural, Debug)]
pub struct Conn {
    /// State of the LAN-side endpoint.
    pub internal: TcpState,
    /// State of the WAN-side endpoint.
    pub external: TcpState,
    pub last_seen: Tick,
}

impl Conn {
    /// Both endpoints are closed.
    pub open spec fn is_fully_closed(self) -> bool {
        self.internal == TcpState::Closed && self.external == TcpState::Closed
    }

    /// The longer of the two peers' timeouts.
    pub open spec fn timeout(self) -> u64 {
        if self.internal.timeout() >= self.external.timeout() {
            self.internal.timeout()
        } else {
            self.external.timeout()
        }
    }

    /// The flow has not been idle for its timeout at time `now`.
    pub open spec fn alive(self, now: Tick) -> bool {
        now.since(self.last_seen) < self.timeout()
    }

    /// A flow is fully closed once both endpoints reach `Closed`. These are
    /// reaped immediately rather than waiting for the idle sweep, since
    /// post-close packets are either retransmits we shouldn't forward or new
    /// connection attempts that need to start from scratch.
    fn fully_closed(&self) -> (r: bool)
        ensures
            r == self.is_fully_closed(),
    {
        self.internal == TcpState::Closed && self.external == TcpState::Closed
    }

    /// The active timeout for this flow is the *longer* of either peer's
    /// per-state timeout. The flow is kept alive as long as the most-patient
    /// endpoint expects it to be; otherwise normal half-closed traffic would
    /// get evicted before the closing app drains its buffer.
    fn idle_timeout_ms(&self) -> (r: u64)
        ensures
            r == self.timeout(),
    {
        let a: u64 = self.internal.idle_timeout_ms();
        let b: u64 = self.external.idle_timeout_ms();
        if a >= b {
            a
        } else {
            b
        }
    }
}

impl Conn {
    /// The flow has not been idle for its timeout at time `now`.
    fn is_alive(&self, now: Tick) -> (r: bool)
        ensures
            r == self.alive(now),
    {
        now.elapsed_since(self.last_seen) < self.idle_timeout_ms()
    }
}

/// A segment with these flags carries a SYN, an ACK, a FIN, a RST.
pub open spec fn has_syn(flags: u8) -> bool {
    flags & flag::SYN != 0
}

pub open spec fn has_ack(flags: u8) -> bool {
    flags & flag::ACK != 0
}

pub open spec fn has_fin(flags: u8) -> bool {
    flags & flag::FIN != 0
}

pub open spec fn has_rst(flags: u8) -> bool {
    flags & flag::RST != 0
}

/// The state of a peer after it sends a segment with these flags: a RST closes,
/// a bare SYN opens actively, a SYN+ACK answers an open, a FIN starts or
/// finishes the close; anything else leaves the sender where it is.
pub open spec fn sent(state: TcpState, flags: u8) -> TcpState {
    if has_rst(flags) {
        TcpState::Closed
    } else {
        match state {
            TcpState::Closed => if has_syn(flags) && !has_ack(flags) {
                TcpState::SynSent
            } else {
                state
            },
            TcpState::Listen => if has_syn(flags) && has_ack(flags) {
                TcpState::SynReceived
            } else {
                state
            },
            TcpState::Established => if has_fin(flags) {
                TcpState::FinWait1
            } else {
                state
            },
            TcpState::CloseWait => if has_fin(flags) {
                TcpState::LastAck
            } else {
                state
            },
            _ => state,
        }
    }
}

/// The state of a peer after it receives a segment with these flags.
pub open spec fn received(state: TcpState, flags: u8) -> TcpState {
    if has_rst(flags) {
        TcpState::Closed
    } else {
        match state {
            TcpState::Closed | TcpState::Listen => if has_syn(flags) && !has_ack(flags) {
                TcpState::SynReceived
            } else {
                state
            },
            TcpState::SynSent => if has_syn(flags) && has_ack(flags) {
                TcpState::Established
            } else if has_syn(flags) {
                TcpState::SynReceived
            } else {
                state
            },
            TcpState::SynReceived => if has_ack(flags) && !has_fin(flags) {
                TcpState::Established
            } else {
                state
            },
            TcpState::Established => if has_fin(flags) {
                TcpState::CloseWait
            } else {
                state
            },
            TcpState::FinWait1 => if has_fin(flags) && has_ack(flags) {
                TcpState::TimeWait
            } else if has_fin(flags) {
                TcpState::Closing
            } else if has_ack(flags) {
                TcpState::FinWait2
            } else {
                state
            },
            TcpState::FinWait2 => if has_fin(flags) {
                TcpState::TimeWait
            } else {
                state
            },
            TcpState::Closing => if has_ack(flags) {
                TcpState::TimeWait
            } else {
                state
            },
            TcpState::LastAck => if has_ack(flags) {
                TcpState::Closed
            } else {
                state
            },
            TcpState::CloseWait | TcpState::TimeWait => state,
        }
    }
}

/// Advance the state of the peer that *sent* a packet with these flags, per
/// the RFC 9293 FSM. Many state transitions in the diagram are driven by the
/// application (open, close, abort) rather than by the wire; for those the
/// state is returned unchanged.
pub fn transition_on_send(state: TcpState, flags: u8) -> (r: TcpState)
    ensures
        r == sent(state, flags),
{
    let syn: bool = flags & flag::SYN != 0;
    let ack: bool = flags & flag::ACK != 0;
    let fin: bool = flags & flag::FIN != 0;
    let rst: bool = flags & flag::RST != 0;

    // RST is unambiguous: sender forcibly closes.
    if rst {
        return TcpState::Closed;
    }
    match state {
        // Active open: app called `connect()`, stack sends SYN.
        TcpState::Closed if syn && !ack => TcpState::SynSent,
        // Passive open responding to a SYN we received: send SYN+ACK.
        TcpState::Listen if syn && ack => TcpState::SynReceived,
        // Retransmits of SYN+ACK while waiting for the final ACK: no change.
        TcpState::SynReceived if syn && ack => TcpState::SynReceived,
        // App close while connection is established: send FIN.
        TcpState::Established if fin => TcpState::FinWait1,
        // App close after peer's FIN already arrived: send our FIN.
        TcpState::CloseWait if fin => TcpState::LastAck,
        // Everything else is either an ACK or data that doesn't advance the
        // sender's state.
        _ => state,
    }
}

/// Advance the state of the peer that *received* a packet with these flags,
/// per the RFC 9293 FSM. This is the half of the diagram that gets driven
/// directly by the wire.
pub fn transition_on_recv(state: TcpState, flags: u8) -> (r: TcpState)
    ensures
        r == received(state, flags),
{
    let syn: bool = flags & flag::SYN != 0;
    let ack: bool = flags & flag::ACK != 0;
    let fin: bool = flags & flag::FIN != 0;
    let rst: bool = flags & flag::RST != 0;

    // RST received: tear the receiver's state down.
    if rst {
        return TcpState::Closed;
    }
    match state {
        TcpState::Closed if syn && !ack => TcpState::SynReceived,
        TcpState::Listen if syn && !ack => TcpState::SynReceived,
        // Three-way handshake, the common case: our SYN got SYN+ACK back.
        TcpState::SynSent if syn && ack => TcpState::Established,
        // Simultaneous open: both peers sent SYN before seeing the other's.
        TcpState::SynSent if syn => TcpState::SynReceived,
        // Responder receives the final ACK of the handshake. Any valid ACK in
        // SYN-RECEIVED moves to ESTABLISHED, including a SYN+ACK in the
        // simultaneous-open case. A co-set FIN is excluded so a half-open FIN
        // doesn't shortcut into ESTABLISHED.
        TcpState::SynReceived if ack && !fin => TcpState::Established,
        // Peer initiates close while we're connected.
        TcpState::Established if fin => TcpState::CloseWait,
        // We sent FIN (we're in FIN-WAIT-1) and the peer responds:
        // - their FIN+ACK closes our side simultaneously: TIME-WAIT.
        // - their FIN alone (we haven't been ACK'd yet): CLOSING.
        // - their ACK to our FIN with no FIN of their own: FIN-WAIT-2.
        TcpState::FinWait1 if fin && ack => TcpState::TimeWait,
        TcpState::FinWait1 if fin => TcpState::Closing,
        TcpState::FinWait1 if ack => TcpState::FinWait2,
        // We were waiting for the peer's FIN; it arrived: enter TIME-WAIT.
        TcpState::FinWait2 if fin => TcpState::TimeWait,
        // We're CLOSING (both sent FINs nearly simultaneously); peer's ACK
        // for ours arrives: TIME-WAIT.
        TcpState::Closing if ack => TcpState::TimeWait,
        // We're LAST-ACK (sent the second FIN); peer's ACK closes us fully.
        TcpState::LastAck if ack => TcpState::Closed,
        // CLOSE-WAIT and TIME-WAIT don't advance on incoming packets: they
        // wait for an app-close and a 2*MSL timeout respectively.
        _ => state,
    }
}

/// The flow of `key`, or the one that a first packet starts from.
pub open spec fn flow_or_new(flows: Map<FlowKey, Conn>, key: FlowKey, now: Tick) -> Conn {
    if flows.dom().contains(key) {
        flows[key]
    } else {
        Conn { internal: TcpState::Closed, external: TcpState::Closed, last_seen: now }
    }
}

/// The flow after a segment from the internal to the external endpoint.
pub open spec fn conn_after_egress(c: Conn, flags: u8, now: Tick) -> Conn {
    Conn {
        internal: sent(c.internal, flags),
        external: received(c.external, flags),
        last_seen: now,
    }
}

/// The flow after a segment from the external to the internal endpoint.
pub open spec fn conn_after_ingress(c: Conn, flags: u8, now: Tick) -> Conn {
    Conn {
        internal: received(c.internal, flags),
        external: sent(c.external, flags),
        last_seen: now,
    }
}

/// The table with the flow of `key` set to `c`, or without it if `c` is closed
/// on both sides.
pub open spec fn settle(flows: Map<FlowKey, Conn>, key: FlowKey, c: Conn) -> Map<FlowKey, Conn> {
    if c.is_fully_closed() {
        flows.remove(key)
    } else {
        flows.insert(key, c)
    }
}

/// The table after an outbound segment.
pub open spec fn after_egress(
    flows: Map<FlowKey, Conn>,
    key: FlowKey,
    flags: u8,
    now: Tick,
) -> Map<FlowKey, Conn> {
    settle(flows, key, conn_after_egress(flow_or_new(flows, key, now), flags, now))
}

/// An inbound segment belongs to a flow that is open.
pub open spec fn admits(flows: Map<FlowKey, Conn>, key: FlowKey) -> bool {
    flows.dom().contains(key) && !flows[key].is_fully_closed()
}

/// The table after an inbound segment.
pub open spec fn after_ingress(
    flows: Map<FlowKey, Conn>,
    key: FlowKey,
    flags: u8,
    now: Tick,
) -> Map<FlowKey, Conn> {
    if admits(flows, key) {
        settle(flows, key, conn_after_ingress(flows[key], flags, now))
    } else {
        flows
    }
}

/// The table after flows that have been idle for their timeout are dropped.
pub open spec fn after_sweep(flows: Map<FlowKey, Conn>, now: Tick) -> Map<FlowKey, Conn> {
    flows.restrict(Set::new(|k: FlowKey| flows.dom().contains(k) && flows[k].alive(now)))
}

/// The endpoints of a flow, as its status line shows them.
pub open spec fn listed_endpoints(k: FlowKey) -> Seq<char> {
    "  "@ + k.int_ip.dotted() + ":"@ + text::decimal(k.int_port as nat) + " ↔ "@ + k.ext_ip.dotted()
        + ":"@ + text::decimal(k.ext_port as nat)
}

/// The states of a flow and when it was last seen, as its status line shows
/// them.
pub open spec fn listed_states(c: Conn) -> Seq<char> {
    " → ("@ + c.internal.spec_name() + ", "@ + c.external.spec_name() + ") @ "@ + text::decimal(
        c.last_seen.0 as nat,
    ) + " ms\n"@
}

/// The status line of one flow.
pub open spec fn flow_line(k: FlowKey, c: Conn) -> Seq<char> {
    listed_endpoints(k) + listed_states(c)
}

/// The status lines of the first `n` flows of `order`.
pub open spec fn flow_lines(flows: Map<FlowKey, Conn>, order: Seq<FlowKey>, n: nat) -> Seq<char>
    decreases n,
{
    if n == 0 {
        "ConnTrack:\n"@
    } else {
        flow_lines(flows, order, (n - 1) as nat) + flow_line(order[n - 1], flows[order[n - 1]])
    }
}

/// The flows that the router knows of.
pub struct ConnTrack {
    flows: Table<FlowKey, Conn>,
}

impl View for ConnTrack {
    type V = Map<FlowKey, Conn>;

    closed spec fn view(&self) -> Map<FlowKey, Conn> {
        self.flows@
    }
}

impl Default for ConnTrack {
    fn default() -> (r: Self)
        ensures
            r@ == Map::<FlowKey, Conn>::empty(),
    {
        Self::new()
    }
}

impl ConnTrack {
    pub fn new() -> (r: Self)
        ensures
            r@ == Map::<FlowKey, Conn>::empty(),
    {
        ConnTrack { flows: Table::new() }
    }

    /// Number of flows.
    pub fn len(&self) -> (r: usize)
        ensures
            r == self@.len(),
            self@.dom().finite(),
    {
        self.flows.len()
    }

    pub fn is_empty(&self) -> (r: bool)
        ensures
            r == (self@.len() == 0),
            self@.dom().finite(),
    {
        self.flows.len() == 0
    }

    /// Observe an outbound (LAN -> WAN) TCP packet. The internal endpoint is
    /// the *sender*, the external endpoint is the *receiver*; update both
    /// per the RFC 9293 FSM. Returns the post-update `(internal, external)`
    /// states for inspection (and tests).
    ///
    /// Creates a flow on first sight: a bare outbound SYN will start from
    /// `(Closed, Closed)` and end up at `(SynSent, SynReceived)`.
    pub fn observe_egress(
        &mut self,
        int_ip: Ipv4Addr,
        int_port: u16,
        ext_ip: Ipv4Addr,
        ext_port: u16,
        flags: u8,
        now: Tick,
    ) -> (r: (TcpState, TcpState))
        ensures
            ({
                let key = FlowKey { int_ip, int_port, ext_ip, ext_port };
                let conn = conn_after_egress(flow_or_new(old(self)@, key, now), flags, now);
                &&& r == (conn.internal, conn.external)
                &&& final(self)@ == after_egress(old(self)@, key, flags, now)
            }),
    {
        let key = FlowKey { int_ip, int_port, ext_ip, ext_port };
        let mut conn = match self.flows.get(&key) {
            Some(c) => *c,
            None => Conn {
                internal: TcpState::Closed,
                external: TcpState::Closed,
                last_seen: now,
            },
        };
        conn.internal = transition_on_send(conn.internal, flags);
        conn.external = transition_on_recv(conn.external, flags);
        conn.last_seen = now;
        if conn.fully_closed() {
            let _ = self.flows.remove(&key);
        } else {
            self.flows.insert(key, conn);
        }
        (conn.internal, conn.external)
    }

    /// Check an inbound (WAN -> LAN) TCP packet against the table.
    ///
    /// Returns `true` and updates flow state when:
    /// - the 5-tuple matches an existing flow, **and**
    /// - that flow isn't already fully closed.
    ///
    /// Returns `false` (drop the packet) when:
    /// - no flow matches (unsolicited inbound: scan, stray packet, replay), or
    /// - the flow exists but both endpoints are already `Closed`.
    ///
    /// On a `true` return the external endpoint is the *sender* and the
    /// internal endpoint is the *receiver*; both transition per RFC 9293.
    pub fn check_ingress(
        &mut self,
        int_ip: Ipv4Addr,
        int_port: u16,
        ext_ip: Ipv4Addr,
        ext_port: u16,
        flags: u8,
        now: Tick,
    ) -> (r: bool)
        ensures
            ({
                let key = FlowKey { int_ip, int_port, ext_ip, ext_port };
                &&& r == admits(old(self)@, key)
                &&& final(self)@ == after_ingress(old(self)@, key, flags, now)
            }),
    {
        let key = FlowKey { int_ip, int_port, ext_ip, ext_port };
        let mut conn = match self.flows.get(&key) {
            Some(c) => *c,
            None => {
                return false;
            },
        };
        if conn.fully_closed() {
            // Stale flow entry; the next sweep will collect it.
            return false;
        }
        conn.external = transition_on_send(conn.external, flags);
        conn.internal = transition_on_recv(conn.internal, flags);
        conn.last_seen = now;
        if conn.fully_closed() {
            let _ = self.flows.remove(&key);
        } else {
            self.flows.insert(key, conn);
        }
        true
    }

    /// Drop flows whose `last_seen` is older than their per-state timeout.
    /// Call periodically (e.g. from the sweeper lcore alongside neighbor
    /// sweeps).
    pub fn sweep(&mut self, now: Tick)
        ensures
            final(self)@ == after_sweep(old(self)@, now),
    {
        let keep = |_k: &FlowKey, c: &Conn| -> (r: bool)
            ensures r == c.alive(now)
            { c.is_alive(now) };
        self.flows.retain(keep);
        proof {
            let before = old(self)@;
            assert(self@ =~= after_sweep(before, now));
        }
    }

    /// Look up the (internal, external) RFC 9293 states for a flow without
    /// mutating it. Returns `None` when no flow matches.
    pub fn states(
        &self,
        int_ip: Ipv4Addr,
        int_port: u16,
        ext_ip: Ipv4Addr,
        ext_port: u16,
    ) -> (r: Option<(TcpState, TcpState)>)
        ensures
            ({
                let key = FlowKey { int_ip, int_port, ext_ip, ext_port };
                r == if self@.dom().contains(key) {
                    Some((self@[key].internal, self@[key].external))
                } else {
                    None
                }
            }),
    {
        let key = FlowKey { int_ip, int_port, ext_ip, ext_port };
        match self.flows.get(&key) {
            Some(c) => Some((c.internal, c.external)),
            None => None,
        }
    }

    /// The flows as text, one line for each with its endpoints and both
    /// endpoints' states, in no particular order.
    pub fn status(&self) -> (r: String)
        ensures
            exists|order: Seq<FlowKey>| #[trigger]
                table::lists(order, self@.dom()) && r@ == flow_lines(self@, order, order.len()),
    {
        let keys = self.flows.keys();
        let mut s = String::new();
        push_text(&mut s, "ConnTrack:\n");
        assert(s@ =~= flow_lines(self@, keys@, 0));
        let mut i: usize = 0;
        while i < keys.len()
            invariant
                i <= keys@.len(),
                table::lists(keys@, self@.dom()),
                s@ == flow_lines(self@, keys@, i as nat),
            decreases keys@.len() - i,
        {
            let key: FlowKey = keys[i];
            assert(keys@.contains(keys@[i as int]));
            match self.flows.get(&key) {
                Some(conn) => {
                    push_flow_line(&mut s, &key, conn);
                },
                None => {
                    assert(false);
                },
            }
            i = i + 1;
        }
        s
    }
}

fn push_flow_line(s: &mut String, key: &FlowKey, conn: &Conn)
    ensures
        final(s)@ == old(s)@ + flow_line(*key, *conn),
{
    let ghost before = s@;
    push_endpoints(s, key);
    push_states(s, conn);
    assert(s@ =~= before + flow_line(*key, *conn));
}

fn push_endpoints(s: &mut String, key: &FlowKey)
    ensures
        final(s)@ == old(s)@ + listed_endpoints(*key),
{
    let ghost before = s@;
    push_text(s, "  ");
    let t = key.int_ip.to_string();
    push_text(s, t.as_str());
    push_text(s, ":");
    push_decimal(s, key.int_port as u64);
    push_text(s, " ↔ ");
    let t = key.ext_ip.to_string();
    push_text(s, t.as_str());
    push_text(s, ":");
    push_decimal(s, key.ext_port as u64);
    assert(s@ =~= before + listed_endpoints(*key));
}

fn push_states(s: &mut String, conn: &Conn)
    ensures
        final(s)@ == old(s)@ + listed_states(*conn),
{
    let ghost before = s@;
    push_text(s, " → (");
    push_text(s, conn.internal.name());
    push_text(s, ", ");
    push_text(s, conn.external.name());
    push_text(s, ") @ ");
    push_decimal(s, conn.last_seen.0);
    push_text(s, " ms\n");
    assert(s@ =~= before + listed_states(*conn));
}

/// No flow in the table is closed on both sides.
pub open spec fn no_closed_flows(flows: Map<FlowKey, Conn>) -> bool {
    forall|k: FlowKey| #[trigger] flows.dom().contains(k) ==> !flows[k].is_fully_closed()
}

/// A table never holds a flow that is closed on both sides: such flows are
/// reaped by the packet that closes them, whatever packets and sweeps came
/// before.
pub proof fn law_closed_flows_are_reaped(
    flows: Map<FlowKey, Conn>,
    key: FlowKey,
    flags: u8,
    now: Tick,
)
    requires
        no_closed_flows(flows),
    ensures
        no_closed_flows(Map::<FlowKey, Conn>::empty()),
        no_closed_flows(after_egress(flows, key, flags, now)),
        no_closed_flows(after_ingress(flows, key, flags, now)),
        no_closed_flows(after_sweep(flows, now)),
{
}

/// Only traffic from inside opens flows: an inbound packet is admitted only if
/// its flow is in the table already, and it adds no flow to the table, nor does
/// it touch any other.
pub proof fn law_only_inside_opens_flows(
    flows: Map<FlowKey, Conn>,
    key: FlowKey,
    flags: u8,
    now: Tick,
    other: FlowKey,
)
    ensures
        admits(flows, key) ==> flows.dom().contains(key),
        !flows.dom().contains(key) ==> after_ingress(flows, key, flags, now) == flows,
        after_ingress(flows, key, flags, now).dom().subset_of(flows.dom()),
        other != key ==> after_ingress(flows, key, flags, now).get(other) == flows.get(other),
        other != key ==> after_egress(flows, key, flags, now).get(other) == flows.get(other),
{
}

/// A reset closes the flow on both sides, whichever side sends it and whatever
/// state the flow is in: it leaves the table, and nothing further is admitted
/// until it is opened again from inside.
pub proof fn law_rst_closes_both_sides(
    flows: Map<FlowKey, Conn>,
    key: FlowKey,
    flags: u8,
    now: Tick,
)
    requires
        has_rst(flags),
    ensures
        conn_after_egress(flow_or_new(flows, key, now), flags, now).is_fully_closed(),
        !after_egress(flows, key, flags, now).dom().contains(key),
        !admits(after_egress(flows, key, flags, now), key),
        admits(flows, key) ==> !after_ingress(flows, key, flags, now).dom().contains(key),
        !admits(after_ingress(flows, key, flags, now), key),
{
}

/// A three-way handshake opened from inside establishes both endpoints, and
/// every packet of it from outside is admitted.
pub proof fn law_handshake_establishes(
    flows: Map<FlowKey, Conn>,
    key: FlowKey,
    t1: Tick,
    t2: Tick,
    t3: Tick,
)
    requires
        !flows.dom().contains(key),
    ensures
        ({
            let synack = (flag::SYN | flag::ACK) as u8;
            let s1 = after_egress(flows, key, flag::SYN, t1);
            let s2 = after_ingress(s1, key, synack, t2);
            let s3 = after_egress(s2, key, flag::ACK, t3);
            &&& admits(s1, key)
            &&& s1[key].internal == TcpState::SynSent
            &&& s1[key].external == TcpState::SynReceived
            &&& s2[key].internal == TcpState::Established
            &&& s3[key].internal == TcpState::Established
            &&& s3[key].external == TcpState::Established
            &&& admits(s3, key)
        }),
{
    assert(2u8 & 2 == 2 && 2u8 & 16 == 0 && 2u8 & 4 == 0 && 2u8 & 1 == 0) by (bit_vector);
    assert((2u8 | 16) & 2 == 2 && (2u8 | 16) & 16 == 16 && (2u8 | 16) & 4 == 0 && (2u8 | 16) & 1
        == 0) by (bit_vector);
    assert(16u8 & 2 == 0 && 16u8 & 16 == 16 && 16u8 & 4 == 0 && 16u8 & 1 == 0) by (bit_vector);
}

/// A sweep keeps exactly the flows that have been seen within the longer of
/// their two peers' timeouts, unchanged.
pub proof fn law_sweep_keeps_live_flows(flows: Map<FlowKey, Conn>, key: FlowKey, now: Tick)
    ensures
        after_sweep(flows, now).dom().contains(key) <==> flows.dom().contains(key) && now.since(
            flows[key].last_seen,
        ) < flows[key].timeout(),
        after_sweep(flows, now).dom().contains(key) ==> after_sweep(flows, now)[key] == flows[key],
{
}

/// The bits of the flags byte that the state machine looks at.
proof fn lemma_flag_bits(flags: u8)
    ensures
        has_fin(flags) == anatomy::fin(flags),
        has_syn(flags) == anatomy::syn(flags),
        has_rst(flags) == anatomy::rst(flags),
        has_ack(flags) == anatomy::ack(flags),
{
    assert((flags & 1 != 0) == (flags % 2 == 1)) by (bit_vector);
    assert((flags & 2 != 0) == (flags / 2 % 2 == 1)) by (bit_vector);
    assert((flags & 4 != 0) == (flags / 4 % 2 == 1)) by (bit_vector);
    assert((flags & 16 != 0) == (flags / 16 % 2 == 1)) by (bit_vector);
}

/// The states after a segment depend on its SYN, ACK, FIN and RST bits alone:
/// whether data is pushed, urgent or marked for congestion changes nothing.
pub proof fn law_only_control_bits_count(state: TcpState, f: u8, g: u8)
    requires
        anatomy::fin(f) == anatomy::fin(g),
        anatomy::syn(f) == anatomy::syn(g),
        anatomy::rst(f) == anatomy::rst(g),
        anatomy::ack(f) == anatomy::ack(g),
    ensures
        sent(state, f) == sent(state, g),
        received(state, f) == received(state, g),
{
    lemma_flag_bits(f);
    lemma_flag_bits(g);
}

/// What a peer does by sending a segment, edge by edge: a reset closes it; a
/// bare SYN opens it, a SYN+ACK answers as a listener, and a FIN closes its half
/// of the connection. There is no other edge.
pub proof fn law_send_edges(state: TcpState, flags: u8)
    ensures
        ({
            let next = sent(state, flags);
            let (f, s, a) = (anatomy::fin(flags), anatomy::syn(flags), anatomy::ack(flags));
            &&& anatomy::rst(flags) ==> next == TcpState::Closed
            &&& !anatomy::rst(flags) ==> {
                &&& state == TcpState::Closed && s && !a ==> next == TcpState::SynSent
                &&& state == TcpState::Listen && s && a ==> next == TcpState::SynReceived
                &&& state == TcpState::Established && f ==> next == TcpState::FinWait1
                &&& state == TcpState::CloseWait && f ==> next == TcpState::LastAck
                &&& next != state ==> (state == TcpState::Closed && s && !a) || (state
                    == TcpState::Listen && s && a) || (state == TcpState::Established && f) || (
                state == TcpState::CloseWait && f)
            }
        }),
{
    lemma_flag_bits(flags);
}

/// What a peer does on receiving a segment, edge by edge.
pub proof fn law_receive_edges(state: TcpState, flags: u8)
    ensures
        ({
            let next = received(state, flags);
            let (f, s, a) = (anatomy::fin(flags), anatomy::syn(flags), anatomy::ack(flags));
            &&& anatomy::rst(flags) ==> next == TcpState::Closed
            &&& !anatomy::rst(flags) ==> {
                // Opening.
                &&& (state == TcpState::Closed || state == TcpState::Listen) && s && !a ==> next
                    == TcpState::SynReceived
                &&& state == TcpState::SynSent && s && a ==> next == TcpState::Established
                &&& state == TcpState::SynSent && s && !a ==> next == TcpState::SynReceived
                &&& state == TcpState::SynReceived && a && !f ==> next == TcpState::Established
                // Closing.
                &&& state == TcpState::Established && f ==> next == TcpState::CloseWait
                &&& state == TcpState::FinWait1 && f && a ==> next == TcpState::TimeWait
                &&& state == TcpState::FinWait1 && f && !a ==> next == TcpState::Closing
                &&& state == TcpState::FinWait1 && !f && a ==> next == TcpState::FinWait2
                &&& state == TcpState::FinWait2 && f ==> next == TcpState::TimeWait
                &&& state == TcpState::Closing && a ==> next == TcpState::TimeWait
                &&& state == TcpState::LastAck && a ==> next == TcpState::Closed
                // Waiting.
                &&& (state == TcpState::Closed || state == TcpState::Listen) && !(s && !a) ==> next
                    == state
                &&& state == TcpState::SynSent && !s ==> next == state
                &&& state == TcpState::SynReceived && !(a && !f) ==> next == state
                &&& state == TcpState::Established && !f ==> next == state
                &&& state == TcpState::FinWait1 && !f && !a ==> next == state
                &&& state == TcpState::FinWait2 && !f ==> next == state
                &&& (state == TcpState::Closing || state == TcpState::LastAck) && !a ==> next
                    == state
                &&& (state == TcpState::CloseWait || state == TcpState::TimeWait) ==> next == state
            }
        }),
{
    lemma_flag_bits(flags);
}

/// A flow is noted for the host and its peer, as it stands after the segment,
/// and no other flow is touched. A first segment that does not open a connection
/// leaves no flow behind.
pub proof fn law_segment_is_noted(
    flows: Map<FlowKey, Conn>,
    key: FlowKey,
    other: FlowKey,
    flags: u8,
    now: Tick,
)
    requires
        other != key,
    ensures
        ({
            let out = after_egress(flows, key, flags, now);
            let back = after_ingress(flows, key, flags, now);
            let before = if flows.dom().contains(key) {
                (flows[key].internal, flows[key].external)
            } else {
                (TcpState::Closed, TcpState::Closed)
            };
            let closed = (TcpState::Closed, TcpState::Closed);
            let gone = (sent(before.0, flags), received(before.1, flags));
            let come = (received(before.0, flags), sent(before.1, flags));
            &&& out.get(other) == flows.get(other)
            &&& back.get(other) == flows.get(other)
            &&& out.get(key) == if gone == closed {
                None
            } else {
                Some(Conn { internal: gone.0, external: gone.1, last_seen: now })
            }
            &&& !flows.dom().contains(key) ==> back == flows
            &&& flows.dom().contains(key) && before != closed ==> back.get(key) == if come
                == closed {
                None
            } else {
                Some(Conn { internal: come.0, external: come.1, last_seen: now })
            }
            &&& admits(flows, key) <==> flows.dom().contains(key) && before != closed
        }),
{
}

/// A connection is opened from inside by a SYN, and by nothing else.
pub proof fn law_only_a_syn_opens(
    flows: Map<FlowKey, Conn>,
    key: FlowKey,
    flags: u8,
    now: Tick,
)
    requires
        !flows.dom().contains(key),
    ensures
        ({
            let opens = anatomy::syn(flags) && !anatomy::ack(flags) && !anatomy::rst(flags);
            let out = after_egress(flows, key, flags, now);
            &&& admits(out, key) <==> opens
            &&& opens ==> out.get(key) == Some(
                Conn {
                    internal: TcpState::SynSent,
                    external: TcpState::SynReceived,
                    last_seen: now,
                },
            )
            &&& !opens ==> out == flows
            &&& !admits(after_ingress(flows, key, flags, now), key)
        }),
{
    law_send_edges(TcpState::Closed, flags);
    law_receive_edges(TcpState::Closed, flags);
    if !(anatomy::syn(flags) && !anatomy::ack(flags) && !anatomy::rst(flags)) {
        assert(after_egress(flows, key, flags, now) =~= flows);
    }
}

/// What is neither FIN nor RST leaves an established connection
/// established on both sides, whichever side sends it: what follows is still
/// let through.
pub proof fn law_data_keeps_the_connection(
    flows: Map<FlowKey, Conn>,
    key: FlowKey,
    flags: u8,
    now: Tick,
)
    requires
        flows.dom().contains(key),
        flows[key].internal == TcpState::Established,
        flows[key].external == TcpState::Established,
        !anatomy::fin(flags),
        !anatomy::rst(flags),
    ensures
        ({
            let kept = Conn {
                internal: TcpState::Established,
                external: TcpState::Established,
                last_seen: now,
            };
            &&& after_egress(flows, key, flags, now) == flows.insert(key, kept)
            &&& after_ingress(flows, key, flags, now) == flows.insert(key, kept)
            &&& admits(flows, key)
            &&& admits(after_egress(flows, key, flags, now), key)
            &&& admits(after_ingress(flows, key, flags, now), key)
        }),
{
    lemma_flag_bits(flags);
}

/// A connection stays open until both sides are through: the one segment that
/// removes a flow, other than a reset, is the ACK of the last FIN, and then the
/// other side was closed already.
pub proof fn law_flow_ends_by_reset_or_last_ack(
    flows: Map<FlowKey, Conn>,
    key: FlowKey,
    flags: u8,
    now: Tick,
)
    requires
        admits(flows, key),
    ensures
        ({
            let (i, e) = (flows[key].internal, flows[key].external);
            let reset = anatomy::rst(flags);
            let acks = anatomy::ack(flags);
            &&& admits(after_egress(flows, key, flags, now), key) <==> !(reset || acks && i
                == TcpState::Closed && e == TcpState::LastAck)
            &&& admits(after_ingress(flows, key, flags, now), key) <==> !(reset || acks && e
                == TcpState::Closed && i == TcpState::LastAck)
        }),
{
    lemma_flag_bits(flags);
}

/// The orderly close, from either side: the one that closes first passes through
/// FIN-WAIT-1 and FIN-WAIT-2 to TIME-WAIT, the other through CLOSE-WAIT and
/// LAST-ACK to CLOSED.
pub proof fn law_orderly_close(fin_flags: u8, ack_flags: u8, fin2_flags: u8, ack2_flags: u8)
    requires
        anatomy::fin(fin_flags) && !anatomy::rst(fin_flags),
        anatomy::ack(ack_flags) && !anatomy::fin(ack_flags) && !anatomy::rst(ack_flags),
        anatomy::fin(fin2_flags) && !anatomy::rst(fin2_flags),
        anatomy::ack(ack2_flags) && !anatomy::rst(ack2_flags) && !anatomy::fin(ack2_flags),
    ensures
        ({
            let first1 = sent(TcpState::Established, fin_flags);
            let second1 = received(TcpState::Established, fin_flags);
            let first2 = received(first1, ack_flags);
            let second2 = sent(second1, ack_flags);
            let first3 = received(first2, fin2_flags);
            let second3 = sent(second2, fin2_flags);
            let first4 = sent(first3, ack2_flags);
            let second4 = received(second3, ack2_flags);
            &&& (first1, second1) == (TcpState::FinWait1, TcpState::CloseWait)
            &&& (first2, second2) == (TcpState::FinWait2, TcpState::CloseWait)
            &&& (first3, second3) == (TcpState::TimeWait, TcpState::LastAck)
            &&& (first4, second4) == (TcpState::TimeWait, TcpState::Closed)
        }),
{
    lemma_flag_bits(fin_flags);
    lemma_flag_bits(ack_flags);
    lemma_flag_bits(fin2_flags);
    lemma_flag_bits(ack2_flags);
}

/// How long a peer in a state waits, in seconds.
pub open spec fn patience(state: TcpState) -> int {
    match state {
        TcpState::Established => 86_400,
        TcpState::TimeWait => 120,
        TcpState::LastAck => 30,
        TcpState::Closed => 10,
        TcpState::Listen | TcpState::SynSent | TcpState::SynReceived => 60,
        TcpState::FinWait1 | TcpState::FinWait2 | TcpState::Closing | TcpState::CloseWait => 60,
    }
}

/// A flow is kept, as it is, as long as one of its peers still waits, counted
/// from the last segment; after that the next sweep drops it. A sweep adds
/// nothing.
pub proof fn law_idle_flows_age_out(flows: Map<FlowKey, Conn>, now: Tick, key: FlowKey)
    requires
        flows.dom().contains(key) ==> flows[key].last_seen.0 <= now.0,
    ensures
        ({
            let idle = now.0 - flows[key].last_seen.0;
            let waits = idle < 1000 * patience(flows[key].internal) || idle < 1000 * patience(
                flows[key].external,
            );
            &&& after_sweep(flows, now).get(key) == if flows.dom().contains(key) && waits {
                Some(flows[key])
            } else {
                None
            }
        }),
{
}

/// A segment counts as the last one from the time it came: nothing that is
/// still exchanged is ever swept.
pub proof fn law_traffic_keeps_a_flow_alive(
    flows: Map<FlowKey, Conn>,
    key: FlowKey,
    flags: u8,
    at: Tick,
    now: Tick,
)
    requires
        at.0 <= now.0 < at.0 + 10_000,
        admits(after_egress(flows, key, flags, at), key),
    ensures
        admits(after_sweep(after_egress(flows, key, flags, at), now), key),
        admits(after_ingress(flows, key, flags, at), key) && admits(flows, key) ==> admits(
            after_sweep(after_ingress(flows, key, flags, at), now),
            key,
        ),
{
}

/// What can happen to the flows.
pub enum FlowEvent {
    /// A packet went out.
    Egress { key: FlowKey, flags: u8, now: Tick },
    /// A packet came in.
    Ingress { key: FlowKey, flags: u8, now: Tick },
    /// Idle flows were dropped.
    Swept { now: Tick },
}

impl Evolving for Map<FlowKey, Conn> {
    type Event = FlowEvent;

    open spec fn evolve(self, e: FlowEvent) -> Self {
        match e {
            FlowEvent::Egress { key, flags, now } => after_egress(self, key, flags, now),
            FlowEvent::Ingress { key, flags, now } => after_ingress(self, key, flags, now),
            FlowEvent::Swept { now } => after_sweep(self, now),
        }
    }
}

/// Whatever packets and sweeps have made of a table, it holds no flow that is
/// closed on both sides if it held none at first.
pub proof fn law_reached_flows_are_open(start: Map<FlowKey, Conn>, now: Map<FlowKey, Conn>)
    requires
        no_closed_flows(start),
        history::reached(start, now),
    ensures
        no_closed_flows(now),
{
    let log = choose|log: Seq<FlowEvent>| #[trigger] history::replayed(start, log) == now;
    lemma_replayed_flows_are_open(start, log);
}

proof fn lemma_replayed_flows_are_open(start: Map<FlowKey, Conn>, log: Seq<FlowEvent>)
    requires
        no_closed_flows(start),
    ensures
        no_closed_flows(history::replayed(start, log)),
    decreases log.len(),
{
    if log.len() > 0 {
        let before = history::replayed(start, log.drop_last());
        lemma_replayed_flows_are_open(start, log.drop_last());
        match log.last() {
            FlowEvent::Egress { key, flags, now } => {
                law_closed_flows_are_reaped(before, key, flags, now);
            },
            FlowEvent::Ingress { key, flags, now } => {
                law_closed_flows_are_reaped(before, key, flags, now);
            },
            FlowEvent::Swept { now } => {},
        }
    }
}

impl Guarded for ConnTrack {
    open spec fn guarded(self, origin: Self) -> bool {
        history::reached(origin@, self@)
    }
}

/// Cloneable handle to a [`ConnTrack`] shared across workers. Every operation
/// briefly takes the spinlock.
///
/// What a call finds in the table is up to the other handles as well: the
/// contracts say what each call does with whatever it found. That is always
/// what packets and sweeps have made of the table that the first handle was
/// made with.
pub struct SharedConnTrack {
    inner: Arc<SpinLock<ConnTrack>>,
}

impl Default for SharedConnTrack {
    fn default() -> (r: Self)
        ensures
            r.made_with() == Map::<FlowKey, Conn>::empty(),
    {
        Self::new()
    }
}

impl Clone for SharedConnTrack {
    /// Another handle to the same table.
    fn clone(&self) -> (r: Self)
        ensures
            r == *self,
    {
        SharedConnTrack { inner: self.inner.clone() }
    }
}

impl SharedConnTrack {
    /// The flows that the table was made with.
    pub closed spec fn made_with(self) -> Map<FlowKey, Conn> {
        self.inner.made_with()@
    }

    /// A call on this handle can find the flows `t`.
    pub open spec fn may_find(self, t: Map<FlowKey, Conn>) -> bool {
        history::reached(self.made_with(), t)
    }

    /// A handle to a new, empty table.
    pub fn new() -> (r: Self)
        ensures
            r.made_with() == Map::<FlowKey, Conn>::empty(),
    {
        let table = ConnTrack::new();
        proof {
            history::lemma_reached_itself(table@);
        }
        SharedConnTrack { inner: Arc::new(SpinLock::new(table)) }
    }

    pub fn len(&self) -> (r: usize)
        ensures
            exists|found: Map<FlowKey, Conn>| #[trigger]
                self.may_find(found) && found.dom().finite() && r == found.len(),
    {
        let guard = self.inner.lock();
        let r: usize = guard.as_ref().len();
        assert(self.may_find(guard.value()@));
        guard.unlock();
        r
    }

    pub fn is_empty(&self) -> (r: bool)
        ensures
            exists|found: Map<FlowKey, Conn>| #[trigger]
                self.may_find(found) && found.dom().finite() && r == (found.len() == 0),
    {
        let guard = self.inner.lock();
        let r: bool = guard.as_ref().is_empty();
        assert(self.may_find(guard.value()@));
        guard.unlock();
        r
    }

    /// See [`ConnTrack::observe_egress`].
    pub fn observe_egress(
        &self,
        int_ip: Ipv4Addr,
        int_port: u16,
        ext_ip: Ipv4Addr,
        ext_port: u16,
        flags: u8,
        now: Tick,
    ) -> (r: (TcpState, TcpState))
        ensures
            exists|found: Map<FlowKey, Conn>|
                {
                    let key = FlowKey { int_ip, int_port, ext_ip, ext_port };
                    let conn = conn_after_egress(flow_or_new(found, key, now), flags, now);
                    #[trigger] self.may_find(found) && r == (conn.internal, conn.external)
                },
    {
        let mut guard = self.inner.lock();
        proof {
            let key = FlowKey { int_ip, int_port, ext_ip, ext_port };
            assert(self.may_find(guard.value()@));
            history::lemma_reached_next(
                self.made_with(),
                guard.value()@,
                FlowEvent::Egress { key, flags, now },
            );
        }
        let r = guard.as_mut().observe_egress(int_ip, int_port, ext_ip, ext_port, flags, now);
        guard.unlock();
        r
    }

    /// See [`ConnTrack::check_ingress`].
    pub fn check_ingress(
        &self,
        int_ip: Ipv4Addr,
        int_port: u16,
        ext_ip: Ipv4Addr,
        ext_port: u16,
        flags: u8,
        now: Tick,
    ) -> (r: bool)
        ensures
            exists|found: Map<FlowKey, Conn>| #[trigger]
                self.may_find(found) && r == admits(
                    found,
                    (FlowKey { int_ip, int_port, ext_ip, ext_port }),
                ),
    {
        let mut guard = self.inner.lock();
        proof {
            let key = FlowKey { int_ip, int_port, ext_ip, ext_port };
            assert(self.may_find(guard.value()@));
            history::lemma_reached_next(
                self.made_with(),
                guard.value()@,
                FlowEvent::Ingress { key, flags, now },
            );
        }
        let r: bool = guard.as_mut().check_ingress(int_ip, int_port, ext_ip, ext_port, flags, now);
        guard.unlock();
        r
    }

    /// See [`ConnTrack::sweep`].
    pub fn sweep(&self, now: Tick) {
        let mut guard = self.inner.lock();
        proof {
            history::lemma_reached_next(
                self.made_with(),
                guard.value()@,
                FlowEvent::Swept { now },
            );
        }
        guard.as_mut().sweep(now);
        guard.unlock();
    }

    /// See [`ConnTrack::states`].
    pub fn states(
        &self,
        int_ip: Ipv4Addr,
        int_port: u16,
        ext_ip: Ipv4Addr,
        ext_port: u16,
    ) -> (r: Option<(TcpState, TcpState)>)
        ensures
            exists|found: Map<FlowKey, Conn>|
                {
                    let key = FlowKey { int_ip, int_port, ext_ip, ext_port };
                    #[trigger] self.may_find(found) && r == if found.dom().contains(key) {
                        Some((found[key].internal, found[key].external))
                    } else {
                        None
                    }
                },
    {
        let guard = self.inner.lock();
        let r = guard.as_ref().states(int_ip, int_port, ext_ip, ext_port);
        assert(self.may_find(guard.value()@));
        guard.unlock();
        r
    }

    /// See [`ConnTrack::status`].
    pub fn status(&self) -> (r: String)
        ensures
            exists|found: Map<FlowKey, Conn>, order: Seq<FlowKey>|
                #![trigger self.may_find(found), table::lists(order, found.dom())]
                self.may_find(found) && table::lists(order, found.dom()) && r@ == flow_lines(
                    found,
                    order,
                    order.len(),
                ),
    {
        let guard = self.inner.lock();
        let r = guard.as_ref().status();
        let ghost found = guard.value()@;
        proof {
            let order = choose|order: Seq<FlowKey>| #[trigger]
                table::lists(order, found.dom()) && r@ == flow_lines(found, order, order.len());
            assert(self.may_find(found) && table::lists(order, found.dom()));
        }
        guard.unlock();
        r
    }
}

/// Every flow has a line of its own in the status, with its two endpoints, its
/// two states and when it was last seen.
pub proof fn law_every_flow_is_listed(
    flows: Map<FlowKey, Conn>,
    order: Seq<FlowKey>,
    n: nat,
    i: int,
)
    requires
        0 <= i < n <= order.len(),
    ensures
        ({
            let k = order[i];
            let c = flows[k];
            let line = ("  "@ + k.int_ip.dotted() + ":"@ + text::decimal(k.int_port as nat)
                + " ↔ "@ + k.ext_ip.dotted() + ":"@ + text::decimal(k.ext_port as nat)) + (
            " → ("@ + c.internal.spec_name() + ", "@ + c.external.spec_name() + ") @ "@
                + text::decimal(c.last_seen.0 as nat) + " ms\n"@);
            exists|rest: Seq<char>|
                #![trigger flow_lines(flows, order, i as nat) + line + rest]
                flow_lines(flows, order, n) == flow_lines(flows, order, i as nat) + line + rest
        }),
    decreases n,
{
    let line = flow_line(order[i], flows[order[i]]);
    let upto = flow_lines(flows, order, i as nat);
    if i == n - 1 {
        assert(flow_lines(flows, order, n) =~= upto + line + seq![]);
    } else {
        law_every_flow_is_listed(flows, order, (n - 1) as nat, i);
        let rest = choose|rest: Seq<char>|
            #![trigger upto + line + rest]
            flow_lines(flows, order, (n - 1) as nat) == upto + line + rest;
        let last = flow_line(order[n - 1], flows[order[n - 1]]);
        assert(flow_lines(flows, order, n) =~= upto + line + (rest + last));
    }
}

} // verus!
