//! Shared DHCP lease table.
//!
//! On a **bridged LAN** every physical LAN port is one broadcast domain, so a
//! client roaming between ports must keep its lease: the per-port DHCP server
//! instances therefore share a single [`SharedLeases`] alongside their address
//! pool.
//!
//! A clone of the handle is another handle to the same table; every method
//! takes `&self` and locks internally.

use crate::net::addr::Ipv4Addr;
use crate::net::ethernet::MacAddr;
use crate::sync::history;
use crate::sync::history::Evolving;
use crate::sync::spinlock::{Guard, Guarded, SpinLock};
use crate::table;
use crate::table::Table;
use crate::text;
use crate::text::{push_hex2, push_text};
use std::sync::Arc;
use vstd::prelude::*;

verus! {

/// The lease table: which address is bound to which MAC.
pub struct LeaseTable {
    by_mac: Table<MacAddr, Ipv4Addr>,
}

impl View for LeaseTable {
    /// The address bound to each MAC.
    type V = Map<MacAddr, Ipv4Addr>;

    closed spec fn view(&self) -> Map<MacAddr, Ipv4Addr> {
        self.by_mac@
    }
}

/// The first `n` octets of a MAC address as hexadecimal pairs, separated by
/// commas.
pub open spec fn octet_list(mac: Seq<u8>, n: nat) -> Seq<char>
    decreases n,
{
    if n == 0 {
        seq![]
    } else if n == 1 {
        text::hex2(mac[0])
    } else {
        octet_list(mac, (n - 1) as nat) + ", "@ + text::hex2(mac[n - 1])
    }
}

/// The status line of one lease.
pub open spec fn lease_line(mac: MacAddr, ip: Ipv4Addr) -> Seq<char> {
    "    ["@ + octet_list(mac@, 6) + "] → "@ + ip.dotted() + "\n"@
}

/// The status lines of the first `n` leases of `order`.
pub open spec fn lease_lines(
    leases: Map<MacAddr, Ipv4Addr>,
    order: Seq<MacAddr>,
    n: nat,
) -> Seq<char>
    decreases n,
{
    if n == 0 {
        "  Leases:\n"@
    } else {
        lease_lines(leases, order, (n - 1) as nat) + lease_line(
            order[n - 1],
            leases[order[n - 1]],
        )
    }
}

fn push_octet_list(s: &mut String, mac: &MacAddr)
    ensures
        final(s)@ == old(s)@ + octet_list(mac@, 6),
{
    let ghost before = s@;
    push_hex2(s, mac[0]);
    let mut i: usize = 1;
    while i < 6
        invariant
            1 <= i <= 6,
            s@ == before + octet_list(mac@, i as nat),
        decreases 6 - i,
    {
        push_text(s, ", ");
        push_hex2(s, mac[i]);
        i = i + 1;
        assert(s@ =~= before + octet_list(mac@, i as nat));
    }
}

impl Default for LeaseTable {
    fn default() -> (r: Self)
        ensures
            r@ == Map::<MacAddr, Ipv4Addr>::empty(),
    {
        LeaseTable { by_mac: Table::new() }
    }
}

impl LeaseTable {
    /// IP currently bound to `mac`, if any.
    pub fn lookup(&self, mac: MacAddr) -> (r: Option<Ipv4Addr>)
        ensures
            r == self@.get(mac),
    {
        match self.by_mac.get(&mac) {
            Some(ip) => Some(*ip),
            None => None,
        }
    }

    /// Record a `mac -> ip` binding, replacing any previous binding for `mac`.
    pub fn insert(&mut self, mac: MacAddr, ip: Ipv4Addr)
        ensures
            final(self)@ == old(self)@.insert(mac, ip),
    {
        self.by_mac.insert(mac, ip);
    }

    /// Remove and return the binding for `mac`, if it existed.
    pub fn remove(&mut self, mac: MacAddr) -> (r: Option<Ipv4Addr>)
        ensures
            r == old(self)@.get(mac),
            final(self)@ == old(self)@.remove(mac),
    {
        self.by_mac.remove(&mac)
    }

    /// Number of bindings currently held.
    pub fn len(&self) -> (r: usize)
        ensures
            r == self@.len(),
            self@.dom().finite(),
    {
        self.by_mac.len()
    }

    pub fn is_empty(&self) -> (r: bool)
        ensures
            r == (self@.len() == 0),
            self@.dom().finite(),
    {
        self.by_mac.len() == 0
    }

    /// The bindings as text, one line for each, in no particular order.
    pub fn status(&self) -> (r: String)
        ensures
            exists|order: Seq<MacAddr>| #[trigger]
                table::lists(order, self@.dom()) && r@ == lease_lines(self@, order, order.len()),
    {
        let keys = self.by_mac.keys();
        let mut s = String::new();
        push_text(&mut s, "  Leases:\n");
        assert(s@ =~= lease_lines(self@, keys@, 0));
        let mut i: usize = 0;
        while i < keys.len()
            invariant
                i <= keys@.len(),
                table::lists(keys@, self@.dom()),
                s@ == lease_lines(self@, keys@, i as nat),
            decreases keys@.len() - i,
        {
            let mac: MacAddr = keys[i];
            assert(keys@.contains(keys@[i as int]));
            match self.by_mac.get(&mac) {
                Some(ip) => {
                    push_text(&mut s, "    [");
                    push_octet_list(&mut s, &mac);
                    push_text(&mut s, "] → ");
                    let t = ip.to_string();
                    push_text(&mut s, t.as_str());
                    push_text(&mut s, "\n");
                    assert(s@ =~= lease_lines(self@, keys@, i as nat) + lease_line(mac, *ip));
                },
                None => {
                    assert(false);
                },
            }
            i = i + 1;
        }
        s
    }
}

/// A binding that was recorded is found again, until it is removed, and
/// recording or removing one leaves the bindings of other MACs alone.
pub proof fn law_lease_read_after_write(
    t: Map<MacAddr, Ipv4Addr>,
    mac: MacAddr,
    ip: Ipv4Addr,
    other: MacAddr,
)
    ensures
        t.insert(mac, ip).get(mac) == Some(ip),
        t.remove(mac).get(mac) is None,
        other != mac ==> t.insert(mac, ip).get(other) == t.get(other),
        other != mac ==> t.remove(mac).get(other) == t.get(other),
{
}

/// What can happen to the bindings.
pub enum LeaseEvent {
    Bound(MacAddr, Ipv4Addr),
    Removed(MacAddr),
}

impl Evolving for Map<MacAddr, Ipv4Addr> {
    type Event = LeaseEvent;

    open spec fn evolve(self, e: LeaseEvent) -> Self {
        match e {
            LeaseEvent::Bound(mac, ip) => self.insert(mac, ip),
            LeaseEvent::Removed(mac) => self.remove(mac),
        }
    }
}

impl Guarded for LeaseTable {
    open spec fn guarded(self, origin: Self) -> bool {
        history::reached(origin@, self@)
    }
}

/// A thread-safe handle to one [`LeaseTable`]. Cloning gives another handle to
/// the same underlying state.
///
/// What a call finds in the table is up to the other handles as well: the
/// contracts say what each call does with whatever it found. That is always
/// what bindings and removals have made of the table that the first handle was
/// made with.
pub struct SharedLeases {
    inner: Arc<SpinLock<LeaseTable>>,
}

impl Default for SharedLeases {
    fn default() -> (r: Self)
        ensures
            r.made_with() == Map::<MacAddr, Ipv4Addr>::empty(),
    {
        Self::new()
    }
}

impl Clone for SharedLeases {
    /// Another handle to the same table.
    fn clone(&self) -> (r: Self)
        ensures
            r == *self,
    {
        SharedLeases { inner: self.inner.clone() }
    }
}

impl SharedLeases {
    /// The bindings that the table was made with.
    pub closed spec fn made_with(self) -> Map<MacAddr, Ipv4Addr> {
        self.inner.made_with()@
    }

    /// A call on this handle can find the bindings `t`.
    pub open spec fn may_find(self, t: Map<MacAddr, Ipv4Addr>) -> bool {
        history::reached(self.made_with(), t)
    }

    /// A handle to a new, empty table.
    pub fn new() -> (r: Self)
        ensures
            r.made_with() == Map::<MacAddr, Ipv4Addr>::empty(),
    {
        let table = LeaseTable::default();
        proof {
            history::lemma_reached_itself(table@);
        }
        SharedLeases { inner: Arc::new(SpinLock::new(table)) }
    }

    /// IP currently bound to `mac`, if any.
    pub fn lookup(&self, mac: MacAddr) -> (r: Option<Ipv4Addr>)
        ensures
            exists|found: Map<MacAddr, Ipv4Addr>| #[trigger]
                self.may_find(found) && r == found.get(mac),
    {
        let guard = self.inner.lock();
        let r = guard.as_ref().lookup(mac);
        assert(self.may_find(guard.value()@));
        guard.unlock();
        r
    }

    /// Record a `mac -> ip` binding, replacing any previous binding for `mac`.
    pub fn insert(&self, mac: MacAddr, ip: Ipv4Addr) {
        let mut guard = self.inner.lock();
        proof {
            history::lemma_reached_next(
                self.made_with(),
                guard.value()@,
                LeaseEvent::Bound(mac, ip),
            );
        }
        guard.as_mut().insert(mac, ip);
        guard.unlock();
    }

    /// Remove and return the binding for `mac`, if it existed.
    pub fn remove(&self, mac: MacAddr) -> (r: Option<Ipv4Addr>)
        ensures
            exists|found: Map<MacAddr, Ipv4Addr>| #[trigger]
                self.may_find(found) && r == found.get(mac),
    {
        let mut guard = self.inner.lock();
        proof {
            history::lemma_reached_next(
                self.made_with(),
                guard.value()@,
                LeaseEvent::Removed(mac),
            );
            assert(self.may_find(guard.value()@));
        }
        let r = guard.as_mut().remove(mac);
        guard.unlock();
        r
    }

    /// Number of bindings currently held.
    pub fn len(&self) -> (r: usize)
        ensures
            exists|found: Map<MacAddr, Ipv4Addr>| #[trigger]
                self.may_find(found) && found.dom().finite() && r == found.len(),
    {
        let guard = self.inner.lock();
        let r: usize = guard.as_ref().len();
        assert(self.may_find(guard.value()@));
        guard.unlock();
        r
    }

    pub fn is_empty(&self) -> (r: bool)
        ensures
            exists|found: Map<MacAddr, Ipv4Addr>| #[trigger]
                self.may_find(found) && found.dom().finite() && r == (found.len() == 0),
    {
        let guard = self.inner.lock();
        let r: bool = guard.as_ref().is_empty();
        assert(self.may_find(guard.value()@));
        guard.unlock();
        r
    }

    /// The bindings as text, one line for each, in no particular order.
    pub fn status(&self) -> (r: String)
        ensures
            exists|found: Map<MacAddr, Ipv4Addr>, order: Seq<MacAddr>|
                #![trigger self.may_find(found), table::lists(order, found.dom())]
                self.may_find(found) && table::lists(order, found.dom()) && r@ == lease_lines(
                    found,
                    order,
                    order.len(),
                ),
    {
        let guard = self.inner.lock();
        let r = guard.as_ref().status();
        let ghost found = guard.value()@;
        proof {
            let order = choose|order: Seq<MacAddr>| #[trigger]
                table::lists(order, found.dom()) && r@ == lease_lines(found, order, order.len());
            assert(self.may_find(found) && table::lists(order, found.dom()));
        }
        guard.unlock();
        r
    }

    /// The table behind this handle, held until the guard is given back.
    pub(crate) fn lock(&self) -> (r: Guard<'_, LeaseTable>)
        ensures
            r.made_with()@ == self.made_with(),
            self.may_find(r.value()@),
    {
        self.inner.lock()
    }
}

/// Every lease has a line of its own in the status, with the six bytes of the
/// hardware address and the address that it was given.
pub proof fn law_every_lease_is_listed(
    leases: Map<MacAddr, Ipv4Addr>,
    order: Seq<MacAddr>,
    n: nat,
    i: int,
)
    requires
        0 <= i < n <= order.len(),
    ensures
        ({
            let line = "    ["@ + octet_list(order[i]@, 6) + "] → "@ + leases[order[i]].dotted()
                + "\n"@;
            exists|rest: Seq<char>|
                #![trigger lease_lines(leases, order, i as nat) + line + rest]
                lease_lines(leases, order, n) == lease_lines(leases, order, i as nat) + line + rest
        }),
    decreases n,
{
    let line = lease_line(order[i], leases[order[i]]);
    let upto = lease_lines(leases, order, i as nat);
    if i == n - 1 {
        assert(lease_lines(leases, order, n) =~= upto + line + seq![]);
    } else {
        law_every_lease_is_listed(leases, order, (n - 1) as nat, i);
        let rest = choose|rest: Seq<char>|
            #![trigger upto + line + rest]
            lease_lines(leases, order, (n - 1) as nat) == upto + line + rest;
        let last = lease_line(order[n - 1], leases[order[n - 1]]);
        assert(lease_lines(leases, order, n) =~= upto + line + (rest + last));
    }
}

/// In that line the bytes stand in order, with a comma and a space between them.
pub proof fn law_bytes_of_a_lease(mac: MacAddr)
    ensures
        octet_list(mac@, 6) == text::hex2(mac[0]) + ", "@ + text::hex2(mac[1]) + ", "@
            + text::hex2(mac[2]) + ", "@ + text::hex2(mac[3]) + ", "@ + text::hex2(mac[4]) + ", "@
            + text::hex2(mac[5]),
{
    reveal_with_fuel(octet_list, 7);
}

} // verus!
