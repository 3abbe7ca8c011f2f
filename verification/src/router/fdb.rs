//! A forwarding database (FDB) for Ethernet frames: a plain MAC -> port map.
//!
//! The data plane floods on a miss (unknown-unicast flood, the standard bridge
//! behaviour), so the FDB doesn't need to queue packets while waiting to learn
//! a destination MAC: the flood reaches it. That makes the FDB a pure cache:
//! `insert` records `src -> port` on every observed frame, and `lookup` returns
//! the cached egress port (if any).

use crate::net::ethernet;
use crate::net::ethernet::{display_mac, mac_to_u64, MacAddr};
use crate::sync::history;
use crate::sync::history::Evolving;
use crate::sync::spinlock::{Guarded, SpinLock};
use crate::table;
use crate::table::Table;
use crate::text;
use crate::text::{push_decimal, push_text};
use std::sync::Arc;
use vstd::prelude::*;

verus! {

/// The forwarding database.
pub struct Fdb {
    table: Table<MacAddr, u16>,
}

impl View for Fdb {
    /// The port behind which each MAC was last seen.
    type V = Map<MacAddr, u16>;

    closed spec fn view(&self) -> Map<MacAddr, u16> {
        self.table@
    }
}

/// MAC addresses in ascending order.
pub open spec fn ascending(macs: Seq<MacAddr>) -> bool {
    forall|i: int, j: int|
        0 <= i < j < macs.len() ==> ethernet::mac_code(#[trigger] macs[i]) < ethernet::mac_code(
            #[trigger] macs[j],
        )
}

/// The status lines of the first `n` entries of `order`.
pub open spec fn fdb_lines(fdb: Map<MacAddr, u16>, order: Seq<MacAddr>, n: nat) -> Seq<char>
    decreases n,
{
    if n == 0 {
        "FDB entries:\n"@
    } else {
        fdb_lines(fdb, order, (n - 1) as nat) + "  "@ + ethernet::mac_text(order[n - 1]@, 6)
            + " → port "@ + text::decimal(fdb[order[n - 1]] as nat) + "\n"@
    }
}

impl Default for Fdb {
    fn default() -> (r: Self)
        ensures
            r@ == Map::<MacAddr, u16>::empty(),
    {
        Self::new()
    }
}

impl Fdb {
    /// An empty database.
    pub fn new() -> (r: Self)
        ensures
            r@ == Map::<MacAddr, u16>::empty(),
    {
        Fdb { table: Table::new() }
    }

    /// Record `src -> port`. Overwrites any previous mapping for `src` so that
    /// a host that roams between physical ports gets re-learned on the new
    /// port the next time we see traffic from it.
    pub fn insert(&mut self, src: MacAddr, port: u16)
        ensures
            final(self)@ == old(self)@.insert(src, port),
    {
        self.table.insert(src, port);
    }

    /// Look up the egress port we last learned for `dst`. `None` means
    /// "unknown unicast": the caller should flood.
    pub fn lookup(&self, dst: MacAddr) -> (r: Option<u16>)
        ensures
            r == self@.get(dst),
    {
        match self.table.get(&dst) {
            Some(port) => Some(*port),
            None => None,
        }
    }

    /// Number of MACs currently learned.
    pub fn len(&self) -> (r: usize)
        ensures
            r == self@.len(),
            self@.dom().finite(),
    {
        self.table.len()
    }

    pub fn is_empty(&self) -> (r: bool)
        ensures
            r == (self@.len() == 0),
            self@.dom().finite(),
    {
        self.table.len() == 0
    }

    /// The learned MACs in ascending order.
    fn sorted_macs(&self) -> (r: Vec<MacAddr>)
        ensures
            table::lists(r@, self@.dom()),
            ascending(r@),
    {
        let keys = self.table.keys();
        let mut out: Vec<MacAddr> = Vec::new();
        let mut i: usize = 0;
        while i < keys.len()
            invariant
                i <= keys@.len(),
                keys@.no_duplicates(),
                ascending(out@),
                forall|m: MacAddr| #[trigger]
                    out@.contains(m) <==> exists|j: int| 0 <= j < i && keys@[j] == m,
            decreases keys@.len() - i,
        {
            let mac: MacAddr = keys[i];
            let code: u64 = mac_to_u64(&mac);
            let mut at: usize = 0;
            while at < out.len() && mac_to_u64(&out[at]) < code
                invariant
                    at <= out@.len(),
                    code == ethernet::mac_code(mac),
                    forall|j: int| 0 <= j < at ==> ethernet::mac_code(#[trigger] out@[j]) < code,
                decreases out@.len() - at,
            {
                at = at + 1;
            }
            let ghost before = out@;
            proof {
                if at < out@.len() {
                    if ethernet::mac_code(out@[at as int]) == code {
                        ethernet::lemma_mac_code_injective(out@[at as int], mac);
                        assert(out@.contains(mac));
                    }
                }
            }
            out.insert(at, mac);
            i = i + 1;
            proof {
                assert forall|m: MacAddr| #[trigger] out@.contains(m) <==> exists|j: int|
                    0 <= j < i && keys@[j] == m by {
                    if before.contains(m) {
                        let k = choose|k: int| 0 <= k < before.len() && before[k] == m;
                        if k < at {
                            assert(out@[k] == m);
                        } else {
                            assert(out@[k + 1] == m);
                        }
                    }
                    if m == mac {
                        assert(out@[at as int] == m);
                        assert(keys@[i - 1] == m);
                    }
                    if out@.contains(m) && m != mac {
                        let k = choose|k: int| 0 <= k < out@.len() && out@[k] == m;
                        if k < at {
                            assert(before[k] == m);
                        } else {
                            assert(before[k - 1] == m);
                        }
                    }
                }
                assert forall|a: int, b: int| 0 <= a < b < out@.len() implies ethernet::mac_code(
                    #[trigger] out@[a],
                ) < ethernet::mac_code(#[trigger] out@[b]) by {
                    let a0 = if a < at {
                        a
                    } else {
                        a - 1
                    };
                    let b0 = if b < at {
                        b
                    } else {
                        b - 1
                    };
                    if a == at {
                        assert(out@[b] == before[b0]);
                        if b0 > at {
                            assert(ethernet::mac_code(before[at as int]) < ethernet::mac_code(
                                before[b0],
                            ));
                        }
                    } else if b == at {
                        assert(out@[a] == before[a0]);
                    } else {
                        assert(out@[a] == before[a0] && out@[b] == before[b0]);
                    }
                }
            }
        }
        proof {
            assert forall|m: MacAddr| #[trigger] self@.dom().contains(m) <==> out@.contains(m) by {
                if self@.dom().contains(m) {
                    assert(keys@.contains(m));
                }
                if out@.contains(m) {
                    assert(keys@.contains(m));
                }
            }
            assert forall|a: int, b: int| 0 <= a < b < out@.len() implies out@[a] != out@[b] by {
                assert(ethernet::mac_code(out@[a]) < ethernet::mac_code(out@[b]));
            }
        }
        out
    }

    /// The entries as text, one line for each, in ascending order of MACs.
    pub fn status(&self) -> (r: String)
        ensures
            exists|order: Seq<MacAddr>|
                #![trigger ascending(order)]
                table::lists(order, self@.dom()) && ascending(order) && r@ == fdb_lines(
                    self@,
                    order,
                    order.len(),
                ),
    {
        let macs = self.sorted_macs();
        let mut s = String::new();
        push_text(&mut s, "FDB entries:\n");
        assert(s@ =~= fdb_lines(self@, macs@, 0));
        let mut i: usize = 0;
        while i < macs.len()
            invariant
                i <= macs@.len(),
                table::lists(macs@, self@.dom()),
                s@ == fdb_lines(self@, macs@, i as nat),
            decreases macs@.len() - i,
        {
            let mac: MacAddr = macs[i];
            assert(macs@.contains(macs@[i as int]));
            match self.table.get(&mac) {
                Some(port) => {
                    push_text(&mut s, "  ");
                    let t = display_mac(&mac);
                    push_text(&mut s, t.as_str());
                    push_text(&mut s, " → port ");
                    push_decimal(&mut s, *port as u64);
                    push_text(&mut s, "\n");
                },
                None => {
                    assert(false);
                },
            }
            i = i + 1;
            assert(s@ =~= fdb_lines(self@, macs@, i as nat));
        }
        assert(ascending(macs@));
        s
    }
}

/// A learned port is found again, and a host that is seen on another port is
/// found on that one from then on; other hosts keep theirs.
pub proof fn law_fdb_read_after_write(
    t: Map<MacAddr, u16>,
    mac: MacAddr,
    port: u16,
    later: u16,
    other: MacAddr,
)
    ensures
        t.insert(mac, port).get(mac) == Some(port),
        t.insert(mac, port).insert(mac, later).get(mac) == Some(later),
        other != mac ==> t.insert(mac, port).get(other) == t.get(other),
{
}

/// `mac` was seen behind `port`.
pub struct Sighting {
    pub mac: MacAddr,
    pub port: u16,
}

impl Evolving for Map<MacAddr, u16> {
    type Event = Sighting;

    open spec fn evolve(self, e: Sighting) -> Self {
        self.insert(e.mac, e.port)
    }
}

impl Guarded for Fdb {
    open spec fn guarded(self, origin: Self) -> bool {
        history::reached(origin@, self@)
    }
}

/// Cloneable handle to an [`Fdb`] shared across workers. Operations take the
/// spinlock briefly.
///
/// What a call finds in the database is up to the other handles as well: the
/// contracts say what each call does with whatever it found. That is always
/// what sightings have made of the database that the first handle was made
/// with.
pub struct SharedFdb {
    inner: Arc<SpinLock<Fdb>>,
}

impl Default for SharedFdb {
    fn default() -> (r: Self)
        ensures
            r.made_with() == Map::<MacAddr, u16>::empty(),
    {
        Self::new()
    }
}

impl Clone for SharedFdb {
    /// Another handle to the same table.
    fn clone(&self) -> (r: Self)
        ensures
            r == *self,
    {
        SharedFdb { inner: self.inner.clone() }
    }
}

impl SharedFdb {
    /// The entries that the database was made with.
    pub closed spec fn made_with(self) -> Map<MacAddr, u16> {
        self.inner.made_with()@
    }

    /// A call on this handle can find the entries `t`.
    pub open spec fn may_find(self, t: Map<MacAddr, u16>) -> bool {
        history::reached(self.made_with(), t)
    }

    /// A handle to a new, empty database.
    pub fn new() -> (r: Self)
        ensures
            r.made_with() == Map::<MacAddr, u16>::empty(),
    {
        let fdb = Fdb::new();
        proof {
            history::lemma_reached_itself(fdb@);
        }
        SharedFdb { inner: Arc::new(SpinLock::new(fdb)) }
    }

    /// Record `src -> port`.
    pub fn insert(&self, src: MacAddr, port: u16) {
        let mut guard = self.inner.lock();
        proof {
            history::lemma_reached_next(
                self.made_with(),
                guard.value()@,
                Sighting { mac: src, port },
            );
        }
        guard.as_mut().insert(src, port);
        guard.unlock();
    }

    /// The port last learned for `dst`.
    pub fn lookup(&self, dst: MacAddr) -> (r: Option<u16>)
        ensures
            exists|found: Map<MacAddr, u16>| #[trigger]
                self.may_find(found) && r == found.get(dst),
    {
        let guard = self.inner.lock();
        let r = guard.as_ref().lookup(dst);
        assert(self.may_find(guard.value()@));
        guard.unlock();
        r
    }

    /// Number of MACs currently learned.
    pub fn len(&self) -> (r: usize)
        ensures
            exists|found: Map<MacAddr, u16>| #[trigger]
                self.may_find(found) && found.dom().finite() && r == found.len(),
    {
        let guard = self.inner.lock();
        let r: usize = guard.as_ref().len();
        assert(self.may_find(guard.value()@));
        guard.unlock();
        r
    }
}

/// Every host that is known has a line of its own in the status, with its address
/// and its port.
pub proof fn law_every_host_is_listed(
    fdb: Map<MacAddr, u16>,
    order: Seq<MacAddr>,
    n: nat,
    i: int,
)
    requires
        0 <= i < n <= order.len(),
    ensures
        ({
            let line = "  "@ + ethernet::mac_text(order[i]@, 6) + " → port "@ + text::decimal(
                fdb[order[i]] as nat,
            ) + "\n"@;
            exists|rest: Seq<char>|
                #![trigger fdb_lines(fdb, order, i as nat) + line + rest]
                fdb_lines(fdb, order, n) == fdb_lines(fdb, order, i as nat) + line + rest
        }),
    decreases n,
{
    let line = "  "@ + ethernet::mac_text(order[i]@, 6) + " → port "@ + text::decimal(
        fdb[order[i]] as nat,
    ) + "\n"@;
    let last = "  "@ + ethernet::mac_text(order[n - 1]@, 6) + " → port "@ + text::decimal(
        fdb[order[n - 1]] as nat,
    ) + "\n"@;
    let before = fdb_lines(fdb, order, (n - 1) as nat);
    let upto = fdb_lines(fdb, order, i as nat);
    assert(fdb_lines(fdb, order, n) =~= before + last);
    if i == n - 1 {
        assert(fdb_lines(fdb, order, n) =~= upto + line + seq![]);
    } else {
        law_every_host_is_listed(fdb, order, (n - 1) as nat, i);
        let rest = choose|rest: Seq<char>|
            #![trigger upto + line + rest]
            before == upto + line + rest;
        assert(fdb_lines(fdb, order, n) =~= upto + line + (rest + last));
    }
}

} // verus!
