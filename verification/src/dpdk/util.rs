//! Assignment of ports to logical cores.

use crate::dpdk::lcore::Lcore;
use crate::dpdk::port::PortInfo;
use std::collections::{BTreeMap, HashMap};
use vstd::prelude::*;

verus! {

broadcast use {
    vstd::std_specs::hash::group_hash_axioms,
    vstd::std_specs::btree::group_btree_axioms,
    vstd::laws_cmp::group_laws_cmp,
};

/// How many ports an lcore has been given.
pub open spec fn load_of(load: Map<u32, nat>, id: u32) -> nat {
    if load.dom().contains(id) {
        load[id]
    } else {
        0
    }
}

/// Among the first `n` lcores, those on `socket` if one is given, the first one
/// with the least load.
pub open spec fn least_loaded(
    lcores: Seq<Lcore>,
    load: Map<u32, nat>,
    socket: Option<u32>,
    n: nat,
) -> Option<Lcore>
    decreases n,
{
    if n == 0 {
        None
    } else {
        let best = least_loaded(lcores, load, socket, (n - 1) as nat);
        let l = lcores[n - 1];
        if socket is Some && socket != Some(l.socket) {
            best
        } else {
            match best {
                Some(b) => if load_of(load, l.id) < load_of(load, b.id) {
                    Some(l)
                } else {
                    best
                },
                None => Some(l),
            }
        }
    }
}

/// The lcore that a port on `socket` is given: the least loaded one on the same
/// socket, or, if there is none there, the least loaded one of all.
pub open spec fn choice(lcores: Seq<Lcore>, load: Map<u32, nat>, socket: u32) -> Lcore {
    match least_loaded(lcores, load, Some(socket), lcores.len()) {
        Some(l) => l,
        None => least_loaded(lcores, load, None, lcores.len())->0,
    }
}

/// The load after the first `n` ports were assigned.
pub open spec fn load_after(ports: Seq<PortInfo>, lcores: Seq<Lcore>, n: nat) -> Map<u32, nat>
    decreases n,
{
    if n == 0 {
        Map::empty()
    } else {
        let load = load_after(ports, lcores, (n - 1) as nat);
        let l = choice(lcores, load, #[verifier::truncate] (ports[n - 1].socket_id as u32));
        load.insert(l.id, load_of(load, l.id) + 1)
    }
}

/// The lcore of each of the first `n` ports.
pub open spec fn assigned(ports: Seq<PortInfo>, lcores: Seq<Lcore>, n: nat) -> Map<u16, u32>
    decreases n,
{
    if n == 0 {
        Map::empty()
    } else {
        let load = load_after(ports, lcores, (n - 1) as nat);
        let l = choice(lcores, load, #[verifier::truncate] (ports[n - 1].socket_id as u32));
        assigned(ports, lcores, (n - 1) as nat).insert(ports[n - 1].port_id, l.id)
    }
}

/// The ghost form of a load table.
spec fn loads(m: Map<u32, usize>) -> Map<u32, nat> {
    Map::new(|id: u32| m.dom().contains(id), |id: u32| m[id] as nat)
}

fn read_load(load: &HashMap<u32, usize>, id: u32) -> (r: usize)
    ensures
        r == load_of(loads(load@), id),
{
    match load.get(&id) {
        Some(n) => *n,
        None => 0,
    }
}

fn find_least_loaded(
    lcores: &[Lcore],
    load: &HashMap<u32, usize>,
    socket: Option<u32>,
) -> (r: Option<Lcore>)
    ensures
        r == least_loaded(lcores@, loads(load@), socket, lcores@.len()),
{
    let mut best: Option<Lcore> = None;
    let mut i: usize = 0;
    while i < lcores.len()
        invariant
            i <= lcores@.len(),
            best == least_loaded(lcores@, loads(load@), socket, i as nat),
        decreases lcores@.len() - i,
    {
        let l: Lcore = lcores[i];
        let eligible: bool = match socket {
            Some(s) => s == l.socket,
            None => true,
        };
        if eligible {
            let better: bool = match best {
                Some(b) => read_load(load, l.id) < read_load(load, b.id),
                None => true,
            };
            if better {
                best = Some(l);
            }
        }
        i = i + 1;
    }
    best
}

/// There is a least loaded lcore among all of them if there is one at all.
proof fn lemma_some_is_least(lcores: Seq<Lcore>, load: Map<u32, nat>, n: nat)
    requires
        0 < n <= lcores.len(),
    ensures
        least_loaded(lcores, load, None, n) is Some,
    decreases n,
{
    if n > 1 {
        lemma_some_is_least(lcores, load, (n - 1) as nat);
    }
}

/// No lcore has been given more ports than there are.
proof fn lemma_load_bound(ports: Seq<PortInfo>, lcores: Seq<Lcore>, n: nat, id: u32)
    ensures
        load_of(load_after(ports, lcores, n), id) <= n,
    decreases n,
{
    if n > 0 {
        let load = load_after(ports, lcores, (n - 1) as nat);
        let l = choice(lcores, load, #[verifier::truncate] (ports[n - 1].socket_id as u32));
        lemma_load_bound(ports, lcores, (n - 1) as nat, id);
        lemma_load_bound(ports, lcores, (n - 1) as nat, l.id);
    }
}

/// A greedy algorithm to assign ports to lcores.
/// First attempts to assign ports to lcores on the same socket,
/// then assigns remaining ports to the least loaded lcore regardless of socket.
pub fn assign_ports(ports: &[PortInfo], lcores: &[Lcore]) -> (r: BTreeMap<u16, u32>)
    requires
        lcores@.len() > 0,
    ensures
        r@ == assigned(ports@, lcores@, ports@.len()),
{
    let mut assignments: BTreeMap<u16, u32> = BTreeMap::new();
    let mut load: HashMap<u32, usize> = HashMap::new();
    let mut i: usize = 0;
    assert(loads(load@) =~= load_after(ports@, lcores@, 0));
    assert(assignments@ =~= assigned(ports@, lcores@, 0));
    while i < ports.len()
        invariant
            lcores@.len() > 0,
            i <= ports@.len(),
            loads(load@) == load_after(ports@, lcores@, i as nat),
            assignments@ == assigned(ports@, lcores@, i as nat),
        decreases ports@.len() - i,
    {
        let socket: u32 = #[verifier::truncate] (ports[i].socket_id as u32);
        let selected: Lcore = match find_least_loaded(lcores, &load, Some(socket)) {
            Some(l) => l,
            None => {
                proof {
                    lemma_some_is_least(lcores@, loads(load@), lcores@.len());
                }
                match find_least_loaded(lcores, &load, None) {
                    Some(l) => l,
                    None => lcores[0],
                }
            },
        };
        assignments.insert(ports[i].port_id, selected.id);
        let n: usize = read_load(&load, selected.id);
        proof {
            lemma_load_bound(ports@, lcores@, i as nat, selected.id);
        }
        let ghost before = load@;
        load.insert(selected.id, n + 1);
        assert(loads(load@) =~= loads(before).insert(selected.id, (n + 1) as nat));
        i = i + 1;
    }
    assignments
}

/// Every port is assigned to one of the lcores: to one on its own socket if
/// there is one, and of those that come into question to one with the least
/// load.
pub proof fn law_ports_stay_local(lcores: Seq<Lcore>, load: Map<u32, nat>, socket: u32, i: int)
    requires
        0 <= i < lcores.len(),
    ensures
        ({
            let l = choice(lcores, load, socket);
            &&& lcores.contains(l)
            &&& lcores[i].socket == socket ==> l.socket == socket && load_of(load, l.id)
                <= load_of(load, lcores[i].id)
            &&& l.socket != socket ==> load_of(load, l.id) <= load_of(load, lcores[i].id)
        }),
{
    lemma_some_is_least(lcores, load, lcores.len());
    lemma_least_loaded(lcores, load, Some(socket), lcores.len(), i);
    lemma_least_loaded(lcores, load, None, lcores.len(), i);
}

proof fn lemma_least_loaded(
    lcores: Seq<Lcore>,
    load: Map<u32, nat>,
    socket: Option<u32>,
    n: nat,
    i: int,
)
    requires
        n <= lcores.len(),
        0 <= i < lcores.len(),
    ensures
        least_loaded(lcores, load, socket, n) matches Some(l) ==> lcores.contains(l) && (socket
            is Some ==> socket == Some(l.socket)),
        i < n && (socket is Some ==> socket == Some(lcores[i].socket)) ==> (least_loaded(
            lcores,
            load,
            socket,
            n,
        ) matches Some(l) && load_of(load, l.id) <= load_of(load, lcores[i].id)),
    decreases n,
{
    if n > 0 {
        lemma_least_loaded(lcores, load, socket, (n - 1) as nat, i);
        assert(lcores.contains(lcores[n - 1]));
    }
}

/// Every port has an lcore, the one that was chosen for it with the ports before
/// it taken into account: each of them counts as one for the lcore that it has.
pub proof fn law_every_port_has_its_lcore(
    ports: Seq<PortInfo>,
    lcores: Seq<Lcore>,
    k: int,
    id: u32,
)
    requires
        0 <= k < ports.len(),
        forall|i: int, j: int|
            0 <= i < j < ports.len() ==> (#[trigger] ports[i]).port_id != (
            #[trigger] ports[j]).port_id,
    ensures
        ({
            let before = load_after(ports, lcores, k as nat);
            let after = load_after(ports, lcores, (k + 1) as nat);
            let l = choice(lcores, before, #[verifier::truncate] (ports[k].socket_id as u32));
            &&& assigned(ports, lcores, ports.len()).get(ports[k].port_id) == Some(l.id)
            &&& load_of(after, l.id) == load_of(before, l.id) + 1
            &&& id != l.id ==> load_of(after, id) == load_of(before, id)
            &&& load_of(load_after(ports, lcores, 0), id) == 0
        }),
{
    lemma_assigned(ports, lcores, ports.len(), k);
}

proof fn lemma_assigned(ports: Seq<PortInfo>, lcores: Seq<Lcore>, n: nat, k: int)
    requires
        0 <= k < n <= ports.len(),
        forall|i: int, j: int|
            0 <= i < j < ports.len() ==> (#[trigger] ports[i]).port_id != (
            #[trigger] ports[j]).port_id,
    ensures
        assigned(ports, lcores, n).get(ports[k].port_id) == Some(
            choice(
                lcores,
                load_after(ports, lcores, k as nat),
                #[verifier::truncate] (ports[k].socket_id as u32),
            ).id,
        ),
    decreases n,
{
    if k < n - 1 {
        lemma_assigned(ports, lcores, (n - 1) as nat, k);
        assert(ports[k].port_id != ports[n - 1].port_id);
    }
}

/// Of several lcores with the least load the first one is chosen: those that
/// come into question before it all have more.
pub proof fn law_the_first_of_equals_is_chosen(
    lcores: Seq<Lcore>,
    load: Map<u32, nat>,
    socket: u32,
)
    requires
        lcores.len() > 0,
    ensures
        ({
            let l = choice(lcores, load, socket);
            exists|i: int|
                #![trigger lcores[i]]
                {
                    &&& 0 <= i < lcores.len()
                    &&& lcores[i] == l
                    &&& forall|j: int|
                        #![trigger lcores[j]]
                        0 <= j < i && (lcores[j].socket == socket || l.socket != socket)
                            ==> load_of(load, l.id) < load_of(load, lcores[j].id)
                }
        }),
{
    law_ports_stay_local(lcores, load, socket, 0);
    lemma_first_of_equals(lcores, load, Some(socket), lcores.len());
    lemma_first_of_equals(lcores, load, None, lcores.len());
    lemma_some_is_least(lcores, load, lcores.len());
}

proof fn lemma_first_of_equals(
    lcores: Seq<Lcore>,
    load: Map<u32, nat>,
    socket: Option<u32>,
    n: nat,
)
    requires
        n <= lcores.len(),
    ensures
        least_loaded(lcores, load, socket, n) matches Some(l) ==> exists|i: int|
            #![trigger lcores[i]]
            {
                &&& 0 <= i < n
                &&& lcores[i] == l
                &&& socket is Some ==> l.socket == socket->0
                &&& forall|j: int|
                    #![trigger lcores[j]]
                    0 <= j < i && (socket is None || socket == Some(lcores[j].socket)) ==> load_of(
                        load,
                        l.id,
                    ) < load_of(load, lcores[j].id)
            },
    decreases n,
{
    if n > 0 {
        lemma_first_of_equals(lcores, load, socket, (n - 1) as nat);
        assert(lcores[n - 1] == lcores[n - 1]);
        let l = lcores[n - 1];
        let best = least_loaded(lcores, load, socket, (n - 1) as nat);
        if least_loaded(lcores, load, socket, n) == Some(l) && best != Some(l) {
            assert forall|j: int|
                #![trigger lcores[j]]
                0 <= j < n - 1 && (socket is None || socket == Some(
                    lcores[j].socket,
                )) implies load_of(load, l.id) < load_of(load, lcores[j].id) by {
                lemma_least_loaded(lcores, load, socket, (n - 1) as nat, j);
            }
        }
    }
}

} // verus!
