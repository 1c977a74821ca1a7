//! Which machines the server can send inputs to.
//!
//! Destination zero is the server's own machine. A client in slot `n` is
//! destination `n + 1`.
use vstd::prelude::*;

use crate::held_inputs::{HeldInputs, HeldView};
use crate::slots::{
    ascending, contains, in_order, one_order, remove, slab_entries, slab_vacated, slots,
};

verus! {

/// Whether a destination is the own machine or a client that is there.
pub open spec fn is_live(clients: Map<usize, u64>, destination: usize) -> bool {
    destination == 0 || clients.contains_key((destination - 1) as usize)
}

/// Whether a destination comes next after another: it is the first client
/// behind it or, behind the last client, the own machine.
pub open spec fn comes_next(clients: Map<usize, u64>, current: usize, next: usize) -> bool {
    if next == 0 {
        forall|id: usize| #[trigger] clients.contains_key(id) ==> id + 1 <= current
    } else {
        &&& next > current
        &&& is_live(clients, next)
        &&& forall|id: usize| #[trigger]
            clients.contains_key(id) && id + 1 > current ==> next <= id + 1
    }
}

/// The clients without those whose slots are listed.
pub open spec fn clients_without(clients: Map<usize, u64>, closed: Set<usize>) -> Map<usize, u64> {
    clients.remove_keys(closed)
}

/// What is held, without what is held at clients whose slots are listed.
pub open spec fn held_without(
    held: HeldView,
    clients: Map<usize, u64>,
    closed: Set<usize>,
) -> HeldView {
    Map::new(
        |at: (usize, usize)|
            held.contains_key(at) && !(at.0 > 0 && clients.contains_key((at.0 - 1) as usize)
                && closed.contains((at.0 - 1) as usize)),
        |at: (usize, usize)| held[at],
    )
}

/// The destination after some clients are gone: the own machine, where the one
/// that was current is gone.
pub open spec fn destination_after(clients: Map<usize, u64>, current: usize) -> usize {
    if is_live(clients, current) {
        current
    } else {
        0
    }
}

/// The slots that listed clients give up, in the order in which they do.
pub open spec fn slots_given_up(clients: Map<usize, u64>, closed: Set<usize>) -> Seq<usize> {
    in_order(clients.dom().intersect(closed))
}

/// Whether a slot is listed.
fn listed(slots: &[usize], slot: usize) -> (found: bool)
    ensures
        found == slots@.to_set().contains(slot),
{
    let mut i: usize = 0;
    while i < slots.len()
        invariant
            i <= slots@.len(),
            forall|j: int| 0 <= j < i ==> slots@[j] != slot,
        decreases slots@.len() - i,
    {
        if slots[i] == slot {
            assert(slots@.contains(slot));
            return true;
        }
        i += 1;
    }
    assert(!slots@.contains(slot));
    false
}

/// Forget the clients whose connections are closed, and what is held there.
///
/// A client that switches desktops commonly connects again before its old
/// connection notices. Forgetting the old one before the next event is routed
/// keeps the shortcut from selecting a stale destination.
pub fn remove_closed_clients(
    clients: &mut slab::Slab<u64>,
    closed: &[usize],
    held: &mut HeldInputs,
    current: &mut usize,
)
    requires
        old(held).wf(),
    ensures
        slab_entries(*final(clients)) == clients_without(
            slab_entries(*old(clients)),
            closed@.to_set(),
        ),
        slab_vacated(*final(clients)) == slab_vacated(*old(clients)) + slots_given_up(
            slab_entries(*old(clients)),
            closed@.to_set(),
        ),
        final(held).wf(),
        final(held)@ == held_without(old(held)@, slab_entries(*old(clients)), closed@.to_set()),
        *final(current) == destination_after(slab_entries(*final(clients)), *old(current)),
{
    let ids = slots(clients);
    let ghost entries = slab_entries(*clients);
    let ghost before = held@;
    let ghost vacated = slab_vacated(*clients);
    let ghost mut gone: Seq<usize> = Seq::empty();
    let mut i: usize = 0;
    assert(ids@.take(0) =~= Seq::<usize>::empty());
    assert(vacated =~= vacated + gone);
    while i < ids.len()
        invariant
            i <= ids@.len(),
            held.wf(),
            ascending(ids@),
            forall|j: int| 0 <= j < ids@.len() ==> #[trigger] ids@[j] < usize::MAX,
            forall|id: usize| ids@.contains(id) <==> #[trigger] entries.contains_key(id),
            forall|id: usize| #[trigger]
                slab_entries(*clients).contains_key(id) <==> entries.contains_key(id)
                    && !gone.contains(id),
            forall|id: usize| #[trigger]
                slab_entries(*clients).contains_key(id) ==> slab_entries(*clients)[id]
                    == entries[id],
            forall|at: (usize, usize)| #[trigger]
                held@.contains_key(at) <==> before.contains_key(at) && !(at.0 > 0 && gone.contains(
                    (at.0 - 1) as usize,
                )),
            forall|at: (usize, usize)| #[trigger]
                held@.contains_key(at) ==> held@[at] == before[at],
            slab_vacated(*clients) == vacated + gone,
            ascending(gone),
            forall|id: usize| #[trigger]
                gone.contains(id) <==> closed@.to_set().contains(id) && ids@.take(
                    i as int,
                ).contains(id),
        decreases ids@.len() - i,
    {
        let id: usize = ids[i];
        let ghost earlier = gone;
        assert(ids@.contains(id));
        assert(ids@.take(i + 1) =~= ids@.take(i as int).push(id));
        proof {
            assert forall|j: int| 0 <= j < earlier.len() implies earlier[j] < id by {
                assert(earlier.contains(earlier[j]));
                let k = choose|k: int|
                    0 <= k < i && (#[trigger] ids@.take(i as int)[k]) == earlier[j];
                assert(ids@[k] == earlier[j]);
            }
            assert forall|other: usize| #[trigger] ids@.take(i + 1).contains(other)
                <==> other == id || ids@.take(i as int).contains(other) by {
                if other == id {
                    assert(ids@.take(i + 1)[i as int] == other);
                } else if ids@.take(i as int).contains(other) {
                    let k = choose|k: int| 0 <= k < i && ids@.take(i as int)[k] == other;
                    assert(ids@.take(i + 1)[k] == other);
                }
            }
            if earlier.contains(id) {
                let j = choose|j: int| 0 <= j < earlier.len() && earlier[j] == id;
                assert(earlier[j] < id);
            }
        }
        if listed(closed, id) {
            let ghost kept = held@;
            remove(clients, id);
            held.remove_destination(id + 1);
            proof {
                gone = earlier.push(id);
                assert forall|other: usize| #[trigger] gone.contains(other) <==> other == id
                    || earlier.contains(other) by {
                    if other == id {
                        assert(gone[earlier.len() as int] == other);
                    } else if earlier.contains(other) {
                        let j = choose|j: int| 0 <= j < earlier.len() && earlier[j] == other;
                        assert(gone[j] == other);
                    }
                }
                assert((vacated + earlier).push(id) =~= vacated + gone);
                assert forall|at: (usize, usize)| #[trigger] held@.contains_key(at)
                    <==> before.contains_key(at) && !(at.0 > 0 && gone.contains(
                    (at.0 - 1) as usize,
                )) by {
                    assert(held@.contains_key(at) <==> kept.contains_key(at) && at.0 != id + 1);
                }
            }
        }
        i += 1;
    }
    proof {
        let set = closed@.to_set();
        assert(ids@.take(i as int) =~= ids@);
        assert(slab_entries(*clients) =~= clients_without(entries, set));
        assert(gone.to_set() =~= entries.dom().intersect(set));
        one_order(gone);
        assert(held@ =~= held_without(before, entries, set));
    }
    if *current != 0 && !contains(clients, *current - 1) {
        *current = 0;
    }
}

/// The destination that the shortcut selects.
pub fn next_destination(current: usize, clients: &slab::Slab<u64>) -> (next: usize)
    ensures
        comes_next(slab_entries(*clients), current, next),
{
    let ids = slots(clients);
    let ghost entries = slab_entries(*clients);
    let mut i: usize = 0;
    while i < ids.len()
        invariant
            i <= ids@.len(),
            ascending(ids@),
            entries == slab_entries(*clients),
            forall|j: int| 0 <= j < ids@.len() ==> #[trigger] ids@[j] < usize::MAX,
            forall|id: usize| ids@.contains(id) <==> #[trigger] entries.contains_key(id),
            forall|j: int| 0 <= j < i ==> #[trigger] ids@[j] + 1 <= current,
        decreases ids@.len() - i,
    {
        let destination: usize = ids[i] + 1;
        if destination > current {
            proof {
                assert(ids@.contains(ids@[i as int]));
                assert forall|id: usize| #[trigger] entries.contains_key(id) && id + 1
                    > current implies destination <= id + 1 by {
                    let j = choose|j: int| 0 <= j < ids@.len() && ids@[j] == id;
                    assert(ids@[j] == id);
                    if j > i {
                        assert(ids@[i as int] < ids@[j]);
                    }
                }
            }
            return destination;
        }
        i += 1;
    }
    proof {
        assert forall|id: usize| #[trigger] entries.contains_key(id) implies id + 1 <= current by {
            let j = choose|j: int| 0 <= j < ids@.len() && ids@[j] == id;
            assert(ids@[j] == id);
        }
    }
    0
}

/// Only one destination comes next.
pub proof fn one_destination_comes_next(
    clients: Map<usize, u64>,
    current: usize,
    a: usize,
    b: usize,
)
    requires
        comes_next(clients, current, a),
        comes_next(clients, current, b),
    ensures
        a == b,
{
    if a != 0 {
        assert(clients.contains_key((a - 1) as usize));
    }
    if b != 0 {
        assert(clients.contains_key((b - 1) as usize));
    }
}

/// What comes next is there.
pub proof fn the_next_destination_is_live(clients: Map<usize, u64>, current: usize, next: usize)
    requires
        comes_next(clients, current, next),
    ensures
        is_live(clients, next),
{
}

/// Destinations that the shortcut selects one after the other.
pub open spec fn is_cycle(clients: Map<usize, u64>, path: Seq<usize>) -> bool {
    forall|i: int| #![trigger path[i]]
        0 < i < path.len() ==> comes_next(clients, path[i - 1], path[i])
}

/// Every client can be reached: from any destination before it, pressing the
/// shortcut often enough selects it, however sparse the slots are.
pub proof fn every_client_is_reached(
    clients: Map<usize, u64>,
    current: usize,
    destination: usize,
) -> (path: Seq<usize>)
    requires
        destination > current,
        is_live(clients, destination),
    ensures
        path.len() > 1,
        path[0] == current,
        path.last() == destination,
        is_cycle(clients, path),
    decreases destination - current,
{
    let next = first_behind(clients, current, destination);
    if next == destination {
        seq![current, destination]
    } else {
        let rest = every_client_is_reached(clients, next, destination);
        let path = seq![current] + rest;
        assert forall|i: int| #![trigger path[i]] 0 < i < path.len() implies comes_next(
            clients,
            path[i - 1],
            path[i],
        ) by {
            if i > 1 {
                assert(rest[i - 1] == path[i]);
                assert(rest[i - 2] == path[i - 1]);
            }
        }
        path
    }
}

proof fn first_behind(clients: Map<usize, u64>, current: usize, destination: usize) -> (next: usize)
    requires
        destination > current,
        is_live(clients, destination),
    ensures
        comes_next(clients, current, next),
        current < next <= destination,
    decreases destination - current,
{
    if exists|id: usize| #[trigger]
        clients.contains_key(id) && current < id + 1 && id + 1 < destination {
        let id = choose|id: usize| #[trigger]
            clients.contains_key(id) && current < id + 1 && id + 1 < destination;
        first_behind(clients, current, (id + 1) as usize)
    } else {
        destination
    }
}

/// Behind the last client the shortcut selects the own machine again.
pub proof fn the_own_machine_comes_last(clients: Map<usize, u64>, current: usize)
    requires
        forall|id: usize| #[trigger] clients.contains_key(id) ==> id + 1 <= current,
    ensures
        comes_next(clients, current, 0),
        forall|next: usize| #[trigger] comes_next(clients, current, next) ==> next == 0,
{
    assert forall|next: usize| #[trigger] comes_next(clients, current, next) implies next == 0 by {
        one_destination_comes_next(clients, current, next, 0);
    }
}

/// After closed clients have been forgotten the shortcut selects none of them,
/// and neither is one of them current.
pub proof fn closed_clients_are_not_selected(
    clients: Map<usize, u64>,
    closed: Set<usize>,
    current: usize,
    next: usize,
)
    requires
        comes_next(
            clients_without(clients, closed),
            destination_after(clients_without(clients, closed), current),
            next,
        ),
    ensures
        ({
            let after = destination_after(clients_without(clients, closed), current);
            &&& after > 0 ==> !closed.contains((after - 1) as usize)
            &&& next > 0 ==> !closed.contains((next - 1) as usize)
        }),
{
}

/// The shortcut leads to the first client behind the current machine, and behind the
/// last client back to the own machine: nobody who is there is passed over.
pub proof fn nobody_is_passed_over(
    clients: Map<usize, u64>,
    current: usize,
    next: usize,
    slot: usize,
)
    requires
        comes_next(clients, current, next),
        clients.contains_key(slot),
    ensures
        next == 0 ==> slot < current,
        next != 0 ==> next > current && clients.contains_key((next - 1) as usize),
        next != 0 && slot >= current ==> slot + 1 >= next,
{
}

/// A machine can get inputs exactly where it is the own one or a client that is
/// there.
pub proof fn only_machines_that_are_there_count(
    clients: Map<usize, u64>,
    closed: Set<usize>,
    destination: usize,
)
    ensures
        is_live(clients, 0),
        destination > 0 ==> (is_live(clients, destination) <==> clients.contains_key(
            (destination - 1) as usize,
        )),
        destination_after(clients_without(clients, closed), destination) == if destination > 0 && (
        !clients.contains_key((destination - 1) as usize) || closed.contains(
            (destination - 1) as usize,
        )) {
            0
        } else {
            destination
        },
{
}

} // verus!
