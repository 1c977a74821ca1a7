//! What a client knows of the devices of its server.
use vstd::prelude::*;

use crate::client::{
    applied, distinct_devices, has_device, refusal, Applied, Error, WriterView, WritersView,
};
use crate::error::{ErrorKind, InputError, NetworkError};
use crate::server::{
    all_clients, announcement, client_accepted, device_added, device_given_up, device_removed,
    failure_handled, introductions, with_device, Broadcast, Error as ServerError, ServerView,
};
use crate::shared::SharedView;
use crate::slots::{ascending, every_set_has_an_order, in_order, next_slot};
use crate::suppression::{is_run, step_taken, Step};
use crate::update::{device_of, DeviceInfo, InfoView, Update, UpdateView};

verus! {

/// The devices that a client knows after an update, unless the update makes no
/// sense to it: a device is created twice, or one is destroyed or has an event
/// that was not created.
pub open spec fn known_after(known: Set<usize>, update: UpdateView) -> Option<Set<usize>> {
    match update {
        UpdateView::CreateDevice { id, .. } => if known.contains(id) {
            None
        } else {
            Some(known.insert(id))
        },
        UpdateView::DestroyDevice { id } => if known.contains(id) {
            Some(known.remove(id))
        } else {
            None
        },
        UpdateView::Event { id, .. } => if known.contains(id) {
            Some(known)
        } else {
            None
        },
        UpdateView::Ping => Some(known),
    }
}

/// The devices that a client knows after some updates that all make sense.
pub open spec fn known_after_all(known: Set<usize>, updates: Seq<UpdateView>) -> Option<Set<usize>>
    decreases updates.len(),
{
    if updates.len() == 0 {
        Some(known)
    } else {
        match known_after_all(known, updates.drop_last()) {
            Some(before) => known_after(before, updates.last()),
            None => None,
        }
    }
}

/// The devices for which a client has a writer.
pub open spec fn known_devices(devices: Seq<WriterView>) -> Set<usize> {
    Set::new(|id: usize| has_device(devices, id))
}

proof fn lemma_introduced(infos: Map<usize, InfoView>, ids: Seq<usize>, count: int)
    requires
        ascending(ids),
        0 <= count <= ids.len(),
    ensures
        known_after_all(
            Set::empty(),
            ids.map_values(|id: usize| UpdateView::CreateDevice { id, info: infos[id] }).take(
                count,
            ),
        ) == Some(ids.take(count).to_set()),
    decreases count,
{
    let updates = ids.map_values(|id: usize| UpdateView::CreateDevice { id, info: infos[id] });
    if count == 0 {
        assert(ids.take(0).to_set() =~= Set::<usize>::empty());
    } else {
        lemma_introduced(infos, ids, count - 1);
        assert(updates.take(count).drop_last() =~= updates.take(count - 1));
        let id = ids[count - 1];
        let before = ids.take(count - 1);
        assert(!before.contains(id)) by {
            if before.contains(id) {
                let i = choose|i: int| 0 <= i < before.len() && before[i] == id;
                assert(ids[i] < ids[count - 1]);
            }
        }
        let after = ids.take(count);
        assert(after =~= before.push(id));
        assert(after.to_set() =~= before.to_set().insert(id)) by {
            assert forall|slot: usize| #[trigger] after.contains(slot) <==> before.contains(slot)
                || slot == id by {
                if before.contains(slot) {
                    let i = choose|i: int| 0 <= i < before.len() && before[i] == slot;
                    assert(after[i] == slot);
                }
                if slot == id {
                    assert(after[count - 1] == slot);
                }
            }
        }
    }
}

/// A new client that is told of all devices knows exactly those of the server.
pub proof fn introductions_make_all_devices_known(infos: Map<usize, InfoView>)
    ensures
        known_after_all(Set::empty(), introductions(infos)) == Some(infos.dom()),
{
    every_set_has_an_order(infos.dom());
    let ids = in_order(infos.dom());
    lemma_introduced(infos, ids, ids.len() as int);
    assert(ids.take(ids.len() as int) =~= ids);
    assert(introductions(infos).take(ids.len() as int) =~= introductions(infos));
}

/// A client that knows the devices of the server still does after the server has
/// told it of a new one.
pub proof fn new_devices_become_known(server: ServerView, handle: u64, info: InfoView)
    requires
        server.infos.dom() == server.devices.dom(),
        0 <= next_slot(server.devices, server.free_devices) <= usize::MAX,
        !server.devices.contains_key(
            next_slot(server.devices, server.free_devices) as usize,
        ),
    ensures
        known_after(
            server.infos.dom(),
            (UpdateView::CreateDevice {
                id: next_slot(server.devices, server.free_devices) as usize,
                info,
            }),
        ) == Some(with_device(server, handle, info).infos.dom()),
{
    let id = next_slot(server.devices, server.free_devices) as usize;
    assert(!server.devices.dom().contains(id));
    assert(with_device(server, handle, info).infos.dom() =~= server.infos.dom().insert(id));
}

/// A client that knows the devices of the server still does after the server has
/// told it that one is gone.
pub proof fn removed_devices_become_unknown(server: ServerView, id: usize)
    requires
        server.infos.dom() == server.devices.dom(),
        server.devices.contains_key(id),
    ensures
        known_after(server.infos.dom(), (UpdateView::DestroyDevice { id })) == Some(
            device_removed(server, id).infos.dom(),
        ),
{
    assert(server.devices.dom().contains(id));
    assert(device_removed(server, id).infos.dom() =~= server.infos.dom().remove(id));
}

/// Whether a client ends because an update makes no sense to it.
pub open spec fn is_protocol_error(outcome: Result<Applied, Error>) -> bool {
    match outcome {
        Err(Error::Network(NetworkError::UnknownDevice)) => true,
        Err(Error::Network(NetworkError::DuplicateDevice)) => true,
        Err(Error::Network(NetworkError::MissingDevice)) => true,
        _ => false,
    }
}

/// A client ends over an update exactly where it makes no sense, or asks for a
/// repeat timing that is none; and otherwise it has writers for exactly the
/// devices that it then knows.
pub proof fn clients_follow_their_server(
    before: WritersView,
    shared: SharedView,
    update: UpdateView,
    now: u64,
    clock: Set<u64>,
    after: WritersView,
    shared_after: SharedView,
    outcome: Result<Applied, Error>,
)
    requires
        distinct_devices(before.devices),
        applied(before, shared, update, now, clock, after, shared_after, outcome),
    ensures
        is_protocol_error(outcome) <==> known_after(known_devices(before.devices), update) is None,
        outcome is Err && !is_protocol_error(outcome) ==> outcome == Err::<Applied, Error>(
            Error::Input(InputError::NegativeTiming),
        ) && update is CreateDevice,
        outcome is Ok ==> known_after(known_devices(before.devices), update) == Some(
            known_devices(after.devices),
        ),
{
    let known = known_devices(before.devices);
    match update {
        UpdateView::CreateDevice { id, info } => {
            assert(known.contains(id) <==> has_device(before.devices, id));
            if outcome is Ok {
                assert forall|other: usize| #[trigger] known_devices(after.devices).contains(other)
                    <==> known.insert(id).contains(other) by {
                    if has_device(before.devices, other) {
                        let i = choose|i: int|
                            0 <= i < before.devices.len() && (#[trigger] before.devices[i]).0
                                == other;
                        assert(after.devices[i].0 == other);
                    }
                    if other == id {
                        assert(after.devices[before.devices.len() as int].0 == other);
                    }
                    if has_device(after.devices, other) && other != id {
                        let i = choose|i: int|
                            0 <= i < after.devices.len() && (#[trigger] after.devices[i]).0
                                == other;
                        assert(before.devices[i].0 == other);
                    }
                }
                assert(known_devices(after.devices) =~= known.insert(id));
            }
        },
        UpdateView::DestroyDevice { id } => {
            assert(known.contains(id) <==> has_device(before.devices, id));
            if has_device(before.devices, id) {
                let place = choose|place: int|
                    0 <= place < before.devices.len() && (#[trigger] before.devices[place]).0 == id
                        && after == (WritersView {
                        devices: before.devices.remove(place),
                        ..before
                    });
                assert forall|other: usize| #[trigger] known_devices(after.devices).contains(other)
                    <==> known.remove(id).contains(other) by {
                    if has_device(before.devices, other) && other != id {
                        let i = choose|i: int|
                            0 <= i < before.devices.len() && (#[trigger] before.devices[i]).0
                                == other;
                        let j = if i < place {
                            i
                        } else {
                            i - 1
                        };
                        assert(after.devices[j].0 == other);
                    }
                    if has_device(after.devices, other) {
                        let j = choose|j: int|
                            0 <= j < after.devices.len() && (#[trigger] after.devices[j]).0
                                == other;
                        let i = if j < place {
                            j
                        } else {
                            j + 1
                        };
                        assert(before.devices[i].0 == other);
                        if i < place {
                            assert(before.devices[i].0 != before.devices[place].0);
                        } else {
                            assert(before.devices[place].0 != before.devices[i].0);
                        }
                    }
                }
                assert(known_devices(after.devices) =~= known.remove(id));
            }
        },
        UpdateView::Event { id, event } => {
            assert(known.contains(id) <==> has_device(before.devices, id));
            if has_device(before.devices, id) {
                assert(after.devices.len() == before.devices.len());
                assert forall|other: usize| #[trigger] known_devices(after.devices).contains(other)
                    <==> known.contains(other) by {
                    assert forall|i: int| 0 <= i < before.devices.len() implies (
                    #[trigger] before.devices[i]).0 == after.devices[i].0 by {}
                    if has_device(before.devices, other) {
                        let i = choose|i: int|
                            0 <= i < before.devices.len() && (#[trigger] before.devices[i]).0
                                == other;
                        assert(after.devices[i].0 == other);
                    }
                    if has_device(after.devices, other) {
                        let i = choose|i: int|
                            0 <= i < after.devices.len() && (#[trigger] after.devices[i]).0
                                == other;
                        assert(before.devices[i].0 == other);
                    }
                }
                assert(known_devices(after.devices) =~= known);
            }
        },
        UpdateView::Ping => {},
    }
}

/// A new client is told of every device that is there, once each and by ascending
/// slot, with the whole description of the device, and of nothing else.
pub proof fn introductions_describe_every_device(infos: Map<usize, InfoView>, id: usize)
    ensures
        infos.contains_key(id) <==> exists|i: int|
            0 <= i < introductions(infos).len() && (#[trigger] introductions(infos)[i] matches
                UpdateView::CreateDevice { id: told, .. } && told == id),
        infos.contains_key(id) ==> introductions(infos).contains(
            (UpdateView::CreateDevice { id, info: infos[id] }),
        ),
        forall|i: int|
            0 <= i < introductions(infos).len() ==> (#[trigger] introductions(infos)[i] matches
                UpdateView::CreateDevice { id: told, info } && infos.contains_key(told) && info
                == infos[told]),
        forall|i: int, j: int|
            0 <= i < j < introductions(infos).len() ==> match (
                #[trigger] introductions(infos)[i],
                #[trigger] introductions(infos)[j],
            ) {
                (
                    UpdateView::CreateDevice { id: first, .. },
                    UpdateView::CreateDevice { id: second, .. },
                ) => first < second,
                _ => false,
            },
{
    every_set_has_an_order(infos.dom());
    let ids = in_order(infos.dom());
    let told = introductions(infos);
    assert(told.len() == ids.len());
    assert forall|i: int| 0 <= i < told.len() implies #[trigger] told[i]
        == (UpdateView::CreateDevice { id: ids[i], info: infos[ids[i]] }) && infos.contains_key(
        ids[i],
    ) by {
        assert(ids.contains(ids[i]));
        assert(ids.to_set().contains(ids[i]));
    }
    if infos.contains_key(id) {
        assert(ids.to_set().contains(id));
        let i = choose|i: int| 0 <= i < ids.len() && ids[i] == id;
        assert(told[i] == (UpdateView::CreateDevice { id, info: infos[id] }));
    }
}

/// The message that introduces a device to a new client is the one that announced
/// it to the clients that were there when it came, as long as it is there: it names
/// the same device and carries the same description.
pub proof fn introductions_repeat_the_announcement(
    states: Seq<ServerView>,
    steps: Seq<Step>,
    came: int,
    now: int,
)
    requires
        is_run(states, steps),
        forall|i: int|
            0 <= i < steps.len() ==> (#[trigger] steps[i] is AddDevice ==> {
                let slot = next_slot(states[i].devices, states[i].free_devices);
                0 <= slot <= usize::MAX && !states[i].devices.contains_key(slot as usize)
            }),
        0 <= came < now <= steps.len(),
        steps[came] is AddDevice,
        forall|i: int|
            came < i < now ==> (#[trigger] steps[i] matches Step::RemoveDevice { id } ==> id
                != next_slot(states[came].devices, states[came].free_devices)),
    ensures
        ({
            let id = next_slot(states[came].devices, states[came].free_devices) as usize;
            &&& steps[came] matches Step::AddDevice { info, .. }
            &&& announcement(id, info) == (UpdateView::CreateDevice { id, info })
            &&& introductions(states[now].infos).contains(announcement(id, info))
        }),
{
    let id = next_slot(states[came].devices, states[came].free_devices) as usize;
    lemma_description_stays(states, steps, came, now);
    introductions_describe_every_device(states[now].infos, id);
}

proof fn lemma_description_stays(
    states: Seq<ServerView>,
    steps: Seq<Step>,
    came: int,
    now: int,
)
    requires
        is_run(states, steps),
        forall|i: int|
            0 <= i < steps.len() ==> (#[trigger] steps[i] is AddDevice ==> {
                let slot = next_slot(states[i].devices, states[i].free_devices);
                0 <= slot <= usize::MAX && !states[i].devices.contains_key(slot as usize)
            }),
        0 <= came < now <= steps.len(),
        steps[came] is AddDevice,
        forall|i: int|
            came < i < now ==> (#[trigger] steps[i] matches Step::RemoveDevice { id } ==> id
                != next_slot(states[came].devices, states[came].free_devices)),
    ensures
        ({
            let id = next_slot(states[came].devices, states[came].free_devices) as usize;
            &&& steps[came] matches Step::AddDevice { info, .. }
            &&& states[now].devices.contains_key(id)
            &&& states[now].infos.contains_key(id)
            &&& states[now].infos[id] == info
        }),
    decreases now,
{
    let last = now - 1;
    assert(step_taken(states[last], steps[last], states[last + 1]));
    assert(steps[came] is AddDevice);
    assert(steps[last] is AddDevice ==> {
        let slot = next_slot(states[last].devices, states[last].free_devices);
        0 <= slot <= usize::MAX && !states[last].devices.contains_key(slot as usize)
    });
    if last > came {
        lemma_description_stays(states, steps, came, last);
        assert(steps[last] matches Step::RemoveDevice { id } ==> id != next_slot(
            states[came].devices,
            states[came].free_devices,
        ));
    }
}

/// Every client is told, and nobody else: a message to all goes to the handle of
/// each client once, by ascending slot.
pub proof fn everybody_is_told(clients: Map<usize, u64>)
    ensures
        exists|slots: Seq<usize>|
            {
                &&& #[trigger] ascending(slots)
                &&& slots.len() == all_clients(clients).len()
                &&& forall|slot: usize| #[trigger]
                    clients.contains_key(slot) <==> slots.contains(slot)
                &&& forall|i: int|
                    0 <= i < slots.len() ==> all_clients(clients)[i] == clients[#[trigger] slots[i]]
            },
{
    every_set_has_an_order(clients.dom());
    let slots = in_order(clients.dom());
    assert forall|slot: usize| #[trigger] clients.contains_key(slot) <==> slots.contains(slot) by {
        assert(slots.to_set().contains(slot) <==> slots.contains(slot));
        assert(clients.dom().contains(slot) <==> clients.contains_key(slot));
    }
    assert(ascending(slots));
}

/// Only a device that is gone is given up, and all clients are told of it; any
/// other failure ends the server and changes nothing.
pub proof fn only_gone_devices_are_given_up(
    before: ServerView,
    id: usize,
    kind: ErrorKind,
    after: ServerView,
    outcome: Result<Broadcast, ServerError>,
)
    requires
        failure_handled(before, id, kind, after, outcome),
    ensures
        outcome is Ok <==> kind == ErrorKind::BrokenPipe,
        outcome matches Ok(broadcast) ==> broadcast.update@ == (UpdateView::DestroyDevice { id })
            && broadcast.clients@ == all_clients(before.clients) && after.devices
            == before.devices.remove(id) && after.infos == before.infos.remove(id),
        outcome matches Err(error) ==> after == before && error == ServerError::Input(
            InputError::Device { kind },
        ),
{
}

/// A description and a message are seen in full: what is said of their contents is
/// said of every part of them.
pub proof fn messages_are_seen_in_full(info: DeviceInfo, other: DeviceInfo, update: Update)
    ensures
        info@.name == info.name@,
        info@.vendor == info.vendor,
        info@.product == info.product,
        info@.version == info.version,
        info@.rel == info.rel@,
        info@.abs == info.abs@,
        info@.keys == info.keys@,
        info@.delay == info.delay,
        info@.period == info.period,
        info@ == other@ ==> info.abs@ == other.abs@ && info.keys@ == other.keys@ && info.rel@
            == other.rel@ && info.name@ == other.name@,
        match update {
            Update::CreateDevice { id, info } => update@ == (UpdateView::CreateDevice {
                id,
                info: info@,
            }),
            Update::DestroyDevice { id } => update@ == (UpdateView::DestroyDevice { id }),
            Update::Event { id, event } => update@ == (UpdateView::Event { id, event }),
            Update::Ping => update@ == UpdateView::Ping,
        },
        device_of(update@) == match update {
            Update::CreateDevice { id, .. } => Some(id),
            Update::DestroyDevice { id } => Some(id),
            Update::Event { id, .. } => Some(id),
            Update::Ping => None,
        },
{
}

/// An update is refused exactly where it makes no sense to a client that has the
/// device or has it not, and each reason has its own name.
pub proof fn senseless_updates_are_refused(known: Set<usize>, update: UpdateView)
    ensures
        ({
            let there = device_of(update) matches Some(id) && known.contains(id);
            let reason = refusal(update, there);
            &&& reason is None <==> known_after(known, update) is Some
            &&& reason == Some(NetworkError::DuplicateDevice) <==> update is CreateDevice && there
            &&& reason == Some(NetworkError::MissingDevice) <==> update is DestroyDevice && !there
            &&& reason == Some(NetworkError::UnknownDevice) <==> update is Event && !there
        }),
{
}

/// Taking a device announces it to everybody with its whole description, and taking
/// a client tells it of every device with the same message by which the device was
/// announced: whoever comes later learns what the others were told.
pub proof fn newcomers_learn_what_the_others_were_told(
    before: ServerView,
    device_handle: u64,
    info: InfoView,
    between: ServerView,
    id: usize,
    update: UpdateView,
    told: Seq<u64>,
    closed: Set<usize>,
    client_handle: u64,
    after: ServerView,
    slot: usize,
    updates: Seq<UpdateView>,
    other: usize,
)
    requires
        device_added(before, device_handle, info, between, id, update, told),
        client_accepted(between, closed, client_handle, after, slot, updates),
    ensures
        update == (UpdateView::CreateDevice { id, info }),
        told == all_clients(before.clients),
        updates.contains(update),
        before.infos.contains_key(other) && other != id ==> updates.contains(
            (UpdateView::CreateDevice { id: other, info: before.infos[other] }),
        ),
        forall|i: int|
            0 <= i < updates.len() ==> (#[trigger] updates[i] matches UpdateView::CreateDevice {
                id: about,
                info: described,
            } && (if about == id {
                described == info
            } else {
                before.infos.contains_key(about) && described == before.infos[about]
            })),
{
    introductions_describe_every_device(between.infos, id);
    introductions_describe_every_device(between.infos, other);
}

/// A client that is taken gets a slot that nobody has and is found there; those who
/// are there stay, those whose connections are closed do not, and the devices stay as
/// they are.
pub proof fn accepted_clients_join_the_others(
    before: ServerView,
    closed: Set<usize>,
    handle: u64,
    after: ServerView,
    slot: usize,
    updates: Seq<UpdateView>,
    other: usize,
)
    requires
        client_accepted(before, closed, handle, after, slot, updates),
    ensures
        after.clients.contains_key(slot),
        after.clients[slot] == handle,
        !before.clients.contains_key(slot) || closed.contains(slot),
        other != slot ==> (after.clients.contains_key(other) <==> before.clients.contains_key(other)
            && !closed.contains(other)),
        other != slot && after.clients.contains_key(other) ==> after.clients[other]
            == before.clients[other],
        after.devices == before.devices,
        after.infos == before.infos,
        after.switch_keys == before.switch_keys,
        after.propagate == before.propagate,
        after.pressed == before.pressed,
        after.changed == before.changed,
{
}

/// A device that is given up is gone for everybody: all clients are told that it is,
/// and those who come later are not told of it any more.
pub proof fn given_up_devices_are_gone_for_everybody(
    before: ServerView,
    id: usize,
    between: ServerView,
    update: UpdateView,
    told: Seq<u64>,
    closed: Set<usize>,
    handle: u64,
    after: ServerView,
    slot: usize,
    updates: Seq<UpdateView>,
    other: usize,
)
    requires
        device_given_up(before, id, between, update, told),
        client_accepted(between, closed, handle, after, slot, updates),
    ensures
        update == (UpdateView::DestroyDevice { id }),
        told == all_clients(before.clients),
        forall|i: int|
            0 <= i < updates.len() ==> (#[trigger] updates[i] matches UpdateView::CreateDevice {
                id: about,
                ..
            } && about != id),
        before.infos.contains_key(other) && other != id ==> updates.contains(
            (UpdateView::CreateDevice { id: other, info: before.infos[other] }),
        ),
{
    introductions_describe_every_device(between.infos, id);
    introductions_describe_every_device(between.infos, other);
}

} // verus!
