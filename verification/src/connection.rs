//! What holds of a client from the first update to the end of its connection.
use vstd::prelude::*;

use crate::client::{
    all_given_up, applied, event_taken, event_taken_with, given_up, has_device, timer_served,
    timer_served_with, timers_served, Applied, Error, RepeatState, Warning, WriterView,
    WritersView,
};
use crate::device::{device_wf, failed_releases, repeat_served, DeviceView};
use crate::error::InputError;
use crate::event::Key;
use crate::fleet::{
    accepted, accepted_since, accounted, desktop_agrees, events_keep_the_accounts,
    events_keep_the_desktop_in_step, giving_up_takes_one_holder_each, is_down, natives,
    removals_keep_the_desktop_in_step, repeats_keep_the_accounts, repeats_keep_the_desktop_in_step,
    times_held, total_held,
};
use crate::keymap::NativeKey;
use crate::shared::{is_meta, SharedView};
use crate::update::UpdateView;

verus! {

/// What the devices of a client hold.
pub open spec fn fleet_of(devices: Seq<WriterView>) -> Seq<DeviceView> {
    devices.map_values(|device: WriterView| device.1)
}

/// Every device is in order.
pub open spec fn all_in_order(devices: Seq<WriterView>) -> bool {
    forall|i: int| 0 <= i < devices.len() ==> device_wf((#[trigger] devices[i]).1)
}

proof fn lemma_total_without(fleet: Seq<DeviceView>, place: int, key: NativeKey)
    requires
        0 <= place < fleet.len(),
    ensures
        total_held(fleet.remove(place), key) + times_held(fleet[place], key) == total_held(
            fleet,
            key,
        ),
    decreases fleet.len(),
{
    let after = fleet.remove(place);
    if place == fleet.len() - 1 {
        assert(after =~= fleet.drop_last());
    } else {
        lemma_total_without(fleet.drop_last(), place, key);
        assert(after.drop_last() =~= fleet.drop_last().remove(place));
        assert(after.last() == fleet.last());
    }
}

proof fn lemma_removal_keeps_accounts(
    fleet: Seq<DeviceView>,
    place: int,
    shared: SharedView,
    shared_after: SharedView,
    failures: Seq<(NativeKey, InputError)>,
)
    requires
        0 <= place < fleet.len(),
        accounted(shared.owners, fleet),
        given_up(shared, fleet[place], shared_after, failures),
    ensures
        accounted(shared_after.owners, fleet.remove(place)),
{
    assert forall|key: NativeKey| #[trigger]
        shared_after.owners.count(key) <= total_held(fleet.remove(place), key) && (!is_meta(key)
            ==> shared_after.owners.count(key) == total_held(fleet.remove(place), key)) by {
        lemma_total_without(fleet, place, key);
        giving_up_takes_one_holder_each(shared.owners, fleet[place], key);
        assert(shared.owners.count(key) <= total_held(fleet, key));
    }
}

proof fn lemma_idle_device_changes_nothing(fleet: Seq<DeviceView>, device: DeviceView, key: NativeKey)
    requires
        device.held == Seq::<(Key, NativeKey)>::empty(),
    ensures
        total_held(fleet.push(device), key) == total_held(fleet, key),
{
    broadcast use vstd::seq_lib::group_to_multiset_ensures;

    assert(fleet.push(device).drop_last() =~= fleet);
    assert(natives(device.held) =~= Seq::<NativeKey>::empty());
}

/// Whatever the server sends, the holders of each key stay the devices that hold
/// it; a Meta key may have fewer.
pub proof fn updates_keep_the_accounts(
    before: WritersView,
    shared: SharedView,
    update: UpdateView,
    now: u64,
    clock: Set<u64>,
    after: WritersView,
    shared_after: SharedView,
    outcome: Result<Applied, Error>,
)
    requires
        all_in_order(before.devices),
        accounted(shared.owners, fleet_of(before.devices)),
        applied(before, shared, update, now, clock, after, shared_after, outcome),
    ensures
        accounted(shared_after.owners, fleet_of(after.devices)),
{
    let fleet = fleet_of(before.devices);
    match update {
        UpdateView::CreateDevice { id, info } => {
            if after.devices != before.devices {
                let device = after.devices.last().1;
                assert(fleet_of(after.devices) =~= fleet.push(device));
                assert forall|key: NativeKey| #[trigger]
                    shared_after.owners.count(key) <= total_held(fleet_of(after.devices), key) && (
                    !is_meta(key) ==> shared_after.owners.count(key) == total_held(
                        fleet_of(after.devices),
                        key,
                    )) by {
                    lemma_idle_device_changes_nothing(fleet, device, key);
                    assert(shared.owners.count(key) <= total_held(fleet, key));
                }
            }
        },
        UpdateView::DestroyDevice { id } => {
            if has_device(before.devices, id) {
                let failures = outcome->Ok_0->Destroyed_0@;
                let place = choose|place: int|
                    0 <= place < before.devices.len() && (#[trigger] before.devices[place]).0 == id
                        && after == (WritersView {
                        devices: before.devices.remove(place),
                        ..before
                    }) && given_up(shared, before.devices[place].1, shared_after, failures);
                assert(fleet[place] == before.devices[place].1);
                lemma_removal_keeps_accounts(fleet, place, shared, shared_after, failures);
                assert(fleet_of(after.devices) =~= fleet.remove(place));
            }
        },
        UpdateView::Event { id, event } => {
            if has_device(before.devices, id) {
                let warning = outcome->Ok_0->Written_0;
                let place = choose|place: int|
                    0 <= place < before.devices.len() && (#[trigger] before.devices[place]).0 == id
                        && event_taken(
                        before,
                        shared,
                        place,
                        event,
                        now,
                        clock,
                        after,
                        shared_after,
                        warning,
                    );
                let device = before.devices[place].1;
                assert(fleet[place] == device);
                let (device_after, result, reported) = choose|
                    device_after: DeviceView,
                    result: Result<(), InputError>,
                    reported: u64,
                | #[trigger]
                    event_taken_with(
                        before,
                        shared,
                        place,
                        event,
                        now,
                        clock,
                        device_after,
                        result,
                        reported,
                        after,
                        shared_after,
                        warning,
                    );
                events_keep_the_accounts(
                    fleet,
                    place,
                    shared,
                    event,
                    now,
                    device_after,
                    shared_after,
                    result,
                );
                assert(fleet_of(after.devices) =~= fleet.update(place, device_after));
            }
        },
        UpdateView::Ping => {},
    }
}

/// As long as Windows takes every input, whatever the server sends keeps each
/// key down on the desktop exactly while it has a holder.
pub proof fn updates_keep_the_desktop_in_step(
    before: WritersView,
    shared: SharedView,
    update: UpdateView,
    now: u64,
    clock: Set<u64>,
    after: WritersView,
    shared_after: SharedView,
    outcome: Result<Applied, Error>,
)
    requires
        all_in_order(before.devices),
        desktop_agrees(shared),
        applied(before, shared, update, now, clock, after, shared_after, outcome),
        accepted_since(shared_after.calls, shared.calls.len() as int),
    ensures
        desktop_agrees(shared_after),
{
    match update {
        UpdateView::CreateDevice { .. } | UpdateView::Ping => {},
        UpdateView::DestroyDevice { id } => {
            if has_device(before.devices, id) {
                let failures = outcome->Ok_0->Destroyed_0@;
                let place = choose|place: int|
                    0 <= place < before.devices.len() && (#[trigger] before.devices[place]).0 == id
                        && after == (WritersView {
                        devices: before.devices.remove(place),
                        ..before
                    }) && given_up(shared, before.devices[place].1, shared_after, failures);
                removals_keep_the_desktop_in_step(before.devices[place].1, shared, shared_after);
            }
        },
        UpdateView::Event { id, event } => {
            if has_device(before.devices, id) {
                let warning = outcome->Ok_0->Written_0;
                let place = choose|place: int|
                    0 <= place < before.devices.len() && (#[trigger] before.devices[place]).0 == id
                        && event_taken(
                        before,
                        shared,
                        place,
                        event,
                        now,
                        clock,
                        after,
                        shared_after,
                        warning,
                    );
                let device = before.devices[place].1;
                let (device_after, result, reported) = choose|
                    device_after: DeviceView,
                    result: Result<(), InputError>,
                    reported: u64,
                | #[trigger]
                    event_taken_with(
                        before,
                        shared,
                        place,
                        event,
                        now,
                        clock,
                        device_after,
                        result,
                        reported,
                        after,
                        shared_after,
                        warning,
                    );
                events_keep_the_desktop_in_step(
                    device,
                    shared,
                    event,
                    now,
                    device_after,
                    shared_after,
                    result,
                );
            }
        },
    }
}

/// Serving the timers keeps the holders of each key the devices that hold it.
pub proof fn timers_keep_the_accounts(
    states: Seq<RepeatState>,
    now: u64,
    clock: Set<u64>,
    served: int,
)
    requires
        timers_served(states, now, clock),
        accounted(states[0].shared.owners, fleet_of(states[0].devices)),
        0 <= served < states.len(),
    ensures
        accounted(states[served].shared.owners, fleet_of(states[served].devices)),
        states[served].devices.len() == states[0].devices.len(),
    decreases served,
{
    if served > 0 {
        let i = served - 1;
        timers_keep_the_accounts(states, now, clock, i);
        let before = states[i];
        let after = states[i + 1];
        assert(timer_served(before, i, now, clock, after));
        let device = before.devices[i].1;
        let (device_after, result, reported, warning) = choose|
            device_after: DeviceView,
            result: Result<(), InputError>,
            reported: u64,
            warning: Option<Warning>,
        | #[trigger]
            timer_served_with(
                before,
                i,
                now,
                clock,
                device_after,
                result,
                reported,
                warning,
                after,
            );
        let fleet = fleet_of(before.devices);
        assert(fleet[i] == device);
        repeats_keep_the_accounts(
            fleet,
            i,
            before.shared,
            now,
            device_after,
            after.shared,
            result,
        );
        assert(fleet_of(after.devices) =~= fleet.update(i, device_after));
    }
}

/// The timer of a device that is served leaves the device in order.
proof fn lemma_repeats_keep_order(
    device: DeviceView,
    shared: SharedView,
    now: u64,
    device_after: DeviceView,
    shared_after: SharedView,
    result: Result<(), InputError>,
)
    requires
        device_wf(device),
        repeat_served(device, shared, now, device_after, shared_after, result),
    ensures
        device_wf(device_after),
        shared.calls.len() <= shared_after.calls.len(),
        shared_after.calls.take(shared.calls.len() as int) == shared.calls,
{
    assert(shared_after.calls.take(shared.calls.len() as int) =~= shared.calls);
}

/// As long as Windows takes every input, serving the timers keeps each key down
/// on the desktop exactly while it has a holder.
pub proof fn timers_keep_the_desktop_in_step(
    states: Seq<RepeatState>,
    now: u64,
    clock: Set<u64>,
    served: int,
)
    requires
        timers_served(states, now, clock),
        all_in_order(states[0].devices),
        accounted(states[0].shared.owners, fleet_of(states[0].devices)),
        desktop_agrees(states[0].shared),
        0 <= served < states.len(),
        accepted_since(states[served].shared.calls, states[0].shared.calls.len() as int),
    ensures
        all_in_order(states[served].devices),
        desktop_agrees(states[served].shared),
        states[0].shared.calls.len() <= states[served].shared.calls.len(),
    decreases served,
{
    if served > 0 {
        let i = served - 1;
        let before = states[i];
        let after = states[i + 1];
        assert(timer_served(before, i, now, clock, after));
        let device = before.devices[i].1;
        let (device_after, result, reported, warning) = choose|
            device_after: DeviceView,
            result: Result<(), InputError>,
            reported: u64,
            warning: Option<Warning>,
        | #[trigger]
            timer_served_with(
                before,
                i,
                now,
                clock,
                device_after,
                result,
                reported,
                warning,
                after,
            );
        let calls = after.shared.calls;
        assert(calls.take(before.shared.calls.len() as int) =~= before.shared.calls);
        assert forall|k: int|
            states[0].shared.calls.len() <= k < before.shared.calls.len() implies accepted(
            #[trigger] before.shared.calls[k],
        ) by {
            assert(calls.take(before.shared.calls.len() as int)[k] == calls[k]);
        }
        timers_keep_the_desktop_in_step(states, now, clock, i);
        timers_keep_the_accounts(states, now, clock, i);
        let fleet = fleet_of(before.devices);
        assert(fleet[i] == device);
        lemma_repeats_keep_order(
            device,
            before.shared,
            now,
            device_after,
            after.shared,
            result,
        );
        repeats_keep_the_desktop_in_step(
            fleet,
            i,
            before.shared,
            now,
            device_after,
            after.shared,
            result,
        );
        assert forall|k: int| 0 <= k < after.devices.len() implies device_wf(
            (#[trigger] after.devices[k]).1,
        ) by {
            if k != i {
                assert(after.devices[k] == before.devices[k]);
            }
        }
    }
}

proof fn lemma_given_up_so_far(
    states: Seq<SharedView>,
    devices: Seq<WriterView>,
    failures: Seq<(NativeKey, InputError)>,
    count: int,
)
    requires
        all_given_up(states, devices, failures),
        desktop_agrees(states[0]),
        0 <= count <= devices.len(),
        accepted_since(states[count].calls, states[0].calls.len() as int),
    ensures
        states[0].calls.len() <= states[count].calls.len(),
        desktop_agrees(states[count]),
        forall|key: NativeKey| #[trigger]
            states[count].owners.count(key) == {
                let gone = total_held(fleet_of(devices.take(count)), key);
                if states[0].owners.count(key) >= gone {
                    states[0].owners.count(key) - gone
                } else {
                    0
                }
            },
    decreases count,
{
    if count == 0 {
        assert(fleet_of(devices.take(0)) =~= Seq::<DeviceView>::empty());
    } else {
        let i = count - 1;
        let before = states[i];
        let after = states[i + 1];
        let device = devices[i].1;
        assert(given_up(
            states[i],
            devices[i].1,
            states[i + 1],
            failed_releases(
                states[i + 1].calls.skip(states[i].calls.len() as int),
            ),
        ));
        assert forall|k: int|
            states[0].calls.len() <= k < before.calls.len() implies accepted(
            #[trigger] before.calls[k],
        ) by {
            assert(after.calls.take(before.calls.len() as int)[k] == after.calls[k]);
        }
        lemma_given_up_so_far(states, devices, failures, i);
        assert(accepted_since(after.calls, before.calls.len() as int));
        removals_keep_the_desktop_in_step(device, before, after);
        let fleet = fleet_of(devices.take(count));
        assert(fleet.drop_last() =~= fleet_of(devices.take(i)));
        assert(fleet.last() == device);
        assert forall|key: NativeKey| #[trigger]
            after.owners.count(key) == {
                let gone = total_held(fleet, key);
                if states[0].owners.count(key) >= gone {
                    states[0].owners.count(key) - gone
                } else {
                    0
                }
            } by {
            giving_up_takes_one_holder_each(before.owners, device, key);
        }
    }
}

/// When a connection ends, however it ends, nothing stays down on the desktop:
/// once all devices have been given up and Windows has taken every release, no
/// key is down and nobody holds one.
pub proof fn closed_connections_leave_nothing_down(
    states: Seq<SharedView>,
    devices: Seq<WriterView>,
    failures: Seq<(NativeKey, InputError)>,
    key: NativeKey,
)
    requires
        all_given_up(states, devices, failures),
        accounted(states[0].owners, fleet_of(devices)),
        desktop_agrees(states[0]),
        accepted_since(states.last().calls, states[0].calls.len() as int),
    ensures
        states.last().owners.count(key) == 0,
        !is_down(states.last().calls, key),
{
    lemma_given_up_so_far(states, devices, failures, devices.len() as int);
    assert(devices.take(devices.len() as int) =~= devices);
    assert(states[0].owners.count(key) <= total_held(fleet_of(devices), key));
    assert(states.last().owners.count(key) == 0);
}

} // verus!
