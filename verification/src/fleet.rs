//! What holds of all devices on one sink taken together.
//!
//! A fleet is the sequence of the devices that share a sink. The laws here say
//! that the holders of a key are always the devices that hold it, that a key
//! is down on the desktop exactly while it has a holder, and that no device
//! lets up what another still holds.
//!
//! The Meta keys are the exception: locking the workstation lets them up for
//! good while they are still physically held, so they may have fewer holders
//! than devices that hold them.
use vstd::multiset::Multiset;
use vstd::prelude::*;

use crate::device::{
    device_wf, event_written, final_releases, input_pressed, let_up_in_turn, lock_key_pressed,
    owners_without, repeat_served, sources, DeviceView,
};
use crate::error::InputError;
use crate::event::{Event, Key, KeyEvent, Keyboard};
use crate::keymap::{is_repeatable, native_key_of, scan_codes_are_distinct, NativeKey};
use crate::shared::{
    all_sent, calls_to_lock, held_metas, is_meta, left_meta, lock_attempted, pressed, SharedView,
    SinkCall,
};

verus! {

/// What Windows makes of the held inputs.
pub open spec fn natives(held: Seq<(Key, NativeKey)>) -> Seq<NativeKey> {
    held.map_values(|input: (Key, NativeKey)| input.1)
}

/// How often a device holds a key: more than once where it holds it under
/// several names.
pub open spec fn times_held(device: DeviceView, key: NativeKey) -> nat {
    natives(device.held).to_multiset().count(key)
}

/// How often the devices of a fleet hold a key.
pub open spec fn total_held(fleet: Seq<DeviceView>, key: NativeKey) -> nat
    decreases fleet.len(),
{
    if fleet.len() == 0 {
        0
    } else {
        total_held(fleet.drop_last(), key) + times_held(fleet.last(), key)
    }
}

/// The holders of each key are the devices that hold it; a Meta key may have
/// fewer.
pub open spec fn accounted(owners: Multiset<NativeKey>, fleet: Seq<DeviceView>) -> bool {
    forall|key: NativeKey|
        {
            &&& #[trigger] owners.count(key) <= total_held(fleet, key)
            &&& !is_meta(key) ==> owners.count(key) == total_held(fleet, key)
        }
}

/// Whether a key is down on the desktop after some calls: whether the last
/// call that the sink accepted for it took it down.
pub open spec fn is_down(calls: Seq<SinkCall>, key: NativeKey) -> bool
    decreases calls.len(),
{
    if calls.len() == 0 {
        false
    } else {
        match calls.last() {
            SinkCall::Key { key: sent, down, error: None } if sent == key => down,
            _ => is_down(calls.drop_last(), key),
        }
    }
}

/// A key is down on the desktop exactly while it has a holder.
pub open spec fn desktop_agrees(shared: SharedView) -> bool {
    forall|key: NativeKey| #[trigger]
        is_down(shared.calls, key) <==> shared.owners.count(key) > 0
}

/// Whether the sink accepted a call.
pub open spec fn accepted(call: SinkCall) -> bool {
    match call {
        SinkCall::Key { error, .. } => error is None,
        SinkCall::Relative { error, .. } => error is None,
        SinkCall::Lock { .. } => true,
    }
}

/// Whether the sink accepted every call from some call on.
pub open spec fn accepted_since(calls: Seq<SinkCall>, start: int) -> bool {
    forall|i: int| start <= i < calls.len() ==> accepted(#[trigger] calls[i])
}

proof fn lemma_total_after_update(
    fleet: Seq<DeviceView>,
    place: int,
    device: DeviceView,
    key: NativeKey,
)
    requires
        0 <= place < fleet.len(),
    ensures
        total_held(fleet.update(place, device), key) + times_held(fleet[place], key) == total_held(
            fleet,
            key,
        ) + times_held(device, key),
    decreases fleet.len(),
{
    let after = fleet.update(place, device);
    if place == fleet.len() - 1 {
        assert(after.drop_last() =~= fleet.drop_last());
    } else {
        assert(after.drop_last() =~= fleet.drop_last().update(place, device));
        lemma_total_after_update(fleet.drop_last(), place, device, key);
    }
}

proof fn lemma_total_covers(fleet: Seq<DeviceView>, a: int, b: int, key: NativeKey)
    requires
        0 <= a < fleet.len(),
        0 <= b < fleet.len(),
    ensures
        times_held(fleet[a], key) <= total_held(fleet, key),
        a != b ==> times_held(fleet[a], key) + times_held(fleet[b], key) <= total_held(fleet, key),
    decreases fleet.len(),
{
    let front = fleet.drop_last();
    let last = fleet.len() - 1;
    if a < last && b < last {
        lemma_total_covers(front, a, b, key);
    } else if a < last {
        lemma_total_covers(front, a, a, key);
    } else if b < last {
        lemma_total_covers(front, b, b, key);
    }
}

proof fn lemma_times_held_after_push(device: DeviceView, input: (Key, NativeKey), key: NativeKey)
    ensures
        times_held(DeviceView { held: device.held.push(input), ..device }, key) == times_held(
            device,
            key,
        ) + if key == input.1 {
            1nat
        } else {
            0nat
        },
{
    broadcast use vstd::seq_lib::group_to_multiset_ensures;

    assert(natives(device.held.push(input)) =~= natives(device.held).push(input.1));
}

proof fn lemma_times_held_after_remove(device: DeviceView, place: int, key: NativeKey)
    requires
        0 <= place < device.held.len(),
    ensures
        times_held(DeviceView { held: device.held.remove(place), ..device }, key) + if key
            == device.held[place].1 {
            1nat
        } else {
            0nat
        } == times_held(device, key),
{
    broadcast use vstd::seq_lib::group_to_multiset_ensures;

    let all = natives(device.held);
    assert(natives(device.held.remove(place)) =~= all.remove(place));
    assert(all[place] == device.held[place].1);
    assert(all.contains(all[place]));
}

proof fn lemma_held_is_counted(device: DeviceView, source: Key, native: NativeKey)
    requires
        device.held.contains((source, native)),
    ensures
        times_held(device, native) > 0,
{
    broadcast use vstd::seq_lib::group_to_multiset_ensures;

    let i = choose|i: int| 0 <= i < device.held.len() && device.held[i] == (source, native);
    assert(natives(device.held)[i] == native);
    assert(natives(device.held).contains(native));
}

/// Only the Meta keys are known to Windows as Meta keys, and neither of them
/// repeats.
pub proof fn meta_keys_do_not_repeat(key: Key)
    requires
        native_key_of(key) matches Some(native) && is_meta(native),
    ensures
        key == Key::Key(Keyboard::LeftMeta) || key == Key::Key(Keyboard::RightMeta),
        !is_repeatable(key),
{
    match key {
        Key::Key(key) => {
            if native_key_of(Key::Key(key)) == Some(left_meta()) {
                scan_codes_are_distinct(key, Keyboard::LeftMeta);
            } else {
                scan_codes_are_distinct(key, Keyboard::RightMeta);
            }
        },
        Key::Button(_) => {},
    }
}

proof fn lemma_press_keeps_accounts(
    fleet: Seq<DeviceView>,
    place: int,
    shared: SharedView,
    key: Key,
    native: NativeKey,
    now: u64,
    device_after: DeviceView,
    shared_after: SharedView,
    result: Result<(), InputError>,
)
    requires
        0 <= place < fleet.len(),
        accounted(shared.owners, fleet),
        input_pressed(
            fleet[place],
            shared,
            key,
            native,
            now,
            device_after,
            shared_after,
            result,
        ),
    ensures
        accounted(shared_after.owners, fleet.update(place, device_after)),
{
    let device = fleet[place];
    assert forall|other: NativeKey| #[trigger]
        shared_after.owners.count(other) <= total_held(fleet.update(place, device_after), other)
            && (!is_meta(other) ==> shared_after.owners.count(other) == total_held(
            fleet.update(place, device_after),
            other,
        )) by {
        lemma_total_after_update(fleet, place, device_after, other);
        lemma_times_held_after_push(device, (key, native), other);
        assert(shared.owners.count(other) <= total_held(fleet, other));
    }
}

/// An event of any device keeps the accounts, whatever the sink makes of it.
pub proof fn events_keep_the_accounts(
    fleet: Seq<DeviceView>,
    place: int,
    shared: SharedView,
    event: Event,
    now: u64,
    device_after: DeviceView,
    shared_after: SharedView,
    result: Result<(), InputError>,
)
    requires
        0 <= place < fleet.len(),
        device_wf(fleet[place]),
        accounted(shared.owners, fleet),
        event_written(fleet[place], shared, event, now, device_after, shared_after, result),
    ensures
        accounted(shared_after.owners, fleet.update(place, device_after)),
{
    let device = fleet[place];
    let after = fleet.update(place, device_after);
    if device_after.held == device.held && shared_after.owners == shared.owners {
        assert forall|other: NativeKey| #[trigger]
            shared_after.owners.count(other) <= total_held(after, other) && (!is_meta(other)
                ==> shared_after.owners.count(other) == total_held(after, other)) by {
            lemma_total_after_update(fleet, place, device_after, other);
            assert(shared.owners.count(other) <= total_held(fleet, other));
        }
    } else {
        let event = event->Key_0;
        let key = event.key;
        let native = native_key_of(key)->0;
        device.suppressed.index_of_first_ensures(key);
        sources(device.held).index_of_first_ensures(key);
        if event.down {
            if crate::device::is_lock_key(key) {
                let (attempt, locked) = choose|
                    attempt: SharedView,
                    locked: Result<bool, InputError>,
                | #[trigger]
                    lock_attempted(shared, attempt, locked) && match locked {
                        Ok(true) => {
                            &&& result is Ok
                            &&& shared_after == attempt
                            &&& device_after == DeviceView {
                                suppressed: device.suppressed.push(key),
                                ..device
                            }
                        },
                        Ok(false) => input_pressed(
                            device,
                            attempt,
                            key,
                            native,
                            now,
                            device_after,
                            shared_after,
                            result,
                        ),
                        Err(error) => {
                            &&& result == Err::<(), InputError>(error)
                            &&& shared_after == attempt
                            &&& device_after == device
                        },
                    };
                if locked == Ok::<bool, InputError>(false) {
                    lemma_press_keeps_accounts(
                        fleet,
                        place,
                        attempt,
                        key,
                        native,
                        now,
                        device_after,
                        shared_after,
                        result,
                    );
                } else {
                    assert forall|other: NativeKey| #[trigger]
                        shared_after.owners.count(other) <= total_held(after, other) && (!is_meta(
                            other,
                        ) ==> shared_after.owners.count(other) == total_held(after, other)) by {
                        lemma_total_after_update(fleet, place, device_after, other);
                        assert(shared.owners.count(other) <= total_held(fleet, other));
                    }
                }
            } else {
                lemma_press_keeps_accounts(
                    fleet,
                    place,
                    shared,
                    key,
                    native,
                    now,
                    device_after,
                    shared_after,
                    result,
                );
            }
        } else {
            let at = sources(device.held).index_of_first(key)->0;
            assert forall|other: NativeKey| #[trigger]
                shared_after.owners.count(other) <= total_held(after, other) && (!is_meta(other)
                    ==> shared_after.owners.count(other) == total_held(after, other)) by {
                lemma_total_after_update(fleet, place, device_after, other);
                lemma_times_held_after_remove(device, at, other);
                lemma_total_covers(fleet, place, place, other);
                assert(shared.owners.count(other) <= total_held(fleet, other));
            }
        }
    }
}

/// Serving the repeat timer of any device keeps the accounts.
pub proof fn repeats_keep_the_accounts(
    fleet: Seq<DeviceView>,
    place: int,
    shared: SharedView,
    now: u64,
    device_after: DeviceView,
    shared_after: SharedView,
    result: Result<(), InputError>,
)
    requires
        0 <= place < fleet.len(),
        accounted(shared.owners, fleet),
        repeat_served(fleet[place], shared, now, device_after, shared_after, result),
    ensures
        accounted(shared_after.owners, fleet.update(place, device_after)),
{
    assert forall|other: NativeKey| #[trigger]
        shared_after.owners.count(other) <= total_held(fleet.update(place, device_after), other)
            && (!is_meta(other) ==> shared_after.owners.count(other) == total_held(
            fleet.update(place, device_after),
            other,
        )) by {
        lemma_total_after_update(fleet, place, device_after, other);
        assert(shared.owners.count(other) <= total_held(fleet, other));
    }
}

/// Giving up the inputs of a device takes away one holder for each of them.
pub proof fn giving_up_takes_one_holder_each(
    owners: Multiset<NativeKey>,
    device: DeviceView,
    key: NativeKey,
)
    ensures
        owners_without(owners, device.held).count(key) == if owners.count(key) >= times_held(
            device,
            key,
        ) {
            owners.count(key) - times_held(device, key)
        } else {
            0
        },
    decreases device.held.len(),
{
    broadcast use vstd::seq_lib::group_to_multiset_ensures;

    let held = device.held;
    if held.len() == 0 {
        assert(natives(held) =~= Seq::<NativeKey>::empty());
    } else {
        let front = DeviceView { held: held.drop_last(), ..device };
        giving_up_takes_one_holder_each(owners.remove(held.last().1), front, key);
        lemma_times_held_after_push(front, held.last(), key);
        assert(front.held.push(held.last()) =~= held);
    }
}

/// Giving up a device keeps the accounts of the others.
pub proof fn removals_keep_the_accounts(
    fleet: Seq<DeviceView>,
    place: int,
    owners: Multiset<NativeKey>,
)
    requires
        0 <= place < fleet.len(),
        accounted(owners, fleet),
    ensures
        accounted(
            owners_without(owners, fleet[place].held),
            fleet.update(
                place,
                DeviceView { held: Seq::empty(), repeat: None, ..fleet[place] },
            ),
        ),
{
    broadcast use vstd::seq_lib::group_to_multiset_ensures;

    let emptied = DeviceView { held: Seq::empty(), repeat: None, ..fleet[place] };
    let left = owners_without(owners, fleet[place].held);
    assert forall|other: NativeKey| #[trigger]
        left.count(other) <= total_held(fleet.update(place, emptied), other) && (!is_meta(other)
            ==> left.count(other) == total_held(fleet.update(place, emptied), other)) by {
        lemma_total_after_update(fleet, place, emptied, other);
        lemma_total_covers(fleet, place, place, other);
        giving_up_takes_one_holder_each(owners, fleet[place], other);
        assert(natives(emptied.held) =~= Seq::<NativeKey>::empty());
        assert(owners.count(other) <= total_held(fleet, other));
    }
}

/// While another device holds a key, letting go of it on this one says nothing
/// to the sink. The Meta keys are left out.
pub proof fn keys_held_elsewhere_stay_down(
    fleet: Seq<DeviceView>,
    place: int,
    elsewhere: int,
    shared: SharedView,
    key: Key,
    native: NativeKey,
    now: u64,
    device_after: DeviceView,
    shared_after: SharedView,
    result: Result<(), InputError>,
)
    requires
        0 <= place < fleet.len(),
        0 <= elsewhere < fleet.len(),
        place != elsewhere,
        device_wf(fleet[place]),
        accounted(shared.owners, fleet),
        native_key_of(key) == Some(native),
        !is_meta(native),
        times_held(fleet[elsewhere], native) > 0,
        event_written(
            fleet[place],
            shared,
            Event::Key(KeyEvent { key, down: false }),
            now,
            device_after,
            shared_after,
            result,
        ),
    ensures
        result is Ok,
        shared_after.calls == shared.calls,
{
    let device = fleet[place];
    device.suppressed.index_of_first_ensures(key);
    sources(device.held).index_of_first_ensures(key);
    if device.suppressed.index_of_first(key) is None && sources(device.held).index_of_first(
        key,
    ) is Some {
        let at = sources(device.held).index_of_first(key)->0;
        assert(device.held[at].0 == key);
        assert(device.held[at].1 == native);
        assert(device.held.contains((key, native)));
        lemma_held_is_counted(device, key, native);
        lemma_total_covers(fleet, place, elsewhere, native);
        assert(shared.owners.count(native) == total_held(fleet, native));
    }
}

/// While another device holds a key, giving up this one does not let it up.
/// The Meta keys are left out.
pub proof fn removals_spare_keys_held_elsewhere(
    fleet: Seq<DeviceView>,
    place: int,
    elsewhere: int,
    owners: Multiset<NativeKey>,
    native: NativeKey,
)
    requires
        0 <= place < fleet.len(),
        0 <= elsewhere < fleet.len(),
        place != elsewhere,
        accounted(owners, fleet),
        !is_meta(native),
        times_held(fleet[elsewhere], native) > 0,
    ensures
        !final_releases(owners, fleet[place].held).contains(native),
        owners_without(owners, fleet[place].held).count(native) > 0,
{
    lemma_total_covers(fleet, place, elsewhere, native);
    giving_up_takes_one_holder_each(owners, fleet[place], native);
    assert(owners.count(native) == total_held(fleet, native));
    lemma_shared_keys_are_not_released(owners, fleet[place], native);
}

proof fn lemma_shared_keys_are_not_released(
    owners: Multiset<NativeKey>,
    device: DeviceView,
    native: NativeKey,
)
    requires
        owners.count(native) > times_held(device, native),
    ensures
        !final_releases(owners, device.held).contains(native),
    decreases device.held.len(),
{
    broadcast use vstd::seq_lib::group_to_multiset_ensures;

    let held = device.held;
    if held.len() > 0 {
        let front = DeviceView { held: held.drop_last(), ..device };
        lemma_times_held_after_push(front, held.last(), native);
        assert(front.held.push(held.last()) =~= held);
        let last = held.last().1;
        lemma_shared_keys_are_not_released(owners.remove(last), front, native);
        let rest = final_releases(owners.remove(last), front.held);
        let all = final_releases(owners, held);
        if all.contains(native) {
            let i = choose|i: int| 0 <= i < all.len() && all[i] == native;
            if owners.count(last) == 1 {
                assert(all =~= seq![last] + rest);
                if i > 0 {
                    assert(rest[i - 1] == native);
                }
            }
        }
    }
}

proof fn lemma_down_after_push(calls: Seq<SinkCall>, call: SinkCall, key: NativeKey)
    ensures
        is_down(calls.push(call), key) == match call {
            SinkCall::Key { key: sent, down, error: None } if sent == key => down,
            _ => is_down(calls, key),
        },
{
    assert(calls.push(call).drop_last() =~= calls);
}

proof fn lemma_down_after_all_sent(
    calls: Seq<SinkCall>,
    keys: Seq<NativeKey>,
    down: bool,
    key: NativeKey,
)
    ensures
        is_down(calls + all_sent(keys, down), key) == if keys.contains(key) {
            down
        } else {
            is_down(calls, key)
        },
    decreases keys.len(),
{
    if keys.len() == 0 {
        assert(calls + all_sent(keys, down) =~= calls);
    } else {
        let front = keys.drop_last();
        let call = SinkCall::Key { key: keys.last(), down, error: None };
        lemma_down_after_all_sent(calls, front, down, key);
        assert(calls + all_sent(keys, down) =~= (calls + all_sent(front, down)).push(call));
        lemma_down_after_push(calls + all_sent(front, down), call, key);
        assert(keys =~= front.push(keys.last()));
        if front.contains(key) {
            let i = choose|i: int| 0 <= i < front.len() && front[i] == key;
            assert(keys[i] == key);
        }
        if keys.contains(key) && key != keys.last() {
            let i = choose|i: int| 0 <= i < keys.len() && keys[i] == key;
            assert(front[i] == key);
        }
        if key == keys.last() {
            assert(keys[keys.len() - 1] == key);
        }
    }
}

proof fn lemma_press_keeps_desktop(
    before: SharedView,
    key: NativeKey,
    after: SharedView,
    result: Result<(), InputError>,
)
    requires
        desktop_agrees(before),
        pressed(before, key, after, result),
        result is Ok,
    ensures
        desktop_agrees(after),
{
    assert forall|other: NativeKey| #[trigger]
        is_down(after.calls, other) <==> after.owners.count(other) > 0 by {
        assert(is_down(before.calls, other) <==> before.owners.count(other) > 0);
        if before.owners.count(key) == 0 {
            lemma_down_after_push(
                before.calls,
                SinkCall::Key { key, down: true, error: None },
                other,
            );
        }
    }
}

proof fn lemma_lock_keeps_desktop(
    before: SharedView,
    after: SharedView,
    locked: bool,
)
    requires
        desktop_agrees(before),
        lock_attempted(before, after, Ok(locked)),
    ensures
        desktop_agrees(after),
{
    let metas = held_metas(before.owners);
    if metas.len() > 0 {
        assert forall|other: NativeKey| #[trigger]
            is_down(after.calls, other) <==> after.owners.count(other) > 0 by {
            assert(is_down(before.calls, other) <==> before.owners.count(other) > 0);
            lemma_metas_are_held(before.owners, other);
            lemma_down_after_all_sent(before.calls, metas, false, other);
            let lifted = before.calls + all_sent(metas, false);
            lemma_down_after_push(lifted, SinkCall::Lock { accepted: locked }, other);
            if !locked {
                lemma_down_after_all_sent(calls_to_lock(before, false), metas, true, other);
            }
        }
    }
}

proof fn lemma_metas_are_held(owners: Multiset<NativeKey>, key: NativeKey)
    ensures
        held_metas(owners).contains(key) <==> is_meta(key) && owners.count(key) > 0,
{
    let metas = held_metas(owners);
    if is_meta(key) && owners.count(key) > 0 {
        if key == left_meta() {
            assert(metas[0] == key);
        } else {
            assert(metas[metas.len() - 1] == key);
        }
    }
}

proof fn lemma_failed_send_is_last(call: SinkCall, calls: Seq<SinkCall>, start: int)
    requires
        calls.len() > start,
        calls.last() == call,
        !accepted(call),
    ensures
        !accepted_since(calls, start),
{
    assert(calls[calls.len() - 1] == call);
}

/// As long as the sink accepts every call, events keep each key down on the
/// desktop exactly while it has a holder.
pub proof fn events_keep_the_desktop_in_step(
    device: DeviceView,
    shared: SharedView,
    event: Event,
    now: u64,
    device_after: DeviceView,
    shared_after: SharedView,
    result: Result<(), InputError>,
)
    requires
        device_wf(device),
        desktop_agrees(shared),
        event_written(device, shared, event, now, device_after, shared_after, result),
        accepted_since(shared_after.calls, shared.calls.len() as int),
    ensures
        result is Ok,
        desktop_agrees(shared_after),
{
    match event {
        Event::Rel(event) => {
            let call = shared_after.calls.last();
            assert(shared_after.calls[shared.calls.len() as int] == call);
            assert forall|other: NativeKey| #[trigger]
                is_down(shared_after.calls, other) <==> shared_after.owners.count(other) > 0 by {
                assert(is_down(shared.calls, other) <==> shared.owners.count(other) > 0);
                lemma_down_after_push(shared.calls, call, other);
            }
        },
        Event::Key(event) => {
            let key = event.key;
            device.suppressed.index_of_first_ensures(key);
            sources(device.held).index_of_first_ensures(key);
            if device.suppressed.index_of_first(key) is None && native_key_of(key) is Some {
                let native = native_key_of(key)->0;
                match sources(device.held).index_of_first(key) {
                    None => if event.down {
                        lemma_press_event_keeps_desktop(
                            device,
                            shared,
                            key,
                            native,
                            now,
                            device_after,
                            shared_after,
                            result,
                        );
                    },
                    Some(place) => if !event.down {
                        let held = device.held[place].1;
                        if shared.owners.count(held) == 1 {
                            let call = shared_after.calls.last();
                            assert(shared_after.calls[shared.calls.len() as int] == call);
                            assert forall|other: NativeKey| #[trigger]
                                is_down(shared_after.calls, other) <==> shared_after.owners.count(
                                    other,
                                ) > 0 by {
                                assert(is_down(shared.calls, other) <==> shared.owners.count(other)
                                    > 0);
                                lemma_down_after_push(shared.calls, call, other);
                            }
                        } else {
                            assert forall|other: NativeKey| #[trigger]
                                is_down(shared_after.calls, other) <==> shared_after.owners.count(
                                    other,
                                ) > 0 by {
                                assert(is_down(shared.calls, other) <==> shared.owners.count(other)
                                    > 0);
                            }
                        }
                    },
                }
            }
        },
        _ => {},
    }
}

proof fn lemma_press_event_keeps_desktop(
    device: DeviceView,
    shared: SharedView,
    key: Key,
    native: NativeKey,
    now: u64,
    device_after: DeviceView,
    shared_after: SharedView,
    result: Result<(), InputError>,
)
    requires
        desktop_agrees(shared),
        if crate::device::is_lock_key(key) {
            lock_key_pressed(
                device,
                shared,
                key,
                native,
                now,
                device_after,
                shared_after,
                result,
            )
        } else {
            input_pressed(
                device,
                shared,
                key,
                native,
                now,
                device_after,
                shared_after,
                result,
            )
        },
        accepted_since(shared_after.calls, shared.calls.len() as int),
    ensures
        result is Ok,
        desktop_agrees(shared_after),
{
    let start = shared.calls.len() as int;
    if crate::device::is_lock_key(key) {
        let (attempt, locked) = choose|attempt: SharedView, locked: Result<bool, InputError>|
         #[trigger]
            lock_attempted(shared, attempt, locked) && match locked {
                Ok(true) => {
                    &&& result is Ok
                    &&& shared_after == attempt
                    &&& device_after == DeviceView {
                        suppressed: device.suppressed.push(key),
                        ..device
                    }
                },
                Ok(false) => input_pressed(
                    device,
                    attempt,
                    key,
                    native,
                    now,
                    device_after,
                    shared_after,
                    result,
                ),
                Err(error) => {
                    &&& result == Err::<(), InputError>(error)
                    &&& shared_after == attempt
                    &&& device_after == device
                },
            };
        match locked {
            Ok(locked) => {
                lemma_lock_keeps_desktop(shared, attempt, locked);
                if !locked {
                    if result is Err {
                        lemma_failed_send_is_last(
                            shared_after.calls.last(),
                            shared_after.calls,
                            start,
                        );
                    }
                    lemma_press_keeps_desktop(attempt, native, shared_after, result);
                }
            },
            Err(error) => {
                lemma_failed_send_is_last(shared_after.calls.last(), shared_after.calls, start);
            },
        }
    } else {
        if result is Err {
            lemma_failed_send_is_last(shared_after.calls.last(), shared_after.calls, start);
        }
        lemma_press_keeps_desktop(shared, native, shared_after, result);
    }
}

/// As long as the sink accepts every call, repeats keep each key down on the
/// desktop exactly while it has a holder: only a key that has one repeats.
pub proof fn repeats_keep_the_desktop_in_step(
    fleet: Seq<DeviceView>,
    place: int,
    shared: SharedView,
    now: u64,
    device_after: DeviceView,
    shared_after: SharedView,
    result: Result<(), InputError>,
)
    requires
        0 <= place < fleet.len(),
        device_wf(fleet[place]),
        accounted(shared.owners, fleet),
        desktop_agrees(shared),
        repeat_served(fleet[place], shared, now, device_after, shared_after, result),
        accepted_since(shared_after.calls, shared.calls.len() as int),
    ensures
        result is Ok,
        desktop_agrees(shared_after),
{
    let device = fleet[place];
    match device.repeat {
        Some(repeat) if now >= repeat.deadline => {
            let i = choose|i: int|
                0 <= i < device.held.len() && device.held[i] == (repeat.source, repeat.native);
            assert(native_key_of(device.held[i].0) == Some(device.held[i].1));
            if is_meta(repeat.native) {
                meta_keys_do_not_repeat(repeat.source);
            }
            lemma_held_is_counted(device, repeat.source, repeat.native);
            lemma_total_covers(fleet, place, place, repeat.native);
            assert(shared.owners.count(repeat.native) == total_held(fleet, repeat.native));
            let call = shared_after.calls.last();
            assert(shared_after.calls[shared.calls.len() as int] == call);
            assert forall|other: NativeKey| #[trigger]
                is_down(shared_after.calls, other) <==> shared_after.owners.count(other) > 0 by {
                assert(is_down(shared.calls, other) <==> shared.owners.count(other) > 0);
                lemma_down_after_push(shared.calls, call, other);
            }
        },
        _ => {},
    }
}

/// A key goes up when a device is given up exactly where the device is its
/// last holder.
pub proof fn last_holders_let_up(
    owners: Multiset<NativeKey>,
    device: DeviceView,
    key: NativeKey,
)
    ensures
        final_releases(owners, device.held).contains(key) <==> 0 < owners.count(key) <= times_held(
            device,
            key,
        ),
    decreases device.held.len(),
{
    broadcast use vstd::seq_lib::group_to_multiset_ensures;

    let held = device.held;
    let all = final_releases(owners, held);
    if held.len() == 0 {
        assert(natives(held) =~= Seq::<NativeKey>::empty());
    } else {
        let front = DeviceView { held: held.drop_last(), ..device };
        let last = held.last().1;
        let rest = final_releases(owners.remove(last), front.held);
        last_holders_let_up(owners.remove(last), front, key);
        lemma_times_held_after_push(front, held.last(), key);
        assert(front.held.push(held.last()) =~= held);
        if owners.count(last) == 1 {
            assert(all =~= seq![last] + rest);
            assert(all[0] == last);
            if rest.contains(key) {
                let i = choose|i: int| 0 <= i < rest.len() && rest[i] == key;
                assert(all[i + 1] == key);
            }
            if all.contains(key) && key != last {
                let i = choose|i: int| 0 <= i < all.len() && all[i] == key;
                assert(rest[i - 1] == key);
            }
        }
    }
}

proof fn lemma_down_after_let_up(
    before: Seq<SinkCall>,
    keys: Seq<NativeKey>,
    after: Seq<SinkCall>,
    key: NativeKey,
)
    requires
        let_up_in_turn(before, keys, after),
        accepted_since(after, before.len() as int),
    ensures
        is_down(after, key) == if keys.contains(key) {
            false
        } else {
            is_down(before, key)
        },
    decreases keys.len(),
{
    if keys.len() == 0 {
        assert(after =~= before);
    } else {
        let front = after.drop_last();
        let earlier = keys.drop_last();
        let n = keys.len() - 1;
        assert(after[before.len() + n] == after.last());
        assert(front.take(before.len() as int) =~= before);
        assert forall|i: int| 0 <= i < earlier.len() implies {
            &&& #[trigger] front[before.len() + i] matches SinkCall::Key { key, down, .. }
            &&& key == earlier[i]
            &&& !down
        } by {
            assert(front[before.len() + i] == after[before.len() + i]);
        }
        assert forall|i: int| before.len() <= i < front.len() implies accepted(
            #[trigger] front[i],
        ) by {
            assert(front[i] == after[i]);
        }
        lemma_down_after_let_up(before, earlier, front, key);
        if earlier.contains(key) {
            let i = choose|i: int| 0 <= i < earlier.len() && earlier[i] == key;
            assert(keys[i] == key);
        }
        if keys.contains(key) && key != keys.last() {
            let i = choose|i: int| 0 <= i < keys.len() && keys[i] == key;
            assert(earlier[i] == key);
        }
        if key == keys.last() {
            assert(keys[n] == key);
        }
    }
}

/// As long as the sink accepts every call, giving up a device leaves each key
/// down on the desktop exactly while it still has a holder.
pub proof fn removals_keep_the_desktop_in_step(
    device: DeviceView,
    shared: SharedView,
    shared_after: SharedView,
)
    requires
        desktop_agrees(shared),
        shared_after.owners == owners_without(shared.owners, device.held),
        let_up_in_turn(
            shared.calls,
            final_releases(shared.owners, device.held),
            shared_after.calls,
        ),
        accepted_since(shared_after.calls, shared.calls.len() as int),
    ensures
        desktop_agrees(shared_after),
{
    let keys = final_releases(shared.owners, device.held);
    assert forall|other: NativeKey| #[trigger]
        is_down(shared_after.calls, other) <==> shared_after.owners.count(other) > 0 by {
        assert(is_down(shared.calls, other) <==> shared.owners.count(other) > 0);
        lemma_down_after_let_up(shared.calls, keys, shared_after.calls, other);
        last_holders_let_up(shared.owners, device, other);
        giving_up_takes_one_holder_each(shared.owners, device, other);
    }
}

} // verus!
