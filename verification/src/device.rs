//! One remote device on a Windows client: what it holds and what repeats.
use vstd::multiset::Multiset;
use vstd::prelude::*;

use crate::error::InputError;
use crate::event::{Event, Key, Keyboard};
use crate::keymap::{is_repeatable, native_key, native_key_of, repeatable, NativeKey};
use crate::repeat::{
    can_be_counted, every_timing_can_be_counted, later, moment_after, repeat_enabled, RepeatConfig,
    LATEST_MOMENT, NANOS_PER_MILLI,
};
use crate::shared::{
    failure, lock_attempted, pressed, released, InputSink, SharedInput, SharedView, SinkCall,
};

verus! {

/// A key that repeats, and when it next does.
#[derive(Clone, Copy, Debug, PartialEq, Eq, Structural)]
pub struct Repeat {
    pub source: Key,
    pub native: NativeKey,
    pub deadline: u64,
}

/// What a device holds.
#[verifier::ext_equal]
pub struct DeviceView {
    /// The held inputs in the order in which they went down, each with what
    /// Windows makes of it.
    pub held: Seq<(Key, NativeKey)>,
    /// Inputs that are down on the remote device but were never forwarded.
    pub suppressed: Seq<Key>,
    pub config: RepeatConfig,
    /// The key that repeats.
    pub repeat: Option<Repeat>,
}

/// A remote device. Its inputs go to the [`SharedInput`] that each operation
/// is given, which has to be the same one throughout.
#[derive(Debug)]
pub struct Device {
    held: Vec<(Key, NativeKey)>,
    suppressed: Vec<Key>,
    config: RepeatConfig,
    repeat: Option<Repeat>,
}

impl View for Device {
    type V = DeviceView;

    closed spec fn view(&self) -> DeviceView {
        DeviceView {
            held: self.held@,
            suppressed: self.suppressed@,
            config: self.config,
            repeat: self.repeat,
        }
    }
}

/// A device that holds nothing.
pub open spec fn idle_device(config: RepeatConfig) -> DeviceView {
    DeviceView { held: Seq::empty(), suppressed: Seq::empty(), config, repeat: None }
}

/// The remote names of the held inputs.
pub open spec fn sources(held: Seq<(Key, NativeKey)>) -> Seq<Key> {
    held.map_values(|input: (Key, NativeKey)| input.0)
}

/// The key that locks the workstation together with Meta.
pub open spec fn is_lock_key(key: Key) -> bool {
    key == Key::Key(Keyboard::L)
}

/// What is always true of a device: no input is held or suppressed twice, nor
/// held and suppressed, only the lock key is ever suppressed, and what repeats
/// is a repeatable input that is held.
pub open spec fn device_wf(device: DeviceView) -> bool {
    &&& sources(device.held).no_duplicates()
    &&& forall|i: int|
        0 <= i < device.held.len() ==> native_key_of((#[trigger] device.held[i]).0) == Some(
            device.held[i].1,
        )
    &&& device.suppressed.no_duplicates()
    &&& forall|i: int| 0 <= i < device.suppressed.len() ==> is_lock_key(#[trigger] device.suppressed[i])
    &&& forall|i: int|
        0 <= i < device.suppressed.len() ==> !sources(device.held).contains(
            #[trigger] device.suppressed[i],
        )
    &&& device.repeat matches Some(repeat) ==> {
        &&& device.held.contains((repeat.source, repeat.native))
        &&& is_repeatable(repeat.source)
        &&& repeat_enabled(device.config)
    }
}

/// An input has gone down: unless the sink fails, the device holds it, and it
/// repeats in place of any other if it can repeat.
pub open spec fn input_pressed(
    device: DeviceView,
    shared: SharedView,
    key: Key,
    native: NativeKey,
    now: u64,
    device_after: DeviceView,
    shared_after: SharedView,
    result: Result<(), InputError>,
) -> bool {
    &&& pressed(shared, native, shared_after, result)
    &&& device_after == if result is Ok {
        DeviceView {
            held: device.held.push((key, native)),
            repeat: if is_repeatable(key) && repeat_enabled(device.config) {
                Some(
                    Repeat {
                        source: key,
                        native,
                        deadline: moment_after(now, device.config.delay),
                    },
                )
            } else {
                device.repeat
            },
            ..device
        }
    } else {
        device
    }
}

/// A held input has gone up: it stops repeating, and unless the sink fails the
/// device does not hold it any more.
pub open spec fn input_released(
    device: DeviceView,
    shared: SharedView,
    place: int,
    device_after: DeviceView,
    shared_after: SharedView,
    result: Result<(), InputError>,
) -> bool {
    let (key, native) = device.held[place];
    &&& released(shared, native, shared_after, result)
    &&& device_after == DeviceView {
        held: if result is Ok {
            device.held.remove(place)
        } else {
            device.held
        },
        repeat: match device.repeat {
            Some(repeat) => if repeat.source == key {
                None
            } else {
                Some(repeat)
            },
            None => None,
        },
        ..device
    }
}

/// The lock key has gone down: the lock is attempted first, and only if it was
/// not done does the key go down like any other.
pub open spec fn lock_key_pressed(
    device: DeviceView,
    shared: SharedView,
    key: Key,
    native: NativeKey,
    now: u64,
    device_after: DeviceView,
    shared_after: SharedView,
    result: Result<(), InputError>,
) -> bool {
    exists|attempt: SharedView, locked: Result<bool, InputError>| #[trigger]
        lock_attempted(shared, attempt, locked) && match locked {
            Ok(true) => {
                &&& result is Ok
                &&& shared_after == attempt
                &&& device_after == DeviceView {
                    suppressed: device.suppressed.push(key),
                    ..device
                }
            },
            Ok(false) => input_pressed(
                device,
                attempt,
                key,
                native,
                now,
                device_after,
                shared_after,
                result,
            ),
            Err(error) => {
                &&& result == Err::<(), InputError>(error)
                &&& shared_after == attempt
                &&& device_after == device
            },
        }
}

/// A key or button of a device has gone down or up.
///
/// A suppressed input is swallowed until it goes up. An input that Windows
/// lacks, a second press and a release without a press have no effect.
pub open spec fn key_changed(
    device: DeviceView,
    shared: SharedView,
    key: Key,
    down: bool,
    now: u64,
    device_after: DeviceView,
    shared_after: SharedView,
    result: Result<(), InputError>,
) -> bool {
    let unchanged = result is Ok && device_after == device && shared_after == shared;
    match device.suppressed.index_of_first(key) {
        Some(place) => if down {
            unchanged
        } else {
            &&& result is Ok
            &&& shared_after == shared
            &&& device_after == DeviceView { suppressed: device.suppressed.remove(place), ..device }
        },
        None => match native_key_of(key) {
            None => unchanged,
            Some(native) => match sources(device.held).index_of_first(key) {
                None => if !down {
                    unchanged
                } else if is_lock_key(key) {
                    lock_key_pressed(
                        device,
                        shared,
                        key,
                        native,
                        now,
                        device_after,
                        shared_after,
                        result,
                    )
                } else {
                    input_pressed(
                        device,
                        shared,
                        key,
                        native,
                        now,
                        device_after,
                        shared_after,
                        result,
                    )
                },
                Some(place) => if down {
                    unchanged
                } else {
                    input_released(device, shared, place, device_after, shared_after, result)
                },
            },
        },
    }
}

/// Whether the first repeat of a key can be timed, if it is to repeat.
pub open spec fn key_can_be_timed(device: DeviceView, key: Key, down: bool, now: u64) -> bool {
    let starts = down && is_repeatable(key) && repeat_enabled(device.config) && !sources(
        device.held,
    ).contains(key) && !device.suppressed.contains(key);
    starts ==> can_be_counted(now, device.config.delay)
}

/// Whether what an event sets going can be timed.
pub open spec fn event_can_be_timed(device: DeviceView, event: Event, now: u64) -> bool {
    event matches Event::Key(event) ==> key_can_be_timed(device, event.key, event.down, now)
}

/// Whether the next repeat can be timed, if one is due now.
pub open spec fn repeat_can_be_timed(device: DeviceView, now: u64) -> bool {
    (device.repeat matches Some(repeat) && now >= repeat.deadline) ==> can_be_counted(
        now,
        device.config.period,
    )
}

/// Up to the latest moment everything can be timed.
pub proof fn everything_can_be_timed(device: DeviceView, now: u64)
    requires
        now <= LATEST_MOMENT,
    ensures
        forall|event: Event| #[trigger] event_can_be_timed(device, event, now),
        repeat_can_be_timed(device, now),
{
    every_timing_can_be_counted(now, device.config.delay);
    every_timing_can_be_counted(now, device.config.period);
}

/// An event of a device has been written. Absolute positions and
/// synchronization have no effect.
pub open spec fn event_written(
    device: DeviceView,
    shared: SharedView,
    event: Event,
    now: u64,
    device_after: DeviceView,
    shared_after: SharedView,
    result: Result<(), InputError>,
) -> bool {
    match event {
        Event::Key(event) => key_changed(
            device,
            shared,
            event.key,
            event.down,
            now,
            device_after,
            shared_after,
            result,
        ),
        Event::Rel(event) => {
            &&& device_after == device
            &&& shared_after == SharedView {
                calls: shared.calls.push(
                    SinkCall::Relative {
                        axis: event.axis,
                        value: event.value,
                        error: failure(result),
                    },
                ),
                ..shared
            }
        },
        Event::Abs(_) | Event::Sync(_) => {
            &&& result is Ok
            &&& device_after == device
            &&& shared_after == shared
        },
    }
}

/// The repeat timer of a device has been served: a key that is due goes down
/// once more, and is next due one period from now. Missed repeats are skipped.
pub open spec fn repeat_served(
    device: DeviceView,
    shared: SharedView,
    now: u64,
    device_after: DeviceView,
    shared_after: SharedView,
    result: Result<(), InputError>,
) -> bool {
    match device.repeat {
        Some(repeat) if now >= repeat.deadline => {
            &&& shared_after == SharedView {
                calls: shared.calls.push(
                    SinkCall::Key { key: repeat.native, down: true, error: failure(result) },
                ),
                ..shared
            }
            &&& device_after == if result is Ok {
                DeviceView {
                    repeat: Some(
                        Repeat { deadline: moment_after(now, device.config.period), ..repeat },
                    ),
                    ..device
                }
            } else {
                device
            }
        },
        _ => result is Ok && device_after == device && shared_after == shared,
    }
}

/// The holders after the inputs of a device have been given up.
pub open spec fn owners_without(
    owners: Multiset<NativeKey>,
    held: Seq<(Key, NativeKey)>,
) -> Multiset<NativeKey>
    decreases held.len(),
{
    if held.len() == 0 {
        owners
    } else {
        owners_without(owners.remove(held.last().1), held.drop_last())
    }
}

/// The keys that go up when the inputs of a device are given up, last pressed
/// first: those of which it is the last holder.
pub open spec fn final_releases(
    owners: Multiset<NativeKey>,
    held: Seq<(Key, NativeKey)>,
) -> Seq<NativeKey>
    decreases held.len(),
{
    if held.len() == 0 {
        Seq::empty()
    } else {
        let key = held.last().1;
        let rest = final_releases(owners.remove(key), held.drop_last());
        if owners.count(key) == 1 {
            seq![key] + rest
        } else {
            rest
        }
    }
}

/// The keys that the sink failed to let up, with the errors.
pub open spec fn failed_releases(calls: Seq<SinkCall>) -> Seq<(NativeKey, InputError)>
    decreases calls.len(),
{
    if calls.len() == 0 {
        Seq::empty()
    } else {
        let rest = failed_releases(calls.drop_last());
        match calls.last() {
            SinkCall::Key { key, down: false, error: Some(error) } => rest.push((key, error)),
            _ => rest,
        }
    }
}

/// Each of some keys, and no other, has been let up in turn, whether or not
/// the sink failed.
pub open spec fn let_up_in_turn(
    before: Seq<SinkCall>,
    keys: Seq<NativeKey>,
    after: Seq<SinkCall>,
) -> bool {
    &&& after.len() == before.len() + keys.len()
    &&& after.take(before.len() as int) == before
    &&& forall|i: int|
        0 <= i < keys.len() ==> {
            &&& #[trigger] after[before.len() + i] matches SinkCall::Key { key, down, .. }
            &&& key == keys[i]
            &&& !down
        }
}

impl Device {
    /// What is always true of a device.
    pub open spec fn wf(&self) -> bool {
        device_wf(self@)
    }

    /// A device that holds nothing.
    pub fn new(config: RepeatConfig) -> (device: Self)
        ensures
            device.wf(),
            device@ == idle_device(config),
    {
        Device { held: Vec::new(), suppressed: Vec::new(), config, repeat: None }
    }

    /// Inject one event.
    pub fn write<S: InputSink>(
        &mut self,
        shared: &mut SharedInput<S>,
        event: &Event,
        now: u64,
    ) -> (result: Result<(), InputError>)
        requires
            old(self).wf(),
            event_can_be_timed(old(self)@, *event, now),
        ensures
            final(self).wf(),
            event_written(old(self)@, old(shared)@, *event, now, final(self)@, final(shared)@, result),
    {
        match *event {
            Event::Key(event) => self.key(shared, event.key, event.down, now),
            Event::Rel(event) => shared.relative(event.axis, event.value),
            Event::Abs(_) | Event::Sync(_) => Ok(()),
        }
    }

    /// Take a key or button of the device down or up.
    pub fn key<S: InputSink>(
        &mut self,
        shared: &mut SharedInput<S>,
        key: Key,
        down: bool,
        now: u64,
    ) -> (result: Result<(), InputError>)
        requires
            old(self).wf(),
            key_can_be_timed(old(self)@, key, down, now),
        ensures
            final(self).wf(),
            key_changed(
                old(self)@,
                old(shared)@,
                key,
                down,
                now,
                final(self)@,
                final(shared)@,
                result,
            ),
    {
        proof {
            self@.suppressed.index_of_first_ensures(key);
            sources(self@.held).index_of_first_ensures(key);
        }
        if let Some(place) = self.suppressed_place(key) {
            if !down {
                self.suppressed.remove(place);
                proof {
                    lemma_remove_suppressed(old(self)@, place as int);
                }
            }
            return Ok(());
        }
        let native = match native_key(key) {
            Some(native) => native,
            None => {
                return Ok(());
            },
        };
        match self.held_place(key) {
            None => {
                if !down {
                    return Ok(());
                }
                if key == Key::Key(Keyboard::L) {
                    match shared.try_lock_workstation() {
                        Ok(true) => {
                            self.suppressed.push(key);
                            proof {
                                lemma_push_suppressed(old(self)@, key);
                            }
                            return Ok(());
                        },
                        Ok(false) => {},
                        Err(error) => {
                            return Err(error);
                        },
                    }
                }
                let result = shared.press(native);
                if result.is_err() {
                    return result;
                }
                self.held.push((key, native));
                if repeatable(key) && self.config.enabled() {
                    self.repeat = Some(
                        Repeat { source: key, native, deadline: later(now, self.config.delay) },
                    );
                }
                proof {
                    lemma_push_held(old(self)@, key, native, self.repeat);
                }
                Ok(())
            },
            Some(place) => {
                if down {
                    return Ok(());
                }
                assert(self@.held[place as int] == (key, native));
                if let Some(repeat) = self.repeat {
                    if repeat.source == key {
                        self.repeat = None;
                    }
                }
                // Retain ownership on failure so that giving up the device can
                // retry the release.
                let result = shared.release(native);
                if result.is_err() {
                    return result;
                }
                self.held.remove(place);
                proof {
                    lemma_remove_held(old(self)@, place as int, self.repeat);
                }
                Ok(())
            },
        }
    }

    /// Where a suppressed input is listed.
    fn suppressed_place(&self, key: Key) -> (place: Option<usize>)
        ensures
            match place {
                Some(place) => place < self@.suppressed.len()
                    && self@.suppressed.index_of_first(key) == Some(place as int),
                None => self@.suppressed.index_of_first(key) is None,
            },
    {
        proof {
            self@.suppressed.index_of_first_ensures(key);
        }
        let mut i: usize = 0;
        while i < self.suppressed.len()
            invariant
                i <= self.suppressed@.len(),
                forall|j: int| 0 <= j < i ==> self.suppressed@[j] != key,
            decreases self.suppressed@.len() - i,
        {
            if self.suppressed[i] == key {
                proof {
                    self@.suppressed.index_of_first_ensures(key);
                }
                return Some(i);
            }
            i += 1;
        }
        None
    }

    /// Where a held input is listed.
    fn held_place(&self, key: Key) -> (place: Option<usize>)
        ensures
            match place {
                Some(place) => place < self@.held.len() && sources(self@.held).index_of_first(key)
                    == Some(place as int),
                None => sources(self@.held).index_of_first(key) is None,
            },
    {
        proof {
            sources(self@.held).index_of_first_ensures(key);
        }
        let mut i: usize = 0;
        while i < self.held.len()
            invariant
                i <= self.held@.len(),
                forall|j: int| 0 <= j < i ==> (#[trigger] self.held@[j]).0 != key,
            decreases self.held@.len() - i,
        {
            if self.held[i].0 == key {
                proof {
                    let all = sources(self@.held);
                    all.index_of_first_ensures(key);
                    assert(all[i as int] == key);
                    let first = all.index_of_first(key)->0;
                    assert(all[first] == self.held@[first].0);
                }
                return Some(i);
            }
            i += 1;
        }
        proof {
            let all = sources(self@.held);
            if all.index_of_first(key) is Some {
                let first = all.index_of_first(key)->0;
                assert(all[first] == self.held@[first].0);
            }
        }
        None
    }

    /// The held inputs in the order in which they went down.
    pub fn held(&self) -> (held: &[(Key, NativeKey)])
        ensures
            held@ == self@.held,
    {
        self.held.as_slice()
    }

    /// When the timer of this device is next due.
    pub fn next_repeat(&self) -> (deadline: Option<u64>)
        ensures
            deadline == match self@.repeat {
                Some(repeat) => Some(repeat.deadline),
                None => None,
            },
    {
        match self.repeat {
            Some(repeat) => Some(repeat.deadline),
            None => None,
        }
    }

    /// Serve the repeat timer. Missed ticks are skipped, rather than flooding
    /// the desktop after a stall.
    pub fn repeat<S: InputSink>(&mut self, shared: &mut SharedInput<S>, now: u64) -> (result: Result<
        (),
        InputError,
    >)
        requires
            old(self).wf(),
            repeat_can_be_timed(old(self)@, now),
        ensures
            final(self).wf(),
            repeat_served(old(self)@, old(shared)@, now, final(self)@, final(shared)@, result),
    {
        if let Some(repeat) = self.repeat {
            if now >= repeat.deadline {
                let result = shared.repeat_key(repeat.native);
                if result.is_err() {
                    return result;
                }
                self.repeat = Some(
                    Repeat { deadline: later(now, self.config.period), ..repeat },
                );
            }
        }
        Ok(())
    }

    /// Give up everything that this device holds, last pressed first.
    ///
    /// A key that the sink fails to let up is given up all the same, so that
    /// no stale holder is left; what failed is returned.
    pub fn release_all<S: InputSink>(&mut self, shared: &mut SharedInput<S>) -> (failures: Vec<
        (NativeKey, InputError),
    >)
        requires
            old(self).wf(),
        ensures
            final(self).wf(),
            final(self)@ == (DeviceView { held: Seq::empty(), repeat: None, ..old(self)@ }),
            final(shared)@.owners == owners_without(old(shared)@.owners, old(self)@.held),
            let_up_in_turn(
                old(shared)@.calls,
                final_releases(old(shared)@.owners, old(self)@.held),
                final(shared)@.calls,
            ),
            failures@ == failed_releases(
                final(shared)@.calls.skip(old(shared)@.calls.len() as int),
            ),
    {
        self.repeat = None;
        let mut failures: Vec<(NativeKey, InputError)> = Vec::new();
        let ghost calls = shared@.calls;
        let ghost released_keys = Seq::<NativeKey>::empty();
        assert(shared@.calls.skip(calls.len() as int) =~= Seq::<SinkCall>::empty());
        assert(shared@.calls.take(calls.len() as int) =~= calls);
        let ghost whole = final_releases(shared@.owners, self.held@);
        assert(released_keys + whole =~= whole);
        while self.held.len() > 0
            invariant
                self.repeat is None,
                self.suppressed == old(self).suppressed,
                self.config == old(self).config,
                calls == old(shared)@.calls,
                whole == final_releases(old(shared)@.owners, old(self)@.held),
                released_keys + final_releases(shared@.owners, self.held@) == whole,
                owners_without(shared@.owners, self.held@) == owners_without(
                    old(shared)@.owners,
                    old(self)@.held,
                ),
                let_up_in_turn(calls, released_keys, shared@.calls),
                failures@ == failed_releases(shared@.calls.skip(calls.len() as int)),
            decreases self.held@.len(),
        {
            let ghost held = self.held@;
            let ghost before = shared@;
            let last = self.held.len() - 1;
            let native = self.held[last].1;
            self.held.remove(last);
            assert(self.held@ =~= held.drop_last());
            match shared.release(native) {
                Ok(()) => {},
                Err(error) => {
                    shared.forget(native);
                    failures.push((native, error));
                },
            }
            proof {
                assert(shared@.owners =~= before.owners.remove(native));
                if before.owners.count(native) == 1 {
                    let rest = final_releases(shared@.owners, self.held@);
                    assert(released_keys + (seq![native] + rest) =~= released_keys.push(native)
                        + rest);
                    released_keys = released_keys.push(native);
                    let trace = shared@.calls.skip(calls.len() as int);
                    assert(trace.drop_last() =~= before.calls.skip(calls.len() as int));
                    assert(trace.last() == shared@.calls.last());
                    assert(shared@.calls.take(calls.len() as int) =~= calls);
                }
            }
        }
        assert(released_keys =~= whole);
        assert(self@ =~= (DeviceView { held: Seq::empty(), repeat: None, ..old(self)@ }));
        assert(sources(self@.held) =~= Seq::<Key>::empty());
        failures
    }
}

proof fn lemma_remove_suppressed(device: DeviceView, place: int)
    requires
        device_wf(device),
        0 <= place < device.suppressed.len(),
    ensures
        device_wf(DeviceView { suppressed: device.suppressed.remove(place), ..device }),
{
    let after = DeviceView { suppressed: device.suppressed.remove(place), ..device };
    assert forall|i: int| 0 <= i < after.suppressed.len() implies is_lock_key(
        #[trigger] after.suppressed[i],
    ) && !sources(after.held).contains(after.suppressed[i]) by {
        let j = if i < place {
            i
        } else {
            i + 1
        };
        assert(after.suppressed[i] == device.suppressed[j]);
    }
}

proof fn lemma_push_suppressed(device: DeviceView, key: Key)
    requires
        device_wf(device),
        is_lock_key(key),
        device.suppressed.index_of_first(key) is None,
        sources(device.held).index_of_first(key) is None,
    ensures
        device_wf(DeviceView { suppressed: device.suppressed.push(key), ..device }),
{
    device.suppressed.index_of_first_ensures(key);
    sources(device.held).index_of_first_ensures(key);
}

proof fn lemma_push_held(device: DeviceView, key: Key, native: NativeKey, repeat: Option<Repeat>)
    requires
        device_wf(device),
        native_key_of(key) == Some(native),
        device.suppressed.index_of_first(key) is None,
        sources(device.held).index_of_first(key) is None,
        repeat == device.repeat || {
            &&& repeat matches Some(repeat) && repeat.source == key && repeat.native == native
            &&& is_repeatable(key)
            &&& repeat_enabled(device.config)
        },
    ensures
        device_wf(DeviceView { held: device.held.push((key, native)), repeat, ..device }),
{
    device.suppressed.index_of_first_ensures(key);
    sources(device.held).index_of_first_ensures(key);
    let held = device.held.push((key, native));
    assert(sources(held) =~= sources(device.held).push(key));
    assert(held.last() == (key, native));
    if let Some(old_repeat) = device.repeat {
        let i = choose|i: int|
            0 <= i < device.held.len() && device.held[i] == (old_repeat.source, old_repeat.native);
        assert(held[i] == device.held[i]);
    }
    assert forall|i: int| 0 <= i < device.suppressed.len() implies !sources(held).contains(
        #[trigger] device.suppressed[i],
    ) by {
        let suppressed = device.suppressed[i];
        assert(!sources(device.held).contains(suppressed));
        assert(suppressed != key);
        if sources(held).contains(suppressed) {
            let j = choose|j: int| 0 <= j < sources(held).len() && sources(held)[j] == suppressed;
            assert(sources(device.held)[j] == suppressed);
        }
    }
}

proof fn lemma_remove_held(device: DeviceView, place: int, repeat: Option<Repeat>)
    requires
        device_wf(device),
        0 <= place < device.held.len(),
        repeat == device.repeat || repeat is None,
        repeat matches Some(repeat) ==> repeat.source != device.held[place].0,
    ensures
        device_wf(DeviceView { held: device.held.remove(place), repeat, ..device }),
{
    let held = device.held.remove(place);
    assert(sources(held) =~= sources(device.held).remove(place));
    assert forall|i: int| 0 <= i < held.len() implies native_key_of((#[trigger] held[i]).0) == Some(
        held[i].1,
    ) by {
        let j = if i < place {
            i
        } else {
            i + 1
        };
        assert(held[i] == device.held[j]);
    }
    if let Some(repeat) = repeat {
        let i = choose|i: int|
            0 <= i < device.held.len() && device.held[i] == (repeat.source, repeat.native);
        let j = if i < place {
            i
        } else {
            i - 1
        };
        assert(held[j] == device.held[i]);
    }
    assert forall|i: int| 0 <= i < device.suppressed.len() implies !sources(held).contains(
        #[trigger] device.suppressed[i],
    ) by {
        let suppressed = device.suppressed[i];
        assert(!sources(device.held).contains(suppressed));
        if sources(held).contains(suppressed) {
            let j = choose|j: int| 0 <= j < sources(held).len() && sources(held)[j] == suppressed;
            let k = if j < place {
                j
            } else {
                j + 1
            };
            assert(sources(device.held)[k] == suppressed);
        }
    }
}

/// Missed repeats are skipped: once a key that was due has been repeated, it is
/// not due again before a period has passed, however late it was.
pub proof fn missed_repeats_are_skipped(
    device: DeviceView,
    shared: SharedView,
    now: u64,
    device_after: DeviceView,
    shared_after: SharedView,
    result: Result<(), InputError>,
    again: u64,
)
    requires
        device.repeat matches Some(repeat) && now >= repeat.deadline,
        repeat_served(device, shared, now, device_after, shared_after, result),
        result is Ok,
        repeat_can_be_timed(device, now),
    ensures
        device_after.repeat matches Some(repeat) && (again >= repeat.deadline <==> again >= now
            + device.config.period * NANOS_PER_MILLI),
{
}

/// A key that has gone up does not repeat, even if the sink failed to let it up.
pub proof fn released_keys_do_not_repeat(
    device: DeviceView,
    shared: SharedView,
    key: Key,
    now: u64,
    device_after: DeviceView,
    shared_after: SharedView,
    result: Result<(), InputError>,
)
    requires
        device_wf(device),
        key_changed(device, shared, key, false, now, device_after, shared_after, result),
    ensures
        device_after.repeat matches Some(repeat) ==> repeat.source != key,
{
    device.suppressed.index_of_first_ensures(key);
    sources(device.held).index_of_first_ensures(key);
    if let Some(repeat) = device.repeat {
        let i = choose|i: int|
            0 <= i < device.held.len() && device.held[i] == (repeat.source, repeat.native);
        assert(sources(device.held)[i] == repeat.source);
        assert(native_key_of(device.held[i].0) == Some(device.held[i].1));
        if let Some(place) = sources(device.held).index_of_first(key) {
            assert(sources(device.held)[place] == device.held[place].0);
        }
    }
}

/// A second press of a held key, a release of a key that is not held and any key
/// that Windows lacks have no effect: nothing is sent, nothing else is held, the
/// holders stay, and the repeat is neither delayed nor stopped.
pub proof fn unmatched_keys_have_no_effect(
    device: DeviceView,
    shared: SharedView,
    key: Key,
    down: bool,
    now: u64,
    device_after: DeviceView,
    shared_after: SharedView,
    result: Result<(), InputError>,
)
    requires
        device_wf(device),
        down == sources(device.held).contains(key) || native_key_of(key) is None,
        key_changed(device, shared, key, down, now, device_after, shared_after, result),
    ensures
        result is Ok,
        shared_after == shared,
        device_after.held == device.held,
        device_after.repeat == device.repeat,
        down ==> device_after == device,
{
    device.suppressed.index_of_first_ensures(key);
    sources(device.held).index_of_first_ensures(key);
}

/// A key that goes down is held and reaches the desktop as what Windows makes of it,
/// unless the desktop refuses it. If it repeats it does so in place of any other,
/// first after the delay of the device; if it does not, whatever repeats goes on.
pub proof fn presses_are_held_and_timed(
    device: DeviceView,
    shared: SharedView,
    key: Key,
    now: u64,
    device_after: DeviceView,
    shared_after: SharedView,
    result: Result<(), InputError>,
)
    requires
        key_changed(device, shared, key, true, now, device_after, shared_after, result),
        native_key_of(key) is Some,
        !sources(device.held).contains(key),
        !device.suppressed.contains(key),
        key != Key::Key(Keyboard::L),
        now + device.config.delay * 1_000_000 <= u64::MAX,
    ensures
        result is Err ==> device_after == device,
        result is Ok ==> {
            &&& device_after.held == device.held.push((key, native_key_of(key)->0))
            &&& device_after.suppressed == device.suppressed
            &&& device_after.config == device.config
            &&& if is_repeatable(key) && device.config.delay != 0 && device.config.period != 0 {
                &&& device_after.repeat matches Some(repeat)
                &&& repeat.source == key
                &&& repeat.native == native_key_of(key)->0
                &&& repeat.deadline == now + device.config.delay * 1_000_000
            } else {
                device_after.repeat == device.repeat
            }
        },
        pressed(shared, native_key_of(key)->0, shared_after, result),
{
    device.suppressed.index_of_first_ensures(key);
    sources(device.held).index_of_first_ensures(key);
}

/// A held key that goes up is let up on the desktop, and held on if the desktop
/// refuses that, so that it can be let up later. Either way it stops repeating,
/// while another key that repeats goes on.
pub proof fn releases_are_sent_or_kept(
    device: DeviceView,
    shared: SharedView,
    key: Key,
    now: u64,
    device_after: DeviceView,
    shared_after: SharedView,
    result: Result<(), InputError>,
    other: Key,
)
    requires
        device_wf(device),
        key_changed(device, shared, key, false, now, device_after, shared_after, result),
        sources(device.held).contains(key),
    ensures
        released(shared, native_key_of(key)->0, shared_after, result),
        sources(device_after.held).contains(key) <==> result is Err,
        other != key ==> (sources(device_after.held).contains(other) <==> sources(
            device.held,
        ).contains(other)),
        device_after.repeat == (if device.repeat matches Some(repeat) && repeat.source == key {
            None
        } else {
            device.repeat
        }),
        device_after.suppressed == device.suppressed,
        device_after.config == device.config,
{
    let all = sources(device.held);
    device.suppressed.index_of_first_ensures(key);
    all.index_of_first_ensures(key);
    if device.suppressed.contains(key) {
        let i = choose|i: int| 0 <= i < device.suppressed.len() && device.suppressed[i] == key;
        assert(!all.contains(device.suppressed[i]));
    }
    let place = all.index_of_first(key)->0;
    assert(all[place] == device.held[place].0);
    if result is Ok {
        let held = device.held.remove(place);
        assert(sources(held) =~= all.remove(place));
        if all.remove(place).contains(key) {
            let i = choose|i: int| 0 <= i < all.remove(place).len() && all.remove(place)[i] == key;
            let j = if i < place {
                i
            } else {
                i + 1
            };
            assert(all[j] == key && j != place);
        }
        if all.contains(other) && other != key {
            let i = choose|i: int| 0 <= i < all.len() && all[i] == other;
            let j = if i < place {
                i
            } else {
                i - 1
            };
            assert(all.remove(place)[j] == other);
        }
        if all.remove(place).contains(other) {
            let i = choose|i: int|
                0 <= i < all.remove(place).len() && all.remove(place)[i] == other;
            let j = if i < place {
                i
            } else {
                i + 1
            };
            assert(all[j] == other);
        }
    }
}

/// L locks the workstation while a Meta key is held, and is then swallowed until it
/// goes up; where the workstation was not locked it goes down like any other key.
pub proof fn the_lock_key_is_swallowed_or_sent(
    device: DeviceView,
    shared: SharedView,
    now: u64,
    device_after: DeviceView,
    shared_after: SharedView,
    result: Result<(), InputError>,
)
    requires
        key_changed(
            device,
            shared,
            Key::Key(Keyboard::L),
            true,
            now,
            device_after,
            shared_after,
            result,
        ),
        !sources(device.held).contains(Key::Key(Keyboard::L)),
        !device.suppressed.contains(Key::Key(Keyboard::L)),
    ensures
        exists|attempt: SharedView, locked: Result<bool, InputError>| #[trigger]
            lock_attempted(shared, attempt, locked) && match locked {
                Ok(true) => {
                    &&& result is Ok
                    &&& shared_after == attempt
                    &&& device_after.suppressed == device.suppressed.push(Key::Key(Keyboard::L))
                    &&& device_after.held == device.held
                    &&& device_after.repeat == device.repeat
                    &&& device_after.config == device.config
                },
                Ok(false) => {
                    &&& pressed(
                        attempt,
                        native_key_of(Key::Key(Keyboard::L))->0,
                        shared_after,
                        result,
                    )
                    &&& sources(device_after.held).contains(Key::Key(Keyboard::L)) <==> result is Ok
                    &&& device_after.suppressed == device.suppressed
                },
                Err(error) => {
                    &&& result == Err::<(), InputError>(error)
                    &&& shared_after == attempt
                    &&& device_after == device
                },
            },
{
    let key = Key::Key(Keyboard::L);
    device.suppressed.index_of_first_ensures(key);
    sources(device.held).index_of_first_ensures(key);
    let native = native_key_of(key)->0;
    let (attempt, locked) = choose|attempt: SharedView, locked: Result<bool, InputError>|
     #[trigger]
        lock_attempted(shared, attempt, locked) && match locked {
            Ok(true) => {
                &&& result is Ok
                &&& shared_after == attempt
                &&& device_after == DeviceView {
                    suppressed: device.suppressed.push(key),
                    ..device
                }
            },
            Ok(false) => input_pressed(
                device,
                attempt,
                key,
                native,
                now,
                device_after,
                shared_after,
                result,
            ),
            Err(error) => {
                &&& result == Err::<(), InputError>(error)
                &&& shared_after == attempt
                &&& device_after == device
            },
        };
    if locked == Ok::<bool, InputError>(false) && result is Ok {
        assert(sources(device_after.held)[device.held.len() as int] == key);
    }
    if locked == Ok::<bool, InputError>(false) && result is Err {
        assert(device_after.held == device.held);
    }
    assert(lock_attempted(shared, attempt, locked));
}

/// A key that is swallowed reaches nobody, however often it goes down, and is an
/// ordinary key again once it has gone up.
pub proof fn swallowed_keys_reach_nobody(
    device: DeviceView,
    shared: SharedView,
    key: Key,
    down: bool,
    now: u64,
    device_after: DeviceView,
    shared_after: SharedView,
    result: Result<(), InputError>,
)
    requires
        device_wf(device),
        key_changed(device, shared, key, down, now, device_after, shared_after, result),
        device.suppressed.contains(key),
    ensures
        result is Ok,
        shared_after == shared,
        device_after.held == device.held,
        device_after.repeat == device.repeat,
        device_after.suppressed.contains(key) == down,
        down ==> device_after == device,
{
    let list = device.suppressed;
    list.index_of_first_ensures(key);
    let place = list.index_of_first(key)->0;
    if !down && list.remove(place).contains(key) {
        let i = choose|i: int| 0 <= i < list.remove(place).len() && list.remove(place)[i] == key;
        let j = if i < place {
            i
        } else {
            i + 1
        };
        assert(list[j] == key && list[place] == key && j != place);
    }
}

/// A movement reaches the desktop as it is, once; absolute positions and the ends of
/// groups do not reach it at all.
pub proof fn movements_reach_the_desktop(
    device: DeviceView,
    shared: SharedView,
    event: Event,
    now: u64,
    device_after: DeviceView,
    shared_after: SharedView,
    result: Result<(), InputError>,
)
    requires
        event_written(device, shared, event, now, device_after, shared_after, result),
        event !is Key,
    ensures
        device_after == device,
        shared_after.owners == shared.owners,
        match event {
            Event::Rel(movement) => {
                &&& shared_after.calls.len() == shared.calls.len() + 1
                &&& shared_after.calls.drop_last() == shared.calls
                &&& shared_after.calls.last() matches SinkCall::Relative { axis, value, error }
                &&& axis == movement.axis
                &&& value == movement.value
                &&& error is None <==> result is Ok
            },
            _ => result is Ok && shared_after.calls == shared.calls,
        },
{
    if event is Rel {
        assert(shared_after.calls.drop_last() =~= shared.calls);
    }
}

/// A timer that is due takes its key down once more, which is then due again one
/// period from now, however late it was; if the desktop refuses that, it stays due.
/// A timer that is not due does nothing. What is held never changes.
pub proof fn due_keys_repeat_once(
    device: DeviceView,
    shared: SharedView,
    now: u64,
    device_after: DeviceView,
    shared_after: SharedView,
    result: Result<(), InputError>,
)
    requires
        repeat_served(device, shared, now, device_after, shared_after, result),
        now + device.config.period * 1_000_000 <= u64::MAX,
    ensures
        device_after.held == device.held,
        device_after.suppressed == device.suppressed,
        device_after.config == device.config,
        shared_after.owners == shared.owners,
        match device.repeat {
            Some(repeat) if repeat.deadline <= now => {
                &&& shared_after.calls.len() == shared.calls.len() + 1
                &&& shared_after.calls.drop_last() == shared.calls
                &&& shared_after.calls.last() matches SinkCall::Key { key, down, error }
                &&& key == repeat.native && down
                &&& error is None <==> result is Ok
                &&& device_after.repeat matches Some(next)
                &&& next.source == repeat.source
                &&& next.native == repeat.native
                &&& next.deadline == if result is Ok {
                    now + device.config.period * 1_000_000
                } else {
                    repeat.deadline as int
                }
            },
            _ => result is Ok && device_after == device && shared_after == shared,
        },
{
    if let Some(repeat) = device.repeat {
        if repeat.deadline <= now {
            assert(shared_after.calls.drop_last() =~= shared.calls);
        }
    }
}

/// Where a device is the only holder of what it holds, giving it up lets up all of
/// it, last pressed first.
pub proof fn the_last_pressed_is_let_up_first(
    owners: Multiset<NativeKey>,
    held: Seq<(Key, NativeKey)>,
)
    requires
        forall|i: int| 0 <= i < held.len() ==> owners.count((#[trigger] held[i]).1) == 1,
        forall|i: int, j: int|
            0 <= i < j < held.len() ==> (#[trigger] held[i]).1 != (#[trigger] held[j]).1,
    ensures
        final_releases(owners, held).len() == held.len(),
        forall|i: int|
            0 <= i < held.len() ==> #[trigger] final_releases(owners, held)[i]
                == held[held.len() - 1 - i].1,
    decreases held.len(),
{
    if held.len() > 0 {
        let key = held.last().1;
        assert(owners.count(held[held.len() - 1].1) == 1);
        let shorter = held.drop_last();
        let fewer = owners.remove(key);
        assert forall|i: int| 0 <= i < shorter.len() implies fewer.count((#[trigger] shorter[i]).1)
            == 1 by {
            assert(shorter[i] == held[i]);
            assert(held[i].1 != held[held.len() - 1].1);
        }
        assert forall|i: int, j: int| 0 <= i < j < shorter.len() implies (
        #[trigger] shorter[i]).1 != (#[trigger] shorter[j]).1 by {
            assert(shorter[i] == held[i] && shorter[j] == held[j]);
        }
        the_last_pressed_is_let_up_first(fewer, shorter);
        let rest = final_releases(fewer, shorter);
        assert(final_releases(owners, held) == seq![key] + rest);
        assert forall|i: int| 0 <= i < held.len() implies #[trigger] final_releases(
            owners,
            held,
        )[i] == held[held.len() - 1 - i].1 by {
            if i > 0 {
                assert((seq![key] + rest)[i] == rest[i - 1]);
                assert(shorter[shorter.len() - 1 - (i - 1)] == held[held.len() - 1 - i]);
            }
        }
    }
}

/// The keys that could not be let up are told with their errors, and no others.
pub proof fn failed_releases_are_told(calls: Seq<SinkCall>, key: NativeKey, error: InputError)
    ensures
        failed_releases(calls).contains((key, error)) <==> calls.contains(
            (SinkCall::Key { key, down: false, error: Some(error) }),
        ),
    decreases calls.len(),
{
    let wanted = SinkCall::Key { key, down: false, error: Some(error) };
    if calls.len() > 0 {
        let earlier = calls.drop_last();
        failed_releases_are_told(earlier, key, error);
        let rest = failed_releases(earlier);
        let all = failed_releases(calls);
        if calls.contains(wanted) && calls.last() != wanted {
            let i = choose|i: int| 0 <= i < calls.len() && calls[i] == wanted;
            assert(earlier[i] == wanted);
        }
        if earlier.contains(wanted) {
            let i = choose|i: int| 0 <= i < earlier.len() && earlier[i] == wanted;
            assert(calls[i] == wanted);
        }
        if calls.last() == wanted {
            assert(calls[calls.len() - 1] == wanted);
            assert(all[rest.len() as int] == (key, error));
        }
        if rest.contains((key, error)) {
            let i = choose|i: int| 0 <= i < rest.len() && rest[i] == (key, error);
            assert(all[i] == (key, error));
        }
        if all.contains((key, error)) && calls.last() != wanted {
            let i = choose|i: int| 0 <= i < all.len() && all[i] == (key, error);
            assert(i < rest.len());
            assert(rest[i] == (key, error));
        }
    }
}

} // verus!
