//! Which machine gets which event, and what it is left with.
//!
//! The laws here speak of what goes into a server and what comes out of it: the
//! keys that are typed, the batches that are routed, and what of them arrived.
use vstd::prelude::*;

use crate::batch::Turn;
use crate::chord::{
    chord_after_all, chords_follow_the_keys, completed_by, completed_when_all_are_down,
    is_down_after, SwitchAction,
};
use crate::event::{Event, Key, KeyEvent, SyncEvent};
use crate::held_inputs::{
    arrived_keys_decide_what_is_held, is_held, last_word, lets_up, only_what_is_left_is_forgotten,
    recorded_all, switches_leave_no_device_out,
};
use crate::server::{
    action_of, batch_contents, chord_of, client_lost, device_removed, event_routed,
    forwarded_here, forwarded_there, idle_server, passed_on, pruned, queueing_outcome, routed,
    server_wf, switches, target_of, with_client, with_device, Error, Queued, Routing, ServerView,
    Target,
};
use crate::slots::next_slot;
use crate::suppression::{is_run, step_taken, Step};
use crate::update::InfoView;

verus! {

/// Whether an event is about a key of the shortcut.
pub open spec fn is_switch_key(server: ServerView, event: Event) -> bool {
    event matches Event::Key(key) && server.switch_keys.contains(key.key)
}

/// Every event goes to the machine that was current when it arrived, keys of a
/// shortcut that is still to be completed included; only the keys of a shortcut
/// that has been completed go where that was typed. An event that is not about the
/// shortcut is passed on as it is; one that is ends its group at once, or is not
/// passed on at all.
pub proof fn events_go_where_they_belong(
    before: ServerView,
    device: usize,
    event: Event,
    after: ServerView,
    routing: Routing,
)
    requires
        routed(before, device, event, after, routing),
    ensures
        routing.destination == if is_switch_key(before, event) && before.changed {
            before.previous
        } else {
            before.current
        },
        !is_switch_key(before, event) ==> {
            &&& routing.batches@.len() == 1
            &&& routing.batches@[0].0 == device
            &&& routing.batches@[0].1.events@ == seq![event]
            &&& routing.batches@[0].1.turn == Turn::Free
        },
        is_switch_key(before, event) && before.propagate ==> {
            &&& routing.batches@.len() >= 1
            &&& routing.batches@[0].0 == device
            &&& routing.batches@[0].1.events@.len() >= 2
            &&& routing.batches@[0].1.events@[0] == event
            &&& routing.batches@[0].1.events@[1] == Event::Sync(SyncEvent::All)
            &&& after.current == before.current ==> routing.batches@.len() == 1
                && routing.batches@[0].1.events@.len() == 2
        },
        is_switch_key(before, event) && !before.propagate && after.current == before.current
            ==> routing.batches@.len() == 0,
{
    let contents = batch_contents(routing.batches@);
    assert(contents.len() == routing.batches@.len());
    assert forall|i: int| 0 <= i < contents.len() implies (#[trigger] contents[i]) == (
        routing.batches@[i].0,
        routing.batches@[i].1.events@,
    ) by {}
    let press = action_of(before, event) != SwitchAction::Unrelated;
    assert(press == is_switch_key(before, event));
    let events = passed_on(event, press, before.propagate);
    if switches(before, event, after) {
        if before.propagate {
            switches_leave_no_device_out(before.held, before.current, device, events, contents);
            let staged = recorded_all(before.held, (before.current, device), events);
            if staged.contains_key((before.current, device)) {
                assert(contents[0].1.take(events.len() as int)[0] == contents[0].1[0]);
                assert(contents[0].1.take(events.len() as int)[1] == contents[0].1[1]);
            }
        }
    } else {
        if events.len() > 0 {
            assert(contents[0] == (device, events));
        }
        if !is_switch_key(before, event) {
            assert(routing.batches@[0].1.turn == Turn::Free);
        }
    }
}

/// A shortcut is completed by the key that takes down the last of its keys, and by
/// nothing else. It then selects the next machine behind the current one that is
/// there, or the own one behind the last, and the machine where it was typed is
/// remembered. Until all its keys are up it is not completed again.
pub proof fn shortcuts_select_the_next_machine(
    before: ServerView,
    device: usize,
    event: Event,
    after: ServerView,
    routing: Routing,
)
    requires
        server_wf(before),
        before.switch_keys.finite(),
        routed(before, device, event, after, routing),
    ensures
        routing.selected is Some <==> !before.changed && (event matches Event::Key(key)
            && before.switch_keys.contains(key.key) && key.down && forall|other: Key| #[trigger]
                before.switch_keys.contains(other) && other != key.key ==> before.pressed.contains(
                    other,
                )),
        match routing.selected {
            Some(next) => {
                &&& after.current == next
                &&& after.previous == before.current
                &&& after.changed
                &&& next == 0 ==> forall|slot: usize| #[trigger]
                    before.clients.contains_key(slot) ==> slot < before.current
                &&& next != 0 ==> next > before.current && before.clients.contains_key(
                    (next - 1) as usize,
                ) && forall|slot: usize| #[trigger]
                    before.clients.contains_key(slot) && slot >= before.current ==> slot >= next - 1
            },
            None => {
                &&& after.current == before.current
                &&& after.previous == before.previous
            },
        },
        match event {
            Event::Key(key) if before.switch_keys.contains(key.key) => {
                &&& forall|other: Key| #[trigger]
                    after.pressed.contains(other) <==> if other == key.key {
                        key.down
                    } else {
                        before.pressed.contains(other)
                    }
                &&& before.changed ==> (after.changed <==> exists|other: Key| #[trigger]
                    after.pressed.contains(other))
                &&& !before.changed ==> (after.changed <==> routing.selected is Some)
            },
            _ => after.pressed == before.pressed && after.changed == before.changed,
        },
        after.clients == before.clients,
        after.free_clients == before.free_clients,
        after.devices == before.devices,
        after.free_devices == before.free_devices,
        after.infos == before.infos,
        after.switch_keys == before.switch_keys,
        after.propagate == before.propagate,
{
    if let Event::Key(key) = event {
        if before.switch_keys.contains(key.key) {
            let pressed = after.pressed;
            assert(pressed == chord_of(before, event).0);
            if !before.changed {
                completed_when_all_are_down(key, before.switch_keys, before.pressed);
                let all = forall|other: Key| #[trigger]
                    before.switch_keys.contains(other) && other != key.key
                        ==> before.pressed.contains(other);
                if key.down && all {
                    assert(pressed =~= before.switch_keys);
                }
                if pressed == before.switch_keys {
                    assert(pressed.contains(key.key));
                    assert forall|other: Key| #[trigger]
                        before.switch_keys.contains(other) && other
                            != key.key implies before.pressed.contains(other) by {
                        assert(pressed.contains(other));
                    }
                }
            } else {
                if pressed != Set::<Key>::empty() {
                    if forall|other: Key| !pressed.contains(other) {
                        assert(pressed =~= Set::<Key>::empty());
                    }
                }
            }
        }
    }
    if let Some(next) = routing.selected {
        assert forall|slot: usize| #[trigger] before.clients.contains_key(slot) && next
            == 0 implies slot < before.current by {}
    }
}

proof fn lemma_last_word_at(events: Seq<Event>, key: Key, down: bool, place: int)
    requires
        0 <= place < events.len(),
        events[place] == Event::Key(KeyEvent { key, down }),
        forall|i: int|
            place < i < events.len() ==> (#[trigger] events[i] matches Event::Key(other)
                ==> other.key != key || other.down == down),
    ensures
        last_word(events, key) == Some(down),
    decreases events.len(),
{
    if place < events.len() - 1 {
        let earlier = events.drop_last();
        assert(earlier[place] == events[place]);
        assert forall|i: int| place < i < earlier.len() implies (#[trigger] earlier[i] matches
            Event::Key(other) ==> other.key != key || other.down == down) by {
            assert(earlier[i] == events[i]);
        }
        lemma_last_word_at(earlier, key, down, place);
        assert(events[events.len() - 1] == events.last());
    }
}

proof fn lemma_last_word_behind(leading: Seq<Event>, releases: Seq<Event>, keys: Seq<Key>, key: Key)
    requires
        lets_up(releases, keys),
    ensures
        last_word(leading + releases, key) == if keys.contains(key) {
            Some(false)
        } else {
            last_word(leading, key)
        },
{
    let events = leading + releases;
    if keys.contains(key) {
        let at = choose|i: int| 0 <= i < keys.len() && keys[i] == key;
        let place = leading.len() + (keys.len() - 1 - at);
        assert(events[place] == releases[keys.len() - 1 - at]);
        assert forall|i: int| place < i < events.len() implies (#[trigger] events[i] matches
            Event::Key(other) ==> other.key != key || other.down == false) by {
            assert(events[i] == releases[i - leading.len()]);
        }
        lemma_last_word_at(events, key, false, place);
    } else {
        lemma_silent_suffix(leading, releases, key);
    }
}

proof fn lemma_silent_suffix(leading: Seq<Event>, rest: Seq<Event>, key: Key)
    requires
        forall|i: int|
            0 <= i < rest.len() ==> (#[trigger] rest[i] matches Event::Key(other) ==> other.key
                != key),
    ensures
        last_word(leading + rest, key) == last_word(leading, key),
    decreases rest.len(),
{
    if rest.len() == 0 {
        assert(leading + rest =~= leading);
    } else {
        let shorter = rest.drop_last();
        assert forall|i: int| 0 <= i < shorter.len() implies (#[trigger] shorter[i] matches
            Event::Key(other) ==> other.key != key) by {
            assert(shorter[i] == rest[i]);
        }
        lemma_silent_suffix(leading, shorter, key);
        assert((leading + rest).drop_last() =~= leading + shorter);
        assert((leading + rest).last() == rest[rest.len() - 1]);
    }
}

/// A switch lets up everything that is held on the machine that is left: each key
/// or button that a device holds there is let up on that device and not taken down
/// again, and so is the key that completed the shortcut. Every batch ends with the
/// end of a group, nothing is let up that was not held, and what is held elsewhere
/// stays held.
pub proof fn switches_let_up_what_is_held(
    before: ServerView,
    device: usize,
    event: Event,
    after: ServerView,
    routing: Routing,
)
    requires
        server_wf(before),
        before.switch_keys.finite(),
        routed(before, device, event, after, routing),
        after.current != before.current,
    ensures
        routing.destination == before.current,
        forall|other: usize, key: Key| #[trigger]
            is_held(before.held, (before.current, other), key) ==> exists|i: int|
                0 <= i < routing.batches@.len() && (#[trigger] routing.batches@[i]).0 == other
                    && last_word(routing.batches@[i].1.events@, key) == Some(false),
        before.propagate ==> (event matches Event::Key(key) && exists|i: int|
            0 <= i < routing.batches@.len() && (#[trigger] routing.batches@[i]).0 == device
                && last_word(routing.batches@[i].1.events@, key.key) == Some(false)),
        forall|i: int, key: Key|
            #![trigger last_word(routing.batches@[i].1.events@, key)]
            0 <= i < routing.batches@.len() ==> {
                let said = last_word(routing.batches@[i].1.events@, key);
                &&& said != Some(true)
                &&& said == Some(false) ==> is_held(
                    before.held,
                    (before.current, routing.batches@[i].0),
                    key,
                ) || before.propagate && routing.batches@[i].0 == device && (event matches
                    Event::Key(last) && last.key == key)
            },
        forall|i: int|
            0 <= i < routing.batches@.len() ==> (#[trigger] routing.batches@[i]).1.events@.len() > 0
                && routing.batches@[i].1.events@.last() == Event::Sync(SyncEvent::All),
        forall|i: int, j: int|
            0 <= i < j < routing.batches@.len() ==> (#[trigger] routing.batches@[i]).0 != (
            #[trigger] routing.batches@[j]).0,
        forall|i: int|
            0 <= i < routing.batches@.len() ==> (#[trigger] routing.batches@[i]).1.turn
                == if before.current != 0 {
                Turn::Free
            } else if i == 0 {
                Turn::First
            } else {
                Turn::AfterFirst
            },
        forall|at: (usize, usize)| #[trigger]
            after.held.contains_key(at) <==> before.held.contains_key(at) && at.0 != before.current,
        forall|at: (usize, usize)| #[trigger]
            after.held.contains_key(at) ==> after.held[at] == before.held[at],
{
    let contents = batch_contents(routing.batches@);
    assert(contents.len() == routing.batches@.len());
    assert forall|i: int| 0 <= i < contents.len() implies (#[trigger] contents[i]) == (
        routing.batches@[i].0,
        routing.batches@[i].1.events@,
    ) by {}
    let leading = passed_on(event, true, before.propagate);
    let at = (before.current, device);
    let staged = recorded_all(before.held, at, leading);
    assert(event is Key);
    let last = event->Key_0;
    completing_keys_go_down(before, event, after);
    switches_leave_no_device_out(before.held, before.current, device, leading, contents);
    if before.propagate {
        assert(leading.drop_last() =~= seq![event]);
        assert(leading.drop_last().drop_last() =~= Seq::<Event>::empty());
    }
    assert forall|key: Key| #[trigger] last_word(leading, key) == if before.propagate && key
        == last.key {
        Some(true)
    } else {
        None
    } by {
        reveal_with_fuel(last_word, 3);
        if before.propagate {
            assert(leading.last() == Event::Sync(SyncEvent::All));
            assert(leading.drop_last().last() == event);
        }
    }
    assert forall|key: Key| #[trigger] is_held(staged, at, key) <==> is_held(before.held, at, key)
        || before.propagate && key == last.key by {
        arrived_keys_decide_what_is_held(before.held, at, leading, at, key);
        assert(last_word(leading, key) == if before.propagate && key == last.key {
            Some(true)
        } else {
            None
        });
    }
    // What each batch last says of a key.
    assert forall|i: int, key: Key|
        #![trigger last_word(routing.batches@[i].1.events@, key)]
        0 <= i < routing.batches@.len() implies last_word(routing.batches@[i].1.events@, key)
        == if is_held(before.held, (before.current, routing.batches@[i].0), key)
        || before.propagate && routing.batches@[i].0 == device && key == last.key {
        Some(false)
    } else {
        None
    } by {
        let (sender, events) = contents[i];
        if sender == device {
            assert(i == 0) by {
                if staged.contains_key(at) || leading.len() > 0 {
                    assert(contents[0].0 == device);
                    if i > 0 {
                        assert(contents[0].0 != contents[i].0);
                    }
                }
            }
            if staged.contains_key(at) {
                let rest = events.skip(leading.len() as int);
                assert(events =~= leading + rest);
                lemma_last_word_behind(leading, rest, staged[at], key);
                assert(is_held(staged, at, key) == staged[at].contains(key));
                assert(last_word(leading, key) is Some ==> is_held(staged, at, key));
            } else {
                assert(!is_held(staged, at, key));
                assert(events == leading);
            }
        } else {
            let there = (before.current, sender);
            assert(before.held.contains_key(there));
            let j = choose|j: int|
                0 <= j < contents.len() && (#[trigger] contents[j]).0 == sender && lets_up(
                    contents[j].1,
                    before.held[there],
                );
            if i < j {
                assert(contents[i].0 != contents[j].0);
            } else if j < i {
                assert(contents[j].0 != contents[i].0);
            }
            let none = Seq::<Event>::empty();
            assert(none + events =~= events);
            lemma_last_word_behind(none, events, before.held[there], key);
        }
    }
    assert forall|other: usize, key: Key| #[trigger]
        is_held(before.held, (before.current, other), key) implies exists|i: int|
            0 <= i < routing.batches@.len() && (#[trigger] routing.batches@[i]).0 == other
                && last_word(routing.batches@[i].1.events@, key) == Some(false) by {
        if other == device {
            assert(is_held(staged, at, key));
            assert(contents[0].0 == device);
            assert(routing.batches@[0].0 == other);
            assert(last_word(routing.batches@[0].1.events@, key) == Some(false));
        } else {
            let there = (before.current, other);
            let j = choose|j: int|
                0 <= j < contents.len() && (#[trigger] contents[j]).0 == other && lets_up(
                    contents[j].1,
                    before.held[there],
                );
            assert(routing.batches@[j].0 == other);
            assert(last_word(routing.batches@[j].1.events@, key) == Some(false));
        }
    }
    if before.propagate {
        assert(is_held(staged, at, last.key));
        assert(contents[0].0 == device);
        assert(routing.batches@[0].0 == device);
        assert(last_word(routing.batches@[0].1.events@, last.key) == Some(false));
    }
    assert forall|i: int| 0 <= i < routing.batches@.len() implies (
    #[trigger] routing.batches@[i]).1.events@.len() > 0 && routing.batches@[i].1.events@.last()
        == Event::Sync(SyncEvent::All) by {
        let (sender, events) = contents[i];
        if sender == device {
            assert(i == 0) by {
                if staged.contains_key(at) || leading.len() > 0 {
                    assert(contents[0].0 == device);
                    if i > 0 {
                        assert(contents[0].0 != contents[i].0);
                    }
                }
            }
            if staged.contains_key(at) {
                let rest = events.skip(leading.len() as int);
                assert(events =~= leading + rest);
                assert(events.last() == rest.last());
            }
        } else {
            let there = (before.current, sender);
            let j = choose|j: int|
                0 <= j < contents.len() && (#[trigger] contents[j]).0 == sender && lets_up(
                    contents[j].1,
                    before.held[there],
                );
            if i < j {
                assert(contents[i].0 != contents[j].0);
            } else if j < i {
                assert(contents[j].0 != contents[i].0);
            }
        }
    }
    assert forall|i: int, j: int| 0 <= i < j < routing.batches@.len() implies (
    #[trigger] routing.batches@[i]).0 != (#[trigger] routing.batches@[j]).0 by {
        assert(contents[i].0 != contents[j].0);
    }
    assert forall|there: (usize, usize)| #[trigger] after.held.contains_key(there)
        <==> before.held.contains_key(there) && there.0 != before.current by {
        only_what_is_left_is_forgotten(before.held, before.current, there);
    }
    assert forall|there: (usize, usize)| #[trigger]
        after.held.contains_key(there) implies after.held[there] == before.held[there] by {
        only_what_is_left_is_forgotten(before.held, before.current, there);
    }
}

/// Only a key that goes down completes the shortcut.
proof fn completing_keys_go_down(before: ServerView, event: Event, after: ServerView)
    requires
        server_wf(before),
        before.switch_keys.finite(),
        switches(before, event, after),
    ensures
        event matches Event::Key(key) && key.down,
{
    if let Event::Key(key) = event {
        completed_when_all_are_down(key, before.switch_keys, before.pressed);
        let pressed = chord_of(before, event).0;
        assert(pressed == before.switch_keys);
        assert(pressed.contains(key.key));
    }
}

/// What has arrived at a machine decides what is held there: a key or button that
/// was last taken down is held by the device that took it down, one that was last
/// let up is not, and everything else stays as it was. What did not arrive changes
/// nothing, but a client that cannot be reached is forgotten with all that is held
/// there.
pub proof fn arrivals_decide_what_is_held(
    server: ServerView,
    destination: usize,
    device: usize,
    events: Seq<Event>,
    queued: Queued,
    reached: bool,
    key: Key,
    elsewhere: (usize, usize),
)
    requires
        server_wf(server),
    ensures
        server.devices.contains_key(device) && queued == Queued::Taken ==> {
            let after = forwarded_here(server, device, events, queued);
            &&& is_held(after.held, (0, device), key) == match last_word(events, key) {
                Some(down) => down,
                None => is_held(server.held, (0, device), key),
            }
            &&& elsewhere != (0usize, device) ==> is_held(after.held, elsewhere, key) == is_held(
                server.held,
                elsewhere,
                key,
            )
            &&& after == ServerView { held: after.held, ..server }
        },
        !server.devices.contains_key(device) || queued != Queued::Taken ==> forwarded_here(
            server,
            device,
            events,
            queued,
        ) == server,
        queueing_outcome(server, device, queued) == Err::<(), Error>(Error::Overflow)
            <==> server.devices.contains_key(device) && queued == Queued::Full,
        queueing_outcome(server, device, queued) is Err ==> queueing_outcome(server, device, queued)
            == Err::<(), Error>(Error::Overflow),
        destination > 0 && server.clients.contains_key((destination - 1) as usize) && reached ==> {
            let after = forwarded_there(server, destination, device, events, reached);
            &&& is_held(after.held, (destination, device), key) == match last_word(events, key) {
                Some(down) => down,
                None => is_held(server.held, (destination, device), key),
            }
            &&& elsewhere != (destination, device) ==> is_held(after.held, elsewhere, key)
                == is_held(server.held, elsewhere, key)
            &&& after == ServerView { held: after.held, ..server }
        },
        destination > 0 && server.clients.contains_key((destination - 1) as usize) && !reached ==> {
            let after = forwarded_there(server, destination, device, events, reached);
            &&& !after.clients.contains_key((destination - 1) as usize)
            &&& after.current != destination
            &&& server.current != destination ==> after.current == server.current
            &&& server.current == destination ==> after.current == 0
            &&& is_held(after.held, elsewhere, key) <==> is_held(server.held, elsewhere, key)
                && elsewhere.0 != destination
        },
        destination > 0 && !server.clients.contains_key((destination - 1) as usize)
            ==> forwarded_there(server, destination, device, events, reached) == server,
{
    arrived_keys_decide_what_is_held(server.held, (0, device), events, elsewhere, key);
    arrived_keys_decide_what_is_held(server.held, (destination, device), events, elsewhere, key);
    only_what_is_left_is_forgotten(server.held, destination, elsewhere);
}

/// Forgetting closed clients takes their slots and what is held there, leads back
/// to the own machine where one of them was current, and changes nothing else.
pub proof fn closed_clients_are_forgotten(
    server: ServerView,
    closed: Set<usize>,
    slot: usize,
    at: (usize, usize),
    key: Key,
)
    requires
        server_wf(server),
    ensures
        ({
            let after = pruned(server, closed);
            &&& after.clients.contains_key(slot) <==> server.clients.contains_key(slot)
                && !closed.contains(slot)
            &&& after.clients.contains_key(slot) ==> after.clients[slot] == server.clients[slot]
            &&& is_held(after.held, at, key) <==> is_held(server.held, at, key) && !(at.0 > 0
                && closed.contains((at.0 - 1) as usize))
            &&& after.current == if server.current > 0 && closed.contains(
                (server.current - 1) as usize,
            ) {
                0
            } else {
                server.current
            }
            &&& after.previous == server.previous
            &&& after.changed == server.changed
            &&& after.pressed == server.pressed
            &&& after.devices == server.devices
            &&& after.free_devices == server.free_devices
            &&& after.infos == server.infos
            &&& after.switch_keys == server.switch_keys
            &&& after.propagate == server.propagate
        }),
{
    if server.held.contains_key(at) && at.0 > 0 {
        assert(server.clients.contains_key((at.0 - 1) as usize));
    }
}

/// A new client or device gets a slot of its own and is found there, under the
/// handle with which it came; nobody else notices.
pub proof fn newcomers_are_found(
    server: ServerView,
    handle: u64,
    info: InfoView,
    destination: usize,
    device: usize,
)
    requires
        0 <= next_slot(server.clients, server.free_clients) < usize::MAX,
        !server.clients.contains_key(next_slot(server.clients, server.free_clients) as usize),
        0 <= next_slot(server.devices, server.free_devices) < usize::MAX,
        !server.devices.contains_key(next_slot(server.devices, server.free_devices) as usize),
    ensures
        ({
            let after = with_client(server, handle);
            let there = next_slot(server.clients, server.free_clients) + 1;
            &&& target_of(after, there as usize, device) == Target::Client(handle)
            &&& destination != there ==> target_of(after, destination, device) == target_of(
                server,
                destination,
                device,
            )
            &&& after == ServerView {
                clients: after.clients,
                free_clients: after.free_clients,
                ..server
            }
        }),
        ({
            let after = with_device(server, handle, info);
            let id = next_slot(server.devices, server.free_devices);
            &&& target_of(after, 0, id as usize) == Target::Device(handle)
            &&& after.infos.contains_key(id as usize) && after.infos[id as usize] == info
            &&& destination != 0 || device != id ==> target_of(after, destination, device)
                == target_of(server, destination, device)
            &&& device != id ==> (after.infos.contains_key(device) <==> server.infos.contains_key(
                device,
            ))
            &&& device != id && server.infos.contains_key(device) ==> after.infos[device]
                == server.infos[device]
            &&& after == ServerView {
                devices: after.devices,
                free_devices: after.free_devices,
                infos: after.infos,
                ..server
            }
        }),
{
}

/// A batch for the own machine goes to the device from which it came, one for a
/// client to that client whatever the device, and one for a machine or a device
/// that is not there to nobody.
pub proof fn batches_go_to_their_machine(server: ServerView, destination: usize, device: usize)
    ensures
        match target_of(server, destination, device) {
            Target::Device(handle) => destination == 0 && server.devices.contains_key(device)
                && server.devices[device] == handle,
            Target::Client(handle) => destination > 0 && server.clients.contains_key(
                (destination - 1) as usize,
            ) && server.clients[(destination - 1) as usize] == handle,
            Target::Nobody => if destination == 0 {
                !server.devices.contains_key(device)
            } else {
                !server.clients.contains_key((destination - 1) as usize)
            },
        },
{
}

/// A device that is gone is forgotten with all that it holds anywhere, and so is a
/// client; nothing else changes, but the own machine is current where a client was
/// that is gone.
pub proof fn the_gone_are_forgotten(
    server: ServerView,
    id: usize,
    destination: usize,
    at: (usize, usize),
    key: Key,
)
    requires
        destination > 0,
    ensures
        ({
            let after = device_removed(server, id);
            &&& !after.devices.contains_key(id)
            &&& !after.infos.contains_key(id)
            &&& after.devices == server.devices.remove(id)
            &&& after.infos == server.infos.remove(id)
            &&& is_held(after.held, at, key) <==> is_held(server.held, at, key) && at.1 != id
            &&& after == ServerView {
                devices: after.devices,
                free_devices: after.free_devices,
                infos: after.infos,
                held: after.held,
                ..server
            }
        }),
        ({
            let after = client_lost(server, destination);
            &&& after.clients == server.clients.remove((destination - 1) as usize)
            &&& is_held(after.held, at, key) <==> is_held(server.held, at, key) && at.0
                != destination
            &&& after.current == if server.current == destination {
                0
            } else {
                server.current
            }
            &&& after == ServerView {
                clients: after.clients,
                free_clients: after.free_clients,
                held: after.held,
                current: after.current,
                ..server
            }
        }),
{
    only_what_is_left_is_forgotten(server.held, id, at);
    only_what_is_left_is_forgotten(server.held, destination, at);
}

/// Whether some events arrive at a pair with a step.
pub open spec fn arrives(
    before: ServerView,
    step: Step,
    at: (usize, usize),
    said: Seq<Event>,
) -> bool {
    match step {
        Step::ForwardHere { device, events, queued } => at == (0usize, device) && events == said
            && before.devices.contains_key(device) && queued == Queued::Taken,
        Step::ForwardThere { destination, device, events, reached } => at == (destination, device)
            && destination > 0 && events == said && before.clients.contains_key(
            (destination - 1) as usize,
        ) && reached,
        _ => false,
    }
}

/// Whether a step can end that a key is held at a pair: something is said of the
/// key there, the machine is left, or the machine or the device is gone.
pub open spec fn disturbs(step: Step, at: (usize, usize), key: Key) -> bool {
    match step {
        Step::Accept { closed, .. } => at.0 > 0 && closed.contains((at.0 - 1) as usize),
        Step::AddDevice { .. } => false,
        Step::RemoveDevice { id } => id == at.1,
        Step::Route { closed, routing, .. } => {
            ||| at.0 > 0 && closed.contains((at.0 - 1) as usize)
            ||| routing.destination == at.0 && (routing.selected matches Some(next) && next != at.0)
        },
        Step::ForwardHere { device, events, .. } => at == (0usize, device) && last_word(events, key)
            is Some,
        Step::ForwardThere { destination, device, events, reached } => destination == at.0 && (
        !reached || device == at.1 && last_word(events, key) is Some),
    }
}

proof fn lemma_stays_held(
    before: ServerView,
    step: Step,
    after: ServerView,
    at: (usize, usize),
    key: Key,
)
    requires
        server_wf(before),
        server_wf(after),
        step_taken(before, step, after),
        !disturbs(step, at, key),
        is_held(before.held, at, key),
        step matches Step::ForwardThere { destination, .. } ==> destination > 0,
    ensures
        is_held(after.held, at, key),
{
    match step {
        Step::Accept { closed, .. } => {
            closed_clients_are_forgotten(before, closed, 0, at, key);
        },
        Step::AddDevice { .. } => {},
        Step::RemoveDevice { id } => {
            the_gone_are_forgotten(before, id, 1, at, key);
        },
        Step::Route { closed, device, event, routing } => {
            let current = pruned(before, closed);
            closed_clients_are_forgotten(before, closed, 0, at, key);
            if switches(current, event, after) {
                only_what_is_left_is_forgotten(current.held, current.current, at);
                assert(routing.selected == Some(after.current));
                assert(routing.destination == current.current);
            }
        },
        Step::ForwardHere { device, events, queued } => {
            arrivals_decide_what_is_held(before, 1, device, events, queued, true, key, at);
        },
        Step::ForwardThere { destination, device, events, reached } => {
            arrivals_decide_what_is_held(
                before,
                destination,
                device,
                events,
                Queued::Taken,
                reached,
                key,
                at,
            );
        },
    }
}

proof fn lemma_held_since(
    states: Seq<ServerView>,
    steps: Seq<Step>,
    at: (usize, usize),
    key: Key,
    said: Seq<Event>,
    pressed: int,
    now: int,
)
    requires
        is_run(states, steps),
        forall|i: int| 0 <= i < states.len() ==> server_wf(#[trigger] states[i]),
        forall|i: int|
            0 <= i < steps.len() ==> (#[trigger] steps[i] matches Step::ForwardThere {
                destination,
                ..
            } ==> destination > 0),
        0 <= pressed < now <= steps.len(),
        arrives(states[pressed], steps[pressed], at, said),
        last_word(said, key) == Some(true),
        forall|i: int| pressed < i < now ==> !disturbs(#[trigger] steps[i], at, key),
    ensures
        is_held(states[now].held, at, key),
    decreases now,
{
    let last = now - 1;
    assert(step_taken(states[last], steps[last], states[last + 1]));
    assert(server_wf(states[last]) && server_wf(states[last + 1]));
    assert(steps[last] matches Step::ForwardThere { destination, .. } ==> destination > 0);
    if last == pressed {
        match steps[last] {
            Step::ForwardHere { device, events, queued } => {
                arrivals_decide_what_is_held(
                    states[last],
                    1,
                    device,
                    events,
                    queued,
                    true,
                    key,
                    at,
                );
            },
            Step::ForwardThere { destination, device, events, reached } => {
                arrivals_decide_what_is_held(
                    states[last],
                    destination,
                    device,
                    events,
                    Queued::Taken,
                    reached,
                    key,
                    at,
                );
            },
            _ => {},
        }
    } else {
        lemma_held_since(states, steps, at, key, said, pressed, last);
        assert(!disturbs(steps[last], at, key));
        lemma_stays_held(states[last], steps[last], states[last + 1], at, key);
    }
}

/// Over any run of a server, a switch lets up every key and button whose press
/// arrived at the machine that is left and that was not let up there since: unless
/// the machine or the device is gone, the batches of the switch hold a release of
/// it for that device, and no press behind it.
pub proof fn presses_that_arrived_are_let_up(
    states: Seq<ServerView>,
    steps: Seq<Step>,
    at: (usize, usize),
    key: Key,
    said: Seq<Event>,
    pressed: int,
    left: int,
)
    requires
        is_run(states, steps),
        forall|i: int|
            0 <= i < states.len() ==> server_wf(#[trigger] states[i])
                && states[i].switch_keys.finite(),
        forall|i: int|
            0 <= i < steps.len() ==> (#[trigger] steps[i] matches Step::ForwardThere {
                destination,
                ..
            } ==> destination > 0),
        0 <= pressed < left < steps.len(),
        arrives(states[pressed], steps[pressed], at, said),
        last_word(said, key) == Some(true),
        forall|i: int| pressed < i < left ==> !disturbs(#[trigger] steps[i], at, key),
        steps[left] matches Step::Route { closed, routing, .. } && routing.destination == at.0 && (
        routing.selected matches Some(next) && next != at.0) && !(at.0 > 0 && closed.contains(
            (at.0 - 1) as usize,
        )),
    ensures
        steps[left] matches Step::Route { routing, .. } && exists|i: int|
            0 <= i < routing.batches@.len() && (#[trigger] routing.batches@[i]).0 == at.1
                && last_word(routing.batches@[i].1.events@, key) == Some(false),
{
    lemma_held_since(states, steps, at, key, said, pressed, left);
    assert(step_taken(states[left], steps[left], states[left + 1]));
    if let Step::Route { closed, device, event, routing } = steps[left] {
        let before = states[left];
        let current = pruned(before, closed);
        let after = states[left + 1];
        assert(server_wf(before) && server_wf(after));
        crate::server::pruning_keeps_the_server_in_order(before, closed);
        closed_clients_are_forgotten(before, closed, 0, at, key);
        events_go_where_they_belong(current, device, event, after, routing);
        assert(action_of(current, event) == SwitchAction::Activate);
        assert(!current.changed);
        assert(after.current != current.current);
        switches_let_up_what_is_held(current, device, event, after, routing);
        assert(is_held(current.held, (current.current, at.1), key));
    }
}

/// The keys that were typed in some steps, on any device.
pub open spec fn typed(steps: Seq<Step>) -> Seq<KeyEvent>
    decreases steps.len(),
{
    if steps.len() == 0 {
        Seq::empty()
    } else {
        match steps.last() {
            Step::Route { event: Event::Key(key), .. } => typed(steps.drop_last()).push(key),
            _ => typed(steps.drop_last()),
        }
    }
}

proof fn lemma_chord_of_run(
    states: Seq<ServerView>,
    steps: Seq<Step>,
    switch_keys: Set<Key>,
    propagate: bool,
    count: int,
)
    requires
        is_run(states, steps),
        states[0] == idle_server(switch_keys, propagate),
        0 <= count <= steps.len(),
    ensures
        (states[count].pressed, states[count].changed) == chord_after_all(
            typed(steps.take(count)),
            switch_keys,
            Set::empty(),
            false,
        ),
        states[count].switch_keys == switch_keys,
        states[count].propagate == propagate,
    decreases count,
{
    if count > 0 {
        let last = count - 1;
        lemma_chord_of_run(states, steps, switch_keys, propagate, last);
        assert(steps.take(count).drop_last() =~= steps.take(last));
        assert(step_taken(states[last], steps[last], states[last + 1]));
        if let Step::Route { event: Event::Key(key), .. } = steps[last] {
            let before = typed(steps.take(last));
            assert(before.push(key).drop_last() =~= before);
        }
    }
}

/// Over any run of a server, where an event goes follows from what was typed: it
/// goes to the machine that is current, unless it is a key of the shortcut and all
/// keys of that have been down at once since they were last all up. Then it goes
/// to the machine that was current when the shortcut was completed.
pub proof fn events_follow_what_was_typed(
    states: Seq<ServerView>,
    steps: Seq<Step>,
    switch_keys: Set<Key>,
    propagate: bool,
    now: int,
)
    requires
        is_run(states, steps),
        states[0] == idle_server(switch_keys, propagate),
        switch_keys.finite(),
        switch_keys != Set::<Key>::empty(),
        0 <= now < steps.len(),
        steps[now] is Route,
    ensures
        steps[now] matches Step::Route { closed, event, routing, .. } && routing.destination == if (
        event matches Event::Key(key) && switch_keys.contains(key.key)) && completed_by(
            typed(steps.take(now)),
            switch_keys,
        ) {
            states[now].previous
        } else {
            pruned(states[now], closed).current
        },
        forall|key: Key| #[trigger]
            states[now].pressed.contains(key) <==> switch_keys.contains(key) && is_down_after(
                typed(steps.take(now)),
                key,
            ),
{
    lemma_chord_of_run(states, steps, switch_keys, propagate, now);
    chords_follow_the_keys(typed(steps.take(now)), switch_keys);
    let (pressed, _) = chord_after_all(typed(steps.take(now)), switch_keys, Set::empty(), false);
    assert forall|key: Key| #[trigger] states[now].pressed.contains(key)
        <==> switch_keys.contains(key) && is_down_after(typed(steps.take(now)), key) by {
        assert(pressed.contains(key) <==> switch_keys.contains(key) && is_down_after(
            typed(steps.take(now)),
            key,
        ));
    }
    assert(step_taken(states[now], steps[now], states[now + 1]));
    if let Step::Route { closed, device, event, routing } = steps[now] {
        events_go_where_they_belong(
            pruned(states[now], closed),
            device,
            event,
            states[now + 1],
            routing,
        );
    }
}

proof fn lemma_previous_stays(
    states: Seq<ServerView>,
    steps: Seq<Step>,
    completed: int,
    now: int,
)
    requires
        is_run(states, steps),
        0 <= completed < now <= steps.len(),
        steps[completed] matches Step::Route { routing, .. } && routing.selected is Some,
        forall|i: int| completed < i < now ==> (#[trigger] states[i]).changed,
    ensures
        steps[completed] matches Step::Route { routing, .. } && states[now].previous
            == routing.destination,
    decreases now,
{
    let last = now - 1;
    assert(step_taken(states[last], steps[last], states[last + 1]));
    if last == completed {
        if let Step::Route { closed, device, event, routing } = steps[last] {
            events_go_where_they_belong(
                pruned(states[last], closed),
                device,
                event,
                states[last + 1],
                routing,
            );
        }
    } else {
        lemma_previous_stays(states, steps, completed, last);
        assert(states[last].changed);
    }
}

/// The keys of a completed shortcut all go to the machine where it was completed,
/// until all of them are up again.
pub proof fn shortcuts_end_where_they_began(
    states: Seq<ServerView>,
    steps: Seq<Step>,
    completed: int,
    now: int,
)
    requires
        is_run(states, steps),
        0 <= completed < now < steps.len(),
        steps[completed] matches Step::Route { routing, .. } && routing.selected is Some,
        forall|i: int| completed < i <= now ==> (#[trigger] states[i]).changed,
        steps[now] matches Step::Route { event, .. } && (event matches Event::Key(key)
            && states[now].switch_keys.contains(key.key)),
    ensures
        match (steps[completed], steps[now]) {
            (
                Step::Route { routing: first, .. },
                Step::Route { routing: later, .. },
            ) => later.destination == first.destination && later.selected is None,
            _ => false,
        },
{
    lemma_previous_stays(states, steps, completed, now);
    assert(step_taken(states[now], steps[now], states[now + 1]));
    assert(states[now].changed);
    if let Step::Route { closed, device, event, routing } = steps[now] {
        events_go_where_they_belong(
            pruned(states[now], closed),
            device,
            event,
            states[now + 1],
            routing,
        );
    }
}

/// A client whose connection is closed is forgotten before an event is routed: it is
/// neither selected nor current from then on.
pub proof fn closed_clients_are_never_selected(
    before: ServerView,
    closed: Set<usize>,
    device: usize,
    event: Event,
    after: ServerView,
    routing: Routing,
    slot: usize,
)
    requires
        event_routed(before, closed, device, event, after, routing),
        closed.contains(slot),
        slot < usize::MAX,
    ensures
        !after.clients.contains_key(slot),
        after.current != slot + 1,
        routing.selected matches Some(next) ==> next != slot + 1,
{
    let current = pruned(before, closed);
    assert(!current.clients.contains_key(slot));
    if routing.selected is Some {
        crate::destinations::the_next_destination_is_live(
            current.clients,
            current.current,
            after.current,
        );
    }
}

/// A server that has just been started sends to its own machine, and nobody and
/// nothing is there or held.
pub proof fn fresh_servers_know_nobody(switch_keys: Set<Key>, propagate: bool, any: usize)
    ensures
        ({
            let server = idle_server(switch_keys, propagate);
            &&& server.current == 0
            &&& server.previous == 0
            &&& !server.clients.contains_key(any)
            &&& !server.devices.contains_key(any)
            &&& !server.infos.contains_key(any)
            &&& forall|at: (usize, usize)| !#[trigger] server.held.contains_key(at)
            &&& forall|key: Key| !#[trigger] server.pressed.contains(key)
            &&& !server.changed
            &&& server.switch_keys == switch_keys
            &&& server.propagate == propagate
            &&& server_wf(server)
        }),
{
    let server = idle_server(switch_keys, propagate);
    assert(server.infos.dom() =~= server.devices.dom());
}

} // verus!
