//! Where the keys of the shortcut are not passed on, nobody ever sees them.
use vstd::prelude::*;

use crate::chord::SwitchAction;
use crate::event::{Event, Key, KeyEvent};
use crate::held_inputs::{
    devices_at, keys_after, keys_at, recorded, recorded_all, release_events, switch_events,
    BatchView, HeldView,
};
use crate::server::{
    action_of, batch_contents, client_lost, device_removed, event_routed, forwarded_here,
    forwarded_there, idle_server, passed_on, pruned, routed, switches, with_client, with_device,
    Queued, Routing, ServerView,
};
use crate::update::InfoView;

verus! {

/// No event is about one of some keys.
pub open spec fn leaves_out(events: Seq<Event>, keys: Set<Key>) -> bool {
    forall|i: int|
        0 <= i < events.len() ==> match #[trigger] events[i] {
            Event::Key(event) => !keys.contains(event.key),
            _ => true,
        }
}

/// None of some keys is held anywhere.
pub open spec fn none_held(held: HeldView, keys: Set<Key>) -> bool {
    forall|at: (usize, usize), i: int|
        held.contains_key(at) && 0 <= i < held[at].len() ==> !keys.contains(#[trigger] held[at][i])
}

/// The server passes the keys of the shortcut on, or none of them is held
/// anywhere.
pub open spec fn hides_switch_keys(server: ServerView) -> bool {
    !server.propagate ==> none_held(server.held, server.switch_keys)
}

proof fn lemma_keys_after(keys: Seq<Key>, event: KeyEvent, out: Set<Key>)
    requires
        forall|i: int| 0 <= i < keys.len() ==> !out.contains(#[trigger] keys[i]),
        !out.contains(event.key),
    ensures
        forall|i: int|
            0 <= i < keys_after(keys, event).len() ==> !out.contains(
                #[trigger] keys_after(keys, event)[i],
            ),
{
    keys.index_of_first_ensures(event.key);
    let after = keys_after(keys, event);
    assert forall|i: int| 0 <= i < after.len() implies !out.contains(#[trigger] after[i]) by {
        if event.down {
            if i < keys.len() {
                assert(after[i] == keys[i]);
            }
        } else if let Some(gone) = keys.index_of_first(event.key) {
            assert(after[i] == keys[if i < gone {
                i
            } else {
                i + 1
            }]);
        }
    }
}

proof fn lemma_recording(held: HeldView, at: (usize, usize), events: Seq<Event>, out: Set<Key>)
    requires
        none_held(held, out),
        leaves_out(events, out),
    ensures
        none_held(recorded_all(held, at, events), out),
    decreases events.len(),
{
    if events.len() > 0 {
        let earlier = events.drop_last();
        assert forall|i: int| 0 <= i < earlier.len() implies match #[trigger] earlier[i] {
            Event::Key(event) => !out.contains(event.key),
            _ => true,
        } by {
            assert(earlier[i] == events[i]);
        }
        lemma_recording(held, at, earlier, out);
        let before = recorded_all(held, at, earlier);
        assert(events[events.len() - 1] == events.last());
        if let Event::Key(event) = events.last() {
            let keys = keys_at(before, at);
            assert forall|i: int| 0 <= i < keys.len() implies !out.contains(
                #[trigger] keys[i],
            ) by {
                assert(before[at][i] == keys[i]);
            }
            lemma_keys_after(keys, event, out);
            let after = recorded(before, at, event);
            assert forall|other: (usize, usize), i: int|
                after.contains_key(other) && 0 <= i < after[other].len() implies !out.contains(
                #[trigger] after[other][i],
            ) by {
                if other == at {
                    assert(after[other][i] == keys_after(keys, event)[i]);
                } else {
                    assert(after[other][i] == before[other][i]);
                }
            }
        }
    }
}

/// Where the keys of the shortcut are not passed on and none of them is held, no
/// event that is routed puts one into a batch: neither as it was typed nor among
/// the releases of a switch. And none of them is held after that.
pub proof fn suppressed_keys_are_not_passed_on(
    before: ServerView,
    device: usize,
    event: Event,
    after: ServerView,
    routing: Routing,
)
    requires
        routed(before, device, event, after, routing),
        hides_switch_keys(before),
        !before.propagate,
    ensures
        forall|i: int|
            0 <= i < routing.batches@.len() ==> leaves_out(
                (#[trigger] routing.batches@[i]).1.events@,
                before.switch_keys,
            ),
        hides_switch_keys(after),
{
    let out = before.switch_keys;
    let contents = batch_contents(routing.batches@);
    assert forall|i: int| 0 <= i < routing.batches@.len() implies leaves_out(
        (#[trigger] routing.batches@[i]).1.events@,
        out,
    ) by {
        let events = routing.batches@[i].1.events@;
        assert(contents[i] == (routing.batches@[i].0, events));
        if switches(before, event, after) {
            let leading = Seq::<Event>::empty();
            let at = (before.current, device);
            assert(recorded_all(before.held, at, leading) == before.held);
            let devices = devices_at(before.held, before.current);
            let first = switch_events(leading, devices, device);
            if first.len() > 0 && i > 0 {
                assert(contents.skip(1)[i - 1] == contents[i]);
            }
            let sender = contents[i].0;
            assert(devices.contains_key(sender));
            let keys = devices[sender];
            assert(events =~= release_events(keys));
            assert forall|j: int| 0 <= j < events.len() implies match #[trigger] events[j] {
                Event::Key(event) => !out.contains(event.key),
                _ => true,
            } by {
                if j < keys.len() {
                    let held = before.held[(before.current, sender)];
                    assert(held[keys.len() - 1 - j] == keys[keys.len() - 1 - j]);
                    assert(!out.contains(
                        before.held[(before.current, sender)][keys.len() - 1 - j],
                    ));
                }
            }
        } else {
            let press = action_of(before, event) != SwitchAction::Unrelated;
            let passed = passed_on(event, press, before.propagate);
            assert(contents == if passed.len() == 0 {
                Seq::<BatchView>::empty()
            } else {
                seq![(device, passed)]
            });
            assert(contents.len() == routing.batches@.len());
            assert(events == seq![event]);
        }
    }
    assert forall|at: (usize, usize), i: int|
        after.held.contains_key(at) && 0 <= i < after.held[at].len() implies !out.contains(
        #[trigger] after.held[at][i],
    ) by {
        assert(after.held[at][i] == before.held[at][i]);
    }
}

/// Something that happens to a server.
pub enum Step {
    Accept { closed: Set<usize>, handle: u64 },
    AddDevice { handle: u64, info: InfoView },
    RemoveDevice { id: usize },
    Route { closed: Set<usize>, device: usize, event: Event, routing: Routing },
    ForwardHere { device: usize, events: Seq<Event>, queued: Queued },
    ForwardThere { destination: usize, device: usize, events: Seq<Event>, reached: bool },
}

/// What a step does, as the contracts of the server say.
pub open spec fn step_taken(before: ServerView, step: Step, after: ServerView) -> bool {
    match step {
        Step::Accept { closed, handle } => after == with_client(pruned(before, closed), handle),
        Step::AddDevice { handle, info } => after == with_device(before, handle, info),
        Step::RemoveDevice { id } => after == device_removed(before, id),
        Step::Route { closed, device, event, routing } => event_routed(
            before,
            closed,
            device,
            event,
            after,
            routing,
        ),
        Step::ForwardHere { device, events, queued } => after == forwarded_here(
            before,
            device,
            events,
            queued,
        ),
        Step::ForwardThere { destination, device, events, reached } => after == forwarded_there(
            before,
            destination,
            device,
            events,
            reached,
        ),
    }
}

/// Some events are those of a batch that a step routed.
pub open spec fn was_routed(step: Step, events: Seq<Event>) -> bool {
    step matches Step::Route { routing, .. } && exists|i: int|
        0 <= i < routing.batches@.len() && (#[trigger] routing.batches@[i]).1.events@ == events
}

/// The events that a step forwards, if it forwards any, were routed before.
pub open spec fn forwards_what_was_routed(steps: Seq<Step>, i: int) -> bool {
    match steps[i] {
        Step::ForwardHere { events, .. } => exists|j: int|
            0 <= j < i && #[trigger] was_routed(steps[j], events),
        Step::ForwardThere { events, .. } => exists|j: int|
            0 <= j < i && #[trigger] was_routed(steps[j], events),
        _ => true,
    }
}

/// A run of a server: its states, the steps between them, and that nothing is
/// forwarded but what was routed.
pub open spec fn is_run(states: Seq<ServerView>, steps: Seq<Step>) -> bool {
    &&& states.len() == steps.len() + 1
    &&& forall|i: int|
        0 <= i < steps.len() ==> #[trigger] step_taken(states[i], steps[i], states[i + 1])
    &&& forall|i: int| 0 <= i < steps.len() ==> #[trigger] forwards_what_was_routed(steps, i)
}

/// No batch that a step routes is about one of some keys.
pub open spec fn routes_around(step: Step, keys: Set<Key>) -> bool {
    step matches Step::Route { routing, .. } ==> forall|i: int|
        0 <= i < routing.batches@.len() ==> leaves_out(
            (#[trigger] routing.batches@[i]).1.events@,
            keys,
        )
}

proof fn lemma_fewer_held(before: HeldView, after: HeldView, keys: Set<Key>)
    requires
        none_held(before, keys),
        forall|at: (usize, usize)| #[trigger]
            after.contains_key(at) ==> before.contains_key(at) && after[at] == before[at],
    ensures
        none_held(after, keys),
{
    assert forall|at: (usize, usize), i: int|
        after.contains_key(at) && 0 <= i < after[at].len() implies !keys.contains(
        #[trigger] after[at][i],
    ) by {
        assert(after[at][i] == before[at][i]);
    }
}

/// A server that does not pass the keys of the shortcut on never does: over any
/// run from its start none of them is in any batch, neither as it was typed nor
/// among the releases that a switch sends, and none is ever held anywhere.
pub proof fn suppressed_keys_stay_hidden(
    states: Seq<ServerView>,
    steps: Seq<Step>,
    switch_keys: Set<Key>,
    count: int,
)
    requires
        is_run(states, steps),
        states[0] == idle_server(switch_keys, false),
        0 <= count <= steps.len(),
    ensures
        none_held(states[count].held, switch_keys),
        states[count].switch_keys == switch_keys,
        !states[count].propagate,
        forall|i: int| 0 <= i < count ==> #[trigger] routes_around(steps[i], switch_keys),
    decreases count,
{
    if count > 0 {
        let last = count - 1;
        suppressed_keys_stay_hidden(states, steps, switch_keys, last);
        let before = states[last];
        let after = states[last + 1];
        let step = steps[last];
        assert(step_taken(before, step, after));
        assert(forwards_what_was_routed(steps, last));
        match step {
            Step::Accept { closed, handle } => {
                lemma_fewer_held(before.held, after.held, switch_keys);
            },
            Step::AddDevice { .. } => {},
            Step::RemoveDevice { id } => {
                lemma_fewer_held(before.held, after.held, switch_keys);
            },
            Step::Route { closed, device, event, routing } => {
                let current = pruned(before, closed);
                lemma_fewer_held(before.held, current.held, switch_keys);
                suppressed_keys_are_not_passed_on(current, device, event, after, routing);
            },
            Step::ForwardHere { device, events, queued } => {
                lemma_routed_events(steps, switch_keys, last, events);
                lemma_recording(before.held, (0, device), events, switch_keys);
            },
            Step::ForwardThere { destination, device, events, reached } => {
                lemma_routed_events(steps, switch_keys, last, events);
                lemma_recording(before.held, (destination, device), events, switch_keys);
                if !reached {
                    let lost = client_lost(before, destination);
                    lemma_fewer_held(before.held, lost.held, switch_keys);
                }
            },
        }
    }
}

proof fn lemma_routed_events(
    steps: Seq<Step>,
    switch_keys: Set<Key>,
    count: int,
    events: Seq<Event>,
)
    requires
        exists|j: int| 0 <= j < count && #[trigger] was_routed(steps[j], events),
        forall|i: int| 0 <= i < count ==> #[trigger] routes_around(steps[i], switch_keys),
    ensures
        leaves_out(events, switch_keys),
{
    let j = choose|j: int| 0 <= j < count && #[trigger] was_routed(steps[j], events);
    assert(routes_around(steps[j], switch_keys));
    let routing = steps[j]->routing;
    let i = choose|i: int|
        0 <= i < routing.batches@.len() && (#[trigger] routing.batches@[i]).1.events@ == events;
    assert(leaves_out(routing.batches@[i].1.events@, switch_keys));
}

} // verus!
