//! Keys actually forwarded to each destination, not physical key state.
use vstd::prelude::*;

use crate::event::{Event, Key, KeyEvent, SyncEvent};

verus! {

/// The keys held at each pair of a destination and a device, in the order in
/// which they went down. A pair at which nothing is held is not in the map.
pub type HeldView = Map<(usize, usize), Seq<Key>>;

/// A device and the events that go to it.
pub type BatchView = (usize, Seq<Event>);

/// The held keys of one device after a key has gone down or up.
pub open spec fn keys_after(keys: Seq<Key>, event: KeyEvent) -> Seq<Key> {
    if !event.down {
        keys.remove_value(event.key)
    } else if keys.contains(event.key) {
        keys
    } else {
        keys.push(event.key)
    }
}

/// The keys held at a pair.
pub open spec fn keys_at(held: HeldView, at: (usize, usize)) -> Seq<Key> {
    if held.contains_key(at) {
        held[at]
    } else {
        Seq::empty()
    }
}

/// The map with other keys at one pair.
pub open spec fn with_keys(held: HeldView, at: (usize, usize), keys: Seq<Key>) -> HeldView {
    if keys.len() == 0 {
        held.remove(at)
    } else {
        held.insert(at, keys)
    }
}

/// What is held once a key has gone down or up at a pair.
pub open spec fn recorded(held: HeldView, at: (usize, usize), event: KeyEvent) -> HeldView {
    with_keys(held, at, keys_after(keys_at(held, at), event))
}

/// What is held once some events have arrived at a pair.
pub open spec fn recorded_all(held: HeldView, at: (usize, usize), events: Seq<Event>) -> HeldView
    decreases events.len(),
{
    if events.len() == 0 {
        held
    } else {
        let before = recorded_all(held, at, events.drop_last());
        match events.last() {
            Event::Key(event) => recorded(before, at, event),
            _ => before,
        }
    }
}

/// What is held elsewhere than at a destination.
pub open spec fn without_destination(held: HeldView, destination: usize) -> HeldView {
    Map::new(
        |at: (usize, usize)| held.contains_key(at) && at.0 != destination,
        |at: (usize, usize)| held[at],
    )
}

/// What is held on other devices than one.
pub open spec fn without_device(held: HeldView, device: usize) -> HeldView {
    Map::new(
        |at: (usize, usize)| held.contains_key(at) && at.1 != device,
        |at: (usize, usize)| held[at],
    )
}

/// What is held at a destination, by device.
pub open spec fn devices_at(held: HeldView, destination: usize) -> Map<usize, Seq<Key>> {
    Map::new(
        |device: usize| held.contains_key((destination, device)),
        |device: usize| held[(destination, device)],
    )
}

/// The events that let up some keys, last pressed first, and end the group.
pub open spec fn release_events(keys: Seq<Key>) -> Seq<Event> {
    Seq::new(
        keys.len(),
        |i: int| Event::Key(KeyEvent { key: keys[keys.len() - 1 - i], down: false }),
    ).push(Event::Sync(SyncEvent::All))
}

/// Each device gets exactly one batch, which lets up all that it holds. The
/// order of the devices is open.
pub open spec fn release_batches(batches: Seq<BatchView>, devices: Map<usize, Seq<Key>>) -> bool {
    &&& forall|i: int, j: int|
        0 <= i < j < batches.len() ==> (#[trigger] batches[i]).0 != (#[trigger] batches[j]).0
    &&& forall|i: int|
        0 <= i < batches.len() ==> devices.contains_key((#[trigger] batches[i]).0) && batches[i].1
            == release_events(devices[batches[i].0])
    &&& forall|device: usize| #[trigger]
        devices.contains_key(device) ==> exists|i: int|
            0 <= i < batches.len() && (#[trigger] batches[i]).0 == device
}

/// The events that end a switch on the device that completed the shortcut: its
/// leading events and then, where it holds anything, its releases.
pub open spec fn switch_events(
    leading: Seq<Event>,
    devices: Map<usize, Seq<Key>>,
    device: usize,
) -> Seq<Event> {
    if devices.contains_key(device) {
        leading + release_events(devices[device])
    } else {
        leading
    }
}

/// The batches that end a switch: the device that completed the shortcut comes
/// first, if there is anything to tell it, and then every other device that
/// holds anything. `devices` is what is held once the leading events have
/// arrived.
pub open spec fn switch_batches(
    batches: Seq<BatchView>,
    leading: Seq<Event>,
    devices: Map<usize, Seq<Key>>,
    device: usize,
) -> bool {
    let first = switch_events(leading, devices, device);
    if first.len() == 0 {
        release_batches(batches, devices.remove(device))
    } else {
        &&& batches.len() > 0
        &&& batches[0] == (device, first)
        &&& release_batches(batches.skip(1), devices.remove(device))
    }
}

/// The keys that one device holds at one destination.
#[derive(Debug)]
struct Slot {
    destination: usize,
    device: usize,
    keys: Vec<Key>,
}

/// The keys that were forwarded to each destination and not yet let up there.
#[derive(Debug)]
pub struct HeldInputs {
    slots: Vec<Slot>,
}

/// The batches as sequences of events.
pub open spec fn batch_views(batches: Seq<(usize, Vec<Event>)>) -> Seq<BatchView> {
    batches.map_values(|batch: (usize, Vec<Event>)| (batch.0, batch.1@))
}

spec fn is_at(slots: Seq<Slot>, i: int, at: (usize, usize)) -> bool {
    0 <= i < slots.len() && slots[i].destination == at.0 && slots[i].device == at.1
}

spec fn lists_pair(slots: Seq<Slot>, at: (usize, usize)) -> bool {
    exists|i: int| #[trigger] is_at(slots, i, at)
}

spec fn slots_view(slots: Seq<Slot>) -> HeldView {
    Map::new(
        |at: (usize, usize)| lists_pair(slots, at),
        |at: (usize, usize)| slots[choose|i: int| is_at(slots, i, at)].keys@,
    )
}

spec fn slots_wf(slots: Seq<Slot>) -> bool {
    &&& forall|i: int, j: int|
        0 <= i < j < slots.len() ==> (#[trigger] slots[i]).destination != (
        #[trigger] slots[j]).destination || slots[i].device != slots[j].device
    &&& forall|i: int|
        0 <= i < slots.len() ==> (#[trigger] slots[i]).keys@.len() > 0
            && slots[i].keys@.no_duplicates()
}

proof fn lemma_slot_in_view(slots: Seq<Slot>, i: int)
    requires
        slots_wf(slots),
        0 <= i < slots.len(),
    ensures
        slots_view(slots).contains_key((slots[i].destination, slots[i].device)),
        slots_view(slots)[(slots[i].destination, slots[i].device)] == slots[i].keys@,
{
    let at = (slots[i].destination, slots[i].device);
    assert(is_at(slots, i, at));
    let j = choose|j: int| is_at(slots, j, at);
    assert(is_at(slots, j, at));
    if i < j {
        assert(slots[i].destination != slots[j].destination || slots[i].device != slots[j].device);
    } else if j < i {
        assert(slots[j].destination != slots[i].destination || slots[j].device != slots[i].device);
    }
}

proof fn lemma_view_without_slot(slots: Seq<Slot>, i: int)
    requires
        slots_wf(slots),
        0 <= i < slots.len(),
    ensures
        slots_wf(slots.remove(i)),
        slots_view(slots.remove(i)) == slots_view(slots).remove(
            (slots[i].destination, slots[i].device),
        ),
{
    let at = (slots[i].destination, slots[i].device);
    let after = slots.remove(i);
    assert forall|a: int, b: int| 0 <= a < b < after.len() implies (
    #[trigger] after[a]).destination != (#[trigger] after[b]).destination || after[a].device
        != after[b].device by {
        let x = if a < i {
            a
        } else {
            a + 1
        };
        let y = if b < i {
            b
        } else {
            b + 1
        };
        assert(after[a] == slots[x] && after[b] == slots[y]);
    }
    assert forall|a: int| 0 <= a < after.len() implies (#[trigger] after[a]).keys@.len() > 0
        && after[a].keys@.no_duplicates() by {
        let x = if a < i {
            a
        } else {
            a + 1
        };
        assert(after[a] == slots[x]);
    }
    let expected = slots_view(slots).remove(at);
    assert forall|other: (usize, usize)| #[trigger]
        slots_view(after).contains_key(other) == expected.contains_key(other) && (
        expected.contains_key(other) ==> slots_view(after)[other] == expected[other]) by {
        if lists_pair(after, other) {
            let a = choose|a: int| is_at(after, a, other);
            let x = if a < i {
                a
            } else {
                a + 1
            };
            assert(after[a] == slots[x]);
            assert(is_at(slots, x, other));
            lemma_slot_in_view(slots, x);
            lemma_slot_in_view(after, a);
            if x < i {
                assert(slots[x].destination != slots[i].destination || slots[x].device
                    != slots[i].device);
            } else {
                assert(slots[i].destination != slots[x].destination || slots[i].device
                    != slots[x].device);
            }
        }
        if lists_pair(slots, other) && other != at {
            let x = choose|x: int| is_at(slots, x, other);
            let a = if x < i {
                x
            } else {
                x - 1
            };
            assert(after[a] == slots[x]);
            assert(is_at(after, a, other));
        }
    }
    assert(slots_view(after) =~= expected);
}

proof fn lemma_view_with_slot(slots: Seq<Slot>, slot: Slot)
    requires
        slots_wf(slots),
        !slots_view(slots).contains_key((slot.destination, slot.device)),
        slot.keys@.len() > 0,
        slot.keys@.no_duplicates(),
    ensures
        slots_wf(slots.push(slot)),
        slots_view(slots.push(slot)) == slots_view(slots).insert(
            (slot.destination, slot.device),
            slot.keys@,
        ),
{
    let at = (slot.destination, slot.device);
    let after = slots.push(slot);
    assert forall|a: int, b: int| 0 <= a < b < after.len() implies (
    #[trigger] after[a]).destination != (#[trigger] after[b]).destination || after[a].device
        != after[b].device by {
        if b == slots.len() {
            if after[a].destination == slot.destination && after[a].device == slot.device {
                assert(is_at(slots, a, at));
            }
        } else {
            assert(after[a] == slots[a] && after[b] == slots[b]);
        }
    }
    assert forall|a: int| 0 <= a < after.len() implies (#[trigger] after[a]).keys@.len() > 0
        && after[a].keys@.no_duplicates() by {
        if a < slots.len() {
            assert(after[a] == slots[a]);
        }
    }
    let expected = slots_view(slots).insert(at, slot.keys@);
    lemma_slot_in_view(after, slots.len() as int);
    assert forall|other: (usize, usize)| #[trigger]
        slots_view(after).contains_key(other) == expected.contains_key(other) && (
        expected.contains_key(other) ==> slots_view(after)[other] == expected[other]) by {
        if lists_pair(after, other) && other != at {
            let a = choose|a: int| is_at(after, a, other);
            assert(a < slots.len());
            assert(after[a] == slots[a]);
            assert(is_at(slots, a, other));
            lemma_slot_in_view(slots, a);
            lemma_slot_in_view(after, a);
        }
        if lists_pair(slots, other) {
            let x = choose|x: int| is_at(slots, x, other);
            assert(after[x] == slots[x]);
            assert(is_at(after, x, other));
        }
    }
    assert(slots_view(after) =~= expected);
}

impl View for HeldInputs {
    type V = HeldView;

    closed spec fn view(&self) -> HeldView {
        slots_view(self.slots@)
    }
}

impl Default for HeldInputs {
    fn default() -> (held: Self)
        ensures
            held.wf(),
            held@ == HeldView::empty(),
    {
        let held = HeldInputs { slots: Vec::new() };
        assert(held@ =~= HeldView::empty());
        held
    }
}

impl HeldInputs {
    /// What is always true of the held keys: a pair is listed once, and only
    /// while something is held there, each key once.
    pub closed spec fn wf(&self) -> bool {
        slots_wf(self.slots@)
    }

    /// At each listed pair at least one key is held, and no key twice.
    pub proof fn lists_held_keys_once(&self, at: (usize, usize))
        requires
            self.wf(),
            self@.contains_key(at),
        ensures
            self@[at].len() > 0,
            self@[at].no_duplicates(),
    {
        let i = choose|i: int| is_at(self.slots@, i, at);
        lemma_slot_in_view(self.slots@, i);
    }

    /// Where a pair is listed.
    fn place(&self, destination: usize, device: usize) -> (place: Option<usize>)
        ensures
            match place {
                Some(place) => is_at(self.slots@, place as int, (destination, device)),
                None => !lists_pair(self.slots@, (destination, device)),
            },
    {
        let mut i: usize = 0;
        while i < self.slots.len()
            invariant
                i <= self.slots@.len(),
                forall|j: int| 0 <= j < i ==> !is_at(self.slots@, j, (destination, device)),
            decreases self.slots@.len() - i,
        {
            if self.slots[i].destination == destination && self.slots[i].device == device {
                return Some(i);
            }
            i += 1;
        }
        None
    }

    /// Take note of a key that a device sent to a destination.
    pub fn record(&mut self, destination: usize, device: usize, event: KeyEvent)
        requires
            old(self).wf(),
        ensures
            final(self).wf(),
            final(self)@ == recorded(old(self)@, (destination, device), event),
    {
        let ghost at = (destination, device);
        let ghost before = self@;
        let mut keys: Vec<Key> = Vec::new();
        if let Some(place) = self.place(destination, device) {
            proof {
                lemma_slot_in_view(self.slots@, place as int);
                lemma_view_without_slot(self.slots@, place as int);
            }
            keys = self.slots.remove(place).keys;
        } else {
            assert(keys@ =~= keys_at(before, at));
            assert(before =~= before.remove(at));
        }
        assert(keys@ == keys_at(before, at));
        assert(self@ == before.remove(at));
        update_keys(&mut keys, event);
        if keys.len() > 0 {
            let slot = Slot { destination, device, keys };
            proof {
                lemma_view_with_slot(self.slots@, slot);
                assert(before.remove(at).insert(at, slot.keys@) =~= before.insert(at, slot.keys@));
            }
            self.slots.push(slot);
        }
    }

    /// Stop holding anything at a destination, and return for each device the
    /// events that let up what it held there. Existing protocol messages
    /// suffice for all clients.
    pub fn release(&mut self, destination: usize) -> (batches: Vec<(usize, Vec<Event>)>)
        requires
            old(self).wf(),
        ensures
            final(self).wf(),
            final(self)@ == without_destination(old(self)@, destination),
            release_batches(batch_views(batches@), devices_at(old(self)@, destination)),
    {
        let mut batches: Vec<(usize, Vec<Event>)> = Vec::new();
        let mut i: usize = 0;
        let ghost all = self@;
        let ghost devices = devices_at(all, destination);
        while i < self.slots.len()
            invariant
                i <= self.slots@.len(),
                slots_wf(self.slots@),
                all == old(self)@,
                devices == devices_at(all, destination),
                forall|j: int|
                    0 <= j < i ==> (#[trigger] self.slots@[j]).destination != destination,
                forall|at: (usize, usize)| #[trigger]
                    self@.contains_key(at) ==> all.contains_key(at) && self@[at] == all[at],
                forall|at: (usize, usize)|
                    #![trigger all.contains_key(at)]
                    all.contains_key(at) && !self@.contains_key(at) ==> at.0 == destination
                        && exists|b: int|
                        0 <= b < batches@.len() && (#[trigger] batches@[b]).0 == at.1,
                forall|b: int|
                    0 <= b < batches@.len() ==> {
                        &&& !self@.contains_key((destination, (#[trigger] batches@[b]).0))
                        &&& devices.contains_key(batches@[b].0)
                        &&& batches@[b].1@ == release_events(devices[batches@[b].0])
                    },
                forall|a: int, b: int|
                    0 <= a < b < batches@.len() ==> (#[trigger] batches@[a]).0 != (
                    #[trigger] batches@[b]).0,
            decreases self.slots@.len() - i,
        {
            if self.slots[i].destination == destination {
                let ghost slots = self.slots@;
                let ghost before = self@;
                let ghost earlier = batches@;
                let ghost at = (destination, slots[i as int].device);
                proof {
                    lemma_slot_in_view(slots, i as int);
                    lemma_view_without_slot(slots, i as int);
                }
                let slot = self.slots.remove(i);
                assert(self@ == before.remove(at));
                let events = release_list(&slot.keys);
                batches.push((slot.device, events));
                proof {
                    assert forall|j: int| 0 <= j < i implies (
                    #[trigger] self.slots@[j]).destination != destination by {
                        assert(self.slots@[j] == slots[j]);
                    }
                    assert forall|other: (usize, usize)|
                        #![trigger all.contains_key(other)]
                        all.contains_key(other) && !self@.contains_key(other) implies other.0
                        == destination && exists|b: int|
                        0 <= b < batches@.len() && (#[trigger] batches@[b]).0 == other.1 by {
                        if other == at {
                            assert(batches@[batches@.len() - 1].0 == other.1);
                        } else {
                            assert(!before.contains_key(other));
                            let b = choose|b: int|
                                0 <= b < earlier.len() && (#[trigger] earlier[b]).0 == other.1;
                            assert(batches@[b] == earlier[b]);
                        }
                    }
                    assert forall|b: int| 0 <= b < batches@.len() implies {
                        &&& !self@.contains_key((destination, (#[trigger] batches@[b]).0))
                        &&& devices.contains_key(batches@[b].0)
                        &&& batches@[b].1@ == release_events(devices[batches@[b].0])
                    } by {
                        if b < earlier.len() {
                            assert(batches@[b] == earlier[b]);
                        }
                    }
                    assert forall|a: int, b: int| 0 <= a < b < batches@.len() implies (
                    #[trigger] batches@[a]).0 != (#[trigger] batches@[b]).0 by {
                        assert(batches@[a] == earlier[a]);
                        if b < earlier.len() {
                            assert(batches@[b] == earlier[b]);
                        }
                    }
                }
            } else {
                i += 1;
            }
        }
        proof {
            assert forall|at: (usize, usize)| #[trigger] self@.contains_key(at) implies at.0
                != destination by {
                let j = choose|j: int| is_at(self.slots@, j, at);
                assert(self.slots@[j].destination == at.0);
            }
            assert(self@ =~= without_destination(all, destination));
            let views = batch_views(batches@);
            assert forall|device: usize| #[trigger] devices.contains_key(device) implies exists|
                b: int,
            | 0 <= b < views.len() && (#[trigger] views[b]).0 == device by {
                let at = (destination, device);
                assert(all.contains_key(at) && !self@.contains_key(at));
                let b = choose|b: int|
                    0 <= b < batches@.len() && (#[trigger] batches@[b]).0 == at.1;
                assert(views[b].0 == device);
            }
        }
        batches
    }

    /// Stop holding anything at a destination that is gone.
    pub fn remove_destination(&mut self, destination: usize)
        requires
            old(self).wf(),
        ensures
            final(self).wf(),
            final(self)@ == without_destination(old(self)@, destination),
    {
        let mut i: usize = 0;
        let ghost all = self@;
        while i < self.slots.len()
            invariant
                i <= self.slots@.len(),
                slots_wf(self.slots@),
                all == old(self)@,
                forall|j: int|
                    0 <= j < i ==> (#[trigger] self.slots@[j]).destination != destination,
                forall|at: (usize, usize)| #[trigger]
                    self@.contains_key(at) ==> all.contains_key(at) && self@[at] == all[at],
                forall|at: (usize, usize)| #[trigger]
                    all.contains_key(at) && at.0 != destination ==> self@.contains_key(at),
            decreases self.slots@.len() - i,
        {
            if self.slots[i].destination == destination {
                let ghost slots = self.slots@;
                let ghost before = self@;
                proof {
                    lemma_view_without_slot(slots, i as int);
                }
                self.slots.remove(i);
                assert(self@ == before.remove((slots[i as int].destination, slots[i as int].device)));
                assert(forall|j: int| 0 <= j < i ==> self.slots@[j] == #[trigger] slots[j]);
            } else {
                i += 1;
            }
        }
        proof {
            assert forall|at: (usize, usize)| #[trigger] self@.contains_key(at) implies at.0
                != destination by {
                let j = choose|j: int| is_at(self.slots@, j, at);
                assert(self.slots@[j].destination == at.0);
            }
            assert(self@ =~= without_destination(all, destination));
        }
    }

    /// Stop holding anything on a device that is gone.
    pub fn remove_device(&mut self, device: usize)
        requires
            old(self).wf(),
        ensures
            final(self).wf(),
            final(self)@ == without_device(old(self)@, device),
    {
        let mut i: usize = 0;
        let ghost all = self@;
        while i < self.slots.len()
            invariant
                i <= self.slots@.len(),
                slots_wf(self.slots@),
                all == old(self)@,
                forall|j: int| 0 <= j < i ==> (#[trigger] self.slots@[j]).device != device,
                forall|at: (usize, usize)| #[trigger]
                    self@.contains_key(at) ==> all.contains_key(at) && self@[at] == all[at],
                forall|at: (usize, usize)| #[trigger]
                    all.contains_key(at) && at.1 != device ==> self@.contains_key(at),
            decreases self.slots@.len() - i,
        {
            if self.slots[i].device == device {
                let ghost slots = self.slots@;
                let ghost before = self@;
                proof {
                    lemma_view_without_slot(slots, i as int);
                }
                self.slots.remove(i);
                assert(self@ == before.remove((slots[i as int].destination, slots[i as int].device)));
                assert(forall|j: int| 0 <= j < i ==> self.slots@[j] == #[trigger] slots[j]);
            } else {
                i += 1;
            }
        }
        proof {
            assert forall|at: (usize, usize)| #[trigger] self@.contains_key(at) implies at.1
                != device by {
                let j = choose|j: int| is_at(self.slots@, j, at);
                assert(self.slots@[j].device == at.1);
            }
            assert(self@ =~= without_device(all, device));
        }
    }

    /// Plan the last events of a shortcut together with the releases that
    /// follow it at the old destination.
    ///
    /// The last press of the shortcut has to precede the releases from other
    /// devices too, since its keys may be on different keyboards. Nothing stays
    /// recorded: forwarding records only what is delivered.
    pub fn finish_switch(
        &mut self,
        destination: usize,
        device: usize,
        leading: Vec<Event>,
    ) -> (batches: Vec<(usize, Vec<Event>)>)
        requires
            old(self).wf(),
        ensures
            final(self).wf(),
            final(self)@ == without_destination(old(self)@, destination),
            switch_batches(
                batch_views(batches@),
                leading@,
                devices_at(
                    recorded_all(old(self)@, (destination, device), leading@),
                    destination,
                ),
                device,
            ),
    {
        let ghost at = (destination, device);
        let ghost all = leading@;
        let mut leading = leading;
        let mut i: usize = 0;
        assert(leading@.take(0) =~= Seq::<Event>::empty());
        while i < leading.len()
            invariant
                i <= leading@.len(),
                leading@ == all,
                at == (destination, device),
                self.wf(),
                self@ == recorded_all(old(self)@, at, all.take(i as int)),
            decreases leading@.len() - i,
        {
            assert(all.take(i + 1).drop_last() =~= all.take(i as int));
            if let Event::Key(event) = leading[i] {
                self.record(destination, device, event);
            }
            i += 1;
        }
        assert(all.take(i as int) =~= all);
        let ghost devices = devices_at(self@, destination);
        proof {
            lemma_recording_stays_at_destination(old(self)@, at, all);
        }
        let mut batches = self.release(destination);
        let ghost released = batches@;
        let mut found: Option<usize> = None;
        let mut i: usize = 0;
        while i < batches.len()
            invariant
                i <= batches@.len(),
                batches@ == released,
                match found {
                    Some(place) => place < batches@.len() && batches@[place as int].0 == device,
                    None => forall|j: int| 0 <= j < i ==> (#[trigger] batches@[j]).0 != device,
                },
            decreases batches@.len() - i,
        {
            if found.is_none() && batches[i].0 == device {
                found = Some(i);
            }
            i += 1;
        }
        let ghost views = batch_views(released);
        if let Some(place) = found {
            let (_, releases) = batches.remove(place);
            let mut releases = releases;
            proof {
                assert(views[place as int].0 == device);
                assert(releases@ == release_events(devices[device]));
                lemma_batches_without(views, devices, place as int);
                assert(batch_views(batches@) =~= views.remove(place as int));
            }
            leading.append(&mut releases);
        } else {
            proof {
                if devices.contains_key(device) {
                    let b = choose|b: int| 0 <= b < views.len() && (#[trigger] views[b]).0 == device;
                    assert(released[b].0 == device);
                }
                assert(devices.remove(device) =~= devices);
            }
        }
        assert(leading@ == switch_events(all, devices, device));
        assert(release_batches(batch_views(batches@), devices.remove(device)));
        if leading.len() > 0 {
            let ghost others = batches@;
            let ghost first = leading@;
            batches.insert(0, (device, leading));
            assert(batch_views(batches@).skip(1) =~= batch_views(others));
            assert(batch_views(batches@)[0] == (device, first));
        }
        batches
    }
}

proof fn lemma_batches_without(batches: Seq<BatchView>, devices: Map<usize, Seq<Key>>, place: int)
    requires
        release_batches(batches, devices),
        0 <= place < batches.len(),
    ensures
        release_batches(batches.remove(place), devices.remove(batches[place].0)),
{
    let after = batches.remove(place);
    let gone = batches[place].0;
    let left = devices.remove(gone);
    assert forall|i: int, j: int| 0 <= i < j < after.len() implies (#[trigger] after[i]).0 != (
    #[trigger] after[j]).0 by {
        let x = if i < place {
            i
        } else {
            i + 1
        };
        let y = if j < place {
            j
        } else {
            j + 1
        };
        assert(after[i] == batches[x] && after[j] == batches[y]);
    }
    assert forall|i: int| 0 <= i < after.len() implies left.contains_key((#[trigger] after[i]).0)
        && after[i].1 == release_events(left[after[i].0]) by {
        let x = if i < place {
            i
        } else {
            i + 1
        };
        assert(after[i] == batches[x]);
        if x < place {
            assert(batches[x].0 != batches[place].0);
        } else {
            assert(batches[place].0 != batches[x].0);
        }
    }
    assert forall|device: usize| #[trigger] left.contains_key(device) implies exists|i: int|
        0 <= i < after.len() && (#[trigger] after[i]).0 == device by {
        assert(devices.contains_key(device));
        let x = choose|x: int| 0 <= x < batches.len() && (#[trigger] batches[x]).0 == device;
        let i = if x < place {
            x
        } else {
            x - 1
        };
        assert(after[i] == batches[x]);
    }
}

proof fn lemma_recording_stays_at_destination(
    held: HeldView,
    at: (usize, usize),
    events: Seq<Event>,
)
    ensures
        without_destination(recorded_all(held, at, events), at.0) == without_destination(
            held,
            at.0,
        ),
    decreases events.len(),
{
    if events.len() > 0 {
        lemma_recording_stays_at_destination(held, at, events.drop_last());
        let before = recorded_all(held, at, events.drop_last());
        let after = recorded_all(held, at, events);
        assert forall|other: (usize, usize)| other != at implies #[trigger] before.contains_key(
            other,
        ) == after.contains_key(other) && (before.contains_key(other) ==> before[other]
            == after[other]) by {}
        assert(without_destination(after, at.0) =~= without_destination(before, at.0));
    } else {
        assert(without_destination(recorded_all(held, at, events), at.0) =~= without_destination(
            held,
            at.0,
        ));
    }
}

/// Let a key go down or up in a list of held keys.
fn update_keys(keys: &mut Vec<Key>, event: KeyEvent)
    requires
        old(keys)@.no_duplicates(),
    ensures
        final(keys)@ == keys_after(old(keys)@, event),
        final(keys)@.no_duplicates(),
{
    proof {
        keys@.index_of_first_ensures(event.key);
    }
    let mut i: usize = 0;
    while i < keys.len()
        invariant
            i <= keys@.len(),
            keys@ == old(keys)@,
            keys@.no_duplicates(),
            forall|j: int| 0 <= j < i ==> keys@[j] != event.key,
        decreases keys@.len() - i,
    {
        if keys[i] == event.key {
            proof {
                keys@.index_of_first_ensures(event.key);
            }
            if !event.down {
                keys.remove(i);
            }
            return;
        }
        i += 1;
    }
    if event.down {
        keys.push(event.key);
    }
}

/// The events that let up some keys.
fn release_list(keys: &Vec<Key>) -> (events: Vec<Event>)
    ensures
        events@ == release_events(keys@),
{
    let mut events: Vec<Event> = Vec::new();
    let mut i: usize = keys.len();
    while i > 0
        invariant
            i <= keys@.len(),
            events@.len() == keys@.len() - i,
            forall|j: int|
                0 <= j < events@.len() ==> #[trigger] events@[j] == Event::Key(
                    KeyEvent { key: keys@[keys@.len() - 1 - j], down: false },
                ),
        decreases i,
    {
        i -= 1;
        events.push(Event::Key(KeyEvent { key: keys[i], down: false }));
    }
    events.push(Event::Sync(SyncEvent::All));
    assert(events@ =~= release_events(keys@));
    events
}

/// The keys of one device after some events.
pub open spec fn keys_after_all(keys: Seq<Key>, events: Seq<Event>) -> Seq<Key>
    decreases events.len(),
{
    if events.len() == 0 {
        keys
    } else {
        let before = keys_after_all(keys, events.drop_last());
        match events.last() {
            Event::Key(event) => keys_after(before, event),
            _ => before,
        }
    }
}

proof fn lemma_keys_after(keys: Seq<Key>, event: KeyEvent)
    requires
        keys.no_duplicates(),
    ensures
        keys_after(keys, event).no_duplicates(),
        forall|key: Key| #[trigger]
            keys_after(keys, event).contains(key) <==> if key == event.key {
                event.down
            } else {
                keys.contains(key)
            },
{
    keys.index_of_first_ensures(event.key);
    let after = keys_after(keys, event);
    if event.down {
        if !keys.contains(event.key) {
            assert forall|key: Key| #[trigger] after.contains(key) <==> key == event.key
                || keys.contains(key) by {
                if key == event.key {
                    assert(after[keys.len() as int] == key);
                } else if keys.contains(key) {
                    let i = choose|i: int| 0 <= i < keys.len() && keys[i] == key;
                    assert(after[i] == key);
                }
            }
        }
    } else if keys.contains(event.key) {
        let gone = keys.index_of_first(event.key)->0;
        assert forall|key: Key| #[trigger] after.contains(key) <==> key != event.key
            && keys.contains(key) by {
            if keys.contains(key) && key != event.key {
                let i = choose|i: int| 0 <= i < keys.len() && keys[i] == key;
                assert(after[if i < gone {
                    i
                } else {
                    i - 1
                }] == key);
            }
            if after.contains(key) {
                let i = choose|i: int| 0 <= i < after.len() && after[i] == key;
                assert(keys[if i < gone {
                    i
                } else {
                    i + 1
                }] == key);
            }
        }
    }
}

proof fn lemma_recorded_keys(held: HeldView, at: (usize, usize), events: Seq<Event>)
    ensures
        keys_at(recorded_all(held, at, events), at) == keys_after_all(keys_at(held, at), events),
        keys_after_all(keys_at(held, at), events).len() == 0 && (events.len() > 0 && events.last()
            is Key || !held.contains_key(at)) ==> !recorded_all(held, at, events).contains_key(at),
    decreases events.len(),
{
    if events.len() > 0 {
        lemma_recorded_keys(held, at, events.drop_last());
        let before = keys_after_all(keys_at(held, at), events.drop_last());
        if let Event::Key(event) = events.last() {
            let keys = keys_after(before, event);
            if keys.len() == 0 {
                assert(keys =~= Seq::<Key>::empty());
            }
        }
    }
}

/// Recording what one device sent to one destination changes nothing elsewhere.
pub proof fn recording_touches_one_pair(held: HeldView, at: (usize, usize), events: Seq<Event>)
    ensures
        recorded_all(held, at, events).remove(at) == held.remove(at),
    decreases events.len(),
{
    if events.len() > 0 {
        recording_touches_one_pair(held, at, events.drop_last());
        let before = recorded_all(held, at, events.drop_last());
        assert(recorded_all(held, at, events).remove(at) =~= before.remove(at));
    }
}

/// A key that goes down twice is held once.
pub proof fn a_held_key_is_held_once(held: HeldView, at: (usize, usize), key: Key)
    ensures
        ({
            let down = KeyEvent { key, down: true };
            let pressed = recorded(held, at, down);
            recorded(pressed, at, down) == pressed
        }),
{
    let down = KeyEvent { key, down: true };
    let keys = keys_after(keys_at(held, at), down);
    if !keys_at(held, at).contains(key) {
        assert(keys[keys.len() - 1] == key);
    }
    assert(keys.contains(key) && keys.len() > 0);
    let pressed = recorded(held, at, down);
    assert(keys_at(pressed, at) == keys);
    assert(recorded(pressed, at, down) =~= pressed);
}

/// A key that goes down and up again leaves no trace.
pub proof fn a_press_and_its_release_cancel(held: HeldView, at: (usize, usize), key: Key)
    requires
        held.contains_key(at) ==> held[at].len() > 0,
        !keys_at(held, at).contains(key),
    ensures
        recorded(
            recorded(held, at, (KeyEvent { key, down: true })),
            at,
            (KeyEvent { key, down: false }),
        ) == held,
{
    let keys = keys_at(held, at);
    let pressed = keys.push(key);
    assert(pressed[keys.len() as int] == key);
    pressed.index_of_first_ensures(key);
    let first = pressed.index_of_first(key)->0;
    if first < keys.len() {
        assert(keys[first] == key);
    }
    assert(pressed.remove_value(key) =~= keys);
    assert(recorded(
        recorded(held, at, (KeyEvent { key, down: true })),
        at,
        (KeyEvent { key, down: false }),
    ) =~= held);
}

/// Whatever a switch stages at the old destination is gone when it is planned,
/// and no other destination notices.
pub proof fn switches_stage_nothing(
    held: HeldView,
    destination: usize,
    device: usize,
    leading: Seq<Event>,
)
    ensures
        without_destination(recorded_all(held, (destination, device), leading), destination)
            == without_destination(held, destination),
        devices_at(without_destination(held, destination), destination) == Map::<
            usize,
            Seq<Key>,
        >::empty(),
{
    lemma_recording_stays_at_destination(held, (destination, device), leading);
    assert(devices_at(without_destination(held, destination), destination) =~= Map::<
        usize,
        Seq<Key>,
    >::empty());
}

proof fn lemma_releases(keys: Seq<Key>, released: Seq<Key>, count: int)
    requires
        keys.no_duplicates(),
        forall|key: Key| keys.contains(key) ==> released.contains(key),
        0 <= count <= released.len(),
    ensures
        ({
            let left = keys_after_all(keys, release_events(released).take(count));
            &&& left.no_duplicates()
            &&& forall|key: Key| #[trigger]
                left.contains(key) ==> released.take(released.len() - count).contains(key)
        }),
    decreases count,
{
    let events = release_events(released);
    if count == 0 {
        assert(events.take(0) =~= Seq::<Event>::empty());
        assert(released.take(released.len() as int) =~= released);
    } else {
        lemma_releases(keys, released, count - 1);
        assert(events.take(count).drop_last() =~= events.take(count - 1));
        let before = keys_after_all(keys, events.take(count - 1));
        let gone = released[released.len() - count];
        let event = KeyEvent { key: gone, down: false };
        assert(events.take(count).last() == Event::Key(event));
        lemma_keys_after(before, event);
        let left = keys_after_all(keys, events.take(count));
        assert(left == keys_after(before, event));
        assert forall|key: Key| #[trigger] left.contains(key) implies released.take(
            released.len() - count,
        ).contains(key) by {
            assert(before.contains(key) && key != gone);
            let wider = released.take(released.len() - (count - 1));
            let i = choose|i: int| 0 <= i < wider.len() && wider[i] == key;
            assert(wider[i] == released[i]);
            assert(i < released.len() - count);
            assert(released.take(released.len() - count)[i] == key);
        }
    }
}

/// Once a device has been told to let up at least the keys that it holds,
/// nothing is held there.
pub proof fn releases_let_everything_up(held: HeldView, at: (usize, usize), released: Seq<Key>)
    requires
        keys_at(held, at).no_duplicates(),
        forall|key: Key| keys_at(held, at).contains(key) ==> released.contains(key),
        released.len() > 0,
    ensures
        !recorded_all(held, at, release_events(released)).contains_key(at),
{
    let events = release_events(released);
    let count = released.len() as int;
    lemma_releases(keys_at(held, at), released, count);
    let left = keys_after_all(keys_at(held, at), events.take(count));
    if left.len() > 0 {
        assert(left.contains(left[0]));
    }
    assert(events.drop_last() =~= events.take(count));
    lemma_recorded_keys(held, at, events.drop_last());
}

proof fn lemma_fewer_keys(fewer: Seq<Key>, more: Seq<Key>, events: Seq<Event>)
    requires
        fewer.no_duplicates(),
        more.no_duplicates(),
        forall|key: Key| fewer.contains(key) ==> more.contains(key),
    ensures
        keys_after_all(fewer, events).no_duplicates(),
        keys_after_all(more, events).no_duplicates(),
        forall|key: Key|
            keys_after_all(fewer, events).contains(key) ==> keys_after_all(more, events).contains(
                key,
            ),
    decreases events.len(),
{
    if events.len() > 0 {
        lemma_fewer_keys(fewer, more, events.drop_last());
        if let Event::Key(event) = events.last() {
            lemma_keys_after(keys_after_all(fewer, events.drop_last()), event);
            lemma_keys_after(keys_after_all(more, events.drop_last()), event);
        }
    }
}

/// The batches of a switch leave nothing held at the old destination, once they
/// have been delivered and recorded: neither on the device that completed the
/// shortcut nor on any other.
pub proof fn delivered_switches_leave_nothing_held(
    held: HeldView,
    destination: usize,
    device: usize,
    leading: Seq<Event>,
    other: usize,
)
    requires
        forall|at: (usize, usize)| #[trigger]
            held.contains_key(at) ==> held[at].len() > 0 && held[at].no_duplicates(),
    ensures
        ({
            let left = without_destination(held, destination);
            let staged = recorded_all(held, (destination, device), leading);
            let devices = devices_at(staged, destination);
            let first = switch_events(leading, devices, device);
            &&& !recorded_all(left, (destination, device), first).contains_key(
                (destination, device),
            )
            &&& devices.contains_key(other) && other != device ==> !recorded_all(
                left,
                (destination, other),
                release_events(devices[other]),
            ).contains_key((destination, other))
        }),
{
    let at = (destination, device);
    let left = without_destination(held, destination);
    let staged = recorded_all(held, at, leading);
    let devices = devices_at(staged, destination);
    lemma_recorded_keys(held, at, leading);
    lemma_recorded_keys(left, at, leading);
    lemma_fewer_keys(keys_at(left, at), keys_at(held, at), leading);
    lemma_recorded_entries(held, at, leading);
    if devices.contains_key(device) {
        let keys = devices[device];
        let delivered = recorded_all(left, at, leading);
        assert(keys == keys_at(staged, at));
        assert(keys_at(delivered, at).no_duplicates());
        releases_let_everything_up(delivered, at, keys);
        lemma_recorded_both(left, at, leading, release_events(keys));
    } else {
        assert(keys_at(staged, at).len() == 0);
        assert(keys_after_all(keys_at(left, at), leading).len() == 0) by {
            let some = keys_after_all(keys_at(left, at), leading);
            if some.len() > 0 {
                assert(some.contains(some[0]));
            }
        }
    }
    if devices.contains_key(other) && other != device {
        let there = (destination, other);
        recording_touches_one_pair(held, at, leading);
        assert(staged.remove(at).contains_key(there) && held.remove(at).contains_key(there));
        assert(devices[other] == staged.remove(at)[there]);
        assert(devices[other] == held[there]);
        releases_let_everything_up(left, there, devices[other]);
    }
}

/// However much is held, a switch makes one batch for each device, so that a
/// device needs room for one only.
pub proof fn switches_make_one_batch_per_device(
    batches: Seq<BatchView>,
    leading: Seq<Event>,
    devices: Map<usize, Seq<Key>>,
    device: usize,
    i: int,
    j: int,
)
    requires
        switch_batches(batches, leading, devices, device),
        0 <= i < j < batches.len(),
    ensures
        batches[i].0 != batches[j].0,
{
    if switch_events(leading, devices, device).len() > 0 {
        let others = batches.skip(1);
        assert(others[j - 1] == batches[j]);
        if i > 0 {
            assert(others[i - 1] == batches[i]);
        }
    }
}

/// What is held once some batches have been delivered to a destination.
pub open spec fn delivered(held: HeldView, destination: usize, batches: Seq<BatchView>) -> HeldView
    decreases batches.len(),
{
    if batches.len() == 0 {
        held
    } else {
        let (device, events) = batches.last();
        recorded_all(
            delivered(held, destination, batches.drop_last()),
            (destination, device),
            events,
        )
    }
}

/// Once the batches of a switch have been delivered and recorded, nothing is
/// held at the old destination, and all other destinations are as they were.
pub proof fn delivered_switches_clear_the_destination(
    held: HeldView,
    destination: usize,
    device: usize,
    leading: Seq<Event>,
    batches: Seq<BatchView>,
)
    requires
        forall|at: (usize, usize)| #[trigger]
            held.contains_key(at) ==> held[at].len() > 0 && held[at].no_duplicates(),
        switch_batches(
            batches,
            leading,
            devices_at(recorded_all(held, (destination, device), leading), destination),
            device,
        ),
    ensures
        delivered(without_destination(held, destination), destination, batches)
            == without_destination(held, destination),
{
    let left = without_destination(held, destination);
    let devices = devices_at(recorded_all(held, (destination, device), leading), destination);
    let first = switch_events(leading, devices, device);
    assert forall|i: int| 0 <= i < batches.len() implies !recorded_all(
        left,
        (destination, (#[trigger] batches[i]).0),
        batches[i].1,
    ).contains_key((destination, batches[i].0)) by {
        let (other, events) = batches[i];
        delivered_switches_leave_nothing_held(held, destination, device, leading, other);
        if first.len() > 0 && i > 0 {
            assert(batches.skip(1)[i - 1] == batches[i]);
        }
    }
    lemma_batches_clear(left, destination, batches);
}

proof fn lemma_batches_clear(left: HeldView, destination: usize, batches: Seq<BatchView>)
    requires
        forall|at: (usize, usize)| #[trigger] left.contains_key(at) ==> at.0 != destination,
        forall|i: int|
            0 <= i < batches.len() ==> !recorded_all(
                left,
                (destination, (#[trigger] batches[i]).0),
                batches[i].1,
            ).contains_key((destination, batches[i].0)),
    ensures
        delivered(left, destination, batches) == left,
    decreases batches.len(),
{
    if batches.len() > 0 {
        let earlier = batches.drop_last();
        assert forall|i: int| 0 <= i < earlier.len() implies !recorded_all(
            left,
            (destination, (#[trigger] earlier[i]).0),
            earlier[i].1,
        ).contains_key((destination, earlier[i].0)) by {
            assert(earlier[i] == batches[i]);
        }
        lemma_batches_clear(left, destination, earlier);
        let last = batches[batches.len() - 1];
        let at = (destination, last.0);
        recording_touches_one_pair(left, at, last.1);
        let after = recorded_all(left, at, last.1);
        assert(after =~= after.remove(at));
        assert(left =~= left.remove(at));
    }
}

proof fn lemma_recorded_entries(held: HeldView, at: (usize, usize), events: Seq<Event>)
    requires
        held.contains_key(at) ==> held[at].len() > 0,
    ensures
        recorded_all(held, at, events).contains_key(at) ==> recorded_all(held, at, events)[at].len()
            > 0,
    decreases events.len(),
{
    if events.len() > 0 {
        lemma_recorded_entries(held, at, events.drop_last());
    }
}

proof fn lemma_recorded_both(
    held: HeldView,
    at: (usize, usize),
    first: Seq<Event>,
    second: Seq<Event>,
)
    ensures
        recorded_all(held, at, first + second) == recorded_all(
            recorded_all(held, at, first),
            at,
            second,
        ),
    decreases second.len(),
{
    if second.len() == 0 {
        assert(first + second =~= first);
    } else {
        lemma_recorded_both(held, at, first, second.drop_last());
        assert((first + second).drop_last() =~= first + second.drop_last());
    }
}

/// Whether a key is held at a pair.
pub open spec fn is_held(held: HeldView, at: (usize, usize), key: Key) -> bool {
    held.contains_key(at) && held[at].contains(key)
}

/// What some events last say of a key, if they say anything: that it is down, or
/// that it is up.
pub open spec fn last_word(events: Seq<Event>, key: Key) -> Option<bool>
    decreases events.len(),
{
    if events.len() == 0 {
        None
    } else {
        match events.last() {
            Event::Key(event) if event.key == key => Some(event.down),
            _ => last_word(events.drop_last(), key),
        }
    }
}

/// The key events that arrive at a pair decide what is held there, and only they
/// do: a key or button that they last took down is held, one that they last let up
/// is not, and everything else is as it was, there and elsewhere. A key that goes
/// down is listed behind those that are held already.
pub proof fn arrived_keys_decide_what_is_held(
    held: HeldView,
    at: (usize, usize),
    events: Seq<Event>,
    elsewhere: (usize, usize),
    key: Key,
)
    requires
        held.contains_key(at) ==> held[at].len() > 0 && held[at].no_duplicates(),
    ensures
        is_held(recorded_all(held, at, events), at, key) == match last_word(events, key) {
            Some(down) => down,
            None => is_held(held, at, key),
        },
        elsewhere != at ==> {
            &&& recorded_all(held, at, events).contains_key(elsewhere) <==> held.contains_key(
                elsewhere,
            )
            &&& held.contains_key(elsewhere) ==> recorded_all(held, at, events)[elsewhere]
                == held[elsewhere]
        },
        events == seq![Event::Key(KeyEvent { key, down: true })] && !is_held(held, at, key) ==> {
            let after = recorded_all(held, at, events);
            &&& after.contains_key(at)
            &&& after[at] == if held.contains_key(at) {
                held[at].push(key)
            } else {
                seq![key]
            }
        },
{
    lemma_recorded_keys(held, at, events);
    lemma_fewer_keys(keys_at(held, at), keys_at(held, at), events);
    lemma_last_word(keys_at(held, at), events, key);
    recording_touches_one_pair(held, at, events);
    let after = recorded_all(held, at, events);
    if elsewhere != at {
        assert(after.remove(at).contains_key(elsewhere) <==> held.remove(at).contains_key(
            elsewhere,
        ));
        if held.contains_key(elsewhere) {
            assert(after.remove(at)[elsewhere] == held.remove(at)[elsewhere]);
        }
    }
    let press = Event::Key(KeyEvent { key, down: true });
    if events == seq![press] && !is_held(held, at, key) {
        assert(events.drop_last() =~= Seq::<Event>::empty());
        assert(recorded_all(held, at, events.drop_last()) == held);
        assert(Seq::<Key>::empty().push(key) =~= seq![key]);
    }
}

proof fn lemma_last_word(keys: Seq<Key>, events: Seq<Event>, key: Key)
    requires
        keys.no_duplicates(),
    ensures
        keys_after_all(keys, events).no_duplicates(),
        keys_after_all(keys, events).contains(key) == match last_word(events, key) {
            Some(down) => down,
            None => keys.contains(key),
        },
    decreases events.len(),
{
    if events.len() > 0 {
        lemma_last_word(keys, events.drop_last(), key);
        if let Event::Key(event) = events.last() {
            lemma_keys_after(keys_after_all(keys, events.drop_last()), event);
        }
    }
}

/// What lets up some keys on a device: a release of each, last pressed first, and
/// then the end of the group.
pub open spec fn lets_up(events: Seq<Event>, keys: Seq<Key>) -> bool {
    &&& events.len() == keys.len() + 1
    &&& events.last() == Event::Sync(SyncEvent::All)
    &&& forall|i: int|
        0 <= i < keys.len() ==> #[trigger] events[i] == Event::Key(
            KeyEvent { key: keys[keys.len() - 1 - i], down: false },
        )
}

/// The batches that end a switch leave no device out: the one that completed the
/// shortcut gets its own events first and lets up what it then holds, every other
/// device that holds anything gets one batch that lets up all of it, and nobody
/// else gets one.
pub proof fn switches_leave_no_device_out(
    held: HeldView,
    destination: usize,
    device: usize,
    leading: Seq<Event>,
    batches: Seq<BatchView>,
)
    requires
        switch_batches(
            batches,
            leading,
            devices_at(recorded_all(held, (destination, device), leading), destination),
            device,
        ),
    ensures
        forall|other: usize|
            other != device && #[trigger] held.contains_key((destination, other)) ==> exists|i: int|
                0 <= i < batches.len() && (#[trigger] batches[i]).0 == other && lets_up(
                    batches[i].1,
                    held[(destination, other)],
                ),
        forall|i: int|
            0 <= i < batches.len() && (#[trigger] batches[i]).0 != device ==> held.contains_key(
                (destination, batches[i].0),
            ),
        ({
            let staged = recorded_all(held, (destination, device), leading);
            let at = (destination, device);
            &&& staged.contains_key(at) ==> {
                &&& batches.len() > 0
                &&& batches[0].0 == device
                &&& batches[0].1.len() >= leading.len()
                &&& batches[0].1.take(leading.len() as int) == leading
                &&& lets_up(batches[0].1.skip(leading.len() as int), staged[at])
            }
            &&& !staged.contains_key(at) && leading.len() > 0 ==> batches.len() > 0 && batches[0]
                == (device, leading)
            &&& !staged.contains_key(at) && leading.len() == 0 ==> forall|i: int|
                0 <= i < batches.len() ==> (#[trigger] batches[i]).0 != device
        }),
        forall|i: int, j: int|
            0 <= i < j < batches.len() ==> (#[trigger] batches[i]).0 != (#[trigger] batches[j]).0,
{
    let at = (destination, device);
    let staged = recorded_all(held, at, leading);
    let devices = devices_at(staged, destination);
    let others = devices.remove(device);
    let first = switch_events(leading, devices, device);
    let rest = if first.len() == 0 {
        batches
    } else {
        batches.skip(1)
    };
    recording_touches_one_pair(held, at, leading);
    assert(release_batches(rest, others));
    assert forall|other: usize|
        other != device && #[trigger] held.contains_key((destination, other)) implies exists|i: int|
            0 <= i < batches.len() && (#[trigger] batches[i]).0 == other && lets_up(
                batches[i].1,
                held[(destination, other)],
            ) by {
        let there = (destination, other);
        assert(held.remove(at).contains_key(there));
        assert(staged.remove(at).contains_key(there));
        assert(staged.remove(at)[there] == held.remove(at)[there]);
        assert(others.contains_key(other));
        let i = choose|i: int| 0 <= i < rest.len() && (#[trigger] rest[i]).0 == other;
        assert(rest[i].1 == release_events(others[other]));
        if first.len() == 0 {
            assert(batches[i].0 == other);
        } else {
            assert(rest[i] == batches[i + 1]);
            assert(batches[i + 1].0 == other);
        }
    }
    assert forall|i: int| 0 <= i < batches.len() && (#[trigger] batches[i]).0
        != device implies held.contains_key((destination, batches[i].0)) by {
        let j = if first.len() == 0 {
            i
        } else {
            i - 1
        };
        assert(rest[j] == batches[i]);
        assert(others.contains_key(rest[j].0));
        let there = (destination, batches[i].0);
        assert(staged.remove(at).contains_key(there));
    }
    assert forall|i: int, j: int| 0 <= i < j < batches.len() implies (#[trigger] batches[i]).0 != (
    #[trigger] batches[j]).0 by {
        switches_make_one_batch_per_device(batches, leading, devices, device, i, j);
    }
    if staged.contains_key(at) {
        assert(devices.contains_key(device));
        let releases = release_events(staged[at]);
        assert(first == leading + releases);
        assert(first.take(leading.len() as int) =~= leading);
        assert(first.skip(leading.len() as int) =~= releases);
    } else if leading.len() == 0 {
        assert forall|i: int| 0 <= i < batches.len() implies (#[trigger] batches[i]).0 != device by {
            assert(rest[i] == batches[i]);
            assert(others.contains_key(rest[i].0));
        }
    }
}

/// Leaving a destination or giving up a device forgets what is held there, and
/// nothing else.
pub proof fn only_what_is_left_is_forgotten(held: HeldView, gone: usize, at: (usize, usize))
    ensures
        without_destination(held, gone).contains_key(at) <==> held.contains_key(at) && at.0 != gone,
        without_destination(held, gone).contains_key(at) ==> without_destination(held, gone)[at]
            == held[at],
        without_device(held, gone).contains_key(at) <==> held.contains_key(at) && at.1 != gone,
        without_device(held, gone).contains_key(at) ==> without_device(held, gone)[at] == held[at],
        devices_at(held, gone).contains_key(at.1) <==> held.contains_key((gone, at.1)),
        devices_at(held, gone).contains_key(at.1) ==> devices_at(held, gone)[at.1] == held[(
            gone,
            at.1,
        )],
{
}

/// Letting everything up at a destination leaves no device out either: each that
/// holds anything there gets one batch that lets up all of it.
pub proof fn releases_leave_no_device_out(
    held: HeldView,
    destination: usize,
    batches: Seq<BatchView>,
    device: usize,
)
    requires
        release_batches(batches, devices_at(held, destination)),
    ensures
        held.contains_key((destination, device)) <==> exists|i: int|
            0 <= i < batches.len() && (#[trigger] batches[i]).0 == device,
        held.contains_key((destination, device)) ==> exists|i: int|
            0 <= i < batches.len() && (#[trigger] batches[i]).0 == device && lets_up(
                batches[i].1,
                held[(destination, device)],
            ),
        forall|i: int, j: int|
            0 <= i < j < batches.len() ==> (#[trigger] batches[i]).0 != (#[trigger] batches[j]).0,
{
    let devices = devices_at(held, destination);
    if held.contains_key((destination, device)) {
        assert(devices.contains_key(device));
        let i = choose|i: int| 0 <= i < batches.len() && (#[trigger] batches[i]).0 == device;
        assert(lets_up(batches[i].1, held[(destination, device)]));
    }
}

/// A key that goes down again stays where it is listed, and one that goes up leaves
/// the others in their order.
pub proof fn held_keys_keep_their_order(held: HeldView, at: (usize, usize), key: Key)
    requires
        held.contains_key(at),
        held[at].len() > 0,
        held[at].no_duplicates(),
        held[at].contains(key),
    ensures
        recorded(held, at, (KeyEvent { key, down: true })) == held,
        ({
            let after = recorded(held, at, (KeyEvent { key, down: false }));
            let left = held[at].filter(|other: Key| other != key);
            &&& after.remove(at) == held.remove(at)
            &&& left.len() == 0 ==> !after.contains_key(at)
            &&& left.len() > 0 ==> after.contains_key(at) && after[at] == left
        }),
{
    assert(recorded(held, at, (KeyEvent { key, down: true })) =~= held);
    let keys = held[at];
    keys.index_of_first_ensures(key);
    let gone = keys.index_of_first(key)->0;
    let others = |other: Key| other != key;
    let front = keys.take(gone);
    let back = keys.skip(gone + 1);
    assert(keys =~= front.push(key) + back);
    lemma_keeps_all(front, key);
    lemma_keeps_all(back, key);
    assert(front.push(key).drop_last() =~= front);
    reveal_with_fuel(Seq::filter, 2);
    assert(front.push(key).filter(others) == front.filter(others));
    Seq::filter_distributes_over_add(front.push(key), back, others);
    assert(keys.remove_value(key) =~= front + back);
    let after = recorded(held, at, (KeyEvent { key, down: false }));
    assert(after.remove(at) =~= held.remove(at));
}

proof fn lemma_keeps_all(keys: Seq<Key>, key: Key)
    requires
        !keys.contains(key),
    ensures
        keys.filter(|other: Key| other != key) == keys,
    decreases keys.len(),
{
    reveal(Seq::filter);
    let others = |other: Key| other != key;
    if keys.len() > 0 {
        let shorter = keys.drop_last();
        if shorter.contains(key) {
            let i = choose|i: int| 0 <= i < shorter.len() && shorter[i] == key;
            assert(keys[i] == key);
        }
        lemma_keeps_all(shorter, key);
        assert(keys[keys.len() - 1] != key);
        assert(keys =~= shorter.push(keys.last()));
    } else {
        assert(keys.filter(others) =~= keys);
    }
}

/// Planned batches are seen one by one, each in its place with its device and all of
/// its events.
pub proof fn every_batch_is_seen(batches: Seq<(usize, Vec<Event>)>)
    ensures
        batch_views(batches).len() == batches.len(),
        forall|i: int|
            0 <= i < batches.len() ==> (#[trigger] batch_views(batches)[i]) == (
                batches[i].0,
                batches[i].1@,
            ),
{
}

} // verus!
