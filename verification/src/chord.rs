//! The keyboard shortcut that switches between destinations.
use vstd::prelude::*;

use crate::event::{Key, KeyEvent};

verus! {

/// A set of keys.
#[derive(Debug)]
pub struct KeySet {
    keys: Vec<Key>,
}

impl View for KeySet {
    type V = Set<Key>;

    closed spec fn view(&self) -> Set<Key> {
        self.keys@.to_set()
    }
}

impl Default for KeySet {
    fn default() -> (keys: Self)
        ensures
            keys.wf(),
            keys@ == Set::<Key>::empty(),
    {
        let keys = KeySet { keys: Vec::new() };
        assert(keys@ =~= Set::<Key>::empty());
        keys
    }
}

impl KeySet {
    /// No key is listed twice.
    pub closed spec fn wf(&self) -> bool {
        self.keys@.no_duplicates()
    }

    /// A set of keys is finite.
    pub proof fn is_finite(&self)
        ensures
            self@.finite(),
    {
        broadcast use vstd::seq_lib::seq_to_set_is_finite;

    }

    /// The set of some keys, which may be listed more than once.
    pub fn from_keys(keys: &[Key]) -> (set: Self)
        ensures
            set.wf(),
            set@ == keys@.to_set(),
    {
        let mut set = KeySet::default();
        let mut i: usize = 0;
        while i < keys.len()
            invariant
                i <= keys@.len(),
                set.wf(),
                set@ == keys@.take(i as int).to_set(),
            decreases keys@.len() - i,
        {
            proof {
                let before = keys@.take(i as int);
                let after = keys@.take(i + 1);
                assert(after =~= before.push(keys@[i as int]));
                assert(after.to_set() =~= before.to_set().insert(keys@[i as int])) by {
                    assert forall|key: Key| #[trigger] after.contains(key) <==> before.contains(key)
                        || key == keys@[i as int] by {
                        if before.contains(key) {
                            let j = choose|j: int| 0 <= j < before.len() && before[j] == key;
                            assert(after[j] == key);
                        }
                        if key == keys@[i as int] {
                            assert(after[i as int] == key);
                        }
                    }
                }
            }
            set.insert(keys[i]);
            i += 1;
        }
        assert(keys@.take(i as int) =~= keys@);
        set
    }

    /// Where a key is listed.
    fn place(&self, key: Key) -> (place: Option<usize>)
        ensures
            match place {
                Some(place) => place < self.keys@.len() && self.keys@[place as int] == key,
                None => !self.keys@.contains(key),
            },
    {
        let mut i: usize = 0;
        while i < self.keys.len()
            invariant
                i <= self.keys@.len(),
                forall|j: int| 0 <= j < i ==> self.keys@[j] != key,
            decreases self.keys@.len() - i,
        {
            if self.keys[i] == key {
                return Some(i);
            }
            i += 1;
        }
        None
    }

    /// Whether a key is in the set.
    pub fn contains(&self, key: Key) -> (contained: bool)
        ensures
            contained == self@.contains(key),
    {
        match self.place(key) {
            Some(place) => {
                assert(self.keys@[place as int] == key);
                true
            },
            None => false,
        }
    }

    /// Add a key.
    pub fn insert(&mut self, key: Key)
        requires
            old(self).wf(),
        ensures
            final(self).wf(),
            final(self)@ == old(self)@.insert(key),
    {
        let ghost before = self.keys@;
        if self.place(key).is_none() {
            self.keys.push(key);
            proof {
                assert forall|other: Key| #[trigger] self.keys@.contains(other)
                    <==> before.contains(other) || other == key by {
                    if before.contains(other) {
                        let j = choose|j: int| 0 <= j < before.len() && before[j] == other;
                        assert(self.keys@[j] == other);
                    }
                    if other == key {
                        assert(self.keys@[before.len() as int] == key);
                    }
                }
            }
        }
        assert(self@ =~= before.to_set().insert(key));
    }

    /// Take a key out, if it is in the set.
    pub fn remove(&mut self, key: Key)
        requires
            old(self).wf(),
        ensures
            final(self).wf(),
            final(self)@ == old(self)@.remove(key),
    {
        let ghost before = self.keys@;
        if let Some(place) = self.place(key) {
            self.keys.remove(place);
            proof {
                let gone = place as int;
                assert forall|other: Key| #[trigger] self.keys@.contains(other)
                    <==> before.contains(other) && other != key by {
                    if before.contains(other) && other != key {
                        let j = choose|j: int| 0 <= j < before.len() && before[j] == other;
                        assert(self.keys@[if j < gone {
                            j
                        } else {
                            j - 1
                        }] == other);
                    }
                    if self.keys@.contains(other) {
                        let j = choose|j: int|
                            0 <= j < self.keys@.len() && self.keys@[j] == other;
                        assert(before[if j < gone {
                            j
                        } else {
                            j + 1
                        }] == other);
                    }
                }
            }
        }
        assert(self@ =~= before.to_set().remove(key));
    }

    /// How many keys are in the set.
    pub fn len(&self) -> (count: usize)
        requires
            self.wf(),
        ensures
            count == self@.len(),
    {
        proof {
            self.keys@.unique_seq_to_set();
        }
        self.keys.len()
    }

    /// Whether no key is in the set.
    pub fn is_empty(&self) -> (empty: bool)
        requires
            self.wf(),
        ensures
            empty == (self@ == Set::<Key>::empty()),
    {
        proof {
            self.keys@.unique_seq_to_set();
            if self.keys@.len() == 0 {
                assert(self@ =~= Set::<Key>::empty());
            } else {
                assert(self@.contains(self.keys@[0]));
            }
        }
        self.keys.len() == 0
    }
}

/// What a key means for the shortcut.
#[derive(Clone, Copy, Debug, PartialEq, Eq, Structural)]
pub enum SwitchAction {
    /// The key is not part of the shortcut.
    Unrelated,
    /// The key is part of the shortcut, which is not complete.
    ForwardCurrent,
    /// The key completes the shortcut.
    Activate,
    /// The shortcut was completed before, and its keys are not all up yet.
    RoutePrevious,
}

/// The keys of the shortcut that are down after a key has gone down or up.
pub open spec fn pressed_after(pressed: Set<Key>, event: KeyEvent) -> Set<Key> {
    if event.down {
        pressed.insert(event.key)
    } else {
        pressed.remove(event.key)
    }
}

/// What a key means for the shortcut, given which of its keys were down before
/// and whether it has been completed since they were last all up.
pub open spec fn switch_action(
    event: KeyEvent,
    switch_keys: Set<Key>,
    pressed: Set<Key>,
    changed: bool,
) -> SwitchAction {
    if !switch_keys.contains(event.key) {
        SwitchAction::Unrelated
    } else if changed {
        SwitchAction::RoutePrevious
    } else if pressed_after(pressed, event).len() == switch_keys.len() {
        SwitchAction::Activate
    } else {
        SwitchAction::ForwardCurrent
    }
}

/// The keys of the shortcut that are down, and whether it has been completed
/// since they were last all up, after a key.
pub open spec fn chord_after(
    event: KeyEvent,
    switch_keys: Set<Key>,
    pressed: Set<Key>,
    changed: bool,
) -> (Set<Key>, bool) {
    if !switch_keys.contains(event.key) {
        (pressed, changed)
    } else {
        let after = pressed_after(pressed, event);
        let still = if changed {
            after != Set::<Key>::empty()
        } else {
            after.len() == switch_keys.len()
        };
        (after, still)
    }
}

/// Follow the shortcut by one key.
///
/// Repeats and releases after the shortcut still belong to the destination
/// where it began. A repeat in particular never cycles through destinations
/// while the chord remains held.
pub fn update_switch_chord(
    event: KeyEvent,
    switch_keys: &KeySet,
    pressed_keys: &mut KeySet,
    changed: &mut bool,
) -> (action: SwitchAction)
    requires
        switch_keys.wf(),
        old(pressed_keys).wf(),
    ensures
        final(pressed_keys).wf(),
        action == switch_action(event, switch_keys@, old(pressed_keys)@, *old(changed)),
        (final(pressed_keys)@, *final(changed)) == chord_after(
            event,
            switch_keys@,
            old(pressed_keys)@,
            *old(changed),
        ),
{
    if !switch_keys.contains(event.key) {
        return SwitchAction::Unrelated;
    }
    if event.down {
        pressed_keys.insert(event.key);
    } else {
        pressed_keys.remove(event.key);
    }
    if *changed {
        if pressed_keys.is_empty() {
            *changed = false;
        }
        SwitchAction::RoutePrevious
    } else if pressed_keys.len() == switch_keys.len() {
        *changed = true;
        SwitchAction::Activate
    } else {
        SwitchAction::ForwardCurrent
    }
}

/// What is always true of a shortcut in progress: only its own keys are down,
/// at least one of them while it counts as completed, and not all of them while
/// it does not.
pub open spec fn chord_wf(switch_keys: Set<Key>, pressed: Set<Key>, changed: bool) -> bool {
    &&& pressed.subset_of(switch_keys)
    &&& if changed {
        pressed != Set::<Key>::empty()
    } else {
        pressed == switch_keys ==> switch_keys == Set::<Key>::empty()
    }
}

/// Every key keeps the shortcut in order.
pub proof fn chords_stay_in_order(
    event: KeyEvent,
    switch_keys: Set<Key>,
    pressed: Set<Key>,
    changed: bool,
)
    requires
        switch_keys.finite(),
        chord_wf(switch_keys, pressed, changed),
    ensures
        ({
            let (after, still) = chord_after(event, switch_keys, pressed, changed);
            chord_wf(switch_keys, after, still)
        }),
{
    if switch_keys.contains(event.key) {
        let after = pressed_after(pressed, event);
        assert(after.subset_of(switch_keys));
        if !changed {
            completed_when_all_are_down(event, switch_keys, pressed);
            if after == switch_keys {
                assert(after.contains(event.key));
            }
        }
    }
}

/// The shortcut is complete exactly when all its keys are down.
pub proof fn completed_when_all_are_down(
    event: KeyEvent,
    switch_keys: Set<Key>,
    pressed: Set<Key>,
)
    requires
        switch_keys.finite(),
        pressed.subset_of(switch_keys),
        switch_keys.contains(event.key),
    ensures
        switch_action(event, switch_keys, pressed, false) == SwitchAction::Activate
            <==> pressed_after(pressed, event) == switch_keys,
{
    let after = pressed_after(pressed, event);
    assert(after.subset_of(switch_keys));
    if after.len() == switch_keys.len() {
        vstd::set_lib::lemma_len_subset(after, switch_keys);
        vstd::set_lib::lemma_subset_equality(after, switch_keys);
    }
}

/// The state of a shortcut after some keys.
pub open spec fn chord_after_all(
    events: Seq<KeyEvent>,
    switch_keys: Set<Key>,
    pressed: Set<Key>,
    changed: bool,
) -> (Set<Key>, bool)
    decreases events.len(),
{
    if events.len() == 0 {
        (pressed, changed)
    } else {
        let (before, still) = chord_after_all(events.drop_last(), switch_keys, pressed, changed);
        chord_after(events.last(), switch_keys, before, still)
    }
}

/// Once the shortcut has been completed it does not complete again until all of
/// its keys have been up: as long as some are down after each key, every key of
/// the shortcut still belongs to the destination where it began.
pub proof fn held_chords_complete_once(
    events: Seq<KeyEvent>,
    next: KeyEvent,
    switch_keys: Set<Key>,
    pressed: Set<Key>,
)
    requires
        forall|i: int|
            0 < i <= events.len() ==> (#[trigger] chord_after_all(
                events.take(i),
                switch_keys,
                pressed,
                true,
            )).0 != Set::<Key>::empty(),
        switch_keys.contains(next.key),
    ensures
        ({
            let (after, still) = chord_after_all(events, switch_keys, pressed, true);
            &&& still
            &&& switch_action(next, switch_keys, after, still) == SwitchAction::RoutePrevious
        }),
    decreases events.len(),
{
    if events.len() > 0 {
        let earlier = events.drop_last();
        assert forall|i: int| 0 < i <= earlier.len() implies (#[trigger] chord_after_all(
            earlier.take(i),
            switch_keys,
            pressed,
            true,
        )).0 != Set::<Key>::empty() by {
            assert(earlier.take(i) =~= events.take(i));
        }
        held_chords_complete_once(earlier, next, switch_keys, pressed);
        assert(events.take(events.len() as int) =~= events);
        assert(chord_after_all(events.take(events.len() as int), switch_keys, pressed, true).0
            != Set::<Key>::empty());
    }
}

/// Keys that are not part of the shortcut leave it as it is.
pub proof fn other_keys_leave_the_chord_alone(
    event: KeyEvent,
    switch_keys: Set<Key>,
    pressed: Set<Key>,
    changed: bool,
)
    requires
        !switch_keys.contains(event.key),
    ensures
        switch_action(event, switch_keys, pressed, changed) == SwitchAction::Unrelated,
        chord_after(event, switch_keys, pressed, changed) == (pressed, changed),
{
}

/// Whether a key is down after some keys have gone down and up: what was last heard
/// of it is that it went down.
pub open spec fn is_down_after(events: Seq<KeyEvent>, key: Key) -> bool
    decreases events.len(),
{
    if events.len() == 0 {
        false
    } else if events.last().key == key {
        events.last().down
    } else {
        is_down_after(events.drop_last(), key)
    }
}

/// Whether all of some keys are down at once after some keys.
pub open spec fn all_down_after(events: Seq<KeyEvent>, keys: Set<Key>) -> bool {
    forall|key: Key| #[trigger] keys.contains(key) ==> is_down_after(events, key)
}

/// Whether one of some keys is down after some keys.
pub open spec fn some_down_after(events: Seq<KeyEvent>, keys: Set<Key>) -> bool {
    exists|key: Key| #[trigger] keys.contains(key) && is_down_after(events, key)
}

/// Whether all of some keys have been down at once since they were last all up.
pub open spec fn completed_by(events: Seq<KeyEvent>, keys: Set<Key>) -> bool {
    exists|m: int|
        0 < m <= events.len() && #[trigger] all_down_after(events.take(m), keys) && forall|l: int|
            m <= l <= events.len() ==> #[trigger] some_down_after(events.take(l), keys)
}

proof fn lemma_pressed_follow(events: Seq<KeyEvent>, switch_keys: Set<Key>)
    requires
        switch_keys.finite(),
    ensures
        ({
            let (pressed, changed) = chord_after_all(events, switch_keys, Set::empty(), false);
            &&& chord_wf(switch_keys, pressed, changed)
            &&& forall|key: Key| #[trigger]
                pressed.contains(key) <==> switch_keys.contains(key) && is_down_after(events, key)
        }),
    decreases events.len(),
{
    if events.len() > 0 {
        let (before, still) = chord_after_all(
            events.drop_last(),
            switch_keys,
            Set::empty(),
            false,
        );
        lemma_pressed_follow(events.drop_last(), switch_keys);
        chords_stay_in_order(events.last(), switch_keys, before, still);
    }
}

proof fn lemma_completed_goes_on(events: Seq<KeyEvent>, keys: Set<Key>)
    requires
        events.len() > 0,
    ensures
        completed_by(events, keys) <==> some_down_after(events, keys) && (all_down_after(
            events,
            keys,
        ) || completed_by(events.drop_last(), keys)),
{
    let n = events.len() as int;
    let earlier = events.drop_last();
    assert(events.take(n) =~= events);
    assert forall|l: int| 0 <= l < n implies #[trigger] events.take(l) == earlier.take(l) by {
        assert(events.take(l) =~= earlier.take(l));
    }
    if completed_by(events, keys) {
        let m = choose|m: int|
            0 < m <= events.len() && #[trigger] all_down_after(events.take(m), keys) && forall|
                l: int,
            |
                m <= l <= events.len() ==> #[trigger] some_down_after(events.take(l), keys);
        assert(some_down_after(events.take(n), keys));
        if m < n {
            assert(all_down_after(earlier.take(m), keys));
            assert forall|l: int| m <= l <= earlier.len() implies #[trigger] some_down_after(
                earlier.take(l),
                keys,
            ) by {
                assert(some_down_after(events.take(l), keys));
            }
        }
    }
    if some_down_after(events, keys) {
        if all_down_after(events, keys) {
            assert(all_down_after(events.take(n), keys));
        } else if completed_by(earlier, keys) {
            let m = choose|m: int|
                0 < m <= earlier.len() && #[trigger] all_down_after(earlier.take(m), keys)
                    && forall|l: int|
                    m <= l <= earlier.len() ==> #[trigger] some_down_after(earlier.take(l), keys);
            assert(all_down_after(events.take(m), keys));
            assert forall|l: int| m <= l <= events.len() implies #[trigger] some_down_after(
                events.take(l),
                keys,
            ) by {
                if l < n {
                    assert(some_down_after(earlier.take(l), keys));
                }
            }
        }
    }
}

/// The shortcut follows the keys that are typed: a key of it counts as down exactly
/// while it is, and the shortcut as completed from the moment on at which all its
/// keys are down at once until the moment at which all are up again.
pub proof fn chords_follow_the_keys(events: Seq<KeyEvent>, switch_keys: Set<Key>)
    requires
        switch_keys.finite(),
        switch_keys != Set::<Key>::empty(),
    ensures
        ({
            let (pressed, changed) = chord_after_all(events, switch_keys, Set::empty(), false);
            &&& forall|key: Key| #[trigger]
                pressed.contains(key) <==> switch_keys.contains(key) && is_down_after(events, key)
            &&& changed <==> completed_by(events, switch_keys)
        }),
    decreases events.len(),
{
    lemma_pressed_follow(events, switch_keys);
    let (pressed, changed) = chord_after_all(events, switch_keys, Set::empty(), false);
    if events.len() > 0 {
        let earlier = events.drop_last();
        chords_follow_the_keys(earlier, switch_keys);
        lemma_completed_goes_on(events, switch_keys);
        let (before, still) = chord_after_all(earlier, switch_keys, Set::empty(), false);
        assert(some_down_after(events, switch_keys) <==> pressed != Set::<Key>::empty()) by {
            if some_down_after(events, switch_keys) {
                let key = choose|key: Key| #[trigger]
                    switch_keys.contains(key) && is_down_after(events, key);
                assert(pressed.contains(key));
            } else {
                assert(pressed =~= Set::<Key>::empty());
            }
        }
        assert(all_down_after(events, switch_keys) <==> pressed == switch_keys) by {
            if all_down_after(events, switch_keys) {
                assert(pressed =~= switch_keys);
            }
        }
        if switch_keys.contains(events.last().key) && !still {
            lemma_pressed_follow(earlier, switch_keys);
            completed_when_all_are_down(events.last(), switch_keys, before);
        }
    }
}

/// What a key means follows from the keys that were typed before: it completes the
/// shortcut where it takes down the last of its keys, it belongs to a completed
/// shortcut until all keys of that have been up, and otherwise it is a key like
/// any other or one of a shortcut still to be completed.
pub proof fn actions_follow_the_keys(
    events: Seq<KeyEvent>,
    next: KeyEvent,
    switch_keys: Set<Key>,
)
    requires
        switch_keys.finite(),
        switch_keys != Set::<Key>::empty(),
    ensures
        ({
            let (pressed, changed) = chord_after_all(events, switch_keys, Set::empty(), false);
            let action = switch_action(next, switch_keys, pressed, changed);
            let part = switch_keys.contains(next.key);
            let late = completed_by(events, switch_keys);
            let all = all_down_after(events.push(next), switch_keys);
            &&& action == SwitchAction::Unrelated <==> !part
            &&& action == SwitchAction::RoutePrevious <==> part && late
            &&& action == SwitchAction::Activate <==> part && !late && all
            &&& action == SwitchAction::ForwardCurrent <==> part && !late && !all
        }),
{
    chords_follow_the_keys(events, switch_keys);
    chords_follow_the_keys(events.push(next), switch_keys);
    lemma_pressed_follow(events, switch_keys);
    lemma_pressed_follow(events.push(next), switch_keys);
    let (pressed, changed) = chord_after_all(events, switch_keys, Set::empty(), false);
    assert(events.push(next).drop_last() =~= events);
    let (after, _) = chord_after_all(events.push(next), switch_keys, Set::empty(), false);
    if switch_keys.contains(next.key) {
        completed_when_all_are_down(next, switch_keys, pressed);
        assert(all_down_after(events.push(next), switch_keys) <==> after == switch_keys) by {
            if all_down_after(events.push(next), switch_keys) {
                assert(after =~= switch_keys);
            }
        }
    }
}

} // verus!
