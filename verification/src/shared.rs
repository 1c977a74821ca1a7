//! The one logical keyboard and mouse that all remote devices share.
use vstd::multiset::Multiset;
use vstd::prelude::*;

use crate::error::InputError;
use crate::event::{Key, Keyboard, RelAxis};
use crate::keymap::{native_key, native_key_of, NativeKey};

verus! {

/// One call of an [`InputSink`], with the error that came back, if one did.
#[derive(Clone, Copy, Debug, PartialEq, Eq, Structural)]
pub enum SinkCall {
    Key { key: NativeKey, down: bool, error: Option<InputError> },
    Relative { axis: RelAxis, value: i32, error: Option<InputError> },
    Lock { accepted: bool },
}

/// The error of a failed call.
pub open spec fn failure(result: Result<(), InputError>) -> Option<InputError> {
    match result {
        Ok(_) => None,
        Err(error) => Some(error),
    }
}

/// The calls of a sink, oldest first.
pub type History = Seq<SinkCall>;

/// Where inputs go: a desktop, or a recorder in its place.
///
/// `calls` is the history of a sink. It exists in proofs only: nothing ever asks
/// a running sink for it. Whoever implements the trait keeps it by doing nothing
/// else than counting each call once; no result is promised.
pub trait InputSink {
    /// All calls so far.
    spec fn calls(&self) -> History;

    /// Take a key down or up.
    fn key(&mut self, key: NativeKey, down: bool) -> (outcome: Result<(), InputError>)
        ensures
            final(self).calls() == old(self).calls().push(
                SinkCall::Key { key, down, error: failure(outcome) },
            ),
    ;

    /// Move an axis.
    fn relative(&mut self, axis: RelAxis, value: i32) -> (outcome: Result<(), InputError>)
        ensures
            final(self).calls() == old(self).calls().push(
                SinkCall::Relative { axis, value, error: failure(outcome) },
            ),
    ;

    /// Lock the workstation, and tell whether that worked.
    fn lock_workstation(&mut self) -> (accepted: bool)
        ensures
            final(self).calls() == old(self).calls().push(SinkCall::Lock { accepted }),
    ;
}

/// Who holds what, and what the sink has been asked so far.
#[verifier::ext_equal]
pub struct SharedView {
    /// For each key, how many holders it has.
    pub owners: Multiset<NativeKey>,
    /// All calls of the sink.
    pub calls: Seq<SinkCall>,
}

/// The sink of all devices, with the holders of each key.
///
/// Windows has one logical keyboard and mouse state across all remote devices.
/// Counting the holders also covers different names for the same Windows key.
pub struct SharedInput<S: InputSink> {
    sink: S,
    owners: Vec<NativeKey>,
}

impl<S: InputSink> View for SharedInput<S> {
    type V = SharedView;

    closed spec fn view(&self) -> SharedView {
        SharedView { owners: self.owners@.to_multiset(), calls: self.sink.calls() }
    }
}

/// One more holder of a key. The sink is told where it is the first; if the
/// sink then fails, nobody holds the key.
pub open spec fn pressed(
    before: SharedView,
    key: NativeKey,
    after: SharedView,
    result: Result<(), InputError>,
) -> bool {
    if before.owners.count(key) > 0 {
        &&& result is Ok
        &&& after == SharedView { owners: before.owners.insert(key), ..before }
    } else {
        let calls = before.calls.push(SinkCall::Key { key, down: true, error: failure(result) });
        after == SharedView {
            owners: if result is Ok {
                before.owners.insert(key)
            } else {
                before.owners
            },
            calls,
        }
    }
}

/// One holder less. The sink is told where it was the last; if the sink then
/// fails, the key stays held.
pub open spec fn released(
    before: SharedView,
    key: NativeKey,
    after: SharedView,
    result: Result<(), InputError>,
) -> bool {
    if before.owners.count(key) == 1 {
        let calls = before.calls.push(SinkCall::Key { key, down: false, error: failure(result) });
        after == SharedView {
            owners: if result is Ok {
                before.owners.remove(key)
            } else {
                before.owners
            },
            calls,
        }
    } else {
        &&& result is Ok
        &&& after == SharedView { owners: before.owners.remove(key), ..before }
    }
}

/// The left Meta key.
pub open spec fn left_meta() -> NativeKey {
    native_key_of(Key::Key(Keyboard::LeftMeta))->0
}

/// The right Meta key.
pub open spec fn right_meta() -> NativeKey {
    native_key_of(Key::Key(Keyboard::RightMeta))->0
}

/// Either Meta key.
pub open spec fn is_meta(key: NativeKey) -> bool {
    key == left_meta() || key == right_meta()
}

/// The Meta keys that somebody holds.
pub open spec fn held_metas(owners: Multiset<NativeKey>) -> Seq<NativeKey> {
    (if owners.count(left_meta()) > 0 {
        seq![left_meta()]
    } else {
        Seq::empty()
    }) + (if owners.count(right_meta()) > 0 {
        seq![right_meta()]
    } else {
        Seq::empty()
    })
}

/// The calls that send each of some keys in turn, all of them accepted.
pub open spec fn all_sent(keys: Seq<NativeKey>, down: bool) -> Seq<SinkCall> {
    keys.map_values(|key: NativeKey| SinkCall::Key { key, down, error: None })
}

/// Sending each of some keys in turn, up to the first that fails.
pub open spec fn sent_in_turn(
    before: Seq<SinkCall>,
    keys: Seq<NativeKey>,
    down: bool,
    after: Seq<SinkCall>,
    result: Result<(), InputError>,
) -> bool {
    match result {
        Ok(()) => after == before + all_sent(keys, down),
        Err(error) => {
            let sent = after.len() - before.len() - 1;
            &&& 0 <= sent < keys.len()
            &&& after == (before + all_sent(keys.take(sent), down)).push(
                SinkCall::Key { key: keys[sent], down, error: Some(error) },
            )
        },
    }
}

/// The calls up to and with the attempt to lock.
pub open spec fn calls_to_lock(before: SharedView, accepted: bool) -> Seq<SinkCall> {
    (before.calls + all_sent(held_metas(before.owners), false)).push(SinkCall::Lock { accepted })
}

/// An attempt to lock the workstation while a Meta key is held: the Meta keys
/// are let up, the lock is tried, and where it is refused they go down again.
/// Once the lock is accepted nobody holds a Meta key any more. Without a held
/// Meta key nothing is attempted.
pub open spec fn lock_attempted(
    before: SharedView,
    after: SharedView,
    result: Result<bool, InputError>,
) -> bool {
    let metas = held_metas(before.owners);
    if metas.len() == 0 {
        result == Ok::<bool, InputError>(false) && after == before
    } else {
        match result {
            Ok(true) => {
                &&& after.calls == calls_to_lock(before, true)
                &&& forall|key: NativeKey| #[trigger]
                    after.owners.count(key) == if is_meta(key) {
                        0
                    } else {
                        before.owners.count(key)
                    }
            },
            Ok(false) => {
                &&& after.owners == before.owners
                &&& after.calls == calls_to_lock(before, false) + all_sent(metas, true)
            },
            Err(error) => {
                &&& after.owners == before.owners
                &&& {
                    ||| sent_in_turn(before.calls, metas, false, after.calls, Err(error))
                    ||| sent_in_turn(
                        calls_to_lock(before, false),
                        metas,
                        true,
                        after.calls,
                        Err(error),
                    )
                }
            },
        }
    }
}

/// The left Meta key.
fn left_meta_key() -> (key: NativeKey)
    ensures
        key == left_meta(),
{
    native_key(Key::Key(Keyboard::LeftMeta)).unwrap()
}

/// The right Meta key.
fn right_meta_key() -> (key: NativeKey)
    ensures
        key == right_meta(),
{
    native_key(Key::Key(Keyboard::RightMeta)).unwrap()
}

impl<S: InputSink> SharedInput<S> {
    /// A sink that nobody holds a key of.
    pub fn new(sink: S) -> (shared: Self)
        ensures
            shared@ == (SharedView { owners: Multiset::empty(), calls: sink.calls() }),
    {
        let shared = SharedInput { sink, owners: Vec::new() };
        proof {
            broadcast use vstd::seq_lib::group_to_multiset_ensures;

            assert(shared@.owners =~= Multiset::empty());
        }
        shared
    }

    /// The sink.
    pub fn sink(&self) -> (sink: &S)
        ensures
            sink.calls() == self@.calls,
    {
        &self.sink
    }

    /// How many holders a key has.
    pub fn holders(&self, key: NativeKey) -> (count: usize)
        ensures
            count == self@.owners.count(key),
    {
        let mut count: usize = 0;
        let mut i: usize = 0;
        proof {
            broadcast use vstd::seq_lib::group_to_multiset_ensures;

            assert(self.owners@.take(0) =~= Seq::<NativeKey>::empty());
        }
        while i < self.owners.len()
            invariant
                i <= self.owners@.len(),
                count <= i,
                count == self.owners@.take(i as int).to_multiset().count(key),
            decreases self.owners@.len() - i,
        {
            proof {
                broadcast use vstd::seq_lib::group_to_multiset_ensures;

                assert(self.owners@.take(i + 1) =~= self.owners@.take(i as int).push(
                    self.owners@[i as int],
                ));
            }
            if self.owners[i] == key {
                count += 1;
            }
            i += 1;
        }
        assert(self.owners@.take(i as int) =~= self.owners@);
        count
    }

    /// Whether nobody holds anything.
    pub fn is_idle(&self) -> (idle: bool)
        ensures
            idle == (self@.owners == Multiset::<NativeKey>::empty()),
    {
        proof {
            broadcast use vstd::seq_lib::group_to_multiset_ensures;
            broadcast use vstd::multiset::group_multiset_properties;

            assert(self.owners@.len() == self@.owners.len());
            if self.owners@.len() == 0 {
                assert(self@.owners =~= Multiset::empty());
            } else {
                assert(self@.owners.count(self.owners@[0]) > 0);
            }
        }
        self.owners.len() == 0
    }

    /// Let one more device hold a key.
    pub fn press(&mut self, key: NativeKey) -> (result: Result<(), InputError>)
        ensures
            pressed(old(self)@, key, final(self)@, result),
    {
        let count = self.holders(key);
        if count == 0 {
            let outcome = self.sink.key(key, true);
            if outcome.is_err() {
                return outcome;
            }
        }
        proof {
            broadcast use vstd::seq_lib::group_to_multiset_ensures;

        }
        self.owners.push(key);
        Ok(())
    }

    /// Let one device less hold a key.
    pub fn release(&mut self, key: NativeKey) -> (result: Result<(), InputError>)
        ensures
            released(old(self)@, key, final(self)@, result),
    {
        let count = self.holders(key);
        if count == 1 {
            let outcome = self.sink.key(key, false);
            if outcome.is_err() {
                return outcome;
            }
        }
        self.forget(key);
        Ok(())
    }

    /// Drop one holder of a key without telling the sink.
    pub fn forget(&mut self, key: NativeKey)
        ensures
            final(self)@ == (SharedView { owners: old(self)@.owners.remove(key), ..old(self)@ }),
    {
        let ghost before = self.owners@;
        let mut i: usize = 0;
        while i < self.owners.len()
            invariant
                i <= self.owners@.len(),
                self.owners@ == before,
                forall|j: int| 0 <= j < i ==> before[j] != key,
                self@ == old(self)@,
                old(self)@.owners == before.to_multiset(),
            decreases self.owners@.len() - i,
        {
            if self.owners[i] == key {
                proof {
                    broadcast use vstd::seq_lib::group_to_multiset_ensures;

                }
                self.owners.remove(i);
                return;
            }
            i += 1;
        }
        proof {
            broadcast use vstd::seq_lib::group_to_multiset_ensures;

            assert(!before.contains(key));
            assert(old(self)@.owners.remove(key) =~= old(self)@.owners);
        }
    }

    /// Drop all holders of a key without telling the sink.
    fn forget_all(&mut self, key: NativeKey)
        ensures
            final(self)@.calls == old(self)@.calls,
            forall|other: NativeKey| #[trigger]
                final(self)@.owners.count(other) == if other == key {
                    0
                } else {
                    old(self)@.owners.count(other)
                },
    {
        let mut count = self.holders(key);
        while count > 0
            invariant
                count == self@.owners.count(key),
                self@.calls == old(self)@.calls,
                forall|other: NativeKey|
                    other != key ==> #[trigger] self@.owners.count(other) == old(
                        self,
                    )@.owners.count(other),
            decreases count,
        {
            self.forget(key);
            count -= 1;
        }
    }

    /// Take each of some keys down or up, up to the first that fails.
    fn send_in_turn(&mut self, keys: &Vec<NativeKey>, down: bool) -> (result: Result<
        (),
        InputError,
    >)
        ensures
            final(self)@.owners == old(self)@.owners,
            sent_in_turn(old(self)@.calls, keys@, down, final(self)@.calls, result),
    {
        let ghost before = self@.calls;
        let mut i: usize = 0;
        assert(before + all_sent(keys@.take(0), down) =~= before);
        while i < keys.len()
            invariant
                i <= keys@.len(),
                self@.owners == old(self)@.owners,
                before == old(self)@.calls,
                self@.calls == before + all_sent(keys@.take(i as int), down),
            decreases keys@.len() - i,
        {
            let outcome = self.sink.key(keys[i], down);
            if outcome.is_err() {
                return outcome;
            }
            i += 1;
            assert(self@.calls =~= before + all_sent(keys@.take(i as int), down));
        }
        assert(keys@.take(i as int) =~= keys@);
        Ok(())
    }

    /// Lock the workstation if a Meta key is held, and tell whether that was
    /// done.
    ///
    /// The lock does not need the Meta key itself. It is let up while the
    /// normal desktop is still active, so the desktop transition cannot strand
    /// it. If the lock is refused, the keys go down again.
    pub fn try_lock_workstation(&mut self) -> (result: Result<bool, InputError>)
        ensures
            lock_attempted(old(self)@, final(self)@, result),
    {
        let left = left_meta_key();
        let right = right_meta_key();
        let mut metas: Vec<NativeKey> = Vec::new();
        if self.holders(left) > 0 {
            metas.push(left);
        }
        if self.holders(right) > 0 {
            metas.push(right);
        }
        assert(metas@ =~= held_metas(self@.owners));
        if metas.len() == 0 {
            return Ok(false);
        }
        match self.send_in_turn(&metas, false) {
            Ok(()) => {},
            Err(error) => {
                return Err(error);
            },
        }
        if self.sink.lock_workstation() {
            self.forget_all(left);
            self.forget_all(right);
            return Ok(true);
        }
        match self.send_in_turn(&metas, true) {
            Ok(()) => {},
            Err(error) => {
                return Err(error);
            },
        }
        Ok(false)
    }

    /// Take a key down once more without a new holder.
    pub(crate) fn repeat_key(&mut self, key: NativeKey) -> (result: Result<(), InputError>)
        ensures
            final(self)@ == (SharedView {
                calls: old(self)@.calls.push(SinkCall::Key { key, down: true, error: failure(result) }),
                ..old(self)@
            }),
    {
        self.sink.key(key, true)
    }

    /// Move an axis.
    pub(crate) fn relative(&mut self, axis: RelAxis, value: i32) -> (result: Result<
        (),
        InputError,
    >)
        ensures
            final(self)@ == (SharedView {
                calls: old(self)@.calls.push(SinkCall::Relative { axis, value, error: failure(result) }),
                ..old(self)@
            }),
    {
        self.sink.relative(axis, value)
    }
}

/// A key is pressed some times and then let up as often, each time with success.
pub open spec fn pressed_and_released(
    states: Seq<SharedView>,
    results: Seq<Result<(), InputError>>,
    key: NativeKey,
    times: int,
) -> bool {
    &&& states.len() == 2 * times + 1
    &&& results.len() == 2 * times
    &&& forall|i: int| 0 <= i < 2 * times ==> (#[trigger] results[i]) is Ok
    &&& forall|i: int|
        0 <= i < times ==> #[trigger] pressed(states[i], key, states[i + 1], results[i])
    &&& forall|i: int|
        times <= i < 2 * times ==> #[trigger] released(states[i], key, states[i + 1], results[i])
}

proof fn lemma_pressed_so_far(
    states: Seq<SharedView>,
    results: Seq<Result<(), InputError>>,
    key: NativeKey,
    times: int,
    so_far: int,
)
    requires
        pressed_and_released(states, results, key, times),
        states[0].owners.count(key) == 0,
        0 <= so_far <= times,
    ensures
        forall|other: NativeKey| #[trigger]
            states[so_far].owners.count(other) == if other == key {
                so_far as nat
            } else {
                states[0].owners.count(other)
            },
        states[so_far].calls == if so_far == 0 {
            states[0].calls
        } else {
            states[0].calls.push(SinkCall::Key { key, down: true, error: None })
        },
    decreases so_far,
{
    if so_far > 0 {
        let i = so_far - 1;
        lemma_pressed_so_far(states, results, key, times, i);
        assert(pressed(states[i], key, states[i + 1], results[i]));
        assert(results[i] is Ok);
        assert(states[i].owners.count(key) == i);
    }
}

proof fn lemma_released_so_far(
    states: Seq<SharedView>,
    results: Seq<Result<(), InputError>>,
    key: NativeKey,
    times: int,
    so_far: int,
)
    requires
        pressed_and_released(states, results, key, times),
        states[0].owners.count(key) == 0,
        times >= 1,
        0 <= so_far <= times,
    ensures
        forall|other: NativeKey| #[trigger]
            states[times + so_far].owners.count(other) == if other == key {
                (times - so_far) as nat
            } else {
                states[0].owners.count(other)
            },
        ({
            let down = states[0].calls.push(SinkCall::Key { key, down: true, error: None });
            states[times + so_far].calls == if so_far < times {
                down
            } else {
                down.push(SinkCall::Key { key, down: false, error: None })
            }
        }),
    decreases so_far,
{
    if so_far == 0 {
        lemma_pressed_so_far(states, results, key, times, times);
    } else {
        let i = times + so_far - 1;
        lemma_released_so_far(states, results, key, times, so_far - 1);
        assert(released(states[i], key, states[i + 1], results[i]));
        assert(results[i] is Ok);
        assert(states[i].owners.count(key) == times - (so_far - 1));
    }
}

/// However often a key that nobody holds is pressed, and then let up as often,
/// the desktop sees one press, at the start, and one release, at the end. The
/// holders are then as before, and letting it up once more does nothing.
pub proof fn shared_keys_go_down_and_up_once(
    states: Seq<SharedView>,
    results: Seq<Result<(), InputError>>,
    key: NativeKey,
    times: int,
)
    requires
        pressed_and_released(states, results, key, times),
        states[0].owners.count(key) == 0,
        times >= 1,
    ensures
        forall|i: int|
            1 <= i < 2 * times ==> (#[trigger] states[i]).calls == states[0].calls.push(
                SinkCall::Key { key, down: true, error: None },
            ),
        states.last().calls == states[0].calls.push(
            SinkCall::Key { key, down: true, error: None },
        ).push(SinkCall::Key { key, down: false, error: None }),
        states.last().owners == states[0].owners,
        forall|after: SharedView, result: Result<(), InputError>| #[trigger]
            released(states.last(), key, after, result) ==> result is Ok && after == states.last(),
{
    assert forall|i: int| 1 <= i < 2 * times implies (#[trigger] states[i]).calls
        == states[0].calls.push(SinkCall::Key { key, down: true, error: None }) by {
        if i <= times {
            lemma_pressed_so_far(states, results, key, times, i);
        } else {
            lemma_released_so_far(states, results, key, times, i - times);
        }
    }
    lemma_released_so_far(states, results, key, times, times);
    let last = states.last();
    assert(last.owners =~= states[0].owners);
    assert forall|after: SharedView, result: Result<(), InputError>| #[trigger]
        released(last, key, after, result) implies result is Ok && after == last by {
        assert(last.owners.remove(key) =~= last.owners);
        assert(after =~= last);
    }
}

/// Only the first holder of a key takes it down on the desktop, and only the last
/// one lets it up: anybody else just counts. What the desktop refuses does not
/// count, so a press that fails is held by nobody, and a release that fails leaves
/// its holder.
pub proof fn only_the_first_and_last_holder_reach_the_desktop(
    before: SharedView,
    key: NativeKey,
    after: SharedView,
    result: Result<(), InputError>,
    other: NativeKey,
)
    ensures
        pressed(before, key, after, result) ==> {
            &&& other != key ==> after.owners.count(other) == before.owners.count(other)
            &&& before.owners.count(key) > 0 ==> result is Ok && after.calls == before.calls
            &&& before.owners.count(key) == 0 ==> {
                &&& after.calls.len() == before.calls.len() + 1
                &&& after.calls.drop_last() == before.calls
                &&& after.calls.last() matches SinkCall::Key { key: sent, down, error }
                &&& sent == key && down
                &&& match result {
                    Ok(_) => error is None,
                    Err(reason) => error == Some(reason),
                }
            }
            &&& after.owners.count(key) == before.owners.count(key) + if result is Ok {
                1int
            } else {
                0int
            }
        },
        released(before, key, after, result) ==> {
            &&& other != key ==> after.owners.count(other) == before.owners.count(other)
            &&& before.owners.count(key) != 1 ==> result is Ok && after.calls == before.calls
            &&& before.owners.count(key) == 1 ==> {
                &&& after.calls.len() == before.calls.len() + 1
                &&& after.calls.drop_last() == before.calls
                &&& after.calls.last() matches SinkCall::Key { key: sent, down, error }
                &&& sent == key && !down
                &&& match result {
                    Ok(_) => error is None,
                    Err(reason) => error == Some(reason),
                }
            }
            &&& after.owners.count(key) == if result is Ok && before.owners.count(key) > 0 {
                before.owners.count(key) - 1
            } else {
                before.owners.count(key) as int
            }
        },
{
    if pressed(before, key, after, result) && before.owners.count(key) == 0 {
        assert(after.calls.drop_last() =~= before.calls);
    }
    if released(before, key, after, result) && before.owners.count(key) == 1 {
        assert(after.calls.drop_last() =~= before.calls);
    }
}

/// A call that took or let go of a key on the desktop.
pub open spec fn accepted_key(key: NativeKey, down: bool) -> SinkCall {
    SinkCall::Key { key, down, error: None }
}

/// Whether all has gone as planned up to a key that failed, and nothing was sent
/// after that.
pub open spec fn fails_within(
    before: Seq<SinkCall>,
    planned: Seq<SinkCall>,
    after: Seq<SinkCall>,
    error: InputError,
) -> bool {
    let last = after.len() - 1;
    &&& before.len() <= last < planned.len()
    &&& after.take(last) == planned.take(last)
    &&& planned[last] matches SinkCall::Key { key, down, .. } && after[last] == (SinkCall::Key {
        key,
        down,
        error: Some(error),
    })
}

/// The workstation is locked only while a Meta key is held. The Meta keys are let up
/// before the lock, the left one first, so that none stays down behind it: once it
/// is locked nobody holds one, and where it is refused they go down again and all
/// holders stay, as they do where a key fails on the way. Nothing else is sent, and
/// no other key changes hands.
pub proof fn locking_lets_go_of_the_meta_keys(
    before: SharedView,
    after: SharedView,
    result: Result<bool, InputError>,
    other: NativeKey,
)
    requires
        lock_attempted(before, after, result),
    ensures
        ({
            let left = native_key_of(Key::Key(Keyboard::LeftMeta))->0;
            let right = native_key_of(Key::Key(Keyboard::RightMeta))->0;
            let holds_left = before.owners.count(left) > 0;
            let holds_right = before.owners.count(right) > 0;
            let lock = SinkCall::Lock { accepted: result == Ok::<bool, InputError>(true) };
            let ups = if holds_left && holds_right {
                seq![accepted_key(left, false), accepted_key(right, false)]
            } else if holds_left {
                seq![accepted_key(left, false)]
            } else {
                seq![accepted_key(right, false)]
            };
            let downs = if holds_left && holds_right {
                seq![accepted_key(left, true), accepted_key(right, true)]
            } else if holds_left {
                seq![accepted_key(left, true)]
            } else {
                seq![accepted_key(right, true)]
            };
            &&& !holds_left && !holds_right ==> result == Ok::<bool, InputError>(false) && after
                == before
            &&& holds_left || holds_right ==> match result {
                Ok(true) => {
                    &&& after.calls == (before.calls + ups).push(lock)
                    &&& after.owners.count(left) == 0
                    &&& after.owners.count(right) == 0
                    &&& other != left && other != right ==> after.owners.count(other)
                        == before.owners.count(other)
                },
                Ok(false) => {
                    &&& after.calls == (before.calls + ups).push(lock) + downs
                    &&& after.owners == before.owners
                },
                Err(error) => {
                    &&& after.owners == before.owners
                    &&& fails_within(
                        before.calls,
                        (before.calls + ups).push(lock) + downs,
                        after.calls,
                        error,
                    )
                },
            }
        }),
{
    let metas = held_metas(before.owners);
    let left = left_meta();
    let right = right_meta();
    let holds_left = before.owners.count(left) > 0;
    let holds_right = before.owners.count(right) > 0;
    if holds_left && holds_right {
        assert(metas =~= seq![left, right]);
        assert(all_sent(metas, false) =~= seq![
            accepted_key(left, false),
            accepted_key(right, false),
        ]);
        assert(all_sent(metas, true) =~= seq![accepted_key(left, true), accepted_key(right, true)]);
    } else if holds_left {
        assert(metas =~= seq![left]);
        assert(all_sent(metas, false) =~= seq![accepted_key(left, false)]);
        assert(all_sent(metas, true) =~= seq![accepted_key(left, true)]);
    } else if holds_right {
        assert(metas =~= seq![right]);
        assert(all_sent(metas, false) =~= seq![accepted_key(right, false)]);
        assert(all_sent(metas, true) =~= seq![accepted_key(right, true)]);
    }
    if metas.len() > 0 && result is Err {
        let planned = calls_to_lock(before, false) + all_sent(metas, true);
        let last = after.calls.len() - 1;
        assert(after.calls.take(last) =~= planned.take(last));
    }
}

} // verus!
