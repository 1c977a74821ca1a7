//! The client: it makes a writer for each device of the server and writes what
//! the server sends.
use vstd::prelude::*;

use crate::device::{
    device_wf, event_can_be_timed, event_written, everything_can_be_timed, failed_releases,
    failed_releases_are_told, final_releases, idle_device, let_up_in_turn, owners_without,
    repeat_served, DeviceView,
};
use crate::error::{InputError, NetworkError};
use crate::event::Event;
use crate::handshake::Version;
use crate::keymap::NativeKey;
use crate::repeat::{timing_of, RepeatConfig, LATEST_MOMENT};
use crate::shared::{failure, InputSink, SharedInput, SharedView, SinkCall};
use crate::update::{DeviceInfo, InfoView, Update, UpdateView};
use crate::writer::Writer;

verus! {

/// Why the client ends.
#[derive(Clone, Copy, Debug, PartialEq, Eq, Structural)]
pub enum Error {
    /// The network failed, or the server sent what makes no sense.
    Network(NetworkError),
    /// A device could not be made.
    Input(InputError),
    /// The two sides speak different versions.
    Version { server: Version, client: Version },
    /// The password was not accepted.
    Auth,
}

/// For how long a warning holds back further ones, in nanoseconds.
pub const WARNING_INTERVAL: u64 = 1_000_000_000;

/// What was being done when an input was rejected.
#[derive(Clone, Copy, Debug, PartialEq, Eq, Structural)]
pub enum Operation {
    Event,
    Repeat,
}

/// A warning that Windows rejected an input, for the log. The connection to the
/// server stays.
#[derive(Clone, Copy, Debug, PartialEq, Eq, Structural)]
pub struct Warning {
    pub id: usize,
    pub operation: Operation,
    /// How many rejected inputs went without a warning since the last one.
    pub suppressed: usize,
    pub error: InputError,
}

/// Warns of rejected inputs, but not too often.
#[derive(Clone, Copy, Debug, PartialEq, Eq, Structural)]
pub struct InputErrorReporter {
    pub last_warning: Option<u64>,
    pub suppressed: usize,
}

impl Default for InputErrorReporter {
    fn default() -> (reporter: Self)
        ensures
            reporter == (InputErrorReporter { last_warning: None, suppressed: 0 }),
    {
        InputErrorReporter { last_warning: None, suppressed: 0 }
    }
}

/// Whether a warning was given so short ago that another is held back.
pub open spec fn warned_recently(reporter: InputErrorReporter, now: u64) -> bool {
    reporter.last_warning matches Some(last) && now < last + WARNING_INTERVAL
}

/// The reporter after a rejected input.
pub open spec fn after_report(reporter: InputErrorReporter, now: u64) -> InputErrorReporter {
    if warned_recently(reporter, now) {
        InputErrorReporter { suppressed: (reporter.suppressed + 1) as usize, ..reporter }
    } else {
        InputErrorReporter { last_warning: Some(now), suppressed: 0 }
    }
}

/// The warning of a rejected input, if there is one.
pub open spec fn warning_of(
    reporter: InputErrorReporter,
    id: usize,
    operation: Operation,
    error: InputError,
    now: u64,
) -> Option<Warning> {
    if warned_recently(reporter, now) {
        None
    } else {
        Some(Warning { id, operation, suppressed: reporter.suppressed, error })
    }
}

impl InputErrorReporter {
    /// Take note of a rejected input.
    pub fn report(&mut self, id: usize, operation: Operation, error: InputError, now: u64) -> (
        warning: Option<Warning>)
        requires
            old(self).suppressed < usize::MAX || !warned_recently(*old(self), now),
        ensures
            *final(self) == after_report(*old(self), now),
            warning == warning_of(*old(self), id, operation, error, now),
    {
        if let Some(last) = self.last_warning {
            if now < last || now - last < WARNING_INTERVAL {
                self.suppressed += 1;
                return None;
            }
        }
        let suppressed: usize = self.suppressed;
        self.suppressed = 0;
        self.last_warning = Some(now);
        Some(Warning { id, operation, suppressed, error })
    }
}

/// The reporter after rejected inputs at some moments.
pub open spec fn after_reports(reporter: InputErrorReporter, moments: Seq<u64>) -> InputErrorReporter
    decreases moments.len(),
{
    if moments.len() == 0 {
        reporter
    } else {
        after_report(after_reports(reporter, moments.drop_last()), moments.last())
    }
}

/// How many of some rejected inputs the warnings account for: each for itself
/// and for those that were held back before it.
pub open spec fn accounted_for(reporter: InputErrorReporter, moments: Seq<u64>) -> int
    decreases moments.len(),
{
    if moments.len() == 0 {
        0
    } else {
        let before = after_reports(reporter, moments.drop_last());
        accounted_for(reporter, moments.drop_last()) + if warned_recently(before, moments.last()) {
            0
        } else {
            1 + before.suppressed
        }
    }
}

/// No rejected input goes uncounted: each is warned of, counted by a later
/// warning, or still waiting for one.
pub proof fn every_rejection_is_counted(moments: Seq<u64>)
    requires
        moments.len() <= usize::MAX,
    ensures
        ({
            let fresh = InputErrorReporter { last_warning: None, suppressed: 0 };
            accounted_for(fresh, moments) + after_reports(fresh, moments).suppressed
                == moments.len()
        }),
    decreases moments.len(),
{
    let fresh = InputErrorReporter { last_warning: None, suppressed: 0 };
    if moments.len() > 0 {
        every_rejection_is_counted(moments.drop_last());
        lemma_accounted_is_not_negative(fresh, moments.drop_last());
    }
}

proof fn lemma_accounted_is_not_negative(reporter: InputErrorReporter, moments: Seq<u64>)
    ensures
        accounted_for(reporter, moments) >= 0,
    decreases moments.len(),
{
    if moments.len() > 0 {
        lemma_accounted_is_not_negative(reporter, moments.drop_last());
    }
}

/// Warnings are at least the warning interval apart: after a warning none
/// follows before the interval is over, and the next rejected input after that
/// is warned of.
pub proof fn warnings_are_an_interval_apart(
    reporter: InputErrorReporter,
    first: u64,
    held_back: Seq<u64>,
    next: u64,
)
    requires
        !warned_recently(reporter, first),
        forall|i: int|
            0 <= i < held_back.len() ==> (#[trigger] held_back[i]) < first + WARNING_INTERVAL,
    ensures
        warned_recently(after_reports(after_report(reporter, first), held_back), next) <==> next
            < first + WARNING_INTERVAL,
{
    lemma_held_back(reporter, first, held_back);
}

proof fn lemma_held_back(reporter: InputErrorReporter, first: u64, held_back: Seq<u64>)
    requires
        !warned_recently(reporter, first),
        forall|i: int|
            0 <= i < held_back.len() ==> (#[trigger] held_back[i]) < first + WARNING_INTERVAL,
    ensures
        after_reports(after_report(reporter, first), held_back).last_warning == Some(first),
    decreases held_back.len(),
{
    if held_back.len() > 0 {
        let earlier = held_back.drop_last();
        assert forall|i: int| 0 <= i < earlier.len() implies (#[trigger] earlier[i]) < first
            + WARNING_INTERVAL by {
            assert(earlier[i] == held_back[i]);
        }
        lemma_held_back(reporter, first, earlier);
    }
}

/// What is wrong with an update, if anything is, given whether the device that
/// it is about is there.
pub open spec fn refusal(update: UpdateView, known: bool) -> Option<NetworkError> {
    match update {
        UpdateView::CreateDevice { .. } => if known {
            Some(NetworkError::DuplicateDevice)
        } else {
            None
        },
        UpdateView::DestroyDevice { .. } => if known {
            None
        } else {
            Some(NetworkError::MissingDevice)
        },
        UpdateView::Event { .. } => if known {
            None
        } else {
            Some(NetworkError::UnknownDevice)
        },
        UpdateView::Ping => None,
    }
}

/// Refuse an update that makes no sense, given whether the device that it is
/// about is there.
pub fn device_check(update: &Update, known: bool) -> (outcome: Result<(), Error>)
    ensures
        match refusal(update@, known) {
            Some(error) => outcome == Err::<(), Error>(Error::Network(error)),
            None => outcome is Ok,
        },
{
    match update {
        Update::CreateDevice { .. } => if known {
            Err(Error::Network(NetworkError::DuplicateDevice))
        } else {
            Ok(())
        },
        Update::DestroyDevice { .. } => if known {
            Ok(())
        } else {
            Err(Error::Network(NetworkError::MissingDevice))
        },
        Update::Event { .. } => if known {
            Ok(())
        } else {
            Err(Error::Network(NetworkError::UnknownDevice))
        },
        Update::Ping => Ok(()),
    }
}

/// The repeat timing that a device asks for, if it is one.
pub open spec fn timing_asked(info: InfoView) -> Option<RepeatConfig> {
    match (timing_of(500, info.delay), timing_of(33, info.period)) {
        (Some(delay), Some(period)) => Some(RepeatConfig { delay, period }),
        _ => None,
    }
}

/// A device of the server and what its writer holds.
pub type WriterView = (usize, DeviceView);

/// Whether one of some devices has an id.
pub open spec fn has_device(devices: Seq<WriterView>, id: usize) -> bool {
    exists|i: int| 0 <= i < devices.len() && (#[trigger] devices[i]).0 == id
}

/// What is always true of the devices: no id occurs twice.
pub open spec fn distinct_devices(devices: Seq<WriterView>) -> bool {
    forall|i: int, j: int|
        0 <= i < j < devices.len() ==> (#[trigger] devices[i]).0 != (#[trigger] devices[j]).0
}

/// When the timer of a device is next due.
pub open spec fn deadline_of(device: DeviceView) -> Option<u64> {
    match device.repeat {
        Some(repeat) => Some(repeat.deadline),
        None => None,
    }
}

/// Whether a moment is the first at which a timer of a device is due.
pub open spec fn is_earliest(devices: Seq<WriterView>, deadline: Option<u64>) -> bool {
    &&& forall|i: int|
        0 <= i < devices.len() ==> match deadline_of((#[trigger] devices[i]).1) {
            Some(other) => deadline is Some && deadline->0 <= other,
            None => true,
        }
    &&& deadline is Some ==> exists|i: int|
        0 <= i < devices.len() && deadline_of((#[trigger] devices[i]).1) == deadline
}

/// The devices of a client and its reporter.
#[verifier::ext_equal]
pub struct WritersView {
    pub devices: Seq<WriterView>,
    pub errors: InputErrorReporter,
}

/// What a clock may show when it is read.
pub open spec fn readings<C: Fn() -> u64>(clock: C) -> Set<u64> {
    Set::new(|moment: u64| call_ensures(clock, (), moment))
}

/// What reporting the outcome of an operation does. A rejection is reported at
/// the moment that the clock shows once it is known.
pub open spec fn outcome_reported(
    before: InputErrorReporter,
    id: usize,
    operation: Operation,
    result: Result<(), InputError>,
    clock: Set<u64>,
    reported: u64,
    after: InputErrorReporter,
    warning: Option<Warning>,
) -> bool {
    match result {
        Ok(_) => after == before && warning is None,
        Err(error) => {
            &&& clock.contains(reported)
            &&& after == after_report(before, reported)
            &&& warning == warning_of(before, id, operation, error, reported)
        },
    }
}

/// An event has been written to the device at a place, with this outcome.
pub open spec fn event_taken_with(
    before: WritersView,
    shared: SharedView,
    place: int,
    event: Event,
    now: u64,
    clock: Set<u64>,
    device_after: DeviceView,
    result: Result<(), InputError>,
    reported: u64,
    after: WritersView,
    shared_after: SharedView,
    warning: Option<Warning>,
) -> bool {
    let (id, device) = before.devices[place];
    &&& event_written(device, shared, event, now, device_after, shared_after, result)
    &&& after.devices == before.devices.update(place, (id, device_after))
    &&& outcome_reported(
        before.errors,
        id,
        Operation::Event,
        result,
        clock,
        reported,
        after.errors,
        warning,
    )
}

/// An event has been written to the device at a place. That the input was
/// rejected ends nothing.
pub open spec fn event_taken(
    before: WritersView,
    shared: SharedView,
    place: int,
    event: Event,
    now: u64,
    clock: Set<u64>,
    after: WritersView,
    shared_after: SharedView,
    warning: Option<Warning>,
) -> bool {
    exists|device_after: DeviceView, result: Result<(), InputError>, reported: u64| #[trigger]
        event_taken_with(
            before,
            shared,
            place,
            event,
            now,
            clock,
            device_after,
            result,
            reported,
            after,
            shared_after,
            warning,
        )
}

/// The state of all devices, of what they share and of the reporter, while the
/// timers of the devices are served one after the other.
#[verifier::ext_equal]
pub struct RepeatState {
    pub devices: Seq<WriterView>,
    pub shared: SharedView,
    pub errors: InputErrorReporter,
    pub warnings: Seq<Warning>,
}

/// The timer of the device at a place has been served, with this outcome.
pub open spec fn timer_served_with(
    before: RepeatState,
    place: int,
    now: u64,
    clock: Set<u64>,
    device_after: DeviceView,
    result: Result<(), InputError>,
    reported: u64,
    warning: Option<Warning>,
    after: RepeatState,
) -> bool {
    let (id, device) = before.devices[place];
    &&& repeat_served(device, before.shared, now, device_after, after.shared, result)
    &&& after.devices == before.devices.update(place, (id, device_after))
    &&& outcome_reported(
        before.errors,
        id,
        Operation::Repeat,
        result,
        clock,
        reported,
        after.errors,
        warning,
    )
    &&& after.warnings == match warning {
        Some(warning) => before.warnings.push(warning),
        None => before.warnings,
    }
}

/// The timer of the device at a place has been served.
pub open spec fn timer_served(
    before: RepeatState,
    place: int,
    now: u64,
    clock: Set<u64>,
    after: RepeatState,
) -> bool {
    exists|
        device_after: DeviceView,
        result: Result<(), InputError>,
        reported: u64,
        warning: Option<Warning>,
    | #[trigger]
        timer_served_with(
            before,
            place,
            now,
            clock,
            device_after,
            result,
            reported,
            warning,
            after,
        )
}

/// The timers of all devices have been served, one after the other. The clock is
/// read anew for each rejection.
pub open spec fn timers_served(states: Seq<RepeatState>, now: u64, clock: Set<u64>) -> bool {
    &&& states.len() > 0
    &&& states.len() == states[0].devices.len() + 1
    &&& forall|i: int|
        0 <= i < states.len() - 1 ==> #[trigger] timer_served(
            states[i],
            i,
            now,
            clock,
            states[i + 1],
        )
}

/// The writers of all devices.
#[derive(Debug)]
pub struct Writers {
    devices: Vec<(usize, Writer)>,
    errors: InputErrorReporter,
}

spec fn writer_views(devices: Seq<(usize, Writer)>) -> Seq<WriterView> {
    devices.map_values(|device: (usize, Writer)| (device.0, device.1@))
}

impl View for Writers {
    type V = WritersView;

    closed spec fn view(&self) -> WritersView {
        WritersView { devices: writer_views(self.devices@), errors: self.errors }
    }
}

/// What the client did with an update.
#[derive(Debug)]
pub enum Applied {
    /// It made a device.
    Created,
    /// It gave up a device; these keys could not be let up.
    Destroyed(Vec<(NativeKey, InputError)>),
    /// It wrote an event, which was rejected if there is a warning.
    Written(Option<Warning>),
    /// It has to answer a ping, and the server is alive.
    Pinged,
}

impl Writers {
    /// What is always true of the writers.
    pub closed spec fn wf(&self) -> bool {
        &&& distinct_devices(self@.devices)
        &&& forall|i: int| 0 <= i < self.devices@.len() ==> (#[trigger] self.devices@[i]).1.wf()
    }

    /// Well-formed writers have distinct devices, each of which is in order.
    pub proof fn wf_means_in_order(&self)
        requires
            self.wf(),
        ensures
            distinct_devices(self@.devices),
            forall|i: int|
                0 <= i < self@.devices.len() ==> device_wf((#[trigger] self@.devices[i]).1),
    {
        assert forall|i: int| 0 <= i < self@.devices.len() implies device_wf(
            (#[trigger] self@.devices[i]).1,
        ) by {
            assert(self.devices@[i].1.wf());
            self.devices@[i].1.wf_is_that_of_the_device();
        }
    }

    /// No device yet.
    pub fn new() -> (writers: Self)
        ensures
            writers.wf(),
            writers@ == (WritersView {
                devices: Seq::empty(),
                errors: InputErrorReporter { last_warning: None, suppressed: 0 },
            }),
    {
        let writers = Writers { devices: Vec::new(), errors: InputErrorReporter::default() };
        assert(writers@.devices =~= Seq::<WriterView>::empty());
        writers
    }

    /// How many rejected inputs went without a warning since the last one.
    pub fn suppressed(&self) -> (suppressed: usize)
        ensures
            suppressed == self@.errors.suppressed,
    {
        self.errors.suppressed
    }

    /// How many devices there are.
    pub fn len(&self) -> (count: usize)
        ensures
            count == self@.devices.len(),
    {
        self.devices.len()
    }

    /// Where a device is listed.
    fn place(&self, id: usize) -> (place: Option<usize>)
        ensures
            match place {
                Some(place) => place < self@.devices.len() && self@.devices[place as int].0 == id,
                None => !has_device(self@.devices, id),
            },
    {
        let mut i: usize = 0;
        while i < self.devices.len()
            invariant
                i <= self.devices@.len(),
                forall|j: int| 0 <= j < i ==> (#[trigger] self@.devices[j]).0 != id,
            decreases self.devices@.len() - i,
        {
            if self.devices[i].0 == id {
                return Some(i);
            }
            assert(self@.devices[i as int].0 != id);
            i += 1;
        }
        None
    }

    /// Write an event to a device at a moment. The clock is read where the input
    /// is rejected.
    pub fn write<S: InputSink, C: Fn() -> u64>(
        &mut self,
        shared: &mut SharedInput<S>,
        id: usize,
        event: &Event,
        now: u64,
        clock: C,
    ) -> (outcome: Result<Option<Warning>, Error>)
        requires
            old(self).wf(),
            call_requires(clock, ()),
            old(self)@.errors.suppressed < usize::MAX,
            now <= LATEST_MOMENT,
        ensures
            final(self).wf(),
            if has_device(old(self)@.devices, id) {
                &&& outcome is Ok
                &&& exists|place: int|
                    0 <= place < old(self)@.devices.len() && (
                    #[trigger] old(self)@.devices[place]).0 == id && event_taken(
                        old(self)@,
                        old(shared)@,
                        place,
                        *event,
                        now,
                        readings(clock),
                        final(self)@,
                        final(shared)@,
                        outcome->Ok_0,
                    )
            } else {
                &&& outcome == Err::<Option<Warning>, Error>(
                    Error::Network(NetworkError::UnknownDevice),
                )
                &&& final(self)@ == old(self)@
                &&& final(shared)@ == old(shared)@
            },
    {
        let place: usize = match self.place(id) {
            Some(place) => place,
            None => {
                return Err(Error::Network(NetworkError::UnknownDevice));
            },
        };
        let ghost before = self@;
        let ghost writers = self.devices@;
        let (_, writer) = self.devices.remove(place);
        assert(writer == writers[place as int].1);
        let mut writer = writer;
        proof {
            everything_can_be_timed(writer@, now);
            assert(event_can_be_timed(writer@, *event, now));
        }
        let result = writer.write(shared, event, now);
        let ghost device_after = writer@;
        self.devices.insert(place, (id, writer));
        let mut reported: u64 = now;
        let warning = match result {
            Ok(()) => None,
            Err(error) => {
                reported = clock();
                self.errors.report(id, Operation::Event, error, reported)
            },
        };
        proof {
            assert(before.devices[place as int] == (id, writers[place as int].1@));
            assert(self@.devices =~= before.devices.update(place as int, (id, device_after)));
            assert forall|i: int| 0 <= i < self.devices@.len() implies (
            #[trigger] self.devices@[i]).1.wf() by {
                if i != place {
                    assert(self.devices@[i] == writers[i]);
                }
            }
            assert forall|i: int, j: int| 0 <= i < j < self@.devices.len() implies (
            #[trigger] self@.devices[i]).0 != (#[trigger] self@.devices[j]).0 by {
                assert(before.devices[i].0 == self@.devices[i].0);
                assert(before.devices[j].0 == self@.devices[j].0);
            }
            assert(event_taken_with(
                before,
                old(shared)@,
                place as int,
                *event,
                now,
                readings(clock),
                device_after,
                result,
                reported,
                self@,
                shared@,
                warning,
            ));
        }
        Ok(warning)
    }

    /// When a timer of a device is next due.
    pub fn deadline(&self) -> (deadline: Option<u64>)
        ensures
            is_earliest(self@.devices, deadline),
    {
        let mut earliest: Option<u64> = None;
        let mut i: usize = 0;
        assert(self@.devices.take(0) =~= Seq::<WriterView>::empty());
        while i < self.devices.len()
            invariant
                i <= self.devices@.len(),
                is_earliest(self@.devices.take(i as int), earliest),
            decreases self.devices@.len() - i,
        {
            let ghost before = earliest;
            let next = self.devices[i].1.next_repeat();
            if let Some(deadline) = next {
                earliest =
                match earliest {
                    Some(other) if other <= deadline => Some(other),
                    _ => Some(deadline),
                };
            }
            proof {
                let shorter = self@.devices.take(i as int);
                let longer = self@.devices.take(i + 1);
                assert(longer =~= shorter.push(self@.devices[i as int]));
                assert(deadline_of(longer[i as int].1) == next);
                assert forall|j: int| 0 <= j < shorter.len() implies #[trigger] longer[j]
                    == shorter[j] by {}
                if earliest is Some && earliest == before {
                    let j = choose|j: int|
                        0 <= j < shorter.len() && deadline_of((#[trigger] shorter[j]).1) == before;
                    assert(deadline_of(longer[j].1) == earliest);
                }
            }
            i += 1;
        }
        assert(self@.devices.take(i as int) =~= self@.devices);
        earliest
    }

    /// Serve the timers of all devices, in the order in which they were created.
    /// A rejected repeat ends nothing; the clock is read for each.
    pub fn repeat<S: InputSink, C: Fn() -> u64>(
        &mut self,
        shared: &mut SharedInput<S>,
        now: u64,
        clock: C,
    ) -> (warnings: Vec<Warning>)
        requires
            old(self).wf(),
            call_requires(clock, ()),
            old(self)@.errors.suppressed + old(self)@.devices.len() <= usize::MAX,
            now <= LATEST_MOMENT,
        ensures
            final(self).wf(),
            exists|states: Seq<RepeatState>| #[trigger]
                timers_served(states, now, readings(clock)) && states[0] == (RepeatState {
                    devices: old(self)@.devices,
                    shared: old(shared)@,
                    errors: old(self)@.errors,
                    warnings: Seq::empty(),
                }) && states.last() == (RepeatState {
                    devices: final(self)@.devices,
                    shared: final(shared)@,
                    errors: final(self)@.errors,
                    warnings: warnings@,
                }),
    {
        let mut warnings: Vec<Warning> = Vec::new();
        let mut i: usize = 0;
        let ghost count = self.devices@.len();
        let ghost start = RepeatState {
            devices: self@.devices,
            shared: shared@,
            errors: self@.errors,
            warnings: Seq::empty(),
        };
        let ghost mut states: Seq<RepeatState> = seq![start];
        assert(warnings@ =~= Seq::<Warning>::empty());
        while i < self.devices.len()
            invariant
                i <= self.devices@.len(),
                self.devices@.len() == count,
                self.wf(),
                call_requires(clock, ()),
                now <= LATEST_MOMENT,
                self@.errors.suppressed + (count - i) <= usize::MAX,
                states.len() == i + 1,
                states[0] == start,
                start.devices.len() == count,
                states.last() == (RepeatState {
                    devices: self@.devices,
                    shared: shared@,
                    errors: self@.errors,
                    warnings: warnings@,
                }),
                forall|j: int|
                    0 <= j < states.len() - 1 ==> #[trigger] timer_served(
                        states[j],
                        j,
                        now,
                        readings(clock),
                        states[j + 1],
                    ),
            decreases self.devices@.len() - i,
        {
            let ghost before = self@;
            let ghost writers = self.devices@;
            let ghost shared_before = shared@;
            let ghost earlier = states;
            let (id, writer) = self.devices.remove(i);
            let mut writer = writer;
            proof {
                everything_can_be_timed(writer@, now);
            }
            let result = writer.repeat(shared, now);
            let ghost device_after = writer@;
            self.devices.insert(i, (id, writer));
            let ghost warned = warnings@;
            let mut warning: Option<Warning> = None;
            let mut reported: u64 = now;
            if let Err(error) = result {
                reported = clock();
                warning = self.errors.report(id, Operation::Repeat, error, reported);
                if let Some(warning) = warning {
                    warnings.push(warning);
                }
            }
            proof {
                let place = i as int;
                assert(before.devices[place] == (id, writers[place].1@));
                assert(self@.devices =~= before.devices.update(place, (id, device_after)));
                let after = RepeatState {
                    devices: self@.devices,
                    shared: shared@,
                    errors: self@.errors,
                    warnings: warnings@,
                };
                assert(warnings@ == match warning {
                    Some(warning) => warned.push(warning),
                    None => warned,
                });
                assert(timer_served_with(
                    earlier.last(),
                    place,
                    now,
                    readings(clock),
                    device_after,
                    result,
                    reported,
                    warning,
                    after,
                ));
                assert(timer_served(earlier.last(), place, now, readings(clock), after));
                states = earlier.push(after);
                assert forall|j: int| 0 <= j < states.len() - 1 implies #[trigger] timer_served(
                    states[j],
                    j,
                    now,
                    readings(clock),
                    states[j + 1],
                ) by {
                    if j < earlier.len() - 1 {
                        assert(timer_served(earlier[j], j, now, readings(clock), earlier[j + 1]));
                    }
                }
                assert forall|k: int| 0 <= k < self.devices@.len() implies (
                #[trigger] self.devices@[k]).1.wf() by {
                    if k != i {
                        assert(self.devices@[k] == writers[k]);
                    }
                }
                assert forall|a: int, b: int| 0 <= a < b < self@.devices.len() implies (
                #[trigger] self@.devices[a]).0 != (#[trigger] self@.devices[b]).0 by {
                    assert(before.devices[a].0 == self@.devices[a].0);
                    assert(before.devices[b].0 == self@.devices[b].0);
                }
            }
            i += 1;
        }
        assert(timers_served(states, now, readings(clock)));
        warnings
    }

    /// Make a device. It fails where the id is taken, and where the device asks
    /// for a repeat timing that is none.
    pub fn create(&mut self, id: usize, info: &DeviceInfo) -> (outcome: Result<(), Error>)
        requires
            old(self).wf(),
        ensures
            final(self).wf(),
            if has_device(old(self)@.devices, id) {
                outcome == Err::<(), Error>(Error::Network(NetworkError::DuplicateDevice))
                    && final(self)@ == old(self)@
            } else {
                match timing_asked(info@) {
                    Some(timing) => outcome is Ok && final(self)@ == (WritersView {
                        devices: old(self)@.devices.push((id, idle_device(timing))),
                        ..old(self)@
                    }),
                    None => outcome == Err::<(), Error>(Error::Input(InputError::NegativeTiming))
                        && final(self)@ == old(self)@,
                }
            },
    {
        if self.place(id).is_some() {
            return Err(Error::Network(NetworkError::DuplicateDevice));
        }
        match build(info) {
            Ok(writer) => {
                let ghost before = self@;
                let ghost writers = self.devices@;
                self.devices.push((id, writer));
                proof {
                    assert(self@.devices =~= before.devices.push((id, writer@)));
                    assert forall|i: int| 0 <= i < self.devices@.len() implies (
                    #[trigger] self.devices@[i]).1.wf() by {
                        if i < writers.len() {
                            assert(self.devices@[i] == writers[i]);
                        }
                    }
                    assert forall|i: int, j: int| 0 <= i < j < self@.devices.len() implies (
                    #[trigger] self@.devices[i]).0 != (#[trigger] self@.devices[j]).0 by {
                        assert(self@.devices[i] == before.devices[i]);
                        if j < before.devices.len() {
                            assert(self@.devices[j] == before.devices[j]);
                        }
                    }
                }
                Ok(())
            },
            Err(error) => Err(Error::Input(error)),
        }
    }

    /// Give up a device, and let up what it holds.
    pub fn destroy<S: InputSink>(&mut self, shared: &mut SharedInput<S>, id: usize) -> (
        outcome: Result<Vec<(NativeKey, InputError)>, Error>)
        requires
            old(self).wf(),
        ensures
            final(self).wf(),
            if has_device(old(self)@.devices, id) {
                &&& outcome is Ok
                &&& exists|place: int|
                    0 <= place < old(self)@.devices.len() && (
                    #[trigger] old(self)@.devices[place]).0 == id && final(self)@ == (WritersView {
                        devices: old(self)@.devices.remove(place),
                        ..old(self)@
                    }) && given_up(
                        old(shared)@,
                        old(self)@.devices[place].1,
                        final(shared)@,
                        outcome->Ok_0@,
                    )
            } else {
                &&& outcome == Err::<Vec<(NativeKey, InputError)>, Error>(
                    Error::Network(NetworkError::MissingDevice),
                )
                &&& final(self)@ == old(self)@
                &&& final(shared)@ == old(shared)@
            },
    {
        let place: usize = match self.place(id) {
            Some(place) => place,
            None => {
                return Err(Error::Network(NetworkError::MissingDevice));
            },
        };
        Ok(self.give_up(shared, place))
    }

    /// Give up the device at a place.
    fn give_up<S: InputSink>(&mut self, shared: &mut SharedInput<S>, place: usize) -> (failures: Vec<
        (NativeKey, InputError),
    >)
        requires
            old(self).wf(),
            place < old(self)@.devices.len(),
        ensures
            final(self).wf(),
            final(self)@ == (WritersView {
                devices: old(self)@.devices.remove(place as int),
                ..old(self)@
            }),
            given_up(
                old(shared)@,
                old(self)@.devices[place as int].1,
                final(shared)@,
                failures@,
            ),
    {
        let ghost before = self@;
        let ghost writers = self.devices@;
        let (_, writer) = self.devices.remove(place);
        let mut writer = writer;
        assert(writer@ == before.devices[place as int].1);
        let failures = writer.release_all(shared);
        proof {
            assert(self@.devices =~= before.devices.remove(place as int));
            assert forall|i: int| 0 <= i < self.devices@.len() implies (
            #[trigger] self.devices@[i]).1.wf() by {
                let x = if i < place {
                    i
                } else {
                    i + 1
                };
                assert(self.devices@[i] == writers[x]);
            }
            assert forall|i: int, j: int| 0 <= i < j < self@.devices.len() implies (
            #[trigger] self@.devices[i]).0 != (#[trigger] self@.devices[j]).0 by {
                let x = if i < place {
                    i
                } else {
                    i + 1
                };
                let y = if j < place {
                    j
                } else {
                    j + 1
                };
                assert(self@.devices[i] == before.devices[x]);
                assert(self@.devices[j] == before.devices[y]);
            }
        }
        failures
    }

    /// Give up all devices, as when the connection has ended, and let up what
    /// they hold. Return what could not be let up.
    pub fn close<S: InputSink>(&mut self, shared: &mut SharedInput<S>) -> (failures: Vec<
        (NativeKey, InputError),
    >)
        requires
            old(self).wf(),
        ensures
            final(self).wf(),
            final(self)@ == (WritersView { devices: Seq::empty(), ..old(self)@ }),
            exists|states: Seq<SharedView>| #[trigger]
                all_given_up(states, old(self)@.devices, failures@) && states[0] == old(shared)@
                    && states.last() == final(shared)@,
    {
        let mut failures: Vec<(NativeKey, InputError)> = Vec::new();
        let ghost all = self@.devices;
        let ghost mut states: Seq<SharedView> = seq![shared@];
        let ghost mut done: int = 0;
        assert(all.skip(0) =~= all);
        assert(failures_of(states, all.take(0)) =~= failures@) by {
            assert(all.take(0) =~= Seq::<WriterView>::empty());
        }
        while self.devices.len() > 0
            invariant
                self.wf(),
                0 <= done <= all.len(),
                self@ == (WritersView { devices: all.skip(done), ..old(self)@ }),
                all == old(self)@.devices,
                states.len() == done + 1,
                states[0] == old(shared)@,
                states.last() == shared@,
                failures@ == failures_of(states, all.take(done)),
                forall|i: int|
                    0 <= i < done ==> #[trigger] given_up(
                        states[i],
                        all[i].1,
                        states[i + 1],
                        failed_releases(states[i + 1].calls.skip(states[i].calls.len() as int)),
                    ),
            decreases self.devices@.len(),
        {
            let ghost earlier = states;
            let ghost before = shared@;
            assert(self@.devices.len() == self.devices@.len());
            assert(self@.devices[0] == all[done]);
            let mut failed = self.give_up(shared, 0);
            let ghost listed = failed@;
            let ghost sofar = failures@;
            failures.append(&mut failed);
            proof {
                states = earlier.push(shared@);
                assert(self@.devices =~= all.skip(done + 1));
                let taken = all.take(done + 1);
                assert(taken.drop_last() =~= all.take(done));
                assert(states.drop_last() =~= earlier);
                assert(failures_of(states, taken) == failures_of(earlier, all.take(done))
                    + failed_releases(
                    states[done + 1].calls.skip(states[done].calls.len() as int),
                ));
                assert forall|i: int| 0 <= i < done + 1 implies #[trigger] given_up(
                    states[i],
                    all[i].1,
                    states[i + 1],
                    failed_releases(states[i + 1].calls.skip(states[i].calls.len() as int)),
                ) by {
                    if i < done {
                        assert(states[i] == earlier[i] && states[i + 1] == earlier[i + 1]);
                        assert(given_up(
                            earlier[i],
                            all[i].1,
                            earlier[i + 1],
                            failed_releases(
                                earlier[i + 1].calls.skip(earlier[i].calls.len() as int),
                            ),
                        ));
                    }
                }
                done = done + 1;
            }
        }
        proof {
            assert(self@.devices.len() == 0);
            assert(done == all.len());
            assert(all.take(done) =~= all);
            assert(all.skip(done) =~= Seq::<WriterView>::empty());
            assert(all_given_up(states, all, failures@));
        }
        failures
    }

    /// Do what an update says at a moment. The clock is read where an input is
    /// rejected.
    pub fn apply<S: InputSink, C: Fn() -> u64>(
        &mut self,
        shared: &mut SharedInput<S>,
        update: Update,
        now: u64,
        clock: C,
    ) -> (outcome: Result<Applied, Error>)
        requires
            old(self).wf(),
            call_requires(clock, ()),
            old(self)@.errors.suppressed < usize::MAX,
            now <= LATEST_MOMENT,
        ensures
            final(self).wf(),
            applied(
                old(self)@,
                old(shared)@,
                update@,
                now,
                readings(clock),
                final(self)@,
                final(shared)@,
                outcome,
            ),
    {
        let known: bool = match update.device() {
            Some(id) => self.place(id).is_some(),
            None => false,
        };
        match device_check(&update, known) {
            Ok(()) => {},
            Err(error) => {
                return Err(error);
            },
        }
        match update {
            Update::CreateDevice { id, info } => match self.create(id, &info) {
                Ok(()) => Ok(Applied::Created),
                Err(error) => Err(error),
            },
            Update::DestroyDevice { id } => match self.destroy(shared, id) {
                Ok(failures) => Ok(Applied::Destroyed(failures)),
                Err(error) => Err(error),
            },
            Update::Event { id, event } => match self.write(shared, id, &event, now, clock) {
                Ok(warning) => Ok(Applied::Written(warning)),
                Err(error) => Err(error),
            },
            Update::Ping => Ok(Applied::Pinged),
        }
    }
}

/// A writer as a device asks for it.
fn build(info: &DeviceInfo) -> (writer: Result<Writer, InputError>)
    ensures
        match timing_asked(info@) {
            Some(timing) => writer is Ok && writer->Ok_0.wf() && writer->Ok_0@ == idle_device(
                timing,
            ),
            None => writer == Err::<Writer, InputError>(InputError::NegativeTiming),
        },
{
    let builder = Writer::builder()?.name(info.name.as_slice()).vendor(info.vendor).product(
        info.product,
    ).version(info.version).rel(info.rel.as_slice())?.abs(info.abs.as_slice())?.key(
        info.keys.as_slice(),
    )?.delay(info.delay)?.period(info.period)?;
    builder.build()
}

/// A device has given up everything that it held: each key of which it was the
/// last holder has been let up, last pressed first, whether or not that failed.
pub open spec fn given_up(
    shared: SharedView,
    device: DeviceView,
    shared_after: SharedView,
    failures: Seq<(NativeKey, InputError)>,
) -> bool {
    &&& shared_after.owners == owners_without(shared.owners, device.held)
    &&& let_up_in_turn(
        shared.calls,
        final_releases(shared.owners, device.held),
        shared_after.calls,
    )
    &&& failures == failed_releases(shared_after.calls.skip(shared.calls.len() as int))
}

/// What could not be let up while some devices were given up one after the
/// other.
pub open spec fn failures_of(states: Seq<SharedView>, devices: Seq<WriterView>) -> Seq<
    (NativeKey, InputError),
>
    decreases devices.len(),
{
    if devices.len() == 0 {
        Seq::empty()
    } else {
        let last = devices.len() as int;
        failures_of(states.drop_last(), devices.drop_last()) + failed_releases(
            states[last].calls.skip(states[last - 1].calls.len() as int),
        )
    }
}

/// Some devices have been given up one after the other.
pub open spec fn all_given_up(
    states: Seq<SharedView>,
    devices: Seq<WriterView>,
    failures: Seq<(NativeKey, InputError)>,
) -> bool {
    &&& states.len() == devices.len() + 1
    &&& forall|i: int|
        0 <= i < devices.len() ==> #[trigger] given_up(
            states[i],
            devices[i].1,
            states[i + 1],
            failed_releases(states[i + 1].calls.skip(states[i].calls.len() as int)),
        )
    &&& failures == failures_of(states, devices)
}

/// What an update does.
pub open spec fn applied(
    before: WritersView,
    shared: SharedView,
    update: UpdateView,
    now: u64,
    clock: Set<u64>,
    after: WritersView,
    shared_after: SharedView,
    outcome: Result<Applied, Error>,
) -> bool {
    let unchanged = after == before && shared_after == shared;
    match update {
        UpdateView::CreateDevice { id, info } => if has_device(before.devices, id) {
            unchanged && outcome == Err::<Applied, Error>(
                Error::Network(NetworkError::DuplicateDevice),
            )
        } else {
            match timing_asked(info) {
                Some(timing) => {
                    &&& outcome == Ok::<Applied, Error>(Applied::Created)
                    &&& shared_after == shared
                    &&& after == (WritersView {
                        devices: before.devices.push((id, idle_device(timing))),
                        ..before
                    })
                },
                None => unchanged && outcome == Err::<Applied, Error>(
                    Error::Input(InputError::NegativeTiming),
                ),
            }
        },
        UpdateView::DestroyDevice { id } => if has_device(before.devices, id) {
            &&& outcome matches Ok(Applied::Destroyed(failures))
            &&& exists|place: int|
                0 <= place < before.devices.len() && (#[trigger] before.devices[place]).0 == id
                    && after == (WritersView {
                    devices: before.devices.remove(place),
                    ..before
                }) && given_up(shared, before.devices[place].1, shared_after, failures@)
        } else {
            unchanged && outcome == Err::<Applied, Error>(
                Error::Network(NetworkError::MissingDevice),
            )
        },
        UpdateView::Event { id, event } => if has_device(before.devices, id) {
            &&& outcome matches Ok(Applied::Written(warning))
            &&& exists|place: int|
                0 <= place < before.devices.len() && (#[trigger] before.devices[place]).0 == id
                    && event_taken(
                    before,
                    shared,
                    place,
                    event,
                    now,
                    clock,
                    after,
                    shared_after,
                    warning,
                )
        } else {
            unchanged && outcome == Err::<Applied, Error>(
                Error::Network(NetworkError::UnknownDevice),
            )
        },
        UpdateView::Ping => unchanged && outcome == Ok::<Applied, Error>(Applied::Pinged),
    }
}

/// A rejected input is warned of unless a warning came less than a second before.
/// The warning names the device, what was done and why it failed, and how many
/// rejections it stands for besides its own; one that is held back is counted.
pub proof fn rejections_are_warned_of_once_a_second(
    reporter: InputErrorReporter,
    id: usize,
    operation: Operation,
    error: InputError,
    now: u64,
)
    requires
        reporter.suppressed < usize::MAX,
    ensures
        ({
            let warning = warning_of(reporter, id, operation, error, now);
            let after = after_report(reporter, now);
            &&& warning is None <==> (reporter.last_warning matches Some(last) && now < last
                + 1_000_000_000)
            &&& match warning {
                Some(warning) => {
                    &&& warning.id == id
                    &&& warning.operation == operation
                    &&& warning.error == error
                    &&& warning.suppressed == reporter.suppressed
                    &&& after.last_warning == Some(now)
                    &&& after.suppressed == 0
                },
                None => {
                    &&& after.last_warning == reporter.last_warning
                    &&& after.suppressed == reporter.suppressed + 1
                },
            }
        }),
{
}

/// The next deadline of a client is that of one of its devices, and no device has an
/// earlier one; there is none exactly where no device repeats.
pub proof fn the_earliest_deadline_counts(
    devices: Seq<WriterView>,
    deadline: Option<u64>,
    i: int,
)
    requires
        is_earliest(devices, deadline),
        0 <= i < devices.len(),
    ensures
        devices[i].1.repeat matches Some(repeat) ==> deadline is Some && deadline->0
            <= repeat.deadline,
        deadline is None <==> forall|j: int|
            0 <= j < devices.len() ==> (#[trigger] devices[j]).1.repeat is None,
        deadline matches Some(moment) ==> exists|j: int|
            0 <= j < devices.len() && ((#[trigger] devices[j]).1.repeat matches Some(repeat)
                && repeat.deadline == moment),
{
    assert(deadline_of(devices[i].1) is Some <==> devices[i].1.repeat is Some);
    if let Some(moment) = deadline {
        let j = choose|j: int|
            0 <= j < devices.len() && deadline_of((#[trigger] devices[j]).1) == deadline;
        assert(devices[j].1.repeat is Some);
    } else {
        assert forall|j: int| 0 <= j < devices.len() implies (#[trigger] devices[j]).1.repeat
            is None by {
            assert(deadline_of(devices[j].1) is None);
        }
    }
}

/// When the timers are served, each device has its turn: one whose key is due takes
/// it down once more, one whose key is not due does nothing, and no other device
/// notices. A refusal is reported, and ends nothing.
pub proof fn every_due_timer_is_served(
    states: Seq<RepeatState>,
    now: u64,
    clock: Set<u64>,
    i: int,
)
    requires
        timers_served(states, now, clock),
        0 <= i < states.len() - 1,
        i < states[i].devices.len(),
    ensures
        ({
            let before = states[i];
            let after = states[i + 1];
            let device = before.devices[i].1;
            &&& after.devices.len() == before.devices.len()
            &&& after.devices[i].0 == before.devices[i].0
            &&& after.devices[i].1.held == device.held
            &&& forall|j: int|
                0 <= j < before.devices.len() && j != i ==> #[trigger] after.devices[j]
                    == before.devices[j]
            &&& match device.repeat {
                Some(repeat) if repeat.deadline <= now => {
                    &&& after.shared.calls.len() == before.shared.calls.len() + 1
                    &&& after.shared.calls.drop_last() == before.shared.calls
                    &&& after.shared.calls.last() matches SinkCall::Key { key, down, error }
                    &&& key == repeat.native && down
                    &&& error is None ==> after.errors == before.errors && after.warnings
                        == before.warnings
                    &&& error is Some ==> after.devices[i].1 == device && exists|reported: u64|
                        clock.contains(reported) && after.errors == #[trigger] after_report(
                            before.errors,
                            reported,
                        ) && after.warnings == match warning_of(
                            before.errors,
                            before.devices[i].0,
                            Operation::Repeat,
                            error->0,
                            reported,
                        ) {
                            Some(warning) => before.warnings.push(warning),
                            None => before.warnings,
                        }
                },
                _ => after.shared == before.shared && after.devices == before.devices
                    && after.errors == before.errors && after.warnings == before.warnings,
            }
        }),
{
    let before = states[i];
    let after = states[i + 1];
    assert(timer_served(states[i], i, now, clock, states[i + 1]));
    let (device_after, result, reported, warning) = choose|
        device_after: DeviceView,
        result: Result<(), InputError>,
        reported: u64,
        warning: Option<Warning>,
    | #[trigger]
        timer_served_with(
            before,
            i,
            now,
            clock,
            device_after,
            result,
            reported,
            warning,
            after,
        );
    let device = before.devices[i].1;
    if let Some(repeat) = device.repeat {
        if repeat.deadline <= now {
            assert(after.shared.calls.drop_last() =~= before.shared.calls);
        } else {
            assert(after.devices =~= before.devices);
        }
    } else {
        assert(after.devices =~= before.devices);
    }
}

/// An event for a device that is there is written to that device and to no other.
/// That the desktop refuses it is reported and ends nothing: the client goes on with
/// the same devices.
pub proof fn refused_events_end_nothing(
    before: WritersView,
    shared: SharedView,
    id: usize,
    event: Event,
    now: u64,
    clock: Set<u64>,
    after: WritersView,
    shared_after: SharedView,
    outcome: Result<Applied, Error>,
)
    requires
        distinct_devices(before.devices),
        applied(
            before,
            shared,
            (UpdateView::Event { id, event }),
            now,
            clock,
            after,
            shared_after,
            outcome,
        ),
        has_device(before.devices, id),
    ensures
        outcome matches Ok(Applied::Written(_)),
        after.devices.len() == before.devices.len(),
        forall|i: int|
            0 <= i < before.devices.len() ==> (#[trigger] after.devices[i]).0
                == before.devices[i].0 && (before.devices[i].0 != id ==> after.devices[i]
                == before.devices[i]),
        exists|place: int, result: Result<(), InputError>|
            #![trigger before.devices[place], failure(result)]
            {
                &&& 0 <= place < before.devices.len()
                &&& before.devices[place].0 == id
                &&& event_written(
                    before.devices[place].1,
                    shared,
                    event,
                    now,
                    after.devices[place].1,
                    shared_after,
                    result,
                )
                &&& result is Ok ==> after.errors == before.errors && outcome
                    == Ok::<Applied, Error>(Applied::Written(None))
                &&& result matches Err(error) ==> exists|reported: u64|
                    clock.contains(reported) && after.errors == #[trigger] after_report(
                        before.errors,
                        reported,
                    ) && outcome == Ok::<Applied, Error>(
                        Applied::Written(
                            warning_of(before.errors, id, Operation::Event, error, reported),
                        ),
                    )
            },
{
    let warning = outcome->Ok_0->Written_0;
    let place = choose|place: int|
        0 <= place < before.devices.len() && (#[trigger] before.devices[place]).0 == id
            && event_taken(before, shared, place, event, now, clock, after, shared_after, warning);
    let (device_after, result, reported) = choose|
        device_after: DeviceView,
        result: Result<(), InputError>,
        reported: u64,
    | #[trigger]
        event_taken_with(
            before,
            shared,
            place,
            event,
            now,
            clock,
            device_after,
            result,
            reported,
            after,
            shared_after,
            warning,
        );
    assert(after.devices[place] == (id, device_after));
    assert(failure(result) == failure(result));
    assert forall|i: int| 0 <= i < before.devices.len() implies (#[trigger] after.devices[i]).0
        == before.devices[i].0 && (before.devices[i].0 != id ==> after.devices[i]
        == before.devices[i]) by {
        if i < place {
            assert(before.devices[i].0 != before.devices[place].0);
        } else if i > place {
            assert(before.devices[place].0 != before.devices[i].0);
        }
    }
}

/// A device that the server creates starts with nothing held, and repeats with the
/// timing that the server sends for it: half a second and a thirtieth of a second
/// where it sends none.
pub proof fn new_devices_get_their_timing(
    before: WritersView,
    shared: SharedView,
    id: usize,
    info: InfoView,
    now: u64,
    clock: Set<u64>,
    after: WritersView,
    shared_after: SharedView,
    outcome: Result<Applied, Error>,
)
    requires
        applied(
            before,
            shared,
            (UpdateView::CreateDevice { id, info }),
            now,
            clock,
            after,
            shared_after,
            outcome,
        ),
    ensures
        outcome is Ok <==> !has_device(before.devices, id) && (info.delay matches Some(delay)
            ==> delay >= 0) && (info.period matches Some(period) ==> period >= 0),
        shared_after == shared,
        after.errors == before.errors,
        outcome is Err ==> after.devices == before.devices,
        outcome is Ok ==> {
            &&& after.devices.len() == before.devices.len() + 1
            &&& after.devices.drop_last() == before.devices
            &&& after.devices.last().0 == id
            &&& after.devices.last().1.held.len() == 0
            &&& after.devices.last().1.suppressed.len() == 0
            &&& after.devices.last().1.repeat is None
            &&& after.devices.last().1.config.delay == match info.delay {
                Some(delay) => delay as int,
                None => 500int,
            }
            &&& after.devices.last().1.config.period == match info.period {
                Some(period) => period as int,
                None => 33int,
            }
        },
{
    if outcome is Ok {
        assert(after.devices.drop_last() =~= before.devices);
    }
}

/// Whether a release of a key has failed with an error from some call on.
pub open spec fn has_failed_since(
    calls: Seq<SinkCall>,
    since: int,
    key: NativeKey,
    error: InputError,
) -> bool {
    exists|i: int|
        since <= i < calls.len() && #[trigger] calls[i] == (SinkCall::Key {
            key,
            down: false,
            error: Some(error),
        })
}

/// A device that is given up tells which of its keys could not be let up, with the
/// errors, and no others.
pub proof fn devices_that_go_tell_their_failures(
    shared: SharedView,
    device: DeviceView,
    shared_after: SharedView,
    failures: Seq<(NativeKey, InputError)>,
    key: NativeKey,
    error: InputError,
)
    requires
        given_up(shared, device, shared_after, failures),
    ensures
        shared.calls.len() <= shared_after.calls.len(),
        shared_after.calls.take(shared.calls.len() as int) == shared.calls,
        failures.contains((key, error)) <==> has_failed_since(
            shared_after.calls,
            shared.calls.len() as int,
            key,
            error,
        ),
{
    let since = shared.calls.len() as int;
    let calls = shared_after.calls.skip(since);
    let wanted = SinkCall::Key { key, down: false, error: Some(error) };
    failed_releases_are_told(calls, key, error);
    if calls.contains(wanted) {
        let i = choose|i: int| 0 <= i < calls.len() && calls[i] == wanted;
        assert(shared_after.calls[since + i] == wanted);
    }
    if has_failed_since(shared_after.calls, since, key, error) {
        let i = choose|i: int|
            since <= i < shared_after.calls.len() && shared_after.calls[i] == wanted;
        assert(calls[i - since] == wanted);
    }
}

/// An update that takes a device away tells which of its keys could not be let up,
/// with the errors, and no others.
pub proof fn destroyed_devices_tell_their_failures(
    before: WritersView,
    shared: SharedView,
    id: usize,
    now: u64,
    clock: Set<u64>,
    after: WritersView,
    shared_after: SharedView,
    outcome: Result<Applied, Error>,
    key: NativeKey,
    error: InputError,
)
    requires
        applied(
            before,
            shared,
            (UpdateView::DestroyDevice { id }),
            now,
            clock,
            after,
            shared_after,
            outcome,
        ),
        has_device(before.devices, id),
    ensures
        ({
            &&& outcome matches Ok(Applied::Destroyed(failures))
            &&& failures@.contains((key, error)) <==> has_failed_since(
                shared_after.calls,
                shared.calls.len() as int,
                key,
                error,
            )
        }),
        after.devices.len() == before.devices.len() - 1,
{
    let failures = (outcome->Ok_0)->Destroyed_0;
    let place = choose|place: int|
        0 <= place < before.devices.len() && (#[trigger] before.devices[place]).0 == id && after
            == (WritersView { devices: before.devices.remove(place), ..before }) && given_up(
            shared,
            before.devices[place].1,
            shared_after,
            failures@,
        );
    devices_that_go_tell_their_failures(
        shared,
        before.devices[place].1,
        shared_after,
        failures@,
        key,
        error,
    );
}

/// A connection that is closed tells which of the keys of all its devices could not
/// be let up, with the errors, and no others.
pub proof fn closing_tells_every_failure(
    states: Seq<SharedView>,
    devices: Seq<WriterView>,
    failures: Seq<(NativeKey, InputError)>,
    key: NativeKey,
    error: InputError,
)
    requires
        all_given_up(states, devices, failures),
    ensures
        states[0].calls.len() <= states.last().calls.len(),
        failures.contains((key, error)) <==> has_failed_since(
            states.last().calls,
            states[0].calls.len() as int,
            key,
            error,
        ),
    decreases devices.len(),
{
    let wanted = SinkCall::Key { key, down: false, error: Some(error) };
    if devices.len() > 0 {
        let last = devices.len() as int;
        let fewer = states.drop_last();
        let others = devices.drop_last();
        let earlier = failures_of(fewer, others);
        assert forall|i: int| 0 <= i < others.len() implies #[trigger] given_up(
            fewer[i],
            others[i].1,
            fewer[i + 1],
            failed_releases(fewer[i + 1].calls.skip(fewer[i].calls.len() as int)),
        ) by {
            assert(given_up(
                states[i],
                devices[i].1,
                states[i + 1],
                failed_releases(states[i + 1].calls.skip(states[i].calls.len() as int)),
            ));
        }
        closing_tells_every_failure(fewer, others, earlier, key, error);
        let before = states[last - 1];
        let after = states[last];
        let told = failed_releases(after.calls.skip(before.calls.len() as int));
        assert(given_up(
            states[last - 1],
            devices[last - 1].1,
            states[last - 1 + 1],
            told,
        ));
        devices_that_go_tell_their_failures(
            before,
            devices[last - 1].1,
            after,
            told,
            key,
            error,
        );
        let first = states[0].calls.len() as int;
        let between = before.calls.len() as int;
        assert(failures.contains((key, error)) <==> earlier.contains((key, error))
            || told.contains((key, error))) by {
            if earlier.contains((key, error)) {
                let i = choose|i: int| 0 <= i < earlier.len() && earlier[i] == (key, error);
                assert(failures[i] == (key, error));
            }
            if told.contains((key, error)) {
                let i = choose|i: int| 0 <= i < told.len() && told[i] == (key, error);
                assert(failures[earlier.len() + i] == (key, error));
            }
            if failures.contains((key, error)) {
                let i = choose|i: int| 0 <= i < failures.len() && failures[i] == (key, error);
                if i < earlier.len() {
                    assert(earlier[i] == (key, error));
                } else {
                    assert(told[i - earlier.len()] == (key, error));
                }
            }
        }
        assert forall|i: int| 0 <= i < between implies #[trigger] after.calls[i]
            == before.calls[i] by {
            assert(after.calls.take(between)[i] == after.calls[i]);
        }
        if has_failed_since(before.calls, first, key, error) {
            let i = choose|i: int| first <= i < before.calls.len() && before.calls[i] == wanted;
            assert(after.calls[i] == wanted);
        }
        if has_failed_since(after.calls, first, key, error) {
            let i = choose|i: int| first <= i < after.calls.len() && after.calls[i] == wanted;
            if i < between {
                assert(before.calls[i] == wanted);
            }
        }
    }
}

} // verus!
