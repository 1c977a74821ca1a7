//! The input writer of a Windows client.
//!
//! Windows does not expose a uinput equivalent, so events are injected into
//! the current interactive desktop through a sink that all writers share.
use vstd::prelude::*;

use crate::device::{
    device_wf, event_can_be_timed, event_written, failed_releases, final_releases, idle_device,
    let_up_in_turn, owners_without, repeat_can_be_timed, repeat_served, Device, DeviceView,
};
use crate::error::InputError;
use crate::event::{AbsAxis, AbsInfo, Event, Key, RelAxis};
use crate::keymap::NativeKey;
use crate::repeat::{timing_of, RepeatConfig};
use crate::shared::{InputSink, SharedInput};

verus! {

/// Writes the events of one remote device.
#[derive(Debug)]
pub struct Writer(Device);

impl View for Writer {
    type V = DeviceView;

    closed spec fn view(&self) -> DeviceView {
        self.0@
    }
}

impl Writer {
    /// What is always true of a writer.
    pub closed spec fn wf(&self) -> bool {
        self.0.wf()
    }

    /// A writer is well-formed exactly where its device is.
    pub proof fn wf_is_that_of_the_device(&self)
        ensures
            self.wf() == device_wf(self@),
    {
    }

    /// Start to describe a writer; it never fails here.
    pub fn builder() -> (builder: Result<WriterBuilder, InputError>)
        ensures
            builder is Ok,
            builder->Ok_0.timing() == (RepeatConfig { delay: 500, period: 33 }),
    {
        Ok(WriterBuilder { repeat: RepeatConfig::default() })
    }

    /// Inject one event.
    pub fn write<S: InputSink>(
        &mut self,
        shared: &mut SharedInput<S>,
        event: &Event,
        now: u64,
    ) -> (result: Result<(), InputError>)
        requires
            old(self).wf(),
            event_can_be_timed(old(self)@, *event, now),
        ensures
            final(self).wf(),
            event_written(old(self)@, old(shared)@, *event, now, final(self)@, final(shared)@, result),
    {
        self.0.write(shared, event, now)
    }

    /// When the repeat timer is next due. The client serves this deadline in
    /// its receive loop; no detached task can inject another press after the
    /// writer is gone.
    pub fn next_repeat(&self) -> (deadline: Option<u64>)
        ensures
            deadline == match self@.repeat {
                Some(repeat) => Some(repeat.deadline),
                None => None,
            },
    {
        self.0.next_repeat()
    }

    /// Serve the repeat timer.
    pub fn repeat<S: InputSink>(&mut self, shared: &mut SharedInput<S>, now: u64) -> (result: Result<
        (),
        InputError,
    >)
        requires
            old(self).wf(),
            repeat_can_be_timed(old(self)@, now),
        ensures
            final(self).wf(),
            repeat_served(old(self)@, old(shared)@, now, final(self)@, final(shared)@, result),
    {
        self.0.repeat(shared, now)
    }

    /// Give up everything that this writer holds, last pressed first, and
    /// return what could not be let up. To be called when the device goes away
    /// or its connection ends.
    pub fn release_all<S: InputSink>(&mut self, shared: &mut SharedInput<S>) -> (failures: Vec<
        (NativeKey, InputError),
    >)
        requires
            old(self).wf(),
        ensures
            final(self).wf(),
            final(self)@ == (DeviceView { held: Seq::empty(), repeat: None, ..old(self)@ }),
            final(shared)@.owners == owners_without(old(shared)@.owners, old(self)@.held),
            let_up_in_turn(
                old(shared)@.calls,
                final_releases(old(shared)@.owners, old(self)@.held),
                final(shared)@.calls,
            ),
            failures@ == failed_releases(
                final(shared)@.calls.skip(old(shared)@.calls.len() as int),
            ),
    {
        self.0.release_all(shared)
    }
}

/// Describes a writer before it is made. Windows needs none of the description
/// but the repeat timing.
#[derive(Debug)]
pub struct WriterBuilder {
    repeat: RepeatConfig,
}

impl WriterBuilder {
    /// The repeat timing so far.
    pub closed spec fn timing(&self) -> RepeatConfig {
        self.repeat
    }

    /// Name the device.
    pub fn name(self, _name: &[u8]) -> (builder: Self)
        ensures
            builder == self,
    {
        self
    }

    /// Name the vendor.
    pub fn vendor(self, _value: u16) -> (builder: Self)
        ensures
            builder == self,
    {
        self
    }

    /// Name the product.
    pub fn product(self, _value: u16) -> (builder: Self)
        ensures
            builder == self,
    {
        self
    }

    /// Name the version.
    pub fn version(self, _value: u16) -> (builder: Self)
        ensures
            builder == self,
    {
        self
    }

    /// List the relative axes.
    pub fn rel(self, _items: &[RelAxis]) -> (builder: Result<Self, InputError>)
        ensures
            builder == Ok::<Self, InputError>(self),
    {
        Ok(self)
    }

    /// List the absolute axes.
    pub fn abs(self, _items: &[(AbsAxis, AbsInfo)]) -> (builder: Result<Self, InputError>)
        ensures
            builder == Ok::<Self, InputError>(self),
    {
        Ok(self)
    }

    /// List the keys.
    pub fn key(self, _items: &[Key]) -> (builder: Result<Self, InputError>)
        ensures
            builder == Ok::<Self, InputError>(self),
    {
        Ok(self)
    }

    /// Set the delay before the first repeat; `None` keeps it, and a negative
    /// value is refused.
    pub fn delay(self, value: Option<i32>) -> (builder: Result<Self, InputError>)
        ensures
            match timing_of(self.timing().delay, value) {
                Some(delay) => builder is Ok && builder->Ok_0.timing() == (RepeatConfig {
                    delay,
                    ..self.timing()
                }),
                None => builder == Err::<Self, InputError>(InputError::NegativeTiming),
            },
    {
        let mut builder = self;
        match builder.repeat.delay(value) {
            Ok(()) => Ok(builder),
            Err(error) => Err(error),
        }
    }

    /// Set the period between repeats; `None` keeps it, and a negative value
    /// is refused.
    pub fn period(self, value: Option<i32>) -> (builder: Result<Self, InputError>)
        ensures
            match timing_of(self.timing().period, value) {
                Some(period) => builder is Ok && builder->Ok_0.timing() == (RepeatConfig {
                    period,
                    ..self.timing()
                }),
                None => builder == Err::<Self, InputError>(InputError::NegativeTiming),
            },
    {
        let mut builder = self;
        match builder.repeat.period(value) {
            Ok(()) => Ok(builder),
            Err(error) => Err(error),
        }
    }

    /// Make the writer. It holds nothing.
    pub fn build(self) -> (writer: Result<Writer, InputError>)
        ensures
            writer is Ok,
            writer->Ok_0.wf(),
            writer->Ok_0@ == idle_device(self.timing()),
    {
        Ok(Writer(Device::new(self.repeat)))
    }
}

} // verus!
