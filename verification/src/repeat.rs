//! When a held key repeats.
use vstd::prelude::*;

use crate::error::InputError;

verus! {

/// Moments are counted in nanoseconds of a monotonic clock.
pub const NANOS_PER_MILLI: u64 = 1_000_000;

/// The last moment from which every repeat delay can still be counted.
pub const LATEST_MOMENT: u64 = 0xffff_ffff_ffff_ffff - 0xffff_ffff * NANOS_PER_MILLI;

/// The repeat timing of a device, in milliseconds.
///
/// A device that names no timing gets conservative defaults. An explicit zero
/// disables repeat.
#[derive(Clone, Copy, Debug, PartialEq, Eq, Structural)]
pub struct RepeatConfig {
    pub delay: u32,
    pub period: u32,
}

impl Default for RepeatConfig {
    fn default() -> (config: Self)
        ensures
            config == (RepeatConfig { delay: 500, period: 33 }),
    {
        RepeatConfig { delay: 500, period: 33 }
    }
}

/// Whether keys repeat at all.
pub open spec fn repeat_enabled(config: RepeatConfig) -> bool {
    config.delay != 0 && config.period != 0
}

/// A timing as the server sends it: the old value where it sends none, and no
/// value where it is negative.
pub open spec fn timing_of(current: u32, value: Option<i32>) -> Option<u32> {
    match value {
        None => Some(current),
        Some(value) => if value >= 0 {
            Some(value as u32)
        } else {
            None
        },
    }
}

/// Whether the moment that lies a number of milliseconds after another can still
/// be counted.
pub open spec fn can_be_counted(now: u64, millis: u32) -> bool {
    now + millis * NANOS_PER_MILLI <= u64::MAX
}

/// The moment that lies a number of milliseconds after another.
pub open spec fn moment_after(now: u64, millis: u32) -> u64 {
    (now + millis * NANOS_PER_MILLI) as u64
}

impl RepeatConfig {
    /// Set the delay before the first repeat. `None` keeps it; a negative
    /// value is refused and keeps it too.
    pub fn delay(&mut self, value: Option<i32>) -> (result: Result<(), InputError>)
        ensures
            match timing_of(old(self).delay, value) {
                Some(delay) => result is Ok && *final(self) == (RepeatConfig {
                    delay,
                    ..*old(self)
                }),
                None => result == Err::<(), InputError>(InputError::NegativeTiming) && *final(self)
                    == *old(self),
            },
    {
        if let Some(value) = value {
            match milliseconds(value) {
                Ok(delay) => {
                    self.delay = delay;
                },
                Err(error) => {
                    return Err(error);
                },
            }
        }
        Ok(())
    }

    /// Set the period between repeats. `None` keeps it; a negative value is
    /// refused and keeps it too.
    pub fn period(&mut self, value: Option<i32>) -> (result: Result<(), InputError>)
        ensures
            match timing_of(old(self).period, value) {
                Some(period) => result is Ok && *final(self) == (RepeatConfig {
                    period,
                    ..*old(self)
                }),
                None => result == Err::<(), InputError>(InputError::NegativeTiming) && *final(self)
                    == *old(self),
            },
    {
        if let Some(value) = value {
            match milliseconds(value) {
                Ok(period) => {
                    self.period = period;
                },
                Err(error) => {
                    return Err(error);
                },
            }
        }
        Ok(())
    }

    /// Whether keys repeat at all.
    pub fn enabled(self) -> (enabled: bool)
        ensures
            enabled == repeat_enabled(self),
    {
        self.delay != 0 && self.period != 0
    }
}

/// A timing in milliseconds; negative ones are refused.
pub fn milliseconds(value: i32) -> (millis: Result<u32, InputError>)
    ensures
        millis == if value >= 0 {
            Ok(value as u32)
        } else {
            Err(InputError::NegativeTiming)
        },
{
    if value < 0 {
        Err(InputError::NegativeTiming)
    } else {
        Ok(value as u32)
    }
}

/// The moment that lies a number of milliseconds after another.
pub fn later(now: u64, millis: u32) -> (moment: u64)
    requires
        can_be_counted(now, millis),
    ensures
        moment == now + millis * NANOS_PER_MILLI,
        moment == moment_after(now, millis),
{
    now + millis as u64 * NANOS_PER_MILLI
}

/// Up to the latest moment every timing can be counted.
pub proof fn every_timing_can_be_counted(now: u64, millis: u32)
    requires
        now <= LATEST_MOMENT,
    ensures
        can_be_counted(now, millis),
{
    assert(millis * NANOS_PER_MILLI <= 0xffff_ffff * NANOS_PER_MILLI) by (nonlinear_arith)
        requires
            millis <= 0xffff_ffff,
    ;
}

/// A timing that a device asks for is taken in milliseconds, one that it does not
/// ask for stays as it is, and a negative one is none. Zero for either turns repeat
/// off.
pub proof fn timings_are_taken_as_asked(current: u32, value: Option<i32>, config: RepeatConfig)
    ensures
        match value {
            None => timing_of(current, value) == Some(current),
            Some(millis) => (timing_of(current, value) is None <==> millis < 0) && (millis >= 0
                ==> timing_of(current, value)->0 == millis),
        },
        repeat_enabled(config) <==> config.delay > 0 && config.period > 0,
{
}

/// A moment that can be counted lies as many millions of nanoseconds later as
/// milliseconds are asked for.
pub proof fn moments_are_counted_in_nanoseconds(now: u64, millis: u32)
    requires
        can_be_counted(now, millis),
    ensures
        moment_after(now, millis) == now + millis * 1_000_000,
{
}

} // verus!
