//! A sink that takes note of its calls and touches no desktop.
use vstd::prelude::*;

use crate::error::InputError;
use crate::event::RelAxis;
use crate::keymap::NativeKey;
use crate::shared::{History, InputSink, SinkCall};

verus! {

/// Records all calls. It accepts every input, and every lock or none.
#[derive(Debug)]
pub struct Recorder {
    calls: Vec<SinkCall>,
    lock_succeeds: bool,
}

impl Recorder {
    /// A recorder without calls.
    pub fn new(lock_succeeds: bool) -> (recorder: Self)
        ensures
            recorder.calls() == Seq::<SinkCall>::empty(),
            recorder.accepts_locks() == lock_succeeds,
    {
        Recorder { calls: Vec::new(), lock_succeeds }
    }

    /// Whether the recorder accepts locks.
    pub closed spec fn accepts_locks(&self) -> bool {
        self.lock_succeeds
    }

    /// The calls so far.
    pub fn recorded(&self) -> (calls: &[SinkCall])
        ensures
            calls@ == self.calls(),
    {
        self.calls.as_slice()
    }
}

impl InputSink for Recorder {
    closed spec fn calls(&self) -> History {
        self.calls@
    }

    fn key(&mut self, key: NativeKey, down: bool) -> (outcome: Result<(), InputError>)
        ensures
            outcome is Ok,
            final(self).accepts_locks() == old(self).accepts_locks(),
    {
        self.calls.push(SinkCall::Key { key, down, error: None });
        Ok(())
    }

    fn relative(&mut self, axis: RelAxis, value: i32) -> (outcome: Result<(), InputError>)
        ensures
            outcome is Ok,
            final(self).accepts_locks() == old(self).accepts_locks(),
    {
        self.calls.push(SinkCall::Relative { axis, value, error: None });
        Ok(())
    }

    fn lock_workstation(&mut self) -> (accepted: bool)
        ensures
            accepted == old(self).accepts_locks(),
            final(self).accepts_locks() == old(self).accepts_locks(),
    {
        self.calls.push(SinkCall::Lock { accepted: self.lock_succeeds });
        self.lock_succeeds
    }
}

} // verus!
