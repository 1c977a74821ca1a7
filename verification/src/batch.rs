//! Groups of events that go to one device in one piece.
use vstd::prelude::*;

use crate::event::Event;

verus! {

/// What a batch has to do with the shortcut that a switch ends with.
///
/// On the server's own machine the batches of a switch go to different devices,
/// which take them at their own pace. The batch with the shortcut comes first;
/// all others wait for that one, and for no other. Removing a device between
/// them must not get around this.
#[derive(Clone, Copy, Debug, PartialEq, Eq, Structural)]
pub enum Turn {
    /// Nothing waits for the batch, and it waits for nothing.
    Free,
    /// Others wait for the batch.
    First,
    /// The batch waits for the first one.
    AfterFirst,
}

/// How far the device that took the first batch has come.
#[derive(Clone, Copy, Debug, PartialEq, Eq, Structural)]
pub enum Progress {
    /// The batch is still to be applied.
    Pending,
    /// The batch has been applied.
    Finished,
    /// The batch is gone with its device.
    Abandoned,
}

/// Events that go to one device in one piece.
#[derive(Debug)]
pub struct InputBatch {
    pub events: Vec<Event>,
    pub turn: Turn,
}

/// Whether a batch may be applied while the first one has come so far. A device
/// that failed or was removed unlocks the others too.
pub open spec fn may_start(turn: Turn, first: Progress) -> bool {
    turn == Turn::AfterFirst ==> first != Progress::Pending
}

impl InputBatch {
    /// A batch that waits for nothing.
    pub fn new(events: Vec<Event>) -> (batch: Self)
        ensures
            batch.events == events,
            batch.turn == Turn::Free,
    {
        InputBatch { events, turn: Turn::Free }
    }

    /// Put the batch in line: it is the first one, or it waits for that.
    pub fn after_shortcut(&mut self, shortcut_sent: &mut bool)
        ensures
            final(self).events == old(self).events,
            final(self).turn == if *old(shortcut_sent) {
                Turn::AfterFirst
            } else {
                Turn::First
            },
            *final(shortcut_sent),
    {
        if *shortcut_sent {
            self.turn = Turn::AfterFirst;
        } else {
            self.turn = Turn::First;
            *shortcut_sent = true;
        }
    }

    /// Whether the batch may be applied while the first one has come so far.
    pub fn ready(&self, first: Progress) -> (ready: bool)
        ensures
            ready == may_start(self.turn, first),
    {
        match self.turn {
            Turn::AfterFirst => !matches!(first, Progress::Pending),
            _ => true,
        }
    }
}

/// A batch that waits is applied after the first one, unless that one is gone:
/// the first never waits, and a batch that waits cannot start before it ends.
pub proof fn the_shortcut_comes_first(first: Progress)
    ensures
        may_start(Turn::First, first),
        may_start(Turn::Free, first),
        may_start(Turn::AfterFirst, first) <==> first == Progress::Finished || first
            == Progress::Abandoned,
{
}

} // verus!
