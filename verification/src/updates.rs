//! In which order a client attends to what it waits for.
//!
//! A message that has been read in part is kept while the timers of the devices
//! are served.
use vstd::prelude::*;

use crate::client::Error;
use crate::error::{
    input_error_kind, network_error_kind, ErrorKind, InputError, NetworkError,
};
use crate::update::Update;

verus! {

/// What a client waits for.
#[derive(Clone, Copy, Debug, PartialEq, Eq, Structural)]
pub enum Source {
    /// The server has been silent for too long.
    Watchdog,
    /// A timer of a device is due.
    Repeat,
    /// A message is complete, or will never be.
    Message,
}

/// What of that has come.
#[derive(Clone, Copy, Debug, PartialEq, Eq, Structural)]
pub struct Ready {
    pub watchdog: bool,
    pub repeat: bool,
    pub message: bool,
}

/// Why no message can be received.
#[derive(Clone, Copy, Debug, PartialEq, Eq, Structural)]
pub enum ReceiveError {
    Network(NetworkError),
    Input(InputError),
}

/// A failure to receive, as that of a client.
pub open spec fn client_error(error: ReceiveError) -> Error {
    match error {
        ReceiveError::Network(error) => Error::Network(error),
        ReceiveError::Input(error) => Error::Input(error),
    }
}

/// What comes of serving the timers, and whether a message goes first from then on.
pub open spec fn after_timers(prefer_message: bool, served: Result<(), InputError>) -> (
    Result<(), ReceiveError>,
    bool,
) {
    match served {
        Ok(_) => (Ok(()), true),
        Err(error) => (Err(ReceiveError::Input(error)), prefer_message),
    }
}

impl ReceiveError {
    /// The class of the failure, unless Windows reported it by number.
    pub fn kind(&self) -> (kind: Option<ErrorKind>)
        ensures
            kind == match *self {
                ReceiveError::Network(error) => Some(network_error_kind(error)),
                ReceiveError::Input(error) => input_error_kind(error),
            },
    {
        match self {
            ReceiveError::Network(error) => Some(error.kind()),
            ReceiveError::Input(error) => error.kind(),
        }
    }

    /// The failure as that of a client.
    pub fn into_error(self) -> (error: Error)
        ensures
            error == client_error(self),
    {
        match self {
            ReceiveError::Network(error) => Error::Network(error),
            ReceiveError::Input(error) => Error::Input(error),
        }
    }
}

/// Whether something has come.
pub open spec fn has_come(ready: Ready, source: Source) -> bool {
    match source {
        Source::Watchdog => ready.watchdog,
        Source::Repeat => ready.repeat,
        Source::Message => ready.message,
    }
}

/// The order in which a client attends to what it waits for.
pub open spec fn order_of(prefer_message: bool) -> Seq<Source> {
    if prefer_message {
        seq![Source::Watchdog, Source::Message, Source::Repeat]
    } else {
        seq![Source::Watchdog, Source::Repeat, Source::Message]
    }
}

/// What a client attends to first: the first in the order that has come.
pub open spec fn attended(prefer_message: bool, ready: Ready) -> Option<Source> {
    let order = order_of(prefer_message);
    if has_come(ready, order[0]) {
        Some(order[0])
    } else if has_come(ready, order[1]) {
        Some(order[1])
    } else if has_come(ready, order[2]) {
        Some(order[2])
    } else {
        None
    }
}

/// The reception of one message.
///
/// A stream of complete messages must not starve a timer that is due, so a timer
/// goes before the message. A slow input sink can leave its next deadline
/// already overdue, so after a timer has been served the message goes first.
/// Detection of a dead server has priority in both cases.
#[derive(Clone, Copy, Debug, PartialEq, Eq, Structural)]
pub struct Reception {
    pub prefer_message: bool,
}

/// What becomes of a message: it is handed on as it came, and where it will never
/// be complete the network has failed.
pub open spec fn handed_on<T>(message: Result<T, ErrorKind>) -> Result<T, ReceiveError> {
    match message {
        Ok(message) => Ok(message),
        Err(kind) => Err(ReceiveError::Network(NetworkError::Transport { kind })),
    }
}

impl Reception {
    /// Wait for a message.
    pub fn new() -> (reception: Self)
        ensures
            !reception.prefer_message,
    {
        Reception { prefer_message: false }
    }

    /// The order in which to look at what may have come.
    pub fn order(&self) -> (order: [Source; 3])
        ensures
            order@ == order_of(self.prefer_message),
    {
        let order = if self.prefer_message {
            [Source::Watchdog, Source::Message, Source::Repeat]
        } else {
            [Source::Watchdog, Source::Repeat, Source::Message]
        };
        assert(order@ =~= order_of(self.prefer_message));
        order
    }

    /// What to attend to, of what has come.
    pub fn attend(&self, ready: Ready) -> (source: Option<Source>)
        ensures
            source == attended(self.prefer_message, ready),
    {
        if ready.watchdog {
            Some(Source::Watchdog)
        } else if self.prefer_message && ready.message {
            Some(Source::Message)
        } else if ready.repeat {
            Some(Source::Repeat)
        } else if ready.message {
            Some(Source::Message)
        } else {
            None
        }
    }

    /// The server has been silent for too long.
    pub fn timed_out(&self) -> (error: ReceiveError)
        ensures
            error == ReceiveError::Network(NetworkError::PingTimedOut),
    {
        ReceiveError::Network(NetworkError::PingTimedOut)
    }

    /// The message is complete, or will never be.
    pub fn message<T>(&self, message: Result<T, ErrorKind>) -> (outcome: Result<T, ReceiveError>)
        ensures
            outcome == handed_on(message),
    {
        match message {
            Ok(message) => Ok(message),
            Err(kind) => Err(ReceiveError::Network(NetworkError::Transport { kind })),
        }
    }

    /// The timers have been served.
    pub fn repeated(&mut self, result: Result<(), InputError>) -> (outcome: Result<
        (),
        ReceiveError,
    >)
        ensures
            (outcome, final(self).prefer_message) == after_timers(
                old(self).prefer_message,
                result,
            ),
    {
        match result {
            Ok(()) => {
                self.prefer_message = true;
                Ok(())
            },
            Err(error) => Err(ReceiveError::Input(error)),
        }
    }
}

/// A dead server is noticed before anything else is attended to.
pub proof fn dead_servers_are_noticed_first(prefer_message: bool, ready: Ready)
    requires
        ready.watchdog,
    ensures
        attended(prefer_message, ready) == Some(Source::Watchdog),
{
}

/// Messages do not starve the timers: at the start of each reception a timer
/// that is due is served before a message that is here.
pub proof fn messages_do_not_starve_repeats(ready: Ready)
    requires
        !ready.watchdog,
        ready.repeat,
    ensures
        attended(false, ready) == Some(Source::Repeat),
{
}

/// Timers do not starve the messages: once a timer has been served a message
/// that is here is next, however many timers are overdue.
pub proof fn repeats_do_not_starve_messages(ready: Ready)
    requires
        !ready.watchdog,
        ready.message,
    ensures
        attended(true, ready) == Some(Source::Message),
{
}

/// Nothing is attended to that has not come, and nothing that has come is passed
/// over for good: as long as something has come, something is attended to.
pub proof fn only_what_has_come_is_attended_to(prefer_message: bool, ready: Ready)
    ensures
        attended(prefer_message, ready) matches Some(source) ==> has_come(ready, source),
        attended(prefer_message, ready) is None <==> !ready.watchdog && !ready.repeat
            && !ready.message,
{
}

/// What a client finds when it looks: what has come, how the timers go if they are
/// served now, and what the message is if it is here.
pub struct Look {
    pub ready: Ready,
    pub served: Result<(), InputError>,
    pub message: Result<Update, ErrorKind>,
}

/// What comes of a reception after some looks: how it ends, if it does, and how
/// often the timers have been served by then.
pub open spec fn reception(prefer_message: bool, looks: Seq<Look>) -> (
    Option<Result<Update, ReceiveError>>,
    nat,
)
    decreases looks.len(),
{
    if looks.len() == 0 {
        (None, 0)
    } else {
        let look = looks[0];
        match attended(prefer_message, look.ready) {
            None => reception(prefer_message, looks.skip(1)),
            Some(Source::Watchdog) => (
                Some(Err(ReceiveError::Network(NetworkError::PingTimedOut))),
                0,
            ),
            Some(Source::Message) => (Some(handed_on(look.message)), 0),
            Some(Source::Repeat) => match look.served {
                Err(error) => (Some(Err(ReceiveError::Input(error))), 1),
                Ok(_) => {
                    let (outcome, times) = reception(true, looks.skip(1));
                    (outcome, times + 1)
                },
            },
        }
    }
}

/// In how many of some looks a timer was due.
pub open spec fn times_due(looks: Seq<Look>) -> nat
    decreases looks.len(),
{
    if looks.len() == 0 {
        0
    } else {
        times_due(looks.skip(1)) + if looks[0].ready.repeat {
            1nat
        } else {
            0nat
        }
    }
}

/// The timers are served only when one is due, so never where none ever is.
pub proof fn only_due_timers_are_served(prefer_message: bool, looks: Seq<Look>)
    ensures
        reception(prefer_message, looks).1 <= times_due(looks),
    decreases looks.len(),
{
    if looks.len() > 0 {
        only_due_timers_are_served(prefer_message, looks.skip(1));
        only_due_timers_are_served(true, looks.skip(1));
    }
}

/// A message that becomes complete is received as it came, however often the
/// timers were served while it was still incomplete: as long as the server is
/// not silent for too long and the timers do not fail, the reception ends with
/// it at the second look that finds it, if not at the first.
pub proof fn complete_messages_are_received(
    prefer_message: bool,
    looks: Seq<Look>,
    update: Update,
    complete: int,
)
    requires
        0 <= complete,
        complete + 1 < looks.len(),
        forall|i: int|
            0 <= i < looks.len() ==> {
                &&& !(#[trigger] looks[i]).ready.watchdog
                &&& looks[i].served is Ok
                &&& looks[i].ready.message <==> complete <= i
                &&& looks[i].ready.message ==> looks[i].message == Ok::<Update, ErrorKind>(update)
            },
    ensures
        reception(prefer_message, looks).0 == Some(Ok::<Update, ReceiveError>(update)),
    decreases looks.len(),
{
    let rest = looks.skip(1);
    assert(looks[0].served is Ok);
    assert(looks[1].served is Ok);
    assert(rest[0] == looks[1]);
    if complete > 0 {
        assert forall|i: int| 0 <= i < rest.len() implies {
            &&& !(#[trigger] rest[i]).ready.watchdog
            &&& rest[i].served is Ok
            &&& rest[i].ready.message <==> complete - 1 <= i
            &&& rest[i].ready.message ==> rest[i].message == Ok::<Update, ErrorKind>(update)
        } by {
            assert(rest[i] == looks[i + 1]);
        }
        complete_messages_are_received(prefer_message, rest, update, complete - 1);
        complete_messages_are_received(true, rest, update, complete - 1);
    } else {
        assert(attended(true, rest[0].ready) == Some(Source::Message));
    }
}

/// A message is handed on as it came, and what keeps one from coming is told apart:
/// a transport that fails and a server that is silent are failures of the network,
/// a timer that fails is one of the inputs, and the client ends with that very
/// failure.
pub proof fn failures_are_told_apart<T>(
    message: Result<T, ErrorKind>,
    error: ReceiveError,
    served: Result<(), InputError>,
    prefer_message: bool,
)
    ensures
        match message {
            Ok(update) => handed_on(message) == Ok::<T, ReceiveError>(update),
            Err(kind) => handed_on(message) == Err::<T, ReceiveError>(
                ReceiveError::Network(NetworkError::Transport { kind }),
            ),
        },
        match error {
            ReceiveError::Network(cause) => client_error(error) == Error::Network(cause),
            ReceiveError::Input(cause) => client_error(error) == Error::Input(cause),
        },
        match served {
            Ok(_) => after_timers(prefer_message, served) == (Ok::<(), ReceiveError>(()), true),
            Err(cause) => after_timers(prefer_message, served) == (
                Err::<(), ReceiveError>(ReceiveError::Input(cause)),
                prefer_message,
            ),
        },
{
}

/// The order in which a client looks is the one in which it attends: the first that
/// has come, and each source is looked at.
pub proof fn looks_are_complete(prefer_message: bool, ready: Ready, source: Source)
    ensures
        order_of(prefer_message).len() == 3,
        order_of(prefer_message).contains(source),
        order_of(prefer_message)[0] == Source::Watchdog,
        order_of(prefer_message)[1] == Source::Message <==> prefer_message,
        order_of(prefer_message)[2] == Source::Message <==> !prefer_message,
        ready.repeat && !ready.watchdog && !(prefer_message && ready.message) ==> attended(
            prefer_message,
            ready,
        ) == Some(Source::Repeat),
        ready.message && !ready.watchdog && !ready.repeat ==> attended(prefer_message, ready)
            == Some(Source::Message),
{
    let order = order_of(prefer_message);
    assert(order[0] == Source::Watchdog);
    assert(order.contains(order[0]) && order.contains(order[1]) && order.contains(order[2]));
}

} // verus!
