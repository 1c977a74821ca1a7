//! Failures of the input side and of the network side.
use vstd::prelude::*;

verus! {

/// The broad class of a failure.
#[derive(Clone, Copy, Debug, PartialEq, Eq, Structural)]
pub enum ErrorKind {
    InvalidInput,
    InvalidData,
    WouldBlock,
    PermissionDenied,
    TimedOut,
    UnexpectedEof,
    BrokenPipe,
    Other,
}

/// Why an input could not be prepared or injected.
#[derive(Clone, Copy, Debug, PartialEq, Eq, Structural)]
pub enum InputError {
    /// A device asked for a negative repeat delay or period.
    NegativeTiming,
    /// A seventh ordinary key was pressed on the virtual keyboard.
    TooManyKeys,
    /// Windows took none of the input and named no reason.
    Rejected,
    /// Windows took only the first events of a group.
    Partial { written: usize, expected: usize },
    /// Windows reported an error by number.
    Os { code: i32 },
    /// Any other failure of an input device.
    Device { kind: ErrorKind },
}

/// The class of an input failure, where it does not lie with Windows: only the
/// system knows the class of an error number of its own.
pub open spec fn input_error_kind(error: InputError) -> Option<ErrorKind> {
    match error {
        InputError::NegativeTiming => Some(ErrorKind::InvalidInput),
        InputError::TooManyKeys => Some(ErrorKind::WouldBlock),
        InputError::Rejected => Some(ErrorKind::PermissionDenied),
        InputError::Partial { .. } => Some(ErrorKind::Other),
        InputError::Os { .. } => None,
        InputError::Device { kind } => Some(kind),
    }
}

impl InputError {
    /// The class of this failure. There is none here for an error number of
    /// Windows, which is to be asked of the system.
    pub fn kind(&self) -> (kind: Option<ErrorKind>)
        ensures
            kind == input_error_kind(*self),
    {
        match self {
            InputError::NegativeTiming => Some(ErrorKind::InvalidInput),
            InputError::TooManyKeys => Some(ErrorKind::WouldBlock),
            InputError::Rejected => Some(ErrorKind::PermissionDenied),
            InputError::Partial { .. } => Some(ErrorKind::Other),
            InputError::Os { .. } => None,
            InputError::Device { kind } => Some(*kind),
        }
    }

    /// The error number of Windows, if it reported one.
    pub fn raw_os_error(&self) -> (code: Option<i32>)
        ensures
            code == match *self {
                InputError::Os { code } => Some(code),
                _ => None,
            },
    {
        match self {
            InputError::Os { code } => Some(*code),
            _ => None,
        }
    }

    /// What to tell a user; `None` where the numbers in the error are the
    /// message.
    pub fn message(&self) -> (text: Option<&'static str>)
        ensures
            match *self {
                InputError::NegativeTiming => text is Some && text->0@
                    == "Negative key repeat timing"@,
                InputError::TooManyKeys => text is Some && text->0@
                    == "virtual HID boot keyboard supports at most six simultaneous keys"@,
                InputError::Rejected => text is Some && text->0@
                    == "Windows rejected input (check the interactive desktop and application integrity level)"@,
                _ => text is None,
            },
    {
        match self {
            InputError::NegativeTiming => Some("Negative key repeat timing"),
            InputError::TooManyKeys => Some(
                "virtual HID boot keyboard supports at most six simultaneous keys",
            ),
            InputError::Rejected => Some(
                "Windows rejected input (check the interactive desktop and application integrity level)",
            ),
            _ => None,
        }
    }
}

/// Why a connection cannot go on.
#[derive(Clone, Copy, Debug, PartialEq, Eq, Structural)]
pub enum NetworkError {
    /// The server sent an event to a device that it has not created.
    UnknownDevice,
    /// The server created a device under an id that is taken.
    DuplicateDevice,
    /// The server destroyed a device that it has not created.
    MissingDevice,
    /// No ping came for too long.
    PingTimedOut,
    /// The transport failed.
    Transport { kind: ErrorKind },
}

/// The class of a network failure.
pub open spec fn network_error_kind(error: NetworkError) -> ErrorKind {
    match error {
        NetworkError::UnknownDevice => ErrorKind::InvalidData,
        NetworkError::DuplicateDevice => ErrorKind::InvalidData,
        NetworkError::MissingDevice => ErrorKind::InvalidData,
        NetworkError::PingTimedOut => ErrorKind::TimedOut,
        NetworkError::Transport { kind } => kind,
    }
}

impl NetworkError {
    /// The class of this failure.
    pub fn kind(&self) -> (kind: ErrorKind)
        ensures
            kind == network_error_kind(*self),
    {
        match self {
            NetworkError::UnknownDevice => ErrorKind::InvalidData,
            NetworkError::DuplicateDevice => ErrorKind::InvalidData,
            NetworkError::MissingDevice => ErrorKind::InvalidData,
            NetworkError::PingTimedOut => ErrorKind::TimedOut,
            NetworkError::Transport { kind } => *kind,
        }
    }

    /// What to tell a user; `None` for a failure that the transport describes.
    pub fn message(&self) -> (text: Option<&'static str>)
        ensures
            match *self {
                NetworkError::UnknownDevice => text is Some && text->0@
                    == "Server sent an event to a nonexistent device"@,
                NetworkError::DuplicateDevice => text is Some && text->0@
                    == "Server created the same device twice"@,
                NetworkError::MissingDevice => text is Some && text->0@
                    == "Server destroyed a nonexistent device"@,
                NetworkError::PingTimedOut => text is Some && text->0@ == "Ping timed out"@,
                NetworkError::Transport { .. } => text is None,
            },
    {
        match self {
            NetworkError::UnknownDevice => Some("Server sent an event to a nonexistent device"),
            NetworkError::DuplicateDevice => Some("Server created the same device twice"),
            NetworkError::MissingDevice => Some("Server destroyed a nonexistent device"),
            NetworkError::PingTimedOut => Some("Ping timed out"),
            NetworkError::Transport { .. } => None,
        }
    }
}

/// What a device or the connection said is handed on as it is, and where the system
/// gave a number the kind is left to it.
pub proof fn outside_errors_keep_their_kind(error: InputError, kind: ErrorKind)
    ensures
        input_error_kind(InputError::Device { kind }) == Some(kind),
        network_error_kind(NetworkError::Transport { kind }) == kind,
        input_error_kind(error) is None <==> error is Os,
{
}

/// The kind tells why an input was not taken: only a full report is worth another
/// try, only a desktop that refuses is a matter of rights, only a timing below zero
/// is the caller's fault, and an input that was taken in part is none of these.
pub proof fn kinds_tell_why_an_input_was_refused(error: InputError)
    requires
        !(error is Device),
    ensures
        input_error_kind(error) == Some(ErrorKind::WouldBlock) <==> error is TooManyKeys,
        input_error_kind(error) == Some(ErrorKind::PermissionDenied) <==> error is Rejected,
        input_error_kind(error) == Some(ErrorKind::InvalidInput) <==> error is NegativeTiming,
        input_error_kind(error) == Some(ErrorKind::Other) <==> error is Partial,
{
}

/// A server that falls silent has run out of time, and one that speaks of devices in
/// a way that makes no sense has sent invalid data.
pub proof fn kinds_tell_how_a_connection_ended(error: NetworkError)
    requires
        !(error is Transport),
    ensures
        network_error_kind(error) == ErrorKind::TimedOut <==> error is PingTimedOut,
        network_error_kind(error) == ErrorKind::InvalidData <==> error is UnknownDevice || error
            is DuplicateDevice || error is MissingDevice,
{
}

} // verus!
