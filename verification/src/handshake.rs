//! How the two sides of a connection agree to talk.
//!
//! Each side walks through its steps. What a step has to do is done outside; the
//! reply decides which step follows.
use vstd::prelude::*;

use crate::client::Error;
use crate::error::{ErrorKind, NetworkError};

verus! {

/// A version of the protocol.
#[derive(Clone, Copy, Debug, PartialEq, Eq, Structural)]
pub struct Version {
    pub number: u16,
}

/// What the server says of a password.
#[derive(Clone, Copy, Debug, PartialEq, Eq, Structural)]
pub enum AuthStatus {
    Passed,
    Failed,
}

/// What a client has to do next.
#[derive(Clone, Copy, Debug, PartialEq, Eq, Structural)]
pub enum ClientStep {
    SendVersion,
    AwaitVersion,
    AwaitChallenge,
    SendResponse,
    AwaitStatus,
    /// Take updates.
    Ready,
}

/// What came of a step of a client.
#[derive(Clone, Copy, Debug, PartialEq, Eq, Structural)]
pub enum ClientReply {
    Sent,
    Version(Version),
    Challenge,
    Status(AuthStatus),
    /// The network failed or took too long.
    Failed(ErrorKind),
}

/// Whether a reply can come of a step.
pub open spec fn answers_client(step: ClientStep, reply: ClientReply) -> bool {
    match step {
        ClientStep::SendVersion | ClientStep::SendResponse => reply is Sent || reply is Failed,
        ClientStep::AwaitVersion => reply is Version || reply is Failed,
        ClientStep::AwaitChallenge => reply is Challenge || reply is Failed,
        ClientStep::AwaitStatus => reply is Status || reply is Failed,
        ClientStep::Ready => false,
    }
}

/// The step that follows a reply, on a client of a version.
pub open spec fn client_step_after(current: Version, step: ClientStep, reply: ClientReply) -> Result<
    ClientStep,
    Error,
> {
    match reply {
        ClientReply::Failed(kind) => Err(Error::Network(NetworkError::Transport { kind })),
        ClientReply::Version(version) => if version == current {
            Ok(ClientStep::AwaitChallenge)
        } else {
            Err(Error::Version { server: version, client: current })
        },
        ClientReply::Challenge => Ok(ClientStep::SendResponse),
        ClientReply::Status(AuthStatus::Passed) => Ok(ClientStep::Ready),
        ClientReply::Status(AuthStatus::Failed) => Err(Error::Auth),
        ClientReply::Sent => if step == ClientStep::SendVersion {
            Ok(ClientStep::AwaitVersion)
        } else {
            Ok(ClientStep::AwaitStatus)
        },
    }
}

/// Which step follows a reply, on a client of a version.
pub fn client_step(current: Version, step: ClientStep, reply: ClientReply) -> (next: Result<
    ClientStep,
    Error,
>)
    requires
        answers_client(step, reply),
    ensures
        next == client_step_after(current, step, reply),
{
    match reply {
        ClientReply::Failed(kind) => Err(Error::Network(NetworkError::Transport { kind })),
        ClientReply::Version(version) => if version == current {
            Ok(ClientStep::AwaitChallenge)
        } else {
            Err(Error::Version { server: version, client: current })
        },
        ClientReply::Challenge => Ok(ClientStep::SendResponse),
        ClientReply::Status(AuthStatus::Passed) => Ok(ClientStep::Ready),
        ClientReply::Status(AuthStatus::Failed) => Err(Error::Auth),
        ClientReply::Sent => if matches!(step, ClientStep::SendVersion) {
            Ok(ClientStep::AwaitVersion)
        } else {
            Ok(ClientStep::AwaitStatus)
        },
    }
}

/// Why the server ends a connection.
#[derive(Clone, Copy, Debug, PartialEq, Eq, Structural)]
pub enum ClientError {
    /// The network failed or took too long.
    Io(ErrorKind),
    /// The two sides speak different versions.
    Version { server: Version, client: Version },
    /// The password is wrong.
    Auth,
    /// No challenge could be made.
    Rand,
}

/// What a server has to do next for a connection.
#[derive(Clone, Copy, Debug, PartialEq, Eq, Structural)]
pub enum ServerStep {
    SendVersion,
    AwaitVersion,
    MakeChallenge,
    SendChallenge,
    AwaitResponse,
    SendStatus(AuthStatus),
    /// Send updates.
    Ready,
}

/// What came of a step of a server.
#[derive(Clone, Copy, Debug, PartialEq, Eq, Structural)]
pub enum ServerReply {
    Sent,
    Version(Version),
    /// A challenge was made, or there was no randomness for it.
    Challenge { made: bool },
    /// A response came that fits the challenge and the password, or does not.
    Response { fits: bool },
    /// The network failed or took too long.
    Failed(ErrorKind),
}

/// Whether a reply can come of a step.
pub open spec fn answers_server(step: ServerStep, reply: ServerReply) -> bool {
    match step {
        ServerStep::SendVersion | ServerStep::SendChallenge | ServerStep::SendStatus(_) => reply is Sent
            || reply is Failed,
        ServerStep::AwaitVersion => reply is Version || reply is Failed,
        ServerStep::MakeChallenge => reply is Challenge,
        ServerStep::AwaitResponse => reply is Response || reply is Failed,
        ServerStep::Ready => false,
    }
}

/// The step that follows a reply, on a server of a version. A client whose
/// password is wrong is told so before the connection ends.
pub open spec fn server_step_after(current: Version, step: ServerStep, reply: ServerReply) -> Result<
    ServerStep,
    ClientError,
> {
    match reply {
        ServerReply::Failed(kind) => Err(ClientError::Io(kind)),
        ServerReply::Version(version) => if version == current {
            Ok(ServerStep::MakeChallenge)
        } else {
            Err(ClientError::Version { server: current, client: version })
        },
        ServerReply::Challenge { made } => if made {
            Ok(ServerStep::SendChallenge)
        } else {
            Err(ClientError::Rand)
        },
        ServerReply::Response { fits } => Ok(
            ServerStep::SendStatus(
                if fits {
                    AuthStatus::Passed
                } else {
                    AuthStatus::Failed
                },
            ),
        ),
        ServerReply::Sent => match step {
            ServerStep::SendVersion => Ok(ServerStep::AwaitVersion),
            ServerStep::SendStatus(AuthStatus::Passed) => Ok(ServerStep::Ready),
            ServerStep::SendStatus(AuthStatus::Failed) => Err(ClientError::Auth),
            _ => Ok(ServerStep::AwaitResponse),
        },
    }
}

/// Which step follows a reply, on a server of a version.
pub fn server_step(current: Version, step: ServerStep, reply: ServerReply) -> (next: Result<
    ServerStep,
    ClientError,
>)
    requires
        answers_server(step, reply),
    ensures
        next == server_step_after(current, step, reply),
{
    match reply {
        ServerReply::Failed(kind) => Err(ClientError::Io(kind)),
        ServerReply::Version(version) => if version == current {
            Ok(ServerStep::MakeChallenge)
        } else {
            Err(ClientError::Version { server: current, client: version })
        },
        ServerReply::Challenge { made } => if made {
            Ok(ServerStep::SendChallenge)
        } else {
            Err(ClientError::Rand)
        },
        ServerReply::Response { fits } => {
            let status = if fits {
                AuthStatus::Passed
            } else {
                AuthStatus::Failed
            };
            Ok(ServerStep::SendStatus(status))
        },
        ServerReply::Sent => match step {
            ServerStep::SendVersion => Ok(ServerStep::AwaitVersion),
            ServerStep::SendStatus(AuthStatus::Passed) => Ok(ServerStep::Ready),
            ServerStep::SendStatus(AuthStatus::Failed) => Err(ClientError::Auth),
            _ => Ok(ServerStep::AwaitResponse),
        },
    }
}

/// The step of a server after some replies, as long as each can come of the step
/// before and none ends the connection.
pub open spec fn server_step_after_all(current: Version, replies: Seq<ServerReply>) -> Option<
    ServerStep,
>
    decreases replies.len(),
{
    if replies.len() == 0 {
        Some(ServerStep::SendVersion)
    } else {
        match server_step_after_all(current, replies.drop_last()) {
            Some(step) => if answers_server(step, replies.last()) {
                match server_step_after(current, step, replies.last()) {
                    Ok(next) => Some(next),
                    Err(_) => None,
                }
            } else {
                None
            },
            None => None,
        }
    }
}

/// The step of a client after some replies, as long as each can come of the step
/// before and none ends the connection.
pub open spec fn client_step_after_all(current: Version, replies: Seq<ClientReply>) -> Option<
    ClientStep,
>
    decreases replies.len(),
{
    if replies.len() == 0 {
        Some(ClientStep::SendVersion)
    } else {
        match client_step_after_all(current, replies.drop_last()) {
            Some(step) => if answers_client(step, replies.last()) {
                match client_step_after(current, step, replies.last()) {
                    Ok(next) => Some(next),
                    Err(_) => None,
                }
            } else {
                None
            },
            None => None,
        }
    }
}

/// How many replies lead a server to a step.
spec fn server_place(step: ServerStep) -> int {
    match step {
        ServerStep::SendVersion => 0,
        ServerStep::AwaitVersion => 1,
        ServerStep::MakeChallenge => 2,
        ServerStep::SendChallenge => 3,
        ServerStep::AwaitResponse => 4,
        ServerStep::SendStatus(_) => 5,
        ServerStep::Ready => 6,
    }
}

proof fn lemma_server_replies(current: Version, replies: Seq<ServerReply>)
    ensures
        server_step_after_all(current, replies) matches Some(step) ==> {
            &&& replies.len() == server_place(step)
            &&& replies.len() > 1 ==> replies[1] == ServerReply::Version(current)
            &&& step == ServerStep::SendStatus(AuthStatus::Passed) || step is Ready ==> replies[4]
                == (ServerReply::Response { fits: true })
        },
    decreases replies.len(),
{
    if replies.len() > 0 {
        lemma_server_replies(current, replies.drop_last());
    }
}

/// A server sends updates only to a client that speaks its version and has
/// proved that it knows the password.
pub proof fn only_known_clients_are_served(current: Version, replies: Seq<ServerReply>)
    requires
        server_step_after_all(current, replies) == Some(ServerStep::Ready),
    ensures
        replies.contains(ServerReply::Version(current)),
        replies.contains((ServerReply::Response { fits: true })),
{
    lemma_server_replies(current, replies);
    assert(replies.contains(replies[1]));
    assert(replies.contains(replies[4]));
}

/// How many replies lead a client to a step.
spec fn client_place(step: ClientStep) -> int {
    match step {
        ClientStep::SendVersion => 0,
        ClientStep::AwaitVersion => 1,
        ClientStep::AwaitChallenge => 2,
        ClientStep::SendResponse => 3,
        ClientStep::AwaitStatus => 4,
        ClientStep::Ready => 5,
    }
}

proof fn lemma_client_replies(current: Version, replies: Seq<ClientReply>)
    ensures
        client_step_after_all(current, replies) matches Some(step) ==> {
            &&& replies.len() == client_place(step)
            &&& replies.len() > 1 ==> replies[1] == ClientReply::Version(current)
            &&& step is Ready ==> replies[4] == ClientReply::Status(AuthStatus::Passed)
        },
    decreases replies.len(),
{
    if replies.len() > 0 {
        lemma_client_replies(current, replies.drop_last());
    }
}

/// A client takes updates only from a server that speaks its version and has
/// accepted its password.
pub proof fn only_accepted_clients_take_updates(current: Version, replies: Seq<ClientReply>)
    requires
        client_step_after_all(current, replies) == Some(ClientStep::Ready),
    ensures
        replies.contains(ClientReply::Version(current)),
        replies.contains(ClientReply::Status(AuthStatus::Passed)),
{
    lemma_client_replies(current, replies);
    assert(replies.contains(replies[1]));
    assert(replies.contains(replies[4]));
}

/// A refused password is answered: the server ends such a connection only after
/// it has sent that the password failed, and the client then ends for that
/// reason.
pub proof fn refused_passwords_are_answered(current: Version)
    ensures
        server_step_after(
            current,
            ServerStep::AwaitResponse,
            (ServerReply::Response { fits: false }),
        ) == Ok::<ServerStep, ClientError>(ServerStep::SendStatus(AuthStatus::Failed)),
        server_step_after(
            current,
            ServerStep::SendStatus(AuthStatus::Failed),
            ServerReply::Sent,
        ) == Err::<ServerStep, ClientError>(ClientError::Auth),
        client_step_after(
            current,
            ClientStep::AwaitStatus,
            ClientReply::Status(AuthStatus::Failed),
        ) == Err::<ClientStep, Error>(Error::Auth),
{
}

/// The replies with which a server comes to send updates.
pub open spec fn server_replies(current: Version) -> Seq<ServerReply> {
    seq![
        ServerReply::Sent,
        ServerReply::Version(current),
        ServerReply::Challenge { made: true },
        ServerReply::Sent,
        ServerReply::Response { fits: true },
        ServerReply::Sent,
    ]
}

/// The steps that a server takes one after the other.
pub open spec fn server_steps() -> Seq<ServerStep> {
    seq![
        ServerStep::SendVersion,
        ServerStep::AwaitVersion,
        ServerStep::MakeChallenge,
        ServerStep::SendChallenge,
        ServerStep::AwaitResponse,
        ServerStep::SendStatus(AuthStatus::Passed),
        ServerStep::Ready,
    ]
}

proof fn lemma_server_path(current: Version, replies: Seq<ServerReply>)
    ensures
        server_step_after_all(current, replies) matches Some(step) ==> step
            == ServerStep::SendStatus(AuthStatus::Failed) || replies.len() <= 6 && replies
            == server_replies(current).take(replies.len() as int) && step
            == server_steps()[replies.len() as int],
    decreases replies.len(),
{
    if replies.len() > 0 {
        let earlier = replies.drop_last();
        lemma_server_path(current, earlier);
        lemma_server_replies(current, earlier);
        if server_step_after_all(current, replies) matches Some(step) && step
            != ServerStep::SendStatus(AuthStatus::Failed) {
            let before = server_step_after_all(current, earlier)->0;
            assert(before != ServerStep::SendStatus(AuthStatus::Failed));
            assert(earlier.len() < 6);
            assert(server_replies(current).take(replies.len() as int).drop_last()
                =~= server_replies(current).take(earlier.len() as int));
            assert(replies =~= earlier.push(replies.last()));
            assert(server_replies(current).take(replies.len() as int)
                =~= server_replies(current).take(earlier.len() as int).push(
                server_replies(current)[earlier.len() as int],
            ));
        }
    }
}

proof fn lemma_server_gets_there(current: Version, count: int)
    requires
        0 <= count <= 6,
    ensures
        server_step_after_all(current, server_replies(current).take(count)) == Some(
            server_steps()[count],
        ),
    decreases count,
{
    if count > 0 {
        lemma_server_gets_there(current, count - 1);
        let replies = server_replies(current).take(count);
        assert(replies.drop_last() =~= server_replies(current).take(count - 1));
        assert(replies.last() == server_replies(current)[count - 1]);
    }
}

/// A server comes to send updates in one way only: it sends its version, gets the
/// same one, makes and sends a challenge, gets a response that fits, and says so. It
/// takes these steps in this order.
pub proof fn servers_take_their_steps_in_order(
    current: Version,
    replies: Seq<ServerReply>,
    count: int,
)
    requires
        0 <= count <= 6,
    ensures
        server_step_after_all(current, replies) == Some(ServerStep::Ready) <==> replies
            == server_replies(current),
        server_step_after_all(current, server_replies(current).take(count)) == Some(
            server_steps()[count],
        ),
{
    lemma_server_path(current, replies);
    lemma_server_replies(current, replies);
    lemma_server_gets_there(current, count);
    lemma_server_gets_there(current, 6);
    assert(server_replies(current).take(6) =~= server_replies(current));
}

/// What goes wrong ends the connection with its reason: a failure of the network
/// with that failure, another version with both versions, the own one as that of
/// the server, and a missing challenge with that. Only a response that does not fit
/// is answered first.
pub proof fn servers_end_with_the_reason(current: Version, step: ServerStep, reply: ServerReply)
    requires
        answers_server(step, reply),
    ensures
        match reply {
            ServerReply::Failed(kind) => server_step_after(current, step, reply) == Err::<
                ServerStep,
                ClientError,
            >(ClientError::Io(kind)),
            ServerReply::Version(got) => if got != current {
                server_step_after(current, step, reply) == Err::<ServerStep, ClientError>(
                    ClientError::Version { server: current, client: got },
                )
            } else {
                server_step_after(current, step, reply) is Ok
            },
            ServerReply::Challenge { made } => if made {
                server_step_after(current, step, reply) is Ok
            } else {
                server_step_after(current, step, reply) == Err::<ServerStep, ClientError>(
                    ClientError::Rand,
                )
            },
            ServerReply::Response { fits } => server_step_after(current, step, reply) matches Ok(
                next,
            ) && (next == ServerStep::SendStatus(AuthStatus::Passed) <==> fits) && (next
                == ServerStep::SendStatus(AuthStatus::Failed) <==> !fits),
            ServerReply::Sent => server_step_after(current, step, reply) is Err <==> step
                == ServerStep::SendStatus(AuthStatus::Failed),
        },
{
}

/// The replies with which a client comes to take updates.
pub open spec fn client_replies(current: Version) -> Seq<ClientReply> {
    seq![
        ClientReply::Sent,
        ClientReply::Version(current),
        ClientReply::Challenge,
        ClientReply::Sent,
        ClientReply::Status(AuthStatus::Passed),
    ]
}

/// The steps that a client takes one after the other.
pub open spec fn client_steps() -> Seq<ClientStep> {
    seq![
        ClientStep::SendVersion,
        ClientStep::AwaitVersion,
        ClientStep::AwaitChallenge,
        ClientStep::SendResponse,
        ClientStep::AwaitStatus,
        ClientStep::Ready,
    ]
}

proof fn lemma_client_path(current: Version, replies: Seq<ClientReply>)
    ensures
        client_step_after_all(current, replies) matches Some(step) ==> replies.len() <= 5 && replies
            == client_replies(current).take(replies.len() as int) && step
            == client_steps()[replies.len() as int],
    decreases replies.len(),
{
    if replies.len() > 0 {
        let earlier = replies.drop_last();
        lemma_client_path(current, earlier);
        lemma_client_replies(current, earlier);
        if client_step_after_all(current, replies) is Some {
            assert(earlier.len() < 5);
            assert(replies =~= earlier.push(replies.last()));
            assert(client_replies(current).take(replies.len() as int)
                =~= client_replies(current).take(earlier.len() as int).push(
                client_replies(current)[earlier.len() as int],
            ));
        }
    }
}

proof fn lemma_client_gets_there(current: Version, count: int)
    requires
        0 <= count <= 5,
    ensures
        client_step_after_all(current, client_replies(current).take(count)) == Some(
            client_steps()[count],
        ),
    decreases count,
{
    if count > 0 {
        lemma_client_gets_there(current, count - 1);
        let replies = client_replies(current).take(count);
        assert(replies.drop_last() =~= client_replies(current).take(count - 1));
        assert(replies.last() == client_replies(current)[count - 1]);
    }
}

/// A client comes to take updates in one way only: it sends its version, gets the
/// same one and a challenge, answers that, and hears that the password was accepted.
/// It takes these steps in this order.
pub proof fn clients_take_their_steps_in_order(
    current: Version,
    replies: Seq<ClientReply>,
    count: int,
)
    requires
        0 <= count <= 5,
    ensures
        client_step_after_all(current, replies) == Some(ClientStep::Ready) <==> replies
            == client_replies(current),
        client_step_after_all(current, client_replies(current).take(count)) == Some(
            client_steps()[count],
        ),
{
    lemma_client_path(current, replies);
    lemma_client_replies(current, replies);
    lemma_client_gets_there(current, count);
    lemma_client_gets_there(current, 5);
    assert(client_replies(current).take(5) =~= client_replies(current));
}

/// What goes wrong ends the client with its reason: a failure of the network with
/// that failure, another version with the one that the server sent and the own one,
/// and a refused password with that.
pub proof fn clients_end_with_the_reason(current: Version, step: ClientStep, reply: ClientReply)
    requires
        answers_client(step, reply),
    ensures
        match reply {
            ClientReply::Failed(kind) => client_step_after(current, step, reply) == Err::<
                ClientStep,
                Error,
            >(Error::Network(NetworkError::Transport { kind })),
            ClientReply::Version(got) => if got != current {
                client_step_after(current, step, reply) == Err::<ClientStep, Error>(
                    Error::Version { server: got, client: current },
                )
            } else {
                client_step_after(current, step, reply) is Ok
            },
            ClientReply::Status(status) => (client_step_after(current, step, reply) == Err::<
                ClientStep,
                Error,
            >(Error::Auth) <==> status == AuthStatus::Failed) && (client_step_after(
                current,
                step,
                reply,
            ) is Ok <==> status == AuthStatus::Passed),
            ClientReply::Challenge | ClientReply::Sent => client_step_after(current, step, reply)
                is Ok,
        },
{
}

} // verus!
