//! Which desktop agent runs in which session, and when.
//!
//! The service keeps one agent in the active console session. It moves the agent
//! between the normal and the logon desktop on logon and logoff, and starts it
//! again some time after it has exited.
use vstd::prelude::*;

use crate::repeat::{later, moment_after, LATEST_MOMENT};

verus! {

/// What the system reports while no session is attached to the console.
pub const NO_SESSION: u32 = 0xffff_ffff;

/// How long the service waits before it starts an agent again, in milliseconds.
pub const AGENT_RETRY_MS: u32 = 2_000;

/// How long an agent gets to stop by itself, in milliseconds.
pub const AGENT_STOP_TIMEOUT_MS: u32 = 5_000;

/// Results of a wait on a system object.
pub const WAIT_OBJECT_0: u32 = 0;

pub const WAIT_TIMEOUT: u32 = 258;

pub const WAIT_FAILED: u32 = 0xffff_ffff;

/// What the result of resuming a thread is when that failed.
pub const RESUME_FAILED: u32 = 0xffff_ffff;

/// A desktop on which an agent can run.
#[derive(Clone, Copy, Debug, PartialEq, Eq, Structural)]
pub enum Desktop {
    Default,
    Winlogon,
}

/// The name of a desktop.
pub open spec fn desktop_name(desktop: Desktop) -> Seq<char> {
    match desktop {
        Desktop::Default => "winsta0\\default"@,
        Desktop::Winlogon => "winsta0\\winlogon"@,
    }
}

/// Whether a desktop takes input only from those who have a right to it.
pub open spec fn is_protected(desktop: Desktop) -> bool {
    desktop == Desktop::Winlogon
}

impl Desktop {
    /// The name by which the system knows the desktop.
    pub fn name(self) -> (name: &'static str)
        ensures
            name@ == desktop_name(self),
    {
        match self {
            Desktop::Default => "winsta0\\default",
            Desktop::Winlogon => "winsta0\\winlogon",
        }
    }

    /// Whether an agent needs the right to drive a protected desktop. Input is
    /// otherwise rejected on the logon desktop; normal-desktop agents go
    /// without.
    pub fn needs_ui_access(self) -> (needed: bool)
        ensures
            needed == is_protected(self),
    {
        matches!(self, Desktop::Winlogon)
    }
}

/// Why the system reports a change of a session.
#[derive(Clone, Copy, Debug, PartialEq, Eq, Structural)]
pub enum SessionChangeReason {
    ConsoleConnect,
    ConsoleDisconnect,
    RemoteConnect,
    RemoteDisconnect,
    SessionLogon,
    SessionLogoff,
    SessionLock,
    SessionUnlock,
    SessionRemoteControl,
    SessionCreate,
    SessionTerminate,
}

/// The desktop that belongs to a session after a change.
pub open spec fn desktop_changed(reason: SessionChangeReason, current: Desktop) -> Desktop {
    match reason {
        SessionChangeReason::SessionLogon => Desktop::Default,
        SessionChangeReason::SessionLogoff => Desktop::Winlogon,
        _ => current,
    }
}

/// The desktop on which the agent of a session belongs after a change.
///
/// The virtual HID device is independent of the interactive desktop. Keeping
/// the agent on a lock or an unlock also preserves its authenticated
/// connection.
pub fn desktop_after_change(reason: SessionChangeReason, current: Desktop) -> (desktop: Desktop)
    ensures
        desktop == desktop_changed(reason, current),
{
    match reason {
        SessionChangeReason::SessionLogon => Desktop::Default,
        SessionChangeReason::SessionLogoff => Desktop::Winlogon,
        _ => current,
    }
}

/// The desktop on which the agent of a session starts.
pub open spec fn desktop_at_start(session_id: u32, has_user: bool) -> Desktop {
    if session_id != NO_SESSION && has_user {
        Desktop::Default
    } else {
        Desktop::Winlogon
    }
}

/// The desktop on which the agent of a session starts, given whether a user is
/// logged on there.
pub fn initial_desktop(session_id: u32, has_user: bool) -> (desktop: Desktop)
    ensures
        desktop == desktop_at_start(session_id, has_user),
{
    if session_id != NO_SESSION && has_user {
        Desktop::Default
    } else {
        Desktop::Winlogon
    }
}

/// Whether a query for the name of a session's user found one.
pub open spec fn names_a_user(success: i32, name: Option<Seq<u16>>) -> bool {
    success != 0 && match name {
        Some(name) => name.len() > 0 && name[0] != 0,
        None => false,
    }
}

/// Whether a query for the name of a session's user found one. `success` is the
/// result of the query, zero if it failed, and `name` what it returned, if it
/// returned anything.
pub fn session_has_user(success: i32, name: Option<&[u16]>) -> (has_user: bool)
    ensures
        has_user == names_a_user(
            success,
            match name {
                Some(name) => Some(name@),
                None => None,
            },
        ),
{
    if success == 0 {
        return false;
    }
    match name {
        Some(name) => name.len() > 0 && name[0] != 0,
        None => false,
    }
}

/// A request to the service.
#[derive(Clone, Copy, Debug, PartialEq, Eq, Structural)]
pub enum ServiceRequest {
    Interrogate,
    Stop,
    Shutdown,
    SessionChange { session_id: u32, reason: SessionChangeReason },
    Other,
}

/// What the supervisor is told.
#[derive(Clone, Copy, Debug, PartialEq, Eq, Structural)]
pub enum Control {
    Stop,
    SessionChange { session_id: u32, reason: SessionChangeReason },
}

/// What the supervisor is told about a request, if anything, and whether the
/// service implements it.
pub open spec fn control_of(request: ServiceRequest) -> (Option<Control>, bool) {
    match request {
        ServiceRequest::Interrogate => (None, true),
        ServiceRequest::Stop | ServiceRequest::Shutdown => (Some(Control::Stop), true),
        ServiceRequest::SessionChange { session_id, reason } => (
            Some(Control::SessionChange { session_id, reason }),
            true,
        ),
        ServiceRequest::Other => (None, false),
    }
}

/// What the supervisor is told about a request, if anything, and whether the
/// service implements it.
pub fn control_for(request: ServiceRequest) -> (answer: (Option<Control>, bool))
    ensures
        answer == control_of(request),
{
    match request {
        ServiceRequest::Interrogate => (None, true),
        ServiceRequest::Stop | ServiceRequest::Shutdown => (Some(Control::Stop), true),
        ServiceRequest::SessionChange { session_id, reason } => (
            Some(Control::SessionChange { session_id, reason }),
            true,
        ),
        ServiceRequest::Other => (None, false),
    }
}

/// What the supervisor waited for.
#[derive(Clone, Copy, Debug, PartialEq, Eq, Structural)]
pub enum Wakeup {
    Control(Control),
    Timeout,
    Disconnected,
}

/// Why a wait on a system object failed.
#[derive(Clone, Copy, Debug, PartialEq, Eq, Structural)]
pub enum WaitError {
    /// The system reported an error.
    Os { code: i32 },
    /// The system reported a result that no such wait has.
    Unexpected { result: u32 },
}

/// Whether an object was signaled, from the result of a wait and the error that
/// the system reported last.
pub open spec fn signaled_after(result: u32, os_error: i32) -> Result<bool, WaitError> {
    if result == WAIT_OBJECT_0 {
        Ok(true)
    } else if result == WAIT_TIMEOUT {
        Ok(false)
    } else if result == WAIT_FAILED {
        Err(WaitError::Os { code: os_error })
    } else {
        Err(WaitError::Unexpected { result })
    }
}

/// Whether a stop event has been set, from the result of a wait for it.
pub fn stop_requested(result: u32, os_error: i32) -> (requested: Result<bool, WaitError>)
    ensures
        requested == signaled_after(result, os_error),
{
    if result == WAIT_OBJECT_0 {
        Ok(true)
    } else if result == WAIT_TIMEOUT {
        Ok(false)
    } else if result == WAIT_FAILED {
        Err(WaitError::Os { code: os_error })
    } else {
        Err(WaitError::Unexpected { result })
    }
}

/// Whether an agent is running, from the result of a wait for its end and the error
/// that the system reported last.
pub open spec fn running_after(result: u32, os_error: i32) -> Result<bool, WaitError> {
    match signaled_after(result, os_error) {
        Ok(ended) => Ok(!ended),
        Err(error) => Err(error),
    }
}

/// Whether an agent is running, from the result of a wait for its end.
pub fn is_running(result: u32, os_error: i32) -> (running: Result<bool, WaitError>)
    ensures
        running == running_after(result, os_error),
{
    match stop_requested(result, os_error) {
        Ok(ended) => Ok(!ended),
        Err(error) => Err(error),
    }
}

/// How an agent took the request to stop.
#[derive(Clone, Copy, Debug, PartialEq, Eq, Structural)]
pub enum StopOutcome {
    /// It stopped by itself.
    Clean,
    /// It did not stop, and has to be terminated.
    Terminate,
    /// The wait for it failed.
    Failed,
}

/// How an agent took the request to stop, from the result of a wait for its end.
pub open spec fn outcome_of_stop(result: u32) -> StopOutcome {
    if result == WAIT_OBJECT_0 {
        StopOutcome::Clean
    } else if result == WAIT_TIMEOUT {
        StopOutcome::Terminate
    } else {
        StopOutcome::Failed
    }
}

/// How an agent took the request to stop, from the result of a wait for its end.
pub fn stop_outcome(result: u32) -> (outcome: StopOutcome)
    ensures
        outcome == outcome_of_stop(result),
{
    if result == WAIT_OBJECT_0 {
        StopOutcome::Clean
    } else if result == WAIT_TIMEOUT {
        StopOutcome::Terminate
    } else {
        StopOutcome::Failed
    }
}

/// The steps of a start of an agent that can fail once it has been prepared.
#[derive(Clone, Copy, Debug, PartialEq, Eq, Structural)]
pub enum SpawnStep {
    /// Create the process, suspended.
    Create,
    /// Tie the process to the life of the service.
    AssignJob,
    /// Let the process run.
    Resume,
}

/// What follows a step of a start.
#[derive(Clone, Copy, Debug, PartialEq, Eq, Structural)]
pub enum SpawnVerdict {
    /// Go on.
    Continue,
    /// Give up; there is no process.
    Fail,
    /// End the process, which must not be left behind, and give up.
    TerminateAndFail,
}

/// What follows a step of a start, from its result.
pub open spec fn verdict_after(step: SpawnStep, result: u32) -> SpawnVerdict {
    match step {
        SpawnStep::Create => if result == 0 {
            SpawnVerdict::Fail
        } else {
            SpawnVerdict::Continue
        },
        SpawnStep::AssignJob => if result == 0 {
            SpawnVerdict::TerminateAndFail
        } else {
            SpawnVerdict::Continue
        },
        SpawnStep::Resume => if result == RESUME_FAILED {
            SpawnVerdict::TerminateAndFail
        } else {
            SpawnVerdict::Continue
        },
    }
}

/// What follows a step of a start, from its result.
pub fn after_spawn_step(step: SpawnStep, result: u32) -> (verdict: SpawnVerdict)
    ensures
        verdict == verdict_after(step, result),
{
    match step {
        SpawnStep::Create => if result == 0 {
            SpawnVerdict::Fail
        } else {
            SpawnVerdict::Continue
        },
        SpawnStep::AssignJob => if result == 0 {
            SpawnVerdict::TerminateAndFail
        } else {
            SpawnVerdict::Continue
        },
        SpawnStep::Resume => if result == RESUME_FAILED {
            SpawnVerdict::TerminateAndFail
        } else {
            SpawnVerdict::Continue
        },
    }
}

/// The error that the system reports when it enabled only some privileges.
pub const ERROR_NOT_ALL_ASSIGNED: u32 = 1300;

/// Why the token of an agent could not be prepared.
#[derive(Clone, Copy, Debug, PartialEq, Eq, Structural)]
pub enum TokenError {
    /// The system reported an error.
    Os { code: u32 },
    /// The system did not keep the right to drive a protected desktop.
    UiAccessDropped,
}

/// Whether a privilege has been enabled, from the result of the request and the
/// error that the system then reported.
pub open spec fn privilege_after(adjusted: i32, os_error: u32) -> Result<(), TokenError> {
    if adjusted == 0 || os_error == ERROR_NOT_ALL_ASSIGNED {
        Err(TokenError::Os { code: os_error })
    } else {
        Ok(())
    }
}

/// Whether a privilege has been enabled, from the result of the request and the
/// error that the system then reported. A request can succeed and still enable
/// nothing.
pub fn privilege_outcome(adjusted: i32, os_error: u32) -> (outcome: Result<(), TokenError>)
    ensures
        outcome == privilege_after(adjusted, os_error),
{
    if adjusted == 0 || os_error == ERROR_NOT_ALL_ASSIGNED {
        Err(TokenError::Os { code: os_error })
    } else {
        Ok(())
    }
}

/// Whether a token got the right to drive a protected desktop.
pub open spec fn ui_access_after(set: i32, read: i32, actual: u32, os_error: u32) -> Result<
    (),
    TokenError,
> {
    if set == 0 || read == 0 {
        Err(TokenError::Os { code: os_error })
    } else if actual == 0 {
        Err(TokenError::UiAccessDropped)
    } else {
        Ok(())
    }
}

/// Whether a token got the right to drive a protected desktop, from the results
/// of asking for it and of reading it back, the value read, and the error that
/// the system reported last.
pub fn ui_access_outcome(set: i32, read: i32, actual: u32, os_error: u32) -> (outcome: Result<
    (),
    TokenError,
>)
    ensures
        outcome == ui_access_after(set, read, actual, os_error),
{
    if set == 0 || read == 0 {
        Err(TokenError::Os { code: os_error })
    } else if actual == 0 {
        Err(TokenError::UiAccessDropped)
    } else {
        Ok(())
    }
}

/// The state of the supervision: where an agent belongs, which process it is,
/// and from when on one may be started.
#[derive(Clone, Copy, Debug, PartialEq, Eq, Structural)]
pub struct Supervisor {
    pub session: u32,
    pub desktop: Desktop,
    pub agent: Option<u32>,
    pub retry_at: u64,
}

/// What the supervisor does about a wakeup.
#[derive(Clone, Copy, Debug, PartialEq, Eq, Structural)]
pub enum ControlAction {
    /// Nothing changes.
    Nothing,
    /// The agent moves to another desktop; stop the running one.
    Switch { from: Desktop, to: Desktop, stop: Option<u32> },
    /// The service ends; stop the running agent.
    Quit { stop: Option<u32> },
}

/// What the supervisor does about a wakeup.
pub open spec fn action_on(supervisor: Supervisor, wakeup: Wakeup) -> ControlAction {
    match wakeup {
        Wakeup::Disconnected | Wakeup::Control(Control::Stop) => ControlAction::Quit {
            stop: supervisor.agent,
        },
        Wakeup::Control(Control::SessionChange { session_id, reason }) => {
            let to = desktop_changed(reason, supervisor.desktop);
            if session_id == supervisor.session && to != supervisor.desktop {
                ControlAction::Switch { from: supervisor.desktop, to, stop: supervisor.agent }
            } else {
                ControlAction::Nothing
            }
        },
        Wakeup::Timeout => ControlAction::Nothing,
    }
}

/// The state after a wakeup at a moment.
pub open spec fn after_wakeup(supervisor: Supervisor, wakeup: Wakeup, now: u64) -> Supervisor {
    match action_on(supervisor, wakeup) {
        ControlAction::Nothing => supervisor,
        ControlAction::Switch { to, .. } => Supervisor {
            desktop: to,
            agent: None,
            retry_at: now,
            ..supervisor
        },
        ControlAction::Quit { .. } => Supervisor { agent: None, ..supervisor },
    }
}

/// The state once a session is found at the console at a moment.
pub open spec fn after_console(
    supervisor: Supervisor,
    session: u32,
    has_user: bool,
    now: u64,
) -> Supervisor {
    if session == supervisor.session {
        supervisor
    } else {
        Supervisor {
            session,
            desktop: desktop_at_start(session, has_user),
            agent: None,
            retry_at: now,
        }
    }
}

/// The state once the agent, if there is one, has been found running or not.
pub open spec fn after_check(supervisor: Supervisor, running: bool, now: u64) -> Supervisor {
    if supervisor.agent is Some && !running {
        Supervisor { agent: None, retry_at: moment_after(now, AGENT_RETRY_MS), ..supervisor }
    } else {
        supervisor
    }
}

/// Where an agent is to be started at a moment, if one is.
pub open spec fn start_due(supervisor: Supervisor, now: u64) -> Option<(u32, Desktop)> {
    if supervisor.agent is None && supervisor.session != NO_SESSION && now >= supervisor.retry_at {
        Some((supervisor.session, supervisor.desktop))
    } else {
        None
    }
}

/// The state once a start has given a process, or none.
pub open spec fn after_start(supervisor: Supervisor, started: Option<u32>, now: u64) -> Supervisor {
    match started {
        Some(pid) => Supervisor { agent: Some(pid), ..supervisor },
        None => Supervisor { retry_at: moment_after(now, AGENT_RETRY_MS), ..supervisor },
    }
}

impl Supervisor {
    /// Supervise the session at the console, in which no agent runs yet.
    pub fn new(session: u32, has_user: bool, now: u64) -> (supervisor: Self)
        ensures
            supervisor == (Supervisor {
                session,
                desktop: desktop_at_start(session, has_user),
                agent: None,
                retry_at: now,
            }),
    {
        Supervisor {
            session,
            desktop: initial_desktop(session, has_user),
            agent: None,
            retry_at: now,
        }
    }

    /// Act on a wakeup.
    pub fn wake(&mut self, wakeup: Wakeup, now: u64) -> (action: ControlAction)
        ensures
            action == action_on(*old(self), wakeup),
            *final(self) == after_wakeup(*old(self), wakeup, now),
    {
        match wakeup {
            Wakeup::Disconnected | Wakeup::Control(Control::Stop) => {
                let stop = self.agent;
                self.agent = None;
                ControlAction::Quit { stop }
            },
            Wakeup::Control(Control::SessionChange { session_id, reason }) => {
                let to = desktop_after_change(reason, self.desktop);
                if session_id == self.session && to != self.desktop {
                    let from = self.desktop;
                    let stop = self.agent;
                    self.agent = None;
                    self.desktop = to;
                    self.retry_at = now;
                    ControlAction::Switch { from, to, stop }
                } else {
                    ControlAction::Nothing
                }
            },
            Wakeup::Timeout => ControlAction::Nothing,
        }
    }

    /// Follow the console to a session. Return the agent that has to stop, if
    /// the session is another one and an agent runs.
    pub fn console(&mut self, session: u32, has_user: bool, now: u64) -> (stop: Option<u32>)
        ensures
            stop == if session == old(self).session {
                None
            } else {
                old(self).agent
            },
            *final(self) == after_console(*old(self), session, has_user, now),
    {
        if session == self.session {
            return None;
        }
        let stop = self.agent;
        *self = Supervisor::new(session, has_user, now);
        stop
    }

    /// Take note of whether the agent still runs. Return the agent that exited,
    /// if it did.
    pub fn checked(&mut self, running: bool, now: u64) -> (exited: Option<u32>)
        requires
            now <= LATEST_MOMENT,
        ensures
            exited == if running {
                None
            } else {
                old(self).agent
            },
            *final(self) == after_check(*old(self), running, now),
    {
        if running || self.agent.is_none() {
            return None;
        }
        let exited = self.agent;
        self.agent = None;
        self.retry_at = later(now, AGENT_RETRY_MS);
        exited
    }

    /// Where an agent is to be started now, if one is.
    pub fn due(&self, now: u64) -> (start: Option<(u32, Desktop)>)
        ensures
            start == start_due(*self, now),
    {
        if self.agent.is_none() && self.session != NO_SESSION && now >= self.retry_at {
            Some((self.session, self.desktop))
        } else {
            None
        }
    }

    /// Take note of how a start ended: with a process, or without one.
    pub fn started(&mut self, started: Option<u32>, now: u64)
        requires
            now <= LATEST_MOMENT,
        ensures
            *final(self) == after_start(*old(self), started, now),
    {
        match started {
            Some(pid) => {
                self.agent = Some(pid);
            },
            None => {
                self.retry_at = later(now, AGENT_RETRY_MS);
            },
        }
    }
}

/// Locking and unlocking keep the agent where it is and running.
pub proof fn locking_keeps_the_agent(supervisor: Supervisor, session_id: u32, now: u64)
    ensures
        ({
            let lock = Wakeup::Control(
                Control::SessionChange {
                    session_id,
                    reason: SessionChangeReason::SessionLock,
                },
            );
            let unlock = Wakeup::Control(
                Control::SessionChange {
                    session_id,
                    reason: SessionChangeReason::SessionUnlock,
                },
            );
            &&& action_on(supervisor, lock) == ControlAction::Nothing
            &&& action_on(supervisor, unlock) == ControlAction::Nothing
            &&& after_wakeup(supervisor, lock, now) == supervisor
            &&& after_wakeup(supervisor, unlock, now) == supervisor
        }),
{
}

/// Changes of other sessions than the one at the console change nothing.
pub proof fn other_sessions_do_not_matter(
    supervisor: Supervisor,
    session_id: u32,
    reason: SessionChangeReason,
    now: u64,
)
    requires
        session_id != supervisor.session,
    ensures
        ({
            let change = Wakeup::Control(Control::SessionChange { session_id, reason });
            &&& action_on(supervisor, change) == ControlAction::Nothing
            &&& after_wakeup(supervisor, change, now) == supervisor
        }),
{
}

/// An agent is started only where none runs: never a second one, never without
/// a session, and never on another desktop than the one that is due.
pub proof fn at_most_one_agent_runs(supervisor: Supervisor, now: u64)
    requires
        start_due(supervisor, now) is Some,
    ensures
        supervisor.agent is None,
        supervisor.session != NO_SESSION,
        start_due(supervisor, now) == Some((supervisor.session, supervisor.desktop)),
{
}

/// An agent that is no longer kept was told to stop or had exited: whatever
/// takes the agent away hands it out.
pub proof fn no_agent_is_lost(
    supervisor: Supervisor,
    wakeup: Wakeup,
    session: u32,
    has_user: bool,
    running: bool,
    now: u64,
)
    requires
        supervisor.agent is Some,
    ensures
        after_wakeup(supervisor, wakeup, now).agent is None ==> match action_on(
            supervisor,
            wakeup,
        ) {
            ControlAction::Switch { stop, .. } => stop == supervisor.agent,
            ControlAction::Quit { stop } => stop == supervisor.agent,
            ControlAction::Nothing => false,
        },
        after_console(supervisor, session, has_user, now).agent is None ==> session
            != supervisor.session,
        after_check(supervisor, running, now).agent is None ==> !running,
{
}

/// After an exit or a failed start the next start is due the retry time later,
/// and not before.
pub proof fn starts_are_not_retried_at_once(supervisor: Supervisor, now: u64, moment: u64)
    requires
        supervisor.session != NO_SESSION,
        now <= LATEST_MOMENT,
    ensures
        supervisor.agent is Some ==> (start_due(after_check(supervisor, false, now), moment) is Some
            <==> moment >= now + AGENT_RETRY_MS * 1_000_000),
        supervisor.agent is None ==> (start_due(after_start(supervisor, None, now), moment) is Some
            <==> moment >= now + AGENT_RETRY_MS * 1_000_000),
{
}

/// After a move to another desktop or session the next start is due at once.
pub proof fn moves_are_followed_at_once(
    supervisor: Supervisor,
    wakeup: Wakeup,
    session: u32,
    has_user: bool,
    now: u64,
)
    requires
        supervisor.session != NO_SESSION,
        session != NO_SESSION,
    ensures
        action_on(supervisor, wakeup) matches ControlAction::Switch { to, .. } ==> start_due(
            after_wakeup(supervisor, wakeup, now),
            now,
        ) == Some((supervisor.session, to)),
        session != supervisor.session ==> start_due(
            after_console(supervisor, session, has_user, now),
            now,
        ) == Some((session, desktop_at_start(session, has_user))),
{
}

/// The agent belongs on the normal desktop while a user is logged on, and on the
/// logon desktop otherwise: it starts where the session is found, logging on and off
/// moves it, and no other change does. Only on the logon desktop does it need the
/// right to drive a protected one.
pub proof fn agents_belong_where_the_user_is(
    reason: SessionChangeReason,
    current: Desktop,
    session_id: u32,
    has_user: bool,
)
    ensures
        desktop_changed(reason, current) == if reason == SessionChangeReason::SessionLogon {
            Desktop::Default
        } else if reason == SessionChangeReason::SessionLogoff {
            Desktop::Winlogon
        } else {
            current
        },
        desktop_at_start(session_id, has_user) == Desktop::Default <==> has_user && session_id
            != 0xffff_ffff,
        is_protected(current) <==> current == Desktop::Winlogon,
{
}

/// The two desktops lie in the same window station and have their own names.
pub proof fn desktops_have_their_names()
    ensures
        desktop_name(Desktop::Default) == "winsta0\\"@ + "default"@,
        desktop_name(Desktop::Winlogon) == "winsta0\\"@ + "winlogon"@,
{
    reveal_strlit("winsta0\\");
    reveal_strlit("default");
    reveal_strlit("winlogon");
    reveal_strlit("winsta0\\default");
    reveal_strlit("winsta0\\winlogon");
    assert(desktop_name(Desktop::Default) =~= "winsta0\\"@ + "default"@);
    assert(desktop_name(Desktop::Winlogon) =~= "winsta0\\"@ + "winlogon"@);
}

/// A user is found in a session exactly where the query for the name succeeds and
/// the name is not empty.
pub proof fn users_have_a_name(success: i32, name: Option<Seq<u16>>)
    ensures
        names_a_user(success, name) <==> success != 0 && exists|text: Seq<u16>|
            name == Some(text) && #[trigger] text.len() > 0 && text[0] != 0,
{
    if let Some(text) = name {
        assert(text.len() >= 0);
    }
}

/// The service stops when it is told to, and only then: a stop and a shutdown reach
/// the supervisor as a stop, a change of a session as that change, and nothing else
/// reaches it. What the service does not implement it says so.
pub proof fn requests_reach_the_supervisor(request: ServiceRequest)
    ensures
        control_of(request).0 == Some(Control::Stop) <==> request == ServiceRequest::Stop || request
            == ServiceRequest::Shutdown,
        request matches ServiceRequest::SessionChange { session_id, reason } ==> control_of(
            request,
        ).0 == Some(Control::SessionChange { session_id, reason }),
        control_of(request).0 is None <==> request == ServiceRequest::Interrogate || request
            == ServiceRequest::Other,
        control_of(request).1 <==> request != ServiceRequest::Other,
{
}

/// A stop, or the loss of whoever could ask for one, ends the supervision and stops
/// the agent. A change of the session at the console stops the agent only where it
/// moves it, and moves it only where a user logs on or off. Nothing else stops it.
pub proof fn only_stops_and_moves_end_the_agent(
    supervisor: Supervisor,
    wakeup: Wakeup,
    now: u64,
)
    ensures
        action_on(supervisor, wakeup) is Quit <==> wakeup == Wakeup::Disconnected || wakeup
            == Wakeup::Control(Control::Stop),
        action_on(supervisor, wakeup) is Switch <==> (wakeup matches Wakeup::Control(
            Control::SessionChange { session_id, reason },
        ) && session_id == supervisor.session && (reason == SessionChangeReason::SessionLogon
            && supervisor.desktop == Desktop::Winlogon || reason
            == SessionChangeReason::SessionLogoff && supervisor.desktop == Desktop::Default)),
        match action_on(supervisor, wakeup) {
            ControlAction::Nothing => after_wakeup(supervisor, wakeup, now) == supervisor,
            ControlAction::Switch { from, to, stop } => {
                let after = after_wakeup(supervisor, wakeup, now);
                &&& from == supervisor.desktop
                &&& to != from
                &&& stop == supervisor.agent
                &&& after.desktop == to
                &&& after.agent is None
                &&& after.session == supervisor.session
                &&& after.retry_at == now
            },
            ControlAction::Quit { stop } => stop == supervisor.agent && after_wakeup(
                supervisor,
                wakeup,
                now,
            ).agent is None,
        },
{
}

/// The agent follows the console: a session that is not the supervised one becomes
/// it, with the desktop on which its agent belongs, no agent, and a start at once;
/// the same session changes nothing.
pub proof fn agents_follow_the_console(
    supervisor: Supervisor,
    session: u32,
    has_user: bool,
    now: u64,
)
    ensures
        ({
            let after = after_console(supervisor, session, has_user, now);
            &&& after.session == session
            &&& session == supervisor.session ==> after == supervisor
            &&& session != supervisor.session ==> {
                &&& after.agent is None
                &&& after.retry_at == now
                &&& after.desktop == Desktop::Default <==> has_user && session != 0xffff_ffff
            }
        }),
{
}

/// An agent that has exited, and one that could not be started, is started again two
/// seconds later and not before. One that was started is kept, and one that runs is
/// left alone.
pub proof fn agents_are_started_again_after_two_seconds(
    supervisor: Supervisor,
    started: Option<u32>,
    running: bool,
    now: u64,
    moment: u64,
)
    requires
        now + 2_000_000_000 <= u64::MAX,
    ensures
        ({
            let after = after_check(supervisor, running, now);
            &&& running || supervisor.agent is None ==> after == supervisor
            &&& !running && supervisor.agent is Some ==> {
                &&& after.agent is None
                &&& after.session == supervisor.session
                &&& after.desktop == supervisor.desktop
                &&& supervisor.session != 0xffff_ffff ==> (start_due(after, moment) is Some
                    <==> moment >= now + 2_000_000_000)
            }
        }),
        ({
            let after = after_start(supervisor, started, now);
            &&& after.session == supervisor.session
            &&& after.desktop == supervisor.desktop
            &&& match started {
                Some(process) => {
                    &&& after.agent == Some(process)
                    &&& after.retry_at == supervisor.retry_at
                },
                None => {
                    &&& after.agent == supervisor.agent
                    &&& supervisor.agent is None && supervisor.session != 0xffff_ffff ==> (
                    start_due(after, moment) is Some <==> moment >= now + 2_000_000_000)
                },
            }
        }),
        start_due(supervisor, moment) is Some <==> supervisor.agent is None && supervisor.session
            != 0xffff_ffff && moment >= supervisor.retry_at,
        start_due(supervisor, moment) matches Some((session, desktop)) ==> session
            == supervisor.session && desktop == supervisor.desktop,
{
}

/// A wait is read by its result: zero is a signal, 258 a wait that ended without
/// one, and all bits set a failure with the error of the system; anything else is
/// not expected. An agent runs as long as its end is not signaled, and only an agent
/// that then still runs is terminated.
pub proof fn waits_are_read_by_their_result(result: u32, os_error: i32)
    ensures
        signaled_after(result, os_error) == match result {
            0u32 => Ok::<bool, WaitError>(true),
            258u32 => Ok::<bool, WaitError>(false),
            0xffff_ffffu32 => Err::<bool, WaitError>(WaitError::Os { code: os_error }),
            _ => Err::<bool, WaitError>(WaitError::Unexpected { result }),
        },
        match signaled_after(result, os_error) {
            Ok(ended) => running_after(result, os_error) == Ok::<bool, WaitError>(!ended),
            Err(error) => running_after(result, os_error) == Err::<bool, WaitError>(error),
        },
        outcome_of_stop(result) == StopOutcome::Clean <==> running_after(result, os_error) == Ok::<
            bool,
            WaitError,
        >(false),
        outcome_of_stop(result) == StopOutcome::Terminate <==> running_after(result, os_error)
            == Ok::<bool, WaitError>(true),
        outcome_of_stop(result) == StopOutcome::Failed <==> running_after(result, os_error) is Err,
{
}

/// No process is left behind: a start that fails once there is one ends it, and one
/// that fails before has none to end. A start goes on only where its step succeeded.
pub proof fn failed_starts_leave_no_process(step: SpawnStep, result: u32)
    ensures
        verdict_after(step, result) == SpawnVerdict::Continue <==> if step == SpawnStep::Resume {
            result != 0xffff_ffff
        } else {
            result != 0
        },
        verdict_after(step, result) == SpawnVerdict::Fail ==> step == SpawnStep::Create,
        verdict_after(step, result) == SpawnVerdict::TerminateAndFail ==> step != SpawnStep::Create,
{
}

/// A privilege counts as enabled, and the right to drive a protected desktop as
/// granted, only where nothing failed on the way and the system kept it.
pub proof fn rights_count_only_where_they_were_kept(
    adjusted: i32,
    set: i32,
    read: i32,
    actual: u32,
    os_error: u32,
)
    ensures
        privilege_after(adjusted, os_error) is Ok <==> adjusted != 0 && os_error != 1300,
        privilege_after(adjusted, os_error) matches Err(error) ==> error == (TokenError::Os {
            code: os_error,
        }),
        ui_access_after(set, read, actual, os_error) is Ok <==> set != 0 && read != 0 && actual
            != 0,
        ui_access_after(set, read, actual, os_error) matches Err(error) ==> (error
            == TokenError::UiAccessDropped <==> set != 0 && read != 0) && (set == 0 || read == 0
            ==> error == (TokenError::Os { code: os_error })),
{
}

} // verus!
