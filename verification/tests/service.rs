use rkvm::command_line::{agent_command_line, build_command_line, event_name, wide_null};
use rkvm::service::{
    after_spawn_step, control_for, desktop_after_change, initial_desktop, is_running,
    privilege_outcome, session_has_user, stop_outcome, stop_requested, ui_access_outcome, Control,
    ControlAction, Desktop, ServiceRequest, SessionChangeReason, SpawnStep, SpawnVerdict,
    StopOutcome, Supervisor, TokenError, WaitError, Wakeup, NO_SESSION,
};

const SECOND: u64 = 1_000_000_000;

fn wide(text: &str) -> Vec<u16> {
    text.encode_utf16().collect()
}

fn command_line(arguments: &[&str]) -> String {
    let arguments: Vec<Vec<u16>> = arguments.iter().map(|argument| wide(argument)).collect();
    let encoded = build_command_line(&arguments);
    assert_eq!(encoded.last(), Some(&0));
    String::from_utf16(&encoded[..encoded.len() - 1]).unwrap()
}

#[test]
fn quotes_service_agent_arguments() {
    assert_eq!(
        command_line(&["rkvm-client.exe", "C:\\path with spaces\\client.toml"]),
        "rkvm-client.exe \"C:\\path with spaces\\client.toml\""
    );
    assert_eq!(
        command_line(&["rkvm-client.exe", "ends with slash \\"]),
        "rkvm-client.exe \"ends with slash \\\\\""
    );
}

#[test]
fn preserves_the_agent_across_lock_and_unlock() {
    assert_eq!(
        desktop_after_change(SessionChangeReason::SessionLock, Desktop::Default),
        Desktop::Default
    );
    assert_eq!(
        desktop_after_change(SessionChangeReason::SessionUnlock, Desktop::Winlogon),
        Desktop::Winlogon
    );
}

#[test]
fn changes_desktop_for_logon_and_logoff() {
    assert_eq!(
        desktop_after_change(SessionChangeReason::SessionLogon, Desktop::Winlogon),
        Desktop::Default
    );
    assert_eq!(
        desktop_after_change(SessionChangeReason::SessionLogoff, Desktop::Default),
        Desktop::Winlogon
    );
}

#[test]
fn quotes_and_backslashes_are_escaped() {
    assert_eq!(command_line(&[]), "");
    assert_eq!(command_line(&["", "a"]), "\"\" a");
    assert_eq!(command_line(&["a\tb"]), "\"a\tb\"");
    assert_eq!(command_line(&["a\"b"]), "\"a\\\"b\"");
    assert_eq!(command_line(&["a\\\"b"]), "\"a\\\\\\\"b\"");
    assert_eq!(command_line(&["a\\b c"]), "\"a\\b c\"");
    assert_eq!(command_line(&["a\\\\b", "c\\"]), "a\\\\b c\\");
}

#[test]
fn agents_are_told_who_they_are() {
    let event = event_name(4096, 17);
    assert_eq!(
        String::from_utf16(&event).unwrap(),
        "Global\\rkvm-client-stop-4096-17"
    );
    assert_ne!(event_name(1, 23), event_name(1, 24));
    assert_eq!(
        String::from_utf16(&event_name(0, u64::MAX)).unwrap(),
        "Global\\rkvm-client-stop-0-18446744073709551615"
    );
    let line = agent_command_line(
        wide("C:\\Program Files\\rkvm\\rkvm-client.exe"),
        event,
        wide("C:\\ProgramData\\rkvm\\client-service.log"),
        wide("C:\\ProgramData\\rkvm\\client.toml"),
    );
    assert_eq!(
        String::from_utf16(&line).unwrap(),
        "\"C:\\Program Files\\rkvm\\rkvm-client.exe\" --desktop-agent --stop-event \
         Global\\rkvm-client-stop-4096-17 --log-file C:\\ProgramData\\rkvm\\client-service.log \
         C:\\ProgramData\\rkvm\\client.toml\0"
    );
}

#[test]
fn wide_texts_end_with_a_zero() {
    assert_eq!(wide_null(&wide("ab")), [0x61, 0x62, 0]);
    assert_eq!(wide_null(&[]), [0]);
}

#[test]
fn desktops_have_names_and_rights() {
    assert_eq!(Desktop::Default.name(), "winsta0\\default");
    assert_eq!(Desktop::Winlogon.name(), "winsta0\\winlogon");
    assert!(Desktop::Winlogon.needs_ui_access());
    assert!(!Desktop::Default.needs_ui_access());
}

#[test]
fn a_session_starts_on_the_desktop_of_its_user() {
    assert_eq!(initial_desktop(1, true), Desktop::Default);
    assert_eq!(initial_desktop(1, false), Desktop::Winlogon);
    assert_eq!(initial_desktop(NO_SESSION, true), Desktop::Winlogon);
    assert!(session_has_user(1, Some(&wide_null(&wide("me")))));
    assert!(!session_has_user(1, Some(&[0])));
    assert!(!session_has_user(1, Some(&[])));
    assert!(!session_has_user(1, None));
    assert!(!session_has_user(0, Some(&wide("me"))));
}

#[test]
fn requests_reach_the_supervisor() {
    assert_eq!(control_for(ServiceRequest::Interrogate), (None, true));
    assert_eq!(control_for(ServiceRequest::Stop), (Some(Control::Stop), true));
    assert_eq!(
        control_for(ServiceRequest::Shutdown),
        (Some(Control::Stop), true)
    );
    let reason = SessionChangeReason::SessionLogon;
    assert_eq!(
        control_for(ServiceRequest::SessionChange { session_id: 3, reason }),
        (Some(Control::SessionChange { session_id: 3, reason }), true)
    );
    assert_eq!(control_for(ServiceRequest::Other), (None, false));
}

#[test]
fn waits_are_read_as_the_system_means_them() {
    assert_eq!(stop_requested(0, 5), Ok(true));
    assert_eq!(stop_requested(258, 5), Ok(false));
    assert_eq!(stop_requested(0xffff_ffff, 5), Err(WaitError::Os { code: 5 }));
    assert_eq!(
        stop_requested(128, 5),
        Err(WaitError::Unexpected { result: 128 })
    );
    assert_eq!(is_running(258, 5), Ok(true));
    assert_eq!(is_running(0, 5), Ok(false));
    assert_eq!(is_running(0xffff_ffff, 5), Err(WaitError::Os { code: 5 }));
    assert_eq!(is_running(7, 5), Err(WaitError::Unexpected { result: 7 }));
    assert_eq!(stop_outcome(0), StopOutcome::Clean);
    assert_eq!(stop_outcome(258), StopOutcome::Terminate);
    assert_eq!(stop_outcome(1), StopOutcome::Failed);
}

#[test]
fn no_process_is_left_behind() {
    assert_eq!(after_spawn_step(SpawnStep::Create, 0), SpawnVerdict::Fail);
    assert_eq!(after_spawn_step(SpawnStep::Create, 1), SpawnVerdict::Continue);
    assert_eq!(
        after_spawn_step(SpawnStep::AssignJob, 0),
        SpawnVerdict::TerminateAndFail
    );
    assert_eq!(
        after_spawn_step(SpawnStep::AssignJob, 1),
        SpawnVerdict::Continue
    );
    assert_eq!(
        after_spawn_step(SpawnStep::Resume, u32::MAX),
        SpawnVerdict::TerminateAndFail
    );
    assert_eq!(after_spawn_step(SpawnStep::Resume, 1), SpawnVerdict::Continue);
}

#[test]
fn tokens_are_checked() {
    assert_eq!(privilege_outcome(1, 0), Ok(()));
    assert_eq!(privilege_outcome(0, 5), Err(TokenError::Os { code: 5 }));
    assert_eq!(privilege_outcome(1, 1300), Err(TokenError::Os { code: 1300 }));
    assert_eq!(ui_access_outcome(1, 1, 1, 0), Ok(()));
    assert_eq!(
        ui_access_outcome(1, 1, 0, 0),
        Err(TokenError::UiAccessDropped)
    );
    assert_eq!(ui_access_outcome(0, 1, 1, 9), Err(TokenError::Os { code: 9 }));
    assert_eq!(ui_access_outcome(1, 0, 1, 9), Err(TokenError::Os { code: 9 }));
}

#[test]
fn agents_follow_the_console() {
    let mut supervisor = Supervisor::new(1, false, 10 * SECOND);
    assert_eq!(supervisor.due(10 * SECOND), Some((1, Desktop::Winlogon)));
    supervisor.started(Some(100), 10 * SECOND);
    assert_eq!(supervisor.due(20 * SECOND), None);

    let change = |session_id, reason| Wakeup::Control(Control::SessionChange { session_id, reason });
    assert_eq!(
        supervisor.wake(change(1, SessionChangeReason::SessionLock), 11 * SECOND),
        ControlAction::Nothing
    );
    assert_eq!(
        supervisor.wake(change(2, SessionChangeReason::SessionLogon), 11 * SECOND),
        ControlAction::Nothing
    );
    assert_eq!(
        supervisor.wake(change(1, SessionChangeReason::SessionLogon), 12 * SECOND),
        ControlAction::Switch {
            from: Desktop::Winlogon,
            to: Desktop::Default,
            stop: Some(100),
        }
    );
    assert_eq!(supervisor.due(12 * SECOND), Some((1, Desktop::Default)));
    supervisor.started(Some(101), 12 * SECOND);

    assert_eq!(supervisor.console(1, true, 13 * SECOND), None);
    assert_eq!(supervisor.console(NO_SESSION, true, 13 * SECOND), Some(101));
    assert_eq!(supervisor.due(14 * SECOND), None);
    assert_eq!(supervisor.console(3, true, 15 * SECOND), None);
    assert_eq!(supervisor.due(15 * SECOND), Some((3, Desktop::Default)));
}

#[test]
fn agents_are_started_again_after_a_while() {
    let mut supervisor = Supervisor::new(1, true, 0);
    supervisor.started(None, SECOND);
    assert_eq!(supervisor.due(3 * SECOND - 1), None);
    assert_eq!(supervisor.due(3 * SECOND), Some((1, Desktop::Default)));
    supervisor.started(Some(100), 3 * SECOND);
    assert_eq!(supervisor.checked(true, 4 * SECOND), None);
    assert_eq!(supervisor.checked(false, 5 * SECOND), Some(100));
    assert_eq!(supervisor.checked(false, 6 * SECOND), None);
    assert_eq!(supervisor.due(7 * SECOND - 1), None);
    assert_eq!(supervisor.due(7 * SECOND), Some((1, Desktop::Default)));
}

#[test]
fn the_end_of_the_service_stops_the_agent() {
    for wakeup in [Wakeup::Disconnected, Wakeup::Control(Control::Stop)] {
        let mut supervisor = Supervisor::new(1, true, 0);
        assert_eq!(supervisor.wake(Wakeup::Timeout, 0), ControlAction::Nothing);
        supervisor.started(Some(100), 0);
        assert_eq!(
            supervisor.wake(wakeup, 0),
            ControlAction::Quit { stop: Some(100) }
        );
        assert_eq!(supervisor.wake(wakeup, 0), ControlAction::Quit { stop: None });
    }
}
