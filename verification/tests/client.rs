use rkvm::client::{
    device_check, Applied, Error, InputErrorReporter, Operation, Warning, Writers,
};
use rkvm::error::{ErrorKind, InputError, NetworkError};
use rkvm::event::{Event, Key, KeyEvent, Keyboard, RelAxis, RelEvent};
use rkvm::handshake::{
    client_step, server_step, AuthStatus, ClientError, ClientReply, ClientStep, ServerReply,
    ServerStep, Version,
};
use rkvm::keymap::{native_key, NativeKey};
use rkvm::outbox::{awaits_pong, Due, Outbox};
use rkvm::recorder::Recorder;
use rkvm::shared::{History, InputSink, SharedInput, SinkCall};
use rkvm::update::{DeviceInfo, Update};
use rkvm::updates::{Ready, ReceiveError, Reception, Source};
use rkvm::writer::Writer;
use std::cell::Cell;
use std::rc::Rc;

const MILLI: u64 = 1_000_000;
const SECOND: u64 = 1_000_000_000;

fn info(delay: Option<i32>, period: Option<i32>) -> DeviceInfo {
    DeviceInfo {
        name: b"keyboard".to_vec(),
        vendor: 0,
        product: 0,
        version: 0,
        rel: vec![],
        abs: vec![],
        keys: vec![],
        delay,
        period,
    }
}

fn create(id: usize) -> Update {
    Update::CreateDevice { id, info: info(Some(100), Some(20)) }
}

fn key(id: usize, key: Keyboard, down: bool) -> Update {
    Update::Event { id, event: Event::Key(KeyEvent { key: Key::Key(key), down }) }
}

fn native(key: Keyboard) -> NativeKey {
    native_key(Key::Key(key)).unwrap()
}

fn call(key: Keyboard, down: bool) -> SinkCall {
    SinkCall::Key { key: native(key), down, error: None }
}

/// A sink that rejects everything.
struct Locked;

const REJECTED: InputError = InputError::Rejected;

impl InputSink for Locked {
    fn calls(&self) -> History {
        unreachable!()
    }

    fn key(&mut self, _key: NativeKey, _down: bool) -> Result<(), InputError> {
        Err(REJECTED)
    }

    fn relative(&mut self, _axis: RelAxis, _value: i32) -> Result<(), InputError> {
        Err(REJECTED)
    }

    fn lock_workstation(&mut self) -> bool {
        false
    }
}

#[test]
fn devices_come_and_go() {
    let mut shared = SharedInput::new(Recorder::new(false));
    let mut writers = Writers::new();
    assert!(matches!(
        writers.apply(&mut shared, create(4), 0, || 0),
        Ok(Applied::Created)
    ));
    assert_eq!(
        writers.apply(&mut shared, create(4), 0, || 0).unwrap_err(),
        Error::Network(NetworkError::DuplicateDevice)
    );
    assert!(matches!(
        writers.apply(&mut shared, key(4, Keyboard::A, true), 0, || 0),
        Ok(Applied::Written(None))
    ));
    assert_eq!(
        writers
            .apply(&mut shared, key(5, Keyboard::A, true), 0, || 0)
            .unwrap_err(),
        Error::Network(NetworkError::UnknownDevice)
    );
    assert!(matches!(
        writers.apply(&mut shared, Update::Ping, 0, || 0),
        Ok(Applied::Pinged)
    ));
    match writers.apply(&mut shared, Update::DestroyDevice { id: 4 }, 0, || 0) {
        Ok(Applied::Destroyed(failures)) => assert!(failures.is_empty()),
        other => panic!("not destroyed: {:?}", other),
    }
    assert_eq!(
        writers
            .apply(&mut shared, Update::DestroyDevice { id: 4 }, 0, || 0)
            .unwrap_err(),
        Error::Network(NetworkError::MissingDevice)
    );
    assert_eq!(
        shared.sink().recorded(),
        [call(Keyboard::A, true), call(Keyboard::A, false)]
    );
    assert_eq!(writers.len(), 0);
}

#[test]
fn negative_timings_end_the_client() {
    let mut writers = Writers::new();
    for (delay, period) in [(Some(-1), None), (None, Some(-1))] {
        assert_eq!(
            writers.create(1, &info(delay, period)).unwrap_err(),
            Error::Input(InputError::NegativeTiming)
        );
    }
    assert_eq!(writers.len(), 0);
    assert_eq!(writers.create(1, &info(None, Some(0))), Ok(()));
}

#[test]
fn the_earliest_timer_counts_and_all_are_served() {
    let mut shared = SharedInput::new(Recorder::new(false));
    let mut writers = Writers::new();
    assert_eq!(writers.deadline(), None);
    for id in 0..3 {
        writers.apply(&mut shared, create(id), 0, || 0).unwrap();
    }
    writers
        .apply(&mut shared, key(2, Keyboard::B, true), 10 * MILLI, || 10 * MILLI)
        .unwrap();
    writers
        .apply(&mut shared, key(1, Keyboard::A, true), 5 * MILLI, || 5 * MILLI)
        .unwrap();
    assert_eq!(writers.deadline(), Some(105 * MILLI));
    assert!(writers.repeat(&mut shared, 105 * MILLI, || 105 * MILLI).is_empty());
    assert_eq!(writers.deadline(), Some(110 * MILLI));
    assert!(writers.repeat(&mut shared, 200 * MILLI, || 200 * MILLI).is_empty());
    assert_eq!(writers.deadline(), Some(220 * MILLI));
    assert_eq!(
        shared.sink().recorded(),
        [
            call(Keyboard::B, true),
            call(Keyboard::A, true),
            call(Keyboard::A, true),
            call(Keyboard::A, true),
            call(Keyboard::B, true),
        ]
    );
}

#[test]
fn a_closed_connection_leaves_nothing_down() {
    let mut shared = SharedInput::new(Recorder::new(false));
    let mut writers = Writers::new();
    writers.apply(&mut shared, create(1), 0, || 0).unwrap();
    writers.apply(&mut shared, create(2), 0, || 0).unwrap();
    writers
        .apply(&mut shared, key(1, Keyboard::LeftCtrl, true), 0, || 0)
        .unwrap();
    writers
        .apply(&mut shared, key(2, Keyboard::LeftCtrl, true), 0, || 0)
        .unwrap();
    writers
        .apply(&mut shared, key(1, Keyboard::A, true), 0, || 0)
        .unwrap();
    assert!(writers.close(&mut shared).is_empty());
    assert_eq!(
        shared.sink().recorded(),
        [
            call(Keyboard::LeftCtrl, true),
            call(Keyboard::A, true),
            call(Keyboard::A, false),
            call(Keyboard::LeftCtrl, false),
        ]
    );
    assert!(shared.is_idle());
    assert_eq!(writers.len(), 0);
}

#[test]
fn rejected_inputs_are_reported_and_end_nothing() {
    let mut shared = SharedInput::new(Locked);
    let mut writers = Writers::new();
    writers.apply(&mut shared, create(1), 0, || 0).unwrap();
    let motion = Event::Rel(RelEvent { axis: RelAxis::X, value: 1 });
    let warn = |suppressed| Warning {
        id: 1,
        operation: Operation::Event,
        suppressed,
        error: REJECTED,
    };
    assert_eq!(
        writers.write(&mut shared, 1, &motion, 5 * SECOND, || 5 * SECOND),
        Ok(Some(warn(0)))
    );
    assert_eq!(
        writers.write(&mut shared, 1, &motion, 5 * SECOND + 1, || 5 * SECOND + 1),
        Ok(None)
    );
    assert_eq!(
        writers.write(&mut shared, 1, &motion, 6 * SECOND - 1, || 6 * SECOND - 1),
        Ok(None)
    );
    assert_eq!(writers.suppressed(), 2);
    assert_eq!(
        writers.write(&mut shared, 1, &motion, 6 * SECOND, || 6 * SECOND),
        Ok(Some(warn(2)))
    );
    assert_eq!(writers.suppressed(), 0);
}

#[test]
fn warnings_are_a_second_apart() {
    let mut reporter = InputErrorReporter::default();
    let report = |reporter: &mut InputErrorReporter, now| {
        reporter
            .report(3, Operation::Repeat, REJECTED, now)
            .map(|warning| warning.suppressed)
    };
    assert_eq!(report(&mut reporter, 10 * SECOND), Some(0));
    // A clock that seems to go back counts as no time at all.
    assert_eq!(report(&mut reporter, 9 * SECOND), None);
    assert_eq!(report(&mut reporter, 10 * SECOND + 999 * MILLI), None);
    assert_eq!(report(&mut reporter, 11 * SECOND), Some(2));
    assert_eq!(report(&mut reporter, 20 * SECOND), Some(0));
}

#[test]
fn writers_are_built_step_by_step() {
    let mut shared = SharedInput::new(Recorder::new(false));
    let mut writer = Writer::builder()
        .unwrap()
        .name(b"name")
        .vendor(1)
        .product(2)
        .version(3)
        .rel(&[RelAxis::X])
        .unwrap()
        .abs(&[])
        .unwrap()
        .key(&[Key::Key(Keyboard::A)])
        .unwrap()
        .delay(None)
        .unwrap()
        .period(Some(50))
        .unwrap()
        .build()
        .unwrap();
    let press = Event::Key(KeyEvent { key: Key::Key(Keyboard::A), down: true });
    writer.write(&mut shared, &press, 0).unwrap();
    assert_eq!(writer.next_repeat(), Some(500 * MILLI));
    writer.repeat(&mut shared, 500 * MILLI).unwrap();
    assert_eq!(writer.next_repeat(), Some(550 * MILLI));
    assert!(writer.release_all(&mut shared).is_empty());
    assert_eq!(writer.next_repeat(), None);
    assert_eq!(
        Writer::builder().unwrap().delay(Some(-5)).unwrap_err(),
        InputError::NegativeTiming
    );
}

#[test]
fn clients_are_ready_once_the_password_is_accepted() {
    let current = Version { number: 6 };
    let mut step = ClientStep::SendVersion;
    for reply in [
        ClientReply::Sent,
        ClientReply::Version(current),
        ClientReply::Challenge,
        ClientReply::Sent,
        ClientReply::Status(AuthStatus::Passed),
    ] {
        assert_ne!(step, ClientStep::Ready);
        step = client_step(current, step, reply).unwrap();
    }
    assert_eq!(step, ClientStep::Ready);

    let other = Version { number: 5 };
    assert_eq!(
        client_step(current, ClientStep::AwaitVersion, ClientReply::Version(other)),
        Err(Error::Version { server: other, client: current })
    );
    assert_eq!(
        client_step(
            current,
            ClientStep::AwaitStatus,
            ClientReply::Status(AuthStatus::Failed)
        ),
        Err(Error::Auth)
    );
    assert_eq!(
        client_step(
            current,
            ClientStep::AwaitChallenge,
            ClientReply::Failed(ErrorKind::TimedOut)
        ),
        Err(Error::Network(NetworkError::Transport { kind: ErrorKind::TimedOut }))
    );
}

#[test]
fn servers_answer_a_wrong_password_before_they_leave() {
    let current = Version { number: 6 };
    let mut step = ServerStep::SendVersion;
    for reply in [
        ServerReply::Sent,
        ServerReply::Version(current),
        ServerReply::Challenge { made: true },
        ServerReply::Sent,
        ServerReply::Response { fits: false },
    ] {
        step = server_step(current, step, reply).unwrap();
    }
    assert_eq!(step, ServerStep::SendStatus(AuthStatus::Failed));
    assert_eq!(
        server_step(current, step, ServerReply::Sent),
        Err(ClientError::Auth)
    );
    assert_eq!(
        server_step(
            current,
            ServerStep::AwaitResponse,
            ServerReply::Response { fits: true }
        ),
        Ok(ServerStep::SendStatus(AuthStatus::Passed))
    );
    assert_eq!(
        server_step(
            current,
            ServerStep::SendStatus(AuthStatus::Passed),
            ServerReply::Sent
        ),
        Ok(ServerStep::Ready)
    );
    let other = Version { number: 7 };
    assert_eq!(
        server_step(current, ServerStep::AwaitVersion, ServerReply::Version(other)),
        Err(ClientError::Version { server: current, client: other })
    );
    assert_eq!(
        server_step(
            current,
            ServerStep::MakeChallenge,
            ServerReply::Challenge { made: false }
        ),
        Err(ClientError::Rand)
    );
    assert_eq!(
        server_step(
            current,
            ServerStep::SendChallenge,
            ServerReply::Failed(ErrorKind::BrokenPipe)
        ),
        Err(ClientError::Io(ErrorKind::BrokenPipe))
    );
}

#[test]
fn pings_have_priority_and_lose_nothing() {
    let mut outbox = Outbox::new(vec!["first", "second"]);
    assert!(matches!(outbox.next(true), Some(Due::Ping)));
    assert!(matches!(outbox.next(false), Some(Due::Message("first"))));
    assert!(matches!(outbox.next(true), Some(Due::Ping)));
    assert!(matches!(outbox.next(false), Some(Due::Message("second"))));
    assert!(outbox.next(false).is_none());
    assert!(awaits_pong(&Due::<&str>::Ping));
    assert!(!awaits_pong(&Due::Message("third")));
}

#[test]
fn the_watchdog_the_timers_and_the_messages_take_turns() {
    let everything = Ready { watchdog: true, repeat: true, message: true };
    let alive = Ready { watchdog: false, repeat: true, message: true };
    let mut reception = Reception::new();
    assert_eq!(
        reception.order(),
        [Source::Watchdog, Source::Repeat, Source::Message]
    );
    assert_eq!(reception.attend(everything), Some(Source::Watchdog));
    assert_eq!(reception.attend(alive), Some(Source::Repeat));
    assert_eq!(reception.repeated(Ok(())), Ok(()));
    assert_eq!(
        reception.order(),
        [Source::Watchdog, Source::Message, Source::Repeat]
    );
    assert_eq!(reception.attend(everything), Some(Source::Watchdog));
    assert_eq!(reception.attend(alive), Some(Source::Message));
    assert_eq!(
        reception.attend(Ready { watchdog: false, repeat: true, message: false }),
        Some(Source::Repeat)
    );
    assert_eq!(
        reception.attend(Ready { watchdog: false, repeat: false, message: false }),
        None
    );
}

#[test]
fn failures_of_the_reception_are_told_apart() {
    let mut reception = Reception::new();
    assert_eq!(reception.timed_out().kind(), Some(ErrorKind::TimedOut));
    assert_eq!(
        reception.timed_out().into_error(),
        Error::Network(NetworkError::PingTimedOut)
    );
    let cut = reception
        .message::<Update>(Err(ErrorKind::UnexpectedEof))
        .unwrap_err();
    assert_eq!(cut.kind(), Some(ErrorKind::UnexpectedEof));
    assert!(matches!(
        reception.message(Ok(Update::DestroyDevice { id: 300 })),
        Ok(Update::DestroyDevice { id: 300 })
    ));
    let failed = reception.repeated(Err(REJECTED)).unwrap_err();
    assert_eq!(failed, ReceiveError::Input(REJECTED));
    assert_eq!(failed.kind(), Some(ErrorKind::PermissionDenied));
    assert_eq!(failed.into_error(), Error::Input(REJECTED));
}

#[test]
fn errors_say_what_happened() {
    assert_eq!(
        NetworkError::DuplicateDevice.message(),
        Some("Server created the same device twice")
    );
    assert_eq!(NetworkError::MissingDevice.kind(), ErrorKind::InvalidData);
    assert_eq!(
        NetworkError::Transport { kind: ErrorKind::UnexpectedEof }.kind(),
        ErrorKind::UnexpectedEof
    );
    assert_eq!(
        InputError::NegativeTiming.message(),
        Some("Negative key repeat timing")
    );
    assert_eq!(InputError::TooManyKeys.kind(), Some(ErrorKind::WouldBlock));
    assert_eq!(
        InputError::Partial { written: 1, expected: 2 }.message(),
        None
    );
}

#[test]
fn updates_about_the_wrong_devices_are_refused() {
    let ping = Update::Ping;
    assert_eq!(create(3).device(), Some(3));
    assert_eq!(Update::DestroyDevice { id: 4 }.device(), Some(4));
    assert_eq!(key(5, Keyboard::A, true).device(), Some(5));
    assert_eq!(ping.device(), None);

    assert_eq!(device_check(&create(3), false), Ok(()));
    assert_eq!(
        device_check(&create(3), true),
        Err(Error::Network(NetworkError::DuplicateDevice))
    );
    let destroy = Update::DestroyDevice { id: 4 };
    assert_eq!(device_check(&destroy, true), Ok(()));
    assert_eq!(
        device_check(&destroy, false),
        Err(Error::Network(NetworkError::MissingDevice))
    );
    let event = key(5, Keyboard::A, true);
    assert_eq!(device_check(&event, true), Ok(()));
    assert_eq!(
        device_check(&event, false),
        Err(Error::Network(NetworkError::UnknownDevice))
    );
    assert_eq!(device_check(&ping, false), Ok(()));
    assert_eq!(device_check(&ping, true), Ok(()));
}

#[test]
fn the_class_of_an_error_number_is_left_to_the_system() {
    for code in [0, 2, 5, 109, -1] {
        let failure = InputError::Os { code };
        assert_eq!(failure.kind(), None);
        assert_eq!(failure.raw_os_error(), Some(code));
        assert_eq!(failure.message(), None);
        assert_eq!(ReceiveError::Input(failure).kind(), None);
    }
    for (failure, kind) in [
        (InputError::NegativeTiming, ErrorKind::InvalidInput),
        (InputError::TooManyKeys, ErrorKind::WouldBlock),
        (InputError::Rejected, ErrorKind::PermissionDenied),
        (InputError::Partial { written: 0, expected: 1 }, ErrorKind::Other),
        (InputError::Device { kind: ErrorKind::BrokenPipe }, ErrorKind::BrokenPipe),
    ] {
        assert_eq!(failure.kind(), Some(kind));
        assert_eq!(failure.raw_os_error(), None);
    }
}

/// A sink that takes presses, and nothing once it is closed.
struct Closing(Rc<Cell<bool>>);

impl InputSink for Closing {
    fn calls(&self) -> History {
        unreachable!()
    }

    fn key(&mut self, _key: NativeKey, _down: bool) -> Result<(), InputError> {
        if self.0.get() {
            Err(REJECTED)
        } else {
            Ok(())
        }
    }

    fn relative(&mut self, _axis: RelAxis, _value: i32) -> Result<(), InputError> {
        Ok(())
    }

    fn lock_workstation(&mut self) -> bool {
        false
    }
}

#[test]
fn each_rejection_is_reported_when_it_is_known() {
    let closed = Rc::new(Cell::new(false));
    let mut shared = SharedInput::new(Closing(closed.clone()));
    let mut writers = Writers::new();
    let letters = [Keyboard::A, Keyboard::B, Keyboard::C];
    for (id, letter) in letters.into_iter().enumerate() {
        writers.apply(&mut shared, create(id), 0, || 0).unwrap();
        writers
            .apply(&mut shared, key(id, letter, true), 0, || 0)
            .unwrap();
    }
    closed.set(true);
    // Each rejection takes the sink more than half a second.
    let moment = Cell::new(SECOND);
    let clock = || {
        moment.set(moment.get() + 600 * MILLI);
        moment.get()
    };
    let warning = |id, suppressed| Warning {
        id,
        operation: Operation::Repeat,
        suppressed,
        error: REJECTED,
    };
    assert_eq!(
        writers.repeat(&mut shared, SECOND, clock),
        [warning(0, 0), warning(2, 1)]
    );
    assert_eq!(moment.get(), SECOND + 3 * 600 * MILLI);
    assert_eq!(writers.suppressed(), 0);

    // What succeeds, and what is not due, needs no clock.
    closed.set(false);
    let broken = || panic!("the clock was read");
    assert!(writers.repeat(&mut shared, 2 * SECOND, broken).is_empty());
    assert!(writers.repeat(&mut shared, 2 * SECOND, broken).is_empty());
}

#[test]
fn a_message_in_pieces_is_received_while_timers_are_served() {
    // The message is complete at the fourth look; a timer is due at each.
    let mut reception = Reception::new();
    let mut served = 0;
    let mut looks = 0;
    let received = loop {
        looks += 1;
        let ready = Ready { watchdog: false, repeat: true, message: looks >= 4 };
        match reception.attend(ready) {
            Some(Source::Repeat) => {
                served += 1;
                assert_eq!(reception.repeated(Ok(())), Ok(()));
            }
            Some(Source::Message) => {
                break reception.message(Ok(key(5, Keyboard::A, false)))
            }
            other => panic!("attended to {:?}", other),
        }
    };
    assert_eq!((looks, served), (4, 3));
    match received {
        Ok(Update::Event { id: 5, event }) => assert_eq!(
            event,
            Event::Key(KeyEvent { key: Key::Key(Keyboard::A), down: false })
        ),
        other => panic!("received {:?}", other),
    }
}
