use rkvm::device::Device;
use rkvm::error::{ErrorKind, InputError};
use rkvm::event::{Button, Event, Key, KeyEvent, Keyboard, RelAxis, RelEvent, SyncEvent};
use rkvm::keymap::{native_key, NativeKey};
use rkvm::recorder::Recorder;
use rkvm::repeat::RepeatConfig;
use rkvm::shared::{History, InputSink, SharedInput, SinkCall};
use std::cell::RefCell;
use std::collections::HashMap;
use std::future::{self, Future};
use std::rc::Rc;
use std::task::{Context, Poll, Waker};

const MILLI: u64 = 1_000_000;
const NOW: u64 = 1_000_000_000_000;

#[derive(Default)]
struct Log {
    events: Vec<(NativeKey, bool)>,
    fail_next: bool,
    lock_requests: usize,
    lock_succeeds: bool,
}

struct RecordingSink(Rc<RefCell<Log>>);

impl InputSink for RecordingSink {
    fn calls(&self) -> History {
        unreachable!()
    }

    fn key(&mut self, key: NativeKey, down: bool) -> Result<(), InputError> {
        let mut log = self.0.borrow_mut();
        if std::mem::take(&mut log.fail_next) {
            return Err(InputError::Device { kind: ErrorKind::PermissionDenied });
        }
        log.events.push((key, down));
        Ok(())
    }

    fn relative(&mut self, _axis: RelAxis, _value: i32) -> Result<(), InputError> {
        Ok(())
    }

    fn lock_workstation(&mut self) -> bool {
        let mut log = self.0.borrow_mut();
        log.lock_requests += 1;
        log.lock_succeeds
    }
}

type Shared = Rc<RefCell<SharedInput<RecordingSink>>>;

/// A device that gives up what it holds when it is dropped.
struct Owned {
    device: Device,
    shared: Shared,
}

impl Owned {
    fn new(shared: &Shared, config: RepeatConfig) -> Self {
        Owned { device: Device::new(config), shared: shared.clone() }
    }

    fn write(&mut self, event: &Event, now: u64) -> Result<(), InputError> {
        self.device.write(&mut *self.shared.borrow_mut(), event, now)
    }

    fn repeat(&mut self, now: u64) -> Result<(), InputError> {
        self.device.repeat(&mut *self.shared.borrow_mut(), now)
    }

    fn next_repeat(&self) -> Option<u64> {
        self.device.next_repeat()
    }
}

impl Drop for Owned {
    fn drop(&mut self) {
        self.device.release_all(&mut *self.shared.borrow_mut());
    }
}

fn setup() -> (Owned, Shared, Rc<RefCell<Log>>) {
    let log = Rc::new(RefCell::new(Log::default()));
    let shared = Rc::new(RefCell::new(SharedInput::new(RecordingSink(log.clone()))));
    let mut config = RepeatConfig::default();
    config.delay(Some(100)).unwrap();
    config.period(Some(20)).unwrap();
    (Owned::new(&shared, config), shared, log)
}

fn event(key: Key, down: bool) -> Event {
    Event::Key(KeyEvent { key, down })
}

fn keyboard(key: Keyboard, down: bool) -> Event {
    event(Key::Key(key), down)
}

fn native(key: Keyboard) -> NativeKey {
    native_key(Key::Key(key)).unwrap()
}

#[test]
fn repeat_obeys_delay_period_and_stops_on_release() {
    let (mut device, _shared, log) = setup();
    let now = NOW;
    device.write(&keyboard(Keyboard::A, true), now).unwrap();
    assert_eq!(device.next_repeat(), Some(now + 100 * MILLI));
    device.repeat(now + 99 * MILLI).unwrap();
    assert_eq!(log.borrow().events.len(), 1);
    device.repeat(now + 100 * MILLI).unwrap();
    device.repeat(now + 119 * MILLI).unwrap();
    assert_eq!(log.borrow().events.len(), 2);
    device.repeat(now + 120 * MILLI).unwrap();
    device.write(&keyboard(Keyboard::A, false), now).unwrap();
    assert_eq!(device.next_repeat(), None);
    device.repeat(now + 1000 * MILLI).unwrap();
    drop(device);
    assert_eq!(
        log.borrow().events,
        vec![(native(Keyboard::A), true); 3]
            .into_iter()
            .chain([(native(Keyboard::A), false)])
            .collect::<Vec<_>>()
    );
}

#[test]
fn missed_ticks_do_not_burst_and_duplicate_down_does_not_delay_repeat() {
    let (mut device, _shared, log) = setup();
    let now = NOW;
    device
        .write(&keyboard(Keyboard::Backspace, true), now)
        .unwrap();
    device
        .write(&keyboard(Keyboard::Backspace, true), now + 90 * MILLI)
        .unwrap();
    assert_eq!(device.next_repeat(), Some(now + 100 * MILLI));
    device.repeat(now + 10 * 1000 * MILLI).unwrap();
    device.repeat(now + 10 * 1000 * MILLI).unwrap();
    assert_eq!(log.borrow().events.len(), 2);
    assert_eq!(device.next_repeat(), Some(now + 10020 * MILLI));
}

#[test]
fn newest_repeatable_key_wins_and_modifiers_do_not_interrupt_it() {
    let (mut device, _shared, log) = setup();
    let now = NOW;
    device.write(&keyboard(Keyboard::A, true), now).unwrap();
    device.write(&keyboard(Keyboard::B, true), now).unwrap();
    device
        .write(&keyboard(Keyboard::LeftShift, true), now)
        .unwrap();
    device.repeat(now + 100 * MILLI).unwrap();
    assert_eq!(
        log.borrow().events.last(),
        Some(&(native(Keyboard::B), true))
    );
    device.write(&keyboard(Keyboard::A, false), now).unwrap();
    assert!(device.next_repeat().is_some());
    device.write(&keyboard(Keyboard::B, false), now).unwrap();
    assert!(device.next_repeat().is_none());
}

#[test]
fn modifiers_locks_buttons_and_unsupported_keys_do_not_repeat() {
    let (mut device, _shared, _log) = setup();
    for key in [
        Key::Key(Keyboard::LeftCtrl),
        Key::Key(Keyboard::RightAlt),
        Key::Key(Keyboard::LeftShift),
        Key::Key(Keyboard::RightMeta),
        Key::Key(Keyboard::CapsLock),
        Key::Key(Keyboard::NumLock),
        Key::Key(Keyboard::ScrollLock),
        Key::Key(Keyboard::Pause),
        Key::Button(Button::Left),
    ] {
        device.write(&event(key, true), NOW).unwrap();
        assert!(device.next_repeat().is_none(), "{key:?}");
    }
}

#[test]
fn zero_disables_repeat_and_negative_timings_are_rejected() {
    for zero_delay in [true, false] {
        let (_, shared, _log) = setup();
        let mut config = RepeatConfig::default();
        config.delay(Some(100)).unwrap();
        config.period(Some(20)).unwrap();
        if zero_delay {
            config.delay(Some(0)).unwrap();
        } else {
            config.period(Some(0)).unwrap();
        }
        let mut device = Owned::new(&shared, config);
        device.write(&keyboard(Keyboard::A, true), NOW).unwrap();
        assert!(device.next_repeat().is_none());
    }
    let mut config = RepeatConfig::default();
    assert_eq!(
        config.delay(Some(-1)).unwrap_err().kind(),
        Some(ErrorKind::InvalidInput)
    );
    assert_eq!(
        config.period(Some(-1)).unwrap_err().kind(),
        Some(ErrorKind::InvalidInput)
    );
    config.delay(None).unwrap();
    config.period(None).unwrap();
    assert_eq!(config.delay, 500);
    assert_eq!(config.period, 33);
}

#[test]
fn dropping_device_releases_only_its_held_keys_and_buttons_in_reverse_order() {
    let (mut device, shared, log) = setup();
    let now = NOW;
    device
        .write(&keyboard(Keyboard::LeftCtrl, true), now)
        .unwrap();
    device.write(&keyboard(Keyboard::A, true), now).unwrap();
    device
        .write(&event(Key::Button(Button::Left), true), now)
        .unwrap();
    // A spurious up must never release a key owned by the local keyboard.
    device.write(&keyboard(Keyboard::B, false), now).unwrap();
    drop(device);
    let mouse = native_key(Key::Button(Button::Left)).unwrap();
    assert_eq!(
        &log.borrow().events[3..],
        &[
            (mouse, false),
            (native(Keyboard::A), false),
            (native(Keyboard::LeftCtrl), false)
        ]
    );
    assert!(shared.borrow().is_idle());
}

#[test]
fn one_device_cannot_release_a_key_still_held_by_another() {
    let (mut first, shared, log) = setup();
    let mut second = Owned::new(&shared, RepeatConfig::default());
    first
        .write(&keyboard(Keyboard::LeftCtrl, true), NOW)
        .unwrap();
    second
        .write(&keyboard(Keyboard::LeftCtrl, true), NOW)
        .unwrap();
    drop(first);
    assert_eq!(
        log.borrow().events,
        vec![(native(Keyboard::LeftCtrl), true)]
    );
    drop(second);
    assert_eq!(
        log.borrow().events.last(),
        Some(&(native(Keyboard::LeftCtrl), false))
    );
    assert!(shared.borrow().is_idle());
}

#[test]
fn win_l_uses_system_lock_and_neutralizes_the_injected_meta_key() {
    let (mut device, shared, log) = setup();
    let now = NOW;
    log.borrow_mut().lock_succeeds = true;

    device
        .write(&keyboard(Keyboard::LeftMeta, true), now)
        .unwrap();
    device.write(&keyboard(Keyboard::L, true), now).unwrap();
    device.write(&keyboard(Keyboard::L, true), now).unwrap();
    device.write(&keyboard(Keyboard::L, false), now).unwrap();
    device
        .write(&keyboard(Keyboard::LeftMeta, false), now)
        .unwrap();

    assert_eq!(log.borrow().lock_requests, 1);
    assert_eq!(
        log.borrow().events,
        vec![
            (native(Keyboard::LeftMeta), true),
            (native(Keyboard::LeftMeta), false),
        ]
    );
    assert!(shared.borrow().is_idle());
}

#[test]
fn failed_system_lock_restores_meta_and_forwards_l_normally() {
    let (mut device, shared, log) = setup();
    let now = NOW;

    device
        .write(&keyboard(Keyboard::LeftMeta, true), now)
        .unwrap();
    device.write(&keyboard(Keyboard::L, true), now).unwrap();
    device.write(&keyboard(Keyboard::L, false), now).unwrap();
    device
        .write(&keyboard(Keyboard::LeftMeta, false), now)
        .unwrap();

    assert_eq!(log.borrow().lock_requests, 1);
    assert_eq!(
        log.borrow().events,
        vec![
            (native(Keyboard::LeftMeta), true),
            (native(Keyboard::LeftMeta), false),
            (native(Keyboard::LeftMeta), true),
            (native(Keyboard::L), true),
            (native(Keyboard::L), false),
            (native(Keyboard::LeftMeta), false),
        ]
    );
    assert!(shared.borrow().is_idle());
}

#[test]
fn mouse_aliases_share_ownership_until_both_sources_are_released() {
    let (mut device, shared, log) = setup();
    for button in [Button::Side, Button::Back] {
        device
            .write(&event(Key::Button(button), true), NOW)
            .unwrap();
    }
    device
        .write(&event(Key::Button(Button::Side), false), NOW)
        .unwrap();
    assert_eq!(log.borrow().events.len(), 1);
    drop(device);
    assert_eq!(log.borrow().events.len(), 2);
    assert!(shared.borrow().is_idle());
}

#[test]
fn failed_press_is_not_owned_and_failed_release_is_retried_on_drop() {
    let (mut device, shared, log) = setup();
    log.borrow_mut().fail_next = true;
    assert!(device.write(&keyboard(Keyboard::A, true), NOW).is_err());
    assert!(device.device.held().is_empty());
    assert!(shared.borrow().is_idle());
    device.write(&keyboard(Keyboard::B, true), NOW).unwrap();
    log.borrow_mut().fail_next = true;
    assert!(device.write(&keyboard(Keyboard::B, false), NOW).is_err());
    drop(device);
    assert_eq!(
        log.borrow().events,
        vec![(native(Keyboard::B), true), (native(Keyboard::B), false)]
    );
}

#[test]
fn cleanup_continues_after_a_release_failure() {
    let (mut device, shared, log) = setup();
    device
        .write(&keyboard(Keyboard::LeftCtrl, true), NOW)
        .unwrap();
    device.write(&keyboard(Keyboard::A, true), NOW).unwrap();
    log.borrow_mut().fail_next = true;
    drop(device);
    assert_eq!(
        log.borrow().events.last(),
        Some(&(native(Keyboard::LeftCtrl), false))
    );
    assert!(shared.borrow().is_idle());
}

#[test]
fn device_removal_releases_held_inputs() {
    let (mut device, _shared, log) = setup();
    device
        .write(&keyboard(Keyboard::LeftCtrl, true), NOW)
        .unwrap();
    let mut devices = HashMap::from([(7, device)]);
    devices.remove(&7);
    assert_eq!(
        log.borrow().events.last(),
        Some(&(native(Keyboard::LeftCtrl), false))
    );
}

#[test]
fn cancelling_a_connection_future_releases_held_inputs() {
    let (mut device, shared, log) = setup();
    device
        .write(&keyboard(Keyboard::LeftCtrl, true), NOW)
        .unwrap();
    let mut connection = Box::pin(async move {
        let _device = device;
        future::pending::<()>().await;
    });
    let waker = Waker::noop();
    assert!(matches!(
        connection.as_mut().poll(&mut Context::from_waker(waker)),
        Poll::Pending
    ));
    drop(connection);
    assert_eq!(
        log.borrow().events.last(),
        Some(&(native(Keyboard::LeftCtrl), false))
    );
    assert!(shared.borrow().is_idle());
}

#[test]
fn a_failed_repeat_still_releases_the_original_press_on_drop() {
    let (mut device, shared, log) = setup();
    let now = NOW;
    device.write(&keyboard(Keyboard::A, true), now).unwrap();
    log.borrow_mut().fail_next = true;
    assert!(device.repeat(now + 1000 * MILLI).is_err());
    drop(device);
    assert_eq!(
        log.borrow().events,
        vec![(native(Keyboard::A), true), (native(Keyboard::A), false)]
    );
    assert!(shared.borrow().is_idle());
}

#[test]
fn releases_that_fail_are_returned() {
    let (mut owned, shared, log) = setup();
    owned.write(&keyboard(Keyboard::A, true), NOW).unwrap();
    owned.write(&keyboard(Keyboard::B, true), NOW).unwrap();
    log.borrow_mut().fail_next = true;
    let failures = owned.device.release_all(&mut *shared.borrow_mut());
    assert_eq!(
        failures,
        vec![(
            native(Keyboard::B),
            InputError::Device { kind: ErrorKind::PermissionDenied }
        )]
    );
}

#[test]
fn movements_reach_the_sink_and_groups_do_not() {
    let mut shared = SharedInput::new(Recorder::new(false));
    let mut device = Device::new(RepeatConfig::default());
    device
        .write(
            &mut shared,
            &Event::Rel(RelEvent { axis: RelAxis::X, value: -3 }),
            NOW,
        )
        .unwrap();
    device
        .write(&mut shared, &Event::Sync(SyncEvent::All), NOW)
        .unwrap();
    assert_eq!(
        shared.sink().recorded(),
        [SinkCall::Relative { axis: RelAxis::X, value: -3, error: None }]
    );
}

#[test]
fn a_lock_needs_a_held_meta_key() {
    let mut shared = SharedInput::new(Recorder::new(true));
    assert_eq!(shared.try_lock_workstation(), Ok(false));
    assert!(shared.sink().recorded().is_empty());
    shared.press(native(Keyboard::RightMeta)).unwrap();
    assert_eq!(shared.holders(native(Keyboard::RightMeta)), 1);
    assert_eq!(shared.try_lock_workstation(), Ok(true));
    assert_eq!(
        shared.sink().recorded().last(),
        Some(&SinkCall::Lock { accepted: true })
    );
    assert!(shared.is_idle());
}

#[test]
fn shared_keys_go_down_and_up_once_for_all_holders() {
    let (_device, shared, log) = setup();
    let mut shared = shared.borrow_mut();
    for _ in 0..3 {
        assert_eq!(shared.press(native(Keyboard::A)), Ok(()));
    }
    assert_eq!(log.borrow().events, [(native(Keyboard::A), true)]);
    for _ in 0..2 {
        assert_eq!(shared.release(native(Keyboard::A)), Ok(()));
    }
    assert_eq!(log.borrow().events.len(), 1);
    assert_eq!(shared.release(native(Keyboard::A)), Ok(()));
    let once = [(native(Keyboard::A), true), (native(Keyboard::A), false)];
    assert_eq!(log.borrow().events, once);
    // Nobody holds the key any more, so another release does nothing.
    assert_eq!(shared.release(native(Keyboard::A)), Ok(()));
    assert_eq!(log.borrow().events, once);
}

#[test]
fn unmatched_keys_have_no_effect() {
    let (mut owned, shared, log) = setup();
    let mut shared = shared.borrow_mut();
    let a = Key::Key(Keyboard::A);
    let unmapped = Key::Key(Keyboard::Other(7));
    assert_eq!(owned.device.key(&mut *shared, a, false, NOW), Ok(()));
    for down in [true, false] {
        assert_eq!(owned.device.key(&mut *shared, unmapped, down, NOW), Ok(()));
    }
    assert!(log.borrow().events.is_empty());
    assert_eq!(owned.device.next_repeat(), None);

    assert_eq!(owned.device.key(&mut *shared, a, true, NOW), Ok(()));
    assert_eq!(owned.device.key(&mut *shared, a, true, NOW + 50 * MILLI), Ok(()));
    assert_eq!(log.borrow().events, [(native(Keyboard::A), true)]);
    assert_eq!(owned.device.next_repeat(), Some(NOW + 100 * MILLI));
}

#[test]
fn only_what_repeats_needs_a_countable_moment() {
    let (mut owned, shared, log) = setup();
    let mut shared = shared.borrow_mut();
    let last = u64::MAX;
    let a = Key::Key(Keyboard::A);
    let shift = Key::Key(Keyboard::LeftShift);
    assert_eq!(owned.device.key(&mut *shared, shift, true, last), Ok(()));
    assert_eq!(owned.device.key(&mut *shared, a, false, last), Ok(()));
    assert_eq!(owned.device.repeat(&mut *shared, last), Ok(()));
    assert_eq!(owned.device.key(&mut *shared, a, true, last - 100 * MILLI), Ok(()));
    assert_eq!(owned.device.next_repeat(), Some(last));
    assert_eq!(owned.device.key(&mut *shared, a, true, last), Ok(()));
    assert_eq!(owned.device.repeat(&mut *shared, last - 1), Ok(()));
    assert_eq!(owned.device.next_repeat(), Some(last));
    assert_eq!(log.borrow().events.len(), 2);
}
