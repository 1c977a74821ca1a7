use rkvm::error::{ErrorKind, InputError};
use rkvm::event::{Button, Key, Keyboard, RelAxis};
use rkvm::hid::{
    keyboard_transition, mouse_button_bit, mouse_report, HidStep, VirtualHid, KEYBOARD_REPORT_ID,
    MOUSE_REPORT_ID,
};
use rkvm::inject::{
    key_input, relative_input, write_raw_result, Injection, Motion, RawInput, WindowsSink,
    KEYEVENTF_EXTENDEDKEY, KEYEVENTF_KEYUP, KEYEVENTF_SCANCODE, MOUSEEVENTF_HWHEEL,
    MOUSEEVENTF_LEFTDOWN, MOUSEEVENTF_MOVE, MOUSEEVENTF_WHEEL, MOUSEEVENTF_XUP, XBUTTON1,
};
use rkvm::keymap::{hid_usage, native_key, repeatable, scan_code, NativeKey};

#[test]
fn volume_keys_produce_windows_virtual_key_press_and_release() {
    for (key, expected_vk) in [
        (Keyboard::Mute, 0xad),
        (Keyboard::VolumeDown, 0xae),
        (Keyboard::VolumeUp, 0xaf),
    ] {
        let native = native_key(Key::Key(key)).expect("volume key must not be dropped");
        for (down, expected_flags) in [(true, 0), (false, KEYEVENTF_KEYUP)] {
            match key_input(native, down) {
                Some(RawInput::Keyboard { virtual_key, scan_code, flags }) => {
                    assert_eq!(virtual_key, expected_vk);
                    assert_eq!(scan_code, 0);
                    assert_eq!(flags, expected_flags);
                }
                other => panic!("not a keyboard input: {:?}", other),
            }
        }
    }
}

fn submit(hid: &mut VirtualHid, key: NativeKey, down: bool, reports: &mut Vec<u8>) {
    for HidStep { report, after } in hid.key(key, down).unwrap() {
        reports.extend(report);
        *hid = after;
    }
}

#[test]
fn volume_hid_reports_preserve_other_keys_and_pulse_repeats() {
    let mut hid = VirtualHid::new();
    let mut reports = Vec::new();
    let up = native_key(Key::Key(Keyboard::VolumeUp)).expect("volume up mapping");
    let mute = native_key(Key::Key(Keyboard::Mute)).expect("mute mapping");
    submit(&mut hid, up, true, &mut reports);
    submit(&mut hid, mute, true, &mut reports);
    submit(&mut hid, up, true, &mut reports);
    submit(&mut hid, up, false, &mut reports);
    submit(&mut hid, mute, false, &mut reports);
    // Consumer report ID 3: mute bit 0, volume-down bit 1, volume-up bit 2.
    assert_eq!(reports, [3, 4, 3, 5, 3, 1, 3, 5, 3, 1, 3, 0]);
}

#[test]
fn maps_standard_keyboard_scancodes() {
    assert_eq!(scan_code(Keyboard::A), Some((0x1e, false)));
    assert_eq!(scan_code(Keyboard::Enter), Some((0x1c, false)));
    assert_eq!(scan_code(Keyboard::Left), Some((0x4b, true)));
    assert_eq!(scan_code(Keyboard::RightMeta), Some((0x5c, true)));
    assert_eq!(hid_usage(Keyboard::A), Some(0x04));
    assert_eq!(hid_usage(Keyboard::Left), Some(0x50));
    assert_eq!(hid_usage(Keyboard::RightMeta), Some(0xe7));
}

#[test]
fn maps_mouse_movement_and_wheel() {
    assert!(relative_input(RelAxis::X, 1).is_some());
    assert!(relative_input(RelAxis::Y, -1).is_some());
    assert!(relative_input(RelAxis::Wheel, 1).is_some());
    assert!(relative_input(RelAxis::HWheel, -1).is_some());
    assert!(relative_input(RelAxis::WheelHiRes, 120).is_none());
}

#[test]
fn ignores_unrepresentable_keyboard_events() {
    assert!(scan_code(Keyboard::Pause).is_none());
    assert!(native_key(Key::Key(Keyboard::Pause)).is_none());
}

#[test]
fn release_preserves_extended_scan_code_and_mouse_button_identity() {
    let key = native_key(Key::Key(Keyboard::RightCtrl)).unwrap();
    match key_input(key, false) {
        Some(RawInput::Keyboard { scan_code, flags, .. }) => {
            assert_eq!(scan_code, 0x1d);
            assert_eq!(
                flags,
                KEYEVENTF_SCANCODE | KEYEVENTF_EXTENDEDKEY | KEYEVENTF_KEYUP
            );
        }
        other => panic!("not a keyboard input: {:?}", other),
    }
    assert_ne!(key, native_key(Key::Key(Keyboard::LeftCtrl)).unwrap());
    match key_input(native_key(Key::Button(Button::Back)).unwrap(), false) {
        Some(RawInput::Mouse { data, flags, .. }) => {
            assert_eq!(flags, MOUSEEVENTF_XUP);
            assert_eq!(data, XBUTTON1);
        }
        other => panic!("not a mouse input: {:?}", other),
    }
}

#[test]
fn virtual_hid_keyboard_reports_full_state_and_enforces_six_key_rollover() {
    let (modifiers, keys, report) =
        keyboard_transition(0, [0; 6], hid_usage(Keyboard::LeftCtrl).unwrap(), true).unwrap();
    assert_eq!(modifiers, 0x01);
    assert_eq!(report, [KEYBOARD_REPORT_ID, 0x01, 0, 0, 0, 0, 0, 0, 0]);

    let (modifiers, mut keys, report) =
        keyboard_transition(modifiers, keys, hid_usage(Keyboard::A).unwrap(), true).unwrap();
    assert_eq!(report, [KEYBOARD_REPORT_ID, 0x01, 0, 0x04, 0, 0, 0, 0, 0]);
    for usage in 0x05..=0x09 {
        (_, keys, _) = keyboard_transition(modifiers, keys, usage, true).unwrap();
    }
    assert_eq!(
        keyboard_transition(modifiers, keys, 0x0a, true)
            .unwrap_err()
            .kind(),
        Some(ErrorKind::WouldBlock)
    );

    let (_, keys, report) = keyboard_transition(modifiers, keys, 0x04, false).unwrap();
    assert!(!keys.contains(&0x04));
    assert_eq!(report[3], 0);
}

#[test]
fn virtual_hid_mouse_reports_buttons_and_signed_deltas() {
    assert_eq!(mouse_button_bit(Button::Left), Some(0));
    assert_eq!(mouse_button_bit(Button::Forward), Some(4));
    assert_eq!(
        mouse_report(0x11, None),
        [MOUSE_REPORT_ID, 0x11, 0, 0, 0, 0]
    );
    assert_eq!(
        mouse_report(0x01, Some((3, -127))),
        [MOUSE_REPORT_ID, 0x01, 0, 129, 0, 0]
    );
}

#[test]
fn a_release_undoes_a_press_in_the_driver() {
    let mut hid = VirtualHid::new();
    let mut reports = Vec::new();
    let a = native_key(Key::Key(Keyboard::A)).unwrap();
    let left = native_key(Key::Button(Button::Left)).unwrap();
    submit(&mut hid, a, true, &mut reports);
    submit(&mut hid, left, true, &mut reports);
    submit(&mut hid, left, false, &mut reports);
    submit(&mut hid, a, false, &mut reports);
    assert_eq!(
        reports,
        [
            1, 0, 0, 4, 0, 0, 0, 0, 0, // A down
            2, 1, 0, 0, 0, 0, // left button down
            2, 0, 0, 0, 0, 0, // left button up
            1, 0, 0, 0, 0, 0, 0, 0, 0, // A up
        ]
    );
}

#[test]
fn large_movements_are_split_into_reports_that_add_up() {
    let hid = VirtualHid::new();
    assert_eq!(
        hid.relative(RelAxis::X, 300),
        vec![
            vec![2, 0, 127, 0, 0, 0],
            vec![2, 0, 127, 0, 0, 0],
            vec![2, 0, 46, 0, 0, 0],
        ]
    );
    assert_eq!(
        hid.relative(RelAxis::HWheel, -128),
        vec![vec![2, 0, 0, 0, 0, 129], vec![2, 0, 0, 0, 0, 255]]
    );
    assert!(hid.relative(RelAxis::Y, 0).is_empty());
    assert!(hid.relative(RelAxis::WheelHiRes, 120).is_empty());
}

#[test]
fn movements_are_sent_with_their_direction() {
    assert_eq!(
        relative_input(RelAxis::X, -3),
        Some(RawInput::Mouse { dx: -3, dy: 0, data: 0, flags: MOUSEEVENTF_MOVE })
    );
    assert_eq!(
        relative_input(RelAxis::Wheel, -1),
        Some(RawInput::Mouse {
            dx: 0,
            dy: 0,
            data: (-120i32) as u32,
            flags: MOUSEEVENTF_WHEEL,
        })
    );
    assert_eq!(
        relative_input(RelAxis::HWheel, 2),
        Some(RawInput::Mouse { dx: 0, dy: 0, data: 240, flags: MOUSEEVENTF_HWHEEL })
    );
}

#[test]
fn rejected_input_is_never_a_success() {
    assert_eq!(write_raw_result(1, 1, 5), Ok(()));
    assert_eq!(write_raw_result(0, 1, 5), Err(InputError::Os { code: 5 }));
    assert_eq!(write_raw_result(0, 1, 0), Err(InputError::Rejected));
    assert_eq!(
        write_raw_result(1, 2, 0),
        Err(InputError::Partial { written: 1, expected: 2 })
    );
}

#[test]
fn the_driver_is_preferred_and_the_power_key_needs_it() {
    let power = native_key(Key::Key(Keyboard::Power)).unwrap();
    let mut with_driver = WindowsSink::new(true);
    match with_driver.key(power, true) {
        Ok(Injection::Hid(steps)) => {
            assert_eq!(steps.len(), 1);
            assert_eq!(steps[0].report, [4, 1]);
            with_driver.accepted(&steps[0]);
        }
        other => panic!("not a report: {:?}", other),
    }
    match with_driver.key(power, false) {
        Ok(Injection::Hid(steps)) => assert_eq!(steps[0].report, [4, 0]),
        other => panic!("not a report: {:?}", other),
    }
    match with_driver.relative(RelAxis::X, 1) {
        Motion::Hid(reports) => assert_eq!(reports, vec![vec![2, 0, 1, 0, 0, 0]]),
        other => panic!("not a report: {:?}", other),
    }

    let without_driver = WindowsSink::new(false);
    assert!(matches!(
        without_driver.key(power, true),
        Ok(Injection::Ignored)
    ));
    let left = native_key(Key::Button(Button::Left)).unwrap();
    match without_driver.key(left, true) {
        Ok(Injection::Raw(RawInput::Mouse { flags, .. })) => {
            assert_eq!(flags, MOUSEEVENTF_LEFTDOWN)
        }
        other => panic!("not a mouse input: {:?}", other),
    }
    assert!(matches!(
        without_driver.relative(RelAxis::WheelHiRes, 120),
        Motion::Ignored
    ));
    assert!(!repeatable(Key::Key(Keyboard::Power)));
    assert!(repeatable(Key::Key(Keyboard::VolumeUp)));
    assert!(!repeatable(Key::Key(Keyboard::Mute)));
}
