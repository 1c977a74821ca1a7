use rkvm::chord::{update_switch_chord, KeySet, SwitchAction};
use rkvm::event::{Button, Event, Key, KeyEvent, Keyboard, SyncEvent};
use rkvm::held_inputs::HeldInputs;

#[test]
fn switching_away_releases_a_held_letter_and_drag_before_sync() {
    let mut held = HeldInputs::default();
    let key = Key::Key(Keyboard::A);
    let button = Key::Button(Button::Left);
    held.record(1, 7, KeyEvent { key, down: true });
    held.record(1, 7, KeyEvent { key: button, down: true });
    let releases = held.release(1);
    assert_eq!(releases.len(), 1);
    assert_eq!(releases[0].0, 7);
    let releases = &releases[0].1;
    assert_eq!(releases.len(), 3);
    assert!(matches!(&releases[0], Event::Key(KeyEvent { key, down: false }) if *key == button));
    assert!(
        matches!(&releases[1], Event::Key(KeyEvent { key: released, down: false }) if *released == key)
    );
    assert!(matches!(&releases[2], Event::Sync(SyncEvent::All)));
    assert!(held.release(1).is_empty());
}

#[test]
fn duplicates_and_other_destinations_are_not_released() {
    let mut held = HeldInputs::default();
    let key = Key::Key(Keyboard::LeftCtrl);
    for _ in 0..2 {
        held.record(0, 7, KeyEvent { key, down: true });
    }
    held.record(1, 7, KeyEvent { key, down: true });
    assert_eq!(held.release(0)[0].1.len(), 2);
    assert_eq!(held.release(1)[0].1.len(), 2);
}

#[test]
fn released_or_removed_keys_are_not_released_again() {
    let mut held = HeldInputs::default();
    let key = Key::Key(Keyboard::A);
    held.record(1, 7, KeyEvent { key, down: true });
    held.record(1, 7, KeyEvent { key, down: false });
    assert!(held.release(1).is_empty());
    held.record(1, 8, KeyEvent { key, down: true });
    held.remove_device(8);
    assert!(held.release(1).is_empty());
    held.record(1, 7, KeyEvent { key, down: true });
    held.remove_destination(1);
    assert!(held.release(1).is_empty());
}

#[test]
fn final_shortcut_is_batched_before_other_device_releases() {
    let mut held = HeldInputs::default();
    held.record(
        0,
        3,
        KeyEvent {
            key: Key::Key(Keyboard::LeftCtrl),
            down: true,
        },
    );
    let batches = held.finish_switch(
        0,
        7,
        vec![
            Event::Key(KeyEvent {
                key: Key::Key(Keyboard::LeftAlt),
                down: true,
            }),
            Event::Sync(SyncEvent::All),
        ],
    );
    assert_eq!(batches.len(), 2);
    assert_eq!(batches[0].0, 7);
    assert_eq!(batches[0].1.len(), 4);
    assert!(matches!(
        batches[0].1[0],
        Event::Key(KeyEvent { down: true, .. })
    ));
    assert!(matches!(
        batches[0].1[2],
        Event::Key(KeyEvent { down: false, .. })
    ));
    assert_eq!(batches[1].0, 3);
    assert!(held.release(0).is_empty());
}

#[test]
fn held_switch_chord_activates_only_once_until_fully_released() {
    let left_ctrl = Key::Key(Keyboard::LeftCtrl);
    let left_alt = Key::Key(Keyboard::LeftAlt);
    let switch_keys = KeySet::from_keys(&[left_ctrl, left_alt]);
    let mut pressed = KeySet::default();
    let mut changed = false;
    let event = |key, down| KeyEvent { key, down };

    assert_eq!(
        update_switch_chord(
            event(left_ctrl, true),
            &switch_keys,
            &mut pressed,
            &mut changed,
        ),
        SwitchAction::ForwardCurrent
    );
    assert_eq!(
        update_switch_chord(
            event(left_alt, true),
            &switch_keys,
            &mut pressed,
            &mut changed,
        ),
        SwitchAction::Activate
    );
    for repeated in [left_ctrl, left_alt, left_ctrl] {
        assert_eq!(
            update_switch_chord(
                event(repeated, true),
                &switch_keys,
                &mut pressed,
                &mut changed,
            ),
            SwitchAction::RoutePrevious
        );
    }
    assert_eq!(
        update_switch_chord(
            event(left_alt, false),
            &switch_keys,
            &mut pressed,
            &mut changed,
        ),
        SwitchAction::RoutePrevious
    );
    assert!(changed);
    assert_eq!(
        update_switch_chord(
            event(left_ctrl, false),
            &switch_keys,
            &mut pressed,
            &mut changed,
        ),
        SwitchAction::RoutePrevious
    );
    assert!(!changed);

    assert_eq!(
        update_switch_chord(
            event(left_ctrl, true),
            &switch_keys,
            &mut pressed,
            &mut changed,
        ),
        SwitchAction::ForwardCurrent
    );
    assert_eq!(
        update_switch_chord(
            event(left_alt, true),
            &switch_keys,
            &mut pressed,
            &mut changed,
        ),
        SwitchAction::Activate
    );
}

fn key(key: Keyboard, down: bool) -> Event {
    Event::Key(KeyEvent { key: Key::Key(key), down })
}

#[test]
fn a_press_and_its_release_leave_no_trace() {
    let mut held = HeldInputs::default();
    held.record(2, 5, KeyEvent { key: Key::Key(Keyboard::A), down: true });
    held.record(2, 5, KeyEvent { key: Key::Key(Keyboard::B), down: true });
    held.record(2, 5, KeyEvent { key: Key::Key(Keyboard::B), down: false });
    held.record(2, 5, KeyEvent { key: Key::Key(Keyboard::C), down: false });
    assert_eq!(
        held.release(2),
        vec![(5, vec![key(Keyboard::A, false), Event::Sync(SyncEvent::All)])]
    );
    assert!(held.release(2).is_empty());
}

#[test]
fn a_switch_without_events_and_held_keys_needs_no_batch() {
    let mut held = HeldInputs::default();
    assert!(held.finish_switch(0, 7, vec![]).is_empty());
    held.record(0, 3, KeyEvent { key: Key::Key(Keyboard::A), down: true });
    assert_eq!(
        held.finish_switch(0, 7, vec![]),
        vec![(3, vec![key(Keyboard::A, false), Event::Sync(SyncEvent::All)])]
    );
}

#[test]
fn planned_releases_clear_what_was_delivered() {
    let mut held = HeldInputs::default();
    held.record(1, 3, KeyEvent { key: Key::Key(Keyboard::LeftCtrl), down: true });
    held.record(1, 7, KeyEvent { key: Key::Key(Keyboard::A), down: true });
    held.record(2, 7, KeyEvent { key: Key::Key(Keyboard::B), down: true });
    let leading = vec![key(Keyboard::LeftAlt, true), Event::Sync(SyncEvent::All)];
    let batches = held.finish_switch(1, 7, leading);
    for (device, events) in &batches {
        for event in events {
            if let Event::Key(event) = event {
                held.record(1, *device, *event);
            }
        }
    }
    assert!(held.release(1).is_empty());
    assert_eq!(held.release(2).len(), 1);
    assert_eq!(
        batches[0],
        (
            7,
            vec![
                key(Keyboard::LeftAlt, true),
                Event::Sync(SyncEvent::All),
                key(Keyboard::LeftAlt, false),
                key(Keyboard::A, false),
                Event::Sync(SyncEvent::All),
            ]
        )
    );
}

#[test]
fn sets_of_keys_count_each_key_once() {
    let a = Key::Key(Keyboard::A);
    let b = Key::Key(Keyboard::B);
    let mut keys = KeySet::from_keys(&[a, b, a]);
    assert_eq!(keys.len(), 2);
    keys.insert(b);
    assert_eq!(keys.len(), 2);
    keys.remove(a);
    assert!(!keys.contains(a));
    assert!(keys.contains(b));
    keys.remove(b);
    assert!(keys.is_empty());
}

#[test]
fn other_keys_do_not_disturb_the_shortcut() {
    let ctrl = Key::Key(Keyboard::LeftCtrl);
    let switch_keys = KeySet::from_keys(&[ctrl]);
    let mut pressed = KeySet::default();
    let mut changed = false;
    let other = KeyEvent { key: Key::Key(Keyboard::A), down: true };
    assert_eq!(
        update_switch_chord(other, &switch_keys, &mut pressed, &mut changed),
        SwitchAction::Unrelated
    );
    assert!(pressed.is_empty());
    let ctrl_down = KeyEvent { key: ctrl, down: true };
    assert_eq!(
        update_switch_chord(ctrl_down, &switch_keys, &mut pressed, &mut changed),
        SwitchAction::Activate
    );
    assert_eq!(
        update_switch_chord(other, &switch_keys, &mut pressed, &mut changed),
        SwitchAction::Unrelated
    );
    assert!(changed);
}
