use rkvm::batch::{InputBatch, Progress, Turn};
use rkvm::chord::KeySet;
use rkvm::destinations::{next_destination, remove_closed_clients};
use rkvm::error::{ErrorKind, InputError};
use rkvm::event::{Event, Key, KeyEvent, Keyboard, RelAxis, RelEvent, SyncEvent};
use rkvm::held_inputs::HeldInputs;
use rkvm::server::{Error, Queued, Server, Target};
use rkvm::update::{DeviceInfo, Update};
use slab::Slab;
use tokio::sync::mpsc;

fn info(name: &str) -> DeviceInfo {
    DeviceInfo {
        name: name.as_bytes().to_vec(),
        vendor: 1,
        product: 2,
        version: 3,
        rel: vec![RelAxis::X],
        abs: vec![],
        keys: vec![Key::Key(Keyboard::A)],
        delay: Some(250),
        period: None,
    }
}

fn key(key: Keyboard, down: bool) -> Event {
    Event::Key(KeyEvent { key: Key::Key(key), down })
}

fn server(propagate: bool) -> Server {
    Server::new(
        KeySet::from_keys(&[
            Key::Key(Keyboard::LeftCtrl),
            Key::Key(Keyboard::LeftAlt),
        ]),
        propagate,
    )
}

/// Deliver a routed event to everybody.
fn deliver(server: &mut Server, device: usize, event: Event) -> Vec<(usize, usize, Vec<Event>)> {
    let routing = server.route(&[], device, event);
    let mut sent = Vec::new();
    for (device, batch) in routing.batches {
        if routing.destination == 0 {
            server
                .forward_local(device, &batch.events, Queued::Taken)
                .unwrap();
        } else {
            server.forward_remote(routing.destination, device, &batch.events, true);
        }
        sent.push((routing.destination, device, batch.events));
    }
    sent
}

#[test]
fn sparse_client_ids_remain_reachable() {
    let mut clients = Slab::new();
    let first = clients.insert(1u64);
    let second = clients.insert(2u64);
    clients.remove(first);

    assert_eq!(next_destination(0, &clients), second + 1);
    assert_eq!(next_destination(second + 1, &clients), 0);
}

#[test]
fn closed_client_is_pruned_before_switching() {
    let mut clients = Slab::new();
    let dead = clients.insert(1u64);
    let live = clients.insert(2u64);

    let destination = dead + 1;
    let mut held = HeldInputs::default();
    held.record(
        destination,
        7,
        KeyEvent {
            key: Key::Key(Keyboard::A),
            down: true,
        },
    );
    let mut current = destination;
    remove_closed_clients(&mut clients, &[dead], &mut held, &mut current);

    assert!(!clients.contains(dead));
    assert!(clients.contains(live));
    assert_eq!(current, 0);
    assert!(held.release(destination).is_empty());
    assert_eq!(next_destination(current, &clients), live + 1);
}

#[test]
fn large_local_switch_cleanup_uses_one_queue_slot() {
    for propagate in [false, true] {
        let (sender, mut receiver) = mpsc::channel(32);
        // Leave just one free slot, even while the interceptor cannot drain it.
        for _ in 0..31 {
            assert!(sender
                .try_send(InputBatch::new(vec![Event::Sync(SyncEvent::All)]))
                .is_ok());
        }
        let mut server =
            Server::new(KeySet::from_keys(&[Key::Key(Keyboard::LeftAlt)]), propagate);
        server.accept(&[], 1);
        let (id, _) = server.add_device(1, info("recording test device"));
        // Ordinary held keys are released even with switch-key propagation off.
        let keys = [
            Keyboard::A, Keyboard::B, Keyboard::C, Keyboard::D,
            Keyboard::E, Keyboard::F, Keyboard::G, Keyboard::H,
            Keyboard::I, Keyboard::J, Keyboard::K, Keyboard::L,
            Keyboard::M, Keyboard::N, Keyboard::O, Keyboard::P,
            Keyboard::Q, Keyboard::R, Keyboard::S, Keyboard::T,
            Keyboard::U, Keyboard::V, Keyboard::W, Keyboard::X,
            Keyboard::Y, Keyboard::Z, Keyboard::F1, Keyboard::F2,
            Keyboard::F3, Keyboard::F4, Keyboard::F5, Keyboard::F6,
            Keyboard::F7, Keyboard::F8, Keyboard::F9, Keyboard::F10,
        ];
        for held in keys {
            assert_eq!(
                server.forward_local(id, &[key(held, true)], Queued::Taken),
                Ok(())
            );
        }
        let routing = server.route(&[], id, key(Keyboard::LeftAlt, true));
        assert_eq!(routing.destination, 0);
        for (device, batch) in routing.batches {
            let events = batch.events.clone();
            let queued = match sender.try_send(batch) {
                Ok(()) => Queued::Taken,
                Err(mpsc::error::TrySendError::Closed(_)) => Queued::Closed,
                Err(mpsc::error::TrySendError::Full(_)) => Queued::Full,
            };
            assert_eq!(server.forward_local(device, &events, queued), Ok(()));
        }
        for _ in 0..31 {
            receiver.try_recv().unwrap();
        }
        let releases = receiver.try_recv().unwrap().events;
        assert_eq!(releases.len(), keys.len() + if propagate { 4 } else { 1 });
        let cleanup_start = if propagate {
            assert_eq!(releases[0], key(Keyboard::LeftAlt, true));
            assert_eq!(releases[1], Event::Sync(SyncEvent::All));
            2
        } else {
            0
        };
        assert!(releases[cleanup_start..releases.len() - 1]
            .iter()
            .all(|event| matches!(event, Event::Key(KeyEvent { down: false, .. }))));
        assert!(matches!(releases.last(), Some(Event::Sync(SyncEvent::All))));
        // Nothing is held here any more: the next time that the shortcut leads
        // away, it has nothing to let up but its own key.
        deliver(&mut server, id, key(Keyboard::LeftAlt, false));
        deliver(&mut server, id, key(Keyboard::LeftAlt, true));
        deliver(&mut server, id, key(Keyboard::LeftAlt, false));
        let away = deliver(&mut server, id, key(Keyboard::LeftAlt, true));
        if propagate {
            assert_eq!(
                away,
                vec![(
                    0,
                    id,
                    vec![
                        key(Keyboard::LeftAlt, true),
                        Event::Sync(SyncEvent::All),
                        key(Keyboard::LeftAlt, false),
                        Event::Sync(SyncEvent::All),
                    ]
                )]
            );
        } else {
            assert!(away.is_empty());
        }
    }
}

#[test]
fn switching_remote_peer_sends_release_without_disconnect() {
    let mut server = server(false);
    let (slot, _) = server.accept(&[], 40);
    let (id, _) = server.add_device(1, info("keyboard"));
    deliver(&mut server, id, key(Keyboard::LeftCtrl, true));
    deliver(&mut server, id, key(Keyboard::LeftAlt, true));
    deliver(&mut server, id, key(Keyboard::LeftAlt, false));
    deliver(&mut server, id, key(Keyboard::LeftCtrl, false));
    assert_eq!(
        deliver(&mut server, id, key(Keyboard::A, true)),
        vec![(slot + 1, id, vec![key(Keyboard::A, true)])]
    );
    deliver(&mut server, id, key(Keyboard::LeftCtrl, true));
    assert_eq!(
        deliver(&mut server, id, key(Keyboard::LeftAlt, true)),
        vec![(
            slot + 1,
            id,
            vec![key(Keyboard::A, false), Event::Sync(SyncEvent::All)]
        )]
    );
    assert_eq!(server.target(slot + 1, id), Target::Client(40));
    deliver(&mut server, id, key(Keyboard::LeftAlt, false));
    deliver(&mut server, id, key(Keyboard::LeftCtrl, false));
    assert_eq!(
        deliver(&mut server, id, key(Keyboard::B, true)),
        vec![(0, id, vec![key(Keyboard::B, true)])]
    );
}

#[test]
fn local_cleanup_waits_for_the_previous_device_to_apply_its_batch() {
    let mut shortcut_sent = false;
    let mut first = InputBatch::new(Vec::new());
    first.after_shortcut(&mut shortcut_sent);
    let mut second = InputBatch::new(Vec::new());
    second.after_shortcut(&mut shortcut_sent);
    assert!(first.ready(Progress::Pending));
    assert!(!second.ready(Progress::Pending));
    assert!(second.ready(Progress::Finished));
}

#[test]
fn a_removed_preceding_device_does_not_block_remaining_cleanup() {
    let mut shortcut_sent = false;
    let mut first = InputBatch::new(Vec::new());
    first.after_shortcut(&mut shortcut_sent);
    let mut second = InputBatch::new(Vec::new());
    second.after_shortcut(&mut shortcut_sent);
    drop(first);
    assert!(second.ready(Progress::Abandoned));
}

#[test]
fn removing_a_middle_device_cannot_bypass_the_shortcut_batch() {
    let mut shortcut_sent = false;
    let mut first = InputBatch::new(Vec::new());
    first.after_shortcut(&mut shortcut_sent);
    let mut middle = InputBatch::new(Vec::new());
    middle.after_shortcut(&mut shortcut_sent);
    let mut last = InputBatch::new(Vec::new());
    last.after_shortcut(&mut shortcut_sent);
    drop(middle);
    assert!(!last.ready(Progress::Pending));
    assert_eq!(first.turn, Turn::First);
    assert!(last.ready(Progress::Finished));
}

#[test]
fn new_clients_are_told_of_all_devices_in_order() {
    let mut server = server(true);
    let (first, told) = server.add_device(10, info("first"));
    assert!(told.clients.is_empty());
    let (second, _) = server.add_device(11, info("second"));
    assert_eq!((first, second), (0, 1));
    let (slot, updates) = server.accept(&[], 77);
    assert_eq!(slot, 0);
    assert_eq!(updates.len(), 2);
    match &updates[1] {
        Update::CreateDevice { id, info } => {
            assert_eq!(*id, 1);
            assert_eq!(info.name, b"second");
            assert_eq!(info.rel, [RelAxis::X]);
            assert_eq!(info.keys, [Key::Key(Keyboard::A)]);
            assert_eq!(info.delay, Some(250));
            assert_eq!(info.period, None);
        }
        other => panic!("not a new device: {:?}", other),
    }
    let (third, told) = server.add_device(12, info("third"));
    assert_eq!(third, 2);
    assert_eq!(told.clients, [77]);
    assert!(matches!(told.update, Update::CreateDevice { id: 2, .. }));
}

#[test]
fn removed_devices_free_their_slot_and_are_announced() {
    let mut server = server(true);
    server.accept(&[], 5);
    server.accept(&[], 6);
    server.add_device(10, info("first"));
    server.add_device(11, info("second"));
    deliver(&mut server, 0, key(Keyboard::A, true));
    let told = server.remove_device(0);
    assert_eq!(told.clients, [5, 6]);
    assert!(matches!(told.update, Update::DestroyDevice { id: 0 }));
    assert_eq!(server.target(0, 0), Target::Nobody);
    assert_eq!(server.target(0, 1), Target::Device(11));
    let (id, _) = server.add_device(12, info("third"));
    assert_eq!(id, 0);
    assert_eq!(server.target(0, 0), Target::Device(12));
}

#[test]
fn only_a_broken_pipe_removes_a_device() {
    let mut server = server(true);
    server.add_device(10, info("first"));
    assert_eq!(
        server.read_failed(0, ErrorKind::PermissionDenied).unwrap_err(),
        Error::Input(InputError::Device { kind: ErrorKind::PermissionDenied })
    );
    assert_eq!(server.target(0, 0), Target::Device(10));
    assert!(matches!(
        server.read_failed(0, ErrorKind::BrokenPipe).unwrap().update,
        Update::DestroyDevice { id: 0 }
    ));
    assert_eq!(server.target(0, 0), Target::Nobody);
}

#[test]
fn closed_slots_are_used_again() {
    let mut server = server(true);
    assert_eq!(server.accept(&[], 1).0, 0);
    assert_eq!(server.accept(&[], 2).0, 1);
    assert_eq!(server.accept(&[], 3).0, 2);
    assert_eq!(server.accept(&[0, 1, 9], 4).0, 1);
    assert_eq!(server.accept(&[], 5).0, 0);
    assert_eq!(server.accept(&[], 6).0, 3);
    assert_eq!(server.target(2, 0), Target::Client(4));
    assert_eq!(server.target(3, 0), Target::Client(3));
}

#[test]
fn the_shortcut_cycles_through_all_machines() {
    let mut server = server(false);
    server.accept(&[], 1);
    server.accept(&[], 2);
    server.accept(&[], 3);
    server.forward_remote(2, 0, &[], false);
    let (id, _) = server.add_device(1, info("keyboard"));
    let mut visited = Vec::new();
    for _ in 0..4 {
        deliver(&mut server, id, key(Keyboard::LeftCtrl, true));
        let routing = server.route(&[], id, key(Keyboard::LeftAlt, true));
        visited.push(routing.selected.unwrap());
        deliver(&mut server, id, key(Keyboard::LeftAlt, false));
        deliver(&mut server, id, key(Keyboard::LeftCtrl, false));
    }
    assert_eq!(visited, [1, 3, 0, 1]);
}

#[test]
fn the_rest_of_the_shortcut_goes_where_it_began() {
    let mut server = server(true);
    server.accept(&[], 1);
    let (id, _) = server.add_device(1, info("keyboard"));
    let group = |event| vec![event, Event::Sync(SyncEvent::All)];
    assert_eq!(
        deliver(&mut server, id, key(Keyboard::LeftCtrl, true)),
        vec![(0, id, group(key(Keyboard::LeftCtrl, true)))]
    );
    assert_eq!(
        deliver(&mut server, id, key(Keyboard::LeftAlt, true)),
        vec![(
            0,
            id,
            vec![
                key(Keyboard::LeftAlt, true),
                Event::Sync(SyncEvent::All),
                key(Keyboard::LeftAlt, false),
                key(Keyboard::LeftCtrl, false),
                Event::Sync(SyncEvent::All),
            ]
        )]
    );
    assert_eq!(
        deliver(&mut server, id, key(Keyboard::LeftAlt, false)),
        vec![(0, id, group(key(Keyboard::LeftAlt, false)))]
    );
    let motion = Event::Rel(RelEvent { axis: RelAxis::X, value: 4 });
    assert_eq!(
        deliver(&mut server, id, motion),
        vec![(1, id, vec![motion])]
    );
}

#[test]
fn a_shortcut_without_clients_stays_here() {
    let mut server = server(false);
    let (id, _) = server.add_device(1, info("keyboard"));
    deliver(&mut server, id, key(Keyboard::LeftCtrl, true));
    let routing = server.route(&[], id, key(Keyboard::LeftAlt, true));
    assert_eq!(routing.selected, Some(0));
    assert!(routing.batches.is_empty());
}

#[test]
fn batches_of_a_local_switch_wait_for_the_first() {
    let mut server = server(true);
    server.accept(&[], 1);
    let (left, _) = server.add_device(1, info("left"));
    let (right, _) = server.add_device(2, info("right"));
    deliver(&mut server, left, key(Keyboard::LeftCtrl, true));
    let routing = server.route(&[], right, key(Keyboard::LeftAlt, true));
    assert_eq!(routing.batches.len(), 2);
    assert_eq!(routing.batches[0].0, right);
    assert_eq!(routing.batches[0].1.turn, Turn::First);
    assert_eq!(routing.batches[1].0, left);
    assert_eq!(routing.batches[1].1.turn, Turn::AfterFirst);
}

#[test]
fn full_queues_end_the_server_and_closed_ones_do_not() {
    let mut server = server(true);
    server.accept(&[], 1);
    let (id, _) = server.add_device(1, info("keyboard"));
    let events = [key(Keyboard::A, true)];
    assert_eq!(
        server.forward_local(id, &events, Queued::Full),
        Err(Error::Overflow)
    );
    assert_eq!(server.forward_local(id, &events, Queued::Closed), Ok(()));
    assert_eq!(server.forward_local(id + 1, &events, Queued::Full), Ok(()));
    // Nothing of that was taken, so nothing has to be let up.
    deliver(&mut server, id, key(Keyboard::LeftCtrl, true));
    let routing = server.route(&[], id, key(Keyboard::LeftAlt, true));
    assert_eq!(routing.batches[0].1.events.len(), 5);
}

#[test]
fn a_client_that_cannot_be_reached_is_forgotten() {
    let mut server = server(false);
    server.accept(&[], 1);
    let (id, _) = server.add_device(1, info("keyboard"));
    deliver(&mut server, id, key(Keyboard::LeftCtrl, true));
    deliver(&mut server, id, key(Keyboard::LeftAlt, true));
    assert_eq!(server.target(1, id), Target::Client(1));
    server.forward_remote(1, id, &[key(Keyboard::A, true)], false);
    assert_eq!(server.target(1, id), Target::Nobody);
    assert_eq!(
        deliver(&mut server, id, key(Keyboard::B, true)),
        vec![(0, id, vec![key(Keyboard::B, true)])]
    );
}

#[test]
fn suppressed_keys_are_in_no_batch_of_a_run() {
    let mut server = server(false);
    server.accept(&[], 1);
    let (left, _) = server.add_device(1, info("left"));
    let (right, _) = server.add_device(2, info("right"));
    let switch = [Keyboard::LeftCtrl, Keyboard::LeftAlt];
    let mut sent = Vec::new();
    for _ in 0..3 {
        for (device, typed, down) in [
            (left, Keyboard::LeftCtrl, true),
            (right, Keyboard::A, true),
            (left, Keyboard::B, true),
            (right, Keyboard::LeftAlt, true),
            (left, Keyboard::LeftCtrl, false),
            (right, Keyboard::C, true),
            (right, Keyboard::LeftAlt, false),
        ] {
            sent.extend(deliver(&mut server, device, key(typed, down)));
        }
    }
    for (_, _, events) in &sent {
        for event in events {
            for hidden in switch {
                assert_ne!(*event, key(hidden, true));
                assert_ne!(*event, key(hidden, false));
            }
        }
    }
    // Ordinary keys are let up where they went down. C went to the client.
    assert_eq!(sent[2].0, 0);
    assert_eq!(sent[3].0, 0);
    let up = |pressed| vec![key(pressed, false), Event::Sync(SyncEvent::All)];
    assert!(sent[2..4].contains(&(0, left, up(Keyboard::B))));
    assert!(sent[2..4].contains(&(0, right, up(Keyboard::A))));
    assert_eq!(sent[4], (1, right, vec![key(Keyboard::C, true)]));
}
