//! The server: which machine gets the inputs of which device.
//!
//! The server is driven from outside. It is told of connections, devices and
//! events, answers what is to be sent where, and is then told how that went.
use vstd::prelude::*;

use crate::batch::{InputBatch, Turn};
use crate::chord::{
    chord_after, chord_wf, chords_stay_in_order, switch_action, update_switch_chord, KeySet,
    SwitchAction,
};
use crate::destinations::{
    clients_without, comes_next, destination_after, held_without, is_live, next_destination,
    remove_closed_clients, slots_given_up,
};
use crate::error::{ErrorKind, InputError, NetworkError};
use crate::event::{Event, Key, SyncEvent};
use crate::held_inputs::{
    batch_views, delivered, delivered_switches_clear_the_destination, devices_at, recorded_all,
    recording_touches_one_pair, switch_batches, without_destination, without_device, BatchView,
    HeldInputs, HeldView,
};
use crate::registry::Registry;
use crate::slots::{
    contains, get, in_order, insert, new_slab, next_slot, one_order, remove, slab_entries,
    slab_vacated, slots, vacant_key, vacated_after_use,
};
use crate::update::{update_views, DeviceInfo, InfoView, Update, UpdateView};

verus! {

/// Why the server ends.
#[derive(Clone, Copy, Debug, PartialEq, Eq, Structural)]
pub enum Error {
    /// The network failed.
    Network(NetworkError),
    /// An input device failed.
    Input(InputError),
    /// A device of the own machine does not take its events in time.
    Overflow,
}

/// The state of a server.
#[verifier::ext_equal]
pub struct ServerView {
    /// The handle of each client, by slot.
    pub clients: Map<usize, u64>,
    /// The slots of clients that are gone.
    pub free_clients: Seq<usize>,
    /// The handle of each device, by slot.
    pub devices: Map<usize, u64>,
    /// The slots of devices that are gone.
    pub free_devices: Seq<usize>,
    /// The description of each device, by slot.
    pub infos: Map<usize, InfoView>,
    /// The destination that gets the inputs.
    pub current: usize,
    /// The destination that got them before the last switch.
    pub previous: usize,
    /// Whether the shortcut has been completed since its keys were last all up.
    pub changed: bool,
    /// The keys of the shortcut that are down.
    pub pressed: Set<Key>,
    /// What is held at each destination.
    pub held: HeldView,
    /// The keys of the shortcut.
    pub switch_keys: Set<Key>,
    /// Whether the keys of the shortcut are passed on.
    pub propagate: bool,
}

/// What is always true of a server: every device is described, the inputs go to
/// a destination that is there, the shortcut is in order, and only destinations
/// and own devices that are there hold anything.
pub open spec fn server_wf(server: ServerView) -> bool {
    &&& server.infos.dom() == server.devices.dom()
    &&& is_live(server.clients, server.current)
    &&& chord_wf(server.switch_keys, server.pressed, server.changed)
    &&& forall|at: (usize, usize)| #[trigger]
        server.held.contains_key(at) ==> {
            &&& is_live(server.clients, at.0)
            &&& at.0 == 0 ==> server.devices.contains_key(at.1)
            &&& server.held[at].len() > 0
            &&& server.held[at].no_duplicates()
        }
}

/// A server that has just been started.
pub open spec fn idle_server(switch_keys: Set<Key>, propagate: bool) -> ServerView {
    ServerView {
        clients: Map::empty(),
        free_clients: Seq::empty(),
        devices: Map::empty(),
        free_devices: Seq::empty(),
        infos: Map::empty(),
        current: 0,
        previous: 0,
        changed: false,
        pressed: Set::empty(),
        held: Map::empty(),
        switch_keys,
        propagate,
    }
}

/// The server once it has forgotten clients whose connections are closed.
pub open spec fn pruned(server: ServerView, closed: Set<usize>) -> ServerView {
    let clients = clients_without(server.clients, closed);
    ServerView {
        clients,
        free_clients: server.free_clients + slots_given_up(server.clients, closed),
        held: held_without(server.held, server.clients, closed),
        current: destination_after(clients, server.current),
        ..server
    }
}

/// The server with one more client.
pub open spec fn with_client(server: ServerView, handle: u64) -> ServerView {
    ServerView {
        clients: server.clients.insert(
            next_slot(server.clients, server.free_clients) as usize,
            handle,
        ),
        free_clients: vacated_after_use(server.free_clients),
        ..server
    }
}

/// The messages that tell a client of all devices.
pub open spec fn introductions(infos: Map<usize, InfoView>) -> Seq<UpdateView> {
    in_order(infos.dom()).map_values(
        |id: usize| UpdateView::CreateDevice { id, info: infos[id] },
    )
}

/// The message that tells the clients of a new device.
pub open spec fn announcement(id: usize, info: InfoView) -> UpdateView {
    UpdateView::CreateDevice { id, info }
}

/// The message that tells the clients that a device is gone.
pub open spec fn farewell(id: usize) -> UpdateView {
    UpdateView::DestroyDevice { id }
}

/// The handles of all clients, by ascending slot.
pub open spec fn all_clients(clients: Map<usize, u64>) -> Seq<u64> {
    in_order(clients.dom()).map_values(|id: usize| clients[id])
}

/// The server with one more device.
pub open spec fn with_device(server: ServerView, handle: u64, info: InfoView) -> ServerView {
    let id = next_slot(server.devices, server.free_devices) as usize;
    ServerView {
        devices: server.devices.insert(id, handle),
        free_devices: vacated_after_use(server.free_devices),
        infos: server.infos.insert(id, info),
        ..server
    }
}

/// The server without a device.
pub open spec fn device_removed(server: ServerView, id: usize) -> ServerView {
    ServerView {
        devices: server.devices.remove(id),
        free_devices: server.free_devices.push(id),
        infos: server.infos.remove(id),
        held: without_device(server.held, id),
        ..server
    }
}

/// The server without a client.
pub open spec fn client_lost(server: ServerView, destination: usize) -> ServerView {
    ServerView {
        clients: server.clients.remove((destination - 1) as usize),
        free_clients: server.free_clients.push((destination - 1) as usize),
        held: without_destination(server.held, destination),
        current: if server.current == destination {
            0
        } else {
            server.current
        },
        ..server
    }
}

/// What an event means for the shortcut.
pub open spec fn action_of(server: ServerView, event: Event) -> SwitchAction {
    match event {
        Event::Key(key) => switch_action(key, server.switch_keys, server.pressed, server.changed),
        _ => SwitchAction::Unrelated,
    }
}

/// The state of the shortcut after an event.
pub open spec fn chord_of(server: ServerView, event: Event) -> (Set<Key>, bool) {
    match event {
        Event::Key(key) => chord_after(key, server.switch_keys, server.pressed, server.changed),
        _ => (server.pressed, server.changed),
    }
}

/// What is passed on of an event. A key of the shortcut ends its group at once,
/// or is not passed on at all.
pub open spec fn passed_on(event: Event, press: bool, propagate: bool) -> Seq<Event> {
    if !press {
        seq![event]
    } else if propagate {
        seq![event, Event::Sync(SyncEvent::All)]
    } else {
        Seq::empty()
    }
}

/// The contents of some batches.
pub open spec fn batch_contents(batches: Seq<(usize, InputBatch)>) -> Seq<BatchView> {
    batches.map_values(|batch: (usize, InputBatch)| (batch.0, batch.1.events@))
}

/// The turns of some batches of a switch. Where they go to devices of the own
/// machine, all others wait for the first.
pub open spec fn in_line(batches: Seq<(usize, InputBatch)>, local: bool) -> bool {
    forall|i: int|
        0 <= i < batches.len() ==> (#[trigger] batches[i]).1.turn == if !local {
            Turn::Free
        } else if i == 0 {
            Turn::First
        } else {
            Turn::AfterFirst
        }
}

/// Where events go.
#[derive(Debug)]
pub struct Routing {
    /// The machine that gets the batches.
    pub destination: usize,
    /// The batches, each with the device from which it comes.
    pub batches: Vec<(usize, InputBatch)>,
    /// The destination that was selected, if the shortcut was completed.
    pub selected: Option<usize>,
}

/// Whether an event completes the shortcut and thereby selects another
/// destination.
pub open spec fn switches(before: ServerView, event: Event, after: ServerView) -> bool {
    action_of(before, event) == SwitchAction::Activate && after.current != before.current
}

/// What routing an event of a device does, once closed clients are forgotten.
pub open spec fn routed(
    before: ServerView,
    device: usize,
    event: Event,
    after: ServerView,
    routing: Routing,
) -> bool {
    let action = action_of(before, event);
    let (pressed, changed) = chord_of(before, event);
    let events = passed_on(event, action != SwitchAction::Unrelated, before.propagate);
    &&& after == (ServerView {
        current: after.current,
        previous: after.previous,
        pressed,
        changed,
        held: after.held,
        ..before
    })
    &&& if action == SwitchAction::Activate {
        &&& comes_next(before.clients, before.current, after.current)
        &&& after.previous == before.current
        &&& routing.selected == Some(after.current)
    } else {
        &&& after.current == before.current
        &&& after.previous == before.previous
        &&& routing.selected is None
    }
    &&& if switches(before, event, after) {
        &&& routing.destination == before.current
        &&& switch_batches(
            batch_contents(routing.batches@),
            events,
            devices_at(
                recorded_all(before.held, (before.current, device), events),
                before.current,
            ),
            device,
        )
        &&& in_line(routing.batches@, before.current == 0)
        &&& after.held == without_destination(before.held, before.current)
    } else {
        &&& routing.destination == if action == SwitchAction::RoutePrevious {
            before.previous
        } else {
            before.current
        }
        &&& batch_contents(routing.batches@) == if events.len() == 0 {
            Seq::<BatchView>::empty()
        } else {
            seq![(device, events)]
        }
        &&& in_line(routing.batches@, false)
        &&& after.held == before.held
    }
}

/// What routing an event of a device does, given the slots of the clients whose
/// connections are closed.
pub open spec fn event_routed(
    before: ServerView,
    closed: Set<usize>,
    device: usize,
    event: Event,
    after: ServerView,
    routing: Routing,
) -> bool {
    routed(pruned(before, closed), device, event, after, routing)
}

/// What taking a new client does: it gets a slot and the messages that tell it of
/// all devices.
pub open spec fn client_accepted(
    before: ServerView,
    closed: Set<usize>,
    handle: u64,
    after: ServerView,
    slot: usize,
    updates: Seq<UpdateView>,
) -> bool {
    let server = pruned(before, closed);
    &&& slot == next_slot(server.clients, server.free_clients)
    &&& !server.clients.contains_key(slot)
    &&& updates == introductions(server.infos)
    &&& after == with_client(server, handle)
}

/// What taking a new device does: it gets a slot, and all clients are told of it.
pub open spec fn device_added(
    before: ServerView,
    handle: u64,
    info: InfoView,
    after: ServerView,
    id: usize,
    update: UpdateView,
    told: Seq<u64>,
) -> bool {
    &&& id == next_slot(before.devices, before.free_devices)
    &&& !before.devices.contains_key(id)
    &&& update == announcement(id, info)
    &&& told == all_clients(before.clients)
    &&& after == with_device(before, handle, info)
}

/// What giving up a device does: all clients are told of it.
pub open spec fn device_given_up(
    before: ServerView,
    id: usize,
    after: ServerView,
    update: UpdateView,
    told: Seq<u64>,
) -> bool {
    &&& update == farewell(id)
    &&& told == all_clients(before.clients)
    &&& after == device_removed(before, id)
}

/// A message to some clients.
#[derive(Debug)]
pub struct Broadcast {
    pub update: Update,
    pub clients: Vec<u64>,
}

/// Who takes a batch.
#[derive(Clone, Copy, Debug, PartialEq, Eq, Structural)]
pub enum Target {
    /// A device of the own machine.
    Device(u64),
    /// A client.
    Client(u64),
    /// Nobody; the batch is dropped.
    Nobody,
}

/// Who takes a batch of a device for a destination.
pub open spec fn target_of(server: ServerView, destination: usize, device: usize) -> Target {
    if destination == 0 {
        if server.devices.contains_key(device) {
            Target::Device(server.devices[device])
        } else {
            Target::Nobody
        }
    } else if server.clients.contains_key((destination - 1) as usize) {
        Target::Client(server.clients[(destination - 1) as usize])
    } else {
        Target::Nobody
    }
}

/// What a failure to read from a device leads to, given its class.
pub open spec fn failure_handled(
    before: ServerView,
    id: usize,
    kind: ErrorKind,
    after: ServerView,
    outcome: Result<Broadcast, Error>,
) -> bool {
    if kind == ErrorKind::BrokenPipe {
        &&& outcome matches Ok(broadcast)
        &&& device_given_up(before, id, after, broadcast.update@, broadcast.clients@)
    } else {
        &&& outcome == Err::<Broadcast, Error>(Error::Input(InputError::Device { kind }))
        &&& after == before
    }
}

/// How a batch for a device of the own machine was taken.
#[derive(Clone, Copy, Debug, PartialEq, Eq, Structural)]
pub enum Queued {
    /// It waits in the queue of the device.
    Taken,
    /// The device is gone.
    Closed,
    /// The queue of the device is full.
    Full,
}

/// Whether the server goes on once it knows how a batch for a device of the own
/// machine was taken.
pub open spec fn queueing_outcome(server: ServerView, device: usize, queued: Queued) -> Result<
    (),
    Error,
> {
    if server.devices.contains_key(device) && queued == Queued::Full {
        Err(Error::Overflow)
    } else {
        Ok(())
    }
}

/// The server once a batch for a device of the own machine was taken, or was not.
/// Only what was taken is held.
pub open spec fn forwarded_here(
    server: ServerView,
    device: usize,
    events: Seq<Event>,
    queued: Queued,
) -> ServerView {
    if server.devices.contains_key(device) && queued == Queued::Taken {
        ServerView { held: recorded_all(server.held, (0, device), events), ..server }
    } else {
        server
    }
}

/// The server once a batch reached a client, or did not. Only what reached it is
/// held; a client that cannot be reached is forgotten.
pub open spec fn forwarded_there(
    server: ServerView,
    destination: usize,
    device: usize,
    events: Seq<Event>,
    reached: bool,
) -> ServerView {
    if !server.clients.contains_key((destination - 1) as usize) {
        server
    } else if reached {
        ServerView { held: recorded_all(server.held, (destination, device), events), ..server }
    } else {
        client_lost(server, destination)
    }
}

/// A server.
#[derive(Debug)]
pub struct Server {
    clients: slab::Slab<u64>,
    devices: slab::Slab<u64>,
    infos: Registry,
    current: usize,
    previous: usize,
    changed: bool,
    pressed: KeySet,
    held: HeldInputs,
    switch_keys: KeySet,
    propagate: bool,
}

impl View for Server {
    type V = ServerView;

    closed spec fn view(&self) -> ServerView {
        ServerView {
            clients: slab_entries(self.clients),
            free_clients: slab_vacated(self.clients),
            devices: slab_entries(self.devices),
            free_devices: slab_vacated(self.devices),
            infos: self.infos@,
            current: self.current,
            previous: self.previous,
            changed: self.changed,
            pressed: self.pressed@,
            held: self.held@,
            switch_keys: self.switch_keys@,
            propagate: self.propagate,
        }
    }
}

impl Server {
    /// What is always true of a server.
    pub closed spec fn wf(&self) -> bool {
        &&& self.infos.wf()
        &&& self.pressed.wf()
        &&& self.switch_keys.wf()
        &&& self.held.wf()
        &&& server_wf(self@)
    }

    /// A well-formed server is in order.
    pub proof fn wf_means_in_order(&self)
        requires
            self.wf(),
        ensures
            server_wf(self@),
    {
    }

    /// A server without clients and devices.
    pub fn new(switch_keys: KeySet, propagate: bool) -> (server: Self)
        requires
            switch_keys.wf(),
        ensures
            server.wf(),
            server@ == idle_server(switch_keys@, propagate),
    {
        let server = Server {
            clients: new_slab(),
            devices: new_slab(),
            infos: Registry::new(),
            current: 0,
            previous: 0,
            changed: false,
            pressed: KeySet::default(),
            held: HeldInputs::default(),
            switch_keys,
            propagate,
        };
        assert(server@ =~= idle_server(switch_keys@, propagate));
        assert(server.infos@.dom() =~= slab_entries(server.devices).dom());
        server
    }

    /// Forget the clients whose connections are closed.
    fn prune(&mut self, closed: &[usize])
        requires
            old(self).wf(),
        ensures
            final(self).wf(),
            final(self)@ == pruned(old(self)@, closed@.to_set()),
    {
        let ghost before = self@;
        remove_closed_clients(&mut self.clients, closed, &mut self.held, &mut self.current);
        assert(self@ =~= pruned(before, closed@.to_set()));
        assert forall|at: (usize, usize)| #[trigger] self@.held.contains_key(at) implies {
            &&& is_live(self@.clients, at.0)
            &&& at.0 == 0 ==> self@.devices.contains_key(at.1)
            &&& self@.held[at].len() > 0
            &&& self@.held[at].no_duplicates()
        } by {
            assert(before.held.contains_key(at));
        }
    }

    /// Take a new connection. Return its slot and the messages that tell it of
    /// all devices.
    pub fn accept(&mut self, closed: &[usize], handle: u64) -> (accepted: (usize, Vec<Update>))
        requires
            old(self).wf(),
        ensures
            final(self).wf(),
            client_accepted(
                old(self)@,
                closed@.to_set(),
                handle,
                final(self)@,
                accepted.0,
                update_views(accepted.1@),
            ),
    {
        self.prune(closed);
        let ghost server = self@;
        let ids = slots(&self.devices);
        proof {
            assert(ids@.to_set() =~= self.infos@.dom()) by {
                assert forall|id: usize| ids@.to_set().contains(id)
                    <==> #[trigger] self.infos@.dom().contains(id) by {
                    assert(slab_entries(self.devices).contains_key(id)
                        <==> slab_entries(self.devices).dom().contains(id));
                }
            }
            one_order(ids@);
        }
        let mut updates: Vec<Update> = Vec::new();
        let mut i: usize = 0;
        let ghost expected = introductions(server.infos);
        while i < ids.len()
            invariant
                i <= ids@.len(),
                self.wf(),
                self@ == server,
                ids@ == in_order(server.infos.dom()),
                ids@.to_set() == server.infos.dom(),
                expected == introductions(server.infos),
                update_views(updates@) == expected.take(i as int),
            decreases ids@.len() - i,
        {
            let id: usize = ids[i];
            assert(ids@.to_set().contains(ids@[i as int])) by {
                assert(ids@.contains(ids@[i as int]));
            }
            assert(server.infos.contains_key(id));
            if let Some(info) = self.infos.get(id) {
                let ghost sofar = updates@;
                updates.push(Update::CreateDevice { id, info });
                assert(update_views(updates@) =~= update_views(sofar).push(expected[i as int]));
                assert(expected.take(i + 1) =~= expected.take(i as int).push(expected[i as int]));
            }
            i += 1;
        }
        assert(expected.take(i as int) =~= expected);
        let slot: usize = insert(&mut self.clients, handle);
        assert(self@ =~= with_client(server, handle));
        (slot, updates)
    }

    /// The handles of all clients, by ascending slot.
    fn everybody(&self) -> (handles: Vec<u64>)
        ensures
            handles@ == all_clients(self@.clients),
    {
        let ids = slots(&self.clients);
        let ghost clients = slab_entries(self.clients);
        proof {
            assert(ids@.to_set() =~= clients.dom()) by {
                assert forall|id: usize| ids@.to_set().contains(id)
                    <==> #[trigger] clients.dom().contains(id) by {
                    assert(clients.contains_key(id) <==> clients.dom().contains(id));
                }
            }
            one_order(ids@);
        }
        let mut handles: Vec<u64> = Vec::new();
        let mut i: usize = 0;
        while i < ids.len()
            invariant
                i <= ids@.len(),
                clients == slab_entries(self.clients),
                ids@ == in_order(clients.dom()),
                ids@.to_set() == clients.dom(),
                handles@ == all_clients(clients).take(i as int),
            decreases ids@.len() - i,
        {
            assert(ids@.to_set().contains(ids@[i as int])) by {
                assert(ids@.contains(ids@[i as int]));
            }
            assert(clients.contains_key(ids@[i as int]));
            if let Some(handle) = get(&self.clients, ids[i]) {
                handles.push(handle);
            }
            i += 1;
            assert(handles@ =~= all_clients(clients).take(i as int));
        }
        assert(all_clients(clients).take(i as int) =~= all_clients(clients));
        handles
    }

    /// Take a new device. Return its slot and the message that tells all clients
    /// of it.
    pub fn add_device(&mut self, handle: u64, info: DeviceInfo) -> (added: (usize, Broadcast))
        requires
            old(self).wf(),
        ensures
            final(self).wf(),
            device_added(
                old(self)@,
                handle,
                info@,
                final(self)@,
                added.0,
                added.1.update@,
                added.1.clients@,
            ),
    {
        let ghost before = self@;
        let id: usize = vacant_key(&self.devices);
        let update = Update::CreateDevice { id, info: info.clone() };
        let clients = self.everybody();
        insert(&mut self.devices, handle);
        assert(before.infos.dom() == before.devices.dom());
        assert(!before.infos.contains_key(id)) by {
            assert(!before.devices.dom().contains(id));
            assert(!before.infos.dom().contains(id));
        }
        self.infos.insert(id, info);
        assert(self@ =~= with_device(before, handle, info@));
        assert(self@.infos.dom() =~= self@.devices.dom());
        (id, Broadcast { update, clients })
    }

    /// Forget a device. Return the message that tells all clients of it.
    pub fn remove_device(&mut self, id: usize) -> (broadcast: Broadcast)
        requires
            old(self).wf(),
            old(self)@.devices.contains_key(id),
        ensures
            final(self).wf(),
            device_given_up(
                old(self)@,
                id,
                final(self)@,
                broadcast.update@,
                broadcast.clients@,
            ),
    {
        let ghost before = self@;
        let clients = self.everybody();
        remove(&mut self.devices, id);
        self.infos.remove(id);
        self.held.remove_device(id);
        assert(self@ =~= device_removed(before, id));
        assert(self@.infos.dom() =~= self@.devices.dom());
        assert forall|at: (usize, usize)| #[trigger] self@.held.contains_key(at) implies {
            &&& is_live(self@.clients, at.0)
            &&& at.0 == 0 ==> self@.devices.contains_key(at.1)
            &&& self@.held[at].len() > 0
            &&& self@.held[at].no_duplicates()
        } by {
            assert(before.held.contains_key(at));
        }
        Broadcast { update: Update::DestroyDevice { id }, clients }
    }

    /// Act on a failure to read from a device, given its class: a device that is
    /// gone is forgotten; any other failure ends the server.
    pub fn read_failed(&mut self, id: usize, kind: ErrorKind) -> (outcome: Result<
        Broadcast,
        Error,
    >)
        requires
            old(self).wf(),
            old(self)@.devices.contains_key(id),
        ensures
            final(self).wf(),
            failure_handled(old(self)@, id, kind, final(self)@, outcome),
    {
        match kind {
            ErrorKind::BrokenPipe => Ok(self.remove_device(id)),
            _ => Err(Error::Input(InputError::Device { kind })),
        }
    }

    /// Decide where an event of a device goes.
    pub fn route(&mut self, closed: &[usize], device: usize, event: Event) -> (routing: Routing)
        requires
            old(self).wf(),
        ensures
            final(self).wf(),
            event_routed(
                old(self)@,
                closed@.to_set(),
                device,
                event,
                final(self)@,
                routing,
            ),
    {
        self.prune(closed);
        let ghost before = self@;
        proof {
            self.switch_keys.is_finite();
        }
        let action = match event {
            Event::Key(key) => {
                proof {
                    chords_stay_in_order(
                        key,
                        before.switch_keys,
                        before.pressed,
                        before.changed,
                    );
                }
                update_switch_chord(key, &self.switch_keys, &mut self.pressed, &mut self.changed)
            },
            _ => SwitchAction::Unrelated,
        };
        let press: bool = !matches!(action, SwitchAction::Unrelated);
        let mut destination: usize = self.current;
        let mut selected: Option<usize> = None;
        let mut switched: bool = false;
        match action {
            SwitchAction::Activate => {
                self.current = next_destination(self.current, &self.clients);
                self.previous = destination;
                selected = Some(self.current);
                switched = self.current != destination;
            },
            SwitchAction::RoutePrevious => {
                destination = self.previous;
            },
            SwitchAction::Unrelated | SwitchAction::ForwardCurrent => {},
        }
        let mut events: Vec<Event> = Vec::new();
        if !press || self.propagate {
            events.push(event);
            if press {
                events.push(Event::Sync(SyncEvent::All));
            }
        }
        assert(events@ =~= passed_on(event, press, before.propagate));
        let mut batches: Vec<(usize, InputBatch)> = Vec::new();
        if switched {
            let planned = self.held.finish_switch(destination, device, events);
            batches = self.line_up(planned, destination == 0);
        } else if events.len() > 0 {
            let batch = InputBatch::new(events);
            batches.push((device, batch));
            assert(batch_contents(batches@) =~= seq![(device, events@)]);
        } else {
            assert(batch_contents(batches@) =~= Seq::<BatchView>::empty());
        }
        let routing = Routing { destination, batches, selected };
        proof {
            assert(self@ =~= (ServerView {
                current: self@.current,
                previous: self@.previous,
                pressed: self@.pressed,
                changed: self@.changed,
                held: self@.held,
                ..before
            }));
            assert(self@.infos.dom() == self@.devices.dom());
        }
        routing
    }

    /// Make batches of planned events. Those for devices of the own machine
    /// wait for the first.
    fn line_up(&self, planned: Vec<(usize, Vec<Event>)>, local: bool) -> (batches: Vec<
        (usize, InputBatch),
    >)
        ensures
            batch_contents(batches@) == batch_views(planned@),
            in_line(batches@, local),
    {
        let ghost all = planned@;
        let mut planned = planned;
        let mut batches: Vec<(usize, InputBatch)> = Vec::new();
        let mut sent: bool = false;
        let ghost mut done: int = 0;
        while planned.len() > 0
            invariant
                0 <= done <= all.len(),
                planned@ == all.skip(done),
                batches@.len() == done,
                batch_contents(batches@) == batch_views(all).take(done),
                sent == (local && done > 0),
                in_line(batches@, local),
            decreases planned@.len(),
        {
            let ghost sofar = batches@;
            let (device, events) = planned.remove(0);
            let ghost contents = (device, events@);
            let mut batch = InputBatch::new(events);
            if local {
                batch.after_shortcut(&mut sent);
            }
            batches.push((device, batch));
            proof {
                assert(contents == batch_views(all)[done]);
                assert(batch_contents(batches@) =~= batch_contents(sofar).push(contents));
                assert(batch_views(all).take(done + 1)
                    =~= batch_views(all).take(done).push(contents));
                assert forall|i: int| 0 <= i < batches@.len() implies (
                #[trigger] batches@[i]).1.turn == if !local {
                    Turn::Free
                } else if i == 0 {
                    Turn::First
                } else {
                    Turn::AfterFirst
                } by {
                    if i < sofar.len() {
                        assert(batches@[i] == sofar[i]);
                    }
                }
                done = done + 1;
                assert(planned@ =~= all.skip(done));
            }
        }
        assert(batch_views(all).take(done)
            =~= batch_views(all));
        batches
    }

    /// Who takes a batch of a device for a destination.
    pub fn target(&self, destination: usize, device: usize) -> (target: Target)
        ensures
            target == target_of(self@, destination, device),
    {
        if destination == 0 {
            match get(&self.devices, device) {
                Some(handle) => Target::Device(handle),
                None => Target::Nobody,
            }
        } else {
            match get(&self.clients, destination - 1) {
                Some(handle) => Target::Client(handle),
                None => Target::Nobody,
            }
        }
    }

    /// Take note of events that a destination has got.
    fn record(&mut self, destination: usize, device: usize, events: &[Event])
        requires
            old(self).wf(),
            is_live(old(self)@.clients, destination),
            destination == 0 ==> old(self)@.devices.contains_key(device),
        ensures
            final(self).wf(),
            final(self)@ == (ServerView {
                held: recorded_all(old(self)@.held, (destination, device), events@),
                ..old(self)@
            }),
    {
        let ghost before = self@;
        let ghost at = (destination, device);
        let mut i: usize = 0;
        assert(events@.take(0) =~= Seq::<Event>::empty());
        while i < events.len()
            invariant
                i <= events@.len(),
                at == (destination, device),
                self.held.wf(),
                self.infos.wf(),
                self.pressed.wf(),
                self.switch_keys.wf(),
                self@ == (ServerView {
                    held: recorded_all(before.held, at, events@.take(i as int)),
                    ..before
                }),
            decreases events@.len() - i,
        {
            assert(events@.take(i + 1).drop_last() =~= events@.take(i as int));
            if let Event::Key(key) = events[i] {
                self.held.record(destination, device, key);
            }
            i += 1;
            assert(self@ =~= (ServerView {
                held: recorded_all(before.held, at, events@.take(i as int)),
                ..before
            }));
        }
        assert(events@.take(i as int) =~= events@);
        proof {
            recording_touches_one_pair(before.held, at, events@);
            assert forall|other: (usize, usize)| #[trigger] self@.held.contains_key(
                other,
            ) implies {
                &&& is_live(self@.clients, other.0)
                &&& other.0 == 0 ==> self@.devices.contains_key(other.1)
                &&& self@.held[other].len() > 0
                &&& self@.held[other].no_duplicates()
            } by {
                self.held.lists_held_keys_once(other);
                if other != at {
                    assert(self@.held.remove(at).contains_key(other));
                    assert(before.held.contains_key(other));
                }
            }
        }
    }

    /// Take note of how a batch for a device of the own machine was taken. Only
    /// what was taken is held; a full queue ends the server.
    pub fn forward_local(&mut self, device: usize, events: &[Event], queued: Queued) -> (
        outcome: Result<(), Error>)
        requires
            old(self).wf(),
        ensures
            final(self).wf(),
            final(self)@ == forwarded_here(old(self)@, device, events@, queued),
            outcome == queueing_outcome(old(self)@, device, queued),
    {
        if !contains(&self.devices, device) {
            return Ok(());
        }
        match queued {
            Queued::Taken => {
                self.record(0, device, events);
                Ok(())
            },
            Queued::Closed => Ok(()),
            Queued::Full => Err(Error::Overflow),
        }
    }

    /// Take note of whether a batch reached a client. Only what reached it is
    /// held; a client that cannot be reached is forgotten.
    pub fn forward_remote(
        &mut self,
        destination: usize,
        device: usize,
        events: &[Event],
        reached: bool,
    )
        requires
            old(self).wf(),
            destination > 0,
        ensures
            final(self).wf(),
            final(self)@ == forwarded_there(old(self)@, destination, device, events@, reached),
    {
        if !contains(&self.clients, destination - 1) {
            return;
        }
        if reached {
            self.record(destination, device, events);
            return;
        }
        let ghost before = self@;
        remove(&mut self.clients, destination - 1);
        self.held.remove_destination(destination);
        if self.current == destination {
            self.current = 0;
        }
        assert(self@ =~= client_lost(before, destination));
        assert forall|at: (usize, usize)| #[trigger] self@.held.contains_key(at) implies {
            &&& is_live(self@.clients, at.0)
            &&& at.0 == 0 ==> self@.devices.contains_key(at.1)
            &&& self@.held[at].len() > 0
            &&& self@.held[at].no_duplicates()
        } by {
            assert(before.held.contains_key(at));
        }
    }
}

/// Forgetting closed clients keeps the server in order.
pub proof fn pruning_keeps_the_server_in_order(server: ServerView, closed: Set<usize>)
    requires
        server_wf(server),
    ensures
        server_wf(pruned(server, closed)),
{
    let after = pruned(server, closed);
    assert forall|at: (usize, usize)| #[trigger] after.held.contains_key(at) implies {
        &&& is_live(after.clients, at.0)
        &&& at.0 == 0 ==> after.devices.contains_key(at.1)
        &&& after.held[at].len() > 0
        &&& after.held[at].no_duplicates()
    } by {
        assert(server.held.contains_key(at));
    }
}

/// Switching lets up everything on the machine that is left: once the batches of
/// a switch have been delivered there, nothing is held there, so no key can go
/// on repeating; and nothing changes elsewhere.
pub proof fn switching_lets_everything_up(
    before: ServerView,
    device: usize,
    event: Event,
    after: ServerView,
    routing: Routing,
)
    requires
        server_wf(before),
        routed(before, device, event, after, routing),
        switches(before, event, after),
    ensures
        delivered(after.held, routing.destination, batch_contents(routing.batches@))
            == without_destination(before.held, before.current),
{
    let events = passed_on(
        event,
        action_of(before, event) != SwitchAction::Unrelated,
        before.propagate,
    );
    delivered_switches_clear_the_destination(
        before.held,
        before.current,
        device,
        events,
        batch_contents(routing.batches@),
    );
}

/// An event that is not part of the shortcut goes to the current destination as
/// it is, and nothing else changes.
pub proof fn ordinary_events_go_to_the_current_destination(
    before: ServerView,
    device: usize,
    event: Event,
    after: ServerView,
    routing: Routing,
)
    requires
        routed(before, device, event, after, routing),
        action_of(before, event) == SwitchAction::Unrelated,
    ensures
        after == before,
        routing.destination == before.current,
        batch_contents(routing.batches@) == seq![(device, seq![event])],
{
    assert(after =~= before);
}

/// A completed shortcut selects the next destination, and only that: in any
/// other state the current destination stays.
pub proof fn only_completed_shortcuts_switch(
    before: ServerView,
    device: usize,
    event: Event,
    after: ServerView,
    routing: Routing,
)
    requires
        routed(before, device, event, after, routing),
        after.current != before.current,
    ensures
        event matches Event::Key(key) && before.switch_keys.contains(key.key) && !before.changed
            && after.changed,
        comes_next(before.clients, before.current, after.current),
{
}

} // verus!
