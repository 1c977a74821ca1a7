//! What the server tells its clients.
use vstd::prelude::*;

use crate::event::{AbsAxis, AbsInfo, Event, Key, RelAxis};

verus! {

/// What a client needs to know to make a device like that of the server.
#[derive(Debug)]
pub struct DeviceInfo {
    pub name: Vec<u8>,
    pub vendor: u16,
    pub product: u16,
    pub version: u16,
    pub rel: Vec<RelAxis>,
    pub abs: Vec<(AbsAxis, AbsInfo)>,
    pub keys: Vec<Key>,
    pub delay: Option<i32>,
    pub period: Option<i32>,
}

/// The contents of a [`DeviceInfo`].
#[verifier::ext_equal]
pub struct InfoView {
    pub name: Seq<u8>,
    pub vendor: u16,
    pub product: u16,
    pub version: u16,
    pub rel: Seq<RelAxis>,
    pub abs: Seq<(AbsAxis, AbsInfo)>,
    pub keys: Seq<Key>,
    pub delay: Option<i32>,
    pub period: Option<i32>,
}

impl View for DeviceInfo {
    type V = InfoView;

    open spec fn view(&self) -> InfoView {
        InfoView {
            name: self.name@,
            vendor: self.vendor,
            product: self.product,
            version: self.version,
            rel: self.rel@,
            abs: self.abs@,
            keys: self.keys@,
            delay: self.delay,
            period: self.period,
        }
    }
}

/// The same items once more.
fn copy_all<T: Copy>(items: &Vec<T>) -> (copy: Vec<T>)
    ensures
        copy@ == items@,
{
    let mut copy: Vec<T> = Vec::new();
    let mut i: usize = 0;
    while i < items.len()
        invariant
            i <= items@.len(),
            copy@ == items@.take(i as int),
        decreases items@.len() - i,
    {
        copy.push(items[i]);
        i += 1;
        assert(copy@ =~= items@.take(i as int));
    }
    assert(copy@ =~= items@);
    copy
}

impl Clone for DeviceInfo {
    fn clone(&self) -> (info: Self)
        ensures
            info@ == self@,
    {
        let info = DeviceInfo {
            name: copy_all(&self.name),
            vendor: self.vendor,
            product: self.product,
            version: self.version,
            rel: copy_all(&self.rel),
            abs: copy_all(&self.abs),
            keys: copy_all(&self.keys),
            delay: self.delay,
            period: self.period,
        };
        info
    }
}

/// A message to a client.
#[derive(Debug)]
pub enum Update {
    /// A device has come.
    CreateDevice { id: usize, info: DeviceInfo },
    /// A device has gone.
    DestroyDevice { id: usize },
    /// A device has an event.
    Event { id: usize, event: Event },
    /// The connection is alive; the client is to say so too.
    Ping,
}

/// The contents of an [`Update`].
#[verifier::ext_equal]
pub enum UpdateView {
    CreateDevice { id: usize, info: InfoView },
    DestroyDevice { id: usize },
    Event { id: usize, event: Event },
    Ping,
}

impl View for Update {
    type V = UpdateView;

    open spec fn view(&self) -> UpdateView {
        match *self {
            Update::CreateDevice { id, info } => UpdateView::CreateDevice { id, info: info@ },
            Update::DestroyDevice { id } => UpdateView::DestroyDevice { id },
            Update::Event { id, event } => UpdateView::Event { id, event },
            Update::Ping => UpdateView::Ping,
        }
    }
}

/// The device that a message is about, if it is about one.
pub open spec fn device_of(update: UpdateView) -> Option<usize> {
    match update {
        UpdateView::CreateDevice { id, .. } => Some(id),
        UpdateView::DestroyDevice { id } => Some(id),
        UpdateView::Event { id, .. } => Some(id),
        UpdateView::Ping => None,
    }
}

impl Update {
    /// The device that the message is about, if it is about one.
    pub fn device(&self) -> (device: Option<usize>)
        ensures
            device == device_of(self@),
    {
        match self {
            Update::CreateDevice { id, .. } => Some(*id),
            Update::DestroyDevice { id } => Some(*id),
            Update::Event { id, .. } => Some(*id),
            Update::Ping => None,
        }
    }
}

/// The contents of some messages.
pub open spec fn update_views(updates: Seq<Update>) -> Seq<UpdateView> {
    updates.map_values(|update: Update| update@)
}

/// Messages are seen one by one, each in its place.
pub proof fn every_message_is_seen(updates: Seq<Update>)
    ensures
        update_views(updates).len() == updates.len(),
        forall|i: int|
            0 <= i < updates.len() ==> (#[trigger] update_views(updates)[i]) == updates[i]@,
{
}

} // verus!
