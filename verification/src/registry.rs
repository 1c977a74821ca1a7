//! What the server knows of each device.
use vstd::prelude::*;

use crate::update::{DeviceInfo, InfoView};

verus! {

/// Descriptions of devices, by slot.
#[derive(Debug)]
pub struct Registry {
    entries: Vec<(usize, DeviceInfo)>,
}

spec fn is_entry(entries: Seq<(usize, DeviceInfo)>, i: int, id: usize) -> bool {
    0 <= i < entries.len() && entries[i].0 == id
}

spec fn entries_wf(entries: Seq<(usize, DeviceInfo)>) -> bool {
    forall|i: int, j: int|
        0 <= i < j < entries.len() ==> (#[trigger] entries[i]).0 != (#[trigger] entries[j]).0
}

spec fn entries_view(entries: Seq<(usize, DeviceInfo)>) -> Map<usize, InfoView> {
    Map::new(
        |id: usize| exists|i: int| is_entry(entries, i, id),
        |id: usize| entries[choose|i: int| is_entry(entries, i, id)].1@,
    )
}

proof fn lemma_entry(entries: Seq<(usize, DeviceInfo)>, i: int)
    requires
        entries_wf(entries),
        0 <= i < entries.len(),
    ensures
        entries_view(entries).contains_key(entries[i].0),
        entries_view(entries)[entries[i].0] == entries[i].1@,
{
    let id = entries[i].0;
    assert(is_entry(entries, i, id));
    let j = choose|j: int| is_entry(entries, j, id);
    if i < j {
        assert(entries[i].0 != entries[j].0);
    } else if j < i {
        assert(entries[j].0 != entries[i].0);
    }
}

impl View for Registry {
    type V = Map<usize, InfoView>;

    closed spec fn view(&self) -> Map<usize, InfoView> {
        entries_view(self.entries@)
    }
}

impl Registry {
    /// No device is described twice.
    pub closed spec fn wf(&self) -> bool {
        entries_wf(self.entries@)
    }

    /// No device is described.
    pub fn new() -> (registry: Self)
        ensures
            registry.wf(),
            registry@ == Map::<usize, InfoView>::empty(),
    {
        let registry = Registry { entries: Vec::new() };
        assert(registry@ =~= Map::<usize, InfoView>::empty());
        registry
    }

    fn place(&self, id: usize) -> (place: Option<usize>)
        requires
            self.wf(),
        ensures
            match place {
                Some(place) => is_entry(self.entries@, place as int, id),
                None => !self@.contains_key(id),
            },
    {
        let mut i: usize = 0;
        while i < self.entries.len()
            invariant
                i <= self.entries@.len(),
                forall|j: int| 0 <= j < i ==> !is_entry(self.entries@, j, id),
            decreases self.entries@.len() - i,
        {
            if self.entries[i].0 == id {
                return Some(i);
            }
            i += 1;
        }
        None
    }

    /// Describe a device that is not described yet.
    pub fn insert(&mut self, id: usize, info: DeviceInfo)
        requires
            old(self).wf(),
            !old(self)@.contains_key(id),
        ensures
            final(self).wf(),
            final(self)@ == old(self)@.insert(id, info@),
    {
        let ghost before = self.entries@;
        let ghost expected = self@.insert(id, info@);
        self.entries.push((id, info));
        proof {
            let after = self.entries@;
            assert forall|i: int, j: int| 0 <= i < j < after.len() implies (#[trigger] after[i]).0
                != (#[trigger] after[j]).0 by {
                assert(after[i] == before[i]);
                if j == before.len() {
                    if after[i].0 == id {
                        assert(is_entry(before, i, id));
                    }
                } else {
                    assert(after[j] == before[j]);
                }
            }
            lemma_entry(after, before.len() as int);
            assert forall|other: usize| #[trigger] entries_view(after).contains_key(other)
                == expected.contains_key(other) && (expected.contains_key(other) ==> entries_view(
                after,
            )[other] == expected[other]) by {
                if other != id {
                    if entries_view(after).contains_key(other) {
                        let i = choose|i: int| is_entry(after, i, other);
                        assert(after[i] == before[i]);
                        assert(is_entry(before, i, other));
                        lemma_entry(before, i);
                        lemma_entry(after, i);
                    }
                    if entries_view(before).contains_key(other) {
                        let i = choose|i: int| is_entry(before, i, other);
                        assert(after[i] == before[i]);
                        assert(is_entry(after, i, other));
                    }
                }
            }
            assert(self@ =~= expected);
        }
    }

    /// Forget a device.
    pub fn remove(&mut self, id: usize)
        requires
            old(self).wf(),
        ensures
            final(self).wf(),
            final(self)@ == old(self)@.remove(id),
    {
        let ghost before = self.entries@;
        let ghost expected = self@.remove(id);
        if let Some(place) = self.place(id) {
            let ghost gone = place as int;
            self.entries.remove(place);
            proof {
                let after = self.entries@;
                assert forall|i: int, j: int| 0 <= i < j < after.len() implies (
                #[trigger] after[i]).0 != (#[trigger] after[j]).0 by {
                    let x = if i < gone {
                        i
                    } else {
                        i + 1
                    };
                    let y = if j < gone {
                        j
                    } else {
                        j + 1
                    };
                    assert(after[i] == before[x] && after[j] == before[y]);
                }
                assert forall|other: usize| #[trigger] entries_view(after).contains_key(other)
                    == expected.contains_key(other) && (expected.contains_key(other)
                    ==> entries_view(after)[other] == expected[other]) by {
                    if entries_view(after).contains_key(other) {
                        let i = choose|i: int| is_entry(after, i, other);
                        let x = if i < gone {
                            i
                        } else {
                            i + 1
                        };
                        assert(after[i] == before[x]);
                        assert(is_entry(before, x, other));
                        lemma_entry(before, x);
                        lemma_entry(after, i);
                        if x < gone {
                            assert(before[x].0 != before[gone].0);
                        } else {
                            assert(before[gone].0 != before[x].0);
                        }
                    }
                    if entries_view(before).contains_key(other) && other != id {
                        let x = choose|x: int| is_entry(before, x, other);
                        let i = if x < gone {
                            x
                        } else {
                            x - 1
                        };
                        assert(after[i] == before[x]);
                        assert(is_entry(after, i, other));
                    }
                }
                assert(self@ =~= expected);
            }
        } else {
            assert(self@ =~= expected);
        }
    }

    /// The description of a device, if it has one.
    pub fn get(&self, id: usize) -> (info: Option<DeviceInfo>)
        requires
            self.wf(),
        ensures
            match info {
                Some(info) => self@.contains_key(id) && info@ == self@[id],
                None => !self@.contains_key(id),
            },
    {
        match self.place(id) {
            Some(place) => {
                proof {
                    lemma_entry(self.entries@, place as int);
                }
                Some(self.entries[place].1.clone())
            },
            None => None,
        }
    }
}

} // verus!
