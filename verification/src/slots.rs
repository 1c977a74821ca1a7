//! The numbered slots in which clients and devices are kept.
//!
//! A slot holds a handle by which its owner finds the client or the device
//! again.
use vstd::prelude::*;

verus! {

/// `slab::Slab`.
#[verifier::external_type_specification]
#[verifier::external_body]
#[verifier::reject_recursive_types(T)]
pub struct ExSlab<T>(slab::Slab<T>);

/// The handles that a slab holds, by slot.
pub uninterp spec fn slab_entries(slab: slab::Slab<u64>) -> Map<usize, u64>;

/// The slots of a slab that were given up and not used again since, the last
/// one at the end.
pub uninterp spec fn slab_vacated(slab: slab::Slab<u64>) -> Seq<usize>;

/// The slot that the next handle gets: the one that was given up last or, where
/// none is left, the first that was never used.
pub open spec fn next_slot(entries: Map<usize, u64>, vacated: Seq<usize>) -> int {
    if vacated.len() > 0 {
        vacated.last() as int
    } else {
        entries.dom().len() as int
    }
}

/// The slots that are left of those given up once the next one has been used.
pub open spec fn vacated_after_use(vacated: Seq<usize>) -> Seq<usize> {
    if vacated.len() > 0 {
        vacated.drop_last()
    } else {
        vacated
    }
}

/// Slots in ascending order, each once.
pub open spec fn ascending(slots: Seq<usize>) -> bool {
    forall|i: int, j: int| 0 <= i < j < slots.len() ==> slots[i] < slots[j]
}

/// Some slots in ascending order, each once.
pub open spec fn in_order(slots: Set<usize>) -> Seq<usize> {
    choose|list: Seq<usize>| ascending(list) && #[trigger] list.to_set() == slots
}

/// A list of slots in ascending order is the only one of these slots.
pub proof fn one_order(list: Seq<usize>)
    requires
        ascending(list),
    ensures
        in_order(list.to_set()) == list,
{
    let chosen = in_order(list.to_set());
    assert(ascending(chosen) && chosen.to_set() == list.to_set());
    lemma_same_slots(list, chosen);
}

/// Any slots can be put in order.
pub proof fn every_set_has_an_order(slots: Set<usize>)
    ensures
        ascending(in_order(slots)),
        in_order(slots).to_set() == slots,
{
    let list = order_below(slots, usize::MAX + 1);
    assert(list.to_set() =~= slots) by {
        assert forall|slot: usize| #[trigger] list.to_set().contains(slot) <==> slots.contains(
            slot,
        ) by {
            assert(list.contains(slot) <==> slots.contains(slot));
        }
    }
    assert(ascending(list) && list.to_set() == slots);
}

proof fn order_below(slots: Set<usize>, bound: int) -> (list: Seq<usize>)
    requires
        0 <= bound <= usize::MAX + 1,
    ensures
        ascending(list),
        forall|slot: usize| #[trigger]
            list.contains(slot) <==> slots.contains(slot) && slot < bound,
    decreases bound,
{
    if bound == 0 {
        Seq::empty()
    } else {
        let below = order_below(slots, bound - 1);
        let last = (bound - 1) as usize;
        if slots.contains(last) {
            let list = below.push(last);
            assert forall|i: int, j: int| 0 <= i < j < list.len() implies list[i] < list[j] by {
                assert(below.contains(below[i]));
            }
            assert forall|slot: usize| #[trigger] list.contains(slot) <==> slots.contains(slot)
                && slot < bound by {
                if below.contains(slot) {
                    let i = choose|i: int| 0 <= i < below.len() && below[i] == slot;
                    assert(list[i] == slot);
                }
                if slot == last {
                    assert(list[below.len() as int] == slot);
                }
                if list.contains(slot) && slot != last {
                    let i = choose|i: int| 0 <= i < list.len() && list[i] == slot;
                    assert(below[i] == slot);
                }
            }
            list
        } else {
            below
        }
    }
}

proof fn lemma_same_slots(a: Seq<usize>, b: Seq<usize>)
    requires
        ascending(a),
        ascending(b),
        a.to_set() == b.to_set(),
    ensures
        a == b,
    decreases a.len(),
{
    assert(forall|slot: usize| a.contains(slot) <==> #[trigger] a.to_set().contains(slot));
    assert(forall|slot: usize| b.contains(slot) <==> #[trigger] b.to_set().contains(slot));
    if a.len() == 0 {
        if b.len() > 0 {
            assert(b.contains(b[0]));
            assert(a.to_set().contains(b[0]));
        }
        assert(a =~= b);
    } else {
        assert(a.contains(a[0]));
        assert(b.to_set().contains(a[0]));
        assert(b.len() > 0);
        let last = a.last();
        assert(a.contains(last));
        assert(b.to_set().contains(last));
        assert(b.contains(b.last()));
        assert(a.to_set().contains(b.last()));
        let i = choose|i: int| 0 <= i < a.len() && a[i] == b.last();
        let j = choose|j: int| 0 <= j < b.len() && b[j] == last;
        assert(b.last() <= last);
        assert(last <= b.last());
        assert(a.drop_last().to_set() =~= b.drop_last().to_set()) by {
            assert forall|slot: usize| #[trigger]
                a.drop_last().to_set().contains(slot) implies b.drop_last().to_set().contains(
                slot,
            ) by {
                let k = choose|k: int| 0 <= k < a.len() - 1 && a.drop_last()[k] == slot;
                assert(a[k] == slot && a[k] < a[a.len() - 1]);
                assert(a.contains(slot) && b.to_set().contains(slot));
                let m = choose|m: int| 0 <= m < b.len() && b[m] == slot;
                assert(m < b.len() - 1);
                assert(b.drop_last()[m] == slot);
            }
            assert forall|slot: usize| #[trigger]
                b.drop_last().to_set().contains(slot) implies a.drop_last().to_set().contains(
                slot,
            ) by {
                let k = choose|k: int| 0 <= k < b.len() - 1 && b.drop_last()[k] == slot;
                assert(b[k] == slot && b[k] < b[b.len() - 1]);
                assert(b.contains(slot) && a.to_set().contains(slot));
                let m = choose|m: int| 0 <= m < a.len() && a[m] == slot;
                assert(m < a.len() - 1);
                assert(a.drop_last()[m] == slot);
            }
        }
        lemma_same_slots(a.drop_last(), b.drop_last());
        assert(a =~= a.drop_last().push(last));
        assert(b =~= b.drop_last().push(last));
    }
}

/// `slab::Slab::new`: a slab in which no slot was ever used.
#[verifier::external_body]
pub(crate) fn new_slab() -> (empty: slab::Slab<u64>)
    ensures
        (slab_entries(empty) == Map::<usize, u64>::empty()),
        slab_vacated(empty) == Seq::<usize>::empty(),
{
    slab::Slab::new()
}

/// `slab::Slab::vacant_key`: the slot that the next insertion uses.
#[verifier::external_body]
pub(crate) fn vacant_key(slab: &slab::Slab<u64>) -> (slot: usize)
    ensures
        slot == next_slot(slab_entries(*slab), slab_vacated(*slab)),
        !slab_entries(*slab).contains_key(slot),
{
    slab.vacant_key()
}

/// `slab::Slab::insert`: the handle goes to the slot that is next, which was
/// free; nothing else changes. Like a vector, a slab grows as long as there is
/// memory.
#[verifier::external_body]
pub(crate) fn insert(slab: &mut slab::Slab<u64>, handle: u64) -> (slot: usize)
    ensures
        slot == next_slot(slab_entries(*old(slab)), slab_vacated(*old(slab))),
        !slab_entries(*old(slab)).contains_key(slot),
        slab_entries(*final(slab)) == slab_entries(*old(slab)).insert(slot, handle),
        slab_vacated(*final(slab)) == vacated_after_use(slab_vacated(*old(slab))),
{
    slab.insert(handle)
}

/// `slab::Slab::remove`: the slot gives up its handle and is the next to be
/// used. It panics on a slot that is free.
#[verifier::external_body]
pub(crate) fn remove(slab: &mut slab::Slab<u64>, slot: usize) -> (handle: u64)
    requires
        slab_entries(*old(slab)).contains_key(slot),
    ensures
        handle == slab_entries(*old(slab))[slot],
        slab_entries(*final(slab)) == slab_entries(*old(slab)).remove(slot),
        slab_vacated(*final(slab)) == slab_vacated(*old(slab)).push(slot),
{
    slab.remove(slot)
}

/// `slab::Slab::contains`: whether a slot holds a handle.
#[verifier::external_body]
pub(crate) fn contains(slab: &slab::Slab<u64>, slot: usize) -> (contained: bool)
    ensures
        contained == slab_entries(*slab).contains_key(slot),
{
    slab.contains(slot)
}

/// `slab::Slab::get`: the handle in a slot, if it holds one.
#[verifier::external_body]
pub(crate) fn get(slab: &slab::Slab<u64>, slot: usize) -> (handle: Option<u64>)
    ensures
        handle == if slab_entries(*slab).contains_key(slot) {
            Some(slab_entries(*slab)[slot])
        } else {
            None
        },
{
    slab.get(slot).copied()
}

/// `slab::Slab::iter`: the slots that hold a handle, each once, in ascending
/// order. A slot is an index into a vector, so it is less than the greatest
/// number.
#[verifier::external_body]
pub(crate) fn slots(slab: &slab::Slab<u64>) -> (slots: Vec<usize>)
    ensures
        ascending(slots@),
        forall|slot: usize|
            slots@.contains(slot) <==> #[trigger] slab_entries(*slab).contains_key(slot),
        forall|i: int| 0 <= i < slots@.len() ==> #[trigger] slots@[i] < usize::MAX,
{
    slab.iter().map(|(slot, _)| slot).collect()
}

} // verus!
