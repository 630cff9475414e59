//! Facts about the order of slots: sorting rearranges and loses nothing,
//! and slots of one number keep their order.

use crate::grammar::{
    has_slot, insert_slot, lemma_insert_slot_len, sort_slots, without_slot, SlotModel,
};
use vstd::prelude::*;
use vstd::seq_lib::{to_multiset_build, to_multiset_contains};

verus! {

/// The slots of number `n`, in their order.
pub open spec fn numbered(slots: Seq<SlotModel>, n: int) -> Seq<SlotModel>
    decreases slots.len(),
{
    if slots.len() == 0 {
        slots
    } else if slots.last().slot_number == n {
        numbered(slots.drop_last(), n).push(slots.last())
    } else {
        numbered(slots.drop_last(), n)
    }
}

/// The numbers of the slots never fall from one slot to the next.
pub open spec fn ascending(slots: Seq<SlotModel>) -> bool {
    forall|i: int, j: int|
        0 <= i < j < slots.len() ==> (#[trigger] slots[i]).slot_number <= (
        #[trigger] slots[j]).slot_number
}

pub proof fn lemma_numbered_push(slots: Seq<SlotModel>, x: SlotModel, n: int)
    ensures
        numbered(slots.push(x), n) == (if x.slot_number == n {
            numbered(slots, n).push(x)
        } else {
            numbered(slots, n)
        }),
{
    assert(slots.push(x).drop_last() =~= slots);
}

/// Putting a slot in place adds it behind the slots of its number and
/// leaves the slots of every other number as they are.
pub proof fn lemma_insert_numbered(sorted: Seq<SlotModel>, x: SlotModel, n: int)
    ensures
        numbered(insert_slot(sorted, x), n) == (if x.slot_number == n {
            numbered(sorted, n).push(x)
        } else {
            numbered(sorted, n)
        }),
    decreases sorted.len(),
{
    if sorted.len() == 0 || sorted.last().slot_number <= x.slot_number {
        lemma_numbered_push(sorted, x, n);
    } else {
        lemma_insert_numbered(sorted.drop_last(), x, n);
        lemma_numbered_push(insert_slot(sorted.drop_last(), x), sorted.last(), n);
    }
}

/// Sorting keeps the slots of each number, in their order.
pub proof fn lemma_sort_numbered(slots: Seq<SlotModel>, n: int)
    ensures
        numbered(sort_slots(slots), n) == numbered(slots, n),
    decreases slots.len(),
{
    if slots.len() > 0 {
        lemma_sort_numbered(slots.drop_last(), n);
        lemma_insert_numbered(sort_slots(slots.drop_last()), slots.last(), n);
    }
}

/// Nothing of number `n` is left where the slots of that number were
/// taken out, and the slots of every other number are as before.
pub proof fn lemma_without_numbered(slots: Seq<SlotModel>, n: int, m: int)
    ensures
        numbered(without_slot(slots, n), m) == (if m == n {
            Seq::<SlotModel>::empty()
        } else {
            numbered(slots, m)
        }),
    decreases slots.len(),
{
    if slots.len() > 0 {
        lemma_without_numbered(slots.drop_last(), n, m);
        if slots.last().slot_number != n {
            lemma_numbered_push(without_slot(slots.drop_last(), n), slots.last(), m);
        }
    }
}

/// A section has a slot of number `n` just where its slots of that number
/// are not none.
pub proof fn lemma_has_slot_numbered(slots: Seq<SlotModel>, n: int)
    ensures
        has_slot(slots, n) <==> numbered(slots, n).len() > 0,
    decreases slots.len(),
{
    if slots.len() > 0 {
        lemma_has_slot_numbered(slots.drop_last(), n);
        if has_slot(slots, n) {
            let i = choose|i: int| 0 <= i < slots.len() && (#[trigger] slots[i]).slot_number == n;
            if i < slots.len() - 1 {
                assert(slots.drop_last()[i].slot_number == n);
            }
        }
        if has_slot(slots.drop_last(), n) {
            let i = choose|i: int|
                0 <= i < slots.drop_last().len() && (#[trigger] slots.drop_last()[i]).slot_number
                    == n;
            assert(slots[i].slot_number == n);
        }
        if slots.last().slot_number == n {
            assert(slots[slots.len() - 1].slot_number == n);
        }
    }
}

/// Putting a slot in place adds that slot and nothing else.
pub proof fn lemma_insert_multiset(sorted: Seq<SlotModel>, x: SlotModel)
    ensures
        insert_slot(sorted, x).to_multiset() == sorted.to_multiset().insert(x),
    decreases sorted.len(),
{
    broadcast use to_multiset_build;

    if sorted.len() == 0 || sorted.last().slot_number <= x.slot_number {
    } else {
        lemma_insert_multiset(sorted.drop_last(), x);
        assert(sorted =~= sorted.drop_last().push(sorted.last()));
        assert(insert_slot(sorted, x).to_multiset() =~= sorted.to_multiset().insert(x));
    }
}

/// Sorting rearranges the slots: each slot occurs as often as before.
pub proof fn lemma_sort_multiset(slots: Seq<SlotModel>)
    ensures
        sort_slots(slots).to_multiset() == slots.to_multiset(),
    decreases slots.len(),
{
    broadcast use to_multiset_build;

    if slots.len() > 0 {
        lemma_sort_multiset(slots.drop_last());
        lemma_insert_multiset(sort_slots(slots.drop_last()), slots.last());
        assert(slots =~= slots.drop_last().push(slots.last()));
    }
}

/// Every slot of the sorted section is a slot of the section.
pub proof fn lemma_sort_members(slots: Seq<SlotModel>, k: int)
    requires
        0 <= k < sort_slots(slots).len(),
    ensures
        slots.contains(sort_slots(slots)[k]),
{
    lemma_sort_multiset(slots);
    let x = sort_slots(slots)[k];
    assert(sort_slots(slots).contains(x));
    to_multiset_contains(sort_slots(slots), x);
    to_multiset_contains(slots, x);
}

pub proof fn lemma_insert_ascending(sorted: Seq<SlotModel>, x: SlotModel)
    requires
        ascending(sorted),
    ensures
        ascending(insert_slot(sorted, x)),
        forall|k: int|
            0 <= k < insert_slot(sorted, x).len() ==> (#[trigger] insert_slot(sorted, x)[k]) == x
                || sorted.contains(insert_slot(sorted, x)[k]),
    decreases sorted.len(),
{
    let r = insert_slot(sorted, x);
    if sorted.len() == 0 || sorted.last().slot_number <= x.slot_number {
        assert forall|i: int, j: int| 0 <= i < j < r.len() implies (#[trigger] r[i]).slot_number
            <= (#[trigger] r[j]).slot_number by {
            if j == sorted.len() {
                assert(sorted[i].slot_number <= sorted[sorted.len() - 1].slot_number);
            }
        }
        assert forall|k: int| 0 <= k < r.len() implies (#[trigger] r[k]) == x || sorted.contains(
            r[k],
        ) by {
            if k < sorted.len() {
                assert(sorted[k] == r[k]);
            }
        }
    } else {
        let front = sorted.drop_last();
        let inner = insert_slot(front, x);
        assert(ascending(front)) by {
            assert forall|i: int, j: int| 0 <= i < j < front.len() implies (
            #[trigger] front[i]).slot_number <= (#[trigger] front[j]).slot_number by {
                assert(front[i] == sorted[i]);
                assert(front[j] == sorted[j]);
            }
        }
        lemma_insert_ascending(front, x);
        lemma_insert_slot_len(front, x);
        assert forall|i: int, j: int| 0 <= i < j < r.len() implies (#[trigger] r[i]).slot_number
            <= (#[trigger] r[j]).slot_number by {
            if j == inner.len() {
                assert(r[i] == inner[i]);
                if inner[i] != x {
                    let m = choose|m: int| 0 <= m < front.len() && front[m] == inner[i];
                    assert(sorted[m] == front[m]);
                    assert(sorted[m].slot_number <= sorted[sorted.len() - 1].slot_number);
                }
            } else {
                assert(r[i] == inner[i]);
                assert(r[j] == inner[j]);
            }
        }
        assert forall|k: int| 0 <= k < r.len() implies (#[trigger] r[k]) == x || sorted.contains(
            r[k],
        ) by {
            if k < inner.len() {
                assert(r[k] == inner[k]);
                if inner[k] != x {
                    let m = choose|m: int| 0 <= m < front.len() && front[m] == inner[k];
                    assert(sorted[m] == inner[k]);
                }
            } else {
                assert(r[k] == sorted[sorted.len() - 1]);
            }
        }
    }
}

/// The sorted section is in ascending order.
pub proof fn lemma_sort_ascending(slots: Seq<SlotModel>)
    ensures
        ascending(sort_slots(slots)),
    decreases slots.len(),
{
    if slots.len() > 0 {
        lemma_sort_ascending(slots.drop_last());
        lemma_insert_ascending(sort_slots(slots.drop_last()), slots.last());
    }
}

/// Sorting leaves a section that is in ascending order as it is.
pub proof fn lemma_sort_fixed(slots: Seq<SlotModel>)
    requires
        ascending(slots),
    ensures
        sort_slots(slots) == slots,
    decreases slots.len(),
{
    if slots.len() > 0 {
        let front = slots.drop_last();
        assert(ascending(front)) by {
            assert forall|i: int, j: int| 0 <= i < j < front.len() implies (
            #[trigger] front[i]).slot_number <= (#[trigger] front[j]).slot_number by {
                assert(front[i] == slots[i]);
                assert(front[j] == slots[j]);
            }
        }
        lemma_sort_fixed(front);
        if front.len() > 0 {
            assert(front.last() == slots[slots.len() - 2]);
            assert(slots[slots.len() - 2].slot_number <= slots[slots.len() - 1].slot_number);
        }
        assert(front.push(slots.last()) =~= slots);
    }
}

/// Every slot that is left where the slots of one number were taken out
/// is a slot of the section.
pub proof fn lemma_without_members(slots: Seq<SlotModel>, n: int, k: int)
    requires
        0 <= k < without_slot(slots, n).len(),
    ensures
        slots.contains(without_slot(slots, n)[k]),
    decreases slots.len(),
{
    if slots.len() > 0 {
        let front = slots.drop_last();
        let kept = without_slot(front, n);
        if k < kept.len() {
            lemma_without_members(front, n, k);
            let m = choose|m: int| 0 <= m < front.len() && front[m] == kept[k];
            assert(slots[m] == kept[k]);
        } else {
            assert(slots[slots.len() - 1] == slots.last());
        }
    }
}

} // verus!
