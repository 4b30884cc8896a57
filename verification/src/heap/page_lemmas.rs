//! Facts about the layout of heap pages that the operations on them rest on.

use vstd::prelude::*;

use crate::storage::PAGE_SIZE;

use super::page_format::{self, HeapPage, SlotState, SLOT_LIVE};

verus! {

/// Row data never shrinks as more slots are counted in.
pub proof fn lemma_record_bytes_grow(slots: Seq<SlotState>, shorter: int, longer: int)
    requires
        0 <= shorter <= longer <= slots.len(),
    ensures
        0 <= page_format::record_bytes(slots.take(shorter)) <= page_format::record_bytes(
            slots.take(longer),
        ),
    decreases longer,
{
    if shorter < longer {
        assert(slots.take(longer).drop_last() =~= slots.take(longer - 1));
        lemma_record_bytes_grow(slots, shorter, longer - 1);
    } else if longer > 0 {
        assert(slots.take(longer).drop_last() =~= slots.take(longer - 1));
        lemma_record_bytes_grow(slots, shorter - 1, longer - 1);
    }
}

/// Counting in one more slot adds the length of its row.
pub proof fn lemma_record_bytes_step(slots: Seq<SlotState>, index: int)
    requires
        0 <= index < slots.len(),
    ensures
        page_format::record_bytes(slots.take(index + 1)) == page_format::record_bytes(
            slots.take(index),
        ) + slots[index].record_length(),
        page_format::live_slots(slots.take(index + 1)) == page_format::live_slots(
            slots.take(index),
        ) + if slots[index] is Live {
            1int
        } else {
            0int
        },
{
    assert(slots.take(index + 1).drop_last() =~= slots.take(index));
}

/// Replacing the state of one slot changes the sums by what it contributes.
pub proof fn lemma_sums_after_update(slots: Seq<SlotState>, index: int, state: SlotState)
    requires
        0 <= index < slots.len(),
    ensures
        page_format::record_bytes(slots.update(index, state)) == page_format::record_bytes(slots)
            - slots[index].record_length() + state.record_length(),
        page_format::live_slots(slots.update(index, state)) == page_format::live_slots(slots) - (
        if slots[index] is Live {
            1int
        } else {
            0int
        }) + if state is Live {
            1int
        } else {
            0int
        },
    decreases slots.len(),
{
    let updated = slots.update(index, state);
    if index == slots.len() - 1 {
        assert(updated.drop_last() =~= slots.drop_last());
    } else {
        assert(updated.drop_last() =~= slots.drop_last().update(index, state));
        lemma_sums_after_update(slots.drop_last(), index, state);
    }
}

/// A live slot is never counted out, and there are no more rows than slots.
pub proof fn lemma_live_slots_bounds(slots: Seq<SlotState>)
    ensures
        0 <= page_format::live_slots(slots) <= slots.len(),
        forall|i: int|
            0 <= i < slots.len() && #[trigger] slots[i] is Live ==> page_format::live_slots(slots)
                > 0,
    decreases slots.len(),
{
    if slots.len() > 0 {
        lemma_live_slots_bounds(slots.drop_last());
        assert forall|i: int| 0 <= i < slots.len() && #[trigger] slots[i] is Live implies
            page_format::live_slots(slots) > 0 by {
            if i < slots.len() - 1 {
                assert(slots.drop_last()[i] is Live);
            }
        }
    }
}

/// Positions that the rows of the first `count` slots take up.
spec fn covered(bytes: Seq<u8>, count: int) -> Set<int>
    decreases count,
{
    if count <= 0 {
        Set::empty()
    } else {
        let entry = page_format::slot(bytes, count - 1);
        if entry.flags == SLOT_LIVE {
            covered(bytes, count - 1).union(
                vstd::set_lib::set_int_range(entry.offset as int, entry.offset + entry.length),
            )
        } else {
            covered(bytes, count - 1)
        }
    }
}

proof fn lemma_covered_has_slot(bytes: Seq<u8>, count: int, position: int)
    requires
        covered(bytes, count).contains(position),
    ensures
        exists|i: int|
            0 <= i < count && {
                let entry = #[trigger] page_format::slot(bytes, i);
                entry.flags == SLOT_LIVE && entry.offset <= position < entry.offset + entry.length
            },
    decreases count,
{
    if count > 0 {
        let entry = page_format::slot(bytes, count - 1);
        if !(entry.flags == SLOT_LIVE && entry.offset <= position < entry.offset + entry.length) {
            lemma_covered_has_slot(bytes, count - 1, position);
        }
    }
}

proof fn lemma_covered_size(bytes: Seq<u8>, count: int)
    requires
        page_format::well_formed(bytes),
        0 <= count <= page_format::slot_count(bytes),
    ensures
        covered(bytes, count).finite(),
        covered(bytes, count).len() == page_format::record_bytes(
            page_format::slot_states(bytes, count),
        ),
        forall|p: int| #[trigger]
            covered(bytes, count).contains(p) ==> page_format::free_end(bytes) <= p < PAGE_SIZE,
    decreases count,
{
    if count > 0 {
        lemma_covered_size(bytes, count - 1);
        let states = page_format::slot_states(bytes, count);
        assert(states.drop_last() =~= page_format::slot_states(bytes, count - 1));
        let entry = page_format::slot(bytes, count - 1);
        assert(page_format::slot_well_formed(entry, page_format::free_end(bytes) as int));
        if entry.flags == SLOT_LIVE {
            let before = covered(bytes, count - 1);
            let range = vstd::set_lib::set_int_range(
                entry.offset as int,
                entry.offset + entry.length,
            );
            vstd::set_lib::lemma_int_range(entry.offset as int, entry.offset + entry.length);
            assert forall|p: int| before.contains(p) implies !range.contains(p) by {
                if range.contains(p) {
                    lemma_covered_has_slot(bytes, count - 1, p);
                    let i = choose|i: int|
                        0 <= i < count - 1 && {
                            let other = #[trigger] page_format::slot(bytes, i);
                            other.flags == SLOT_LIVE && other.offset <= p < other.offset
                                + other.length
                        };
                    assert(page_format::overlap(bytes, i, count - 1));
                }
            }
            assert(before.disjoint(range));
            vstd::set_lib::lemma_set_disjoint_lens(before, range);
            assert(covered(bytes, count) == before + range);
        }
    }
}

/// The rows of a well-formed page fit between the free space and its end.
pub proof fn lemma_records_fit(bytes: Seq<u8>)
    requires
        page_format::well_formed(bytes),
    ensures
        0 <= page_format::record_bytes(
            page_format::slot_states(bytes, page_format::slot_count(bytes) as int),
        ) <= PAGE_SIZE - page_format::free_end(bytes),
{
    let count = page_format::slot_count(bytes) as int;
    let low = page_format::free_end(bytes) as int;
    lemma_covered_size(bytes, count);
    vstd::set_lib::lemma_int_range(low, PAGE_SIZE as int);
    assert(covered(bytes, count).subset_of(vstd::set_lib::set_int_range(low, PAGE_SIZE as int)));
    vstd::set_lib::lemma_len_subset(
        covered(bytes, count),
        vstd::set_lib::set_int_range(low, PAGE_SIZE as int),
    );
}

/// A directory without fault is one where no slot has a fault.
pub proof fn lemma_directory_fault(bytes: Seq<u8>, count: int)
    ensures
        page_format::directory_fault(bytes, count) is None <==> forall|i: int|
            0 <= i < count ==> page_format::slot_fault(
                #[trigger] page_format::slot(bytes, i),
                page_format::free_end(bytes) as int,
            ) is None,
    decreases count,
{
    if count > 0 {
        lemma_directory_fault(bytes, count - 1);
    }
}

/// A fault among the first slots is a fault of the directory.
pub proof fn lemma_directory_fault_stays(bytes: Seq<u8>, shorter: int, longer: int)
    requires
        shorter <= longer,
        page_format::directory_fault(bytes, shorter) is Some,
    ensures
        page_format::directory_fault(bytes, longer) == page_format::directory_fault(bytes, shorter),
    decreases longer,
{
    if shorter < longer {
        lemma_directory_fault_stays(bytes, shorter, longer - 1);
    }
}

/// The pages that pass validation are the well-formed ones in which no row has
/// generation zero.
pub proof fn valid_pages_are_well_formed(bytes: Seq<u8>)
    requires
        bytes.len() == PAGE_SIZE,
    ensures
        page_format::page_fault(bytes) is None <==> {
            &&& page_format::well_formed(bytes)
            &&& forall|i: int|
                0 <= i < page_format::slot_count(bytes) && #[trigger] page_format::slot_state(
                    bytes,
                    i,
                ) is Live ==> page_format::slot_state(bytes, i).generation() > 0
        },
{
    let count = page_format::slot_count(bytes) as int;
    lemma_directory_fault(bytes, count);
    if page_format::page_fault(bytes) is None {
        assert forall|i: int| 0 <= i < count implies page_format::slot_well_formed(
            #[trigger] page_format::slot(bytes, i),
            page_format::free_end(bytes) as int,
        ) by {}
        assert forall|i: int|
            0 <= i < count && #[trigger] page_format::slot_state(bytes, i) is Live implies
            page_format::slot_state(bytes, i).generation() > 0 by {
            assert(page_format::slot_fault(
                page_format::slot(bytes, i),
                page_format::free_end(bytes) as int,
            ) is None);
        }
    }
    if page_format::well_formed(bytes) && forall|i: int|
        0 <= i < count && #[trigger] page_format::slot_state(bytes, i) is Live
            ==> page_format::slot_state(bytes, i).generation() > 0 {
        assert forall|i: int| 0 <= i < count implies page_format::slot_fault(
            #[trigger] page_format::slot(bytes, i),
            page_format::free_end(bytes) as int,
        ) is None by {
            assert(page_format::slot_state(bytes, i) is Live ==> page_format::slot_state(
                bytes,
                i,
            ).generation() > 0);
        }
    }
}

/// Where a slot can be reused, the next row goes to the first such slot.
pub proof fn lemma_target(page: HeapPage)
    requires
        page.has_reusable(),
    ensures
        page.is_first_reusable(page.target_slot()),
{
    lemma_first_reusable_exists(page, page.slots.len() as int);
}

proof fn lemma_first_reusable_exists(page: HeapPage, bound: int)
    requires
        exists|i: int|
            0 <= i < bound <= page.slots.len() && #[trigger] page.slots[i] is Reusable,
    ensures
        exists|i: int| page.is_first_reusable(i),
    decreases bound,
{
    if exists|i: int| 0 <= i < bound - 1 && #[trigger] page.slots[i] is Reusable {
        lemma_first_reusable_exists(page, bound - 1);
    } else {
        assert(page.slots[bound - 1] is Reusable);
        assert(page.is_first_reusable(bound - 1));
    }
}

} // verus!
