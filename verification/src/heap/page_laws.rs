//! What the operations on a heap page promise together.

use vstd::prelude::*;

use crate::storage::{PageId, Rid};

use super::page_format::{self, HeapPage, SlotState};
use super::page_lemmas;

verus! {

/// The content of a well-formed page fits into a page.
pub proof fn well_formed_pages_fit(id: PageId, bytes: Seq<u8>)
    requires
        page_format::well_formed(bytes),
    ensures
        page_format::content(id, bytes).fits(),
{
    page_lemmas::lemma_records_fit(bytes);
}

proof fn lemma_record_bytes_nonnegative(slots: Seq<SlotState>)
    ensures
        page_format::record_bytes(slots) >= 0,
{
    page_lemmas::lemma_record_bytes_grow(slots, 0, slots.len() as int);
    assert(slots.take(slots.len() as int) =~= slots);
}

/// A stored row can be read back under the identifier that the insertion
/// returned, and that identifier was not in use before.
pub proof fn inserted_rows_read_back(page: HeapPage, record: Seq<u8>)
    requires
        page.fits(),
        page.insert_error(record.len() as int) is None,
    ensures
        page.insert(record).is_live(page.next_rid()),
        page.insert(record).record(page.next_rid()) == record,
        !page.is_live(page.next_rid()),
{
    lemma_record_bytes_nonnegative(page.slots);
    if page.has_reusable() {
        page_lemmas::lemma_target(page);
    }
}

/// An insertion leaves every other row as it is, under its identifier.
pub proof fn insertion_keeps_rows(page: HeapPage, record: Seq<u8>, rid: Rid)
    requires
        page.is_live(rid),
    ensures
        page.insert(record).is_live(rid),
        page.insert(record).record(rid) == page.record(rid),
{
    if page.has_reusable() {
        page_lemmas::lemma_target(page);
    }
}

/// An insertion brings up no row but the stored one.
pub proof fn insertion_adds_one_row(page: HeapPage, record: Seq<u8>, rid: Rid)
    requires
        page.fits(),
        page.insert_error(record.len() as int) is None,
        page.insert(record).is_live(rid),
    ensures
        page.is_live(rid) || rid == page.next_rid(),
{
    lemma_record_bytes_nonnegative(page.slots);
    if page.has_reusable() {
        page_lemmas::lemma_target(page);
    }
}

/// Which rows fit: an insertion succeeds exactly when the row and, where no slot
/// can be reused, a new slot entry fit into the free space, wherever in the page
/// that space lies.
pub proof fn insertion_uses_all_free_space(page: HeapPage, length: int)
    requires
        page.fits(),
        0 <= length,
    ensures
        page.insert_error(length) is None <==> page.directory_growth() + length
            <= page.free_space(),
{
    lemma_record_bytes_nonnegative(page.slots);
}

/// A deleted slot is reused before the directory grows.
pub proof fn deleted_slots_are_reused_first(page: HeapPage, record: Seq<u8>)
    ensures
        page.has_reusable() ==> {
            &&& page.is_first_reusable(page.target_slot())
            &&& page.insert(record).slots.len() == page.slots.len()
        },
        !page.has_reusable() ==> page.insert(record).slots.len() == page.slots.len() + 1,
{
    if page.has_reusable() {
        page_lemmas::lemma_target(page);
    }
}

/// A deletion makes the identifier invalid at once and leaves every other row as
/// it is.
pub proof fn deletion_removes_one_row(page: HeapPage, rid: Rid, other: Rid)
    requires
        page.is_live(rid),
        other != rid,
    ensures
        !page.delete(rid).is_live(rid),
        page.delete(rid).is_live(other) == page.is_live(other),
        page.is_live(other) ==> page.delete(rid).record(other) == page.record(other),
{
}

/// The row that took the place of a deleted one has the next generation.
pub proof fn reused_slots_have_the_next_generation(page: HeapPage, rid: Rid, record: Seq<u8>)
    requires
        page.fits(),
        page.is_live(rid),
        !page.has_reusable(),
        rid.generation < 0xffff,
    ensures
        page.delete(rid).next_rid() == (Rid { generation: (rid.generation + 1) as u16, ..rid }),
{
    lemma_record_bytes_nonnegative(page.slots);
    let deleted = page.delete(rid);
    assert(deleted.slots[rid.slot_id.0 as int] is Reusable);
    page_lemmas::lemma_target(deleted);
    assert forall|j: int|
        0 <= j < deleted.slots.len() && #[trigger] deleted.slots[j] is Reusable implies j
        == rid.slot_id.0 by {
        if j != rid.slot_id.0 {
            assert(page.slots[j] is Reusable);
        }
    }
}

/// A deleted row's identifier is stale from then on, and a stale identifier
/// stays stale through every insertion and every deletion: it never identifies
/// a row again.
pub proof fn stale_rids_stay_stale(page: HeapPage, stale: Rid, rid: Rid, record: Seq<u8>)
    ensures
        page.is_live(stale) ==> page.delete(stale).is_stale(stale),
        page.is_stale(stale) ==> {
            &&& !page.is_live(stale)
            &&& page.insert(record).is_stale(stale)
            &&& page.is_live(rid) ==> page.delete(rid).is_stale(stale)
        },
{
    if page.has_reusable() {
        page_lemmas::lemma_target(page);
    }
}

/// A slot that retired stays retired.
pub proof fn retired_slots_stay_retired(page: HeapPage, index: int, rid: Rid, record: Seq<u8>)
    requires
        0 <= index < page.slots.len(),
        page.slots[index] is Retired,
    ensures
        page.insert(record).slots[index] == page.slots[index],
        page.is_live(rid) ==> page.delete(rid).slots[index] == page.slots[index],
        page.target_slot() != index,
{
    if page.has_reusable() {
        page_lemmas::lemma_target(page);
    }
}

/// A slot retires when its last generation is deleted.
pub proof fn exhausted_slots_retire(page: HeapPage, rid: Rid)
    requires
        page.is_live(rid),
    ensures
        page.delete(rid).slots[rid.slot_id.0 as int] is Retired <==> rid.generation == 0xffff,
{
}

/// An insertion takes its bytes out of the free space, and a deletion gives
/// those of the row back, but not its slot entry.
pub proof fn free_space_is_accounted_for(page: HeapPage, record: Seq<u8>, rid: Rid)
    ensures
        page.insert(record).free_space() == page.free_space() - page.directory_growth()
            - record.len(),
        page.is_live(rid) ==> page.delete(rid).free_space() == page.free_space() + page.record(
            rid,
        ).len(),
        page_format::live_slots(page.insert(record).slots) == page_format::live_slots(page.slots)
            + 1,
        page.is_live(rid) ==> page_format::live_slots(page.delete(rid).slots)
            == page_format::live_slots(page.slots) - 1,
{
    let inserted = page.insert(record);
    if page.has_reusable() {
        page_lemmas::lemma_target(page);
        page_lemmas::lemma_sums_after_update(
            page.slots,
            page.target_slot(),
            inserted.slots[page.target_slot()],
        );
    } else {
        assert(inserted.slots.drop_last() =~= page.slots);
    }
    if page.is_live(rid) {
        page_lemmas::lemma_sums_after_update(
            page.slots,
            rid.slot_id.0 as int,
            page.delete(rid).slots[rid.slot_id.0 as int],
        );
    }
}

/// No operation brings up a slot of generation zero.
pub proof fn generations_stay_positive(page: HeapPage, record: Seq<u8>, rid: Rid)
    requires
        page_format::generations_positive(page.slots),
    ensures
        page_format::generations_positive(page.insert(record).slots),
        page.is_live(rid) ==> page_format::generations_positive(page.delete(rid).slots),
{
    if page.has_reusable() {
        page_lemmas::lemma_target(page);
    }
}

/// A page whose slots all have a positive generation passes validation: what
/// this library wrote, it can open again.
pub proof fn written_pages_open_again(id: PageId, bytes: Seq<u8>)
    requires
        page_format::well_formed(bytes),
        page_format::generations_positive(page_format::content(id, bytes).slots),
    ensures
        page_format::page_fault(bytes) is None,
{
    page_lemmas::valid_pages_are_well_formed(bytes);
    assert forall|i: int|
        0 <= i < page_format::slot_count(bytes) && #[trigger] page_format::slot_state(
            bytes,
            i,
        ) is Live implies page_format::slot_state(bytes, i).generation() > 0 by {
        assert(page_format::content(id, bytes).slots[i].generation() > 0);
    }
}

/// The listed identifiers are those of the rows, each once, by slot.
pub proof fn live_rids_list_the_rows(page: HeapPage, count: int)
    requires
        page.fits(),
        0 <= count <= page.slots.len(),
    ensures
        forall|rid: Rid| #[trigger]
            page.live_rids_up_to(count).contains(rid) <==> page.is_live(rid) && rid.slot_id.0
                < count,
        forall|i: int, j: int|
            0 <= i < j < page.live_rids_up_to(count).len() ==> (#[trigger] page.live_rids_up_to(
                count,
            )[i]).slot_id.0 < (#[trigger] page.live_rids_up_to(count)[j]).slot_id.0,
    decreases count,
{
    lemma_record_bytes_nonnegative(page.slots);
    if count > 0 {
        live_rids_list_the_rows(page, count - 1);
        let shorter = page.live_rids_up_to(count - 1);
        let rids = page.live_rids_up_to(count);
        assert forall|rid: Rid| #[trigger] rids.contains(rid) <==> page.is_live(rid) && rid.slot_id.0
            < count by {
            if rids.contains(rid) {
                let i = choose|i: int| 0 <= i < rids.len() && rids[i] == rid;
                if i < shorter.len() {
                    assert(shorter.contains(rid));
                }
            }
            if page.is_live(rid) && rid.slot_id.0 < count {
                if rid.slot_id.0 < count - 1 {
                    assert(shorter.contains(rid));
                    let i = choose|i: int| 0 <= i < shorter.len() && shorter[i] == rid;
                    assert(rids[i] == rid);
                } else {
                    assert(rids[rids.len() - 1] == rid);
                }
            }
        }
        assert forall|i: int, j: int| 0 <= i < j < rids.len() implies (
        #[trigger] rids[i]).slot_id.0 < (#[trigger] rids[j]).slot_id.0 by {
            assert(rids[i] == shorter[i]);
            if j < shorter.len() {
                assert(rids[j] == shorter[j]);
                assert(shorter[i].slot_id.0 < shorter[j].slot_id.0);
            } else {
                assert(rids[j] == page.rid_of(count - 1));
                assert(shorter.contains(shorter[i]));
            }
        }
    }
}

} // verus!
