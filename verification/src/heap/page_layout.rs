//! Where an operation on a heap page leaves the bytes.
//!
//! The content of a page says which rows it holds. What is said here fixes the
//! bytes beyond that: where the rows lie, and what stands in between.

use vstd::prelude::*;

use crate::codec;
use crate::storage::{PageId, PAGE_HEADER_SIZE, PAGE_SIZE};

use super::page_format::{
    self, Slot, SlotState, FLAGS_OFFSET, FREE_END_OFFSET, LIVE_COUNT_OFFSET, MAGIC_OFFSET,
    NEXT_PAGE_ID_OFFSET, PAGE_LSN_OFFSET, SLOT_COUNT_OFFSET,
};
use super::page_lemmas;

verus! {

/// Whether `after` differs from `before` at most from `start` up to `end`.
pub open spec fn same_outside(before: Seq<u8>, after: Seq<u8>, start: int, end: int) -> bool {
    &&& before.len() == after.len()
    &&& forall|k: int|
        0 <= k < after.len() && !(start <= k < end) ==> #[trigger] after[k] == before[k]
}

/// Whether the header fields that no row operation touches are the same.
pub open spec fn same_reserved(before: Seq<u8>, after: Seq<u8>) -> bool {
    &&& after.subrange(0, SLOT_COUNT_OFFSET as int) == before.subrange(0, SLOT_COUNT_OFFSET as int)
    &&& after.subrange(NEXT_PAGE_ID_OFFSET as int, PAGE_HEADER_SIZE as int) == before.subrange(
        NEXT_PAGE_ID_OFFSET as int,
        PAGE_HEADER_SIZE as int,
    )
}

/// The header fields that are reserved: flags, LSN and checksum.
pub open spec fn reserved_fields(bytes: Seq<u8>) -> Seq<u8> {
    bytes.subrange(FLAGS_OFFSET as int, SLOT_COUNT_OFFSET as int) + bytes.subrange(
        PAGE_LSN_OFFSET as int,
        PAGE_HEADER_SIZE as int,
    )
}

/// The bytes of a page that was turned into a heap page without slots.
pub open spec fn initialized(before: Seq<u8>) -> Seq<u8> {
    codec::splice(before, 0, page_format::blank_header())
}

/// Where compaction moves the row of slot `index`: the rows lie in the order of
/// their slots, the first one at the end of the page.
pub open spec fn packed_offset(slots: Seq<SlotState>, index: int) -> int {
    PAGE_SIZE - page_format::record_bytes(slots.take(index + 1))
}

/// Whether `after` has the header of `bytes` but for the end of free space, and
/// the directory of `bytes` with every row at its packed offset.
pub open spec fn has_packed_directory(
    slots: Seq<SlotState>,
    bytes: Seq<u8>,
    after: Seq<u8>,
) -> bool {
    &&& after.len() == PAGE_SIZE
    &&& forall|k: int|
        0 <= k < PAGE_HEADER_SIZE && !(FREE_END_OFFSET <= k < FREE_END_OFFSET + 2)
            ==> #[trigger] after[k] == bytes[k]
    &&& page_format::free_end(after) == PAGE_SIZE - page_format::record_bytes(slots)
    &&& forall|j: int|
        0 <= j < slots.len() ==> #[trigger] page_format::slot(after, j) == (if slots[j] is Live {
            Slot { offset: packed_offset(slots, j) as u16, ..page_format::slot(bytes, j) }
        } else {
            page_format::slot(bytes, j)
        })
}

/// Whether `packed` holds the rows of the first `count` slots, each at its
/// packed offset.
pub open spec fn holds_packed(slots: Seq<SlotState>, packed: Seq<u8>, count: int) -> bool {
    forall|k: int|
        0 <= k < count && #[trigger] slots[k] is Live ==> packed.subrange(
            packed_offset(slots, k),
            packed_offset(slots, k) + slots[k].record_length(),
        ) == slots[k]->record
}

/// Whether compaction of `before` gives `after`: the rows lie packed in the order
/// of their slots, and the free space is zero.
pub open spec fn compacted(before: Seq<u8>, after: Seq<u8>) -> bool {
    let slots = page_format::slot_states(before, page_format::slot_count(before) as int);
    &&& has_packed_directory(slots, before, after)
    &&& holds_packed(slots, after, slots.len() as int)
    &&& forall|k: int|
        page_format::free_start(before) <= k < page_format::free_end(after) ==> #[trigger] after[k]
            == 0
}

/// Whether a row of `length` bytes that was stored in `before`, just below the row
/// data, gives `after`. Nothing changes but the row, the entry of its slot, and
/// the counts and boundaries in the header.
pub open spec fn placed(id: PageId, before: Seq<u8>, after: Seq<u8>, length: int) -> bool {
    let target = page_format::content(id, before).target_slot();
    &&& after.len() == before.len()
    &&& page_format::free_end(after) == page_format::free_end(before) - length
    &&& page_format::slot(after, target).offset == page_format::free_end(after)
    &&& forall|k: int|
        0 <= k < after.len() && !(SLOT_COUNT_OFFSET <= k < NEXT_PAGE_ID_OFFSET) && !(
        page_format::slot_position(target) <= k < page_format::slot_position(target + 1)) && !(
        page_format::free_end(after) <= k < page_format::free_end(before)) ==> #[trigger] after[k]
            == before[k]
}

/// Whether an insertion of a row of `length` bytes into `before` gives `after`:
/// the page is compacted first where the contiguous free space is too small.
pub open spec fn inserted(id: PageId, before: Seq<u8>, after: Seq<u8>, length: int) -> bool {
    let required = length + page_format::content(id, before).directory_growth();
    if page_format::free_end(before) - page_format::free_start(before) < required {
        exists|packed: Seq<u8>|
            #[trigger] compacted(before, packed) && placed(id, packed, after, length)
    } else {
        placed(id, before, after, length)
    }
}

/// Whether the deletion of the row in this slot of `before` gives `after`: nothing
/// changes but the entry of the slot and the number of rows.
pub open spec fn deleted(before: Seq<u8>, after: Seq<u8>, slot: int) -> bool {
    &&& after.len() == before.len()
    &&& forall|k: int|
        0 <= k < after.len() && !(LIVE_COUNT_OFFSET <= k < LIVE_COUNT_OFFSET + 2) && !(
        page_format::slot_position(slot) <= k < page_format::slot_position(slot + 1))
            ==> #[trigger] after[k] == before[k]
}

/// Whether `after` is `before` but for the link to the next page.
pub open spec fn linked(before: Seq<u8>, after: Seq<u8>) -> bool {
    same_outside(before, after, NEXT_PAGE_ID_OFFSET as int, NEXT_PAGE_ID_OFFSET + 4)
}

/// Compaction leaves no choice: the bytes that it gives are determined.
pub proof fn compaction_is_determined(before: Seq<u8>, one: Seq<u8>, other: Seq<u8>)
    requires
        page_format::well_formed(before),
        compacted(before, one),
        compacted(before, other),
    ensures
        one == other,
{
    let count = page_format::slot_count(before) as int;
    let slots = page_format::slot_states(before, count);
    let start = page_format::free_start(before) as int;
    let end = page_format::free_end(one) as int;
    page_lemmas::lemma_records_fit(before);
    assert(slots.take(count) =~= slots);
    assert forall|k: int| 0 <= k < PAGE_SIZE implies one[k] == other[k] by {
        if k < PAGE_HEADER_SIZE {
            if FREE_END_OFFSET <= k < FREE_END_OFFSET + 2 {
                lemma_same_u16(one, other, FREE_END_OFFSET as int);
            } else {
                assert(one[k] == before[k] && other[k] == before[k]);
            }
        } else if k < start {
            let j = (k - PAGE_HEADER_SIZE) / 8;
            let position = page_format::slot_position(j);
            assert(page_format::slot(one, j) == page_format::slot(other, j));
            lemma_same_u16(one, other, position);
            lemma_same_u16(one, other, position + 2);
            lemma_same_u16(one, other, position + 4);
            lemma_same_u16(one, other, position + 6);
        } else if k < end {
            assert(one[k] == 0 && other[k] == 0);
        } else {
            let j = lemma_position_is_packed(slots, count, k);
            let row = slots[j]->record;
            let offset = packed_offset(slots, j);
            page_lemmas::lemma_record_bytes_step(slots, j);
            page_lemmas::lemma_record_bytes_grow(slots, 0, j);
            page_lemmas::lemma_record_bytes_grow(slots, j + 1, count);
            assert(one.subrange(offset, offset + row.len())[k - offset] == row[k - offset]);
            assert(other.subrange(offset, offset + row.len())[k - offset] == row[k - offset]);
        }
    }
    assert(one =~= other);
}

/// A second compaction changes no byte.
pub proof fn compacted_pages_stay(before: Seq<u8>, after: Seq<u8>, again: Seq<u8>)
    requires
        page_format::well_formed(before),
        compacted(before, after),
        compacted(after, again),
    ensures
        again == after,
{
    let count = page_format::slot_count(before) as int;
    let slots = page_format::slot_states(before, count);
    lemma_compacted(PageId(0), before, after);
    assert(page_format::content(PageId(0), after).slots == slots);
    assert(has_packed_directory(slots, after, after));
    assert(compacted(after, after));
    compaction_is_determined(after, after, again);
}

/// The reserved header fields stay as they are through every operation on rows and
/// links, and are zero in a new heap page.
pub proof fn reserved_fields_stay(
    id: PageId,
    before: Seq<u8>,
    after: Seq<u8>,
    length: int,
    slot: int,
)
    requires
        page_format::well_formed(before),
        page_format::well_formed(after),
        0 <= slot,
    ensures
        compacted(before, after) || inserted(id, before, after, length) || deleted(
            before,
            after,
            slot,
        ) || linked(before, after) ==> reserved_fields(after) == reserved_fields(before),
        reserved_fields(initialized(before)) == Seq::new(14, |i: int| 0u8),
{
    assert(reserved_fields(initialized(before)) =~= Seq::new(14, |i: int| 0u8));
    if compacted(before, after) {
        assert(reserved_fields(after) =~= reserved_fields(before));
    }
    if placed(id, before, after, length) {
        lemma_placed_reserved(id, before, after, length);
    } else if inserted(id, before, after, length) {
        let packed = choose|packed: Seq<u8>|
            #[trigger] compacted(before, packed) && placed(id, packed, after, length);
        lemma_compacted(id, before, packed);
        lemma_placed_reserved(id, packed, after, length);
        assert(reserved_fields(packed) =~= reserved_fields(before));
    }
    if deleted(before, after, slot) {
        assert(reserved_fields(after) =~= reserved_fields(before));
    }
    if linked(before, after) {
        assert(reserved_fields(after) =~= reserved_fields(before));
    }
}

/// A page that was turned into a heap page without slots is well-formed.
pub proof fn lemma_initialized(id: PageId, before: Seq<u8>)
    requires
        before.len() == PAGE_SIZE,
    ensures
        page_format::well_formed(initialized(before)),
        page_format::content(id, initialized(before)) == (page_format::HeapPage {
            id,
            slots: Seq::empty(),
            next: None,
        }),
        page_format::free_start(initialized(before)) == PAGE_HEADER_SIZE,
        page_format::free_end(initialized(before)) == PAGE_SIZE,
{
    let bytes = initialized(before);
    assert(bytes.subrange(MAGIC_OFFSET as int, MAGIC_OFFSET + 4) =~= page_format::MAGIC@);
    assert(page_format::slot_count(bytes) == 0);
    assert(page_format::free_start(bytes) == PAGE_HEADER_SIZE);
    assert(page_format::free_end(bytes) == PAGE_SIZE);
    assert(page_format::live_count(bytes) == 0);
    assert(page_format::next_page(bytes) is None);
    assert(page_format::slot_states(bytes, 0) =~= Seq::empty());
}

proof fn lemma_placed_reserved(id: PageId, before: Seq<u8>, after: Seq<u8>, length: int)
    requires
        page_format::well_formed(before),
        page_format::well_formed(after),
        placed(id, before, after, length),
    ensures
        reserved_fields(after) == reserved_fields(before),
{
    let page = page_format::content(id, before);
    if page.has_reusable() {
        page_lemmas::lemma_target(page);
    }
    assert(reserved_fields(after) =~= reserved_fields(before));
}

proof fn lemma_compacted_slot(bytes: Seq<u8>, after: Seq<u8>, j: int)
    requires
        page_format::well_formed(bytes),
        0 <= j < page_format::slot_count(bytes),
        compacted(bytes, after),
    ensures
        page_format::slot_well_formed(
            page_format::slot(after, j),
            page_format::free_end(after) as int,
        ),
        page_format::slot_state(after, j) == page_format::slot_state(bytes, j),
{
    let count = page_format::slot_count(bytes) as int;
    let slots = page_format::slot_states(bytes, count);
    let entry = page_format::slot(bytes, j);
    page_lemmas::lemma_records_fit(bytes);
    assert(slots.take(count) =~= slots);
    assert(page_format::slot_well_formed(entry, page_format::free_end(bytes) as int));
    page_lemmas::lemma_record_bytes_step(slots, j);
    page_lemmas::lemma_record_bytes_grow(slots, j + 1, count);
    page_lemmas::lemma_record_bytes_grow(slots, 0, j);
    if slots[j] is Live {
        let start = packed_offset(slots, j);
        let end = start + slots[j].record_length();
        assert(after.subrange(start, end) == slots[j]->record);
    }
}

proof fn lemma_compacted_disjoint(bytes: Seq<u8>, after: Seq<u8>, i: int, j: int)
    requires
        page_format::well_formed(bytes),
        0 <= i < j < page_format::slot_count(bytes),
        has_packed_directory(
            page_format::slot_states(bytes, page_format::slot_count(bytes) as int),
            bytes,
            after,
        ),
    ensures
        !page_format::overlap(after, i, j),
{
    let count = page_format::slot_count(bytes) as int;
    let slots = page_format::slot_states(bytes, count);
    page_lemmas::lemma_records_fit(bytes);
    assert(slots.take(count) =~= slots);
    assert(page_format::slot_well_formed(
        page_format::slot(bytes, i),
        page_format::free_end(bytes) as int,
    ));
    assert(page_format::slot_well_formed(
        page_format::slot(bytes, j),
        page_format::free_end(bytes) as int,
    ));
    page_lemmas::lemma_record_bytes_step(slots, i);
    page_lemmas::lemma_record_bytes_step(slots, j);
    page_lemmas::lemma_record_bytes_grow(slots, 0, i);
    page_lemmas::lemma_record_bytes_grow(slots, i + 1, j);
    page_lemmas::lemma_record_bytes_grow(slots, j + 1, count);
}

/// The layout that compaction leaves behind is well-formed and holds the same
/// rows.
pub proof fn lemma_compacted(id: PageId, bytes: Seq<u8>, after: Seq<u8>)
    requires
        page_format::well_formed(bytes),
        compacted(bytes, after),
    ensures
        page_format::well_formed(after),
        page_format::content(id, after) == page_format::content(id, bytes),
        same_reserved(bytes, after),
{
    let count = page_format::slot_count(bytes) as int;
    let slots = page_format::slot_states(bytes, count);
    assert(same_reserved(bytes, after)) by {
        assert(after.subrange(0, SLOT_COUNT_OFFSET as int) =~= bytes.subrange(
            0,
            SLOT_COUNT_OFFSET as int,
        ));
        assert(after.subrange(NEXT_PAGE_ID_OFFSET as int, PAGE_HEADER_SIZE as int)
            =~= bytes.subrange(NEXT_PAGE_ID_OFFSET as int, PAGE_HEADER_SIZE as int));
    }
    assert(after.subrange(MAGIC_OFFSET as int, MAGIC_OFFSET + 4) =~= bytes.subrange(
        MAGIC_OFFSET as int,
        MAGIC_OFFSET + 4,
    ));
    assert(page_format::slot_count(after) == count);
    assert(page_format::free_start(after) == page_format::free_start(bytes));
    assert(page_format::live_count(after) == page_format::live_count(bytes));
    assert(page_format::next_page(after) == page_format::next_page(bytes));
    page_lemmas::lemma_records_fit(bytes);
    assert forall|j: int| 0 <= j < count implies page_format::slot_well_formed(
        #[trigger] page_format::slot(after, j),
        page_format::free_end(after) as int,
    ) by {
        lemma_compacted_slot(bytes, after, j);
    }
    assert(page_format::slot_states(after, count) =~= slots) by {
        assert forall|j: int| 0 <= j < count implies page_format::slot_state(after, j)
            == page_format::slot_state(bytes, j) by {
            lemma_compacted_slot(bytes, after, j);
        }
    }
    assert forall|i: int, j: int| 0 <= i < j < count implies !#[trigger] page_format::overlap(
        after,
        i,
        j,
    ) by {
        lemma_compacted_disjoint(bytes, after, i, j);
    }
}

/// Numbers that are the same are stored in the same bytes.
proof fn lemma_same_u16(one: Seq<u8>, other: Seq<u8>, offset: int)
    requires
        0 <= offset,
        offset + 2 <= one.len(),
        offset + 2 <= other.len(),
        codec::u16_at(one, offset) == codec::u16_at(other, offset),
    ensures
        one[offset] == other[offset],
        one[offset + 1] == other[offset + 1],
{
    codec::lemma_u16_bytes_of_read(one.subrange(offset, offset + 2));
    codec::lemma_u16_bytes_of_read(other.subrange(offset, offset + 2));
    assert(codec::u16_at(one.subrange(offset, offset + 2), 0) == codec::u16_at(one, offset));
    assert(codec::u16_at(other.subrange(offset, offset + 2), 0) == codec::u16_at(other, offset));
    assert(one.subrange(offset, offset + 2) == other.subrange(offset, offset + 2));
    assert(one.subrange(offset, offset + 2)[0] == one[offset]);
    assert(one.subrange(offset, offset + 2)[1] == one[offset + 1]);
    assert(other.subrange(offset, offset + 2)[0] == other[offset]);
    assert(other.subrange(offset, offset + 2)[1] == other[offset + 1]);
}

/// Behind the free space of a compacted page every position belongs to a row.
proof fn lemma_position_is_packed(slots: Seq<SlotState>, count: int, position: int) -> (index: int)
    requires
        0 <= count <= slots.len(),
        PAGE_SIZE - page_format::record_bytes(slots.take(count)) <= position < PAGE_SIZE,
    ensures
        0 <= index < count,
        slots[index] is Live,
        packed_offset(slots, index) <= position < packed_offset(slots, index)
            + slots[index].record_length(),
    decreases count,
{
    if count <= 0 {
        assert(slots.take(0).len() == 0);
        0
    } else {
        page_lemmas::lemma_record_bytes_step(slots, count - 1);
        if position < packed_offset(slots, count - 1) + slots[count - 1].record_length() {
            count - 1
        } else {
            lemma_position_is_packed(slots, count - 1, position)
        }
    }
}

} // verus!
