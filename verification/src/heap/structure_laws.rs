//! What the bytes of a heap page must be, and which of them an operation changes.

use vstd::prelude::*;

use crate::codec;
use crate::storage::{PageId, Rid};

use super::heap_file::InsertStep;
use super::heap_model;
use super::page_format::{self, HeapPage, SlotState};
use super::page_laws;
use super::page_layout;
use super::page_lemmas;
use super::slotted_page::{self, SlottedPageError};

verus! {

/// Whether the directory entry of slot `index` is sound in a page whose row data starts
/// at `data_start`: it is live, of a positive generation, and its row lies in the row
/// data; or it is deleted or retired, and refers to no row.
pub open spec fn is_sound(bytes: Seq<u8>, index: int, data_start: int) -> bool {
    let at = 32 + 8 * index;
    let offset = codec::u16_at(bytes, at);
    let length = codec::u16_at(bytes, at + 2);
    let generation = codec::u16_at(bytes, at + 4);
    let flags = codec::u16_at(bytes, at + 6);
    ||| flags == 1 && generation > 0 && data_start <= offset && offset + length <= 8192
    ||| (flags == 0 || flags == 2) && offset == 0 && length == 0
}

/// Whether the rows of two slots lie apart.
pub open spec fn lie_apart(bytes: Seq<u8>, i: int, j: int) -> bool {
    let first = 32 + 8 * i;
    let second = 32 + 8 * j;
    let first_start = codec::u16_at(bytes, first);
    let first_end = first_start + codec::u16_at(bytes, first + 2);
    let second_start = codec::u16_at(bytes, second);
    let second_end = second_start + codec::u16_at(bytes, second + 2);
    ||| codec::u16_at(bytes, first + 6) != 1
    ||| codec::u16_at(bytes, second + 6) != 1
    ||| first_start == first_end
    ||| second_start == second_end
    ||| first_end <= second_start
    ||| second_end <= first_start
}

/// How many of the first `count` slots hold a row.
pub open spec fn rows_among(bytes: Seq<u8>, count: int) -> int
    decreases count,
{
    if count <= 0 {
        0
    } else {
        rows_among(bytes, count - 1) + if codec::u16_at(bytes, 32 + 8 * (count - 1) + 6) == 1 {
            1int
        } else {
            0int
        }
    }
}

/// A page is a heap page exactly where it starts with `NHPG`, version and kind 1, its
/// directory ends where free space starts and free space ends in the page, each slot is
/// sound, the rows are as many as the header says, and no two of them overlap.
/// Nothing else is asked of it.
pub proof fn heap_pages_have_this_structure(bytes: Seq<u8>)
    requires
        bytes.len() == 8192,
    ensures
        page_format::page_fault(bytes) is None <==> {
            let count = codec::u16_at(bytes, 8) as int;
            let free_end = codec::u16_at(bytes, 12) as int;
            &&& bytes.take(6) == seq![78u8, 72, 80, 71, 1, 1]
            &&& codec::u16_at(bytes, 10) == 32 + 8 * count
            &&& 32 + 8 * count <= free_end <= 8192
            &&& codec::u16_at(bytes, 14) == rows_among(bytes, count)
            &&& forall|i: int| 0 <= i < count ==> #[trigger] is_sound(bytes, i, free_end)
            &&& forall|i: int, j: int| 0 <= i < j < count ==> #[trigger] lie_apart(bytes, i, j)
        },
{
    let count = codec::u16_at(bytes, 8) as int;
    let free_end = codec::u16_at(bytes, 12) as int;
    let magic = bytes.subrange(0, 4);
    assert(bytes.take(6) == seq![78u8, 72, 80, 71, 1, 1] <==> magic == page_format::MAGIC@
        && bytes[4] == 1 && bytes[5] == 1) by {
        if bytes.take(6) == seq![78u8, 72, 80, 71, 1, 1] {
            assert(forall|k: int| 0 <= k < 6 ==> bytes.take(6)[k] == #[trigger] bytes[k]);
            assert(magic =~= page_format::MAGIC@);
        }
        if magic == page_format::MAGIC@ && bytes[4] == 1 && bytes[5] == 1 {
            assert(forall|k: int| 0 <= k < 4 ==> magic[k] == #[trigger] bytes[k]);
            assert(bytes.take(6) =~= seq![78u8, 72, 80, 71, 1, 1]);
        }
    }
    page_lemmas::lemma_directory_fault(bytes, count);
    lemma_rows_among(bytes, count);
    assert forall|i: int| 0 <= i < count implies (page_format::slot_fault(
        #[trigger] page_format::slot(bytes, i),
        free_end,
    ) is None <==> is_sound(bytes, i, free_end)) by {}
    assert forall|i: int, j: int| 0 <= i < j < count implies (!#[trigger] page_format::overlap(
        bytes,
        i,
        j,
    ) <==> lie_apart(bytes, i, j)) by {}
    if page_format::page_fault(bytes) is None {
        assert forall|i: int| 0 <= i < count implies #[trigger] is_sound(bytes, i, free_end) by {
            assert(page_format::slot_fault(page_format::slot(bytes, i), free_end) is None);
        }
        assert forall|i: int, j: int| 0 <= i < j < count implies #[trigger] lie_apart(
            bytes,
            i,
            j,
        ) by {
            assert(!page_format::overlap(bytes, i, j));
        }
    }
    if forall|i: int| 0 <= i < count ==> #[trigger] is_sound(bytes, i, free_end) {
        assert forall|i: int| 0 <= i < count implies page_format::slot_fault(
            #[trigger] page_format::slot(bytes, i),
            free_end,
        ) is None by {
            assert(is_sound(bytes, i, free_end));
        }
    }
    if forall|i: int, j: int| 0 <= i < j < count ==> #[trigger] lie_apart(bytes, i, j) {
        assert forall|i: int, j: int| 0 <= i < j < count implies !#[trigger] page_format::overlap(
            bytes,
            i,
            j,
        ) by {
            assert(lie_apart(bytes, i, j));
        }
    }
}

proof fn lemma_rows_among(bytes: Seq<u8>, count: int)
    requires
        0 <= count,
    ensures
        page_format::live_slots(page_format::slot_states(bytes, count)) == rows_among(bytes, count),
    decreases count,
{
    if count > 0 {
        lemma_rows_among(bytes, count - 1);
        let states = page_format::slot_states(bytes, count);
        assert(states.drop_last() =~= page_format::slot_states(bytes, count - 1));
        assert(states.last() == page_format::slot_state(bytes, count - 1));
    }
}

/// What a page holds is told by its directory: a live slot has the row that its entry
/// refers to, and each slot has its generation. The link is the number in the header,
/// and the largest number is no link.
pub proof fn pages_hold_what_their_directory_says(id: PageId, bytes: Seq<u8>, index: int)
    requires
        0 <= index < codec::u16_at(bytes, 8),
    ensures
        ({
            let page = page_format::content(id, bytes);
            let at = 32 + 8 * index;
            let offset = codec::u16_at(bytes, at) as int;
            let length = codec::u16_at(bytes, at + 2) as int;
            let generation = codec::u16_at(bytes, at + 4);
            let flags = codec::u16_at(bytes, at + 6);
            let link = codec::u32_at(bytes, 16);
            &&& page.id == id
            &&& page.slots.len() == codec::u16_at(bytes, 8)
            &&& page.slots[index] == if flags == 1 {
                SlotState::Live { generation, record: bytes.subrange(offset, offset + length) }
            } else if flags == 2 {
                SlotState::Retired { generation }
            } else {
                SlotState::Reusable { generation }
            }
            &&& page.next is None <==> link == 0xffff_ffff
            &&& page.next matches Some(next) ==> next == PageId(link)
        }),
{
}

/// Bytes of the rows in slots.
pub open spec fn row_bytes(slots: Seq<SlotState>) -> int
    decreases slots.len(),
{
    if slots.len() == 0 {
        0
    } else {
        row_bytes(slots.drop_last()) + match slots.last() {
            SlotState::Live { record, .. } => record.len() as int,
            _ => 0,
        }
    }
}

proof fn lemma_row_bytes(slots: Seq<SlotState>)
    ensures
        page_format::record_bytes(slots) == row_bytes(slots),
        0 <= row_bytes(slots),
    decreases slots.len(),
{
    if slots.len() > 0 {
        lemma_row_bytes(slots.drop_last());
    }
}

/// The bytes of a page that are not free are its header, eight for each slot, and the
/// rows.
pub proof fn free_space_is_what_is_left(page: HeapPage)
    ensures
        page.free_space() == 8192 - 32 - 8 * page.slots.len() - row_bytes(page.slots),
{
    lemma_row_bytes(page.slots);
}

/// Whether a slot waits for its next row.
pub open spec fn waits(state: SlotState) -> bool {
    state is Reusable
}

/// A row goes to the first slot that waits for one, and keeps the generation of the
/// slot; where no slot waits it goes to a new one, of generation 1, which takes up
/// eight bytes more. No other slot changes.
pub proof fn rows_go_to_the_first_slot_that_waits(page: HeapPage, record: Seq<u8>)
    requires
        page.fits(),
    ensures
        ({
            let rid = page.next_rid();
            let slot = rid.slot_id.0 as int;
            let after = page.insert(record);
            &&& rid.page_id == page.id
            &&& after.id == page.id
            &&& after.next == page.next
            &&& forall|i: int| 0 <= i < slot ==> !waits(#[trigger] page.slots[i])
            &&& forall|i: int|
                0 <= i < page.slots.len() && i != slot ==> #[trigger] after.slots[i]
                    == page.slots[i]
            &&& after.slots[slot] == (SlotState::Live { generation: rid.generation, record })
            &&& if slot < page.slots.len() {
                &&& waits(page.slots[slot])
                &&& rid.generation == page.slots[slot].generation()
                &&& page.directory_growth() == 0
                &&& after.slots.len() == page.slots.len()
            } else {
                &&& slot == page.slots.len()
                &&& rid.generation == 1
                &&& page.directory_growth() == 8
                &&& after.slots.len() == page.slots.len() + 1
            }
        }),
{
    lemma_row_bytes(page.slots);
    if page.has_reusable() {
        page_lemmas::lemma_target(page);
    } else {
        assert forall|i: int| 0 <= i < page.slots.len() implies !waits(
            #[trigger] page.slots[i],
        ) by {
            assert(!(page.slots[i] is Reusable));
        }
    }
}

/// A row that cannot be stored is longer than a length can say, or longer than the
/// free space; what is needed and what is free is said then.
pub proof fn insertion_faults_are_true(page: HeapPage, length: int)
    requires
        page.fits(),
        0 <= length <= usize::MAX,
    ensures
        length > 0xffff <==> page.insert_error(length) == Some(
            SlottedPageError::RecordTooLarge { size: length as usize },
        ),
        length <= 0xffff && page.directory_growth() <= page.free_space() < length
            + page.directory_growth() <==> page.insert_error(length) == Some(
            SlottedPageError::NoSpace {
                required: (length + page.directory_growth()) as usize,
                available: page.free_space() as usize,
            },
        ) && page.insert_error(length)->0 is NoSpace,
        page.insert_error(length) matches Some(SlottedPageError::Corrupt(_))
            ==> page.free_space() < page.directory_growth(),
{
    lemma_row_bytes(page.slots);
}

/// A deleted row leaves its slot waiting, of the next generation, or retired where the
/// generation was the last. No other slot changes.
pub proof fn deleted_rows_leave_their_slot(page: HeapPage, rid: Rid)
    requires
        page.is_live(rid),
    ensures
        ({
            let slot = rid.slot_id.0 as int;
            let after = page.delete(rid);
            &&& after.id == page.id
            &&& after.next == page.next
            &&& after.slots.len() == page.slots.len()
            &&& forall|i: int|
                0 <= i < page.slots.len() && i != slot ==> #[trigger] after.slots[i]
                    == page.slots[i]
            &&& rid.generation < 65535 ==> waits(after.slots[slot])
                && after.slots[slot].generation() == rid.generation + 1
            &&& rid.generation == 65535 ==> after.slots[slot] == (SlotState::Retired {
                generation: 65535,
            })
        }),
{
}

/// A row has the identifier of its page, its slot and the generation of the slot, and
/// no other identifier.
pub proof fn rows_have_one_identifier(page: HeapPage, rid: Rid)
    ensures
        page.is_live(rid) <==> {
            &&& rid.page_id == page.id
            &&& rid.slot_id.0 < page.slots.len()
            &&& page.slots[rid.slot_id.0 as int] matches SlotState::Live { generation, record }
                && generation == rid.generation
        },
        page.is_live(rid) ==> page.slots[rid.slot_id.0 as int] == (SlotState::Live {
            generation: rid.generation,
            record: page.record(rid),
        }),
{
}

/// A page is made a heap page without rows by its header alone: what stands behind the
/// header stays.
pub proof fn new_heap_pages_have_a_blank_header(before: Seq<u8>)
    requires
        before.len() == 8192,
    ensures
        page_layout::initialized(before).take(20) == seq![
            78u8,
            72,
            80,
            71,
            1,
            1,
            0,
            0,
            0,
            0,
            32,
            0,
            0,
            32,
            0,
            0,
            255,
            255,
            255,
            255,
        ],
        page_layout::initialized(before).subrange(20, 32) == Seq::new(12, |i: int| 0u8),
        page_layout::initialized(before).skip(32) == before.skip(32),
{
    let after = page_layout::initialized(before);
    assert(after.take(20) =~= seq![
        78u8,
        72,
        80,
        71,
        1,
        1,
        0,
        0,
        0,
        0,
        32,
        0,
        0,
        32,
        0,
        0,
        255,
        255,
        255,
        255,
    ]);
    assert(after.subrange(20, 32) =~= Seq::new(12, |i: int| 0u8));
    assert(after.skip(32) =~= before.skip(32));
}

/// Where the free space between directory and rows is large enough for a row, it is
/// stored right below the other rows, and those do not move.
pub proof fn rows_are_stored_below_the_others(
    id: PageId,
    before: Seq<u8>,
    after: Seq<u8>,
    length: int,
)
    requires
        page_format::well_formed(before),
        page_format::well_formed(after),
        page_layout::inserted(id, before, after, length),
        0 <= length,
        codec::u16_at(before, 12) - codec::u16_at(before, 10) >= length + page_format::content(
            id,
            before,
        ).directory_growth(),
    ensures
        ({
            let slot = page_format::content(id, before).next_rid().slot_id.0 as int;
            let free_end = codec::u16_at(before, 12) as int;
            &&& codec::u16_at(after, 12) == free_end - length
            &&& codec::u16_at(after, 32 + 8 * slot) == free_end - length
            &&& after.skip(free_end) == before.skip(free_end)
            &&& forall|k: int|
                0 <= k < free_end - length && !(8 <= k < 16) && !(32 + 8 * slot <= k < 40 + 8
                    * slot) ==> #[trigger] after[k] == before[k]
        }),
{
    let page = page_format::content(id, before);
    let free_end = codec::u16_at(before, 12) as int;
    if page.has_reusable() {
        page_lemmas::lemma_target(page);
    }
    page_laws::well_formed_pages_fit(id, before);
    lemma_row_bytes(page.slots);
    let target = page.target_slot();
    assert(page_format::slot(after, target).offset == page_format::free_end(after));
    assert(page_format::slot_position(target + 1) <= free_end) by {
        if target < page.slots.len() {
            assert(page_format::slot_position(target + 1) <= page_format::slot_position(
                page.slots.len() as int,
            ));
        }
    }
    assert(after.skip(free_end) =~= before.skip(free_end));
}

/// Where that space is too small but the page has enough free space in all, the page is
/// compacted first, and the row stored below the compacted rows.
pub proof fn pages_are_compacted_for_rows(
    id: PageId,
    before: Seq<u8>,
    after: Seq<u8>,
    length: int,
)
    requires
        page_layout::inserted(id, before, after, length),
        codec::u16_at(before, 12) - codec::u16_at(before, 10) < length + page_format::content(
            id,
            before,
        ).directory_growth(),
    ensures
        exists|packed: Seq<u8>| #[trigger]
            page_layout::compacted(before, packed) && page_layout::placed(
                id,
                packed,
                after,
                length,
            ),
{
}

/// Compaction puts the rows at the end of the page, in the order of their slots from
/// the end towards the front and without gaps, and zeros into the free space. The
/// directory keeps lengths, generations and flags.
pub proof fn compacted_rows_lie_at_the_end(before: Seq<u8>, after: Seq<u8>, index: int)
    requires
        page_format::well_formed(before),
        page_layout::compacted(before, after),
        0 <= index < codec::u16_at(before, 8),
    ensures
        ({
            let slots = page_format::content(PageId(0), before).slots;
            let at = 32 + 8 * index;
            &&& codec::u16_at(after, 12) == 8192 - row_bytes(slots)
            &&& forall|k: int|
                codec::u16_at(before, 10) <= k < codec::u16_at(after, 12) ==> #[trigger] after[k]
                    == 0
            &&& forall|k: int|
                0 <= k < 32 && !(12 <= k < 14) ==> #[trigger] after[k] == before[k]
            &&& codec::u16_at(after, at + 2) == codec::u16_at(before, at + 2)
            &&& codec::u16_at(after, at + 4) == codec::u16_at(before, at + 4)
            &&& codec::u16_at(after, at + 6) == codec::u16_at(before, at + 6)
            &&& slots[index] matches SlotState::Live { record, .. } ==> {
                &&& codec::u16_at(after, at) + record.len() + row_bytes(slots.take(index)) == 8192
                &&& after.subrange(
                    codec::u16_at(after, at) as int,
                    codec::u16_at(after, at) + record.len(),
                ) == record
            }
        }),
{
    let count = codec::u16_at(before, 8) as int;
    let slots = page_format::slot_states(before, count);
    page_lemmas::lemma_records_fit(before);
    lemma_row_bytes(slots);
    lemma_row_bytes(slots.take(index));
    lemma_row_bytes(slots.take(index + 1));
    page_lemmas::lemma_record_bytes_step(slots, index);
    page_lemmas::lemma_record_bytes_grow(slots, index + 1, count);
    assert(slots.take(count) =~= slots);
    assert(page_format::slot(after, index) == if slots[index] is Live {
        page_format::Slot {
            offset: page_layout::packed_offset(slots, index) as u16,
            ..page_format::slot(before, index)
        }
    } else {
        page_format::slot(before, index)
    });
}

/// A deletion changes the number of rows in the header and the entry of the slot, and
/// no other byte.
pub proof fn deletions_change_few_bytes(before: Seq<u8>, after: Seq<u8>, slot: int)
    requires
        page_layout::deleted(before, after, slot),
    ensures
        after.len() == before.len(),
        forall|k: int|
            0 <= k < before.len() && !(14 <= k < 16) && !(32 + 8 * slot <= k < 40 + 8 * slot)
                ==> #[trigger] after[k] == before[k],
{
}

/// Linking a page changes the link in the header, and no other byte. The largest page
/// number stands for no link.
pub proof fn links_change_few_bytes(before: Seq<u8>, after: Seq<u8>, next: PageId)
    requires
        page_layout::linked(before, after),
    ensures
        after.len() == before.len(),
        forall|k: int| 0 <= k < before.len() && !(16 <= k < 20) ==> #[trigger] after[k] == before[k],
        slotted_page::stored_link(None) is None,
        slotted_page::stored_link(Some(next)) == if next.0 == 0xffff_ffff {
            None
        } else {
            Some(next)
        },
{
}

/// The identifiers of the rows of a page are listed by slot, each with its generation.
pub proof fn rows_are_listed_by_slot(page: HeapPage, rid: Rid)
    requires
        page.fits(),
    ensures
        page.live_rids().contains(rid) <==> page.is_live(rid),
        forall|i: int, j: int|
            0 <= i < j < page.live_rids().len() ==> (#[trigger] page.live_rids()[i]).slot_id.0 < (
            #[trigger] page.live_rids()[j]).slot_id.0,
{
    page_laws::live_rids_list_the_rows(page, page.slots.len() as int);
    if page.is_live(rid) {
        assert(page.live_rids_up_to(page.slots.len() as int).contains(rid));
    }
}

/// The space between directory and rows shrinks by what a row takes up; where the page
/// is compacted for it, all the free space lies there before.
pub proof fn contiguous_space_shrinks(id: PageId, bytes: Seq<u8>, length: int)
    ensures
        ({
            let page = page_format::content(id, bytes);
            let between = codec::u16_at(bytes, 12) - codec::u16_at(bytes, 10);
            let needed = length + page.directory_growth();
            slotted_page::contiguous_after_insert(id, bytes, length) + needed == if needed
                <= between {
                between
            } else {
                page.free_space()
            }
        }),
{
}

/// A step of an insertion changes few bytes: those of an insertion into the page that
/// it visits; in a new page the header, the first slot and the row at the end of the
/// page; of the last page the link.
pub proof fn insertion_steps_change_few_bytes(
    step: InsertStep,
    page_id: PageId,
    before: Seq<u8>,
    after: Seq<u8>,
    record: Seq<u8>,
)
    requires
        before.len() == 8192,
        page_format::well_formed(after),
        record.len() <= 8152,
        heap_model::step_layout(step, page_id, before, after, record),
    ensures
        match step {
            InsertStep::Visit(_) => page_layout::inserted(
                page_id,
                before,
                after,
                record.len() as int,
            ),
            InsertStep::Append => {
                &&& after.take(8) == seq![78u8, 72, 80, 71, 1, 1, 0, 0]
                &&& after.subrange(16, 32) == seq![255u8, 255, 255, 255] + Seq::new(12, |i: int| 0u8)
                &&& after.subrange(40, 8192 - record.len()) == before.subrange(
                    40,
                    8192 - record.len(),
                )
            },
            InsertStep::Link(_, _) => {
                &&& after.take(16) == before.take(16)
                &&& after.skip(20) == before.skip(20)
            },
            InsertStep::Inserted(_) => after == before,
        },
{
    match step {
        InsertStep::Append => {
            let blank = page_layout::initialized(before);
            page_layout::lemma_initialized(page_id, before);
            new_heap_pages_have_a_blank_header(before);
            let page = page_format::content(page_id, blank);
            assert(codec::u16_at(blank, 10) == 32 && codec::u16_at(blank, 12) == 8192) by {
                assert(blank[10] == blank.take(20)[10] && blank[11] == blank.take(20)[11]);
                assert(blank[12] == blank.take(20)[12] && blank[13] == blank.take(20)[13]);
            }
            assert(page.slots.len() == 0);
            rows_are_stored_below_the_others(page_id, blank, after, record.len() as int);
            assert(forall|k: int| 0 <= k < 20 ==> blank.take(20)[k] == #[trigger] blank[k]);
            assert(forall|k: int|
                20 <= k < 32 ==> blank.subrange(20, 32)[k - 20] == #[trigger] blank[k]);
            assert(forall|k: int|
                32 <= k < 8192 ==> blank.skip(32)[k - 32] == #[trigger] blank[k] && before.skip(
                    32,
                )[k - 32] == before[k]);
            assert(after.take(8) =~= seq![78u8, 72, 80, 71, 1, 1, 0, 0]);
            assert(after.subrange(16, 32) =~= seq![255u8, 255, 255, 255] + Seq::new(
                12,
                |i: int| 0u8,
            ));
            assert(after.subrange(40, 8192 - record.len()) =~= before.subrange(
                40,
                8192 - record.len(),
            ));
        },
        InsertStep::Link(_, _) => {
            assert(after.take(16) =~= before.take(16));
            assert(after.skip(20) =~= before.skip(20));
        },
        _ => {},
    }
}

/// What is said of a page that is no heap page is the first thing that is wrong with
/// it: the mark at its start, the version, the kind, the end of the directory, the end
/// of free space; and behind the slots the number of rows, and that rows overlap.
pub proof fn page_faults_are_true(bytes: Seq<u8>)
    requires
        bytes.len() == 8192,
    ensures
        ({
            let fault = page_format::page_fault(bytes);
            let count = codec::u16_at(bytes, 8) as int;
            let free_start = codec::u16_at(bytes, 10) as int;
            let free_end = codec::u16_at(bytes, 12) as int;
            let sound = page_format::directory_fault(bytes, count) is None;
            if bytes.take(4) != seq![78u8, 72, 80, 71] {
                fault == Some("invalid heap-page magic")
            } else if bytes[4] != 1 {
                fault == Some("unsupported heap-page version")
            } else if bytes[5] != 1 {
                fault == Some("page is not a heap page")
            } else if free_start != 32 + 8 * count || free_start > 8192 {
                fault == Some("invalid slot-directory boundary")
            } else if free_end < free_start || free_end > 8192 {
                fault == Some("invalid free-space boundary")
            } else if !sound {
                fault == page_format::directory_fault(bytes, count)
            } else if rows_among(bytes, count) != codec::u16_at(bytes, 14) {
                fault == Some("incorrect live slot count")
            } else if exists|i: int, j: int|
                0 <= i < j < count && !#[trigger] lie_apart(bytes, i, j) {
                fault == Some("live records overlap")
            } else {
                fault is None
            }
        }),
{
    let count = codec::u16_at(bytes, 8) as int;
    assert(bytes.subrange(0, 4) =~= bytes.take(4));
    assert(page_format::MAGIC@ =~= seq![78u8, 72, 80, 71]);
    lemma_rows_among(bytes, count);
    if exists|i: int, j: int| 0 <= i < j < count && !#[trigger] lie_apart(bytes, i, j) {
        let (i, j) = choose|i: int, j: int|
            0 <= i < j < count && !#[trigger] lie_apart(bytes, i, j);
        assert(page_format::overlap(bytes, i, j));
    }
    if exists|i: int, j: int| 0 <= i < j < count && #[trigger] page_format::overlap(bytes, i, j) {
        let (i, j) = choose|i: int, j: int|
            0 <= i < j < count && #[trigger] page_format::overlap(bytes, i, j);
        assert(!lie_apart(bytes, i, j));
    }
}

/// The first slot that is not sound decides what is said of the directory: a row of
/// generation zero, a row beyond the page or before the row data, a deleted slot that
/// refers to a row, flags that are not known.
pub proof fn the_first_unsound_slot_decides(bytes: Seq<u8>, index: int, count: int)
    requires
        0 <= index < count,
        page_format::directory_fault(bytes, index) is None,
    ensures
        ({
            let at = 32 + 8 * index;
            let offset = codec::u16_at(bytes, at);
            let length = codec::u16_at(bytes, at + 2);
            let generation = codec::u16_at(bytes, at + 4);
            let flags = codec::u16_at(bytes, at + 6);
            let fault = page_format::directory_fault(bytes, count);
            if flags > 2 {
                fault == Some("invalid slot flags")
            } else if flags != 1 && (offset != 0 || length != 0) {
                fault == Some("non-live slot references record data")
            } else if flags == 1 && generation == 0 {
                fault == Some("live slot has generation zero")
            } else if flags == 1 && offset + length > 8192 {
                fault == Some("record exceeds page boundary")
            } else if flags == 1 && offset < codec::u16_at(bytes, 12) {
                fault == Some("record begins inside free space")
            } else {
                page_format::directory_fault(bytes, index + 1) is None
            }
        }),
{
    if page_format::directory_fault(bytes, index + 1) is Some {
        page_lemmas::lemma_directory_fault_stays(bytes, index + 1, count);
    }
}

} // verus!
