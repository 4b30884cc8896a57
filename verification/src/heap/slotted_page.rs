//! Heap pages: rows of any length behind a directory of slots.

use vstd::prelude::*;

use crate::codec;
use crate::message::{self, Message};
use crate::storage::page;
use crate::storage::{Page, PageError, PageId, Rid, SlotId, PAGE_HEADER_SIZE, PAGE_SIZE};

use super::page_format::{
    self, Slot, CHECKSUM_OFFSET, FLAGS_OFFSET, FORMAT_VERSION, FREE_END_OFFSET, FREE_START_OFFSET,
    HEAP_PAGE_KIND, INVALID_PAGE_ID, LIVE_COUNT_OFFSET, MAGIC, MAGIC_OFFSET, NEXT_PAGE_ID_OFFSET,
    PAGE_KIND_OFFSET, PAGE_LSN_OFFSET, SLOT_COUNT_OFFSET, SLOT_FLAGS, SLOT_GENERATION, SLOT_LIVE,
    SLOT_RECORD_LENGTH, SLOT_RECORD_OFFSET, SLOT_RETIRED, SLOT_REUSABLE, VERSION_OFFSET,
};
use super::page_layout;
use super::page_lemmas;

verus! {

broadcast use page::page_length;

pub const SLOT_ENTRY_SIZE: usize = 8;

/// An owned 8 KiB heap page with a slot directory growing from the front and
/// row data growing from the back.
pub struct SlottedPage {
    page: Page,
}

#[derive(Clone, Debug, PartialEq, Eq)]
pub enum SlottedPageError {
    Page(PageError),
    Corrupt(&'static str),
    RecordTooLarge { size: usize },
    NoSpace { required: usize, available: usize },
    InvalidRid(Rid),
}

fn header_u16(page: &Page, offset: usize) -> (value: u16)
    requires
        offset + 2 <= PAGE_SIZE,
    ensures
        value == codec::u16_at(page@, offset as int),
{
    page.read_u16(offset).unwrap()
}

fn write_header_u16(page: &mut Page, offset: usize, value: u16)
    requires
        offset + 2 <= PAGE_SIZE,
    ensures
        final(page).spec_id() == old(page).spec_id(),
        final(page).spec_dirty(),
        codec::u16_at(final(page)@, offset as int) == value,
        page_layout::same_outside(old(page)@, final(page)@, offset as int, offset + 2),
{
    page.write_u16(offset, value).unwrap();
    proof {
        codec::lemma_u16_round_trip(value);
        assert(page@[offset as int] == codec::u16_bytes(value)[0]);
        assert(page@[offset + 1] == codec::u16_bytes(value)[1]);
    }
}

fn slot_offset(slot: u16) -> (offset: usize)
    ensures
        offset == page_format::slot_position(slot as int),
{
    PAGE_HEADER_SIZE + slot as usize * SLOT_ENTRY_SIZE
}

fn read_slot(page: &Page, slot: u16) -> (entry: Slot)
    requires
        page_format::slot_position(slot + 1) <= PAGE_SIZE,
    ensures
        entry == page_format::slot(page@, slot as int),
{
    let position: usize = slot_offset(slot);
    Slot {
        offset: header_u16(page, position + SLOT_RECORD_OFFSET),
        length: header_u16(page, position + SLOT_RECORD_LENGTH),
        generation: header_u16(page, position + SLOT_GENERATION),
        flags: header_u16(page, position + SLOT_FLAGS),
    }
}

fn write_slot(page: &mut Page, slot: u16, entry: Slot)
    requires
        page_format::slot_position(slot + 1) <= PAGE_SIZE,
    ensures
        final(page).spec_id() == old(page).spec_id(),
        final(page).spec_dirty(),
        page_format::slot(final(page)@, slot as int) == entry,
        page_layout::same_outside(
            old(page)@,
            final(page)@,
            page_format::slot_position(slot as int),
            page_format::slot_position(slot + 1),
        ),
{
    let position: usize = slot_offset(slot);
    write_header_u16(page, position + SLOT_RECORD_OFFSET, entry.offset);
    write_header_u16(page, position + SLOT_RECORD_LENGTH, entry.length);
    write_header_u16(page, position + SLOT_GENERATION, entry.generation);
    write_header_u16(page, position + SLOT_FLAGS, entry.flags);
}

/// Position of the first reusable slot.
fn find_reusable_slot(page: &Page) -> (result: Option<u16>)
    requires
        page_format::well_formed(page@),
    ensures
        match result {
            Some(slot) => page_format::content(page.spec_id(), page@).is_first_reusable(
                slot as int,
            ),
            None => !page_format::content(page.spec_id(), page@).has_reusable(),
        },
{
    let ghost heap_page = page_format::content(page.spec_id(), page@);
    let count: u16 = header_u16(page, SLOT_COUNT_OFFSET);
    let mut slot: u16 = 0;
    while slot < count
        invariant
            slot <= count,
            page_format::well_formed(page@),
            count == page_format::slot_count(page@),
            heap_page == page_format::content(page.spec_id(), page@),
            forall|j: int| 0 <= j < slot ==> !(#[trigger] heap_page.slots[j] is Reusable),
        decreases count - slot,
    {
        let entry = read_slot(page, slot);
        assert(page_format::slot_well_formed(
            page_format::slot(page@, slot as int),
            page_format::free_end(page@) as int,
        ));
        if entry.flags == SLOT_REUSABLE {
            assert(heap_page.slots[slot as int] is Reusable);
            return Some(slot);
        }
        slot += 1;
    }
    None
}

/// Bytes of row data in the page.
fn live_bytes(page: &Page) -> (total: usize)
    requires
        page_format::well_formed(page@),
    ensures
        total == page_format::record_bytes(page_format::content(page.spec_id(), page@).slots),
        total <= PAGE_SIZE - page_format::free_end(page@),
{
    let ghost slots = page_format::content(page.spec_id(), page@).slots;
    proof {
        page_lemmas::lemma_records_fit(page@);
        assert(slots.take(slots.len() as int) =~= slots);
    }
    let count: u16 = header_u16(page, SLOT_COUNT_OFFSET);
    let mut total: usize = 0;
    let mut slot: u16 = 0;
    while slot < count
        invariant
            slot <= count,
            page_format::well_formed(page@),
            count == page_format::slot_count(page@),
            slots == page_format::content(page.spec_id(), page@).slots,
            page_format::record_bytes(slots.take(slots.len() as int)) <= PAGE_SIZE,
            total == page_format::record_bytes(slots.take(slot as int)),
        decreases count - slot,
    {
        let entry = read_slot(page, slot);
        proof {
            assert(page_format::slot_well_formed(
                page_format::slot(page@, slot as int),
                page_format::free_end(page@) as int,
            ));
            page_lemmas::lemma_record_bytes_step(slots, slot as int);
            page_lemmas::lemma_record_bytes_grow(slots, slot + 1, slots.len() as int);
        }
        if entry.flags == SLOT_LIVE {
            total += entry.length as usize;
        }
        slot += 1;
    }
    total
}

/// Copies `source` into `target` from `offset` on.
fn copy_into(target: &mut [u8; PAGE_SIZE], offset: usize, source: &[u8])
    requires
        offset + source@.len() <= PAGE_SIZE,
    ensures
        final(target)@ == codec::splice(old(target)@, offset as int, source@),
{
    let mut i: usize = 0;
    while i < source.len()
        invariant
            i <= source@.len(),
            offset + source@.len() <= PAGE_SIZE,
            target@ =~= codec::splice(old(target)@, offset as int, source@.take(i as int)),
        decreases source@.len() - i,
    {
        target[offset + i] = source[i];
        i += 1;
    }
    assert(source@.take(i as int) =~= source@);
}

/// The rows of a well-formed page, packed against the end of a blank one.
fn pack_records(page: &Page) -> (packed: [u8; PAGE_SIZE])
    requires
        page_format::well_formed(page@),
    ensures
        ({
            let slots = page_format::content(page.spec_id(), page@).slots;
            &&& page_layout::holds_packed(slots, packed@, slots.len() as int)
            &&& forall|k: int|
                0 <= k < PAGE_SIZE - page_format::record_bytes(slots) ==> #[trigger] packed@[k] == 0
        }),
{
    let ghost slots = page_format::content(page.spec_id(), page@).slots;
    proof {
        page_lemmas::lemma_records_fit(page@);
        assert(slots.take(slots.len() as int) =~= slots);
    }
    let count: u16 = header_u16(page, SLOT_COUNT_OFFSET);
    let mut packed: [u8; PAGE_SIZE] = [0u8; PAGE_SIZE];
    let mut target_end: usize = PAGE_SIZE;
    let mut slot: u16 = 0;
    while slot < count
        invariant
            slot <= count,
            page_format::well_formed(page@),
            count == page_format::slot_count(page@),
            slots == page_format::content(page.spec_id(), page@).slots,
            page_format::record_bytes(slots.take(slots.len() as int)) <= PAGE_SIZE,
            target_end == PAGE_SIZE - page_format::record_bytes(slots.take(slot as int)),
            page_layout::holds_packed(slots, packed@, slot as int),
            forall|k: int| 0 <= k < target_end ==> #[trigger] packed@[k] == 0,
        decreases count - slot,
    {
        let entry = read_slot(page, slot);
        let ghost before = packed@;
        proof {
            assert(page_format::slot_well_formed(
                page_format::slot(page@, slot as int),
                page_format::free_end(page@) as int,
            ));
            page_lemmas::lemma_record_bytes_step(slots, slot as int);
            page_lemmas::lemma_record_bytes_grow(slots, slot + 1, slots.len() as int);
            page_lemmas::lemma_record_bytes_grow(slots, 0, slot as int);
        }
        if entry.flags == SLOT_LIVE {
            target_end -= entry.length as usize;
            let record = page.read(entry.offset as usize, entry.length as usize).unwrap();
            copy_into(&mut packed, target_end, record);
            proof {
                assert(target_end == page_layout::packed_offset(slots, slot as int));
                assert(packed@.subrange(
                    target_end as int,
                    target_end + slots[slot as int].record_length(),
                ) =~= slots[slot as int]->record);
                assert forall|k: int| 0 <= k < slot && #[trigger] slots[k] is Live implies
                    packed@.subrange(
                    page_layout::packed_offset(slots, k),
                    page_layout::packed_offset(slots, k) + slots[k].record_length(),
                ) == slots[k]->record by {
                    page_lemmas::lemma_record_bytes_step(slots, k);
                    page_lemmas::lemma_record_bytes_grow(slots, k + 1, slot as int);
                    page_lemmas::lemma_record_bytes_grow(slots, 0, k);
                    assert(packed@.subrange(
                        page_layout::packed_offset(slots, k),
                        page_layout::packed_offset(slots, k) + slots[k].record_length(),
                    ) =~= before.subrange(
                        page_layout::packed_offset(slots, k),
                        page_layout::packed_offset(slots, k) + slots[k].record_length(),
                    ));
                }
            }
        }
        slot += 1;
    }
    packed
}

/// Rewrites the rows contiguously at the end of the page. Slots and their
/// generations stay as they are.
fn compact_page(page: &mut Page)
    requires
        page_format::well_formed(old(page)@),
    ensures
        page_format::well_formed(final(page)@),
        final(page).spec_id() == old(page).spec_id(),
        final(page).spec_dirty(),
        page_format::content(final(page).spec_id(), final(page)@) == page_format::content(
            old(page).spec_id(),
            old(page)@,
        ),
        page_layout::same_reserved(old(page)@, final(page)@),
        page_layout::compacted(old(page)@, final(page)@),
        page_format::free_end(final(page)@) - page_format::free_start(final(page)@)
            == page_format::content(old(page).spec_id(), old(page)@).free_space(),
{
    let ghost bytes = page@;
    let ghost heap_page = page_format::content(page.spec_id(), page@);
    let ghost slots = heap_page.slots;
    proof {
        page_lemmas::lemma_records_fit(bytes);
        assert(slots.take(slots.len() as int) =~= slots);
    }
    let free_start: usize = header_u16(page, FREE_START_OFFSET) as usize;
    let count: u16 = header_u16(page, SLOT_COUNT_OFFSET);
    let packed = pack_records(page);
    page.write(free_start, &packed[free_start..PAGE_SIZE]).unwrap();

    let ghost moved = page@;
    proof {
        assert forall|j: int| 0 <= j < count implies #[trigger] page_format::slot(moved, j)
            == page_format::slot(bytes, j) by {}
    }
    let mut target_end: usize = PAGE_SIZE;
    let mut slot: u16 = 0;
    while slot < count
        invariant
            slot <= count,
            page_format::well_formed(bytes),
            count == page_format::slot_count(bytes),
            slots == page_format::slot_states(bytes, count as int),
            page_format::record_bytes(slots.take(slots.len() as int)) <= PAGE_SIZE,
            target_end == PAGE_SIZE - page_format::record_bytes(slots.take(slot as int)),
            page.spec_id() == old(page).spec_id(),
            page.spec_dirty(),
            page_layout::same_outside(moved, page@, PAGE_HEADER_SIZE as int, page_format::slot_position(count as int)),
            forall|j: int|
                slot <= j < count ==> #[trigger] page_format::slot(page@, j) == page_format::slot(
                    bytes,
                    j,
                ),
            forall|j: int|
                0 <= j < slot ==> #[trigger] page_format::slot(page@, j) == (if slots[j] is Live {
                    Slot { offset: page_layout::packed_offset(slots, j) as u16, ..page_format::slot(bytes, j) }
                } else {
                    page_format::slot(bytes, j)
                }),
        decreases count - slot,
    {
        let entry = read_slot(page, slot);
        let ghost before = page@;
        proof {
            assert(page_format::slot_well_formed(
                page_format::slot(bytes, slot as int),
                page_format::free_end(bytes) as int,
            ));
            page_lemmas::lemma_record_bytes_step(slots, slot as int);
            page_lemmas::lemma_record_bytes_grow(slots, slot + 1, slots.len() as int);
        }
        if entry.flags == SLOT_LIVE {
            target_end -= entry.length as usize;
            write_slot(page, slot, Slot { offset: target_end as u16, ..entry });
            proof {
                assert forall|j: int| 0 <= j < count && j != slot implies #[trigger]
                    page_format::slot(page@, j) == page_format::slot(before, j) by {}
            }
        }
        slot += 1;
    }
    let ghost relocated = page@;
    write_header_u16(page, FREE_END_OFFSET, target_end as u16);
    proof {
        assert forall|j: int| 0 <= j < count implies #[trigger] page_format::slot(page@, j)
            == page_format::slot(relocated, j) by {}
        lemma_rows_packed(bytes, packed@, page@);
        assert(page_layout::compacted(bytes, page@));
        page_layout::lemma_compacted(old(page).spec_id(), bytes, page@);
    }
}

/// Rows that are packed in `packed` are packed in a page with the same bytes behind
/// its directory.
proof fn lemma_rows_packed(bytes: Seq<u8>, packed: Seq<u8>, after: Seq<u8>)
    requires
        page_format::well_formed(bytes),
        packed.len() == PAGE_SIZE,
        after.len() == PAGE_SIZE,
        ({
            let slots = page_format::slot_states(bytes, page_format::slot_count(bytes) as int);
            page_layout::holds_packed(slots, packed, slots.len() as int)
        }),
        forall|k: int|
            page_format::free_start(bytes) <= k < PAGE_SIZE ==> #[trigger] after[k] == packed[k],
    ensures
        ({
            let slots = page_format::slot_states(bytes, page_format::slot_count(bytes) as int);
            page_layout::holds_packed(slots, after, slots.len() as int)
        }),
{
    let count = page_format::slot_count(bytes) as int;
    let slots = page_format::slot_states(bytes, count);
    page_lemmas::lemma_records_fit(bytes);
    assert(slots.take(count) =~= slots);
    assert forall|k: int| 0 <= k < count && #[trigger] slots[k] is Live implies after.subrange(
        page_layout::packed_offset(slots, k),
        page_layout::packed_offset(slots, k) + slots[k].record_length(),
    ) == slots[k]->record by {
        let start = page_layout::packed_offset(slots, k);
        let end = start + slots[k].record_length();
        page_lemmas::lemma_record_bytes_step(slots, k);
        page_lemmas::lemma_record_bytes_grow(slots, 0, k);
        page_lemmas::lemma_record_bytes_grow(slots, k + 1, count);
        assert(after.subrange(start, end) =~= packed.subrange(start, end));
    }
}

/// Contiguous free space after a row of `length` bytes was stored.
pub open spec fn contiguous_after_insert(id: PageId, bytes: Seq<u8>, length: int) -> int {
    let heap_page = page_format::content(id, bytes);
    let required = length + heap_page.directory_growth();
    let contiguous = page_format::free_end(bytes) - page_format::free_start(bytes);
    if contiguous < required {
        heap_page.free_space() - required
    } else {
        contiguous - required
    }
}

/// There is only one first reusable slot.
proof fn lemma_first_reusable(heap_page: page_format::HeapPage, slot: int)
    requires
        heap_page.is_first_reusable(slot),
    ensures
        heap_page.has_reusable(),
        heap_page.target_slot() == slot,
{
    assert(heap_page.slots[slot] is Reusable);
    let chosen = choose|i: int| heap_page.is_first_reusable(i);
    assert(heap_page.is_first_reusable(chosen));
    assert(heap_page.slots[chosen] is Reusable);
    if chosen < slot {
        assert(!(heap_page.slots[chosen] is Reusable));
    }
    if slot < chosen {
        assert(!(heap_page.slots[slot] is Reusable));
    }
}

/// Writing a row below the packed ones and its entry into the directory gives
/// the page after the insertion.
proof fn lemma_inserted(id: PageId, bytes: Seq<u8>, after: Seq<u8>, record: Seq<u8>)
    requires
        page_format::well_formed(bytes),
        after.len() == PAGE_SIZE,
        ({
            let heap_page = page_format::content(id, bytes);
            let target = heap_page.target_slot();
            let start = page_format::free_end(bytes) - record.len();
            let directory_end = page_format::free_start(bytes) + heap_page.directory_growth();
            &&& record.len() <= 0xffff
            &&& directory_end <= start
            &&& forall|k: int|
                0 <= k < PAGE_HEADER_SIZE && !(SLOT_COUNT_OFFSET <= k < NEXT_PAGE_ID_OFFSET)
                    ==> #[trigger] after[k] == bytes[k]
            &&& forall|k: int|
                start <= k < page_format::free_end(bytes) ==> #[trigger] after[k] == record[k - start]
            &&& forall|k: int|
                page_format::free_end(bytes) <= k < PAGE_SIZE ==> #[trigger] after[k] == bytes[k]
            &&& page_format::slot_count(after) == heap_page.insert(record).slots.len()
            &&& page_format::free_start(after) == directory_end
            &&& page_format::free_end(after) == start
            &&& page_format::live_count(after) == page_format::live_count(bytes) + 1
            &&& page_format::slot(after, target) == (Slot {
                offset: start as u16,
                length: record.len() as u16,
                generation: heap_page.target_generation(),
                flags: SLOT_LIVE,
            })
            &&& forall|j: int|
                0 <= j < page_format::slot_count(bytes) && j != target ==> #[trigger] page_format::slot(
                    after,
                    j,
                ) == page_format::slot(bytes, j)
        }),
    ensures
        page_format::well_formed(after),
        page_format::content(id, after) == page_format::content(id, bytes).insert(record),
        page_layout::same_reserved(bytes, after),
{
    let heap_page = page_format::content(id, bytes);
    let target = heap_page.target_slot();
    let count = page_format::slot_count(bytes) as int;
    let start = page_format::free_end(bytes) - record.len();
    let inserted = heap_page.insert(record);
    if heap_page.has_reusable() {
        page_lemmas::lemma_target(heap_page);
    }
    assert(page_layout::same_reserved(bytes, after)) by {
        assert(after.subrange(0, SLOT_COUNT_OFFSET as int) =~= bytes.subrange(
            0,
            SLOT_COUNT_OFFSET as int,
        ));
        assert(after.subrange(NEXT_PAGE_ID_OFFSET as int, PAGE_HEADER_SIZE as int)
            =~= bytes.subrange(NEXT_PAGE_ID_OFFSET as int, PAGE_HEADER_SIZE as int));
    }
    assert(after.subrange(MAGIC_OFFSET as int, MAGIC_OFFSET + 4) =~= bytes.subrange(
        MAGIC_OFFSET as int,
        MAGIC_OFFSET + 4,
    ));
    assert(page_format::next_page(after) == page_format::next_page(bytes));
    assert forall|j: int| 0 <= j < inserted.slots.len() implies page_format::slot_well_formed(
        #[trigger] page_format::slot(after, j),
        start,
    ) && page_format::slot_state(after, j) == inserted.slots[j] by {
        if j == target {
            assert(after.subrange(start, start + record.len()) =~= record);
        } else {
            let entry = page_format::slot(bytes, j);
            assert(page_format::slot_well_formed(entry, page_format::free_end(bytes) as int));
            assert(page_format::slot(after, j) == entry);
            if entry.flags == SLOT_LIVE {
                assert(after.subrange(entry.offset as int, entry.offset + entry.length)
                    =~= bytes.subrange(entry.offset as int, entry.offset + entry.length));
            }
        }
    }
    assert(page_format::slot_states(after, inserted.slots.len() as int) =~= inserted.slots);
    if heap_page.has_reusable() {
        page_lemmas::lemma_sums_after_update(
            heap_page.slots,
            target,
            inserted.slots[target],
        );
    } else {
        assert(inserted.slots.drop_last() =~= heap_page.slots);
    }
    assert forall|i: int, j: int|
        0 <= i < j < inserted.slots.len() implies !#[trigger] page_format::overlap(after, i, j) by {
        if i != target && j != target {
            assert(page_format::slot(after, i) == page_format::slot(bytes, i));
            assert(page_format::slot(after, j) == page_format::slot(bytes, j));
            assert(!page_format::overlap(bytes, i, j));
        } else {
            let other = if i == target {
                j
            } else {
                i
            };
            assert(page_format::slot(after, other) == page_format::slot(bytes, other));
            assert(page_format::slot_well_formed(
                page_format::slot(bytes, other),
                page_format::free_end(bytes) as int,
            ));
        }
    }
}

/// Stores `record` just below the row data, where the contiguous free space is
/// large enough for it.
fn place_record(page: &mut Page, reusable_slot: Option<u16>, record: &[u8]) -> (rid: Rid)
    requires
        page_format::well_formed(old(page)@),
        ({
            let before = page_format::content(old(page).spec_id(), old(page)@);
            &&& record@.len() <= 0xffff
            &&& record@.len() + before.directory_growth() <= page_format::free_end(old(page)@)
                - page_format::free_start(old(page)@)
            &&& match reusable_slot {
                Some(slot) => before.is_first_reusable(slot as int),
                None => !before.has_reusable(),
            }
        }),
    ensures
        page_format::well_formed(final(page)@),
        final(page).spec_id() == old(page).spec_id(),
        final(page).spec_dirty(),
        page_layout::same_reserved(old(page)@, final(page)@),
        page_layout::placed(
            old(page).spec_id(),
            old(page)@,
            final(page)@,
            record@.len() as int,
        ),
        ({
            let before = page_format::content(old(page).spec_id(), old(page)@);
            &&& rid == before.next_rid()
            &&& page_format::content(final(page).spec_id(), final(page)@) == before.insert(record@)
            &&& page_format::free_end(final(page)@) - page_format::free_start(final(page)@)
                == page_format::free_end(old(page)@) - page_format::free_start(old(page)@)
                - record@.len() - before.directory_growth()
        }),
{
    let ghost bytes = page@;
    let ghost heap_page = page_format::content(page.spec_id(), page@);
    let ghost target = heap_page.target_slot();
    proof {
        page_lemmas::lemma_live_slots_bounds(heap_page.slots);
        if let Some(slot) = reusable_slot {
            lemma_first_reusable(heap_page, slot as int);
        }
    }
    let slot: u16 = match reusable_slot {
        Some(slot) => slot,
        None => header_u16(page, SLOT_COUNT_OFFSET),
    };
    let generation: u16 = match reusable_slot {
        Some(slot) => read_slot(page, slot).generation,
        None => 1,
    };
    assert(slot == target && generation == heap_page.target_generation());
    let record_offset: usize = header_u16(page, FREE_END_OFFSET) as usize - record.len();
    let live: u16 = header_u16(page, LIVE_COUNT_OFFSET);
    page.write(record_offset, record).unwrap();
    let ghost written = page@;
    assert(page_layout::same_outside(bytes, written, record_offset as int, page_format::free_end(bytes) as int));
    assert forall|j: int| 0 <= j < page_format::slot_count(bytes) implies #[trigger]
        page_format::slot(written, j) == page_format::slot(bytes, j) by {}
    write_slot(
        page,
        slot,
        Slot {
            offset: record_offset as u16,
            length: record.len() as u16,
            generation,
            flags: SLOT_LIVE,
        },
    );
    let ghost entered = page@;
    assert forall|j: int| 0 <= j < page_format::slot_count(bytes) && j != target implies #[trigger]
        page_format::slot(entered, j) == page_format::slot(bytes, j) by {
        assert(page_format::slot(entered, j) == page_format::slot(written, j));
    }
    if reusable_slot.is_none() {
        write_header_u16(page, SLOT_COUNT_OFFSET, slot + 1);
        write_header_u16(page, FREE_START_OFFSET, slot_offset(slot + 1) as u16);
    }
    write_header_u16(page, FREE_END_OFFSET, record_offset as u16);
    write_header_u16(page, LIVE_COUNT_OFFSET, live + 1);
    proof {
        assert(page_layout::same_outside(
            entered,
            page@,
            SLOT_COUNT_OFFSET as int,
            NEXT_PAGE_ID_OFFSET as int,
        ));
        assert forall|j: int| 0 <= j && page_format::slot_position(j + 1) <= PAGE_SIZE implies #[trigger]
            page_format::slot(page@, j) == page_format::slot(entered, j) by {}
        lemma_inserted(old(page).spec_id(), bytes, page@, record@);
    }
    Rid::new(page.id(), SlotId::new(slot), generation)
}

/// Stores `record` in the page: in the first reusable slot, or else in a new
/// one. Compacts the page where the contiguous free space alone is too small.
pub(super) fn insert_record(page: &mut Page, record: &[u8]) -> (result: Result<Rid, SlottedPageError>)
    requires
        page_format::well_formed(old(page)@),
    ensures
        page_format::well_formed(final(page)@),
        final(page).spec_id() == old(page).spec_id(),
        ({
            let before = page_format::content(old(page).spec_id(), old(page)@);
            match before.insert_error(record@.len() as int) {
                Some(error) => result == Err::<Rid, _>(error) && *final(page) == *old(page),
                None => {
                    &&& result == Ok::<_, SlottedPageError>(before.next_rid())
                    &&& page_format::content(final(page).spec_id(), final(page)@) == before.insert(
                        record@,
                    )
                    &&& final(page).spec_dirty()
                    &&& page_layout::same_reserved(old(page)@, final(page)@)
                    &&& page_layout::inserted(
                        old(page).spec_id(),
                        old(page)@,
                        final(page)@,
                        record@.len() as int,
                    )
                    &&& page_format::free_end(final(page)@) - page_format::free_start(final(page)@)
                        == contiguous_after_insert(old(page).spec_id(), old(page)@, record@.len() as int)
                },
            }
        }),
{
    let ghost heap_page = page_format::content(page.spec_id(), page@);
    if record.len() > 0xffff {
        return Err(SlottedPageError::RecordTooLarge { size: record.len() });
    }
    let reusable_slot = find_reusable_slot(page);
    let needs_new_slot = reusable_slot.is_none();
    let directory_growth: usize = if needs_new_slot {
        SLOT_ENTRY_SIZE
    } else {
        0
    };
    let required: usize = record.len() + directory_growth;
    let free_start: usize = header_u16(page, FREE_START_OFFSET) as usize;
    let contiguous: usize = header_u16(page, FREE_END_OFFSET) as usize - free_start;
    proof {
        page_lemmas::lemma_records_fit(page@);
        if let Some(slot) = reusable_slot {
            lemma_first_reusable(heap_page, slot as int);
        }
    }
    if contiguous < required {
        let available: usize = PAGE_SIZE - free_start - live_bytes(page);
        if available < directory_growth {
            return Err(
                SlottedPageError::Corrupt("page metadata and live records exceed page size"),
            );
        }
        if available - directory_growth < record.len() {
            return Err(SlottedPageError::NoSpace { required, available });
        }
        compact_page(page);
    }
    Ok(place_record(page, reusable_slot, record))
}

/// Whether some row among those of the first `count` slots covers `position`.
spec fn is_covered(bytes: Seq<u8>, count: int, position: int) -> bool {
    exists|i: int|
        0 <= i < count && {
            let entry = #[trigger] page_format::slot(bytes, i);
            entry.flags == SLOT_LIVE && entry.offset <= position < entry.offset + entry.length
        }
}

/// Whether two rows among those of the first `count` slots overlap.
spec fn has_overlap(bytes: Seq<u8>, count: int) -> bool {
    exists|i: int, j: int| 0 <= i < j < count && #[trigger] page_format::overlap(bytes, i, j)
}

/// A further row overlaps an earlier one exactly where it covers a position
/// that is covered already.
proof fn lemma_overlap_step(bytes: Seq<u8>, index: int)
    requires
        0 <= index,
        page_format::slot(bytes, index).flags == SLOT_LIVE,
    ensures
        has_overlap(bytes, index + 1) <==> has_overlap(bytes, index) || exists|p: int|
            page_format::slot(bytes, index).offset <= p < page_format::slot(bytes, index).offset
                + page_format::slot(bytes, index).length && #[trigger] is_covered(bytes, index, p),
{
    let entry = page_format::slot(bytes, index);
    if has_overlap(bytes, index + 1) {
        let (i, j) = choose|i: int, j: int|
            0 <= i < j < index + 1 && #[trigger] page_format::overlap(bytes, i, j);
        if j < index {
            assert(page_format::overlap(bytes, i, j));
        } else {
            let other = page_format::slot(bytes, i);
            let p = if other.offset < entry.offset {
                entry.offset as int
            } else {
                other.offset as int
            };
            assert(is_covered(bytes, index, p));
        }
    }
    if has_overlap(bytes, index) {
        let (i, j) = choose|i: int, j: int|
            0 <= i < j < index && #[trigger] page_format::overlap(bytes, i, j);
        assert(page_format::overlap(bytes, i, j));
    }
    if exists|p: int|
        entry.offset <= p < entry.offset + entry.length && #[trigger] is_covered(bytes, index, p) {
        let p = choose|p: int|
            entry.offset <= p < entry.offset + entry.length && #[trigger] is_covered(
                bytes,
                index,
                p,
            );
        let i = choose|i: int|
            0 <= i < index && {
                let other = #[trigger] page_format::slot(bytes, i);
                other.flags == SLOT_LIVE && other.offset <= p < other.offset + other.length
            };
        assert(page_format::overlap(bytes, i, index));
    }
}

/// Checks that the page is a valid heap page.
pub(super) fn validate(page: &Page) -> (result: Result<(), SlottedPageError>)
    ensures
        result == match page_format::page_fault(page@) {
            Some(fault) => Err(SlottedPageError::Corrupt(fault)),
            None => Ok(()),
        },
{
    let ghost bytes = page@;
    let header = page.as_bytes();
    if !(header[MAGIC_OFFSET] == MAGIC[0] && header[MAGIC_OFFSET + 1] == MAGIC[1]
        && header[MAGIC_OFFSET + 2] == MAGIC[2] && header[MAGIC_OFFSET + 3] == MAGIC[3]) {
        proof {
            let magic = bytes.subrange(MAGIC_OFFSET as int, MAGIC_OFFSET + 4);
            assert(magic[0] == header[MAGIC_OFFSET as int]);
            assert(magic[1] == header[MAGIC_OFFSET + 1]);
            assert(magic[2] == header[MAGIC_OFFSET + 2]);
            assert(magic[3] == header[MAGIC_OFFSET + 3]);
        }
        return Err(SlottedPageError::Corrupt("invalid heap-page magic"));
    }
    assert(bytes.subrange(MAGIC_OFFSET as int, MAGIC_OFFSET + 4) =~= MAGIC@);
    if header[VERSION_OFFSET] != FORMAT_VERSION {
        return Err(SlottedPageError::Corrupt("unsupported heap-page version"));
    }
    if header[PAGE_KIND_OFFSET] != HEAP_PAGE_KIND {
        return Err(SlottedPageError::Corrupt("page is not a heap page"));
    }
    let count: u16 = header_u16(page, SLOT_COUNT_OFFSET);
    let free_start: usize = header_u16(page, FREE_START_OFFSET) as usize;
    let free_end: usize = header_u16(page, FREE_END_OFFSET) as usize;
    if free_start != slot_offset(count) || free_start > PAGE_SIZE {
        return Err(SlottedPageError::Corrupt("invalid slot-directory boundary"));
    }
    if free_end < free_start || free_end > PAGE_SIZE {
        return Err(SlottedPageError::Corrupt("invalid free-space boundary"));
    }
    let ghost slots = page_format::slot_states(bytes, count as int);
    let mut observed_live: u16 = 0;
    let mut overlapping = false;
    let mut taken: [bool; PAGE_SIZE] = [false; PAGE_SIZE];
    let mut slot: u16 = 0;
    while slot < count
        invariant
            slot <= count,
            bytes == page@,
            count == page_format::slot_count(bytes),
            page_format::slot_position(count as int) <= PAGE_SIZE,
            free_end == page_format::free_end(bytes),
            slots == page_format::slot_states(bytes, count as int),
            page_format::directory_fault(bytes, count as int) is Some ==> page_format::page_fault(
                bytes,
            ) == page_format::directory_fault(bytes, count as int),
            page_format::directory_fault(bytes, slot as int) is None,
            observed_live <= slot,
            observed_live == page_format::live_slots(slots.take(slot as int)),
            forall|p: int|
                0 <= p < PAGE_SIZE ==> #[trigger] taken@[p] == is_covered(bytes, slot as int, p),
            overlapping == has_overlap(bytes, slot as int),
        decreases count - slot,
    {
        let entry = read_slot(page, slot);
        let ghost fault = page_format::slot_fault(entry, free_end as int);
        proof {
            page_lemmas::lemma_record_bytes_step(slots, slot as int);
            if fault is Some {
                assert(page_format::directory_fault(bytes, slot + 1) == fault);
                page_lemmas::lemma_directory_fault_stays(bytes, slot + 1, count as int);
            }
        }
        if entry.flags == SLOT_LIVE {
            if entry.generation == 0 {
                return Err(SlottedPageError::Corrupt("live slot has generation zero"));
            }
            let start: usize = entry.offset as usize;
            let end: usize = start + entry.length as usize;
            if end > PAGE_SIZE {
                return Err(SlottedPageError::Corrupt("record exceeds page boundary"));
            }
            if start < free_end {
                return Err(SlottedPageError::Corrupt("record begins inside free space"));
            }
            let ghost before = taken@;
            let ghost overlapping_before = overlapping;
            let mut position: usize = start;
            while position < end
                invariant
                    start <= position <= end <= PAGE_SIZE,
                    forall|p: int|
                        0 <= p < PAGE_SIZE ==> #[trigger] taken@[p] == (before[p] || start <= p
                            < position),
                    overlapping == (overlapping_before || exists|p: int|
                        start <= p < position && #[trigger] before[p]),
                decreases end - position,
            {
                if taken[position] {
                    assert(before[position as int]);
                    overlapping = true;
                }
                taken[position] = true;
                position += 1;
            }
            proof {
                lemma_overlap_step(bytes, slot as int);
                assert(overlapping == has_overlap(bytes, slot + 1)) by {
                    if exists|p: int| start <= p < end && #[trigger] before[p] {
                        let p = choose|p: int| start <= p < end && #[trigger] before[p];
                        assert(is_covered(bytes, slot as int, p));
                    }
                    if exists|p: int|
                        start <= p < end && #[trigger] is_covered(bytes, slot as int, p) {
                        let p = choose|p: int|
                            start <= p < end && #[trigger] is_covered(bytes, slot as int, p);
                        assert(before[p]);
                    }
                }
                assert forall|p: int| 0 <= p < PAGE_SIZE implies #[trigger] taken@[p]
                    == is_covered(bytes, slot + 1, p) by {
                    lemma_covered_step(bytes, slot as int, p);
                }
            }
            observed_live += 1;
        } else {
            if entry.flags == SLOT_REUSABLE || entry.flags == SLOT_RETIRED {
                if entry.offset != 0 || entry.length != 0 {
                    return Err(SlottedPageError::Corrupt("non-live slot references record data"));
                }
            } else {
                return Err(SlottedPageError::Corrupt("invalid slot flags"));
            }
            proof {
                assert forall|p: int| 0 <= p < PAGE_SIZE implies #[trigger] taken@[p]
                    == is_covered(bytes, slot + 1, p) by {
                    lemma_covered_step(bytes, slot as int, p);
                }
                assert(has_overlap(bytes, slot + 1) == has_overlap(bytes, slot as int)) by {
                    if has_overlap(bytes, slot + 1) {
                        let (i, j) = choose|i: int, j: int|
                            0 <= i < j < slot + 1 && #[trigger] page_format::overlap(bytes, i, j);
                        assert(j < slot);
                    }
                    if has_overlap(bytes, slot as int) {
                        let (i, j) = choose|i: int, j: int|
                            0 <= i < j < slot && #[trigger] page_format::overlap(bytes, i, j);
                        assert(page_format::overlap(bytes, i, j));
                    }
                }
            }
        }
        slot += 1;
    }
    assert(slots.take(count as int) =~= slots);
    if observed_live != header_u16(page, LIVE_COUNT_OFFSET) {
        return Err(SlottedPageError::Corrupt("incorrect live slot count"));
    }
    if overlapping {
        return Err(SlottedPageError::Corrupt("live records overlap"));
    }
    Ok(())
}

proof fn lemma_covered_step(bytes: Seq<u8>, index: int, position: int)
    requires
        0 <= index,
    ensures
        is_covered(bytes, index + 1, position) <==> is_covered(bytes, index, position) || {
            let entry = page_format::slot(bytes, index);
            entry.flags == SLOT_LIVE && entry.offset <= position < entry.offset + entry.length
        },
{
    if is_covered(bytes, index, position) {
        let i = choose|i: int|
            0 <= i < index && {
                let entry = #[trigger] page_format::slot(bytes, i);
                entry.flags == SLOT_LIVE && entry.offset <= position < entry.offset + entry.length
            };
        assert(page_format::slot(bytes, i).flags == SLOT_LIVE);
    }
}

/// Turns the page into a heap page without slots.
pub(super) fn initialize(page: &mut Page)
    ensures
        page_format::well_formed(final(page)@),
        final(page).spec_id() == old(page).spec_id(),
        final(page).spec_dirty(),
        final(page)@ == page_layout::initialized(old(page)@),
        page_format::content(final(page).spec_id(), final(page)@) == (page_format::HeapPage {
            id: old(page).spec_id(),
            slots: Seq::empty(),
            next: None,
        }),
        page_format::free_start(final(page)@) == PAGE_HEADER_SIZE,
        page_format::free_end(final(page)@) == PAGE_SIZE,
{
    let ghost blank = page_layout::initialized(page@);
    page.write(MAGIC_OFFSET, &MAGIC).unwrap();
    page.write(VERSION_OFFSET, &[FORMAT_VERSION]).unwrap();
    page.write(PAGE_KIND_OFFSET, &[HEAP_PAGE_KIND]).unwrap();
    page.write_u16(FLAGS_OFFSET, 0).unwrap();
    page.write_u16(SLOT_COUNT_OFFSET, 0).unwrap();
    page.write_u16(FREE_START_OFFSET, PAGE_HEADER_SIZE as u16).unwrap();
    page.write_u16(FREE_END_OFFSET, PAGE_SIZE as u16).unwrap();
    page.write_u16(LIVE_COUNT_OFFSET, 0).unwrap();
    page.write_u32(NEXT_PAGE_ID_OFFSET, INVALID_PAGE_ID).unwrap();
    page.write(PAGE_LSN_OFFSET, &[0u8, 0, 0, 0, 0, 0, 0, 0]).unwrap();
    page.write_u32(CHECKSUM_OFFSET, 0).unwrap();
    proof {
        assert(page@ =~= blank);
        page_layout::lemma_initialized(page.spec_id(), old(page)@);
    }
}

/// Checks that `rid` identifies a row of the page.
fn validate_rid(page: &Page, rid: Rid) -> (result: Result<(), SlottedPageError>)
    requires
        page_format::well_formed(page@),
    ensures
        result == if page_format::content(page.spec_id(), page@).is_live(rid) {
            Ok(())
        } else {
            Err(SlottedPageError::InvalidRid(rid))
        },
{
    if rid.page_id() != page.id() || rid.slot_id().get() >= header_u16(page, SLOT_COUNT_OFFSET) {
        return Err(SlottedPageError::InvalidRid(rid));
    }
    let entry = read_slot(page, rid.slot_id().get());
    if entry.flags != SLOT_LIVE || entry.generation != rid.generation() {
        return Err(SlottedPageError::InvalidRid(rid));
    }
    Ok(())
}

/// Borrows the row that `rid` identifies.
pub(super) fn read_record(page: &Page, rid: Rid) -> (result: Result<&[u8], SlottedPageError>)
    requires
        page_format::well_formed(page@),
    ensures
        ({
            let heap_page = page_format::content(page.spec_id(), page@);
            match result {
                Ok(record) => heap_page.is_live(rid) && record@ == heap_page.record(rid),
                Err(error) => !heap_page.is_live(rid) && error == SlottedPageError::InvalidRid(rid),
            }
        }),
{
    match validate_rid(page, rid) {
        Ok(()) => {},
        Err(error) => {
            return Err(error);
        },
    }
    let entry = read_slot(page, rid.slot_id().get());
    assert(page_format::slot_well_formed(
        page_format::slot(page@, rid.slot_id.0 as int),
        page_format::free_end(page@) as int,
    ));
    Ok(page.read(entry.offset as usize, entry.length as usize).unwrap())
}

/// Deletes the row that `rid` identifies. The slot moves on to its next
/// generation, or retires where there is none.
pub(super) fn delete_record(page: &mut Page, rid: Rid) -> (result: Result<(), SlottedPageError>)
    requires
        page_format::well_formed(old(page)@),
    ensures
        page_format::well_formed(final(page)@),
        final(page).spec_id() == old(page).spec_id(),
        ({
            let before = page_format::content(old(page).spec_id(), old(page)@);
            if before.is_live(rid) {
                &&& result == Ok::<(), SlottedPageError>(())
                &&& page_format::content(final(page).spec_id(), final(page)@) == before.delete(rid)
                &&& final(page).spec_dirty()
                &&& page_layout::same_reserved(old(page)@, final(page)@)
                &&& page_layout::deleted(old(page)@, final(page)@, rid.slot_id.0 as int)
                &&& page_format::free_start(final(page)@) == page_format::free_start(old(page)@)
                &&& page_format::free_end(final(page)@) == page_format::free_end(old(page)@)
            } else {
                &&& result == Err::<(), _>(SlottedPageError::InvalidRid(rid))
                &&& *final(page) == *old(page)
            }
        }),
{
    let ghost bytes = page@;
    let ghost heap_page = page_format::content(page.spec_id(), page@);
    match validate_rid(page, rid) {
        Ok(()) => {},
        Err(error) => {
            return Err(error);
        },
    }
    let slot: u16 = rid.slot_id().get();
    let (generation, flags): (u16, u16) = match rid.generation().checked_add(1) {
        Some(next) => (next, SLOT_REUSABLE),
        None => (rid.generation(), SLOT_RETIRED),
    };
    let live: u16 = header_u16(page, LIVE_COUNT_OFFSET);
    proof {
        assert(heap_page.slots[slot as int] is Live);
        page_lemmas::lemma_live_slots_bounds(heap_page.slots);
    }
    write_slot(page, slot, Slot { offset: 0, length: 0, generation, flags });
    let ghost cleared = page@;
    assert forall|j: int| 0 <= j < page_format::slot_count(bytes) && j != slot implies #[trigger]
        page_format::slot(cleared, j) == page_format::slot(bytes, j) by {}
    write_header_u16(page, LIVE_COUNT_OFFSET, live - 1);
    proof {
        assert forall|j: int| 0 <= j < page_format::slot_count(bytes) implies #[trigger]
            page_format::slot(page@, j) == page_format::slot(cleared, j) by {}
        lemma_deleted(old(page).spec_id(), bytes, page@, rid);
    }
    Ok(())
}

/// Clearing the entry of a live slot and counting one row less gives the page
/// after the deletion.
proof fn lemma_deleted(id: PageId, bytes: Seq<u8>, after: Seq<u8>, rid: Rid)
    requires
        page_format::well_formed(bytes),
        page_format::content(id, bytes).is_live(rid),
        after.len() == PAGE_SIZE,
        forall|k: int|
            0 <= k < PAGE_SIZE && !(LIVE_COUNT_OFFSET <= k < LIVE_COUNT_OFFSET + 2) && !(
            PAGE_HEADER_SIZE <= k < page_format::free_start(bytes)) ==> #[trigger] after[k]
                == bytes[k],
        page_format::live_count(after) == page_format::live_count(bytes) - 1,
        forall|j: int|
            0 <= j < page_format::slot_count(bytes) && j != rid.slot_id.0 ==> #[trigger] page_format::slot(
                after,
                j,
            ) == page_format::slot(bytes, j),
        page_format::slot(after, rid.slot_id.0 as int) == (Slot {
            offset: 0,
            length: 0,
            generation: if rid.generation < 0xffff {
                (rid.generation + 1) as u16
            } else {
                rid.generation
            },
            flags: if rid.generation < 0xffff {
                SLOT_REUSABLE
            } else {
                SLOT_RETIRED
            },
        }),
    ensures
        page_format::well_formed(after),
        page_format::content(id, after) == page_format::content(id, bytes).delete(rid),
        page_layout::same_reserved(bytes, after),
{
    let count = page_format::slot_count(bytes) as int;
    let target = rid.slot_id.0 as int;
    let heap_page = page_format::content(id, bytes);
    let deleted = heap_page.delete(rid);
    assert(page_layout::same_reserved(bytes, after)) by {
        assert(after.subrange(0, SLOT_COUNT_OFFSET as int) =~= bytes.subrange(
            0,
            SLOT_COUNT_OFFSET as int,
        ));
        assert(after.subrange(NEXT_PAGE_ID_OFFSET as int, PAGE_HEADER_SIZE as int)
            =~= bytes.subrange(NEXT_PAGE_ID_OFFSET as int, PAGE_HEADER_SIZE as int));
    }
    assert(after.subrange(MAGIC_OFFSET as int, MAGIC_OFFSET + 4) =~= bytes.subrange(
        MAGIC_OFFSET as int,
        MAGIC_OFFSET + 4,
    ));
    assert(page_format::slot_count(after) == count);
    assert(page_format::next_page(after) == page_format::next_page(bytes));
    assert forall|j: int| 0 <= j < count implies page_format::slot_well_formed(
        #[trigger] page_format::slot(after, j),
        page_format::free_end(bytes) as int,
    ) && page_format::slot_state(after, j) == deleted.slots[j] by {
        if j != target {
            let entry = page_format::slot(bytes, j);
            assert(page_format::slot_well_formed(entry, page_format::free_end(bytes) as int));
            assert(page_format::slot(after, j) == entry);
            if entry.flags == SLOT_LIVE {
                assert(after.subrange(entry.offset as int, entry.offset + entry.length)
                    =~= bytes.subrange(entry.offset as int, entry.offset + entry.length));
            }
        }
    }
    assert(page_format::slot_states(after, count) =~= deleted.slots);
    page_lemmas::lemma_sums_after_update(heap_page.slots, target, deleted.slots[target]);
    assert forall|i: int, j: int| 0 <= i < j < count implies !#[trigger] page_format::overlap(
        after,
        i,
        j,
    ) by {
        if i != target && j != target {
            assert(page_format::slot(after, i) == page_format::slot(bytes, i));
            assert(page_format::slot(after, j) == page_format::slot(bytes, j));
            assert(!page_format::overlap(bytes, i, j));
        }
    }
}

/// Links the page to `next`.
pub(super) fn link_page(page: &mut Page, next: Option<PageId>)
    requires
        page_format::well_formed(old(page)@),
    ensures
        page_format::well_formed(final(page)@),
        final(page).spec_id() == old(page).spec_id(),
        final(page).spec_dirty(),
        page_layout::linked(old(page)@, final(page)@),
        page_format::content(final(page).spec_id(), final(page)@) == (page_format::HeapPage {
            next: stored_link(next),
            ..page_format::content(old(page).spec_id(), old(page)@)
        }),
        page_format::free_start(final(page)@) == page_format::free_start(old(page)@),
        page_format::free_end(final(page)@) == page_format::free_end(old(page)@),
{
    let ghost bytes = page@;
    let raw: u32 = match next {
        Some(id) => id.get(),
        None => INVALID_PAGE_ID,
    };
    page.write_u32(NEXT_PAGE_ID_OFFSET, raw).unwrap();
    proof {
        let after = page@;
        let count = page_format::slot_count(bytes) as int;
        codec::lemma_u32_round_trip(raw);
        assert forall|k: int| 0 <= k < 4 implies after[NEXT_PAGE_ID_OFFSET + k]
            == #[trigger] codec::u32_bytes(raw)[k] by {}
        assert(codec::u32_at(after, NEXT_PAGE_ID_OFFSET as int) == raw) by {
            assert(after[NEXT_PAGE_ID_OFFSET as int] == codec::u32_bytes(raw)[0]);
            assert(after[NEXT_PAGE_ID_OFFSET + 1] == codec::u32_bytes(raw)[1]);
            assert(after[NEXT_PAGE_ID_OFFSET + 2] == codec::u32_bytes(raw)[2]);
            assert(after[NEXT_PAGE_ID_OFFSET + 3] == codec::u32_bytes(raw)[3]);
        }
        assert(after.subrange(MAGIC_OFFSET as int, MAGIC_OFFSET + 4) =~= bytes.subrange(
            MAGIC_OFFSET as int,
            MAGIC_OFFSET + 4,
        ));
        assert(page_format::slot_count(after) == count);
        assert forall|j: int| 0 <= j < count implies #[trigger] page_format::slot(after, j)
            == page_format::slot(bytes, j) by {}
        assert forall|j: int| 0 <= j < count implies page_format::slot_state(after, j)
            == page_format::slot_state(bytes, j) by {
            let entry = page_format::slot(bytes, j);
            assert(page_format::slot_well_formed(entry, page_format::free_end(bytes) as int));
            assert(page_format::slot(after, j) == entry);
            if entry.flags == SLOT_LIVE {
                assert(after.subrange(entry.offset as int, entry.offset + entry.length)
                    =~= bytes.subrange(entry.offset as int, entry.offset + entry.length));
            }
        }
        assert(page_format::slot_states(after, count) =~= page_format::slot_states(bytes, count));
        assert forall|i: int, j: int| 0 <= i < j < count implies !#[trigger] page_format::overlap(
            after,
            i,
            j,
        ) by {
            assert(!page_format::overlap(bytes, i, j));
        }
    }
}

/// The page that the page is linked to.
pub(super) fn next_link(page: &Page) -> (next: Option<PageId>)
    ensures
        next == page_format::next_page(page@),
{
    let raw: u32 = page.read_u32(NEXT_PAGE_ID_OFFSET).unwrap();
    if raw == INVALID_PAGE_ID {
        None
    } else {
        Some(PageId::new(raw))
    }
}

/// What a page reads back after it was linked to `next`: the largest page
/// number stands for no link.
pub open spec fn stored_link(next: Option<PageId>) -> Option<PageId> {
    if next == Some(PageId(INVALID_PAGE_ID)) {
        None
    } else {
        next
    }
}

/// Identifiers of the rows of the page, by slot.
pub(super) fn record_ids(page: &Page) -> (rids: Vec<Rid>)
    requires
        page_format::well_formed(page@),
    ensures
        rids@ == page_format::content(page.spec_id(), page@).live_rids(),
{
    let ghost heap_page = page_format::content(page.spec_id(), page@);
    let count: u16 = header_u16(page, SLOT_COUNT_OFFSET);
    let mut rids: Vec<Rid> = Vec::new();
    let mut slot: u16 = 0;
    while slot < count
        invariant
            slot <= count,
            page_format::well_formed(page@),
            count == page_format::slot_count(page@),
            heap_page == page_format::content(page.spec_id(), page@),
            rids@ == heap_page.live_rids_up_to(slot as int),
        decreases count - slot,
    {
        let entry = read_slot(page, slot);
        if entry.flags == SLOT_LIVE {
            rids.push(Rid::new(page.id(), SlotId::new(slot), entry.generation));
        }
        slot += 1;
    }
    rids
}

impl View for SlottedPage {
    type V = page_format::HeapPage;

    /// The content of the page.
    open spec fn view(&self) -> page_format::HeapPage {
        page_format::content(self.spec_page().spec_id(), self.spec_page()@)
    }
}

impl SlottedPage {
    /// The raw page.
    pub closed spec fn spec_page(&self) -> Page {
        self.page
    }

    /// The structure that every operation relies on and keeps.
    pub open spec fn wf(&self) -> bool {
        page_format::well_formed(self.spec_page()@)
    }

    /// Free bytes between the slot directory and the row data.
    pub open spec fn contiguous(&self) -> int {
        page_format::free_end(self.spec_page()@) - page_format::free_start(self.spec_page()@)
    }

    pub fn new(id: PageId) -> (page: Self)
        ensures
            page.wf(),
            page@ == (page_format::HeapPage { id, slots: Seq::empty(), next: None }),
            page.contiguous() == PAGE_SIZE - PAGE_HEADER_SIZE,
            page.spec_page().spec_dirty(),
            page.spec_page()@ == page_format::blank_header() + Seq::new(
                (PAGE_SIZE - PAGE_HEADER_SIZE) as nat,
                |i: int| 0u8,
            ),
    {
        let mut page = Page::zeroed(id);
        initialize(&mut page);
        assert(page@ =~= page_format::blank_header() + Seq::new(
            (PAGE_SIZE - PAGE_HEADER_SIZE) as nat,
            |i: int| 0u8,
        ));
        Self { page }
    }

    /// Opens a raw page, where it is a valid heap page.
    pub fn from_page(page: Page) -> (result: Result<Self, SlottedPageError>)
        ensures
            match page_format::page_fault(page@) {
                None => result matches Ok(slotted) && slotted.spec_page() == page && slotted.wf(),
                Some(fault) => result matches Err(error) && error == SlottedPageError::Corrupt(
                    fault,
                ),
            },
    {
        match validate(&page) {
            Ok(()) => {
                proof {
                    page_lemmas::valid_pages_are_well_formed(page@);
                }
                Ok(Self { page })
            },
            Err(error) => Err(error),
        }
    }

    pub fn into_page(self) -> (page: Page)
        ensures
            page == self.spec_page(),
    {
        self.page
    }

    pub fn page(&self) -> (page: &Page)
        ensures
            *page == self.spec_page(),
    {
        &self.page
    }

    pub fn page_id(&self) -> (id: PageId)
        ensures
            id == self@.id,
    {
        self.page.id()
    }

    pub fn slot_count(&self) -> (count: u16)
        ensures
            count == self@.slots.len(),
    {
        header_u16(&self.page, SLOT_COUNT_OFFSET)
    }

    pub fn live_count(&self) -> (count: u16)
        requires
            self.wf(),
        ensures
            count == page_format::live_slots(self@.slots),
    {
        header_u16(&self.page, LIVE_COUNT_OFFSET)
    }

    pub fn contiguous_free_space(&self) -> (space: usize)
        requires
            self.wf(),
        ensures
            space == self.contiguous(),
    {
        header_u16(&self.page, FREE_END_OFFSET) as usize - header_u16(
            &self.page,
            FREE_START_OFFSET,
        ) as usize
    }

    pub fn next_page_id(&self) -> (next: Option<PageId>)
        ensures
            next == self@.next,
    {
        next_link(&self.page)
    }

    pub fn set_next_page_id(&mut self, next: Option<PageId>)
        requires
            old(self).wf(),
        ensures
            final(self).wf(),
            final(self)@ == (page_format::HeapPage { next: stored_link(next), ..old(self)@ }),
            final(self).contiguous() == old(self).contiguous(),
            final(self).spec_page().spec_dirty(),
            page_layout::linked(old(self).spec_page()@, final(self).spec_page()@),
    {
        link_page(&mut self.page, next);
    }

    /// Stores `record` in the page: in the first reusable slot, or else in a new
    /// one. Compacts the page where the contiguous free space is too small. A
    /// record that does not fit leaves the page as it is.
    pub fn insert(&mut self, record: &[u8]) -> (result: Result<Rid, SlottedPageError>)
        requires
            old(self).wf(),
        ensures
            final(self).wf(),
            match old(self)@.insert_error(record@.len() as int) {
                Some(error) => result == Err::<Rid, _>(error) && *final(self) == *old(self),
                None => {
                    &&& result == Ok::<_, SlottedPageError>(old(self)@.next_rid())
                    &&& final(self)@ == old(self)@.insert(record@)
                    &&& final(self).contiguous() == contiguous_after_insert(
                        old(self)@.id,
                        old(self).spec_page()@,
                        record@.len() as int,
                    )
                    &&& final(self).spec_page().spec_dirty()
                    &&& page_layout::same_reserved(old(self).spec_page()@, final(self).spec_page()@)
                    &&& page_layout::inserted(
                        old(self)@.id,
                        old(self).spec_page()@,
                        final(self).spec_page()@,
                        record@.len() as int,
                    )
                },
            },
    {
        insert_record(&mut self.page, record)
    }

    /// Borrows the row that `rid` identifies.
    pub fn get(&self, rid: Rid) -> (result: Result<&[u8], SlottedPageError>)
        requires
            self.wf(),
        ensures
            match result {
                Ok(record) => self@.is_live(rid) && record@ == self@.record(rid),
                Err(error) => !self@.is_live(rid) && error == SlottedPageError::InvalidRid(rid),
            },
    {
        read_record(&self.page, rid)
    }

    /// Deletes the row that `rid` identifies. The slot moves on to its next
    /// generation, which makes `rid` stale; a slot without a next generation
    /// retires.
    pub fn delete(&mut self, rid: Rid) -> (result: Result<(), SlottedPageError>)
        requires
            old(self).wf(),
        ensures
            final(self).wf(),
            if old(self)@.is_live(rid) {
                &&& result == Ok::<(), SlottedPageError>(())
                &&& final(self)@ == old(self)@.delete(rid)
                &&& final(self).contiguous() == old(self).contiguous()
                &&& final(self).spec_page().spec_dirty()
                &&& page_layout::same_reserved(old(self).spec_page()@, final(self).spec_page()@)
                &&& page_layout::deleted(
                    old(self).spec_page()@,
                    final(self).spec_page()@,
                    rid.slot_id.0 as int,
                )
            } else {
                &&& result == Err::<(), _>(SlottedPageError::InvalidRid(rid))
                &&& *final(self) == *old(self)
            },
    {
        delete_record(&mut self.page, rid)
    }

    /// Rewrites live records contiguously at the end of the page. Slot IDs and
    /// generations remain unchanged, so all live RIDs stay valid.
    pub fn compact(&mut self) -> (result: Result<(), SlottedPageError>)
        requires
            old(self).wf(),
        ensures
            final(self).wf(),
            result == Ok::<(), SlottedPageError>(()),
            final(self)@ == old(self)@,
            final(self).contiguous() == old(self)@.free_space(),
            final(self).spec_page().spec_dirty(),
            page_layout::same_reserved(old(self).spec_page()@, final(self).spec_page()@),
            page_layout::compacted(old(self).spec_page()@, final(self).spec_page()@),
    {
        compact_page(&mut self.page);
        Ok(())
    }

    /// Identifiers of the rows of the page, by slot.
    pub fn live_rids(&self) -> (rids: Vec<Rid>)
        requires
            self.wf(),
        ensures
            rids@ == self@.live_rids(),
    {
        record_ids(&self.page)
    }
}

impl SlottedPageError {
    pub open spec fn text(self) -> Seq<char> {
        match self {
            SlottedPageError::Page(error) => error.text(),
            SlottedPageError::Corrupt(reason) => "corrupt heap page: "@ + reason@,
            SlottedPageError::RecordTooLarge { size } => {
                "record of "@ + message::decimal(size as int)
                    + " bytes is too large for a heap page"@
            },
            SlottedPageError::NoSpace { required, available } => {
                "heap page has insufficient space: "@ + message::decimal(required as int)
                    + " bytes required, "@ + message::decimal(available as int) + " available"@
            },
            SlottedPageError::InvalidRid(rid) => {
                "RID does not identify a live row: "@ + message::rid_text(rid)
            },
        }
    }

    /// What went wrong, for people to read.
    pub fn message(&self) -> (message: String)
        ensures
            message@ == self.text(),
    {
        match self {
            Self::Page(error) => error.message(),
            Self::Corrupt(reason) => Message::new("corrupt heap page: ").text(reason).finish(),
            Self::RecordTooLarge { size } => Message::new("record of ").number(*size as u64).text(
                " bytes is too large for a heap page",
            ).finish(),
            Self::NoSpace { required, available } => Message::new(
                "heap page has insufficient space: ",
            ).number(*required as u64).text(" bytes required, ").number(*available as u64).text(
                " available",
            ).finish(),
            Self::InvalidRid(rid) => Message::new("RID does not identify a live row: ").rid(
                *rid,
            ).finish(),
        }
    }
}

impl From<PageError> for SlottedPageError {
    fn from(error: PageError) -> (converted: Self) {
        Self::Page(error)
    }
}

impl vstd::std_specs::convert::FromSpecImpl<PageError> for SlottedPageError {
    open spec fn obeys_from_spec() -> bool {
        true
    }

    open spec fn from_spec(error: PageError) -> Self {
        SlottedPageError::Page(error)
    }
}

} // verus!
