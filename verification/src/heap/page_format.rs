//! What the bytes of a heap page stand for.
//!
//! A heap page starts with a 32-byte header and a directory of 8-byte slot
//! entries; the rows are packed towards the end of the page. The abstract
//! content of such a page is a [`HeapPage`]: the state of each slot and the
//! link to the next page.

use vstd::prelude::*;

use crate::codec;
use crate::storage::{PageId, Rid, SlotId, PAGE_HEADER_SIZE, PAGE_SIZE};

use super::slotted_page::{SlottedPageError, SLOT_ENTRY_SIZE};

verus! {

pub const MAGIC: [u8; 4] = [78, 72, 80, 71];

pub const FORMAT_VERSION: u8 = 1;

pub const HEAP_PAGE_KIND: u8 = 1;

/// Stored in place of a link where there is no next page.
pub const INVALID_PAGE_ID: u32 = 0xffff_ffff;

pub const MAGIC_OFFSET: usize = 0;

pub const VERSION_OFFSET: usize = 4;

pub const PAGE_KIND_OFFSET: usize = 5;

pub const FLAGS_OFFSET: usize = 6;

pub const SLOT_COUNT_OFFSET: usize = 8;

pub const FREE_START_OFFSET: usize = 10;

pub const FREE_END_OFFSET: usize = 12;

pub const LIVE_COUNT_OFFSET: usize = 14;

pub const NEXT_PAGE_ID_OFFSET: usize = 16;

pub const PAGE_LSN_OFFSET: usize = 20;

pub const CHECKSUM_OFFSET: usize = 28;

pub const SLOT_RECORD_OFFSET: usize = 0;

pub const SLOT_RECORD_LENGTH: usize = 2;

pub const SLOT_GENERATION: usize = 4;

pub const SLOT_FLAGS: usize = 6;

/// Flags of a deleted slot that the next insertion may take.
pub const SLOT_REUSABLE: u16 = 0;

/// Flags of a slot that holds a row.
pub const SLOT_LIVE: u16 = 1;

/// Flags of a slot that must never be used again.
pub const SLOT_RETIRED: u16 = 2;

/// One entry of the slot directory as it is stored.
pub struct Slot {
    pub offset: u16,
    pub length: u16,
    pub generation: u16,
    pub flags: u16,
}

/// Where the entry of slot `index` starts.
pub open spec fn slot_position(index: int) -> int {
    PAGE_HEADER_SIZE + SLOT_ENTRY_SIZE * index
}

/// The stored entry of slot `index`.
pub open spec fn slot(bytes: Seq<u8>, index: int) -> Slot {
    Slot {
        offset: codec::u16_at(bytes, slot_position(index) + SLOT_RECORD_OFFSET),
        length: codec::u16_at(bytes, slot_position(index) + SLOT_RECORD_LENGTH),
        generation: codec::u16_at(bytes, slot_position(index) + SLOT_GENERATION),
        flags: codec::u16_at(bytes, slot_position(index) + SLOT_FLAGS),
    }
}

pub open spec fn slot_count(bytes: Seq<u8>) -> u16 {
    codec::u16_at(bytes, SLOT_COUNT_OFFSET as int)
}

/// First byte after the slot directory.
pub open spec fn free_start(bytes: Seq<u8>) -> u16 {
    codec::u16_at(bytes, FREE_START_OFFSET as int)
}

/// First byte of row data.
pub open spec fn free_end(bytes: Seq<u8>) -> u16 {
    codec::u16_at(bytes, FREE_END_OFFSET as int)
}

pub open spec fn live_count(bytes: Seq<u8>) -> u16 {
    codec::u16_at(bytes, LIVE_COUNT_OFFSET as int)
}

pub open spec fn next_page(bytes: Seq<u8>) -> Option<PageId> {
    let raw = codec::u32_at(bytes, NEXT_PAGE_ID_OFFSET as int);
    if raw == INVALID_PAGE_ID {
        None
    } else {
        Some(PageId(raw))
    }
}

/// What a slot of a heap page holds.
pub enum SlotState {
    /// A row.
    Live { generation: u16, record: Seq<u8> },
    /// Nothing; the next insertion may take the slot.
    Reusable { generation: u16 },
    /// Nothing, for ever: the slot has run out of generations.
    Retired { generation: u16 },
}

impl SlotState {
    /// Bytes that the row in the slot takes up.
    pub open spec fn record_length(self) -> int {
        match self {
            SlotState::Live { record, .. } => record.len() as int,
            _ => 0,
        }
    }

    pub open spec fn generation(self) -> u16 {
        match self {
            SlotState::Live { generation, .. } => generation,
            SlotState::Reusable { generation } => generation,
            SlotState::Retired { generation } => generation,
        }
    }
}

/// The state that the stored entry of slot `index` describes.
pub open spec fn slot_state(bytes: Seq<u8>, index: int) -> SlotState {
    let entry = slot(bytes, index);
    if entry.flags == SLOT_LIVE {
        SlotState::Live {
            generation: entry.generation,
            record: bytes.subrange(entry.offset as int, entry.offset + entry.length),
        }
    } else if entry.flags == SLOT_RETIRED {
        SlotState::Retired { generation: entry.generation }
    } else {
        SlotState::Reusable { generation: entry.generation }
    }
}

/// The states of the first `count` slots.
pub open spec fn slot_states(bytes: Seq<u8>, count: int) -> Seq<SlotState> {
    Seq::new(count as nat, |i: int| slot_state(bytes, i))
}

/// Bytes of row data in `slots`.
pub open spec fn record_bytes(slots: Seq<SlotState>) -> int
    decreases slots.len(),
{
    if slots.len() == 0 {
        0
    } else {
        record_bytes(slots.drop_last()) + slots.last().record_length()
    }
}

/// Number of rows in `slots`.
pub open spec fn live_slots(slots: Seq<SlotState>) -> int
    decreases slots.len(),
{
    if slots.len() == 0 {
        0
    } else {
        live_slots(slots.drop_last()) + if slots.last() is Live {
            1int
        } else {
            0int
        }
    }
}

/// Content of a heap page.
#[verifier::ext_equal]
pub struct HeapPage {
    pub id: PageId,
    pub slots: Seq<SlotState>,
    pub next: Option<PageId>,
}

/// The content that the bytes of page `id` stand for.
pub open spec fn content(id: PageId, bytes: Seq<u8>) -> HeapPage {
    HeapPage { id, slots: slot_states(bytes, slot_count(bytes) as int), next: next_page(bytes) }
}

impl HeapPage {
    /// Bytes that neither the header, nor the directory, nor a row takes up.
    pub open spec fn free_space(self) -> int {
        PAGE_SIZE - PAGE_HEADER_SIZE - SLOT_ENTRY_SIZE * self.slots.len() - record_bytes(self.slots)
    }

    /// Whether header, directory and rows fit into a page.
    pub open spec fn fits(self) -> bool {
        self.free_space() >= 0
    }

    /// Whether `rid` names a slot that is past its generation, or retired.
    pub open spec fn is_stale(self, rid: Rid) -> bool {
        &&& rid.page_id == self.id
        &&& rid.slot_id.0 < self.slots.len()
        &&& {
            ||| self.slots[rid.slot_id.0 as int].generation() > rid.generation
            ||| self.slots[rid.slot_id.0 as int] is Retired
        }
    }

    /// Whether slot `index` is the first that an insertion may reuse.
    pub open spec fn is_first_reusable(self, index: int) -> bool {
        &&& 0 <= index < self.slots.len()
        &&& self.slots[index] is Reusable
        &&& forall|j: int| 0 <= j < index ==> !(#[trigger] self.slots[j] is Reusable)
    }

    /// Whether an insertion can reuse a slot instead of adding one.
    pub open spec fn has_reusable(self) -> bool {
        exists|i: int| 0 <= i < self.slots.len() && #[trigger] self.slots[i] is Reusable
    }

    /// Slot that the next row goes to: the first reusable one, or else a new one.
    pub open spec fn target_slot(self) -> int {
        if self.has_reusable() {
            choose|i: int| self.is_first_reusable(i)
        } else {
            self.slots.len() as int
        }
    }

    /// Bytes by which an insertion makes the directory grow.
    pub open spec fn directory_growth(self) -> int {
        if self.has_reusable() {
            0
        } else {
            SLOT_ENTRY_SIZE as int
        }
    }

    /// Generation that the next row gets: that of the reused slot, or 1.
    pub open spec fn target_generation(self) -> u16 {
        if self.has_reusable() {
            self.slots[self.target_slot()].generation()
        } else {
            1
        }
    }

    /// Identifier that the next row gets.
    pub open spec fn next_rid(self) -> Rid {
        Rid {
            page_id: self.id,
            slot_id: SlotId(self.target_slot() as u16),
            generation: self.target_generation(),
        }
    }

    /// Why a row of `length` bytes cannot be stored, if it cannot.
    pub open spec fn insert_error(self, length: int) -> Option<SlottedPageError> {
        if length > 0xffff {
            Some(SlottedPageError::RecordTooLarge { size: length as usize })
        } else if self.free_space() < self.directory_growth() {
            Some(SlottedPageError::Corrupt("page metadata and live records exceed page size"))
        } else if self.free_space() < self.directory_growth() + length {
            Some(
                SlottedPageError::NoSpace {
                    required: (length + self.directory_growth()) as usize,
                    available: self.free_space() as usize,
                },
            )
        } else {
            None
        }
    }

    /// The page after `record` was stored in it.
    pub open spec fn insert(self, record: Seq<u8>) -> HeapPage {
        let state = SlotState::Live { generation: self.target_generation(), record };
        HeapPage {
            slots: if self.has_reusable() {
                self.slots.update(self.target_slot(), state)
            } else {
                self.slots.push(state)
            },
            ..self
        }
    }

    /// Whether `rid` identifies a row of the page.
    pub open spec fn is_live(self, rid: Rid) -> bool {
        &&& rid.page_id == self.id
        &&& rid.slot_id.0 < self.slots.len()
        &&& self.slots[rid.slot_id.0 as int] is Live
        &&& self.slots[rid.slot_id.0 as int].generation() == rid.generation
    }

    /// The row that `rid` identifies.
    pub open spec fn record(self, rid: Rid) -> Seq<u8> {
        self.slots[rid.slot_id.0 as int]->record
    }

    /// The page after the row that `rid` identifies was deleted: the slot moves
    /// on to its next generation, or retires where there is none.
    pub open spec fn delete(self, rid: Rid) -> HeapPage {
        let state = if rid.generation < 0xffff {
            SlotState::Reusable { generation: (rid.generation + 1) as u16 }
        } else {
            SlotState::Retired { generation: rid.generation }
        };
        HeapPage { slots: self.slots.update(rid.slot_id.0 as int, state), ..self }
    }

    /// Identifiers of the rows in the first `count` slots.
    pub open spec fn live_rids_up_to(self, count: int) -> Seq<Rid>
        decreases count,
    {
        if count <= 0 {
            Seq::empty()
        } else if self.slots[count - 1] is Live {
            self.live_rids_up_to(count - 1).push(self.rid_of(count - 1))
        } else {
            self.live_rids_up_to(count - 1)
        }
    }

    /// Identifiers of the rows of the page, by slot.
    pub open spec fn live_rids(self) -> Seq<Rid> {
        self.live_rids_up_to(self.slots.len() as int)
    }

    /// Identifier of the row in slot `index`.
    pub open spec fn rid_of(self, index: int) -> Rid {
        Rid {
            page_id: self.id,
            slot_id: SlotId(index as u16),
            generation: self.slots[index].generation(),
        }
    }
}

/// Whether the rows of slots `i` and `j` have a byte in common.
pub open spec fn overlap(bytes: Seq<u8>, i: int, j: int) -> bool {
    let a = slot(bytes, i);
    let b = slot(bytes, j);
    &&& a.flags == SLOT_LIVE
    &&& b.flags == SLOT_LIVE
    &&& a.length != 0
    &&& b.length != 0
    &&& a.offset < b.offset + b.length
    &&& b.offset < a.offset + a.length
}

/// What is wrong with a slot entry in a page whose row data starts at
/// `data_start`.
pub open spec fn slot_fault(entry: Slot, data_start: int) -> Option<&'static str> {
    if entry.flags == SLOT_LIVE {
        if entry.generation == 0 {
            Some("live slot has generation zero")
        } else if entry.offset + entry.length > PAGE_SIZE {
            Some("record exceeds page boundary")
        } else if entry.offset < data_start {
            Some("record begins inside free space")
        } else {
            None
        }
    } else if entry.flags == SLOT_REUSABLE || entry.flags == SLOT_RETIRED {
        if entry.offset != 0 || entry.length != 0 {
            Some("non-live slot references record data")
        } else {
            None
        }
    } else {
        Some("invalid slot flags")
    }
}

/// The fault of the first faulty slot among the first `count`.
pub open spec fn directory_fault(bytes: Seq<u8>, count: int) -> Option<&'static str>
    decreases count,
{
    if count <= 0 {
        None
    } else {
        match directory_fault(bytes, count - 1) {
            Some(fault) => Some(fault),
            None => slot_fault(slot(bytes, count - 1), free_end(bytes) as int),
        }
    }
}

/// What keeps `bytes` from being a heap page; `None` for a valid one.
pub open spec fn page_fault(bytes: Seq<u8>) -> Option<&'static str> {
    if bytes.subrange(MAGIC_OFFSET as int, MAGIC_OFFSET + 4) != MAGIC@ {
        Some("invalid heap-page magic")
    } else if bytes[VERSION_OFFSET as int] != FORMAT_VERSION {
        Some("unsupported heap-page version")
    } else if bytes[PAGE_KIND_OFFSET as int] != HEAP_PAGE_KIND {
        Some("page is not a heap page")
    } else if free_start(bytes) != slot_position(slot_count(bytes) as int) || free_start(bytes)
        > PAGE_SIZE {
        Some("invalid slot-directory boundary")
    } else if free_end(bytes) < free_start(bytes) || free_end(bytes) > PAGE_SIZE {
        Some("invalid free-space boundary")
    } else if directory_fault(bytes, slot_count(bytes) as int) is Some {
        directory_fault(bytes, slot_count(bytes) as int)
    } else if live_slots(slot_states(bytes, slot_count(bytes) as int)) != live_count(bytes) {
        Some("incorrect live slot count")
    } else if exists|i: int, j: int|
        0 <= i < j < slot_count(bytes) && #[trigger] overlap(bytes, i, j) {
        Some("live records overlap")
    } else {
        None
    }
}

/// Whether a slot entry refers to row data inside the page, or to none.
pub open spec fn slot_well_formed(entry: Slot, data_start: int) -> bool {
    if entry.flags == SLOT_LIVE {
        data_start <= entry.offset && entry.offset + entry.length <= PAGE_SIZE
    } else {
        &&& entry.flags == SLOT_REUSABLE || entry.flags == SLOT_RETIRED
        &&& entry.offset == 0
        &&& entry.length == 0
    }
}

/// The structure that every operation on a heap page relies on and keeps.
pub open spec fn well_formed(bytes: Seq<u8>) -> bool {
    let count = slot_count(bytes) as int;
    &&& bytes.len() == PAGE_SIZE
    &&& bytes.subrange(MAGIC_OFFSET as int, MAGIC_OFFSET + 4) == MAGIC@
    &&& bytes[VERSION_OFFSET as int] == FORMAT_VERSION
    &&& bytes[PAGE_KIND_OFFSET as int] == HEAP_PAGE_KIND
    &&& free_start(bytes) == slot_position(count)
    &&& free_start(bytes) <= free_end(bytes) <= PAGE_SIZE
    &&& forall|i: int|
        0 <= i < count ==> slot_well_formed(#[trigger] slot(bytes, i), free_end(bytes) as int)
    &&& live_slots(slot_states(bytes, count)) == live_count(bytes)
    &&& forall|i: int, j: int| 0 <= i < j < count ==> !#[trigger] overlap(bytes, i, j)
}

/// Whether no slot has generation zero. Pages that this library writes keep
/// to it.
pub open spec fn generations_positive(slots: Seq<SlotState>) -> bool {
    forall|i: int| 0 <= i < slots.len() ==> (#[trigger] slots[i]).generation() > 0
}

/// The header of a heap page without slots: magic, version, kind, no flags, no
/// slots, free space from the end of the header to the end of the page, no rows,
/// no next page, and a zero LSN and checksum.
pub open spec fn blank_header() -> Seq<u8> {
    MAGIC@ + seq![FORMAT_VERSION, HEAP_PAGE_KIND] + codec::u16_bytes(0) + codec::u16_bytes(0)
        + codec::u16_bytes(PAGE_HEADER_SIZE as u16) + codec::u16_bytes(PAGE_SIZE as u16)
        + codec::u16_bytes(0) + codec::u32_bytes(INVALID_PAGE_ID) + Seq::new(12, |i: int| 0u8)
}

} // verus!
