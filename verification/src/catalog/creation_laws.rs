//! Which tables can be created, and what is recorded of them.

use vstd::prelude::*;

use crate::codec;
use crate::heap::{InsertStep, PageRequest};
use crate::schema::declaration_laws;
use crate::schema::table_format;
use crate::schema::table_laws;
use crate::storage::PageId;
use crate::text;

use super::catalog_laws;
use super::catalog_model::{self, CatalogState, TableCreationState};
use super::record_format::{self, CatalogFault, TableEntry};
use super::{entries, CatalogError, TableId, TableMetadata};

verus! {

/// Whether no table has this name.
pub open spec fn is_free(tables: Seq<TableEntry>, name: Seq<char>) -> bool {
    forall|i: int| 0 <= i < tables.len() ==> (#[trigger] tables[i]).table.name != name
}

/// A valid table can be created where its name is free, a number is left for it, and
/// its record fits into a page; and nowhere else.
pub proof fn tables_with_a_free_name_can_be_created(state: CatalogState, entry: TableEntry)
    requires
        entry.table.valid(),
    ensures
        state.creation_fault(entry.table) is None <==> {
            &&& is_free(state.tables, entry.table.name)
            &&& state.next_table_id < u32::MAX
            &&& entry.encoded().len() <= 8152
        },
{
    record_format::lemma_record_length(entry);
    lemma_free_names(state.tables, entry.table.name);
}

proof fn lemma_free_names(tables: Seq<TableEntry>, name: Seq<char>)
    ensures
        catalog_model::has_name(tables, name) <==> !is_free(tables, name),
{
    if catalog_model::has_name(tables, name) {
        let i = choose|i: int| 0 <= i < tables.len() && (#[trigger] tables[i]).table.name == name;
        assert(tables[i].table.name == name);
    }
}

/// What is said of a table that cannot be created is true: its name is in use, or no
/// number is left, or its record has the given size and is too large for a page. The
/// name comes first, the number second.
pub proof fn creation_faults_are_true(state: CatalogState, entry: TableEntry)
    requires
        entry.table.valid(),
    ensures
        ({
            let fault = state.creation_fault(entry.table);
            let name = entry.table.name;
            let size = entry.encoded().len();
            &&& fault == Some(CatalogFault::DuplicateTableName(name)) <==> !is_free(
                state.tables,
                name,
            )
            &&& fault == Some(CatalogFault::TableIdExhausted) <==> is_free(state.tables, name)
                && state.next_table_id == u32::MAX
            &&& is_free(state.tables, name) && state.next_table_id < u32::MAX && size > 8152
                ==> fault == Some(
                CatalogFault::TableRecordTooLarge { size: size as usize, maximum: 8152 },
            )
        }),
{
    record_format::lemma_record_length(entry);
    table_laws::encoded_tables_are_bounded(entry.table);
    lemma_free_names(state.tables, entry.table.name);
}

/// A registered table is one table more, under the number that was next; the next
/// table gets the number after it, and the heap of the catalog stays.
pub proof fn tables_are_numbered_in_order(state: CatalogState, entry: TableEntry)
    requires
        state.wf(),
        state.creation_fault(entry.table) is None,
        entry.valid(),
        entry.id == TableId(state.next_table_id),
    ensures
        state.register(entry).wf(),
        state.register(entry).tables.len() == state.tables.len() + 1,
        state.register(entry).next_table_id == state.next_table_id + 1,
        state.register(entry).pages == state.pages,
        forall|other: TableEntry| #[trigger]
            state.tables.contains(other) ==> other.id.0 < entry.id.0,
{
    let highest = choose|highest: u32| #[trigger]
        catalog_model::is_highest(state.tables, highest) && state.next_table_id
            == catalog_model::id_after(highest);
    let after = state.register(entry);
    catalog_laws::registered_tables_are_found(state, entry);
    catalog_model::lemma_with_table(state.tables, entry);
    catalog_model::lemma_ids_after(state.tables, entry, highest);
    assert(catalog_model::is_highest(after.tables, entry.id.0));
    assert forall|i: int| 0 <= i < after.tables.len() implies (
    #[trigger] after.tables[i]).valid() by {
        if after.tables[i] != entry {
            let j = choose|j: int|
                0 <= j < state.tables.len() && state.tables[j] == after.tables[i];
            assert(state.tables[j].valid());
        }
    }
    assert forall|other: TableEntry| #[trigger] state.tables.contains(other) implies other.id.0
        < entry.id.0 by {
        let i = choose|i: int| 0 <= i < state.tables.len() && state.tables[i] == other;
        assert(state.tables[i].id.0 <= highest);
    }
}

/// A table is created in a new page for its heap; its record goes to the pages of the
/// catalog in turn, behind them to a new page, which the last page is linked to.
pub proof fn creations_ask_for_pages(state: CatalogState, creation: TableCreationState)
    requires
        state.wf(),
        creation.wf(state),
    ensures
        match creation {
            TableCreationState::Heap(_, _) => creation.request(state) == PageRequest::Allocate,
            TableCreationState::Record(_, InsertStep::Visit(index)) => creation.request(state)
                == PageRequest::Write(state.pages[index as int]),
            TableCreationState::Record(_, InsertStep::Append) => creation.request(state)
                == PageRequest::Allocate,
            TableCreationState::Record(_, InsertStep::Link(_, _)) => creation.request(state)
                == PageRequest::Write(state.pages[state.pages.len() - 1]),
            TableCreationState::Record(_, InsertStep::Inserted(_)) => false,
        },
{
}

/// The record of a table is `NTBL`, version 1, two zero bytes, the number, the first
/// page of the heap and the length of the schema, little-endian, and the schema.
pub proof fn records_have_their_fields(entry: TableEntry)
    requires
        entry.table.valid(),
    ensures
        ({
            let record = entry.encoded();
            let schema = entry.table.encoded();
            &&& record.len() == 20 + schema.len()
            &&& record.subrange(0, 8) == seq![78u8, 84, 66, 76, 1, 0, 0, 0]
            &&& codec::u32_at(record, 8) == entry.id.0
            &&& codec::u32_at(record, 12) == entry.heap_root.0
            &&& codec::u32_at(record, 16) == schema.len()
            &&& record.subrange(20, record.len() as int) == schema
        }),
{
    let record = entry.encoded();
    table_laws::encoded_tables_are_bounded(entry.table);
    record_format::lemma_record_fields(
        record,
        entry.id.0,
        entry.heap_root.0,
        entry.table.encoded(),
    );
    assert(record.subrange(0, 8) =~= seq![78u8, 84, 66, 76, 1, 0, 0, 0]);
}

/// The tables of a catalog are listed by name, in the order of the bytes of the names,
/// and no two have the same number. The next table gets the number after the highest,
/// or 1 where there is no table.
pub proof fn tables_are_listed_by_name(state: CatalogState)
    requires
        state.wf(),
    ensures
        forall|i: int, j: int|
            0 <= i < j < state.tables.len() ==> text::text_precedes(
                (#[trigger] state.tables[i]).table.name,
                (#[trigger] state.tables[j]).table.name,
            ),
        forall|i: int, j: int|
            0 <= i < j < state.tables.len() ==> (#[trigger] state.tables[i]).id.0 != (
            #[trigger] state.tables[j]).id.0,
        state.tables.len() == 0 ==> state.next_table_id == 1,
        forall|i: int|
            0 <= i < state.tables.len() ==> (#[trigger] state.tables[i]).id.0 < state.next_table_id
                || state.next_table_id == 0xffff_ffff,
        state.tables.len() > 0 && state.next_table_id < 0xffff_ffff ==> exists|i: int|
            0 <= i < state.tables.len() && (#[trigger] state.tables[i]).id.0 + 1
                == state.next_table_id,
{
    let highest = choose|highest: u32| #[trigger]
        catalog_model::is_highest(state.tables, highest) && state.next_table_id
            == catalog_model::id_after(highest);
    if state.tables.len() > 0 {
        let i = choose|i: int|
            0 <= i < state.tables.len() && (#[trigger] state.tables[i]).id == TableId(highest);
        assert(state.tables[i].id.0 == highest);
    }
}

/// The tables of a catalog are numbered from one, have a heap behind the header page,
/// and each is a table that can be declared.
pub proof fn catalogs_hold_valid_tables(state: CatalogState, index: int)
    requires
        state.wf(),
        0 <= index < state.tables.len(),
    ensures
        state.tables[index].id.0 >= 1,
        state.tables[index].heap_root.0 >= 1,
        declaration_laws::is_declarable(state.tables[index].table),
{
    assert(state.tables[index].valid());
    declaration_laws::declarable_tables_are_valid(state.tables[index].table);
}

/// An error of the catalog says what its fault says.
pub proof fn errors_say_their_faults(error: CatalogError)
    ensures
        match error {
            CatalogError::Buffer(inner) => error@ == CatalogFault::Buffer(*inner),
            CatalogError::Heap(inner) => error@ == CatalogFault::Heap(*inner),
            CatalogError::Schema(inner) => error@ == CatalogFault::Schema(inner@),
            CatalogError::AlreadyInitialized(page_id) => error@ == CatalogFault::AlreadyInitialized(
                page_id,
            ),
            CatalogError::NotInitialized => error@ == CatalogFault::NotInitialized,
            CatalogError::DuplicateTableName(name) => error@ == CatalogFault::DuplicateTableName(
                name@,
            ),
            CatalogError::DuplicateTableId(id) => error@ == CatalogFault::DuplicateTableId(id),
            CatalogError::TableNotFound(name) => error@ == CatalogFault::TableNotFound(name@),
            CatalogError::TableIdExhausted => error@ == CatalogFault::TableIdExhausted,
            CatalogError::TableRecordTooLarge { size, maximum } => error@ == (
            CatalogFault::TableRecordTooLarge { size, maximum }),
            CatalogError::CorruptRecord(reason) => error@ == CatalogFault::CorruptRecord(reason),
        },
{
}

/// What is said of bytes that are no record of a table is the first thing that is wrong
/// with them: their length, the mark at their start, the version, the flags, the
/// number, the heap, the length of the schema; and last what is wrong with the schema.
pub proof fn record_faults_are_true(bytes: Seq<u8>)
    requires
        bytes.len() <= usize::MAX,
    ensures
        ({
            let result = record_format::decode_record(bytes);
            let corrupt = |reason: &'static str| CatalogFault::CorruptRecord(reason);
            let marked = bytes.take(4) == seq![78u8, 84, 66, 76];
            let version = codec::u16_at(bytes, 4);
            let flags = codec::u16_at(bytes, 6);
            let id = codec::u32_at(bytes, 8);
            let root = codec::u32_at(bytes, 12);
            let length = 20 + codec::u32_at(bytes, 16);
            if bytes.len() < 20 {
                result == Err::<TableEntry, CatalogFault>(corrupt("table record is truncated"))
            } else if !marked {
                result == Err::<TableEntry, CatalogFault>(corrupt("invalid table record magic"))
            } else if version != 1 {
                result == Err::<TableEntry, CatalogFault>(
                    corrupt("unsupported table record version"),
                )
            } else if flags != 0 {
                result == Err::<TableEntry, CatalogFault>(
                    corrupt("table record reserved flags are not zero"),
                )
            } else if id == 0 {
                result == Err::<TableEntry, CatalogFault>(corrupt("invalid table ID"))
            } else if root == 0 {
                result == Err::<TableEntry, CatalogFault>(corrupt("invalid table heap root"))
            } else if length != bytes.len() {
                result == Err::<TableEntry, CatalogFault>(
                    corrupt(
                        if length > usize::MAX {
                            "table record length overflow"
                        } else {
                            "table record schema length does not match record"
                        },
                    ),
                )
            } else {
                match table_format::decode_table(bytes.skip(20)) {
                    Err(fault) => result == Err::<TableEntry, CatalogFault>(
                        CatalogFault::Schema(fault),
                    ),
                    Ok(table) => result == Ok::<TableEntry, CatalogFault>(
                        TableEntry { id: TableId(id), heap_root: PageId(root), table },
                    ),
                }
            }
        }),
{
    if bytes.len() >= 20 {
        assert(bytes.subrange(0, 4) =~= bytes.take(4));
        assert(record_format::TABLE_RECORD_MAGIC@ =~= seq![78u8, 84, 66, 76]);
        assert(bytes.subrange(20, bytes.len() as int) =~= bytes.skip(20));
    }
}

/// Listed tables stand for themselves, in the order in which they are listed.
pub proof fn listed_tables_stand_for_themselves(tables: Seq<TableMetadata>, index: int)
    requires
        0 <= index < tables.len(),
    ensures
        entries(tables).len() == tables.len(),
        entries(tables)[index] == tables[index]@,
{
}

} // verus!
