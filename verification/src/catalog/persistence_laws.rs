//! What the heap of a catalog keeps of its tables.

use vstd::prelude::*;

use crate::heap::heap_laws::{self, Heap};
use crate::heap::heap_model::{self, Record};
use crate::storage::{PageId, Rid};

use super::catalog_laws;
use super::catalog_model::{self, CatalogState};
use super::record_format::{self, CatalogFault, TableEntry};
use super::TableId;

verus! {

/// Whether a row is the record of a table.
pub open spec fn is_record_of(heap: Heap, rid: Rid, entry: TableEntry) -> bool {
    heap.is_live(rid) && heap.record(rid) == entry.encoded()
}

/// Whether a heap records these tables: each row is the record of one of them, and
/// each of them has exactly one row.
pub open spec fn recorded(heap: Heap, tables: Seq<TableEntry>) -> bool {
    &&& forall|rid: Rid| #[trigger]
        heap.is_live(rid) ==> {
            &&& record_format::decode_record(heap.record(rid)) is Ok
            &&& tables.contains(record_format::decode_record(heap.record(rid))->Ok_0)
        }
    &&& forall|entry: TableEntry| #[trigger]
        tables.contains(entry) ==> exists|rid: Rid| is_record_of(heap, rid, entry)
    &&& forall|rid: Rid, other: Rid|
        #[trigger] heap.is_live(rid) && #[trigger] heap.is_live(other) && heap.record(rid)
            == heap.record(other) ==> rid == other
}

/// A new catalog, whose heap is one page without rows, is recorded.
pub proof fn new_catalogs_are_recorded(page_id: PageId)
    ensures
        recorded(
            Heap {
                pages: seq![page_id],
                contents: Map::empty().insert(page_id, heap_model::blank_page(page_id)),
            },
            Seq::empty(),
        ),
{
}

/// Creating a table, which inserts its record into the heap of the catalog, keeps
/// the catalog recorded.
pub proof fn created_tables_are_recorded(
    state: CatalogState,
    entry: TableEntry,
    heap: Heap,
    fresh: PageId,
)
    requires
        state.wf(),
        state.creation_fault(entry.table) is None,
        entry.valid(),
        entry.id == TableId(state.next_table_id),
        heap.wf(),
        heap.can_grow_by(fresh),
        recorded(heap, state.tables),
        heap.insert(entry.encoded(), fresh) is Ok,
    ensures
        recorded(
            heap.insert(entry.encoded(), fresh)->Ok_0.0,
            state.register(entry).tables,
        ),
{
    let (after, rid) = heap.insert(entry.encoded(), fresh)->Ok_0;
    let tables = state.register(entry).tables;
    heap_laws::insertions_add_one_row(heap, entry.encoded(), fresh);
    catalog_laws::registered_tables_are_found(state, entry);
    record_format::encoded_records_decode(entry);
    assert(!state.tables.contains(entry)) by {
        if state.tables.contains(entry) {
            let i = choose|i: int| 0 <= i < state.tables.len() && state.tables[i] == entry;
            assert(state.tables[i].id == entry.id);
        }
    }
    assert forall|other: Rid| #[trigger] after.is_live(other) implies {
        &&& record_format::decode_record(after.record(other)) is Ok
        &&& tables.contains(record_format::decode_record(after.record(other))->Ok_0)
    } by {
        if other != rid {
            assert(heap.is_live(other));
        }
    }
    assert forall|other: TableEntry| #[trigger] tables.contains(other) implies exists|found: Rid|
        is_record_of(after, found, other) by {
        if other == entry {
            assert(is_record_of(after, rid, other));
        } else {
            assert(state.tables.contains(other));
            let found = choose|found: Rid| is_record_of(heap, found, other);
            assert(heap.is_live(found));
            assert(is_record_of(after, found, other));
        }
    }
    assert forall|first: Rid, second: Rid|
        #[trigger] after.is_live(first) && #[trigger] after.is_live(second) && after.record(first)
            == after.record(second) implies first == second by {
        if first != rid {
            assert(heap.is_live(first));
        }
        if second != rid {
            assert(heap.is_live(second));
        }
    }
}

/// Opening a catalog again loads the tables that were created, from the rows that
/// a scan of its heap lists.
pub proof fn recorded_catalogs_reopen(state: CatalogState, heap: Heap)
    requires
        state.wf(),
        heap.wf(),
        recorded(heap, state.tables),
    ensures
        ({
            let rows = heap.rows(heap.pages.len() as int);
            catalog_model::load(catalog_laws::contents_of(rows), rows.len() as int) == Ok::<
                Seq<TableEntry>,
                CatalogFault,
            >(state.tables)
        }),
{
    let rows = heap.rows(heap.pages.len() as int);
    let order = Seq::new(
        rows.len(),
        |i: int| record_format::decode_record(rows[i].bytes)->Ok_0,
    );
    assert forall|i: int| 0 <= i < rows.len() implies heap.is_live((#[trigger] rows[i]).rid)
        && heap.record(rows[i].rid) == rows[i].bytes by {
        assert(rows.contains(rows[i]));
        heap_laws::scans_list_the_rows(heap, rows[i].rid, rows[i].bytes);
    }
    assert forall|i: int| 0 <= i < rows.len() implies (#[trigger] order[i]).encoded()
        == rows[i].bytes && state.tables.contains(order[i]) by {
        assert(heap.is_live(rows[i].rid));
        record_format::decoded_records_encode(rows[i].bytes);
    }
    assert forall|i: int, j: int| 0 <= i < rows.len() && 0 <= j < rows.len() && i
        != j implies order[i] != order[j] by {
        if i < j {
            heap_laws::scans_list_rows_once(heap, i, j);
        } else {
            heap_laws::scans_list_rows_once(heap, j, i);
        }
        assert(heap.is_live(rows[i].rid));
        assert(heap.is_live(rows[j].rid));
    }
    assert forall|entry: TableEntry| #[trigger] order.contains(entry)
        <==> state.tables.contains(entry) by {
        if order.contains(entry) {
            let i = choose|i: int| 0 <= i < order.len() && order[i] == entry;
            assert(state.tables.contains(order[i]));
        }
        if state.tables.contains(entry) {
            let i = choose|i: int| 0 <= i < state.tables.len() && state.tables[i] == entry;
            assert(state.tables[i].valid());
            record_format::encoded_records_decode(entry);
            let rid = choose|rid: Rid| is_record_of(heap, rid, entry);
            heap_laws::scans_list_the_rows(heap, rid, entry.encoded());
            let j = choose|j: int|
                0 <= j < rows.len() && rows[j] == (Record { rid, bytes: entry.encoded() });
            assert(order[j] == entry);
        }
    }
    catalog_laws::catalogs_reopen(state, order);
    assert(catalog_laws::contents_of(rows) =~= catalog_laws::records_of(order));
}

} // verus!
