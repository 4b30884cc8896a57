//! What holds of every catalog.

use vstd::prelude::*;

use crate::heap::heap_model::Record;
use crate::storage::PageId;
use crate::text;

use super::catalog_model::{self, CatalogState, OpeningOutcome, OpeningState};
use super::record_format::{self, CatalogFault, TableEntry};
use super::TableId;

verus! {

/// A table that is registered is one of the tables from then on, under its name
/// and a number that was not in use, and the other tables stay.
pub proof fn registered_tables_are_found(state: CatalogState, entry: TableEntry)
    requires
        state.wf(),
        state.creation_fault(entry.table) is None,
        entry.id == TableId(state.next_table_id),
    ensures
        !catalog_model::has_id(state.tables, entry.id),
        !catalog_model::has_name(state.tables, entry.table.name),
        catalog_model::has_name(state.register(entry).tables, entry.table.name),
        forall|other: TableEntry| #[trigger]
            state.register(entry).tables.contains(other) <==> state.tables.contains(other) || other
                == entry,
{
    let after = state.register(entry).tables;
    catalog_model::lemma_with_table(state.tables, entry);
    assert(after.contains(entry));
    let i = choose|i: int| 0 <= i < after.len() && after[i] == entry;
    assert(after[i].table.name == entry.table.name);
}

/// A second table of the same name is refused.
pub proof fn names_are_taken_once(state: CatalogState, entry: TableEntry, other: TableEntry)
    requires
        state.wf(),
        state.creation_fault(entry.table) is None,
        entry.id == TableId(state.next_table_id),
        other.table.name == entry.table.name,
    ensures
        state.register(entry).creation_fault(other.table) == Some(
            CatalogFault::DuplicateTableName(other.table.name),
        ),
{
    registered_tables_are_found(state, entry);
}

/// Opening a catalog again gives the same tables and the same next number, in
/// whatever order its heap lists the records.
pub proof fn catalogs_reopen(state: CatalogState, order: Seq<TableEntry>)
    requires
        state.wf(),
        order.no_duplicates(),
        forall|entry: TableEntry| #[trigger]
            order.contains(entry) <==> state.tables.contains(entry),
    ensures
        catalog_model::load(records_of(order), order.len() as int) == Ok::<
            Seq<TableEntry>,
            CatalogFault,
        >(state.tables),
        forall|next: u32| #[trigger]
            catalog_model::is_next(state.tables, next) ==> next == state.next_table_id,
{
    lemma_load(state, order, order.len() as int);
    let loaded = catalog_model::load(records_of(order), order.len() as int)->Ok_0;
    assert(order.take(order.len() as int) =~= order);
    lemma_sorted_is_unique(loaded, state.tables);
    assert forall|next: u32| #[trigger] catalog_model::is_next(state.tables, next) implies next
        == state.next_table_id by {
        lemma_highest_is_unique(state.tables, next, state.next_table_id);
    }
}

/// The records of tables, in order.
pub open spec fn records_of(order: Seq<TableEntry>) -> Seq<Seq<u8>> {
    Seq::new(order.len(), |i: int| order[i].encoded())
}

/// Opening a catalog loads one record after the other, and comes to what loading
/// all of them comes to.
pub proof fn openings_load_the_records(
    pages: Seq<PageId>,
    tables: Seq<TableEntry>,
    records: Seq<Record>,
    index: int,
)
    requires
        0 <= index <= records.len(),
        catalog_model::load(contents_of(records), index) == Ok::<Seq<TableEntry>, CatalogFault>(
            tables,
        ),
    ensures
        match catalog_model::next_record(pages, tables, records, index) {
            OpeningOutcome::Failed(fault) => catalog_model::load(
                contents_of(records),
                records.len() as int,
            ) == Err::<Seq<TableEntry>, CatalogFault>(fault),
            OpeningOutcome::Visit(OpeningState::Table { tables: loaded, entry, .. }) => {
                &&& loaded == tables
                &&& catalog_model::load(contents_of(records), index + 1) == Ok::<
                    Seq<TableEntry>,
                    CatalogFault,
                >(catalog_model::with_table(tables, entry))
            },
            OpeningOutcome::Visit(_) => false,
            OpeningOutcome::Opened(_, loaded) => catalog_model::load(
                contents_of(records),
                records.len() as int,
            ) == Ok::<Seq<TableEntry>, CatalogFault>(loaded),
        },
{
    if index < records.len() {
        assert(contents_of(records)[index] == records[index].bytes);
        if catalog_model::load(contents_of(records), index + 1) is Err {
            lemma_load_fault_stays(contents_of(records), index + 1, records.len() as int);
        }
    }
}

/// What the records hold.
pub open spec fn contents_of(records: Seq<Record>) -> Seq<Seq<u8>> {
    Seq::new(records.len(), |i: int| records[i].bytes)
}

/// Where the first records cannot be loaded, all of them cannot.
pub proof fn lemma_load_fault_stays(records: Seq<Seq<u8>>, shorter: int, longer: int)
    requires
        shorter <= longer,
        catalog_model::load(records, shorter) is Err,
    ensures
        catalog_model::load(records, longer) == catalog_model::load(records, shorter),
    decreases longer,
{
    if shorter < longer {
        lemma_load_fault_stays(records, shorter, longer - 1);
    }
}

/// In a catalog, name and number each tell the tables apart.
proof fn lemma_told_apart(state: CatalogState, first: TableEntry, second: TableEntry)
    requires
        state.wf(),
        state.tables.contains(first),
        state.tables.contains(second),
        first.id == second.id || first.table.name == second.table.name,
    ensures
        first == second,
{
    let tables = state.tables;
    let i = choose|i: int| 0 <= i < tables.len() && tables[i] == first;
    let j = choose|j: int| 0 <= j < tables.len() && tables[j] == second;
    text::lemma_order_is_strict(first.table.name);
    if i < j {
        assert(text::text_precedes(tables[i].table.name, tables[j].table.name));
        assert(tables[i].id != tables[j].id);
    } else if j < i {
        assert(text::text_precedes(tables[j].table.name, tables[i].table.name));
        assert(tables[j].id != tables[i].id);
    }
}

/// Loading the first records gives their tables, sorted.
proof fn lemma_load(state: CatalogState, order: Seq<TableEntry>, count: int)
    requires
        state.wf(),
        order.no_duplicates(),
        forall|entry: TableEntry| #[trigger]
            order.contains(entry) <==> state.tables.contains(entry),
        0 <= count <= order.len(),
    ensures
        ({
            let loaded = catalog_model::load(records_of(order), count);
            &&& loaded is Ok
            &&& catalog_model::sorted(loaded->Ok_0)
            &&& forall|entry: TableEntry| #[trigger]
                loaded->Ok_0.contains(entry) <==> order.take(count).contains(entry)
        }),
    decreases count,
{
    if count > 0 {
        lemma_load(state, order, count - 1);
        let before = catalog_model::load(records_of(order), count - 1)->Ok_0;
        let entry = order[count - 1];
        lemma_next_is_new(state, order, before, count - 1);
        lemma_admission(before, entry);
        assert(records_of(order)[count - 1] == entry.encoded());
        catalog_model::lemma_with_table(before, entry);
        let after = catalog_model::with_table(before, entry);
        assert forall|other: TableEntry| #[trigger] after.contains(other) <==> order.take(
            count,
        ).contains(other) by {
            lemma_take_one_more(order, count, other);
            assert(before.contains(other) <==> order.take(count - 1).contains(other));
        }
    }
}

/// The record of a valid table with a new name and number can be loaded.
proof fn lemma_admission(tables: Seq<TableEntry>, entry: TableEntry)
    requires
        entry.valid(),
        forall|i: int|
            0 <= i < tables.len() ==> (#[trigger] tables[i]).id != entry.id && tables[i].table.name
                != entry.table.name,
    ensures
        catalog_model::admission(tables, entry.encoded()) == Ok::<TableEntry, CatalogFault>(entry),
        !catalog_model::has_name(tables, entry.table.name),
{
    record_format::encoded_records_decode(entry);
}

proof fn lemma_take_one_more(order: Seq<TableEntry>, count: int, other: TableEntry)
    requires
        0 < count <= order.len(),
    ensures
        order.take(count).contains(other) <==> order.take(count - 1).contains(other) || other
            == order[count - 1],
{
    let shorter = order.take(count - 1);
    let longer = order.take(count);
    if shorter.contains(other) {
        let k = choose|k: int| 0 <= k < shorter.len() && shorter[k] == other;
        assert(longer[k] == other);
    }
    if other == order[count - 1] {
        assert(longer[count - 1] == other);
    }
    if longer.contains(other) {
        let k = choose|k: int| 0 <= k < longer.len() && longer[k] == other;
        if k < count - 1 {
            assert(shorter[k] == other);
        }
    }
}

/// The next table of a catalog is valid and differs from those before it in name
/// and number.
proof fn lemma_next_is_new(
    state: CatalogState,
    order: Seq<TableEntry>,
    before: Seq<TableEntry>,
    index: int,
)
    requires
        state.wf(),
        order.no_duplicates(),
        forall|entry: TableEntry| #[trigger]
            order.contains(entry) <==> state.tables.contains(entry),
        0 <= index < order.len(),
        forall|entry: TableEntry| #[trigger]
            before.contains(entry) <==> order.take(index).contains(entry),
    ensures
        order[index].valid(),
        forall|i: int|
            0 <= i < before.len() ==> (#[trigger] before[i]).id != order[index].id
                && before[i].table.name != order[index].table.name,
{
    let entry = order[index];
    let shorter = order.take(index);
    assert(order.contains(entry));
    let place = choose|i: int| 0 <= i < state.tables.len() && state.tables[i] == entry;
    assert(state.tables[place].valid());
    assert forall|i: int| 0 <= i < before.len() implies (#[trigger] before[i]).id != entry.id
        && before[i].table.name != entry.table.name by {
        assert(before.contains(before[i]));
        assert(shorter.contains(before[i]));
        let k = choose|k: int| 0 <= k < shorter.len() && shorter[k] == before[i];
        assert(order[k] == before[i]);
        assert(order.contains(order[k]));
        assert(order[k] != order[index]);
        if before[i].id == entry.id || before[i].table.name == entry.table.name {
            lemma_told_apart(state, before[i], entry);
        }
    }
}

/// Sorted tables with the same elements are the same.
proof fn lemma_sorted_is_unique(left: Seq<TableEntry>, right: Seq<TableEntry>)
    requires
        catalog_model::sorted(left),
        catalog_model::sorted(right),
        forall|entry: TableEntry| #[trigger] left.contains(entry) <==> right.contains(entry),
    ensures
        left == right,
    decreases left.len(),
{
    if left.len() == 0 {
        if right.len() > 0 {
            assert(right.contains(right[0]));
            assert(left.contains(right[0]));
        }
        assert(left =~= right);
    } else {
        let a = left.last();
        let b = right.last();
        assert(left[left.len() - 1] == a);
        assert(left.contains(a));
        assert(right.contains(a));
        let i = choose|i: int| 0 <= i < right.len() && right[i] == a;
        assert(right[right.len() - 1] == b);
        assert(right.contains(b));
        assert(left.contains(b));
        let j = choose|j: int| 0 <= j < left.len() && left[j] == b;
        if i < right.len() - 1 && j < left.len() - 1 {
            assert(text::text_precedes(right[i].table.name, right[right.len() - 1].table.name));
            assert(text::text_precedes(left[j].table.name, left[left.len() - 1].table.name));
            text::lemma_order_is_transitive(a.table.name, b.table.name, a.table.name);
            text::lemma_order_is_strict(a.table.name);
        }
        assert(a == b);
        lemma_without_last(left);
        lemma_without_last(right);
        let shorter_left = left.drop_last();
        let shorter_right = right.drop_last();
        assert forall|entry: TableEntry| #[trigger] shorter_left.contains(
            entry,
        ) <==> shorter_right.contains(entry) by {
            assert(left.contains(entry) <==> right.contains(entry));
        }
        lemma_sorted_is_unique(shorter_left, shorter_right);
        assert(left =~= shorter_left.push(a));
        assert(right =~= shorter_right.push(b));
    }
}

/// Sorted tables without their last one hold the others.
proof fn lemma_without_last(tables: Seq<TableEntry>)
    requires
        catalog_model::sorted(tables),
        tables.len() > 0,
    ensures
        catalog_model::sorted(tables.drop_last()),
        forall|entry: TableEntry| #[trigger]
            tables.drop_last().contains(entry) <==> tables.contains(entry) && entry
                != tables.last(),
{
    let shorter = tables.drop_last();
    let last = tables.len() - 1;
    assert forall|entry: TableEntry| #[trigger] shorter.contains(entry) <==> tables.contains(entry)
        && entry != tables.last() by {
        if shorter.contains(entry) {
            let i = choose|i: int| 0 <= i < shorter.len() && shorter[i] == entry;
            assert(tables[i] == entry);
            assert(text::text_precedes(tables[i].table.name, tables[last].table.name));
            text::lemma_order_is_strict(entry.table.name);
        }
        if tables.contains(entry) && entry != tables.last() {
            let i = choose|i: int| 0 <= i < tables.len() && tables[i] == entry;
            assert(shorter[i] == entry);
        }
    }
    assert forall|i: int, j: int| 0 <= i < j < shorter.len() implies text::text_precedes(
        (#[trigger] shorter[i]).table.name,
        (#[trigger] shorter[j]).table.name,
    ) by {
        assert(shorter[i] == tables[i] && shorter[j] == tables[j]);
    }
}

/// There is one number that follows the highest.
proof fn lemma_highest_is_unique(tables: Seq<TableEntry>, first: u32, second: u32)
    requires
        catalog_model::is_next(tables, first),
        catalog_model::is_next(tables, second),
    ensures
        first == second,
{
    let a = choose|highest: u32| #[trigger]
        catalog_model::is_highest(tables, highest) && first == catalog_model::id_after(highest);
    let b = choose|highest: u32| #[trigger]
        catalog_model::is_highest(tables, highest) && second == catalog_model::id_after(highest);
    if tables.len() > 0 {
        let i = choose|i: int| 0 <= i < tables.len() && (#[trigger] tables[i]).id == TableId(a);
        let j = choose|j: int| 0 <= j < tables.len() && (#[trigger] tables[j]).id == TableId(b);
        assert(tables[i].id.0 <= b && tables[j].id.0 <= a);
    }
}

} // verus!
