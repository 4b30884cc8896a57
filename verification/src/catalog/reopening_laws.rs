//! What opening a catalog comes to, page by page.

use vstd::prelude::*;

use crate::heap::heap_file::ScanState;
use crate::heap::heap_laws::Heap;
use crate::heap::heap_model;
use crate::heap::page_format;
use crate::heap::HeapFileError;
use crate::storage::PageId;

use super::catalog_laws;
use super::catalog_model::{self, CatalogState, OpeningOutcome, OpeningState};
use super::opening::{self, CatalogStep};
use super::persistence_laws;
use super::record_format::{self, CatalogFault, TableEntry};
use super::CatalogError;

verus! {

/// What an opening in this state comes to if it is given page after page of the file,
/// each as it asks for it, and stops after `steps` more of them.
pub open spec fn outcome(
    state: OpeningState,
    file: Map<PageId, Seq<u8>>,
    steps: nat,
) -> OpeningOutcome
    decreases steps,
{
    match state.visit(state.page_id(), file[state.page_id()]) {
        OpeningOutcome::Visit(next) => if steps == 0 {
            OpeningOutcome::Visit(next)
        } else {
            outcome(next, file, (steps - 1) as nat)
        },
        other => other,
    }
}

/// Whether the page at place `index` is valid and linked to the next one; the last page
/// is linked to none.
pub open spec fn is_linked(file: Map<PageId, Seq<u8>>, pages: Seq<PageId>, index: int) -> bool {
    let bytes = file[pages[index]];
    &&& page_format::page_fault(bytes) is None
    &&& page_format::next_page(bytes) == if index + 1 < pages.len() {
        Some(pages[index + 1])
    } else {
        None
    }
}

/// Whether these are pages of a heap in the file: none of them twice, each valid and
/// linked to the next.
pub open spec fn is_chain(file: Map<PageId, Seq<u8>>, pages: Seq<PageId>) -> bool {
    &&& pages.len() > 0
    &&& pages.no_duplicates()
    &&& forall|i: int| 0 <= i < pages.len() ==> #[trigger] is_linked(file, pages, i)
}

/// Whether a heap in the file starts at this page.
pub open spec fn has_heap(file: Map<PageId, Seq<u8>>, root: PageId) -> bool {
    exists|pages: Seq<PageId>| #[trigger] is_chain(file, pages) && pages[0] == root
}

/// The heap with these pages.
pub open spec fn heap_in(file: Map<PageId, Seq<u8>>, pages: Seq<PageId>) -> Heap {
    Heap {
        pages,
        contents: Map::new(
            |page_id: PageId| pages.contains(page_id),
            |page_id: PageId| page_format::content(page_id, file[page_id]),
        ),
    }
}

/// The tables whose records are the rows of these pages.
pub open spec fn tables_in(file: Map<PageId, Seq<u8>>, pages: Seq<PageId>) -> Result<
    Seq<TableEntry>,
    CatalogFault,
> {
    let rows = heap_in(file, pages).rows(pages.len() as int);
    catalog_model::load(catalog_laws::contents_of(rows), rows.len() as int)
}

/// Whether an opening of the catalog at `root` can be in this state.
spec fn reached(file: Map<PageId, Seq<u8>>, root: PageId, state: OpeningState) -> bool {
    match state {
        OpeningState::Root(pages) => is_start(file, root, pages),
        OpeningState::Scan(pages, scan) => {
            &&& is_chain(file, pages)
            &&& pages[0] == root
            &&& 0 <= scan.index < pages.len()
            &&& scan.records == heap_in(file, pages).rows(scan.index)
        },
        OpeningState::Table { pages, tables, entry, records, index, chain } => {
            &&& is_chain(file, pages)
            &&& pages[0] == root
            &&& records == heap_in(file, pages).rows(pages.len() as int)
            &&& 0 <= index < records.len()
            &&& catalog_model::load(catalog_laws::contents_of(records), index) == Ok::<
                Seq<TableEntry>,
                CatalogFault,
            >(tables)
            &&& catalog_model::admission(tables, records[index].bytes) == Ok::<
                TableEntry,
                CatalogFault,
            >(entry)
            &&& heaps_are_there(file, tables)
            &&& is_start(file, entry.heap_root, chain)
        },
    }
}

/// Whether these are the first pages of a heap, the last of which is not read yet.
spec fn is_start(file: Map<PageId, Seq<u8>>, root: PageId, pages: Seq<PageId>) -> bool {
    &&& pages.len() > 0
    &&& pages[0] == root
    &&& pages.no_duplicates()
    &&& forall|i: int| 0 <= i < pages.len() - 1 ==> #[trigger] is_linked(file, pages, i)
}

/// Whether the heap of every table is in the file.
pub open spec fn heaps_are_there(file: Map<PageId, Seq<u8>>, tables: Seq<TableEntry>) -> bool {
    forall|i: int| 0 <= i < tables.len() ==> has_heap(file, (#[trigger] tables[i]).heap_root)
}

/// Whether a fault of an opening is true of the file: a page of one of the heaps is
/// not valid, or is linked to a page before it, or the rows of the catalog cannot be
/// loaded.
pub open spec fn is_true_of(file: Map<PageId, Seq<u8>>, root: PageId, fault: CatalogFault) -> bool {
    match fault {
        CatalogFault::Heap(HeapFileError::PageChainCycle(page_id)) => exists|linked: PageId|
            page_format::next_page(#[trigger] file[linked]) == Some(page_id),
        CatalogFault::Heap(error) => exists|page_id: PageId| {
            &&& page_format::page_fault(#[trigger] file[page_id]) is Some
            &&& heap_model::page_error(file[page_id]) == Some(error)
        },
        other => exists|pages: Seq<PageId>| #[trigger]
            is_chain(file, pages) && pages[0] == root && tables_in(file, pages) == Err::<
                Seq<TableEntry>,
                CatalogFault,
            >(other),
    }
}

/// Loading records gives the tables that they describe, all of them and no others,
/// sorted by name.
pub proof fn loaded_tables_are_those_of_the_records(records: Seq<Seq<u8>>, count: int)
    requires
        0 <= count <= records.len(),
    ensures
        catalog_model::load(records, count) matches Ok(tables) ==> {
            &&& catalog_model::sorted(tables)
            &&& tables.len() == count
            &&& forall|entry: TableEntry| #[trigger]
                tables.contains(entry) <==> exists|i: int|
                    0 <= i < count && record_format::decode_record(#[trigger] records[i]) == Ok::<
                        TableEntry,
                        CatalogFault,
                    >(entry)
        },
    decreases count,
{
    if count > 0 && catalog_model::load(records, count) is Ok {
        loaded_tables_are_those_of_the_records(records, count - 1);
        let before = catalog_model::load(records, count - 1)->Ok_0;
        let tables = catalog_model::load(records, count)->Ok_0;
        let last = record_format::decode_record(records[count - 1])->Ok_0;
        catalog_model::lemma_with_table(before, last);
        assert forall|entry: TableEntry| #[trigger] tables.contains(entry) <==> exists|i: int|
            0 <= i < count && record_format::decode_record(#[trigger] records[i]) == Ok::<
                TableEntry,
                CatalogFault,
            >(entry) by {
            assert(before.contains(entry) <==> exists|i: int|
                0 <= i < count - 1 && record_format::decode_record(#[trigger] records[i]) == Ok::<
                    TableEntry,
                    CatalogFault,
                >(entry));
            assert(record_format::decode_record(records[count - 1]) == Ok::<
                TableEntry,
                CatalogFault,
            >(last));
        }
    }
}

/// Records can be loaded exactly where each of them can be decoded and no two of them
/// have the same number or the same name.
pub proof fn distinct_records_can_be_loaded(records: Seq<Seq<u8>>, count: int)
    requires
        0 <= count <= records.len(),
    ensures
        catalog_model::load(records, count) is Ok <==> {
            &&& forall|i: int|
                0 <= i < count ==> record_format::decode_record(#[trigger] records[i]) is Ok
            &&& forall|i: int, j: int|
                0 <= i < j < count ==> {
                    let first = record_format::decode_record(#[trigger] records[i])->Ok_0;
                    let second = record_format::decode_record(#[trigger] records[j])->Ok_0;
                    first.id != second.id && first.table.name != second.table.name
                }
        },
    decreases count,
{
    if count > 0 {
        distinct_records_can_be_loaded(records, count - 1);
        loaded_tables_are_those_of_the_records(records, count - 1);
        if catalog_model::load(records, count - 1) is Ok
            && record_format::decode_record(records[count - 1]) is Ok {
            let before = catalog_model::load(records, count - 1)->Ok_0;
            let last = record_format::decode_record(records[count - 1])->Ok_0;
            assert forall|i: int| 0 <= i < count - 1 implies before.contains(
                #[trigger] record_format::decode_record(records[i])->Ok_0,
            ) by {
                assert(record_format::decode_record(records[i]) is Ok);
            }
            if catalog_model::load(records, count) is Ok {
                assert forall|i: int, j: int| 0 <= i < j < count implies {
                    let first = record_format::decode_record(#[trigger] records[i])->Ok_0;
                    let second = record_format::decode_record(#[trigger] records[j])->Ok_0;
                    first.id != second.id && first.table.name != second.table.name
                } by {
                    if j == count - 1 {
                        let first = record_format::decode_record(records[i])->Ok_0;
                        assert(before.contains(first));
                        let k = choose|k: int| 0 <= k < before.len() && before[k] == first;
                        assert(before[k].id != last.id && before[k].table.name != last.table.name);
                    }
                }
            } else {
                let k = choose|k: int|
                    0 <= k < before.len() && ((#[trigger] before[k]).id == last.id
                        || before[k].table.name == last.table.name);
                assert(before.contains(before[k]));
                let i = choose|i: int|
                    0 <= i < count - 1 && record_format::decode_record(#[trigger] records[i])
                        == Ok::<TableEntry, CatalogFault>(before[k]);
                assert(record_format::decode_record(records[i])->Ok_0 == before[k]);
                assert(i < count - 1);
            }
        }
    }
}

/// What the step of an opening leads to.
proof fn lemma_step(file: Map<PageId, Seq<u8>>, root: PageId, state: OpeningState)
    requires
        reached(file, root, state),
    ensures
        match state.visit(state.page_id(), file[state.page_id()]) {
            OpeningOutcome::Visit(next) => reached(file, root, next),
            OpeningOutcome::Opened(pages, tables) => {
                &&& is_chain(file, pages)
                &&& pages[0] == root
                &&& tables_in(file, pages) == Ok::<Seq<TableEntry>, CatalogFault>(tables)
                &&& heaps_are_there(file, tables)
            },
            OpeningOutcome::Failed(fault) => is_true_of(file, root, fault),
        },
{
    let page_id = state.page_id();
    let bytes = file[page_id];
    if page_format::page_fault(bytes) is None {
        match state {
            OpeningState::Root(pages) => {
                lemma_link(file, root, pages);
                if page_format::next_page(bytes) is None {
                    assert(heap_in(file, pages).rows(0) =~= Seq::empty());
                }
            },
            OpeningState::Scan(pages, scan) => {
                let heap = heap_in(file, pages);
                assert(pages.contains(pages[scan.index]));
                assert(heap.page(scan.index) == page_format::content(page_id, bytes));
                assert(heap.rows(scan.index + 1) == scan.records + heap_model::page_records(
                    heap.page(scan.index),
                ));
                if scan.index + 1 == pages.len() {
                    lemma_next(file, root, pages, Seq::empty(), 0);
                }
            },
            OpeningState::Table { pages, tables, entry, records, index, chain } => {
                lemma_link(file, entry.heap_root, chain);
                if page_format::next_page(bytes) is None {
                    let contents = catalog_laws::contents_of(records);
                    assert(contents[index] == records[index].bytes);
                    assert(has_heap(file, entry.heap_root));
                    lemma_heaps_after(file, contents, tables, entry, index);
                    lemma_next(
                        file,
                        root,
                        pages,
                        catalog_model::with_table(tables, entry),
                        index + 1,
                    );
                }
            },
        }
    } else {
        assert(page_format::page_fault(file[page_id]) is Some);
    }
}

/// What reading the last of the first pages of a heap leads to.
proof fn lemma_link(file: Map<PageId, Seq<u8>>, root: PageId, pages: Seq<PageId>)
    requires
        is_start(file, root, pages),
        page_format::page_fault(file[pages.last()]) is None,
    ensures
        match page_format::next_page(file[pages.last()]) {
            None => is_chain(file, pages) && pages[0] == root,
            Some(next) => !pages.contains(next) ==> is_start(file, root, pages.push(next)),
        },
{
    let last = pages.len() - 1;
    assert(pages.last() == pages[last]);
    match page_format::next_page(file[pages.last()]) {
        None => {
            assert(is_linked(file, pages, last));
        },
        Some(next) => {
            let longer = pages.push(next);
            if !pages.contains(next) {
                assert forall|i: int| 0 <= i < longer.len() - 1 implies #[trigger] is_linked(
                    file,
                    longer,
                    i,
                ) by {
                    assert(longer[i] == pages[i]);
                    if i < last {
                        assert(is_linked(file, pages, i));
                        assert(longer[i + 1] == pages[i + 1]);
                    }
                }
                assert(longer.no_duplicates()) by {
                    assert forall|i: int, j: int|
                        0 <= i < longer.len() && 0 <= j < longer.len() && i
                            != j implies longer[i] != longer[j] by {
                        if i <= last {
                            assert(pages.contains(pages[i]));
                        }
                        if j <= last {
                            assert(pages.contains(pages[j]));
                        }
                    }
                }
            }
        },
    }
}

/// With one more table, whose heap is in the file, all the heaps are.
proof fn lemma_heaps_after(
    file: Map<PageId, Seq<u8>>,
    contents: Seq<Seq<u8>>,
    tables: Seq<TableEntry>,
    entry: TableEntry,
    index: int,
)
    requires
        0 <= index < contents.len(),
        catalog_model::load(contents, index) == Ok::<Seq<TableEntry>, CatalogFault>(tables),
        catalog_model::admission(tables, contents[index]) == Ok::<TableEntry, CatalogFault>(entry),
        heaps_are_there(file, tables),
        has_heap(file, entry.heap_root),
    ensures
        heaps_are_there(file, catalog_model::with_table(tables, entry)),
{
    let after = catalog_model::with_table(tables, entry);
    loaded_tables_are_those_of_the_records(contents, index);
    catalog_model::lemma_with_table(tables, entry);
    assert forall|i: int| 0 <= i < after.len() implies has_heap(
        file,
        (#[trigger] after[i]).heap_root,
    ) by {
        if after[i] != entry {
            let j = choose|j: int| 0 <= j < tables.len() && tables[j] == after[i];
            assert(has_heap(file, tables[j].heap_root));
        }
    }
}

/// What going on with a record leads to.
proof fn lemma_next(
    file: Map<PageId, Seq<u8>>,
    root: PageId,
    pages: Seq<PageId>,
    tables: Seq<TableEntry>,
    index: int,
)
    requires
        is_chain(file, pages),
        pages[0] == root,
        0 <= index <= heap_in(file, pages).rows(pages.len() as int).len(),
        catalog_model::load(
            catalog_laws::contents_of(heap_in(file, pages).rows(pages.len() as int)),
            index,
        ) == Ok::<Seq<TableEntry>, CatalogFault>(tables),
        heaps_are_there(file, tables),
    ensures
        match catalog_model::next_record(
            pages,
            tables,
            heap_in(file, pages).rows(pages.len() as int),
            index,
        ) {
            OpeningOutcome::Visit(next) => reached(file, root, next),
            OpeningOutcome::Opened(found, loaded) => {
                &&& found == pages
                &&& tables_in(file, pages) == Ok::<Seq<TableEntry>, CatalogFault>(loaded)
                &&& heaps_are_there(file, loaded)
            },
            OpeningOutcome::Failed(fault) => is_true_of(file, root, fault),
        },
{
    let records = heap_in(file, pages).rows(pages.len() as int);
    let contents = catalog_laws::contents_of(records);
    if index < records.len() {
        assert(contents[index] == records[index].bytes);
        match catalog_model::admission(tables, records[index].bytes) {
            Err(fault) => {
                catalog_laws::lemma_load_fault_stays(contents, index + 1, records.len() as int);
                assert(tables_in(file, pages) == Err::<Seq<TableEntry>, CatalogFault>(fault));
            },
            Ok(entry) => {},
        }
    }
}

proof fn lemma_outcome(
    file: Map<PageId, Seq<u8>>,
    root: PageId,
    state: OpeningState,
    steps: nat,
)
    requires
        reached(file, root, state),
    ensures
        match outcome(state, file, steps) {
            OpeningOutcome::Visit(next) => reached(file, root, next),
            OpeningOutcome::Opened(pages, tables) => {
                &&& is_chain(file, pages)
                &&& pages[0] == root
                &&& tables_in(file, pages) == Ok::<Seq<TableEntry>, CatalogFault>(tables)
                &&& heaps_are_there(file, tables)
            },
            OpeningOutcome::Failed(fault) => is_true_of(file, root, fault),
        },
    decreases steps,
{
    lemma_step(file, root, state);
    match state.visit(state.page_id(), file[state.page_id()]) {
        OpeningOutcome::Visit(next) => {
            if steps > 0 {
                lemma_outcome(file, root, next, (steps - 1) as nat);
            }
        },
        _ => {},
    }
}

/// An opening that ends with a catalog has followed the heap of the catalog from its
/// root to its last page, has loaded the tables of all of its rows, and has found the
/// whole heap of each of them.
pub proof fn opened_catalogs_have_all_their_tables(
    file: Map<PageId, Seq<u8>>,
    root: PageId,
    steps: nat,
)
    ensures
        outcome(OpeningState::Root(seq![root]), file, steps) matches OpeningOutcome::Opened(
            pages,
            tables,
        ) ==> {
            &&& is_chain(file, pages)
            &&& pages[0] == root
            &&& tables_in(file, pages) == Ok::<Seq<TableEntry>, CatalogFault>(tables)
            &&& heaps_are_there(file, tables)
        },
{
    lemma_outcome(file, root, OpeningState::Root(seq![root]), steps);
}

/// What is said of a catalog that cannot be opened is true of its file.
pub proof fn opening_faults_are_true(file: Map<PageId, Seq<u8>>, root: PageId, steps: nat)
    ensures
        outcome(OpeningState::Root(seq![root]), file, steps) matches OpeningOutcome::Failed(fault)
            ==> is_true_of(file, root, fault),
{
    lemma_outcome(file, root, OpeningState::Root(seq![root]), steps);
}

/// Whether an opening that goes on with this ends with the catalog.
spec fn ends(
    file: Map<PageId, Seq<u8>>,
    so_far: OpeningOutcome,
    pages: Seq<PageId>,
    tables: Seq<TableEntry>,
) -> bool {
    match so_far {
        OpeningOutcome::Visit(state) => exists|steps: nat| #[trigger]
            outcome(state, file, steps) == OpeningOutcome::Opened(pages, tables),
        _ => so_far == OpeningOutcome::Opened(pages, tables),
    }
}

proof fn lemma_one_more(
    file: Map<PageId, Seq<u8>>,
    state: OpeningState,
    pages: Seq<PageId>,
    tables: Seq<TableEntry>,
)
    requires
        ends(file, state.visit(state.page_id(), file[state.page_id()]), pages, tables),
    ensures
        ends(file, OpeningOutcome::Visit(state), pages, tables),
{
    match state.visit(state.page_id(), file[state.page_id()]) {
        OpeningOutcome::Visit(next) => {
            let steps = choose|steps: nat| #[trigger]
                outcome(next, file, steps) == OpeningOutcome::Opened(pages, tables);
            assert(outcome(state, file, steps + 1) == OpeningOutcome::Opened(pages, tables));
        },
        _ => {
            assert(outcome(state, file, 0) == OpeningOutcome::Opened(pages, tables));
        },
    }
}

/// Reading the page at place `index` of a heap leads on to the next page, or to the
/// end of the heap.
proof fn lemma_chain_step(file: Map<PageId, Seq<u8>>, pages: Seq<PageId>, index: int)
    requires
        is_chain(file, pages),
        0 <= index < pages.len(),
    ensures
        page_format::page_fault(file[pages[index]]) is None,
        pages.take(index + 1).last() == pages[index],
        heap_model::open_step(
            pages.take(index + 1),
            page_format::next_page(file[pages[index]]),
        ) == if index + 1 < pages.len() {
            Ok::<(Seq<PageId>, bool), HeapFileError>((pages.take(index + 2), false))
        } else {
            Ok((pages, true))
        },
{
    let visited = pages.take(index + 1);
    assert(is_linked(file, pages, index));
    if index + 1 < pages.len() {
        let next = pages[index + 1];
        if visited.contains(next) {
            let i = choose|i: int| 0 <= i < visited.len() && visited[i] == next;
            assert(pages[i] == pages[index + 1]);
        }
        assert(visited.push(next) =~= pages.take(index + 2));
    } else {
        assert(visited =~= pages);
    }
}

proof fn lemma_root_ends(
    file: Map<PageId, Seq<u8>>,
    pages: Seq<PageId>,
    tables: Seq<TableEntry>,
    index: int,
)
    requires
        is_chain(file, pages),
        tables_in(file, pages) == Ok::<Seq<TableEntry>, CatalogFault>(tables),
        heaps_are_there(file, tables),
        0 <= index < pages.len(),
    ensures
        ends(file, OpeningOutcome::Visit(OpeningState::Root(pages.take(index + 1))), pages, tables),
    decreases pages.len() - index,
{
    let state = OpeningState::Root(pages.take(index + 1));
    lemma_chain_step(file, pages, index);
    if index + 1 < pages.len() {
        lemma_root_ends(file, pages, tables, index + 1);
    } else {
        lemma_scan_ends(file, pages, tables, 0);
        assert(heap_in(file, pages).rows(0) =~= Seq::empty());
    }
    lemma_one_more(file, state, pages, tables);
}

proof fn lemma_scan_ends(
    file: Map<PageId, Seq<u8>>,
    pages: Seq<PageId>,
    tables: Seq<TableEntry>,
    index: int,
)
    requires
        is_chain(file, pages),
        tables_in(file, pages) == Ok::<Seq<TableEntry>, CatalogFault>(tables),
        heaps_are_there(file, tables),
        0 <= index < pages.len(),
    ensures
        ends(
            file,
            OpeningOutcome::Visit(
                OpeningState::Scan(
                    pages,
                    ScanState { index, records: heap_in(file, pages).rows(index) },
                ),
            ),
            pages,
            tables,
        ),
    decreases pages.len() - index,
{
    let heap = heap_in(file, pages);
    let state = OpeningState::Scan(pages, ScanState { index, records: heap.rows(index) });
    lemma_chain_step(file, pages, index);
    assert(pages.contains(pages[index]));
    assert(heap.page(index) == page_format::content(pages[index], file[pages[index]]));
    assert(heap.rows(index + 1) == heap.rows(index) + heap_model::page_records(heap.page(index)));
    if index + 1 < pages.len() {
        lemma_scan_ends(file, pages, tables, index + 1);
    } else {
        lemma_records_end(file, pages, Seq::empty(), tables, 0);
    }
    lemma_one_more(file, state, pages, tables);
}

proof fn lemma_records_end(
    file: Map<PageId, Seq<u8>>,
    pages: Seq<PageId>,
    loaded: Seq<TableEntry>,
    tables: Seq<TableEntry>,
    index: int,
)
    requires
        is_chain(file, pages),
        tables_in(file, pages) == Ok::<Seq<TableEntry>, CatalogFault>(tables),
        heaps_are_there(file, tables),
        0 <= index <= heap_in(file, pages).rows(pages.len() as int).len(),
        catalog_model::load(
            catalog_laws::contents_of(heap_in(file, pages).rows(pages.len() as int)),
            index,
        ) == Ok::<Seq<TableEntry>, CatalogFault>(loaded),
    ensures
        ends(
            file,
            catalog_model::next_record(
                pages,
                loaded,
                heap_in(file, pages).rows(pages.len() as int),
                index,
            ),
            pages,
            tables,
        ),
    decreases heap_in(file, pages).rows(pages.len() as int).len() - index, 0int,
{
    let records = heap_in(file, pages).rows(pages.len() as int);
    let contents = catalog_laws::contents_of(records);
    if index < records.len() {
        assert(contents[index] == records[index].bytes);
        if catalog_model::load(contents, index + 1) is Err {
            catalog_laws::lemma_load_fault_stays(contents, index + 1, records.len() as int);
        }
        let entry = catalog_model::admission(loaded, records[index].bytes)->Ok_0;
        loaded_tables_are_those_of_the_records(contents, records.len() as int);
        assert(record_format::decode_record(contents[index]) == Ok::<TableEntry, CatalogFault>(
            entry,
        ));
        assert(tables.contains(entry));
        let k = choose|k: int| 0 <= k < tables.len() && tables[k] == entry;
        assert(has_heap(file, tables[k].heap_root));
        let chain = choose|chain: Seq<PageId>| #[trigger]
            is_chain(file, chain) && chain[0] == entry.heap_root;
        assert(chain.take(1) =~= seq![entry.heap_root]);
        lemma_table_ends(file, pages, loaded, tables, entry, index, chain, 0);
    }
}

proof fn lemma_table_ends(
    file: Map<PageId, Seq<u8>>,
    pages: Seq<PageId>,
    loaded: Seq<TableEntry>,
    tables: Seq<TableEntry>,
    entry: TableEntry,
    index: int,
    chain: Seq<PageId>,
    place: int,
)
    requires
        is_chain(file, pages),
        tables_in(file, pages) == Ok::<Seq<TableEntry>, CatalogFault>(tables),
        heaps_are_there(file, tables),
        0 <= index < heap_in(file, pages).rows(pages.len() as int).len(),
        catalog_model::load(
            catalog_laws::contents_of(heap_in(file, pages).rows(pages.len() as int)),
            index + 1,
        ) == Ok::<Seq<TableEntry>, CatalogFault>(catalog_model::with_table(loaded, entry)),
        is_chain(file, chain),
        0 <= place < chain.len(),
    ensures
        ends(
            file,
            OpeningOutcome::Visit(
                OpeningState::Table {
                    pages,
                    tables: loaded,
                    entry,
                    records: heap_in(file, pages).rows(pages.len() as int),
                    index,
                    chain: chain.take(place + 1),
                },
            ),
            pages,
            tables,
        ),
    decreases
            heap_in(file, pages).rows(pages.len() as int).len() - index - 1,
            chain.len() - place,
{
    let records = heap_in(file, pages).rows(pages.len() as int);
    let state = OpeningState::Table {
        pages,
        tables: loaded,
        entry,
        records,
        index,
        chain: chain.take(place + 1),
    };
    lemma_chain_step(file, chain, place);
    if place + 1 < chain.len() {
        lemma_table_ends(file, pages, loaded, tables, entry, index, chain, place + 1);
    } else {
        lemma_records_end(
            file,
            pages,
            catalog_model::with_table(loaded, entry),
            tables,
            index + 1,
        );
    }
    lemma_one_more(file, state, pages, tables);
}

/// A catalog whose rows can be loaded opens with all of their tables, however many
/// pages its heap and the heaps of the tables have, where each of them is whole.
pub proof fn whole_catalogs_open(
    file: Map<PageId, Seq<u8>>,
    pages: Seq<PageId>,
    tables: Seq<TableEntry>,
)
    requires
        is_chain(file, pages),
        tables_in(file, pages) == Ok::<Seq<TableEntry>, CatalogFault>(tables),
        heaps_are_there(file, tables),
    ensures
        exists|steps: nat| #[trigger]
            outcome(OpeningState::Root(seq![pages[0]]), file, steps) == OpeningOutcome::Opened(
                pages,
                tables,
            ),
{
    assert(pages.take(1) =~= seq![pages[0]]);
    lemma_root_ends(file, pages, tables, 0);
}

/// Heaps that start at the same page of a file have the same pages.
pub proof fn heaps_are_told_by_their_root(
    file: Map<PageId, Seq<u8>>,
    one: Seq<PageId>,
    other: Seq<PageId>,
)
    requires
        is_chain(file, one),
        is_chain(file, other),
        one[0] == other[0],
    ensures
        one == other,
{
    let shorter = if one.len() < other.len() {
        one.len() as int
    } else {
        other.len() as int
    };
    lemma_same_start(file, one, other, shorter);
    assert(is_linked(file, one, shorter - 1));
    assert(is_linked(file, other, shorter - 1));
    assert(one[shorter - 1] == other[shorter - 1]);
    assert(one =~= other);
}

proof fn lemma_same_start(
    file: Map<PageId, Seq<u8>>,
    one: Seq<PageId>,
    other: Seq<PageId>,
    count: int,
)
    requires
        is_chain(file, one),
        is_chain(file, other),
        one[0] == other[0],
        0 < count <= one.len(),
        count <= other.len(),
    ensures
        forall|i: int| 0 <= i < count ==> #[trigger] one[i] == other[i],
    decreases count,
{
    if count > 1 {
        lemma_same_start(file, one, other, count - 1);
        assert(one[count - 2] == other[count - 2]);
        assert(is_linked(file, one, count - 2));
        assert(is_linked(file, other, count - 2));
    }
}

/// Whether the pages of a heap are in the file.
pub open spec fn is_stored(file: Map<PageId, Seq<u8>>, heap: Heap) -> bool {
    forall|i: int|
        0 <= i < heap.pages.len() ==> {
            &&& page_format::page_fault(file[#[trigger] heap.pages[i]]) is None
            &&& page_format::content(heap.pages[i], file[heap.pages[i]]) == heap.page(i)
        }
}

proof fn lemma_stored(file: Map<PageId, Seq<u8>>, heap: Heap, count: int)
    requires
        heap.wf(),
        is_stored(file, heap),
        0 <= count <= heap.pages.len(),
    ensures
        is_chain(file, heap.pages),
        heap_in(file, heap.pages).rows(count) == heap.rows(count),
    decreases count,
{
    assert forall|i: int| 0 <= i < heap.pages.len() implies #[trigger] is_linked(
        file,
        heap.pages,
        i,
    ) by {
        assert(heap.contents.dom().contains(heap.pages[i]));
        assert(heap.page(i).next == heap.link(i));
    }
    if count > 0 {
        lemma_stored(file, heap, count - 1);
        assert(heap.pages.contains(heap.pages[count - 1]));
        assert(heap_in(file, heap.pages).page(count - 1) == heap.page(count - 1));
    }
}

/// An opening that starts at the root of a heap and ends with a catalog ends with the
/// pages of the heap and the tables of all of its rows, however many pages the heaps
/// of the tables have.
pub proof fn openings_end_with_the_tables_of_the_heap(
    file: Map<PageId, Seq<u8>>,
    heap: Heap,
    steps: nat,
)
    requires
        heap.wf(),
        is_stored(file, heap),
    ensures
        outcome(
            OpeningState::Root(seq![heap.pages[0]]),
            file,
            steps,
        ) matches OpeningOutcome::Opened(pages, tables) ==> {
            let rows = heap.rows(heap.pages.len() as int);
            &&& pages == heap.pages
            &&& catalog_model::load(catalog_laws::contents_of(rows), rows.len() as int) == Ok::<
                Seq<TableEntry>,
                CatalogFault,
            >(tables)
        },
{
    lemma_stored(file, heap, heap.pages.len() as int);
    opened_catalogs_have_all_their_tables(file, heap.pages[0], steps);
    match outcome(OpeningState::Root(seq![heap.pages[0]]), file, steps) {
        OpeningOutcome::Opened(pages, _) => {
            heaps_are_told_by_their_root(file, pages, heap.pages);
        },
        _ => {},
    }
}

/// A catalog opens again, page by page, with exactly the tables that were created in
/// it, where its heap and the heaps of its tables are in the file.
pub proof fn created_tables_are_opened_again(
    state: CatalogState,
    file: Map<PageId, Seq<u8>>,
    heap: Heap,
)
    requires
        state.wf(),
        heap.wf(),
        persistence_laws::recorded(heap, state.tables),
        is_stored(file, heap),
        heaps_are_there(file, state.tables),
    ensures
        exists|steps: nat| #[trigger]
            outcome(OpeningState::Root(seq![heap.pages[0]]), file, steps)
                == OpeningOutcome::Opened(heap.pages, state.tables),
{
    lemma_stored(file, heap, heap.pages.len() as int);
    persistence_laws::recorded_catalogs_reopen(state, heap);
    whole_catalogs_open(file, heap.pages, state.tables);
}

/// However many pages it is given, an opening never says of such a catalog that it
/// cannot be opened.
pub proof fn whole_catalogs_are_never_refused(
    file: Map<PageId, Seq<u8>>,
    pages: Seq<PageId>,
    tables: Seq<TableEntry>,
    steps: nat,
)
    requires
        is_chain(file, pages),
        tables_in(file, pages) == Ok::<Seq<TableEntry>, CatalogFault>(tables),
        heaps_are_there(file, tables),
    ensures
        match outcome(OpeningState::Root(seq![pages[0]]), file, steps) {
            OpeningOutcome::Failed(_) => false,
            OpeningOutcome::Opened(found, loaded) => found == pages && loaded == tables,
            OpeningOutcome::Visit(_) => true,
        },
{
    whole_catalogs_open(file, pages, tables);
    let start = OpeningState::Root(seq![pages[0]]);
    let enough = choose|enough: nat| #[trigger]
        outcome(start, file, enough) == OpeningOutcome::Opened(pages, tables);
    lemma_same_end(file, start, enough, steps);
}

proof fn lemma_same_end(file: Map<PageId, Seq<u8>>, state: OpeningState, one: nat, other: nat)
    ensures
        !(outcome(state, file, one) is Visit) && !(outcome(state, file, other) is Visit)
            ==> outcome(state, file, one) == outcome(state, file, other),
    decreases one,
{
    match state.visit(state.page_id(), file[state.page_id()]) {
        OpeningOutcome::Visit(next) => {
            if one > 0 && other > 0 {
                lemma_same_end(file, next, (one - 1) as nat, (other - 1) as nat);
            }
        },
        _ => {},
    }
}

/// A visit returns what its opening came to: the fault, the opening to go on with, or
/// the catalog with these pages and tables.
pub proof fn visits_return_what_openings_come_to(
    reached: OpeningOutcome,
    result: Result<CatalogStep, CatalogError>,
)
    requires
        opening::reaches(reached, result),
    ensures
        match result {
            Err(error) => reached == OpeningOutcome::Failed(error@),
            Ok(CatalogStep::Visit(opening)) => {
                opening.wf() && reached == OpeningOutcome::Visit(opening@)
            },
            Ok(CatalogStep::Opened(catalog)) => {
                &&& catalog.wf()
                &&& reached == OpeningOutcome::Opened(catalog@.pages, catalog@.tables)
            },
        },
{
}

/// What is said of a record that cannot be loaded behind those before it: why it cannot
/// be decoded, that its number is in use, or else that its name is.
pub proof fn loading_faults_are_true(
    records: Seq<Seq<u8>>,
    count: int,
    tables: Seq<TableEntry>,
)
    requires
        0 <= count < records.len(),
        catalog_model::load(records, count) == Ok::<Seq<TableEntry>, CatalogFault>(tables),
    ensures
        match record_format::decode_record(records[count]) {
            Err(fault) => catalog_model::load(records, count + 1) == Err::<
                Seq<TableEntry>,
                CatalogFault,
            >(fault),
            Ok(entry) => {
                let numbered = exists|i: int|
                    0 <= i < tables.len() && (#[trigger] tables[i]).id == entry.id;
                let named = exists|i: int|
                    0 <= i < tables.len() && (#[trigger] tables[i]).table.name == entry.table.name;
                &&& numbered ==> catalog_model::load(records, count + 1) == Err::<
                    Seq<TableEntry>,
                    CatalogFault,
                >(CatalogFault::DuplicateTableId(entry.id))
                &&& !numbered && named ==> catalog_model::load(records, count + 1) == Err::<
                    Seq<TableEntry>,
                    CatalogFault,
                >(CatalogFault::DuplicateTableName(entry.table.name))
                &&& !numbered && !named ==> catalog_model::load(records, count + 1) is Ok
            },
        },
{
}

} // verus!
