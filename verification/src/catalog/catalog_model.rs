//! What the catalog holds and how it changes.

use vstd::prelude::*;

use crate::heap::heap_file::ScanState;
use crate::heap::heap_model::{self, Record};
use crate::heap::page_format;
use crate::heap::{InsertStep, PageRequest};
use crate::schema::table_format::Table;
use crate::schema::MAX_ROW_SIZE;
use crate::storage::PageId;
use crate::text;

use super::record_format::{self, CatalogFault, TableEntry, TABLE_RECORD_HEADER_SIZE};
use super::TableId;

verus! {

/// A catalog: the pages of its heap, its tables by name, and the number of the
/// next table.
#[verifier::ext_equal]
pub struct CatalogState {
    pub pages: Seq<PageId>,
    pub tables: Seq<TableEntry>,
    pub next_table_id: u32,
}

/// Whether the tables are sorted by name, and no name occurs twice.
pub open spec fn sorted(tables: Seq<TableEntry>) -> bool {
    forall|i: int, j: int|
        0 <= i < j < tables.len() ==> text::text_precedes(
            (#[trigger] tables[i]).table.name,
            (#[trigger] tables[j]).table.name,
        )
}

pub open spec fn distinct_ids(tables: Seq<TableEntry>) -> bool {
    forall|i: int, j: int|
        0 <= i < j < tables.len() ==> (#[trigger] tables[i]).id != (#[trigger] tables[j]).id
}

pub open spec fn has_name(tables: Seq<TableEntry>, name: Seq<char>) -> bool {
    exists|i: int| 0 <= i < tables.len() && (#[trigger] tables[i]).table.name == name
}

pub open spec fn has_id(tables: Seq<TableEntry>, id: TableId) -> bool {
    exists|i: int| 0 <= i < tables.len() && (#[trigger] tables[i]).id == id
}

/// Whether a table with this name belongs at this place.
pub open spec fn is_place(tables: Seq<TableEntry>, name: Seq<char>, place: int) -> bool {
    &&& 0 <= place <= tables.len()
    &&& forall|i: int|
        0 <= i < place ==> text::text_precedes((#[trigger] tables[i]).table.name, name)
    &&& forall|i: int|
        place <= i < tables.len() ==> !text::text_precedes((#[trigger] tables[i]).table.name, name)
}

/// The tables with one more, at the place where it belongs.
pub open spec fn with_table(tables: Seq<TableEntry>, entry: TableEntry) -> Seq<TableEntry> {
    tables.insert(choose|place: int| is_place(tables, entry.table.name, place), entry)
}

/// Whether `highest` is the highest number of a table, or zero where there is no
/// table.
pub open spec fn is_highest(tables: Seq<TableEntry>, highest: u32) -> bool {
    &&& forall|i: int| 0 <= i < tables.len() ==> (#[trigger] tables[i]).id.0 <= highest
    &&& tables.len() == 0 ==> highest == 0
    &&& tables.len() > 0 ==> has_id(tables, TableId(highest))
}

/// The number that follows `highest`, where there is one.
pub open spec fn id_after(highest: u32) -> u32 {
    if highest == u32::MAX {
        u32::MAX
    } else {
        (highest + 1) as u32
    }
}

/// Whether `next` is the number that follows the highest number of a table.
pub open spec fn is_next(tables: Seq<TableEntry>, next: u32) -> bool {
    exists|highest: u32| #[trigger] is_highest(tables, highest) && next == id_after(highest)
}

impl CatalogState {
    /// The tables are valid, sorted by name and numbered, and the next number is
    /// the one after the highest.
    pub open spec fn wf(self) -> bool {
        &&& self.pages.len() > 0
        &&& sorted(self.tables)
        &&& distinct_ids(self.tables)
        &&& forall|i: int| 0 <= i < self.tables.len() ==> (#[trigger] self.tables[i]).valid()
        &&& is_next(self.tables, self.next_table_id)
    }

    /// Why a table cannot be created; `None` where it can.
    pub open spec fn creation_fault(self, table: Table) -> Option<CatalogFault> {
        let size = TABLE_RECORD_HEADER_SIZE + table.encoded().len();
        if has_name(self.tables, table.name) {
            Some(CatalogFault::DuplicateTableName(table.name))
        } else if self.next_table_id == u32::MAX {
            Some(CatalogFault::TableIdExhausted)
        } else if size > MAX_ROW_SIZE {
            Some(CatalogFault::TableRecordTooLarge { size: size as usize, maximum: MAX_ROW_SIZE })
        } else {
            None
        }
    }

    /// With one more table, under the next number.
    pub open spec fn register(self, entry: TableEntry) -> CatalogState {
        CatalogState {
            tables: with_table(self.tables, entry),
            next_table_id: (self.next_table_id + 1) as u32,
            ..self
        }
    }
}

/// The table that a record adds to those that were loaded before, or why it
/// cannot be loaded.
pub open spec fn admission(tables: Seq<TableEntry>, record: Seq<u8>) -> Result<
    TableEntry,
    CatalogFault,
> {
    match record_format::decode_record(record) {
        Err(fault) => Err(fault),
        Ok(entry) => if has_id(tables, entry.id) {
            Err(CatalogFault::DuplicateTableId(entry.id))
        } else if has_name(tables, entry.table.name) {
            Err(CatalogFault::DuplicateTableName(entry.table.name))
        } else {
            Ok(entry)
        },
    }
}

/// The tables that the first `count` records describe, or why they cannot be
/// loaded.
pub open spec fn load(records: Seq<Seq<u8>>, count: int) -> Result<Seq<TableEntry>, CatalogFault>
    decreases count,
{
    if count <= 0 {
        Ok(Seq::empty())
    } else {
        match load(records, count - 1) {
            Err(fault) => Err(fault),
            Ok(tables) => match admission(tables, records[count - 1]) {
                Err(fault) => Err(fault),
                Ok(entry) => Ok(with_table(tables, entry)),
            },
        }
    }
}

/// How far the creation of a catalog is.
pub enum CreationState {
    /// Its heap is to be created in a new page.
    Start,
    /// The first page of its heap is to be written to the file.
    Placed(PageId),
    /// The first page of its heap is to become the catalog root.
    Flushed(PageId),
}

/// How far the creation of a table is.
pub enum TableCreationState {
    /// Its heap is to be created in a new page.
    Heap(TableId, Table),
    /// Its record is to be inserted into the heap of the catalog, with this step.
    Record(TableEntry, InsertStep),
}

impl TableCreationState {
    /// Whether a creation in this state can go on in the catalog.
    pub open spec fn wf(self, catalog: CatalogState) -> bool {
        match self {
            TableCreationState::Heap(id, table) => {
                &&& table.valid()
                &&& id == TableId(catalog.next_table_id)
                &&& catalog.creation_fault(table) is None
            },
            TableCreationState::Record(entry, step) => {
                &&& entry.valid()
                &&& entry.id == TableId(catalog.next_table_id)
                &&& catalog.creation_fault(entry.table) is None
                &&& !(step is Inserted)
                &&& step matches InsertStep::Visit(index) ==> index < catalog.pages.len()
            },
        }
    }

    /// The page that the creation is to be given.
    pub open spec fn request(self, catalog: CatalogState) -> PageRequest {
        match self {
            TableCreationState::Heap(_, _) => PageRequest::Allocate,
            TableCreationState::Record(_, step) => heap_model::insert_request(
                catalog.pages,
                step,
            )->0,
        }
    }
}

/// How far the opening of a catalog is.
#[verifier::ext_equal]
pub enum OpeningState {
    /// Its heap is being opened: the pages so far, the last of which is to be
    /// visited.
    Root(Seq<PageId>),
    /// Its heap is being scanned.
    Scan(Seq<PageId>, ScanState),
    /// The heap of the table of a record is being opened.
    Table {
        pages: Seq<PageId>,
        /// The tables that were loaded before.
        tables: Seq<TableEntry>,
        /// The table of the record.
        entry: TableEntry,
        records: Seq<Record>,
        /// The place of the record.
        index: int,
        /// The pages of the table so far, the last of which is to be visited.
        chain: Seq<PageId>,
    },
}

/// What the opening of a catalog comes to.
#[verifier::ext_equal]
pub enum OpeningOutcome {
    /// It goes on with another page.
    Visit(OpeningState),
    /// The catalog with these pages and tables is open.
    Opened(Seq<PageId>, Seq<TableEntry>),
    Failed(CatalogFault),
}

impl OpeningState {
    pub open spec fn wf(self) -> bool {
        match self {
            OpeningState::Root(pages) => pages.len() > 0,
            OpeningState::Scan(pages, scan) => 0 <= scan.index < pages.len(),
            OpeningState::Table { pages, tables, entry, records, index, chain } => {
                &&& pages.len() > 0
                &&& sorted(tables)
                &&& distinct_ids(tables)
                &&& 0 <= index < records.len()
                &&& chain.len() > 0
                &&& admission(tables, records[index].bytes) == Ok::<TableEntry, CatalogFault>(entry)
            },
        }
    }

    /// The page that the opening is to be given.
    pub open spec fn page_id(self) -> PageId {
        match self {
            OpeningState::Root(pages) => pages.last(),
            OpeningState::Scan(pages, scan) => pages[scan.index],
            OpeningState::Table { chain, .. } => chain.last(),
        }
    }

    /// Goes on with the page that the opening is to be given.
    pub open spec fn visit(self, page_id: PageId, bytes: Seq<u8>) -> OpeningOutcome {
        let content = page_format::content(page_id, bytes);
        match heap_model::page_error(bytes) {
            Some(error) => OpeningOutcome::Failed(CatalogFault::Heap(error)),
            None => match self {
                OpeningState::Root(pages) => match heap_model::open_step(pages, content.next) {
                    Err(error) => OpeningOutcome::Failed(CatalogFault::Heap(error)),
                    Ok((found, opened)) => OpeningOutcome::Visit(
                        if opened {
                            OpeningState::Scan(found, ScanState { index: 0, records: Seq::empty() })
                        } else {
                            OpeningState::Root(found)
                        },
                    ),
                },
                OpeningState::Scan(pages, scan) => {
                    let next = ScanState {
                        index: scan.index + 1,
                        records: scan.records + heap_model::page_records(content),
                    };
                    if next.index < pages.len() {
                        OpeningOutcome::Visit(OpeningState::Scan(pages, next))
                    } else {
                        next_record(pages, Seq::empty(), next.records, 0)
                    }
                },
                OpeningState::Table { pages, tables, entry, records, index, chain } => {
                    match heap_model::open_step(chain, content.next) {
                        Err(error) => OpeningOutcome::Failed(CatalogFault::Heap(error)),
                        Ok((found, opened)) => if opened {
                            next_record(pages, with_table(tables, entry), records, index + 1)
                        } else {
                            OpeningOutcome::Visit(
                                OpeningState::Table {
                                    pages,
                                    tables,
                                    entry,
                                    records,
                                    index,
                                    chain: found,
                                },
                            )
                        },
                    }
                },
            },
        }
    }
}

/// Goes on with the record at place `index`.
pub open spec fn next_record(
    pages: Seq<PageId>,
    tables: Seq<TableEntry>,
    records: Seq<Record>,
    index: int,
) -> OpeningOutcome {
    if index >= records.len() {
        OpeningOutcome::Opened(pages, tables)
    } else {
        match admission(tables, records[index].bytes) {
            Err(fault) => OpeningOutcome::Failed(fault),
            Ok(entry) => OpeningOutcome::Visit(
                OpeningState::Table {
                    pages,
                    tables,
                    entry,
                    records,
                    index,
                    chain: seq![entry.heap_root],
                },
            ),
        }
    }
}

/// There is one place where a table belongs.
pub proof fn lemma_place_is_unique(
    tables: Seq<TableEntry>,
    name: Seq<char>,
    first: int,
    second: int,
)
    requires
        is_place(tables, name, first),
        is_place(tables, name, second),
    ensures
        first == second,
{
    if first < second {
        assert(text::text_precedes(tables[first].table.name, name));
    } else if second < first {
        assert(text::text_precedes(tables[second].table.name, name));
    }
}

/// In sorted tables, there is a place for every name.
pub proof fn lemma_has_place(tables: Seq<TableEntry>, name: Seq<char>, count: int)
    requires
        sorted(tables),
        0 <= count <= tables.len(),
        forall|i: int|
            count <= i < tables.len() ==> !text::text_precedes(
                (#[trigger] tables[i]).table.name,
                name,
            ),
    ensures
        exists|place: int| is_place(tables, name, place),
    decreases count,
{
    if count == 0 || text::text_precedes(tables[count - 1].table.name, name) {
        assert forall|i: int| 0 <= i < count implies text::text_precedes(
            (#[trigger] tables[i]).table.name,
            name,
        ) by {
            if i < count - 1 {
                text::lemma_order_is_transitive(
                    tables[i].table.name,
                    tables[count - 1].table.name,
                    name,
                );
            }
        }
        assert(is_place(tables, name, count));
    } else {
        lemma_has_place(tables, name, count - 1);
    }
}

/// A table that is added with a new name leaves the tables sorted, and the others
/// among them.
pub proof fn lemma_with_table(tables: Seq<TableEntry>, entry: TableEntry)
    requires
        sorted(tables),
        !has_name(tables, entry.table.name),
    ensures
        sorted(with_table(tables, entry)),
        with_table(tables, entry).len() == tables.len() + 1,
        forall|other: TableEntry| #[trigger]
            with_table(tables, entry).contains(other) <==> tables.contains(other) || other == entry,
        forall|i: int|
            0 <= i < with_table(tables, entry).len() ==> {
                ||| (#[trigger] with_table(tables, entry)[i]) == entry
                ||| tables.contains(with_table(tables, entry)[i])
            },
{
    let name = entry.table.name;
    lemma_has_place(tables, name, tables.len() as int);
    let place = choose|place: int| is_place(tables, name, place);
    let after = tables.insert(place, entry);
    assert forall|i: int| place <= i < tables.len() implies text::text_precedes(
        name,
        (#[trigger] tables[i]).table.name,
    ) by {
        assert(tables[i].table.name != name);
        text::lemma_order_is_total(name, tables[i].table.name);
    }
    assert forall|i: int, j: int| 0 <= i < j < after.len() implies text::text_precedes(
        (#[trigger] after[i]).table.name,
        (#[trigger] after[j]).table.name,
    ) by {
        let before_i = if i < place {
            i
        } else {
            i - 1
        };
        let before_j = if j < place {
            j
        } else {
            j - 1
        };
        if i != place {
            assert(after[i] == tables[before_i]);
        }
        if j != place {
            assert(after[j] == tables[before_j]);
        }
    }
    assert(after[place] == entry);
    assert forall|other: TableEntry| #[trigger] after.contains(other) <==> tables.contains(other)
        || other == entry by {
        if tables.contains(other) {
            let i = choose|i: int| 0 <= i < tables.len() && tables[i] == other;
            let j = if i < place {
                i
            } else {
                i + 1
            };
            assert(after[j] == other);
        }
        if after.contains(other) {
            let j = choose|j: int| 0 <= j < after.len() && after[j] == other;
            if j != place {
                let i = if j < place {
                    j
                } else {
                    j - 1
                };
                assert(tables[i] == other);
            }
        }
    }
    assert forall|i: int| 0 <= i < after.len() implies {
        ||| (#[trigger] after[i]) == entry
        ||| tables.contains(after[i])
    } by {
        assert(after.contains(after[i]));
    }
}

/// A table that is added with a new number leaves the numbers distinct, and the
/// highest one is known.
pub proof fn lemma_ids_after(tables: Seq<TableEntry>, entry: TableEntry, highest: u32)
    requires
        sorted(tables),
        !has_name(tables, entry.table.name),
        distinct_ids(tables),
        !has_id(tables, entry.id),
        is_highest(tables, highest),
    ensures
        distinct_ids(with_table(tables, entry)),
        is_highest(
            with_table(tables, entry),
            if entry.id.0 > highest {
                entry.id.0
            } else {
                highest
            },
        ),
{
    let name = entry.table.name;
    lemma_has_place(tables, name, tables.len() as int);
    let place = choose|place: int| is_place(tables, name, place);
    let after = tables.insert(place, entry);
    assert(after[place] == entry);
    assert forall|i: int| 0 <= i < after.len() && i != place implies (#[trigger] after[i])
        == tables[if i < place {
        i
    } else {
        i - 1
    }] by {}
    assert forall|i: int, j: int| 0 <= i < j < after.len() implies (#[trigger] after[i]).id != (
    #[trigger] after[j]).id by {
        let before_i = if i < place {
            i
        } else {
            i - 1
        };
        let before_j = if j < place {
            j
        } else {
            j - 1
        };
        if i != place {
            assert(after[i] == tables[before_i]);
        }
        if j != place {
            assert(after[j] == tables[before_j]);
        }
    }
    if tables.len() > 0 {
        let i = choose|i: int| 0 <= i < tables.len() && (#[trigger] tables[i]).id == TableId(highest);
        let j = if i < place {
            i
        } else {
            i + 1
        };
        assert(after[j] == tables[i]);
    }
}

} // verus!
