//! Opening catalogs.

use vstd::prelude::*;

use crate::heap::heap_file;
use crate::heap::pooled;
use crate::heap::{HeapFile, HeapOpening, HeapRecord, HeapScan, OpenStep};
use crate::storage::{BufferPool, PageGuard, PageId};

use super::catalog_model::{self, OpeningOutcome, OpeningState};
use super::record_format::{self, CatalogFault, TableEntry};
use super::{
    decode_table_record, entries, find_id, find_table, insert_table, Catalog, CatalogError,
    TableMetadata,
};

verus! {

/// A catalog whose records are being loaded.
struct CatalogLoading {
    heap: HeapFile,
    tables: Vec<TableMetadata>,
    highest_table_id: u32,
    admitted: Option<TableMetadata>,
}

impl CatalogLoading {
    spec fn spec_pages(&self) -> Seq<PageId> {
        self.heap@
    }

    /// The tables that were loaded.
    spec fn spec_tables(&self) -> Seq<TableEntry> {
        entries(self.tables@)
    }

    /// The table whose heap is to be opened before it counts as loaded.
    spec fn spec_admitted(&self) -> Option<TableEntry> {
        match self.admitted {
            Some(metadata) => Some(metadata@),
            None => None,
        }
    }

    spec fn wf(&self) -> bool {
        let tables = entries(self.tables@);
        &&& self.heap@.len() > 0
        &&& catalog_model::sorted(tables)
        &&& catalog_model::distinct_ids(tables)
        &&& catalog_model::is_highest(tables, self.highest_table_id)
        &&& forall|i: int| 0 <= i < tables.len() ==> (#[trigger] tables[i]).valid()
        &&& forall|i: int| 0 <= i < self.tables@.len() ==> (#[trigger] self.tables@[i]).wf()
        &&& self.admitted matches Some(metadata) ==> {
            &&& metadata.wf()
            &&& metadata@.valid()
            &&& !catalog_model::has_id(tables, metadata@.id)
            &&& !catalog_model::has_name(tables, metadata@.table.name)
        }
    }

    /// Starts to load the records of the catalog in this heap.
    fn new(heap: HeapFile) -> (loading: Self)
        requires
            heap@.len() > 0,
        ensures
            loading.wf(),
            loading.spec_pages() == heap@,
            loading.spec_tables() == Seq::<TableEntry>::empty(),
            loading.spec_admitted() is None,
    {
        let loading = Self { heap, tables: Vec::new(), highest_table_id: 0, admitted: None };
        assert(loading.spec_tables() =~= Seq::<TableEntry>::empty());
        loading
    }

    /// Takes the next record. The heap of its table is to be opened, and then the
    /// table is to be confirmed.
    fn take_record(&mut self, record: &[u8]) -> (result: Result<HeapOpening, CatalogError>)
        requires
            old(self).wf(),
        ensures
            final(self).wf(),
            final(self).spec_pages() == old(self).spec_pages(),
            final(self).spec_tables() == old(self).spec_tables(),
            match catalog_model::admission(old(self).spec_tables(), record@) {
                Err(fault) => {
                    &&& result matches Err(error)
                    &&& error@ == fault
                    &&& final(self).spec_admitted() is None
                },
                Ok(entry) => {
                    &&& result matches Ok(opening)
                    &&& opening@ == seq![entry.heap_root]
                    &&& final(self).spec_admitted() == Some(entry)
                },
            },
    {
        self.admitted = None;
        let metadata = match decode_table_record(record) {
            Ok(metadata) => metadata,
            Err(error) => {
                return Err(error);
            },
        };
        if find_id(&self.tables, metadata.id()) {
            return Err(CatalogError::DuplicateTableId(metadata.id()));
        }
        if find_table(&self.tables, metadata.schema().name()).is_some() {
            return Err(CatalogError::DuplicateTableName(metadata.schema().name().to_owned()));
        }
        proof {
            record_format::decoded_records_encode(record@);
        }
        let opening = HeapFile::open(metadata.heap_first_page_id());
        self.admitted = Some(metadata);
        Ok(opening)
    }

    /// Counts the admitted table as loaded.
    fn confirm(&mut self)
        requires
            old(self).wf(),
        ensures
            final(self).wf(),
            final(self).spec_pages() == old(self).spec_pages(),
            final(self).spec_admitted() is None,
            final(self).spec_tables() == match old(self).spec_admitted() {
                Some(entry) => catalog_model::with_table(old(self).spec_tables(), entry),
                None => old(self).spec_tables(),
            },
    {
        let ghost before = entries(self.tables@);
        if let Some(metadata) = self.admitted.take() {
            proof {
                catalog_model::lemma_ids_after(before, metadata@, self.highest_table_id);
                catalog_model::lemma_with_table(before, metadata@);
            }
            if metadata.id().get() > self.highest_table_id {
                self.highest_table_id = metadata.id().get();
            }
            insert_table(&mut self.tables, metadata);
            proof {
                let tables = entries(self.tables@);
                assert forall|i: int| 0 <= i < tables.len() implies (#[trigger] tables[i]).valid() by {
                    if tables[i] != metadata@ {
                        let j = choose|j: int| 0 <= j < before.len() && before[j] == tables[i];
                        assert(before[j].valid());
                    }
                }
            }
        }
    }

    /// The catalog with the tables that were loaded.
    fn finish(self) -> (catalog: Catalog)
        requires
            self.wf(),
        ensures
            catalog.wf(),
            catalog@.pages == self.spec_pages(),
            catalog@.tables == self.spec_tables(),
            catalog_model::is_next(self.spec_tables(), catalog@.next_table_id),
    {
        Catalog::loaded(self.heap, self.tables, self.highest_table_id)
    }
}

/// A catalog that is being opened.
pub struct CatalogOpening {
    stage: OpeningStage,
}

enum OpeningStage {
    Root(HeapOpening),
    Scan(HeapFile, HeapScan),
    Table(CatalogLoading, Vec<HeapRecord>, usize, HeapOpening),
}

/// What opening a catalog does next.
pub enum CatalogStep {
    /// Go on with the page that it asks for.
    Visit(CatalogOpening),
    /// Nothing: the catalog is open.
    Opened(Catalog),
}

impl View for CatalogOpening {
    type V = OpeningState;

    closed spec fn view(&self) -> OpeningState {
        match self.stage {
            OpeningStage::Root(opening) => OpeningState::Root(opening@),
            OpeningStage::Scan(heap, scan) => OpeningState::Scan(heap@, scan@),
            OpeningStage::Table(loading, records, index, opening) => OpeningState::Table {
                pages: loading.spec_pages(),
                tables: loading.spec_tables(),
                entry: loading.spec_admitted()->0,
                records: heap_file::records_of(records@),
                index: index as int,
                chain: opening@,
            },
        }
    }
}

impl CatalogOpening {
    pub closed spec fn wf(&self) -> bool {
        &&& self@.wf()
        &&& self.stage matches OpeningStage::Table(loading, _, _, _) ==> {
            &&& loading.wf()
            &&& loading.spec_admitted() is Some
        }
    }

    /// A well-formed opening has a page to visit, and the record that it loads can be
    /// loaded.
    pub proof fn lemma_wf(&self)
        requires
            self.wf(),
        ensures
            self@.wf(),
    {
    }

    pub(super) fn new(root: PageId) -> (opening: Self)
        ensures
            opening.wf(),
            opening@ == OpeningState::Root(seq![root]),
    {
        Self { stage: OpeningStage::Root(HeapFile::open(root)) }
    }

    /// The page that the opening is to be given, for reading.
    pub fn page_id(&self) -> (page_id: PageId)
        requires
            self.wf(),
        ensures
            page_id == self@.page_id(),
    {
        match &self.stage {
            OpeningStage::Root(opening) => opening.page_id(),
            OpeningStage::Scan(heap, scan) => scan.page_id(heap),
            OpeningStage::Table(_, _, _, opening) => opening.page_id(),
        }
    }

    /// Goes on with the page that the opening asked for.
    pub fn visit(self, pool: &mut BufferPool, guard: PageGuard) -> (result: Result<
        CatalogStep,
        CatalogError,
    >)
        requires
            self.wf(),
            old(pool)@.wf(),
            old(pool)@.can_visit(guard.spec_page_id()),
        ensures
            final(pool)@.wf(),
            final(pool)@ == old(pool)@.unpin(guard.spec_page_id()),
            match old(pool)@.read_fault(guard.spec_page_id()) {
                Some(error) => {
                    &&& result matches Err(found)
                    &&& found@ == CatalogFault::Heap(pooled::pool_error(error))
                },
                None => reaches(
                    self@.visit(
                        guard.spec_page_id(),
                        old(pool)@.frame(guard.spec_page_id()).bytes,
                    ),
                    result,
                ),
            },
    {
        match self.stage {
            OpeningStage::Root(opening) => match opening.visit(pool, guard) {
                Err(error) => Err(CatalogError::Heap(Box::new(error))),
                Ok(OpenStep::Visit(opening)) => Ok(
                    CatalogStep::Visit(CatalogOpening { stage: OpeningStage::Root(opening) }),
                ),
                Ok(OpenStep::Opened(heap)) => {
                    let scan = heap.scan();
                    Ok(
                        CatalogStep::Visit(
                            CatalogOpening { stage: OpeningStage::Scan(heap, scan) },
                        ),
                    )
                },
            },
            OpeningStage::Scan(heap, scan) => {
                let mut scan = scan;
                match scan.visit(&heap, pool, guard) {
                    Ok(()) => {},
                    Err(error) => {
                        return Err(CatalogError::Heap(Box::new(error)));
                    },
                }
                if scan.is_complete(&heap) {
                    let loading = CatalogLoading::new(heap);
                    next_record(loading, scan.finish(), 0)
                } else {
                    Ok(
                        CatalogStep::Visit(
                            CatalogOpening { stage: OpeningStage::Scan(heap, scan) },
                        ),
                    )
                }
            },
            OpeningStage::Table(loading, records, index, opening) => match opening.visit(pool, guard) {
                Err(error) => Err(CatalogError::Heap(Box::new(error))),
                Ok(OpenStep::Visit(opening)) => Ok(
                    CatalogStep::Visit(
                        CatalogOpening {
                            stage: OpeningStage::Table(loading, records, index, opening),
                        },
                    ),
                ),
                Ok(OpenStep::Opened(_)) => {
                    let mut loading = loading;
                    loading.confirm();
                    assert(index < records.len());
                    next_record(loading, records, index + 1)
                },
            },
        }
    }
}

/// Whether an opening came to this and returned that.
pub open spec fn reaches(outcome: OpeningOutcome, result: Result<CatalogStep, CatalogError>) -> bool {
    match outcome {
        OpeningOutcome::Failed(fault) => result matches Err(error) && error@ == fault,
        OpeningOutcome::Visit(state) => {
            &&& result matches Ok(CatalogStep::Visit(opening))
            &&& opening.wf()
            &&& opening@ == state
        },
        OpeningOutcome::Opened(pages, tables) => {
            &&& result matches Ok(CatalogStep::Opened(catalog))
            &&& catalog.wf()
            &&& catalog@.pages == pages
            &&& catalog@.tables == tables
        },
    }
}

/// Goes on with the record at place `index`.
fn next_record(loading: CatalogLoading, records: Vec<HeapRecord>, index: usize) -> (result: Result<
    CatalogStep,
    CatalogError,
>)
    requires
        loading.wf(),
    ensures
        reaches(
            catalog_model::next_record(
                loading.spec_pages(),
                loading.spec_tables(),
                heap_file::records_of(records@),
                index as int,
            ),
            result,
        ),
{
    if index >= records.len() {
        return Ok(CatalogStep::Opened(loading.finish()));
    }
    let mut loading = loading;
    match loading.take_record(records[index].bytes.as_slice()) {
        Err(error) => Err(error),
        Ok(opening) => Ok(
            CatalogStep::Visit(
                CatalogOpening {
                    stage: OpeningStage::Table(loading, records, index, opening),
                },
            ),
        ),
    }
}

} // verus!
