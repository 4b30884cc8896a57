//! Creating catalogs and tables.

use vstd::prelude::*;

use crate::heap::heap_model;
use crate::heap::pooled;
use crate::heap::{HeapFile, InsertStep, PageRequest};
use crate::schema::table_laws;
use crate::schema::TableSchema;
use crate::storage::pool_model;
use crate::storage::{BufferPool, PageGuard, PageId};

use super::catalog_model::{CatalogState, CreationState, TableCreationState};
use super::record_format::{self, CatalogFault, TableEntry, FIRST_TABLE_ID};
use super::{encode_table_record, Catalog, CatalogError, TableId, TableMetadata};

verus! {

/// What the creation of a catalog needs next.
#[derive(Clone, Copy, Debug, PartialEq, Eq, Structural)]
pub enum CreationStep {
    /// A new page: call `place` with its pin.
    Allocate,
    /// That this page is written to the file: call `flushed` then.
    Flush(PageId),
    /// That this page becomes the catalog root: call `finish` then.
    SetRoot(PageId),
}

/// A catalog that is being created.
pub struct CatalogCreation {
    heap: Option<HeapFile>,
    flushed: bool,
}

impl View for CatalogCreation {
    type V = CreationState;

    closed spec fn view(&self) -> CreationState {
        match self.heap {
            None => CreationState::Start,
            Some(heap) => if self.flushed {
                CreationState::Flushed(heap@[0])
            } else {
                CreationState::Placed(heap@[0])
            },
        }
    }
}

impl CatalogCreation {
    pub closed spec fn wf(&self) -> bool {
        self.heap matches Some(heap) ==> heap@ =~= seq![heap@[0]]
    }

    pub(super) fn new() -> (creation: Self)
        ensures
            creation.wf(),
            creation@ == CreationState::Start,
    {
        Self { heap: None, flushed: false }
    }

    /// What is needed next.
    pub fn step(&self) -> (step: CreationStep)
        requires
            self.wf(),
        ensures
            step == match self@ {
                CreationState::Start => CreationStep::Allocate,
                CreationState::Placed(root) => CreationStep::Flush(root),
                CreationState::Flushed(root) => CreationStep::SetRoot(root),
            },
    {
        match &self.heap {
            None => CreationStep::Allocate,
            Some(heap) => {
                let root = heap.first_page_id();
                if self.flushed {
                    CreationStep::SetRoot(root)
                } else {
                    CreationStep::Flush(root)
                }
            },
        }
    }

    /// Creates the heap of the catalog in a new page.
    pub fn place(&mut self, pool: &mut BufferPool, guard: PageGuard) -> (result: Result<
        (),
        CatalogError,
    >)
        requires
            old(self).wf(),
            old(pool)@.wf(),
            old(pool)@.can_visit(guard.spec_page_id()),
        ensures
            final(self).wf(),
            final(pool)@.wf(),
            ({
                let page_id = guard.spec_page_id();
                match old(pool)@.write_fault(page_id) {
                    Some(error) => {
                        &&& result matches Err(found)
                        &&& found@ == CatalogFault::Heap(pooled::pool_error(error))
                        &&& final(pool)@ == old(pool)@.unpin(page_id)
                        &&& final(self)@ == old(self)@
                    },
                    None => {
                        &&& result is Ok
                        &&& final(self)@ == CreationState::Placed(page_id)
                        &&& pooled::initialized(old(pool)@, final(pool)@, page_id)
                    },
                }
            }),
    {
        match HeapFile::create(pool, guard) {
            Ok(heap) => {
                self.heap = Some(heap);
                self.flushed = false;
                Ok(())
            },
            Err(error) => Err(CatalogError::Heap(Box::new(error))),
        }
    }

    /// Notes that the first page of the heap was written to the file.
    pub fn flushed(&mut self)
        requires
            old(self).wf(),
            old(self)@ is Placed,
        ensures
            final(self).wf(),
            final(self)@ == CreationState::Flushed(old(self)@->Placed_0),
    {
        self.flushed = true;
    }

    /// The catalog, which has no tables yet.
    pub fn finish(self) -> (catalog: Catalog)
        requires
            self.wf(),
            self@ is Flushed,
        ensures
            catalog.wf(),
            catalog@ == (CatalogState {
                pages: seq![self@->Flushed_0],
                tables: Seq::empty(),
                next_table_id: FIRST_TABLE_ID,
            }),
    {
        Catalog::empty(self.heap.unwrap())
    }
}

/// A table that is being created.
pub struct TableCreation {
    stage: TableStage,
}

enum TableStage {
    Heap(TableId, TableSchema),
    Record(TableMetadata, Vec<u8>, InsertStep),
}

/// What the creation of a table does next.
pub enum TableStep {
    /// Go on with the page that it asks for.
    Visit(TableCreation),
    /// Nothing: the table is one of the catalog.
    Created,
}

impl View for TableCreation {
    type V = TableCreationState;

    closed spec fn view(&self) -> TableCreationState {
        match self.stage {
            TableStage::Heap(id, schema) => TableCreationState::Heap(id, schema@),
            TableStage::Record(metadata, _, step) => TableCreationState::Record(metadata@, step),
        }
    }
}

impl TableCreation {
    /// Whether the creation can go on in the catalog.
    pub closed spec fn wf(&self, catalog: CatalogState) -> bool {
        &&& self@.wf(catalog)
        &&& match self.stage {
            TableStage::Heap(_, schema) => schema.wf(),
            TableStage::Record(metadata, record, _) => {
                &&& metadata.wf()
                &&& record@ == metadata@.encoded()
            },
        }
    }

    /// A creation that can go on in the catalog creates a valid table with a new name,
    /// under the next number.
    pub proof fn lemma_wf(&self, catalog: CatalogState)
        requires
            self.wf(catalog),
        ensures
            self@.wf(catalog),
    {
    }

    pub(super) fn new(id: TableId, schema: TableSchema) -> (creation: Self)
        requires
            schema.wf(),
        ensures
            creation@ == TableCreationState::Heap(id, schema@),
            forall|catalog: CatalogState| #[trigger]
                creation.wf(catalog) == creation@.wf(catalog),
    {
        Self { stage: TableStage::Heap(id, schema) }
    }

    /// The page that the creation is to be given.
    pub fn request(&self, catalog: &Catalog) -> (request: PageRequest)
        requires
            catalog.wf(),
            self.wf(catalog@),
        ensures
            request == self@.request(catalog@),
    {
        match &self.stage {
            TableStage::Heap(_, _) => PageRequest::Allocate,
            TableStage::Record(_, _, step) => {
                proof {
                    catalog.lemma_wf();
                }
                catalog.heap().insert_request(*step).unwrap()
            },
        }
    }

    /// Goes on with the page that the creation asked for.
    pub fn visit(self, catalog: &mut Catalog, pool: &mut BufferPool, guard: PageGuard) -> (result:
        Result<TableStep, CatalogError>)
        requires
            old(catalog).wf(),
            self.wf(old(catalog)@),
            old(pool)@.wf(),
            old(pool)@.can_visit(guard.spec_page_id()),
        ensures
            final(catalog).wf(),
            final(pool)@.wf(),
            match self@ {
                TableCreationState::Heap(id, table) => {
                    let page_id = guard.spec_page_id();
                    let entry = TableEntry { id, heap_root: page_id, table };
                    &&& final(catalog)@ == old(catalog)@
                    &&& match old(pool)@.write_fault(page_id) {
                        Some(error) => {
                            &&& result matches Err(found)
                            &&& found@ == CatalogFault::Heap(pooled::pool_error(error))
                            &&& final(pool)@ == old(pool)@.unpin(page_id)
                        },
                        None => {
                            &&& result matches Ok(TableStep::Visit(next))
                            &&& next@ == TableCreationState::Record(entry, InsertStep::Visit(0))
                            &&& next.wf(final(catalog)@)
                            &&& pooled::initialized(old(pool)@, final(pool)@, page_id)
                        },
                    }
                },
                TableCreationState::Record(entry, step) => {
                    let page_id = guard.spec_page_id();
                    let pages = old(catalog)@.pages;
                    &&& pooled::insert_visit(
                        old(pool)@,
                        final(pool)@,
                        page_id,
                        step,
                        entry.encoded(),
                    )
                    &&& match pooled::insert_result(
                        pages,
                        old(pool)@,
                        page_id,
                        step,
                        entry.encoded(),
                    ) {
                        Err(error) => {
                            &&& result matches Err(found)
                            &&& found@ == CatalogFault::Heap(error)
                            &&& final(catalog)@ == old(catalog)@
                        },
                        Ok(InsertStep::Inserted(_)) => {
                            &&& result matches Ok(TableStep::Created)
                            &&& final(catalog)@ == (CatalogState {
                                pages: heap_model::pages_after_step(pages, step),
                                ..old(catalog)@
                            }).register(entry)
                        },
                        Ok(next_step) => {
                            &&& result matches Ok(TableStep::Visit(next))
                            &&& next@ == TableCreationState::Record(entry, next_step)
                            &&& next.wf(final(catalog)@)
                            &&& final(catalog)@ == old(catalog)@
                        },
                    }
                },
            },
    {
        proof {
            catalog.lemma_wf();
        }
        match self.stage {
            TableStage::Heap(id, schema) => {
                proof {
                    let frames = pool@.frames;
                    let index = pool_model::index_of(frames, guard.spec_page_id());
                    assert(frames[index].wf(pool@.disk, pool@.clock));
                }
                let heap = match HeapFile::create(pool, guard) {
                    Ok(heap) => heap,
                    Err(error) => {
                        return Err(CatalogError::Heap(Box::new(error)));
                    },
                };
                let metadata = TableMetadata::new(id, schema, heap.first_page_id());
                let record = encode_table_record(&metadata);
                let step = InsertStep::Visit(0);
                Ok(
                    TableStep::Visit(
                        TableCreation { stage: TableStage::Record(metadata, record, step) },
                    ),
                )
            },
            TableStage::Record(metadata, record, step) => {
                proof {
                    table_laws::encoded_tables_are_bounded(metadata@.table);
                    record_format::lemma_record_length(metadata@);
                }
                match catalog.heap_mut().insert_step(pool, guard, step, record.as_slice()) {
                    Err(error) => Err(CatalogError::Heap(Box::new(error))),
                    Ok(InsertStep::Inserted(_)) => {
                        catalog.register(metadata);
                        Ok(TableStep::Created)
                    },
                    Ok(step) => Ok(
                        TableStep::Visit(
                            TableCreation { stage: TableStage::Record(metadata, record, step) },
                        ),
                    ),
                }
            },
        }
    }
}

} // verus!
