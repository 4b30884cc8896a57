//! The registry of tables.
//!
//! The catalog keeps one record for each table in a heap of its own. It never
//! fetches a page: each operation says which page it needs, and goes on when it is
//! given that page.

pub mod catalog_laws;
pub mod catalog_model;
pub mod creation;
pub mod creation_laws;
pub mod opening;
pub mod persistence_laws;
pub mod record_format;
pub mod reopening_laws;

use vstd::prelude::*;

use crate::codec;
use crate::heap::{HeapFile, HeapFileError, HeapOpening};
use crate::message::{self, Message};
use crate::schema::table_laws;
use crate::schema::{SchemaError, TableSchema, MAX_ROW_SIZE};
use crate::storage::{BufferPoolError, DatabaseHeader, PageId};
use crate::text;

use catalog_model::{CatalogState, CreationState, OpeningState, TableCreationState};
use record_format::{
    CatalogFault, TableEntry, FIRST_TABLE_ID, TABLE_RECORD_HEADER_SIZE, TABLE_RECORD_MAGIC,
    TABLE_RECORD_VERSION,
};

pub use creation::{CatalogCreation, CreationStep, TableCreation, TableStep};
pub use opening::{CatalogOpening, CatalogStep};

verus! {

/// Number of a table.
#[derive(Clone, Copy, Debug, PartialEq, Eq, PartialOrd, Ord, Hash, Structural)]
pub struct TableId(pub u32);

impl TableId {
    pub fn new(value: u32) -> (id: Self)
        ensures
            id == TableId(value),
    {
        Self(value)
    }

    pub fn get(self) -> (value: u32)
        ensures
            value == self.0,
    {
        self.0
    }
}

/// What the catalog knows of a table.
#[derive(Clone, Debug, PartialEq, Eq)]
pub struct TableMetadata {
    id: TableId,
    schema: TableSchema,
    heap_first_page_id: PageId,
}

impl View for TableMetadata {
    type V = TableEntry;

    closed spec fn view(&self) -> TableEntry {
        TableEntry { id: self.id, heap_root: self.heap_first_page_id, table: self.schema@ }
    }
}

impl TableMetadata {
    pub closed spec fn wf(&self) -> bool {
        self.schema.wf()
    }

    pub(super) fn new(id: TableId, schema: TableSchema, heap_first_page_id: PageId) -> (metadata:
        Self)
        requires
            schema.wf(),
        ensures
            metadata.wf(),
            metadata@ == (TableEntry { id, heap_root: heap_first_page_id, table: schema@ }),
    {
        Self { id, schema, heap_first_page_id }
    }

    pub fn id(&self) -> (id: TableId)
        ensures
            id == self@.id,
    {
        self.id
    }

    pub fn heap_first_page_id(&self) -> (page_id: PageId)
        ensures
            page_id == self@.heap_root,
    {
        self.heap_first_page_id
    }

    pub fn schema(&self) -> (schema: &TableSchema)
        ensures
            schema@ == self@.table,
            self.wf() ==> schema.wf(),
    {
        &self.schema
    }
}

/// The tables that `tables` describe.
pub open spec fn entries(tables: Seq<TableMetadata>) -> Seq<TableEntry> {
    Seq::new(tables.len(), |i: int| tables[i]@)
}

/// Persistent registry of immutable table definitions.
pub struct Catalog {
    heap: HeapFile,
    tables: Vec<TableMetadata>,
    next_table_id: u32,
}

impl View for Catalog {
    type V = CatalogState;

    closed spec fn view(&self) -> CatalogState {
        CatalogState {
            pages: self.heap@,
            tables: entries(self.tables@),
            next_table_id: self.next_table_id,
        }
    }
}

impl Catalog {
    pub closed spec fn wf(&self) -> bool {
        &&& self@.wf()
        &&& forall|i: int| 0 <= i < self.tables@.len() ==> (#[trigger] self.tables@[i]).wf()
    }

    /// A well-formed catalog has pages, and its tables are in order.
    pub proof fn lemma_wf(&self)
        requires
            self.wf(),
        ensures
            self@.wf(),
    {
    }

    /// A catalog without tables in a heap of its own.
    fn empty(heap: HeapFile) -> (catalog: Self)
        requires
            heap@.len() > 0,
        ensures
            catalog.wf(),
            catalog@ == (CatalogState {
                pages: heap@,
                tables: Seq::empty(),
                next_table_id: FIRST_TABLE_ID,
            }),
    {
        let catalog = Self { heap, tables: Vec::new(), next_table_id: FIRST_TABLE_ID };
        assert(catalog@.tables =~= Seq::empty());
        assert(catalog_model::is_highest(catalog@.tables, 0));
        catalog
    }

    /// A catalog with tables that were loaded from a heap.
    fn loaded(heap: HeapFile, tables: Vec<TableMetadata>, highest_table_id: u32) -> (catalog: Self)
        requires
            heap@.len() > 0,
            catalog_model::sorted(entries(tables@)),
            catalog_model::distinct_ids(entries(tables@)),
            catalog_model::is_highest(entries(tables@), highest_table_id),
            forall|i: int| 0 <= i < tables@.len() ==> (#[trigger] tables@[i]).wf(),
            forall|i: int|
                0 <= i < tables@.len() ==> (#[trigger] entries(tables@)[i]).valid(),
        ensures
            catalog.wf(),
            catalog@ == (CatalogState {
                pages: heap@,
                tables: entries(tables@),
                next_table_id: catalog_model::id_after(highest_table_id),
            }),
    {
        let next_table_id: u32 = if highest_table_id == u32::MAX {
            u32::MAX
        } else {
            highest_table_id + 1
        };
        Self { heap, tables, next_table_id }
    }

    /// Starts to create the catalog of a database.
    pub fn create(header: DatabaseHeader) -> (result: Result<CatalogCreation, CatalogError>)
        ensures
            match header@.catalog_root {
                Some(root) => result matches Err(error) && error@
                    == CatalogFault::AlreadyInitialized(root),
                None => {
                    &&& result matches Ok(creation)
                    &&& creation.wf()
                    &&& creation@ == CreationState::Start
                },
            },
    {
        match header.catalog_root_page_id() {
            Some(root) => Err(CatalogError::AlreadyInitialized(root)),
            None => Ok(CatalogCreation::new()),
        }
    }

    /// Starts to open the catalog of a database.
    pub fn open(header: DatabaseHeader) -> (result: Result<CatalogOpening, CatalogError>)
        ensures
            match header@.catalog_root {
                Some(root) => {
                    &&& result matches Ok(opening)
                    &&& opening.wf()
                    &&& opening@ == OpeningState::Root(seq![root])
                },
                None => result matches Err(error) && error@ == CatalogFault::NotInitialized,
            },
    {
        match header.catalog_root_page_id() {
            Some(root) => Ok(CatalogOpening::new(root)),
            None => Err(CatalogError::NotInitialized),
        }
    }

    pub fn root_page_id(&self) -> (page_id: PageId)
        requires
            self.wf(),
        ensures
            page_id == self@.pages[0],
    {
        self.heap.first_page_id()
    }

    /// The heap that holds the records of the catalog.
    pub fn heap(&self) -> (heap: &HeapFile)
        ensures
            heap@ == self@.pages,
    {
        &self.heap
    }

    /// The heap that holds the records of the catalog, to insert one.
    fn heap_mut(&mut self) -> (heap: &mut HeapFile)
        requires
            old(self).wf(),
        ensures
            heap@ == old(self)@.pages,
            final(heap)@.len() > 0 ==> {
                &&& final(self).wf()
                &&& final(self)@ == (CatalogState { pages: final(heap)@, ..old(self)@ })
            },
    {
        &mut self.heap
    }

    pub fn table_count(&self) -> (count: usize)
        ensures
            count == self@.tables.len(),
    {
        self.tables.len()
    }

    pub fn table(&self, name: &str) -> (metadata: Option<&TableMetadata>)
        requires
            self.wf(),
        ensures
            match metadata {
                Some(metadata) => {
                    &&& metadata.wf()
                    &&& self@.tables.contains(metadata@)
                    &&& metadata@.table.name == name@
                },
                None => !catalog_model::has_name(self@.tables, name@),
            },
    {
        match find_table(&self.tables, name) {
            Some(index) => {
                let metadata = &self.tables[index];
                assert(self@.tables[index as int] == metadata@);
                Some(metadata)
            },
            None => None,
        }
    }

    /// The tables, by name.
    pub fn tables(&self) -> (tables: &[TableMetadata])
        ensures
            entries(tables@) == self@.tables,
            self.wf() ==> forall|i: int| 0 <= i < tables@.len() ==> (#[trigger] tables@[i]).wf(),
    {
        self.tables.as_slice()
    }

    /// Starts to create a table.
    pub fn create_table(&self, schema: TableSchema) -> (result: Result<TableCreation, CatalogError>)
        requires
            self.wf(),
            schema.wf(),
        ensures
            match self@.creation_fault(schema@) {
                Some(fault) => result matches Err(error) && error@ == fault,
                None => {
                    &&& result matches Ok(creation)
                    &&& creation.wf(self@)
                    &&& creation@ == TableCreationState::Heap(
                        TableId(self@.next_table_id),
                        schema@,
                    )
                },
            },
    {
        if find_table(&self.tables, schema.name()).is_some() {
            return Err(CatalogError::DuplicateTableName(schema.name().to_owned()));
        }
        if self.next_table_id == u32::MAX {
            return Err(CatalogError::TableIdExhausted);
        }
        proof {
            schema.lemma_valid();
            table_laws::encoded_tables_are_bounded(schema@);
        }
        let record_size: usize = TABLE_RECORD_HEADER_SIZE + schema.encode().len();
        if record_size > MAX_ROW_SIZE {
            return Err(
                CatalogError::TableRecordTooLarge { size: record_size, maximum: MAX_ROW_SIZE },
            );
        }
        Ok(TableCreation::new(TableId::new(self.next_table_id), schema))
    }

    /// Adds a table whose heap was created and whose record was inserted.
    fn register(&mut self, metadata: TableMetadata)
        requires
            old(self).wf(),
            metadata.wf(),
            metadata@.valid(),
            metadata@.id == TableId(old(self)@.next_table_id),
            old(self)@.creation_fault(metadata@.table) is None,
        ensures
            final(self).wf(),
            final(self)@ == old(self)@.register(metadata@),
    {
        proof {
            let highest = choose|highest: u32| #[trigger]
                catalog_model::is_highest(self@.tables, highest) && self@.next_table_id
                    == catalog_model::id_after(highest);
            assert(!catalog_model::has_id(self@.tables, metadata@.id));
            catalog_model::lemma_ids_after(self@.tables, metadata@, highest);
        }
        insert_table(&mut self.tables, metadata);
        self.next_table_id = self.next_table_id + 1;
        assert(catalog_model::is_highest(self@.tables, (self@.next_table_id - 1) as u32));
        proof {
            catalog_model::lemma_with_table(old(self)@.tables, metadata@);
            assert forall|i: int| 0 <= i < self@.tables.len() implies (
            #[trigger] self@.tables[i]).valid() by {
                if self@.tables[i] != metadata@ {
                    let before = old(self)@.tables;
                    let j = choose|j: int| 0 <= j < before.len() && before[j] == self@.tables[i];
                    assert(before[j].valid());
                }
            }
        }
    }

    /// Starts to open the heap of a table.
    pub fn open_table_heap(&self, name: &str) -> (result: Result<HeapOpening, CatalogError>)
        requires
            self.wf(),
        ensures
            match result {
                Ok(opening) => exists|i: int|
                    0 <= i < self@.tables.len() && (#[trigger] self@.tables[i]).table.name == name@
                        && opening@ == seq![self@.tables[i].heap_root],
                Err(error) => {
                    &&& !catalog_model::has_name(self@.tables, name@)
                    &&& error@ == CatalogFault::TableNotFound(name@)
                },
            },
    {
        match find_table(&self.tables, name) {
            Some(index) => {
                assert(self@.tables[index as int] == self.tables@[index as int]@);
                Ok(HeapFile::open(self.tables[index].heap_first_page_id))
            },
            None => Err(CatalogError::TableNotFound(name.to_owned())),
        }
    }
}

/// Where the table with this name is.
fn find_table(tables: &Vec<TableMetadata>, name: &str) -> (index: Option<usize>)
    ensures
        match index {
            Some(index) => {
                &&& index < tables@.len()
                &&& tables@[index as int]@.table.name == name@
                &&& catalog_model::has_name(entries(tables@), name@)
            },
            None => !catalog_model::has_name(entries(tables@), name@),
        },
{
    let mut index: usize = 0;
    while index < tables.len()
        invariant
            index <= tables@.len(),
            forall|j: int|
                0 <= j < index ==> (#[trigger] entries(tables@)[j]).table.name != name@,
        decreases tables@.len() - index,
    {
        assert(entries(tables@)[index as int] == tables@[index as int]@);
        if text::same(tables[index].schema.name(), name) {
            return Some(index);
        }
        index += 1;
    }
    None
}

/// Whether there is a table with this number.
fn find_id(tables: &Vec<TableMetadata>, id: TableId) -> (found: bool)
    ensures
        found == catalog_model::has_id(entries(tables@), id),
{
    let mut index: usize = 0;
    while index < tables.len()
        invariant
            index <= tables@.len(),
            forall|j: int| 0 <= j < index ==> (#[trigger] entries(tables@)[j]).id != id,
        decreases tables@.len() - index,
    {
        assert(entries(tables@)[index as int] == tables@[index as int]@);
        if tables[index].id == id {
            return true;
        }
        index += 1;
    }
    false
}

/// Adds a table at the place where it belongs.
fn insert_table(tables: &mut Vec<TableMetadata>, metadata: TableMetadata)
    requires
        catalog_model::sorted(entries(old(tables)@)),
        metadata.wf(),
        forall|i: int| 0 <= i < old(tables)@.len() ==> (#[trigger] old(tables)@[i]).wf(),
    ensures
        entries(final(tables)@) == catalog_model::with_table(entries(old(tables)@), metadata@),
        forall|i: int| 0 <= i < final(tables)@.len() ==> (#[trigger] final(tables)@[i]).wf(),
{
    let ghost before = entries(tables@);
    let ghost name = metadata@.table.name;
    let mut place: usize = 0;
    while place < tables.len() && text::precedes(
        tables[place].schema.name(),
        metadata.schema.name(),
    )
        invariant
            place <= tables@.len(),
            before == entries(tables@),
            name == metadata@.table.name,
            forall|i: int|
                0 <= i < place ==> text::text_precedes((#[trigger] before[i]).table.name, name),
        decreases tables@.len() - place,
    {
        assert(before[place as int] == tables@[place as int]@);
        place += 1;
    }
    proof {
        assert forall|i: int| place <= i < before.len() implies !text::text_precedes(
            (#[trigger] before[i]).table.name,
            name,
        ) by {
            assert(before[place as int] == tables@[place as int]@);
            if i > place && text::text_precedes(before[i].table.name, name) {
                text::lemma_order_is_transitive(
                    before[place as int].table.name,
                    before[i].table.name,
                    name,
                );
            }
        }
        assert(catalog_model::is_place(before, name, place as int));
        catalog_model::lemma_place_is_unique(
            before,
            name,
            place as int,
            choose|p: int| catalog_model::is_place(before, name, p),
        );
    }
    tables.insert(place, metadata);
    assert(entries(tables@) =~= before.insert(place as int, metadata@));
}

/// The record of a table in the heap of the catalog.
pub fn encode_table_record(metadata: &TableMetadata) -> (bytes: Vec<u8>)
    requires
        metadata.wf(),
    ensures
        bytes@ == metadata@.encoded(),
{
    let schema = metadata.schema.encode();
    proof {
        metadata.schema.lemma_valid();
        table_laws::encoded_tables_are_bounded(metadata.schema@);
    }
    let mut bytes: Vec<u8> = Vec::new();
    codec::append(&mut bytes, &TABLE_RECORD_MAGIC);
    codec::append(&mut bytes, &codec::encode_u16(TABLE_RECORD_VERSION));
    codec::append(&mut bytes, &codec::encode_u16(0));
    codec::append(&mut bytes, &codec::encode_u32(metadata.id.get()));
    codec::append(&mut bytes, &codec::encode_u32(metadata.heap_first_page_id.get()));
    codec::append(&mut bytes, &codec::encode_u32(schema.len() as u32));
    codec::append(&mut bytes, schema.as_slice());
    assert(bytes@ =~= metadata@.encoded());
    bytes
}

/// The table that a record in the heap of the catalog describes.
pub fn decode_table_record(bytes: &[u8]) -> (result: Result<TableMetadata, CatalogError>)
    ensures
        match record_format::decode_record(bytes@) {
            Ok(entry) => result matches Ok(metadata) && metadata.wf() && metadata@ == entry,
            Err(fault) => result matches Err(error) && error@ == fault,
        },
{
    if bytes.len() < TABLE_RECORD_HEADER_SIZE {
        return Err(CatalogError::CorruptRecord("table record is truncated"));
    }
    if !codec::equal(&bytes[0..4], &TABLE_RECORD_MAGIC) {
        return Err(CatalogError::CorruptRecord("invalid table record magic"));
    }
    if codec::read_u16(bytes, 4) != TABLE_RECORD_VERSION {
        return Err(CatalogError::CorruptRecord("unsupported table record version"));
    }
    if codec::read_u16(bytes, 6) != 0 {
        return Err(CatalogError::CorruptRecord("table record reserved flags are not zero"));
    }
    let table_id: u32 = codec::read_u32(bytes, 8);
    if table_id < FIRST_TABLE_ID {
        return Err(CatalogError::CorruptRecord("invalid table ID"));
    }
    let heap_first_page_id: u32 = codec::read_u32(bytes, 12);
    if heap_first_page_id == 0 {
        return Err(CatalogError::CorruptRecord("invalid table heap root"));
    }
    let schema_length: usize = codec::read_u32(bytes, 16) as usize;
    let expected_length: usize = match TABLE_RECORD_HEADER_SIZE.checked_add(schema_length) {
        Some(length) => length,
        None => {
            return Err(CatalogError::CorruptRecord("table record length overflow"));
        },
    };
    if expected_length != bytes.len() {
        return Err(
            CatalogError::CorruptRecord("table record schema length does not match record"),
        );
    }
    match TableSchema::decode(&bytes[TABLE_RECORD_HEADER_SIZE..bytes.len()]) {
        Ok(schema) => Ok(
            TableMetadata {
                id: TableId::new(table_id),
                schema,
                heap_first_page_id: PageId::new(heap_first_page_id),
            },
        ),
        Err(error) => Err(CatalogError::Schema(Box::new(error))),
    }
}

#[derive(Clone, Debug, PartialEq, Eq)]
pub enum CatalogError {
    Buffer(Box<BufferPoolError>),
    Heap(Box<HeapFileError>),
    Schema(Box<SchemaError>),
    AlreadyInitialized(PageId),
    NotInitialized,
    DuplicateTableName(String),
    DuplicateTableId(TableId),
    TableNotFound(String),
    TableIdExhausted,
    TableRecordTooLarge { size: usize, maximum: usize },
    CorruptRecord(&'static str),
}

impl View for CatalogError {
    type V = CatalogFault;

    open spec fn view(&self) -> CatalogFault {
        match *self {
            CatalogError::Buffer(error) => CatalogFault::Buffer(*error),
            CatalogError::Heap(error) => CatalogFault::Heap(*error),
            CatalogError::Schema(error) => CatalogFault::Schema((*error)@),
            CatalogError::AlreadyInitialized(page_id) => CatalogFault::AlreadyInitialized(page_id),
            CatalogError::NotInitialized => CatalogFault::NotInitialized,
            CatalogError::DuplicateTableName(name) => CatalogFault::DuplicateTableName(name@),
            CatalogError::DuplicateTableId(id) => CatalogFault::DuplicateTableId(id),
            CatalogError::TableNotFound(name) => CatalogFault::TableNotFound(name@),
            CatalogError::TableIdExhausted => CatalogFault::TableIdExhausted,
            CatalogError::TableRecordTooLarge { size, maximum } => {
                CatalogFault::TableRecordTooLarge { size, maximum }
            },
            CatalogError::CorruptRecord(reason) => CatalogFault::CorruptRecord(reason),
        }
    }
}

impl CatalogFault {
    pub open spec fn text(self) -> Seq<char> {
        match self {
            CatalogFault::Buffer(error) => error.text(),
            CatalogFault::Heap(error) => error.text(),
            CatalogFault::Schema(fault) => fault.text(),
            CatalogFault::AlreadyInitialized(page_id) => {
                "database catalog is already initialized at page "@ + message::decimal(
                    page_id.0 as int,
                )
            },
            CatalogFault::NotInitialized => "database catalog is not initialized"@,
            CatalogFault::DuplicateTableName(name) => "table already exists: "@ + name,
            CatalogFault::DuplicateTableId(id) => {
                "duplicate table ID: "@ + message::decimal(id.0 as int)
            },
            CatalogFault::TableNotFound(name) => "table does not exist: "@ + name,
            CatalogFault::TableIdExhausted => "catalog has exhausted table IDs"@,
            CatalogFault::TableRecordTooLarge { size, maximum } => {
                "encoded table record is "@ + message::decimal(size as int)
                    + " bytes; maximum is "@ + message::decimal(maximum as int)
            },
            CatalogFault::CorruptRecord(reason) => "corrupt catalog record: "@ + reason@,
        }
    }
}

impl CatalogError {
    /// What went wrong, for people to read.
    pub fn message(&self) -> (message: String)
        ensures
            message@ == self@.text(),
    {
        match self {
            Self::Buffer(error) => error.message(),
            Self::Heap(error) => error.message(),
            Self::Schema(error) => error.message(),
            Self::AlreadyInitialized(page_id) => Message::new(
                "database catalog is already initialized at page ",
            ).number(page_id.get() as u64).finish(),
            Self::NotInitialized => "database catalog is not initialized".to_owned(),
            Self::DuplicateTableName(name) => Message::new("table already exists: ").text(
                name.as_str(),
            ).finish(),
            Self::DuplicateTableId(id) => Message::new("duplicate table ID: ").number(
                id.get() as u64,
            ).finish(),
            Self::TableNotFound(name) => Message::new("table does not exist: ").text(
                name.as_str(),
            ).finish(),
            Self::TableIdExhausted => "catalog has exhausted table IDs".to_owned(),
            Self::TableRecordTooLarge { size, maximum } => Message::new(
                "encoded table record is ",
            ).number(*size as u64).text(" bytes; maximum is ").number(*maximum as u64).finish(),
            Self::CorruptRecord(reason) => Message::new("corrupt catalog record: ").text(
                reason,
            ).finish(),
        }
    }
}

impl From<BufferPoolError> for CatalogError {
    fn from(error: BufferPoolError) -> (converted: Self) {
        Self::Buffer(Box::new(error))
    }
}

impl vstd::std_specs::convert::FromSpecImpl<BufferPoolError> for CatalogError {
    open spec fn obeys_from_spec() -> bool {
        true
    }

    open spec fn from_spec(error: BufferPoolError) -> Self {
        CatalogError::Buffer(Box::new(error))
    }
}

impl From<HeapFileError> for CatalogError {
    fn from(error: HeapFileError) -> (converted: Self) {
        Self::Heap(Box::new(error))
    }
}

impl vstd::std_specs::convert::FromSpecImpl<HeapFileError> for CatalogError {
    open spec fn obeys_from_spec() -> bool {
        true
    }

    open spec fn from_spec(error: HeapFileError) -> Self {
        CatalogError::Heap(Box::new(error))
    }
}

impl From<SchemaError> for CatalogError {
    fn from(error: SchemaError) -> (converted: Self) {
        Self::Schema(Box::new(error))
    }
}

impl vstd::std_specs::convert::FromSpecImpl<SchemaError> for CatalogError {
    open spec fn obeys_from_spec() -> bool {
        true
    }

    open spec fn from_spec(error: SchemaError) -> Self {
        CatalogError::Schema(Box::new(error))
    }
}

} // verus!
