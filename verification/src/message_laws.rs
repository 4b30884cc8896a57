//! What the messages of errors say.

use vstd::prelude::*;
use vstd::std_specs::convert::FromSpec;

use crate::catalog::record_format::CatalogFault;
use crate::catalog::CatalogError;
use crate::config::{ConfigError, ConfigFault};
use crate::heap::{HeapFileError, SlottedPageError};
use crate::message;
use crate::schema::row_format::RowFault;
use crate::schema::table_format::SchemaFault;
use crate::schema::SchemaError;
use crate::storage::{BufferPoolError, DiskManagerError, PageError};

verus! {

/// The message of a page access names offset and length.
pub proof fn page_messages_name_the_access(offset: usize, length: usize)
    ensures
        message::says_both(
            (PageError::OutOfBounds { offset, length }).text(),
            "page access at offset "@,
            offset as int,
            " with length "@,
            length as int,
            " exceeds 8192 bytes"@,
        ),
{
    message::lemma_says_both(
        (PageError::OutOfBounds { offset, length }).text(),
        "page access at offset "@,
        offset as int,
        " with length "@,
        length as int,
        " exceeds 8192 bytes"@,
    );
}

/// The message of a fault of the file names what it is about: the operation, the
/// length, the page.
pub proof fn disk_messages_name_their_subject(error: DiskManagerError)
    ensures
        match error {
            DiskManagerError::Io { operation, path, source } => error.text() == "failed to "@
                + operation@ + " at "@ + path@ + ": "@ + source@,
            DiskManagerError::InvalidFileLength { length } => message::says(
                error.text(),
                "invalid database file length "@,
                length as int,
                "; it must be a positive multiple of 8192"@,
            ),
            DiskManagerError::Corrupt(reason) => error.text() == "corrupt database header: "@
                + reason@,
            DiskManagerError::ReadOnly => error.text() == "database was opened read-only"@,
            DiskManagerError::HeaderPageIsReserved => error.text()
                == "database header page is reserved"@,
            DiskManagerError::PageNotAllocated(page_id) => message::says(
                error.text(),
                "page "@,
                page_id.0 as int,
                " has not been allocated"@,
            ),
            DiskManagerError::PageIdExhausted => error.text()
                == "database has exhausted allocatable page IDs"@,
            DiskManagerError::CatalogRootAlreadySet(page_id) => message::says(
                error.text(),
                "database catalog root is already page "@,
                page_id.0 as int,
                Seq::empty(),
            ),
        },
{
    match error {
        DiskManagerError::InvalidFileLength { length } => {
            message::lemma_says(
                error.text(),
                "invalid database file length "@,
                length as int,
                "; it must be a positive multiple of 8192"@,
            );
        },
        DiskManagerError::PageNotAllocated(page_id) => {
            message::lemma_says(
                error.text(),
                "page "@,
                page_id.0 as int,
                " has not been allocated"@,
            );
        },
        DiskManagerError::CatalogRootAlreadySet(page_id) => {
            message::lemma_says(
                error.text(),
                "database catalog root is already page "@,
                page_id.0 as int,
                Seq::empty(),
            );
        },
        _ => {},
    }
}

/// The message of a fault of the pool names the page that it is about, or is that of
/// the fault of the file.
pub proof fn pool_messages_name_their_subject(error: BufferPoolError)
    ensures
        match error {
            BufferPoolError::Disk(inner) => error.text() == inner.text(),
            BufferPoolError::ZeroCapacity => error.text()
                == "buffer pool capacity must be greater than zero"@,
            BufferPoolError::AllFramesPinned => error.text()
                == "all buffer-pool frames are pinned"@,
            BufferPoolError::PoolBorrowed => error.text()
                == "buffer pool is already mutably borrowed"@,
            BufferPoolError::PageBorrowed(page_id) => message::says(
                error.text(),
                "cached page "@,
                page_id.0 as int,
                " is already borrowed"@,
            ),
            BufferPoolError::PageNotCached(page_id) => message::says(
                error.text(),
                "page "@,
                page_id.0 as int,
                " is not cached"@,
            ),
            BufferPoolError::PinCountExhausted(page_id) => message::says(
                error.text(),
                "page "@,
                page_id.0 as int,
                " pin count is exhausted"@,
            ),
            BufferPoolError::ReadOnly => error.text() == "database was opened read-only"@,
        },
{
    match error {
        BufferPoolError::PageBorrowed(page_id) => {
            message::lemma_says(
                error.text(),
                "cached page "@,
                page_id.0 as int,
                " is already borrowed"@,
            );
        },
        BufferPoolError::PageNotCached(page_id) => {
            message::lemma_says(error.text(), "page "@, page_id.0 as int, " is not cached"@);
        },
        BufferPoolError::PinCountExhausted(page_id) => {
            message::lemma_says(
                error.text(),
                "page "@,
                page_id.0 as int,
                " pin count is exhausted"@,
            );
        },
        _ => {},
    }
}

/// The message of a fault of a heap page names sizes and rows.
pub proof fn heap_page_messages_name_their_subject(error: SlottedPageError)
    ensures
        match error {
            SlottedPageError::Page(inner) => error.text() == inner.text(),
            SlottedPageError::Corrupt(reason) => error.text() == "corrupt heap page: "@ + reason@,
            SlottedPageError::RecordTooLarge { size } => message::says(
                error.text(),
                "record of "@,
                size as int,
                " bytes is too large for a heap page"@,
            ),
            SlottedPageError::NoSpace { required, available } => message::says_both(
                error.text(),
                "heap page has insufficient space: "@,
                required as int,
                " bytes required, "@,
                available as int,
                " available"@,
            ),
            SlottedPageError::InvalidRid(rid) => error.text()
                == "RID does not identify a live row: "@ + message::rid_text(rid),
        },
{
    match error {
        SlottedPageError::RecordTooLarge { size } => {
            message::lemma_says(
                error.text(),
                "record of "@,
                size as int,
                " bytes is too large for a heap page"@,
            );
        },
        SlottedPageError::NoSpace { required, available } => {
            message::lemma_says_both(
                error.text(),
                "heap page has insufficient space: "@,
                required as int,
                " bytes required, "@,
                available as int,
                " available"@,
            );
        },
        _ => {},
    }
}

/// The message of a fault of a heap names sizes, pages and rows, or is that of the
/// fault behind it.
pub proof fn heap_messages_name_their_subject(error: HeapFileError)
    ensures
        match error {
            HeapFileError::Buffer(inner) => error.text() == inner.text(),
            HeapFileError::Page(inner) => error.text() == inner.text(),
            HeapFileError::RecordTooLarge { size, maximum } => message::says_both(
                error.text(),
                "record is "@,
                size as int,
                " bytes; maximum is "@,
                maximum as int,
                Seq::empty(),
            ),
            HeapFileError::PageChainCycle(page_id) => message::says(
                error.text(),
                "heap page chain contains a cycle at page "@,
                page_id.0 as int,
                Seq::empty(),
            ),
            HeapFileError::RidOutsideHeap(rid) => error.text()
                == "RID belongs to a different heap file: "@ + message::rid_text(rid),
        },
{
    match error {
        HeapFileError::RecordTooLarge { size, maximum } => {
            message::lemma_says_both(
                error.text(),
                "record is "@,
                size as int,
                " bytes; maximum is "@,
                maximum as int,
                Seq::empty(),
            );
        },
        HeapFileError::PageChainCycle(page_id) => {
            message::lemma_says(
                error.text(),
                "heap page chain contains a cycle at page "@,
                page_id.0 as int,
                Seq::empty(),
            );
        },
        _ => {},
    }
}

/// The message of a fault of a table names tables, columns and sizes.
pub proof fn schema_messages_name_their_subject(fault: SchemaFault)
    ensures
        match fault {
            SchemaFault::InvalidIdentifier { kind, identifier } => fault.text() == "invalid "@
                + kind@ + " identifier: "@ + message::quoted(identifier),
            SchemaFault::NoColumns => fault.text() == "table must contain at least one column"@,
            SchemaFault::TooManyColumns { count, maximum } => message::says_both(
                fault.text(),
                "table has "@,
                count as int,
                " columns; maximum is "@,
                maximum as int,
                Seq::empty(),
            ),
            SchemaFault::DuplicateColumn(name) => fault.text() == "duplicate column: "@ + name,
            SchemaFault::MissingPrimaryKey => fault.text()
                == "table must have exactly one primary key"@,
            SchemaFault::MultiplePrimaryKeys => fault.text()
                == "table cannot have more than one primary key"@,
            SchemaFault::NullablePrimaryKey(name) => fault.text() == "primary-key column "@ + name
                + " cannot be nullable"@,
            SchemaFault::SchemaTooWide { minimum_row_size, maximum } => message::says_both(
                fault.text(),
                "schema requires at least "@,
                minimum_row_size as int,
                " bytes per row; maximum is "@,
                maximum as int,
                Seq::empty(),
            ),
            SchemaFault::CorruptEncoding(reason) => fault.text() == "invalid schema encoding: "@
                + reason@,
        },
{
    match fault {
        SchemaFault::TooManyColumns { count, maximum } => {
            message::lemma_says_both(
                fault.text(),
                "table has "@,
                count as int,
                " columns; maximum is "@,
                maximum as int,
                Seq::empty(),
            );
        },
        SchemaFault::SchemaTooWide { minimum_row_size, maximum } => {
            message::lemma_says_both(
                fault.text(),
                "schema requires at least "@,
                minimum_row_size as int,
                " bytes per row; maximum is "@,
                maximum as int,
                Seq::empty(),
            );
        },
        _ => {},
    }
}

/// The message of a fault of a row names columns, types and sizes.
pub proof fn row_messages_name_their_subject(fault: RowFault)
    ensures
        match fault {
            RowFault::WrongValueCount { expected, found } => message::says_both(
                fault.text(),
                "row has "@,
                found as int,
                " values; expected "@,
                expected as int,
                Seq::empty(),
            ),
            RowFault::TypeMismatch { column, expected, found } => fault.text() == "column "@
                + column + " expects "@ + expected.spec_name()@ + ", found "@ + found@,
            RowFault::NullNotAllowed { column } => fault.text() == "column "@ + column
                + " does not allow null"@,
            RowFault::ColumnOutOfBounds { index, column_count } => message::says_both(
                fault.text(),
                "column index "@,
                index as int,
                " is out of bounds for "@,
                column_count as int,
                " columns"@,
            ),
            RowFault::RowTooLarge { size, maximum } => message::says_both(
                fault.text(),
                "encoded row is "@,
                size as int,
                " bytes; maximum is "@,
                maximum as int,
                Seq::empty(),
            ),
            RowFault::Corrupt(reason) => fault.text() == "corrupt row encoding: "@ + reason@,
        },
{
    match fault {
        RowFault::WrongValueCount { expected, found } => {
            message::lemma_says_both(
                fault.text(),
                "row has "@,
                found as int,
                " values; expected "@,
                expected as int,
                Seq::empty(),
            );
        },
        RowFault::ColumnOutOfBounds { index, column_count } => {
            message::lemma_says_both(
                fault.text(),
                "column index "@,
                index as int,
                " is out of bounds for "@,
                column_count as int,
                " columns"@,
            );
        },
        RowFault::RowTooLarge { size, maximum } => {
            message::lemma_says_both(
                fault.text(),
                "encoded row is "@,
                size as int,
                " bytes; maximum is "@,
                maximum as int,
                Seq::empty(),
            );
        },
        _ => {},
    }
}

/// The message of a fault of the catalog names tables, pages and sizes, or is that of
/// the fault behind it.
pub proof fn catalog_messages_name_their_subject(fault: CatalogFault)
    ensures
        match fault {
            CatalogFault::Buffer(inner) => fault.text() == inner.text(),
            CatalogFault::Heap(inner) => fault.text() == inner.text(),
            CatalogFault::Schema(inner) => fault.text() == inner.text(),
            CatalogFault::AlreadyInitialized(page_id) => message::says(
                fault.text(),
                "database catalog is already initialized at page "@,
                page_id.0 as int,
                Seq::empty(),
            ),
            CatalogFault::NotInitialized => fault.text() == "database catalog is not initialized"@,
            CatalogFault::DuplicateTableName(name) => fault.text() == "table already exists: "@
                + name,
            CatalogFault::DuplicateTableId(id) => message::says(
                fault.text(),
                "duplicate table ID: "@,
                id.0 as int,
                Seq::empty(),
            ),
            CatalogFault::TableNotFound(name) => fault.text() == "table does not exist: "@ + name,
            CatalogFault::TableIdExhausted => fault.text() == "catalog has exhausted table IDs"@,
            CatalogFault::TableRecordTooLarge { size, maximum } => message::says_both(
                fault.text(),
                "encoded table record is "@,
                size as int,
                " bytes; maximum is "@,
                maximum as int,
                Seq::empty(),
            ),
            CatalogFault::CorruptRecord(reason) => fault.text() == "corrupt catalog record: "@
                + reason@,
        },
{
    match fault {
        CatalogFault::AlreadyInitialized(page_id) => {
            message::lemma_says(
                fault.text(),
                "database catalog is already initialized at page "@,
                page_id.0 as int,
                Seq::empty(),
            );
        },
        CatalogFault::DuplicateTableId(id) => {
            message::lemma_says(
                fault.text(),
                "duplicate table ID: "@,
                id.0 as int,
                Seq::empty(),
            );
        },
        CatalogFault::TableRecordTooLarge { size, maximum } => {
            message::lemma_says_both(
                fault.text(),
                "encoded table record is "@,
                size as int,
                " bytes; maximum is "@,
                maximum as int,
                Seq::empty(),
            );
        },
        _ => {},
    }
}

/// The message of a fault of the settings names the file, the versions, or the setting
/// with what is wrong with it.
pub proof fn config_messages_name_their_subject(fault: ConfigFault)
    ensures
        match fault {
            ConfigFault::Read { path, source } => fault.text() == "failed to read "@ + path + ": "@
                + source,
            ConfigFault::Parse { path, source } => fault.text() == "invalid YAML in "@ + path
                + ": "@ + source,
            ConfigFault::UnsupportedVersion { found, supported } => message::says_both(
                fault.text(),
                "unsupported configuration version "@,
                found as int,
                "; North supports version "@,
                supported as int,
                Seq::empty(),
            ),
            ConfigFault::InvalidValue { field, reason } => fault.text() == "invalid "@ + field@
                + ": "@ + reason,
        },
{
    match fault {
        ConfigFault::UnsupportedVersion { found, supported } => {
            message::lemma_says_both(
                fault.text(),
                "unsupported configuration version "@,
                found as int,
                "; North supports version "@,
                supported as int,
                Seq::empty(),
            );
        },
        _ => {},
    }
}

/// An error that passes another one on keeps it.
pub proof fn errors_keep_the_error_behind_them(
    page: PageError,
    disk: DiskManagerError,
    pool: BufferPoolError,
    slotted: SlottedPageError,
    heap: HeapFileError,
    schema: SchemaError,
)
    ensures
        <SlottedPageError as FromSpec<PageError>>::from_spec(page) == SlottedPageError::Page(page),
        <BufferPoolError as FromSpec<DiskManagerError>>::from_spec(disk) == BufferPoolError::Disk(
            Box::new(disk),
        ),
        <HeapFileError as FromSpec<BufferPoolError>>::from_spec(pool) == HeapFileError::Buffer(
            Box::new(pool),
        ),
        <HeapFileError as FromSpec<SlottedPageError>>::from_spec(slotted) == HeapFileError::Page(
            Box::new(slotted),
        ),
        <CatalogError as FromSpec<BufferPoolError>>::from_spec(pool) == CatalogError::Buffer(
            Box::new(pool),
        ),
        <CatalogError as FromSpec<HeapFileError>>::from_spec(heap) == CatalogError::Heap(
            Box::new(heap),
        ),
        <CatalogError as FromSpec<SchemaError>>::from_spec(schema) == CatalogError::Schema(
            Box::new(schema),
        ),
{
}

/// An error of the settings says what its fault says.
pub proof fn config_errors_say_their_faults(error: ConfigError)
    ensures
        match error {
            ConfigError::Read { path, source } => error@ == (ConfigFault::Read {
                path: path@,
                source: source@,
            }),
            ConfigError::Parse { path, source } => error@ == (ConfigFault::Parse {
                path: path@,
                source: source@,
            }),
            ConfigError::UnsupportedVersion { found, supported } => error@ == (
            ConfigFault::UnsupportedVersion { found, supported }),
            ConfigError::InvalidValue { field, reason } => error@ == (ConfigFault::InvalidValue {
                field,
                reason: reason@,
            }),
        },
{
}

} // verus!
