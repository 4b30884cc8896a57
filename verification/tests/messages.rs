use north_db::catalog::{CatalogError, TableId};
use north_db::config::ConfigError;
use north_db::heap::{HeapFileError, SlottedPageError};
use north_db::message::Message;
use north_db::schema::{DataType, RowError, SchemaError};
use north_db::storage::{BufferPoolError, DiskManagerError, PageError, PageId, Rid, SlotId};

fn rid() -> Rid {
    Rid::new(PageId::new(4_294_967_295), SlotId::new(10), 0)
}

#[test]
fn numbers_are_written_in_decimal() {
    for value in [0, 7, 10, 99, 100, 8_192, u64::from(u32::MAX), u64::MAX] {
        assert_eq!(Message::new("").number(value).finish(), format!("{value}"));
    }
}

#[test]
fn row_identifiers_are_written_as_rust_prints_them() {
    let text = Message::new("found ").rid(rid()).text(".").finish();
    assert_eq!(text, format!("found {:?}.", rid()));
    assert_eq!(
        text,
        "found Rid { page_id: PageId(4294967295), slot_id: SlotId(10), generation: 0 }."
    );
}

#[test]
fn quoted_texts_are_escaped() {
    for text in ["", "plain", "a\"b", "tab\there", "line\nbreak", "\u{7f}", "grüße"] {
        assert_eq!(Message::new("").quoted(text).finish(), format!("{text:?}"));
    }
    assert_eq!(Message::new("is ").quoted("a\nb").finish(), "is \"a\\nb\"");
}

#[test]
fn page_errors_have_messages() {
    let error = PageError::OutOfBounds { offset: 8_190, length: 4 };
    assert_eq!(error.message(), "page access at offset 8190 with length 4 exceeds 8192 bytes");
}

#[test]
fn disk_errors_have_messages() {
    let cases = [
        (
            DiskManagerError::Io {
                operation: "read database page",
                path: "a/b.north".to_owned(),
                source: "no such file".to_owned(),
            },
            "failed to read database page at a/b.north: no such file",
        ),
        (
            DiskManagerError::InvalidFileLength { length: 8_193 },
            "invalid database file length 8193; it must be a positive multiple of 8192",
        ),
        (
            DiskManagerError::Corrupt("invalid database magic"),
            "corrupt database header: invalid database magic",
        ),
        (DiskManagerError::ReadOnly, "database was opened read-only"),
        (DiskManagerError::HeaderPageIsReserved, "database header page is reserved"),
        (DiskManagerError::PageNotAllocated(PageId::new(12)), "page 12 has not been allocated"),
        (DiskManagerError::PageIdExhausted, "database has exhausted allocatable page IDs"),
        (
            DiskManagerError::CatalogRootAlreadySet(PageId::new(1)),
            "database catalog root is already page 1",
        ),
    ];
    for (error, message) in cases {
        assert_eq!(error.message(), message);
        assert_eq!(BufferPoolError::from(error).message(), message);
    }
}

#[test]
fn pool_errors_have_messages() {
    let page_id = PageId::new(30);
    let cases = [
        (BufferPoolError::ZeroCapacity, "buffer pool capacity must be greater than zero"),
        (BufferPoolError::AllFramesPinned, "all buffer-pool frames are pinned"),
        (BufferPoolError::PoolBorrowed, "buffer pool is already mutably borrowed"),
        (BufferPoolError::PageBorrowed(page_id), "cached page 30 is already borrowed"),
        (BufferPoolError::PageNotCached(page_id), "page 30 is not cached"),
        (BufferPoolError::PinCountExhausted(page_id), "page 30 pin count is exhausted"),
        (BufferPoolError::ReadOnly, "database was opened read-only"),
    ];
    for (error, message) in cases {
        assert_eq!(error.message(), message);
        assert_eq!(HeapFileError::from(error.clone()).message(), message);
        assert_eq!(CatalogError::from(error).message(), message);
    }
}

#[test]
fn heap_page_errors_have_messages() {
    let invalid = format!("RID does not identify a live row: {:?}", rid());
    let cases = [
        (
            SlottedPageError::from(PageError::OutOfBounds { offset: 1, length: 2 }),
            "page access at offset 1 with length 2 exceeds 8192 bytes",
        ),
        (
            SlottedPageError::Corrupt("invalid heap-page magic"),
            "corrupt heap page: invalid heap-page magic",
        ),
        (
            SlottedPageError::RecordTooLarge { size: 70_000 },
            "record of 70000 bytes is too large for a heap page",
        ),
        (
            SlottedPageError::NoSpace { required: 108, available: 5 },
            "heap page has insufficient space: 108 bytes required, 5 available",
        ),
        (SlottedPageError::InvalidRid(rid()), invalid.as_str()),
    ];
    for (error, message) in cases {
        assert_eq!(error.message(), message);
        assert_eq!(HeapFileError::from(error).message(), message);
    }
}

#[test]
fn heap_errors_have_messages() {
    let outside = format!("RID belongs to a different heap file: {:?}", rid());
    let cases = [
        (
            HeapFileError::RecordTooLarge { size: 8_153, maximum: 8_152 },
            "record is 8153 bytes; maximum is 8152",
        ),
        (
            HeapFileError::PageChainCycle(PageId::new(9)),
            "heap page chain contains a cycle at page 9",
        ),
        (HeapFileError::RidOutsideHeap(rid()), outside.as_str()),
    ];
    for (error, message) in cases {
        assert_eq!(error.message(), message);
        assert_eq!(CatalogError::from(error).message(), message);
    }
}

#[test]
fn schema_errors_have_messages() {
    let cases = [
        (
            SchemaError::InvalidIdentifier { kind: "table", identifier: "a \"b\"".to_owned() },
            "invalid table identifier: \"a \\\"b\\\"\"",
        ),
        (SchemaError::NoColumns, "table must contain at least one column"),
        (
            SchemaError::TooManyColumns { count: 1_025, maximum: 1_024 },
            "table has 1025 columns; maximum is 1024",
        ),
        (SchemaError::DuplicateColumn("id".to_owned()), "duplicate column: id"),
        (SchemaError::MissingPrimaryKey, "table must have exactly one primary key"),
        (SchemaError::MultiplePrimaryKeys, "table cannot have more than one primary key"),
        (
            SchemaError::NullablePrimaryKey("id".to_owned()),
            "primary-key column id cannot be nullable",
        ),
        (
            SchemaError::SchemaTooWide { minimum_row_size: 9_000, maximum: 8_152 },
            "schema requires at least 9000 bytes per row; maximum is 8152",
        ),
        (
            SchemaError::CorruptEncoding("unexpected end"),
            "invalid schema encoding: unexpected end",
        ),
    ];
    for (error, message) in cases {
        assert_eq!(error.message(), message);
        assert_eq!(CatalogError::from(error).message(), message);
    }
}

#[test]
fn row_errors_have_messages() {
    let cases = [
        (
            RowError::WrongValueCount { expected: 3, found: 2 },
            "row has 2 values; expected 3".to_owned(),
        ),
        (
            RowError::TypeMismatch {
                column: "score".to_owned(),
                expected: DataType::Float,
                found: "text",
            },
            format!("column score expects {}, found text", DataType::Float.name()),
        ),
        (
            RowError::NullNotAllowed { column: "name".to_owned() },
            "column name does not allow null".to_owned(),
        ),
        (
            RowError::ColumnOutOfBounds { index: 7, column_count: 5 },
            "column index 7 is out of bounds for 5 columns".to_owned(),
        ),
        (
            RowError::RowTooLarge { size: 9_000, maximum: 8_152 },
            "encoded row is 9000 bytes; maximum is 8152".to_owned(),
        ),
        (
            RowError::Corrupt("row is truncated"),
            "corrupt row encoding: row is truncated".to_owned(),
        ),
    ];
    for (error, message) in cases {
        assert_eq!(error.message(), message);
    }
}

#[test]
fn catalog_errors_have_messages() {
    let cases = [
        (
            CatalogError::AlreadyInitialized(PageId::new(1)),
            "database catalog is already initialized at page 1",
        ),
        (CatalogError::NotInitialized, "database catalog is not initialized"),
        (
            CatalogError::DuplicateTableName("users".to_owned()),
            "table already exists: users",
        ),
        (CatalogError::DuplicateTableId(TableId::new(3)), "duplicate table ID: 3"),
        (CatalogError::TableNotFound("users".to_owned()), "table does not exist: users"),
        (CatalogError::TableIdExhausted, "catalog has exhausted table IDs"),
        (
            CatalogError::TableRecordTooLarge { size: 9_000, maximum: 8_152 },
            "encoded table record is 9000 bytes; maximum is 8152",
        ),
        (
            CatalogError::CorruptRecord("invalid table ID"),
            "corrupt catalog record: invalid table ID",
        ),
    ];
    for (error, message) in cases {
        assert_eq!(error.message(), message);
    }
}

#[test]
fn config_errors_have_messages() {
    let cases = [
        (
            ConfigError::Read { path: "north.yaml".to_owned(), source: "gone".to_owned() },
            "failed to read north.yaml: gone",
        ),
        (
            ConfigError::Parse { path: "north.yaml".to_owned(), source: "bad".to_owned() },
            "invalid YAML in north.yaml: bad",
        ),
        (
            ConfigError::UnsupportedVersion { found: 2, supported: 1 },
            "unsupported configuration version 2; North supports version 1",
        ),
        (
            ConfigError::InvalidValue {
                field: "storage.path",
                reason: "must not be empty".to_owned(),
            },
            "invalid storage.path: must not be empty",
        ),
    ];
    for (error, message) in cases {
        assert_eq!(error.message(), message);
    }
}
