//! How the catalog records tables.

use vstd::prelude::*;

use crate::codec;
use crate::heap::HeapFileError;
use crate::schema::table_format::{self, SchemaFault, Table};
use crate::schema::table_laws;
use crate::storage::{BufferPoolError, PageId};

use super::TableId;

verus! {

/// `NTBL`.
pub const TABLE_RECORD_MAGIC: [u8; 4] = [78, 84, 66, 76];

pub const TABLE_RECORD_VERSION: u16 = 1;

pub const TABLE_RECORD_HEADER_SIZE: usize = 20;

pub const FIRST_TABLE_ID: u32 = 1;

/// What the catalog knows of a table.
pub struct TableEntry {
    pub id: TableId,
    pub heap_root: PageId,
    pub table: Table,
}

/// Why an operation on the catalog failed.
pub enum CatalogFault {
    Buffer(BufferPoolError),
    Heap(HeapFileError),
    Schema(SchemaFault),
    AlreadyInitialized(PageId),
    NotInitialized,
    DuplicateTableName(Seq<char>),
    DuplicateTableId(TableId),
    TableNotFound(Seq<char>),
    TableIdExhausted,
    TableRecordTooLarge { size: usize, maximum: usize },
    CorruptRecord(&'static str),
}

impl TableEntry {
    pub open spec fn valid(self) -> bool {
        &&& self.id.0 >= FIRST_TABLE_ID
        &&& self.heap_root.0 != 0
        &&& self.table.valid()
    }

    /// The record: magic, version, no flags, id, first page of the heap, length of
    /// the schema, schema.
    pub open spec fn encoded(self) -> Seq<u8> {
        let schema = self.table.encoded();
        TABLE_RECORD_MAGIC@ + codec::u16_bytes(TABLE_RECORD_VERSION) + codec::u16_bytes(0)
            + codec::u32_bytes(self.id.0) + codec::u32_bytes(self.heap_root.0) + codec::u32_bytes(
            schema.len() as u32,
        ) + schema
    }
}

/// The table that a record describes.
pub open spec fn decode_record(bytes: Seq<u8>) -> Result<TableEntry, CatalogFault> {
    let id = codec::u32_at(bytes, 8);
    let heap_root = codec::u32_at(bytes, 12);
    let length = TABLE_RECORD_HEADER_SIZE + codec::u32_at(bytes, 16);
    if bytes.len() < TABLE_RECORD_HEADER_SIZE {
        Err(CatalogFault::CorruptRecord("table record is truncated"))
    } else if bytes.subrange(0, 4) != TABLE_RECORD_MAGIC@ {
        Err(CatalogFault::CorruptRecord("invalid table record magic"))
    } else if codec::u16_at(bytes, 4) != TABLE_RECORD_VERSION {
        Err(CatalogFault::CorruptRecord("unsupported table record version"))
    } else if codec::u16_at(bytes, 6) != 0 {
        Err(CatalogFault::CorruptRecord("table record reserved flags are not zero"))
    } else if id < FIRST_TABLE_ID {
        Err(CatalogFault::CorruptRecord("invalid table ID"))
    } else if heap_root == 0 {
        Err(CatalogFault::CorruptRecord("invalid table heap root"))
    } else if length > usize::MAX {
        Err(CatalogFault::CorruptRecord("table record length overflow"))
    } else if length != bytes.len() {
        Err(CatalogFault::CorruptRecord("table record schema length does not match record"))
    } else {
        match table_format::decode_table(
            bytes.subrange(TABLE_RECORD_HEADER_SIZE as int, bytes.len() as int),
        ) {
            Err(fault) => Err(CatalogFault::Schema(fault)),
            Ok(table) => Ok(
                TableEntry { id: TableId(id), heap_root: PageId(heap_root), table },
            ),
        }
    }
}

/// A table is decoded from its record unchanged.
pub proof fn encoded_records_decode(entry: TableEntry)
    requires
        entry.valid(),
    ensures
        decode_record(entry.encoded()) == Ok::<TableEntry, CatalogFault>(entry),
{
    table_laws::encoded_tables_are_bounded(entry.table);
    table_laws::encoded_tables_decode(entry.table);
    lemma_record_fields(entry.encoded(), entry.id.0, entry.heap_root.0, entry.table.encoded());
}

/// A record is as long as its header and its schema.
pub proof fn lemma_record_length(entry: TableEntry)
    ensures
        entry.encoded().len() == TABLE_RECORD_HEADER_SIZE + entry.table.encoded().len(),
{
}

/// The fields of a record lie one after the other.
pub proof fn lemma_record_fields(bytes: Seq<u8>, id: u32, heap_root: u32, schema: Seq<u8>)
    requires
        schema.len() <= u32::MAX,
        bytes == TABLE_RECORD_MAGIC@ + codec::u16_bytes(TABLE_RECORD_VERSION) + codec::u16_bytes(0)
            + codec::u32_bytes(id) + codec::u32_bytes(heap_root) + codec::u32_bytes(
            schema.len() as u32,
        ) + schema,
    ensures
        bytes.len() == TABLE_RECORD_HEADER_SIZE + schema.len(),
        bytes.subrange(0, 4) == TABLE_RECORD_MAGIC@,
        codec::u16_at(bytes, 4) == TABLE_RECORD_VERSION,
        codec::u16_at(bytes, 6) == 0,
        codec::u32_at(bytes, 8) == id,
        codec::u32_at(bytes, 12) == heap_root,
        codec::u32_at(bytes, 16) == schema.len(),
        bytes.subrange(TABLE_RECORD_HEADER_SIZE as int, bytes.len() as int) == schema,
{
    codec::lemma_u16_round_trip(TABLE_RECORD_VERSION);
    codec::lemma_u16_round_trip(0);
    codec::lemma_u32_round_trip(id);
    codec::lemma_u32_round_trip(heap_root);
    codec::lemma_u32_round_trip(schema.len() as u32);
    assert(bytes.subrange(0, 4) =~= TABLE_RECORD_MAGIC@);
    assert(bytes.subrange(4, 6) =~= codec::u16_bytes(TABLE_RECORD_VERSION));
    assert(bytes.subrange(6, 8) =~= codec::u16_bytes(0));
    assert(bytes.subrange(8, 12) =~= codec::u32_bytes(id));
    assert(bytes.subrange(12, 16) =~= codec::u32_bytes(heap_root));
    assert(bytes.subrange(16, 20) =~= codec::u32_bytes(schema.len() as u32));
    assert(bytes.subrange(20, bytes.len() as int) =~= schema);
    assert(codec::u16_at(bytes, 4) == codec::u16_at(bytes.subrange(4, 6), 0));
    assert(codec::u16_at(bytes, 6) == codec::u16_at(bytes.subrange(6, 8), 0));
    codec::lemma_u32_at_subrange(bytes, 8);
    codec::lemma_u32_at_subrange(bytes, 12);
    codec::lemma_u32_at_subrange(bytes, 16);
}

/// A record that decodes is the record of the table that it describes.
pub proof fn decoded_records_encode(bytes: Seq<u8>)
    requires
        decode_record(bytes) is Ok,
    ensures
        decode_record(bytes)->Ok_0.valid(),
        decode_record(bytes)->Ok_0.encoded() == bytes,
{
    let entry = decode_record(bytes)->Ok_0;
    let schema = bytes.subrange(20, bytes.len() as int);
    table_laws::decoded_tables_encode(schema);
    codec::lemma_u16_bytes_of_read(bytes.subrange(4, 6));
    codec::lemma_u16_bytes_of_read(bytes.subrange(6, 8));
    codec::lemma_u32_bytes_of_read(bytes.subrange(8, 12));
    codec::lemma_u32_bytes_of_read(bytes.subrange(12, 16));
    codec::lemma_u32_bytes_of_read(bytes.subrange(16, 20));
    assert(codec::u16_at(bytes, 4) == codec::u16_at(bytes.subrange(4, 6), 0));
    assert(codec::u16_at(bytes, 6) == codec::u16_at(bytes.subrange(6, 8), 0));
    codec::lemma_u32_at_subrange(bytes, 8);
    codec::lemma_u32_at_subrange(bytes, 12);
    codec::lemma_u32_at_subrange(bytes, 16);
    assert(bytes =~= bytes.subrange(0, 4) + bytes.subrange(4, 6) + bytes.subrange(6, 8)
        + bytes.subrange(8, 12) + bytes.subrange(12, 16) + bytes.subrange(16, 20) + schema);
    assert(entry.encoded() =~= bytes);
}

} // verus!
