//! What table schemas are, when they are valid, and how they are encoded.

use vstd::prelude::*;

use crate::codec;
use crate::heap::SLOT_ENTRY_SIZE;
use crate::storage::{PAGE_HEADER_SIZE, PAGE_SIZE};

use super::table::DataType;

verus! {

pub const SCHEMA_MAGIC: [u8; 4] = [78, 83, 67, 72];

pub const SCHEMA_FORMAT_VERSION: u16 = 1;

pub const MAX_COLUMNS: usize = 1024;

pub const MAX_IDENTIFIER_BYTES: usize = 255;

pub const FLAG_NULLABLE: u8 = 1;

pub const FLAG_PRIMARY_KEY: u8 = 2;

/// The largest row that fits into a heap page of its own.
pub const MAX_ROW_SIZE: usize = PAGE_SIZE - PAGE_HEADER_SIZE - SLOT_ENTRY_SIZE;

/// Bytes of the entry that refers to the payload of a text or bytes column.
pub const VARIABLE_DESCRIPTOR_SIZE: usize = 8;

/// A column declaration.
#[verifier::ext_equal]
pub struct Column {
    pub name: Seq<char>,
    pub data_type: DataType,
    pub nullable: bool,
    pub primary_key: bool,
}

/// A table declaration.
#[verifier::ext_equal]
pub struct Table {
    pub name: Seq<char>,
    pub columns: Seq<Column>,
}

/// Why a table cannot be declared or decoded.
pub enum SchemaFault {
    InvalidIdentifier { kind: &'static str, identifier: Seq<char> },
    NoColumns,
    TooManyColumns { count: usize, maximum: usize },
    DuplicateColumn(Seq<char>),
    MissingPrimaryKey,
    MultiplePrimaryKeys,
    NullablePrimaryKey(Seq<char>),
    SchemaTooWide { minimum_row_size: usize, maximum: usize },
    CorruptEncoding(&'static str),
}

pub open spec fn is_letter(c: char) -> bool {
    'a' <= c <= 'z' || 'A' <= c <= 'Z'
}

pub open spec fn is_digit(c: char) -> bool {
    '0' <= c <= '9'
}

/// An identifier is a letter or underscore, followed by letters, digits and
/// underscores, at most `MAX_IDENTIFIER_BYTES` in all.
pub open spec fn is_identifier(text: Seq<char>) -> bool {
    &&& 1 <= text.len() <= MAX_IDENTIFIER_BYTES
    &&& text[0] == '_' || is_letter(text[0])
    &&& forall|i: int|
        1 <= i < text.len() ==> {
            ||| #[trigger] text[i] == '_'
            ||| is_letter(text[i])
            ||| is_digit(text[i])
        }
}

/// Bytes of the fixed part of a row that a column takes up.
pub open spec fn width(data_type: DataType) -> int {
    match data_type {
        DataType::Int | DataType::Float => 8,
        DataType::Bool => 1,
        DataType::Text | DataType::Bytes => VARIABLE_DESCRIPTOR_SIZE as int,
    }
}

/// Bytes of the null bitmap of a row with `count` columns, one bit each.
pub open spec fn bitmap_size(count: int) -> int {
    (count + 7) / 8
}

/// Where column `index` starts in a row: after the version byte, the null
/// bitmap and the columns before it.
pub open spec fn column_offset(columns: Seq<Column>, index: int) -> int
    decreases index,
{
    if index <= 0 {
        1 + bitmap_size(columns.len() as int)
    } else {
        column_offset(columns, index - 1) + width(columns[index - 1].data_type)
    }
}

/// Bytes of a row without payload.
pub open spec fn minimum_row_size(columns: Seq<Column>) -> int {
    column_offset(columns, columns.len() as int)
}

/// Whether a column before `index` has the name of that column.
pub open spec fn is_duplicate(columns: Seq<Column>, index: int) -> bool {
    exists|j: int| 0 <= j < index && (#[trigger] columns[j]).name == columns[index].name
}

/// Whether a column before `index` is a primary key.
pub open spec fn has_primary_key(columns: Seq<Column>, index: int) -> bool {
    exists|j: int| 0 <= j < index && (#[trigger] columns[j]).primary_key
}

/// What is wrong with column `index`, given the columns before it.
pub open spec fn column_fault(columns: Seq<Column>, index: int) -> Option<SchemaFault> {
    let column = columns[index];
    if !is_identifier(column.name) {
        Some(SchemaFault::InvalidIdentifier { kind: "column", identifier: column.name })
    } else if is_duplicate(columns, index) {
        Some(SchemaFault::DuplicateColumn(column.name))
    } else if column.primary_key && has_primary_key(columns, index) {
        Some(SchemaFault::MultiplePrimaryKeys)
    } else if column.primary_key && column.nullable {
        Some(SchemaFault::NullablePrimaryKey(column.name))
    } else {
        None
    }
}

/// The fault of the first faulty column among the first `count`.
pub open spec fn columns_fault(columns: Seq<Column>, count: int) -> Option<SchemaFault>
    decreases count,
{
    if count <= 0 {
        None
    } else {
        match columns_fault(columns, count - 1) {
            Some(fault) => Some(fault),
            None => column_fault(columns, count - 1),
        }
    }
}

impl Table {
    /// What keeps the table from being declared; `None` for a valid one.
    pub open spec fn fault(self) -> Option<SchemaFault> {
        let count = self.columns.len() as int;
        if !is_identifier(self.name) {
            Some(SchemaFault::InvalidIdentifier { kind: "table", identifier: self.name })
        } else if count == 0 {
            Some(SchemaFault::NoColumns)
        } else if count > MAX_COLUMNS {
            Some(SchemaFault::TooManyColumns { count: count as usize, maximum: MAX_COLUMNS })
        } else if columns_fault(self.columns, count) is Some {
            columns_fault(self.columns, count)
        } else if !has_primary_key(self.columns, count) {
            Some(SchemaFault::MissingPrimaryKey)
        } else if minimum_row_size(self.columns) > MAX_ROW_SIZE {
            Some(
                SchemaFault::SchemaTooWide {
                    minimum_row_size: minimum_row_size(self.columns) as usize,
                    maximum: MAX_ROW_SIZE,
                },
            )
        } else {
            None
        }
    }

    pub open spec fn valid(self) -> bool {
        self.fault() is None
    }
}

pub open spec fn type_tag(data_type: DataType) -> u8 {
    match data_type {
        DataType::Int => 1,
        DataType::Float => 2,
        DataType::Bool => 3,
        DataType::Text => 4,
        DataType::Bytes => 5,
    }
}

pub open spec fn type_of_tag(tag: u8) -> Option<DataType> {
    if tag == 1 {
        Some(DataType::Int)
    } else if tag == 2 {
        Some(DataType::Float)
    } else if tag == 3 {
        Some(DataType::Bool)
    } else if tag == 4 {
        Some(DataType::Text)
    } else if tag == 5 {
        Some(DataType::Bytes)
    } else {
        None
    }
}

pub open spec fn column_flags(column: Column) -> u8 {
    ((if column.nullable {
        FLAG_NULLABLE as int
    } else {
        0
    }) + (if column.primary_key {
        FLAG_PRIMARY_KEY as int
    } else {
        0
    })) as u8
}

/// A string in UTF-8, after its length in bytes.
pub open spec fn string_bytes(text: Seq<char>) -> Seq<u8> {
    let encoded = vstd::utf8::encode_utf8(text);
    codec::u16_bytes(encoded.len() as u16) + encoded
}

pub open spec fn column_bytes(column: Column) -> Seq<u8> {
    string_bytes(column.name) + seq![type_tag(column.data_type), column_flags(column)]
}

pub open spec fn columns_bytes(columns: Seq<Column>) -> Seq<u8>
    decreases columns.len(),
{
    if columns.len() == 0 {
        Seq::empty()
    } else {
        columns_bytes(columns.drop_last()) + column_bytes(columns.last())
    }
}

impl Table {
    /// The stored form: magic, version, number of columns, name, columns.
    pub open spec fn encoded(self) -> Seq<u8> {
        SCHEMA_MAGIC@ + codec::u16_bytes(SCHEMA_FORMAT_VERSION) + codec::u16_bytes(
            self.columns.len() as u16,
        ) + string_bytes(self.name) + columns_bytes(self.columns)
    }
}

/// A string at `position`, and where it ends.
pub open spec fn parse_string(bytes: Seq<u8>, position: int) -> Result<
    (Seq<char>, int),
    &'static str,
> {
    if position + 2 > bytes.len() {
        Err("truncated schema encoding")
    } else {
        let length = codec::u16_at(bytes, position) as int;
        let start = position + 2;
        if start + length > bytes.len() {
            Err("truncated schema encoding")
        } else if !vstd::utf8::valid_utf8(bytes.subrange(start, start + length)) {
            Err("schema identifier is not UTF-8")
        } else {
            Ok((vstd::utf8::decode_utf8(bytes.subrange(start, start + length)), start + length))
        }
    }
}

/// A column at `position`, and where it ends.
pub open spec fn parse_column(bytes: Seq<u8>, position: int) -> Result<
    (Column, int),
    &'static str,
> {
    match parse_string(bytes, position) {
        Err(reason) => Err(reason),
        Ok((name, end)) => {
            if end + 1 > bytes.len() {
                Err("truncated schema encoding")
            } else if type_of_tag(bytes[end]) is None {
                Err("unknown column type tag")
            } else if end + 2 > bytes.len() {
                Err("truncated schema encoding")
            } else if bytes[end + 1] > FLAG_NULLABLE + FLAG_PRIMARY_KEY {
                Err("unknown column flags")
            } else {
                Ok(
                    (
                        Column {
                            name,
                            data_type: type_of_tag(bytes[end])->0,
                            nullable: bytes[end + 1] % 2 == 1,
                            primary_key: bytes[end + 1] >= 2,
                        },
                        end + 2,
                    ),
                )
            }
        },
    }
}

/// `count` columns from `position` on, and where they end.
pub open spec fn parse_columns(bytes: Seq<u8>, position: int, count: int) -> Result<
    (Seq<Column>, int),
    &'static str,
>
    decreases count,
{
    if count <= 0 {
        Ok((Seq::empty(), position))
    } else {
        match parse_columns(bytes, position, count - 1) {
            Err(reason) => Err(reason),
            Ok((columns, end)) => match parse_column(bytes, end) {
                Err(reason) => Err(reason),
                Ok((column, next)) => Ok((columns.push(column), next)),
            },
        }
    }
}

/// The table declaration that `bytes` encode, valid or not.
pub open spec fn parse_table(bytes: Seq<u8>) -> Result<Table, &'static str> {
    if bytes.len() < 4 {
        Err("truncated schema encoding")
    } else if bytes.subrange(0, 4) != SCHEMA_MAGIC@ {
        Err("invalid schema magic")
    } else if bytes.len() < 6 {
        Err("truncated schema encoding")
    } else if codec::u16_at(bytes, 4) != SCHEMA_FORMAT_VERSION {
        Err("unsupported schema format version")
    } else if bytes.len() < 8 {
        Err("truncated schema encoding")
    } else {
        let count = codec::u16_at(bytes, 6) as int;
        if count == 0 || count > MAX_COLUMNS {
            Err("invalid schema column count")
        } else {
            match parse_string(bytes, 8) {
                Err(reason) => Err(reason),
                Ok((name, end)) => match parse_columns(bytes, end, count) {
                    Err(reason) => Err(reason),
                    Ok((columns, next)) => if next != bytes.len() {
                        Err("trailing bytes after schema declaration")
                    } else {
                        Ok(Table { name, columns })
                    },
                },
            }
        }
    }
}

/// The valid table that `bytes` encode, or why there is none.
pub open spec fn decode_table(bytes: Seq<u8>) -> Result<Table, SchemaFault> {
    match parse_table(bytes) {
        Err(reason) => Err(SchemaFault::CorruptEncoding(reason)),
        Ok(table) => match table.fault() {
            Some(fault) => Err(fault),
            None => Ok(table),
        },
    }
}

} // verus!
