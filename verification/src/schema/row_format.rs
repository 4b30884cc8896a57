//! How rows are encoded.
//!
//! A row is a version byte, a bitmap with one bit for each column that is null,
//! the columns at fixed offsets, and then the payload of the text and bytes
//! columns, one after the other without gaps.

use vstd::prelude::*;

use crate::codec;

use super::table::DataType;
use super::table_format::{self, Column, MAX_ROW_SIZE};

verus! {

pub const ROW_FORMAT_VERSION: u8 = 1;

/// A value of a column.
pub enum Cell {
    Null,
    Int(i64),
    /// A float, by its IEEE 754 bit pattern.
    Float(u64),
    Bool(bool),
    Text(Seq<char>),
    Bytes(Seq<u8>),
}

/// Why a row cannot be encoded or decoded.
pub enum RowFault {
    WrongValueCount { expected: usize, found: usize },
    TypeMismatch { column: Seq<char>, expected: DataType, found: &'static str },
    NullNotAllowed { column: Seq<char> },
    ColumnOutOfBounds { index: usize, column_count: usize },
    RowTooLarge { size: usize, maximum: usize },
    Corrupt(&'static str),
}

impl Cell {
    pub open spec fn kind_name(self) -> &'static str {
        match self {
            Cell::Null => "null",
            Cell::Int(_) => "int",
            Cell::Float(_) => "float",
            Cell::Bool(_) => "bool",
            Cell::Text(_) => "text",
            Cell::Bytes(_) => "bytes",
        }
    }

    /// Whether the value is of the type of the column; null is of none.
    pub open spec fn has_type(self, data_type: DataType) -> bool {
        match data_type {
            DataType::Int => self is Int,
            DataType::Float => self is Float,
            DataType::Bool => self is Bool,
            DataType::Text => self is Text,
            DataType::Bytes => self is Bytes,
        }
    }

    /// Bytes that the value takes up behind the fixed part of the row.
    pub open spec fn payload(self) -> Seq<u8> {
        match self {
            Cell::Text(text) => vstd::utf8::encode_utf8(text),
            Cell::Bytes(bytes) => bytes,
            _ => Seq::empty(),
        }
    }
}

/// Whether an IEEE 754 bit pattern stands for no number.
pub open spec fn is_nan(pattern: u64) -> bool {
    pattern % 0x8000_0000_0000_0000 > 0x7ff0_0000_0000_0000
}

/// Whether an IEEE 754 bit pattern stands for zero, of either sign.
pub open spec fn is_zero(pattern: u64) -> bool {
    pattern % 0x8000_0000_0000_0000 == 0
}

/// Whether two floats are equal: zeros are, whatever their sign, and what is no
/// number equals nothing.
pub open spec fn equal_floats(left: u64, right: u64) -> bool {
    &&& !is_nan(left)
    &&& !is_nan(right)
    &&& left == right || (is_zero(left) && is_zero(right))
}

/// Whether two values are equal; floats are by what they stand for.
pub open spec fn equal_cells(left: Cell, right: Cell) -> bool {
    match (left, right) {
        (Cell::Float(left), Cell::Float(right)) => equal_floats(left, right),
        _ => left == right,
    }
}

/// The payload of the first `count` values.
pub open spec fn payload(cells: Seq<Cell>, count: int) -> Seq<u8>
    decreases count,
{
    if count <= 0 {
        Seq::empty()
    } else {
        payload(cells, count - 1) + cells[count - 1].payload()
    }
}

/// Where the payload of value `index` starts in the row.
pub open spec fn payload_offset(columns: Seq<Column>, cells: Seq<Cell>, index: int) -> int {
    table_format::minimum_row_size(columns) + payload(cells, index).len()
}

/// `size`, where it does not exceed the largest `usize`, and that one otherwise.
pub open spec fn saturated(size: int) -> usize {
    if size > usize::MAX {
        usize::MAX
    } else {
        size as usize
    }
}

/// Why a value cannot be stored in a column of a row that is `length` bytes long
/// so far.
pub open spec fn value_fault(column: Column, cell: Cell, length: int) -> Option<RowFault> {
    let size = length + cell.payload().len();
    if cell is Null {
        if column.nullable {
            None
        } else {
            Some(RowFault::NullNotAllowed { column: column.name })
        }
    } else if !cell.has_type(column.data_type) {
        Some(
            RowFault::TypeMismatch {
                column: column.name,
                expected: column.data_type,
                found: cell.kind_name(),
            },
        )
    } else if (cell is Text || cell is Bytes) && size > MAX_ROW_SIZE {
        Some(RowFault::RowTooLarge { size: saturated(size), maximum: MAX_ROW_SIZE })
    } else {
        None
    }
}

/// Why value `index` cannot be stored after the values before it.
pub open spec fn cell_fault(columns: Seq<Column>, cells: Seq<Cell>, index: int) -> Option<
    RowFault,
> {
    value_fault(columns[index], cells[index], payload_offset(columns, cells, index))
}

/// The fault of the first value among the first `count` that cannot be stored.
pub open spec fn cells_fault(columns: Seq<Column>, cells: Seq<Cell>, count: int) -> Option<RowFault>
    decreases count,
{
    if count <= 0 {
        None
    } else {
        match cells_fault(columns, cells, count - 1) {
            Some(fault) => Some(fault),
            None => cell_fault(columns, cells, count - 1),
        }
    }
}

/// Why the values are no row of the table; `None` where they are.
pub open spec fn encode_fault(columns: Seq<Column>, cells: Seq<Cell>) -> Option<RowFault> {
    if cells.len() != columns.len() {
        Some(
            RowFault::WrongValueCount {
                expected: columns.len() as usize,
                found: cells.len() as usize,
            },
        )
    } else {
        cells_fault(columns, cells, columns.len() as int)
    }
}

pub open spec fn zeros(count: int) -> Seq<u8> {
    Seq::new(count as nat, |i: int| 0u8)
}

/// The bit of column `index` within its byte of the null bitmap.
pub open spec fn null_bit(index: int) -> u8 {
    1u8 << ((index % 8) as u8)
}

/// The null bitmap of the first `count` values, in `size` bytes.
pub open spec fn null_bitmap(cells: Seq<Cell>, count: int, size: int) -> Seq<u8>
    decreases count,
{
    if count <= 0 {
        zeros(size)
    } else {
        let bitmap = null_bitmap(cells, count - 1, size);
        let index = count - 1;
        if cells[index] is Null {
            bitmap.update(index / 8, bitmap[index / 8] | null_bit(index))
        } else {
            bitmap
        }
    }
}

/// The fixed part of a value whose payload starts at `offset`: the value itself,
/// or the place and length of its payload; zeros for a null.
pub open spec fn value_bytes(data_type: DataType, cell: Cell, offset: int) -> Seq<u8> {
    match cell {
        Cell::Null => zeros(table_format::width(data_type)),
        Cell::Int(value) => codec::i64_bytes(value),
        Cell::Float(pattern) => codec::u64_bytes(pattern),
        Cell::Bool(value) => seq![
            if value {
                1u8
            } else {
                0u8
            },
        ],
        Cell::Text(_) | Cell::Bytes(_) => codec::u32_bytes(offset as u32) + codec::u32_bytes(
            cell.payload().len() as u32,
        ),
    }
}

/// The fixed part of column `index`.
pub open spec fn field_bytes(columns: Seq<Column>, cells: Seq<Cell>, index: int) -> Seq<u8> {
    value_bytes(columns[index].data_type, cells[index], payload_offset(columns, cells, index))
}

/// The fixed parts of the first `count` columns.
pub open spec fn fixed_bytes(columns: Seq<Column>, cells: Seq<Cell>, count: int) -> Seq<u8>
    decreases count,
{
    if count <= 0 {
        Seq::empty()
    } else {
        fixed_bytes(columns, cells, count - 1) + field_bytes(columns, cells, count - 1)
    }
}

/// The stored form of a row.
pub open spec fn encoded_row(columns: Seq<Column>, cells: Seq<Cell>) -> Seq<u8> {
    let count = columns.len() as int;
    seq![ROW_FORMAT_VERSION] + null_bitmap(cells, count, table_format::bitmap_size(count))
        + fixed_bytes(columns, cells, count) + payload(cells, count)
}

/// Whether the null bitmap of `row` marks column `index`.
pub open spec fn is_null(row: Seq<u8>, index: int) -> bool {
    row[1 + index / 8] & null_bit(index) != 0
}

/// Checks column `index`, whose fixed part starts at `start` and whose payload,
/// if it has one, must start at `expected`. Gives the end of its payload.
pub open spec fn check_field(
    column: Column,
    row: Seq<u8>,
    index: int,
    start: int,
    expected: int,
) -> Result<int, &'static str> {
    let end = start + table_format::width(column.data_type);
    if is_null(row, index) {
        if !column.nullable {
            Err("required column is encoded as null")
        } else if exists|k: int| start <= k < end && #[trigger] row[k] != 0 {
            Err("null column has nonzero fixed bytes")
        } else {
            Ok(expected)
        }
    } else if column.data_type == DataType::Bool && row[start] > 1 {
        Err("boolean column is not zero or one")
    } else if column.data_type == DataType::Text || column.data_type == DataType::Bytes {
        let offset = codec::u32_at(row, start) as int;
        let length = codec::u32_at(row, start + 4) as int;
        if offset != expected {
            Err("variable column payload is not canonical")
        } else if offset + length > row.len() {
            Err("variable column exceeds row boundary")
        } else if column.data_type == DataType::Text && !vstd::utf8::valid_utf8(
            row.subrange(offset, offset + length),
        ) {
            Err("text column is not UTF-8")
        } else {
            Ok(offset + length)
        }
    } else {
        Ok(expected)
    }
}

/// Checks column `index`, whose payload, if it has one, must start at
/// `expected`. Gives the end of its payload.
pub open spec fn check_column(
    columns: Seq<Column>,
    row: Seq<u8>,
    index: int,
    expected: int,
) -> Result<int, &'static str> {
    check_field(
        columns[index],
        row,
        index,
        table_format::column_offset(columns, index),
        expected,
    )
}

/// Checks the first `count` columns and gives the end of their payload.
pub open spec fn check_columns(columns: Seq<Column>, row: Seq<u8>, count: int) -> Result<
    int,
    &'static str,
>
    decreases count,
{
    if count <= 0 {
        Ok(table_format::minimum_row_size(columns))
    } else {
        match check_columns(columns, row, count - 1) {
            Err(reason) => Err(reason),
            Ok(expected) => check_column(columns, row, count - 1, expected),
        }
    }
}

/// What keeps `row` from being a row of the table; `None` where it is one.
pub open spec fn row_fault(columns: Seq<Column>, row: Seq<u8>) -> Option<&'static str> {
    if row.len() < table_format::minimum_row_size(columns) {
        Some("row is shorter than its fixed layout")
    } else if row.len() > MAX_ROW_SIZE {
        Some("row exceeds maximum page payload")
    } else if row[0] != ROW_FORMAT_VERSION {
        Some("unsupported row format version")
    } else {
        match check_columns(columns, row, columns.len() as int) {
            Err(reason) => Some(reason),
            Ok(end) => if end != row.len() {
                Some("row has trailing or unreferenced payload")
            } else {
                None
            },
        }
    }
}

/// The payload that the fixed part of a column at `start` refers to.
pub open spec fn referenced_payload(row: Seq<u8>, start: int) -> Seq<u8> {
    let offset = codec::u32_at(row, start) as int;
    row.subrange(offset, offset + codec::u32_at(row, start + 4))
}

/// The value of column `index` in `row`.
pub open spec fn cell_at(columns: Seq<Column>, row: Seq<u8>, index: int) -> Cell {
    let start = table_format::column_offset(columns, index);
    if is_null(row, index) {
        Cell::Null
    } else {
        match columns[index].data_type {
            DataType::Int => Cell::Int(codec::i64_at(row, start)),
            DataType::Float => Cell::Float(codec::u64_at(row, start)),
            DataType::Bool => Cell::Bool(row[start] == 1),
            DataType::Text => Cell::Text(vstd::utf8::decode_utf8(referenced_payload(row, start))),
            DataType::Bytes => Cell::Bytes(referenced_payload(row, start)),
        }
    }
}

/// The values of `row`.
pub open spec fn cells_of(columns: Seq<Column>, row: Seq<u8>) -> Seq<Cell> {
    Seq::new(columns.len(), |i: int| cell_at(columns, row, i))
}

/// The first of the first `count` listed columns that the table does not have.
pub open spec fn out_of_bounds(columns: Seq<Column>, listed: Seq<usize>, count: int) -> Option<
    RowFault,
>
    decreases count,
{
    if count <= 0 {
        None
    } else {
        match out_of_bounds(columns, listed, count - 1) {
            Some(fault) => Some(fault),
            None => if listed[count - 1] >= columns.len() {
                Some(
                    RowFault::ColumnOutOfBounds {
                        index: listed[count - 1],
                        column_count: columns.len() as usize,
                    },
                )
            } else {
                None
            },
        }
    }
}

/// Why the listed columns of `row` cannot be read; `None` where they can.
pub open spec fn project_fault(columns: Seq<Column>, row: Seq<u8>, listed: Seq<usize>) -> Option<
    RowFault,
> {
    match out_of_bounds(columns, listed, listed.len() as int) {
        Some(fault) => Some(fault),
        None => match row_fault(columns, row) {
            Some(fault) => Some(RowFault::Corrupt(fault)),
            None => None,
        },
    }
}

/// The values of the listed columns, in that order.
pub open spec fn projected_cells(columns: Seq<Column>, row: Seq<u8>, listed: Seq<usize>) -> Seq<
    Cell,
> {
    Seq::new(listed.len(), |i: int| cell_at(columns, row, listed[i] as int))
}

/// The derived layout of a table's rows.
#[verifier::ext_equal]
pub struct Layout {
    pub bitmap_size: int,
    pub offsets: Seq<int>,
    pub widths: Seq<int>,
    pub minimum_row_size: int,
}

/// The layout that follows from the columns.
pub open spec fn layout_of(columns: Seq<Column>) -> Layout {
    Layout {
        bitmap_size: table_format::bitmap_size(columns.len() as int),
        offsets: Seq::new(columns.len(), |i: int| table_format::column_offset(columns, i)),
        widths: Seq::new(columns.len(), |i: int| table_format::width(columns[i].data_type)),
        minimum_row_size: table_format::minimum_row_size(columns),
    }
}

} // verus!
