//! Facts about encoded rows that the row operations rest on.

use vstd::prelude::*;

use crate::codec;

use super::row_format::{self, Cell, ROW_FORMAT_VERSION};
use super::table_format::{self, Column};

verus! {

/// Columns lie one after the other.
pub proof fn lemma_offsets_grow(columns: Seq<Column>, shorter: int, longer: int)
    requires
        0 <= shorter <= longer <= columns.len(),
    ensures
        1 + table_format::bitmap_size(columns.len() as int) <= table_format::column_offset(
            columns,
            shorter,
        ) <= table_format::column_offset(columns, longer),
    decreases longer,
{
    if shorter < longer {
        lemma_offsets_grow(columns, shorter, longer - 1);
    } else if longer > 0 {
        lemma_offsets_grow(columns, shorter - 1, longer - 1);
    }
}

/// A column ends before the next one starts.
pub proof fn lemma_column_ends(columns: Seq<Column>, index: int, other: int)
    requires
        0 <= index < other <= columns.len(),
    ensures
        table_format::column_offset(columns, index) + table_format::width(columns[index].data_type)
            <= table_format::column_offset(columns, other),
{
    lemma_offsets_grow(columns, index + 1, other);
}

pub proof fn lemma_bitmap_length(cells: Seq<Cell>, count: int, size: int)
    requires
        0 <= count <= 8 * size,
    ensures
        row_format::null_bitmap(cells, count, size).len() == size,
    decreases count,
{
    if count > 0 {
        lemma_bitmap_length(cells, count - 1, size);
    }
}

/// Values that can be stored fill the fixed part of their columns.
pub proof fn lemma_fixed_length(columns: Seq<Column>, cells: Seq<Cell>, count: int)
    requires
        0 <= count <= columns.len(),
        row_format::cells_fault(columns, cells, count) is None,
    ensures
        row_format::fixed_bytes(columns, cells, count).len() == table_format::column_offset(
            columns,
            count,
        ) - 1 - table_format::bitmap_size(columns.len() as int),
        forall|i: int|
            0 <= i < count ==> (#[trigger] row_format::field_bytes(columns, cells, i)).len()
                == table_format::width(columns[i].data_type),
        forall|i: int| 0 <= i < count ==> #[trigger] row_format::cell_fault(columns, cells, i) is None,
    decreases count,
{
    if count > 0 {
        lemma_fixed_length(columns, cells, count - 1);
        let cell = cells[count - 1];
        match cell {
            Cell::Int(value) => codec::lemma_i64_round_trip(value),
            Cell::Float(pattern) => codec::lemma_u64_round_trip(pattern),
            _ => {},
        }
    }
}

/// A row in which only the first `count` values are filled in yet.
pub open spec fn partial_row(columns: Seq<Column>, cells: Seq<Cell>, count: int) -> Seq<u8> {
    seq![ROW_FORMAT_VERSION] + row_format::null_bitmap(
        cells,
        count,
        table_format::bitmap_size(columns.len() as int),
    ) + row_format::fixed_bytes(columns, cells, count) + row_format::zeros(
        table_format::minimum_row_size(columns) - table_format::column_offset(columns, count),
    ) + row_format::payload(cells, count)
}

pub proof fn lemma_partial_length(columns: Seq<Column>, cells: Seq<Cell>, count: int)
    requires
        0 <= count <= columns.len(),
        row_format::cells_fault(columns, cells, count) is None,
    ensures
        partial_row(columns, cells, count).len() == row_format::payload_offset(
            columns,
            cells,
            count,
        ),
{
    lemma_bitmap_length(cells, count, table_format::bitmap_size(columns.len() as int));
    lemma_fixed_length(columns, cells, count);
    lemma_offsets_grow(columns, count, columns.len() as int);
}

/// Before any value is filled in, a row is its version byte and zeros.
pub proof fn lemma_empty_row(columns: Seq<Column>, cells: Seq<Cell>)
    ensures
        partial_row(columns, cells, 0) == row_format::zeros(
            table_format::minimum_row_size(columns),
        ).update(0, ROW_FORMAT_VERSION),
{
    lemma_offsets_grow(columns, 0, columns.len() as int);
    assert(partial_row(columns, cells, 0) =~= row_format::zeros(
        table_format::minimum_row_size(columns),
    ).update(0, ROW_FORMAT_VERSION));
}

/// Filling in a null sets its bit.
pub proof fn lemma_null_step(columns: Seq<Column>, cells: Seq<Cell>, index: int)
    requires
        0 <= index < columns.len(),
        row_format::cells_fault(columns, cells, index + 1) is None,
        cells[index] is Null,
    ensures
        1 + index / 8 < partial_row(columns, cells, index).len(),
        partial_row(columns, cells, index + 1) == partial_row(columns, cells, index).update(
            1 + index / 8,
            partial_row(columns, cells, index)[1 + index / 8] | row_format::null_bit(index),
        ),
{
    let size = table_format::bitmap_size(columns.len() as int);
    lemma_bitmap_length(cells, index, size);
    lemma_bitmap_length(cells, index + 1, size);
    lemma_fixed_length(columns, cells, index);
    lemma_fixed_length(columns, cells, index + 1);
    lemma_offsets_grow(columns, index + 1, columns.len() as int);
    lemma_partial_length(columns, cells, index);
    let before = partial_row(columns, cells, index);
    assert(before[1 + index / 8] == row_format::null_bitmap(cells, index, size)[index / 8]);
    assert(row_format::payload(cells, index + 1) =~= row_format::payload(cells, index));
    assert(partial_row(columns, cells, index + 1) =~= before.update(
        1 + index / 8,
        before[1 + index / 8] | row_format::null_bit(index),
    ));
}

/// Filling in a value stores its fixed part and appends its payload.
pub proof fn lemma_value_step(columns: Seq<Column>, cells: Seq<Cell>, index: int)
    requires
        0 <= index < columns.len(),
        row_format::cells_fault(columns, cells, index + 1) is None,
        !(cells[index] is Null),
    ensures
        partial_row(columns, cells, index + 1) == codec::splice(
            partial_row(columns, cells, index),
            table_format::column_offset(columns, index),
            row_format::field_bytes(columns, cells, index),
        ) + cells[index].payload(),
{
    let size = table_format::bitmap_size(columns.len() as int);
    lemma_bitmap_length(cells, index, size);
    lemma_fixed_length(columns, cells, index);
    lemma_fixed_length(columns, cells, index + 1);
    lemma_offsets_grow(columns, index + 1, columns.len() as int);
    lemma_partial_length(columns, cells, index);
    assert(partial_row(columns, cells, index + 1) =~= codec::splice(
        partial_row(columns, cells, index),
        table_format::column_offset(columns, index),
        row_format::field_bytes(columns, cells, index),
    ) + cells[index].payload());
}

/// With every value filled in, the row is complete.
pub proof fn lemma_complete_row(columns: Seq<Column>, cells: Seq<Cell>)
    ensures
        partial_row(columns, cells, columns.len() as int) == row_format::encoded_row(
            columns,
            cells,
        ),
{
    assert(partial_row(columns, cells, columns.len() as int) =~= row_format::encoded_row(
        columns,
        cells,
    ));
}

/// A fault among the first values is the fault of the row.
pub proof fn lemma_cells_fault_stays(
    columns: Seq<Column>,
    cells: Seq<Cell>,
    shorter: int,
    longer: int,
)
    requires
        shorter <= longer,
        row_format::cells_fault(columns, cells, shorter) is Some,
    ensures
        row_format::cells_fault(columns, cells, longer) == row_format::cells_fault(
            columns,
            cells,
            shorter,
        ),
    decreases longer,
{
    if shorter < longer {
        lemma_cells_fault_stays(columns, cells, shorter, longer - 1);
    }
}

/// A listed column that the table does not have stays the first such one.
pub proof fn lemma_out_of_bounds_stays(
    columns: Seq<Column>,
    listed: Seq<usize>,
    shorter: int,
    longer: int,
)
    requires
        shorter <= longer,
        row_format::out_of_bounds(columns, listed, shorter) is Some,
    ensures
        row_format::out_of_bounds(columns, listed, longer) == row_format::out_of_bounds(
            columns,
            listed,
            shorter,
        ),
    decreases longer,
{
    if shorter < longer {
        lemma_out_of_bounds_stays(columns, listed, shorter, longer - 1);
    }
}

/// Where no listed column is out of bounds, each is within them.
pub proof fn lemma_in_bounds(columns: Seq<Column>, listed: Seq<usize>, count: int)
    requires
        row_format::out_of_bounds(columns, listed, count) is None,
    ensures
        forall|j: int| 0 <= j < count ==> #[trigger] listed[j] < columns.len(),
    decreases count,
{
    if count > 0 {
        lemma_in_bounds(columns, listed, count - 1);
    }
}

/// Where each listed column is within bounds, none is out of them.
pub proof fn lemma_all_in_bounds(columns: Seq<Column>, listed: Seq<usize>, count: int)
    requires
        0 <= count <= listed.len(),
        forall|j: int| 0 <= j < count ==> #[trigger] listed[j] < columns.len(),
    ensures
        row_format::out_of_bounds(columns, listed, count) is None,
    decreases count,
{
    if count > 0 {
        lemma_all_in_bounds(columns, listed, count - 1);
    }
}

/// A column that fails its check makes the row fail.
pub proof fn lemma_check_stays(columns: Seq<Column>, row: Seq<u8>, shorter: int, longer: int)
    requires
        shorter <= longer,
        row_format::check_columns(columns, row, shorter) is Err,
    ensures
        row_format::check_columns(columns, row, longer) == row_format::check_columns(
            columns,
            row,
            shorter,
        ),
    decreases longer,
{
    if shorter < longer {
        lemma_check_stays(columns, row, shorter, longer - 1);
    }
}

/// In a row that passes its checks every column passed, each from the end of the
/// payload before it.
pub proof fn lemma_valid_column(columns: Seq<Column>, row: Seq<u8>, index: int, count: int)
    requires
        0 <= index < count <= columns.len(),
        row_format::check_columns(columns, row, count) is Ok,
    ensures
        row_format::check_columns(columns, row, index) is Ok,
        row_format::check_columns(columns, row, index + 1) is Ok,
        row_format::check_columns(columns, row, index + 1) == row_format::check_column(
            columns,
            row,
            index,
            row_format::check_columns(columns, row, index)->Ok_0,
        ),
    decreases count,
{
    if index < count - 1 {
        lemma_valid_column(columns, row, index, count - 1);
    }
}

} // verus!
