//! Which values can be stored in a row, and where they lie in it.

use vstd::prelude::*;

use crate::codec;

use super::declaration_laws;
use super::row_format::{self, Cell, RowFault};
use super::row_laws;
use super::row_lemmas;
use super::table_format::{self, Column, Table};
use super::DataType;

verus! {

/// Whether a column takes a value: a value of its own type, or null where it is
/// nullable, whatever its type is.
pub open spec fn takes(column: Column, cell: Cell) -> bool {
    match cell {
        Cell::Null => column.nullable,
        Cell::Int(_) => column.data_type == DataType::Int,
        Cell::Float(_) => column.data_type == DataType::Float,
        Cell::Bool(_) => column.data_type == DataType::Bool,
        Cell::Text(_) => column.data_type == DataType::Text,
        Cell::Bytes(_) => column.data_type == DataType::Bytes,
    }
}

/// Bytes that a value takes up behind the fixed part of a row.
pub open spec fn variable_size(cell: Cell) -> int {
    match cell {
        Cell::Text(text) => vstd::utf8::encode_utf8(text).len() as int,
        Cell::Bytes(bytes) => bytes.len() as int,
        _ => 0,
    }
}

/// Bytes that values take up behind the fixed part of a row.
pub open spec fn total_size(cells: Seq<Cell>) -> int
    decreases cells.len(),
{
    if cells.len() == 0 {
        0
    } else {
        total_size(cells.drop_last()) + variable_size(cells.last())
    }
}

/// Whether values are a row of these columns: one for each column, which the column
/// takes, and all of them within a page.
pub open spec fn fit(columns: Seq<Column>, cells: Seq<Cell>) -> bool {
    &&& cells.len() == columns.len()
    &&& forall|i: int| 0 <= i < columns.len() ==> #[trigger] takes(columns[i], cells[i])
    &&& declaration_laws::smallest_row(columns) + total_size(cells) <= 8152
}

/// The values that can be stored are those that fit their columns.
pub proof fn values_that_fit_can_be_stored(table: Table, cells: Seq<Cell>)
    requires
        table.valid(),
    ensures
        row_format::encode_fault(table.columns, cells) is None <==> fit(table.columns, cells),
{
    let columns = table.columns;
    let count = columns.len() as int;
    declaration_laws::columns_lie_without_gaps(columns, count);
    if cells.len() == count {
        lemma_total(cells, count);
        assert(cells.take(count) =~= cells);
        if row_format::cells_fault(columns, cells, count) is None {
            row_laws::lemma_payload_fits(columns, cells, count);
            row_lemmas::lemma_fixed_length(columns, cells, count);
            assert forall|i: int| 0 <= i < count implies #[trigger] takes(columns[i], cells[i]) by {
                assert(row_format::cell_fault(columns, cells, i) is None);
            }
        }
        if fit(columns, cells) {
            lemma_no_fault(columns, cells, count);
        }
    }
}

/// The payload of the first values has the size of those values.
proof fn lemma_total(cells: Seq<Cell>, count: int)
    requires
        0 <= count <= cells.len(),
    ensures
        row_format::payload(cells, count).len() == total_size(cells.take(count)),
        0 <= total_size(cells.take(count)) <= total_size(cells),
{
    lemma_payload_size(cells, count);
    lemma_total_grows(cells, count);
}

proof fn lemma_payload_size(cells: Seq<Cell>, count: int)
    requires
        0 <= count <= cells.len(),
    ensures
        row_format::payload(cells, count).len() == total_size(cells.take(count)),
    decreases count,
{
    if count > 0 {
        lemma_payload_size(cells, count - 1);
        assert(cells.take(count).drop_last() =~= cells.take(count - 1));
        assert(cells.take(count).last() == cells[count - 1]);
    }
}

proof fn lemma_total_grows(cells: Seq<Cell>, count: int)
    requires
        0 <= count <= cells.len(),
    ensures
        0 <= total_size(cells.take(count)) <= total_size(cells),
    decreases cells.len(),
{
    if count == cells.len() {
        assert(cells.take(count) =~= cells);
        if count > 0 {
            lemma_total_grows(cells.drop_last(), count - 1);
            assert(cells.drop_last().take(count - 1) =~= cells.drop_last());
        }
    } else {
        lemma_total_grows(cells.drop_last(), count);
        assert(cells.drop_last().take(count) =~= cells.take(count));
    }
}

proof fn lemma_no_fault(columns: Seq<Column>, cells: Seq<Cell>, count: int)
    requires
        fit(columns, cells),
        0 <= count <= columns.len(),
    ensures
        row_format::cells_fault(columns, cells, count) is None,
    decreases count,
{
    if count > 0 {
        lemma_no_fault(columns, cells, count - 1);
        declaration_laws::columns_lie_without_gaps(columns, columns.len() as int);
        lemma_total(cells, count - 1);
        lemma_total(cells, count);
        assert(takes(columns[count - 1], cells[count - 1]));
    }
}

/// Whether what is said of values that cannot be stored is true of them.
pub open spec fn is_true_of(fault: RowFault, columns: Seq<Column>, cells: Seq<Cell>) -> bool {
    match fault {
        RowFault::WrongValueCount { expected, found } => {
            expected == columns.len() && found == cells.len() && expected != found
        },
        RowFault::TypeMismatch { column, expected, found } => exists|i: int|
            0 <= i < columns.len() && (#[trigger] columns[i]).name == column
                && columns[i].data_type == expected && !takes(columns[i], cells[i]) && !(
            cells[i] is Null) && found == cells[i].kind_name(),
        RowFault::NullNotAllowed { column } => exists|i: int|
            0 <= i < columns.len() && (#[trigger] columns[i]).name == column
                && !columns[i].nullable && cells[i] is Null,
        RowFault::RowTooLarge { size, maximum } => {
            &&& maximum == 8152
            &&& exists|i: int|
                0 <= i < columns.len() && {
                    let needed = declaration_laws::smallest_row(columns) + total_size(
                        #[trigger] cells.take(i + 1),
                    );
                    &&& needed > 8152
                    &&& size == needed || (needed > usize::MAX && size == usize::MAX)
                }
        },
        _ => false,
    }
}

/// What is said of values that cannot be stored is true of them.
pub proof fn storage_faults_are_true(table: Table, cells: Seq<Cell>)
    requires
        table.valid(),
        cells.len() <= usize::MAX,
    ensures
        row_format::encode_fault(table.columns, cells) matches Some(fault) ==> is_true_of(
            fault,
            table.columns,
            cells,
        ),
{
    let columns = table.columns;
    let count = columns.len() as int;
    if cells.len() == count && row_format::cells_fault(columns, cells, count) is Some {
        lemma_faults_are_true(columns, cells, count);
    }
}

proof fn lemma_faults_are_true(columns: Seq<Column>, cells: Seq<Cell>, count: int)
    requires
        cells.len() == columns.len(),
        0 <= count <= columns.len(),
        row_format::cells_fault(columns, cells, count) is Some,
    ensures
        is_true_of(row_format::cells_fault(columns, cells, count)->0, columns, cells),
    decreases count,
{
    if row_format::cells_fault(columns, cells, count - 1) is Some {
        lemma_faults_are_true(columns, cells, count - 1);
    } else {
        let index = count - 1;
        declaration_laws::columns_lie_without_gaps(columns, columns.len() as int);
        lemma_total(cells, index);
        lemma_total(cells, count);
        assert(cells.take(index + 1).len() == count);
        assert(row_format::payload(cells, count).len() == row_format::payload(cells, index).len()
            + cells[index].payload().len());
    }
}

/// A row is checked value by value: the first value that cannot be stored decides
/// what is said.
pub proof fn the_first_faulty_value_decides(
    table: Table,
    cells: Seq<Cell>,
    other: Seq<Cell>,
    count: int,
)
    requires
        cells.len() == table.columns.len(),
        other.len() == table.columns.len(),
        0 <= count <= cells.len(),
        cells.take(count) == other.take(count),
        row_format::cells_fault(table.columns, cells, count) is Some,
    ensures
        row_format::encode_fault(table.columns, cells) is Some,
        row_format::encode_fault(table.columns, other) == row_format::encode_fault(
            table.columns,
            cells,
        ),
{
    let columns = table.columns;
    lemma_same_values(columns, cells, other, count);
    row_lemmas::lemma_cells_fault_stays(columns, cells, count, columns.len() as int);
    row_lemmas::lemma_cells_fault_stays(columns, other, count, columns.len() as int);
}

proof fn lemma_same_values(columns: Seq<Column>, cells: Seq<Cell>, other: Seq<Cell>, count: int)
    requires
        0 <= count <= cells.len(),
        count <= other.len(),
        cells.take(count) == other.take(count),
    ensures
        row_format::cells_fault(columns, cells, count) == row_format::cells_fault(
            columns,
            other,
            count,
        ),
        row_format::payload(cells, count) == row_format::payload(other, count),
    decreases count,
{
    if count > 0 {
        assert(cells.take(count - 1) =~= cells.take(count).take(count - 1));
        assert(other.take(count - 1) =~= other.take(count).take(count - 1));
        lemma_same_values(columns, cells, other, count - 1);
        assert(cells.take(count)[count - 1] == cells[count - 1]);
        assert(other.take(count)[count - 1] == other[count - 1]);
    }
}

/// How values lie in their row: the version byte, the bit of each null, each number
/// and truth value in the place of its column, little-endian, and of each text and
/// string of bytes where it starts and how long it is; behind that the texts and
/// strings of bytes, in the order of their columns and without gaps.
pub proof fn values_lie_in_their_places(table: Table, cells: Seq<Cell>, index: int)
    requires
        table.valid(),
        fit(table.columns, cells),
        0 <= index < table.columns.len(),
    ensures
        ({
            let columns = table.columns;
            let row = row_format::encoded_row(columns, cells);
            let place = 1 + (columns.len() + 7) / 8 + declaration_laws::fixed_size(
                columns.take(index),
            );
            let start = declaration_laws::smallest_row(columns) + total_size(cells.take(index));
            &&& row.len() == declaration_laws::smallest_row(columns) + total_size(cells)
            &&& row[0] == 1
            &&& (row[1 + index / 8] & (1u8 << ((index % 8) as u8)) != 0) == (cells[index] is Null)
            &&& match cells[index] {
                Cell::Null => forall|k: int|
                    place <= k < place + declaration_laws::fixed_size(seq![columns[index]])
                        ==> #[trigger] row[k] == 0,
                Cell::Int(value) => row.subrange(place, place + 8) == codec::i64_bytes(value),
                Cell::Float(pattern) => row.subrange(place, place + 8) == codec::u64_bytes(
                    pattern,
                ),
                Cell::Bool(value) => row[place] == if value {
                    1u8
                } else {
                    0u8
                },
                Cell::Text(text) => {
                    &&& codec::u32_at(row, place) == start
                    &&& codec::u32_at(row, place + 4) == vstd::utf8::encode_utf8(text).len()
                    &&& row.subrange(start, start + vstd::utf8::encode_utf8(text).len())
                        == vstd::utf8::encode_utf8(text)
                },
                Cell::Bytes(bytes) => {
                    &&& codec::u32_at(row, place) == start
                    &&& codec::u32_at(row, place + 4) == bytes.len()
                    &&& row.subrange(start, start + bytes.len()) == bytes
                },
            }
        }),
{
    let columns = table.columns;
    let count = columns.len() as int;
    let row = row_format::encoded_row(columns, cells);
    let place = table_format::column_offset(columns, index);
    let end = table_format::column_offset(columns, index + 1);
    let start = row_format::payload_offset(columns, cells, index);
    values_that_fit_can_be_stored(table, cells);
    declaration_laws::columns_lie_without_gaps(columns, index);
    declaration_laws::columns_lie_without_gaps(columns, count);
    lemma_total(cells, index);
    lemma_total(cells, count);
    assert(cells.take(count) =~= cells);
    row_laws::lemma_row_parts(columns, cells);
    row_laws::lemma_encoded_field(columns, cells, index);
    row_lemmas::lemma_fixed_length(columns, cells, count);
    let field = row_format::field_bytes(columns, cells, index);
    assert(row_format::cell_fault(columns, cells, index) is None);
    assert(takes(columns[index], cells[index]));
    let alone = seq![columns[index]];
    assert(alone.drop_last() =~= Seq::empty());
    assert(declaration_laws::fixed_size(alone.drop_last()) == 0);
    assert forall|k: int| place <= k < end implies #[trigger] row[k] == field[k - place] by {
        assert(row.subrange(place, end)[k - place] == row[k]);
    }
    match cells[index] {
        Cell::Text(text) => {
            row_laws::lemma_descriptor(row, place, start, cells[index].payload().len() as int);
        },
        Cell::Bytes(bytes) => {
            row_laws::lemma_descriptor(row, place, start, cells[index].payload().len() as int);
        },
        _ => {},
    }
}

/// Whether two rows are the same but for bits of the null bitmap that belong to no
/// column.
pub open spec fn same_but_for_spare_bits(
    columns: Seq<Column>,
    row: Seq<u8>,
    other: Seq<u8>,
) -> bool {
    let behind = 1 + (columns.len() + 7) / 8;
    &&& row.len() == other.len()
    &&& row[0] == other[0]
    &&& forall|k: int| behind <= k < row.len() ==> #[trigger] row[k] == other[k]
    &&& forall|i: int|
        0 <= i < columns.len() ==> #[trigger] row_format::is_null(row, i) == row_format::is_null(
            other,
            i,
        )
}

/// Bits of the null bitmap that belong to no column do not matter to a reader.
pub proof fn spare_bits_do_not_matter(table: Table, row: Seq<u8>, other: Seq<u8>)
    requires
        same_but_for_spare_bits(table.columns, row, other),
    ensures
        row_format::row_fault(table.columns, row) == row_format::row_fault(table.columns, other),
        row_format::row_fault(table.columns, row) is None ==> row_format::cells_of(
            table.columns,
            row,
        ) == row_format::cells_of(table.columns, other),
{
    let columns = table.columns;
    let count = columns.len() as int;
    if row.len() >= table_format::minimum_row_size(columns) {
        lemma_same_checks(columns, row, other, count);
        if row_format::row_fault(columns, row) is None {
            assert forall|i: int| 0 <= i < count implies #[trigger] row_format::cell_at(
                columns,
                row,
                i,
            ) == row_format::cell_at(columns, other, i) by {
                lemma_same_cell(columns, row, other, i);
            }
            assert(row_format::cells_of(columns, row) =~= row_format::cells_of(columns, other));
        }
    }
}

proof fn lemma_same_checks(columns: Seq<Column>, row: Seq<u8>, other: Seq<u8>, count: int)
    requires
        same_but_for_spare_bits(columns, row, other),
        row.len() >= table_format::minimum_row_size(columns),
        0 <= count <= columns.len(),
    ensures
        row_format::check_columns(columns, row, count) == row_format::check_columns(
            columns,
            other,
            count,
        ),
        row_format::check_columns(columns, row, count) matches Ok(end) ==> end
            >= table_format::minimum_row_size(columns),
    decreases count,
{
    if count > 0 {
        let index = count - 1;
        lemma_same_checks(columns, row, other, index);
        let start = table_format::column_offset(columns, index);
        let end = table_format::column_offset(columns, count);
        row_lemmas::lemma_offsets_grow(columns, 0, index);
        row_lemmas::lemma_offsets_grow(columns, count, columns.len() as int);
        row_lemmas::lemma_offsets_grow(columns, 0, columns.len() as int);
        assert(forall|k: int| start <= k < end ==> #[trigger] row[k] == other[k]);
        assert(row_format::is_null(row, index) == row_format::is_null(other, index));
        if exists|k: int| start <= k < end && #[trigger] row[k] != 0 {
            let k = choose|k: int| start <= k < end && #[trigger] row[k] != 0;
            assert(other[k] != 0);
        }
        if exists|k: int| start <= k < end && #[trigger] other[k] != 0 {
            let k = choose|k: int| start <= k < end && #[trigger] other[k] != 0;
            assert(row[k] != 0);
        }
        if row_format::check_columns(columns, row, index) is Ok {
            let expected = row_format::check_columns(columns, row, index)->Ok_0;
            let length = codec::u32_at(row, start + 4) as int;
            if expected + length <= row.len() {
                assert(row.subrange(expected, expected + length) =~= other.subrange(
                    expected,
                    expected + length,
                ));
            }
        }
    } else {
        row_lemmas::lemma_offsets_grow(columns, 0, columns.len() as int);
    }
}

proof fn lemma_same_cell(columns: Seq<Column>, row: Seq<u8>, other: Seq<u8>, index: int)
    requires
        same_but_for_spare_bits(columns, row, other),
        row_format::row_fault(columns, row) is None,
        0 <= index < columns.len(),
    ensures
        row_format::cell_at(columns, row, index) == row_format::cell_at(columns, other, index),
{
    let count = columns.len() as int;
    let start = table_format::column_offset(columns, index);
    let end = table_format::column_offset(columns, index + 1);
    row_lemmas::lemma_offsets_grow(columns, 0, index);
    row_lemmas::lemma_offsets_grow(columns, index + 1, count);
    row_lemmas::lemma_valid_column(columns, row, index, count);
    lemma_same_checks(columns, row, other, index);
    assert(forall|k: int| start <= k < end ==> #[trigger] row[k] == other[k]);
    assert(row_format::is_null(row, index) == row_format::is_null(other, index));
    if columns[index].data_type == DataType::Text || columns[index].data_type == DataType::Bytes {
        if !row_format::is_null(row, index) {
            let offset = codec::u32_at(row, start) as int;
            let length = codec::u32_at(row, start + 4) as int;
            assert(row.subrange(offset, offset + length) =~= other.subrange(
                offset,
                offset + length,
            ));
        }
    }
}

} // verus!
