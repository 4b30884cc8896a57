//! What holds of every row of a table.

use vstd::prelude::*;

use crate::codec;

use super::row_format::{self, Cell, RowFault, ROW_FORMAT_VERSION};
use super::row_lemmas;
use super::table::DataType;
use super::table_format::{self, Column, Table, MAX_ROW_SIZE};

verus! {

/// Values that can be stored are read back from their row unchanged, and the row
/// is one of the table.
pub proof fn encoded_rows_decode(table: Table, cells: Seq<Cell>)
    requires
        table.valid(),
        row_format::encode_fault(table.columns, cells) is None,
    ensures
        row_format::row_fault(table.columns, row_format::encoded_row(table.columns, cells)) is None,
        row_format::cells_of(table.columns, row_format::encoded_row(table.columns, cells))
            == cells,
{
    let columns = table.columns;
    let count = columns.len() as int;
    let row = row_format::encoded_row(columns, cells);
    lemma_row_parts(columns, cells);
    lemma_payload_fits(columns, cells, count);
    lemma_encoded_columns_pass(columns, cells, count);
    assert forall|i: int| 0 <= i < count implies #[trigger] row_format::cell_at(columns, row, i)
        == cells[i] by {
        lemma_encoded_cell(columns, cells, i);
    }
    assert(row_format::cells_of(columns, row) =~= cells);
}

/// A row whose bitmap has no bit set beyond its columns is the encoding of its
/// values.
pub proof fn decoded_rows_encode(table: Table, row: Seq<u8>)
    requires
        table.valid(),
        row_format::row_fault(table.columns, row) is None,
        spare_bits_clear(table.columns, row),
    ensures
        row_format::encode_fault(table.columns, row_format::cells_of(table.columns, row)) is None,
        row_format::encoded_row(table.columns, row_format::cells_of(table.columns, row)) == row,
{
    let columns = table.columns;
    let count = columns.len() as int;
    let size = table_format::bitmap_size(count);
    let minimum = table_format::minimum_row_size(columns);
    let cells = row_format::cells_of(columns, row);
    let encoded = row_format::encoded_row(columns, cells);
    row_lemmas::lemma_offsets_grow(columns, 0, count);
    lemma_decoded_columns(columns, row, count);
    lemma_bitmap_of_row(columns, row);
    let bitmap = row_format::null_bitmap(cells, count, size);
    assert(row.subrange(0, 1) =~= seq![ROW_FORMAT_VERSION]);
    assert(row.subrange(1, 1 + size) == bitmap);
    assert(row =~= row.subrange(0, 1) + row.subrange(1, 1 + size) + row.subrange(1 + size, minimum)
        + row.subrange(minimum, row.len() as int));
    assert(encoded =~= row);
}

/// A required column of a row of the table is not null.
pub proof fn required_columns_hold_values(table: Table, row: Seq<u8>, index: int)
    requires
        row_format::row_fault(table.columns, row) is None,
        0 <= index < table.columns.len(),
        !table.columns[index].nullable,
    ensures
        row_format::cell_at(table.columns, row, index).has_type(table.columns[index].data_type),
{
    row_lemmas::lemma_valid_column(table.columns, row, index, table.columns.len() as int);
}

/// A projection gives the values that decoding the whole row gives for the listed
/// columns.
pub proof fn projections_agree_with_rows(table: Table, row: Seq<u8>, listed: Seq<usize>)
    requires
        row_format::project_fault(table.columns, row, listed) is None,
    ensures
        row_format::row_fault(table.columns, row) is None,
        forall|i: int|
            0 <= i < listed.len() ==> #[trigger] row_format::projected_cells(
                table.columns,
                row,
                listed,
            )[i] == row_format::cells_of(table.columns, row)[listed[i] as int],
{
    row_lemmas::lemma_in_bounds(table.columns, listed, listed.len() as int);
}

/// A projection of an encoded row gives the stored values of the listed columns, in
/// that order and as often as they are listed.
pub proof fn stored_values_are_projected(table: Table, cells: Seq<Cell>, listed: Seq<usize>)
    requires
        table.valid(),
        row_format::encode_fault(table.columns, cells) is None,
        forall|i: int| 0 <= i < listed.len() ==> #[trigger] listed[i] < table.columns.len(),
    ensures
        ({
            let row = row_format::encoded_row(table.columns, cells);
            &&& row_format::project_fault(table.columns, row, listed) is None
            &&& row_format::projected_cells(table.columns, row, listed) == Seq::new(
                listed.len(),
                |i: int| cells[listed[i] as int],
            )
        }),
{
    let row = row_format::encoded_row(table.columns, cells);
    encoded_rows_decode(table, cells);
    row_lemmas::lemma_all_in_bounds(table.columns, listed, listed.len() as int);
    assert forall|i: int| 0 <= i < listed.len() implies #[trigger] row_format::cell_at(
        table.columns,
        row,
        listed[i] as int,
    ) == cells[listed[i] as int] by {
        assert(row_format::cells_of(table.columns, row)[listed[i] as int] == cells[listed[i] as int]);
    }
    assert(row_format::projected_cells(table.columns, row, listed) =~= Seq::new(
        listed.len(),
        |i: int| cells[listed[i] as int],
    ));
}

/// A projection onto columns that the table does not have fails with the first of
/// them, whatever the row is.
pub proof fn projections_name_the_first_missing_column(
    table: Table,
    row: Seq<u8>,
    listed: Seq<usize>,
    missing: int,
)
    requires
        0 <= missing < listed.len(),
        listed[missing] >= table.columns.len(),
        forall|i: int| 0 <= i < missing ==> #[trigger] listed[i] < table.columns.len(),
    ensures
        row_format::project_fault(table.columns, row, listed) == Some(
            RowFault::ColumnOutOfBounds {
                index: listed[missing],
                column_count: table.columns.len() as usize,
            },
        ),
{
    row_lemmas::lemma_all_in_bounds(table.columns, listed, missing);
    row_lemmas::lemma_out_of_bounds_stays(
        table.columns,
        listed,
        missing + 1,
        listed.len() as int,
    );
}

/// Whether the bits of the null bitmap beyond the columns are clear.
pub open spec fn spare_bits_clear(columns: Seq<Column>, row: Seq<u8>) -> bool {
    forall|i: int|
        columns.len() <= i < 8 * table_format::bitmap_size(columns.len() as int)
            ==> !#[trigger] row_format::is_null(row, i)
}

/// Setting one bit of a byte changes that bit alone.
proof fn lemma_set_bit(byte: u8, set: u8, read: u8)
    by (bit_vector)
    requires
        set < 8,
        read < 8,
    ensures
        ((byte | (1u8 << set)) & (1u8 << read) != 0) == (set == read || byte & (1u8 << read) != 0),
        0u8 & (1u8 << read) == 0,
{
}

/// Bytes with the same bits are the same.
proof fn lemma_byte_of_bits(left: u8, right: u8)
    requires
        forall|bit: int|
            0 <= bit < 8 ==> (left & #[trigger] row_format::null_bit(bit) != 0) == (right
                & row_format::null_bit(bit) != 0),
    ensures
        left == right,
{
    assert((left & row_format::null_bit(0) != 0) == (right & row_format::null_bit(0) != 0));
    assert((left & row_format::null_bit(1) != 0) == (right & row_format::null_bit(1) != 0));
    assert((left & row_format::null_bit(2) != 0) == (right & row_format::null_bit(2) != 0));
    assert((left & row_format::null_bit(3) != 0) == (right & row_format::null_bit(3) != 0));
    assert((left & row_format::null_bit(4) != 0) == (right & row_format::null_bit(4) != 0));
    assert((left & row_format::null_bit(5) != 0) == (right & row_format::null_bit(5) != 0));
    assert((left & row_format::null_bit(6) != 0) == (right & row_format::null_bit(6) != 0));
    assert((left & row_format::null_bit(7) != 0) == (right & row_format::null_bit(7) != 0));
    assert(left == right) by (bit_vector)
        requires
            (left & (1u8 << 0u8) != 0) == (right & (1u8 << 0u8) != 0),
            (left & (1u8 << 1u8) != 0) == (right & (1u8 << 1u8) != 0),
            (left & (1u8 << 2u8) != 0) == (right & (1u8 << 2u8) != 0),
            (left & (1u8 << 3u8) != 0) == (right & (1u8 << 3u8) != 0),
            (left & (1u8 << 4u8) != 0) == (right & (1u8 << 4u8) != 0),
            (left & (1u8 << 5u8) != 0) == (right & (1u8 << 5u8) != 0),
            (left & (1u8 << 6u8) != 0) == (right & (1u8 << 6u8) != 0),
            (left & (1u8 << 7u8) != 0) == (right & (1u8 << 7u8) != 0),
    ;
}

/// The null bitmap marks the nulls and nothing else.
proof fn lemma_bitmap_bit(cells: Seq<Cell>, count: int, size: int, index: int)
    requires
        0 <= count <= 8 * size,
        0 <= index < 8 * size,
    ensures
        (row_format::null_bitmap(cells, count, size)[index / 8] & row_format::null_bit(index) != 0)
            <==> (index < count && cells[index] is Null),
    decreases count,
{
    let byte = row_format::null_bitmap(cells, count - 1, size)[index / 8];
    lemma_set_bit(byte, ((count - 1) % 8) as u8, (index % 8) as u8);
    if count > 0 {
        row_lemmas::lemma_bitmap_length(cells, count - 1, size);
        lemma_bitmap_bit(cells, count - 1, size, index);
    }
}

/// The null bitmap of a row without spare bits is that of its values.
proof fn lemma_bitmap_of_row(columns: Seq<Column>, row: Seq<u8>)
    requires
        spare_bits_clear(columns, row),
        row.len() >= table_format::minimum_row_size(columns),
    ensures
        ({
            let count = columns.len() as int;
            let size = table_format::bitmap_size(count);
            let cells = row_format::cells_of(columns, row);
            row.subrange(1, 1 + size) == row_format::null_bitmap(cells, count, size)
        }),
{
    let count = columns.len() as int;
    let size = table_format::bitmap_size(count);
    let cells = row_format::cells_of(columns, row);
    row_lemmas::lemma_offsets_grow(columns, 0, count);
    row_lemmas::lemma_bitmap_length(cells, count, size);
    let bitmap = row_format::null_bitmap(cells, count, size);
    assert forall|k: int| 0 <= k < size implies #[trigger] bitmap[k] == row[1 + k] by {
        assert forall|bit: int| 0 <= bit < 8 implies (bitmap[k] & #[trigger] row_format::null_bit(
            bit,
        ) != 0) == (row[1 + k] & row_format::null_bit(bit) != 0) by {
            let index = 8 * k + bit;
            lemma_bitmap_bit(cells, count, size, index);
            assert(index / 8 == k && index % 8 == bit);
            assert(row_format::null_bit(index) == row_format::null_bit(bit));
            if index < count {
                assert(cells[index] == row_format::cell_at(columns, row, index));
            } else {
                assert(!row_format::is_null(row, index));
            }
        }
        lemma_byte_of_bits(bitmap[k], row[1 + k]);
    }
    assert(row.subrange(1, 1 + size) =~= bitmap);
}

/// The payload of one value lies within that of all.
proof fn lemma_payload_place(cells: Seq<Cell>, index: int, count: int)
    requires
        0 <= index < count,
    ensures
        row_format::payload(cells, index).len() + cells[index].payload().len()
            <= row_format::payload(cells, count).len(),
        row_format::payload(cells, count).subrange(
            row_format::payload(cells, index).len() as int,
            row_format::payload(cells, index).len() + cells[index].payload().len() as int,
        ) == cells[index].payload(),
    decreases count,
{
    let start = row_format::payload(cells, index).len() as int;
    let end = start + cells[index].payload().len();
    if index < count - 1 {
        lemma_payload_place(cells, index, count - 1);
        assert(row_format::payload(cells, count).subrange(start, end) =~= row_format::payload(
            cells,
            count - 1,
        ).subrange(start, end));
    } else {
        assert(row_format::payload(cells, count).subrange(start, end) =~= cells[index].payload());
    }
}

/// The fixed part of one column lies within that of all.
proof fn lemma_field_place(columns: Seq<Column>, cells: Seq<Cell>, index: int, count: int)
    requires
        0 <= index < count <= columns.len(),
        row_format::cells_fault(columns, cells, count) is None,
    ensures
        row_format::fixed_bytes(columns, cells, count).subrange(
            table_format::column_offset(columns, index) - table_format::column_offset(columns, 0),
            table_format::column_offset(columns, index + 1) - table_format::column_offset(
                columns,
                0,
            ),
        ) == row_format::field_bytes(columns, cells, index),
    decreases count,
{
    let first = table_format::column_offset(columns, 0);
    let start = table_format::column_offset(columns, index) - first;
    let end = table_format::column_offset(columns, index + 1) - first;
    row_lemmas::lemma_fixed_length(columns, cells, count);
    row_lemmas::lemma_offsets_grow(columns, 0, index);
    if index < count - 1 {
        row_lemmas::lemma_offsets_grow(columns, index + 1, count - 1);
        row_lemmas::lemma_fixed_length(columns, cells, count - 1);
        lemma_field_place(columns, cells, index, count - 1);
        assert(row_format::fixed_bytes(columns, cells, count).subrange(start, end)
            =~= row_format::fixed_bytes(columns, cells, count - 1).subrange(start, end));
    } else {
        row_lemmas::lemma_fixed_length(columns, cells, index);
        assert(row_format::fixed_bytes(columns, cells, count).subrange(start, end)
            =~= row_format::field_bytes(columns, cells, index));
    }
}

/// The parts of an encoded row lie where the layout puts them.
pub proof fn lemma_row_parts(columns: Seq<Column>, cells: Seq<Cell>)
    requires
        row_format::encode_fault(columns, cells) is None,
    ensures
        ({
            let row = row_format::encoded_row(columns, cells);
            let count = columns.len() as int;
            let size = table_format::bitmap_size(count);
            let minimum = table_format::minimum_row_size(columns);
            &&& row.len() == minimum + row_format::payload(cells, count).len()
            &&& 1 + size <= minimum
            &&& row[0] == ROW_FORMAT_VERSION
            &&& row.subrange(1, 1 + size) == row_format::null_bitmap(cells, count, size)
            &&& row.subrange(1 + size, minimum) == row_format::fixed_bytes(columns, cells, count)
            &&& row.subrange(minimum, row.len() as int) == row_format::payload(cells, count)
        }),
{
    let row = row_format::encoded_row(columns, cells);
    let count = columns.len() as int;
    let size = table_format::bitmap_size(count);
    let minimum = table_format::minimum_row_size(columns);
    row_lemmas::lemma_bitmap_length(cells, count, size);
    row_lemmas::lemma_fixed_length(columns, cells, count);
    row_lemmas::lemma_offsets_grow(columns, 0, count);
    assert(row.subrange(1, 1 + size) =~= row_format::null_bitmap(cells, count, size));
    assert(row.subrange(1 + size, minimum) =~= row_format::fixed_bytes(columns, cells, count));
    assert(row.subrange(minimum, row.len() as int) =~= row_format::payload(cells, count));
}

/// Values that can be stored leave a row within its largest size.
pub proof fn lemma_payload_fits(columns: Seq<Column>, cells: Seq<Cell>, count: int)
    requires
        table_format::minimum_row_size(columns) <= MAX_ROW_SIZE,
        row_format::cells_fault(columns, cells, count) is None,
    ensures
        row_format::payload_offset(columns, cells, count) <= MAX_ROW_SIZE,
    decreases count,
{
    if count > 0 {
        lemma_payload_fits(columns, cells, count - 1);
    }
}

/// What an encoded row holds in column `index`.
pub proof fn lemma_encoded_field(columns: Seq<Column>, cells: Seq<Cell>, index: int)
    requires
        table_format::minimum_row_size(columns) <= MAX_ROW_SIZE,
        row_format::encode_fault(columns, cells) is None,
        0 <= index < columns.len(),
    ensures
        ({
            let row = row_format::encoded_row(columns, cells);
            let start = table_format::column_offset(columns, index);
            let end = table_format::column_offset(columns, index + 1);
            let offset = row_format::payload_offset(columns, cells, index);
            let length = cells[index].payload().len() as int;
            &&& 1 <= start
            &&& end <= table_format::minimum_row_size(columns) <= row.len()
            &&& row_format::is_null(row, index) == (cells[index] is Null)
            &&& row.subrange(start, end) == row_format::field_bytes(columns, cells, index)
            &&& 0 <= offset
            &&& offset + length <= row.len() <= MAX_ROW_SIZE
            &&& row.subrange(offset, offset + length) == cells[index].payload()
        }),
{
    let row = row_format::encoded_row(columns, cells);
    let count = columns.len() as int;
    let size = table_format::bitmap_size(count);
    let minimum = table_format::minimum_row_size(columns);
    let start = table_format::column_offset(columns, index);
    let end = table_format::column_offset(columns, index + 1);
    let offset = row_format::payload_offset(columns, cells, index);
    let length = cells[index].payload().len() as int;
    lemma_row_parts(columns, cells);
    lemma_payload_fits(columns, cells, count);
    lemma_bitmap_bit(cells, count, size, index);
    assert(row[1 + index / 8] == row.subrange(1, 1 + size)[index / 8]);
    row_lemmas::lemma_offsets_grow(columns, 0, index);
    row_lemmas::lemma_offsets_grow(columns, index + 1, count);
    lemma_field_place(columns, cells, index, count);
    assert(row.subrange(start, end) =~= row.subrange(1 + size, minimum).subrange(
        start - 1 - size,
        end - 1 - size,
    ));
    lemma_payload_place(cells, index, count);
    assert(row.subrange(offset, offset + length) =~= row.subrange(
        minimum,
        row.len() as int,
    ).subrange(offset - minimum, offset - minimum + length));
}

/// The fixed part of a text or bytes column refers to its payload.
pub proof fn lemma_descriptor(row: Seq<u8>, start: int, offset: int, length: int)
    requires
        0 <= start,
        start + 8 <= row.len(),
        0 <= offset <= MAX_ROW_SIZE,
        0 <= length <= MAX_ROW_SIZE,
        row.subrange(start, start + 8) == codec::u32_bytes(offset as u32) + codec::u32_bytes(
            length as u32,
        ),
    ensures
        codec::u32_at(row, start) == offset,
        codec::u32_at(row, start + 4) == length,
{
    let field = row.subrange(start, start + 8);
    let low = codec::u32_bytes(offset as u32);
    let high = codec::u32_bytes(length as u32);
    codec::lemma_u32_round_trip(offset as u32);
    codec::lemma_u32_round_trip(length as u32);
    codec::lemma_u32_at_subrange(row, start);
    codec::lemma_u32_at_subrange(row, start + 4);
    assert(field.subrange(0, 4) =~= low);
    assert(field.subrange(4, 8) =~= high);
    assert(row.subrange(start, start + 4) =~= field.subrange(0, 4));
    assert(row.subrange(start + 4, start + 8) =~= field.subrange(4, 8));
}

/// The columns of an encoded row pass their checks.
proof fn lemma_encoded_columns_pass(columns: Seq<Column>, cells: Seq<Cell>, count: int)
    requires
        table_format::minimum_row_size(columns) <= MAX_ROW_SIZE,
        row_format::encode_fault(columns, cells) is None,
        0 <= count <= columns.len(),
    ensures
        row_format::check_columns(columns, row_format::encoded_row(columns, cells), count) == Ok::<
            int,
            &'static str,
        >(row_format::payload_offset(columns, cells, count)),
    decreases count,
{
    if count > 0 {
        let row = row_format::encoded_row(columns, cells);
        let index = count - 1;
        let start = table_format::column_offset(columns, index);
        let end = table_format::column_offset(columns, count);
        let offset = row_format::payload_offset(columns, cells, index);
        let field = row_format::field_bytes(columns, cells, index);
        let payload = cells[index].payload();
        lemma_encoded_columns_pass(columns, cells, index);
        lemma_encoded_field(columns, cells, index);
        row_lemmas::lemma_fixed_length(columns, cells, columns.len() as int);
        assert(row_format::cell_fault(columns, cells, index) is None);
        assert forall|k: int| start <= k < end implies #[trigger] row[k] == field[k - start] by {
            assert(row.subrange(start, end)[k - start] == row[k]);
        }
        match cells[index] {
            Cell::Text(text) => {
                lemma_descriptor(row, start, offset, payload.len() as int);
                vstd::utf8::encode_utf8_valid_utf8(text);
            },
            Cell::Bytes(_) => {
                lemma_descriptor(row, start, offset, payload.len() as int);
            },
            _ => {},
        }
    }
}

/// A value is read back from its column of the encoded row.
proof fn lemma_encoded_cell(columns: Seq<Column>, cells: Seq<Cell>, index: int)
    requires
        table_format::minimum_row_size(columns) <= MAX_ROW_SIZE,
        row_format::encode_fault(columns, cells) is None,
        0 <= index < columns.len(),
    ensures
        row_format::cell_at(columns, row_format::encoded_row(columns, cells), index)
            == cells[index],
{
    let row = row_format::encoded_row(columns, cells);
    let start = table_format::column_offset(columns, index);
    let end = table_format::column_offset(columns, index + 1);
    let offset = row_format::payload_offset(columns, cells, index);
    let field = row_format::field_bytes(columns, cells, index);
    let payload = cells[index].payload();
    lemma_encoded_field(columns, cells, index);
    row_lemmas::lemma_fixed_length(columns, cells, columns.len() as int);
    assert(row_format::cell_fault(columns, cells, index) is None);
    match cells[index] {
        Cell::Null => {},
        Cell::Int(value) => {
            codec::lemma_i64_round_trip(value);
            codec::lemma_u64_at_subrange(row, start);
        },
        Cell::Float(pattern) => {
            codec::lemma_u64_round_trip(pattern);
            codec::lemma_u64_at_subrange(row, start);
        },
        Cell::Bool(value) => {
            assert(row.subrange(start, end)[0] == row[start]);
        },
        Cell::Text(text) => {
            lemma_descriptor(row, start, offset, payload.len() as int);
            vstd::utf8::encode_utf8_decode_utf8(text);
        },
        Cell::Bytes(_) => {
            lemma_descriptor(row, start, offset, payload.len() as int);
        },
    }
}

/// The values of a valid row can be stored, and their parts are those of the row.
proof fn lemma_decoded_columns(columns: Seq<Column>, row: Seq<u8>, count: int)
    requires
        table_format::minimum_row_size(columns) <= row.len() <= MAX_ROW_SIZE,
        row_format::check_columns(columns, row, columns.len() as int) is Ok,
        0 <= count <= columns.len(),
    ensures
        ({
            let cells = row_format::cells_of(columns, row);
            let end = row_format::payload_offset(columns, cells, count);
            let first = table_format::column_offset(columns, 0);
            let minimum = table_format::minimum_row_size(columns);
            &&& row_format::check_columns(columns, row, count) == Ok::<int, &'static str>(end)
            &&& row_format::cells_fault(columns, cells, count) is None
            &&& minimum <= end <= row.len()
            &&& row_format::payload(cells, count) == row.subrange(minimum, end)
            &&& row_format::fixed_bytes(columns, cells, count) == row.subrange(
                first,
                table_format::column_offset(columns, count),
            )
        }),
    decreases count,
{
    let cells = row_format::cells_of(columns, row);
    let first = table_format::column_offset(columns, 0);
    let minimum = table_format::minimum_row_size(columns);
    row_lemmas::lemma_offsets_grow(columns, 0, columns.len() as int);
    if count == 0 {
        assert(row.subrange(minimum, minimum) =~= Seq::empty());
        assert(row.subrange(first, first) =~= Seq::empty());
    } else {
        let index = count - 1;
        let start = table_format::column_offset(columns, index);
        let end = table_format::column_offset(columns, count);
        let offset = row_format::payload_offset(columns, cells, index);
        let column = columns[index];
        let cell = cells[index];
        let field = row_format::field_bytes(columns, cells, index);
        lemma_decoded_columns(columns, row, index);
        row_lemmas::lemma_valid_column(columns, row, index, columns.len() as int);
        row_lemmas::lemma_offsets_grow(columns, 0, index);
        row_lemmas::lemma_offsets_grow(columns, count, columns.len() as int);
        assert(cell == row_format::cell_at(columns, row, index));
        if !row_format::is_null(row, index) && (column.data_type == DataType::Text
            || column.data_type == DataType::Bytes) {
            lemma_decoded_descriptor(row, start);
            let payload = row_format::referenced_payload(row, start);
            if column.data_type == DataType::Text {
                vstd::utf8::decode_utf8_encode_utf8(payload);
            }
            assert(cell.payload() == payload);
        }
        lemma_decoded_field(columns, row, index);
        assert(row_format::payload(cells, count) =~= row.subrange(
            minimum,
            row_format::payload_offset(columns, cells, count),
        ));
        assert(row_format::fixed_bytes(columns, cells, count) =~= row.subrange(first, end));
    }
}

/// The fixed part of a text or bytes column is what its place and length encode.
proof fn lemma_decoded_descriptor(row: Seq<u8>, start: int)
    requires
        0 <= start,
        start + 8 <= row.len(),
    ensures
        codec::u32_bytes(codec::u32_at(row, start)) + codec::u32_bytes(
            codec::u32_at(row, start + 4),
        ) == row.subrange(start, start + 8),
{
    let low = row.subrange(start, start + 4);
    let high = row.subrange(start + 4, start + 8);
    codec::lemma_u32_bytes_of_read(low);
    codec::lemma_u32_bytes_of_read(high);
    codec::lemma_u32_at_subrange(row, start);
    codec::lemma_u32_at_subrange(row, start + 4);
    assert(low + high =~= row.subrange(start, start + 8));
}

/// The fixed part of a valid column is that of its value.
proof fn lemma_decoded_field(columns: Seq<Column>, row: Seq<u8>, index: int)
    requires
        0 <= index < columns.len(),
        table_format::minimum_row_size(columns) <= row.len() <= MAX_ROW_SIZE,
        ({
            let cells = row_format::cells_of(columns, row);
            let offset = row_format::payload_offset(columns, cells, index);
            row_format::check_column(columns, row, index, offset) is Ok
        }),
    ensures
        row_format::field_bytes(columns, row_format::cells_of(columns, row), index)
            == row.subrange(
            table_format::column_offset(columns, index),
            table_format::column_offset(columns, index + 1),
        ),
{
    let cells = row_format::cells_of(columns, row);
    let start = table_format::column_offset(columns, index);
    let end = table_format::column_offset(columns, index + 1);
    let field = row.subrange(start, end);
    let column = columns[index];
    row_lemmas::lemma_offsets_grow(columns, 0, index);
    row_lemmas::lemma_offsets_grow(columns, index + 1, columns.len() as int);
    assert(cells[index] == row_format::cell_at(columns, row, index));
    if row_format::is_null(row, index) {
        assert(field =~= row_format::zeros(end - start)) by {
            assert forall|k: int| 0 <= k < end - start implies #[trigger] field[k] == 0 by {
                assert(row[start + k] == 0);
            }
        }
    } else {
        match column.data_type {
            DataType::Int => {
                codec::lemma_i64_bytes_of_read(field);
                codec::lemma_u64_at_subrange(row, start);
            },
            DataType::Float => {
                codec::lemma_u64_bytes_of_read(field);
                codec::lemma_u64_at_subrange(row, start);
            },
            DataType::Bool => {
                assert(row_format::field_bytes(columns, cells, index) =~= field);
            },
            DataType::Text => {
                lemma_decoded_descriptor(row, start);
                vstd::utf8::decode_utf8_encode_utf8(row_format::referenced_payload(row, start));
            },
            DataType::Bytes => {
                lemma_decoded_descriptor(row, start);
            },
        }
    }
}

} // verus!
