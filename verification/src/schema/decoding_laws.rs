//! How tables lie in their encoding, and what is said of tables and rows that cannot be
//! read.

use vstd::prelude::*;

use crate::codec;

use super::declaration_laws;
use super::row_format::{self, Cell, RowFault};
use super::row_lemmas;
use super::stored_row_laws;
use super::table_format::{self, Column, SchemaFault, Table};
use super::DataType;

verus! {

/// A text behind its length in bytes, the lowest byte first.
pub open spec fn counted_text(text: Seq<char>) -> Seq<u8> {
    let bytes = vstd::utf8::encode_utf8(text);
    seq![(bytes.len() % 256) as u8, (bytes.len() / 256 % 256) as u8] + bytes
}

/// The encoding of a table is `NSCH`, version 1, the number of its columns, its name,
/// and its columns one after the other: the name of each, the number of its type, and
/// its flags, one for null and two for the primary key.
pub proof fn tables_have_their_fields(table: Table, column: Column)
    requires
        table.columns.len() < 1024,
        vstd::utf8::encode_utf8(table.name).len() <= 65535,
        vstd::utf8::encode_utf8(column.name).len() <= 65535,
    ensures
        ({
            let count = table.columns.len();
            let start = seq![
                78u8,
                83,
                67,
                72,
                1,
                0,
                (count % 256) as u8,
                (count / 256) as u8,
            ] + counted_text(table.name);
            let number = match column.data_type {
                DataType::Int => 1u8,
                DataType::Float => 2u8,
                DataType::Bool => 3u8,
                DataType::Text => 4u8,
                DataType::Bytes => 5u8,
            };
            let flags = match (column.nullable, column.primary_key) {
                (false, false) => 0u8,
                (true, false) => 1u8,
                (false, true) => 2u8,
                (true, true) => 3u8,
            };
            let longer = Table { columns: table.columns.push(column), ..table };
            &&& table.encoded().len() >= start.len()
            &&& table.encoded().take(start.len() as int) == start
            &&& count == 0 ==> table.encoded() == start
            &&& longer.encoded().skip(8) == table.encoded().skip(8) + counted_text(column.name)
                + seq![number, flags]
        }),
{
    let count = table.columns.len();
    let longer = Table { columns: table.columns.push(column), ..table };
    let name = table_format::string_bytes(table.name);
    assert(name =~= counted_text(table.name));
    assert(table_format::string_bytes(column.name) =~= counted_text(column.name));
    let start = seq![
        78u8,
        83,
        67,
        72,
        1,
        0,
        (count % 256) as u8,
        (count / 256) as u8,
    ] + counted_text(table.name);
    assert(table.encoded().take(start.len() as int) =~= start);
    if count == 0 {
        assert(table.encoded() =~= start);
    }
    assert(longer.columns.drop_last() =~= table.columns);
    assert(table.encoded().skip(8) =~= name + table_format::columns_bytes(table.columns));
    assert(longer.encoded().skip(8) =~= name + table_format::columns_bytes(longer.columns));
    assert(longer.encoded().skip(8) =~= table.encoded().skip(8) + counted_text(column.name) + seq![
        table_format::type_tag(column.data_type),
        table_format::column_flags(column),
    ]);
}

/// A row that is too short, too long or of another version is refused for that, in
/// this order.
pub proof fn rows_of_another_shape_are_refused(table: Table, row: Seq<u8>)
    requires
        table.valid(),
    ensures
        ({
            let fault = row_format::row_fault(table.columns, row);
            let smallest = declaration_laws::smallest_row(table.columns);
            &&& row.len() < smallest ==> fault == Some("row is shorter than its fixed layout")
            &&& row.len() > 8152 ==> fault == Some("row exceeds maximum page payload")
            &&& smallest <= row.len() <= 8152 && row[0] != 1 ==> fault == Some(
                "unsupported row format version",
            )
        }),
{
    declaration_laws::columns_lie_without_gaps(table.columns, table.columns.len() as int);
}

/// Where the columns before `index` are sound and their payload ends at `expected`, a
/// column decides what is said of the row: a null in a required column, a null with
/// bytes of its own, a truth value other than zero and one, a payload elsewhere or
/// beyond the end of the row, a text that is not UTF-8. Where none of these holds the
/// column is sound.
pub proof fn the_first_unsound_column_decides(
    table: Table,
    row: Seq<u8>,
    index: int,
    expected: int,
)
    requires
        table.valid(),
        declaration_laws::smallest_row(table.columns) <= row.len() <= 8152,
        row[0] == 1,
        0 <= index < table.columns.len(),
        row_format::check_columns(table.columns, row, index) == Ok::<int, &'static str>(expected),
    ensures
        ({
            let column = table.columns[index];
            let fault = row_format::row_fault(table.columns, row);
            let place = 1 + (table.columns.len() + 7) / 8 + declaration_laws::fixed_size(
                table.columns.take(index),
            );
            let width = if column.data_type == DataType::Bool {
                1int
            } else {
                8int
            };
            let null = row[1 + index / 8] & (1u8 << ((index % 8) as u8)) != 0;
            let variable = column.data_type == DataType::Text || column.data_type
                == DataType::Bytes;
            let offset = codec::u32_at(row, place) as int;
            let length = codec::u32_at(row, place + 4) as int;
            let outside = offset + length > row.len();
            let other = column.data_type == DataType::Text && !vstd::utf8::valid_utf8(
                row.subrange(offset, offset + length),
            );
            let blank = forall|k: int| place <= k < place + width ==> #[trigger] row[k] == 0;
            let end = row_format::check_columns(table.columns, row, index + 1);
            if null {
                &&& !column.nullable ==> fault == Some("required column is encoded as null")
                &&& column.nullable && !blank ==> fault == Some(
                    "null column has nonzero fixed bytes",
                )
                &&& column.nullable && blank ==> end == Ok::<int, &'static str>(expected)
            } else if variable {
                &&& offset != expected ==> fault == Some("variable column payload is not canonical")
                &&& offset == expected && outside ==> fault == Some(
                    "variable column exceeds row boundary",
                )
                &&& offset == expected && !outside && other ==> fault == Some(
                    "text column is not UTF-8",
                )
                &&& offset == expected && !outside && !other ==> end == Ok::<int, &'static str>(
                    offset + length,
                )
            } else if column.data_type == DataType::Bool && row[place] > 1 {
                fault == Some("boolean column is not zero or one")
            } else {
                end == Ok::<int, &'static str>(expected)
            }
        }),
{
    let columns = table.columns;
    let count = columns.len() as int;
    declaration_laws::columns_lie_without_gaps(columns, index);
    declaration_laws::columns_lie_without_gaps(columns, count);
    let start = table_format::column_offset(columns, index);
    let end = start + table_format::width(columns[index].data_type);
    if forall|k: int| start <= k < end ==> #[trigger] row[k] == 0 {
        assert(!(exists|k: int| start <= k < end && #[trigger] row[k] != 0));
    }
    if row_format::check_columns(columns, row, index + 1) is Err {
        row_lemmas::lemma_check_stays(columns, row, index + 1, count);
    }
}

/// A row whose columns are sound and take up all of it is a row of the table; one that
/// goes on behind them is refused.
pub proof fn rows_end_with_their_payload(table: Table, row: Seq<u8>, end: int)
    requires
        table.valid(),
        declaration_laws::smallest_row(table.columns) <= row.len() <= 8152,
        row[0] == 1,
        row_format::check_columns(table.columns, row, table.columns.len() as int) == Ok::<
            int,
            &'static str,
        >(end),
    ensures
        row_format::row_fault(table.columns, row) is None <==> end == row.len(),
        end != row.len() ==> row_format::row_fault(table.columns, row) == Some(
            "row has trailing or unreferenced payload",
        ),
        row_format::check_columns(table.columns, row, 0) == Ok::<int, &'static str>(
            declaration_laws::smallest_row(table.columns),
        ),
{
    declaration_laws::columns_lie_without_gaps(table.columns, table.columns.len() as int);
}

/// A projection onto columns that the table has reads the whole row: it is refused
/// exactly where the row is, and for the same reason.
pub proof fn projections_are_refused_with_their_rows(
    table: Table,
    row: Seq<u8>,
    listed: Seq<usize>,
)
    requires
        forall|i: int| 0 <= i < listed.len() ==> #[trigger] listed[i] < table.columns.len(),
    ensures
        row_format::project_fault(table.columns, row, listed) == match row_format::row_fault(
            table.columns,
            row,
        ) {
            Some(reason) => Some(RowFault::Corrupt(reason)),
            None => None,
        },
        row_format::projected_cells(table.columns, row, listed).len() == listed.len(),
{
    row_lemmas::lemma_all_in_bounds(table.columns, listed, listed.len() as int);
}

/// Whether the pattern of a float has the largest exponent and a fraction: it stands
/// for no number.
pub open spec fn stands_for_no_number(pattern: u64) -> bool {
    pattern / 0x10_0000_0000_0000 % 2048 == 2047 && pattern % 0x10_0000_0000_0000 != 0
}

/// Whether the pattern of a float is nothing but a sign: it stands for zero.
pub open spec fn stands_for_zero(pattern: u64) -> bool {
    pattern == 0 || pattern == 0x8000_0000_0000_0000
}

/// Two floats are equal where both are zero, or where they have the same pattern and
/// stand for a number. Other values are equal where they are the same, and values of
/// different kinds never are.
pub proof fn values_are_equal_by_what_they_stand_for(left: Cell, right: Cell)
    ensures
        row_format::equal_cells(left, right) <==> match (left, right) {
            (Cell::Float(one), Cell::Float(other)) => {
                ||| stands_for_zero(one) && stands_for_zero(other)
                ||| one == other && !stands_for_no_number(one)
            },
            (Cell::Null, Cell::Null) => true,
            (Cell::Int(one), Cell::Int(other)) => one == other,
            (Cell::Bool(one), Cell::Bool(other)) => one == other,
            (Cell::Text(one), Cell::Text(other)) => one == other,
            (Cell::Bytes(one), Cell::Bytes(other)) => one == other,
            _ => false,
        },
{
    match (left, right) {
        (Cell::Float(one), Cell::Float(other)) => {
            lemma_patterns(one);
            lemma_patterns(other);
        },
        _ => {},
    }
}

proof fn lemma_patterns(pattern: u64)
    ensures
        row_format::is_nan(pattern) <==> stands_for_no_number(pattern),
        row_format::is_zero(pattern) <==> stands_for_zero(pattern),
{
    let magnitude = pattern as int % 0x8000_0000_0000_0000;
    let fraction = pattern as int % 0x10_0000_0000_0000;
    let exponent = pattern as int / 0x10_0000_0000_0000 % 2048;
    assert(magnitude == exponent * 0x10_0000_0000_0000 + fraction);
}

/// Values are equal to each other in both directions, and each but a float that stands
/// for no number is equal to itself.
pub proof fn equality_is_mutual(left: Cell, right: Cell)
    ensures
        row_format::equal_cells(left, right) == row_format::equal_cells(right, left),
        row_format::equal_cells(left, left) <==> !(left matches Cell::Float(pattern)
            && stands_for_no_number(pattern)),
{
    values_are_equal_by_what_they_stand_for(left, right);
    values_are_equal_by_what_they_stand_for(right, left);
    values_are_equal_by_what_they_stand_for(left, left);
    match left {
        Cell::Float(pattern) => {
            lemma_patterns(pattern);
        },
        _ => {},
    }
}

/// The layout of rows says where the columns of a stored row lie.
pub proof fn layouts_say_where_columns_lie(table: Table, index: int)
    requires
        0 <= index < table.columns.len(),
    ensures
        ({
            let layout = row_format::layout_of(table.columns);
            &&& layout.bitmap_size == (table.columns.len() + 7) / 8
            &&& layout.offsets.len() == table.columns.len()
            &&& layout.widths.len() == table.columns.len()
            &&& layout.offsets[index] == 1 + layout.bitmap_size + declaration_laws::fixed_size(
                table.columns.take(index),
            )
            &&& layout.widths[index] == if table.columns[index].data_type == DataType::Bool {
                1int
            } else {
                8int
            }
            &&& layout.minimum_row_size == declaration_laws::smallest_row(table.columns)
        }),
{
    declaration_laws::columns_lie_without_gaps(table.columns, index);
    declaration_laws::columns_lie_without_gaps(table.columns, table.columns.len() as int);
}

/// A value is named after its kind, and has the type of its kind and no other; a null
/// has none.
pub proof fn values_are_named_after_their_kind(cell: Cell, data_type: DataType)
    ensures
        match cell {
            Cell::Null => cell.kind_name() == "null" && !cell.has_type(data_type),
            Cell::Int(_) => cell.kind_name() == "int" && cell.has_type(data_type) == (data_type
                == DataType::Int),
            Cell::Float(_) => cell.kind_name() == "float" && cell.has_type(data_type) == (data_type
                == DataType::Float),
            Cell::Bool(_) => cell.kind_name() == "bool" && cell.has_type(data_type) == (data_type
                == DataType::Bool),
            Cell::Text(_) => cell.kind_name() == "text" && cell.has_type(data_type) == (data_type
                == DataType::Text),
            Cell::Bytes(_) => cell.kind_name() == "bytes" && cell.has_type(data_type) == (data_type
                == DataType::Bytes),
        },
        cell.payload().len() == stored_row_laws::variable_size(cell),
{
}

/// What is said of bytes that are no table is the first thing that is wrong with them:
/// that they end too early, the mark at their start, the version, the number of
/// columns.
pub proof fn table_faults_are_true(bytes: Seq<u8>)
    ensures
        ({
            let result = table_format::decode_table(bytes);
            let corrupt = |reason: &'static str| SchemaFault::CorruptEncoding(reason);
            let marked = bytes.take(4) == seq![78u8, 83, 67, 72];
            let version = codec::u16_at(bytes, 4);
            let count = codec::u16_at(bytes, 6);
            &&& bytes.len() < 4 || (marked && bytes.len() < 6) || (marked && version == 1
                && bytes.len() < 8) ==> result == Err::<Table, SchemaFault>(
                corrupt("truncated schema encoding"),
            )
            &&& bytes.len() >= 4 && !marked ==> result == Err::<Table, SchemaFault>(
                corrupt("invalid schema magic"),
            )
            &&& bytes.len() >= 6 && marked && version != 1 ==> result == Err::<Table, SchemaFault>(
                corrupt("unsupported schema format version"),
            )
            &&& bytes.len() >= 8 && marked && version == 1 && (count == 0 || count > 1024)
                ==> result == Err::<Table, SchemaFault>(corrupt("invalid schema column count"))
        }),
{
    if bytes.len() >= 4 {
        assert(bytes.subrange(0, 4) =~= bytes.take(4));
        assert(table_format::SCHEMA_MAGIC@ =~= seq![78u8, 83, 67, 72]);
    }
}

/// What is said of a text or a column that cannot be read: that the bytes end in it,
/// that a name is not UTF-8, that a type is not known, that a flag is not known. Else
/// it is read, and what follows starts behind it.
pub proof fn column_faults_are_true(bytes: Seq<u8>, position: int)
    requires
        0 <= position <= bytes.len(),
    ensures
        ({
            let text = table_format::parse_string(bytes, position);
            let column = table_format::parse_column(bytes, position);
            let length = codec::u16_at(bytes, position) as int;
            let end = position + 2 + length;
            let name = bytes.subrange(position + 2, end);
            let short = position + 2 > bytes.len() || end > bytes.len();
            let readable = vstd::utf8::valid_utf8(name);
            &&& short ==> text == Err::<(Seq<char>, int), &'static str>("truncated schema encoding")
            &&& !short && !readable ==> text == Err::<(Seq<char>, int), &'static str>(
                "schema identifier is not UTF-8",
            )
            &&& !short && readable ==> text == Ok::<(Seq<char>, int), &'static str>(
                (vstd::utf8::decode_utf8(name), end),
            )
            &&& text matches Err(reason) ==> column == Err::<(Column, int), &'static str>(reason)
            &&& text is Ok ==> {
                let known = end < bytes.len() && 1 <= bytes[end] <= 5;
                &&& end + 1 > bytes.len() || (known && end + 2 > bytes.len()) ==> column == Err::<
                    (Column, int),
                    &'static str,
                >("truncated schema encoding")
                &&& end + 1 <= bytes.len() && !known ==> column == Err::<
                    (Column, int),
                    &'static str,
                >("unknown column type tag")
                &&& known && end + 2 <= bytes.len() && bytes[end + 1] > 3 ==> column == Err::<
                    (Column, int),
                    &'static str,
                >("unknown column flags")
                &&& known && end + 2 <= bytes.len() && bytes[end + 1] <= 3 ==> column is Ok
                    && column->Ok_0.1 == end + 2
            }
        }),
{
}

/// The columns behind the name are read one after the other; the first that cannot be
/// read decides, and bytes behind the last one are refused.
pub proof fn columns_are_read_in_order(bytes: Seq<u8>, count: int)
    requires
        bytes.len() >= 8,
        bytes.take(4) == seq![78u8, 83, 67, 72],
        codec::u16_at(bytes, 4) == 1,
        1 <= codec::u16_at(bytes, 6) <= 1024,
        table_format::parse_string(bytes, 8) is Ok,
        0 <= count <= codec::u16_at(bytes, 6),
        table_format::parse_columns(
            bytes,
            table_format::parse_string(bytes, 8)->Ok_0.1,
            count,
        ) is Ok,
    ensures
        ({
            let all = codec::u16_at(bytes, 6) as int;
            let start = table_format::parse_string(bytes, 8)->Ok_0.1;
            let end = table_format::parse_columns(bytes, start, count)->Ok_0.1;
            let result = table_format::decode_table(bytes);
            &&& count == 0 ==> end == start
            &&& count < all ==> match table_format::parse_column(bytes, end) {
                Err(reason) => result == Err::<Table, SchemaFault>(
                    SchemaFault::CorruptEncoding(reason),
                ),
                Ok((_, next)) => {
                    &&& table_format::parse_columns(bytes, start, count + 1) is Ok
                    &&& table_format::parse_columns(bytes, start, count + 1)->Ok_0.1 == next
                },
            }
            &&& count == all && end != bytes.len() ==> result == Err::<Table, SchemaFault>(
                SchemaFault::CorruptEncoding("trailing bytes after schema declaration"),
            )
        }),
{
    let all = codec::u16_at(bytes, 6) as int;
    let start = table_format::parse_string(bytes, 8)->Ok_0.1;
    assert(bytes.subrange(0, 4) =~= bytes.take(4));
    assert(table_format::SCHEMA_MAGIC@ =~= seq![78u8, 83, 67, 72]);
    if count < all && table_format::parse_columns(bytes, start, count + 1) is Err {
        lemma_columns_fault_stays(bytes, start, count + 1, all);
    }
}

/// Where the first columns cannot be read, all of them cannot.
proof fn lemma_columns_fault_stays(bytes: Seq<u8>, start: int, shorter: int, longer: int)
    requires
        shorter <= longer,
        table_format::parse_columns(bytes, start, shorter) is Err,
    ensures
        table_format::parse_columns(bytes, start, longer) == table_format::parse_columns(
            bytes,
            start,
            shorter,
        ),
    decreases longer,
{
    if shorter < longer {
        lemma_columns_fault_stays(bytes, start, shorter, longer - 1);
    }
}

} // verus!
