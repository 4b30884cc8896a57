//! What holds of every table declaration.

use vstd::prelude::*;

use crate::codec;

use super::table;
use super::table_format::{self, Column, SchemaFault, Table, MAX_COLUMNS, MAX_IDENTIFIER_BYTES};

verus! {

/// A valid table is decoded from its encoding unchanged.
pub proof fn encoded_tables_decode(table: Table)
    requires
        table.valid(),
    ensures
        table_format::decode_table(table.encoded()) == Ok::<Table, SchemaFault>(table),
{
    let count = table.columns.len() as int;
    table::lemma_identifier_length(table.name);
    assert forall|i: int| 0 <= i < count implies vstd::utf8::encode_utf8(
        (#[trigger] table.columns[i]).name,
    ).len() <= u16::MAX by {
        table::lemma_column_name(table.columns, count, i);
        table::lemma_identifier_length(table.columns[i].name);
    }
    encoded_declarations_decode(table);
}

/// A declaration with few enough columns, and with names that are not too long for
/// their length to be stored, is decoded unchanged where it is valid, and refused for
/// its own fault where it is not.
pub proof fn encoded_declarations_decode(table: Table)
    requires
        1 <= table.columns.len() <= 1024,
        vstd::utf8::encode_utf8(table.name).len() <= 65535,
        forall|i: int|
            0 <= i < table.columns.len() ==> vstd::utf8::encode_utf8(
                (#[trigger] table.columns[i]).name,
            ).len() <= 65535,
    ensures
        table_format::decode_table(table.encoded()) == match table.fault() {
            Some(fault) => Err::<Table, SchemaFault>(fault),
            None => Ok(table),
        },
{
    let bytes = table.encoded();
    let count = table.columns.len() as int;
    let name = table_format::string_bytes(table.name);
    let columns = table_format::columns_bytes(table.columns);
    assert(bytes.subrange(0, 4) =~= table_format::SCHEMA_MAGIC@);
    codec::lemma_u16_round_trip(table_format::SCHEMA_FORMAT_VERSION);
    codec::lemma_u16_round_trip(count as u16);
    assert(codec::u16_at(bytes, 4) == table_format::SCHEMA_FORMAT_VERSION) by {
        let version = codec::u16_bytes(table_format::SCHEMA_FORMAT_VERSION);
        assert(bytes[4] == version[0] && bytes[5] == version[1]);
    }
    assert(codec::u16_at(bytes, 6) == count) by {
        let stored = codec::u16_bytes(count as u16);
        assert(bytes[6] == stored[0] && bytes[7] == stored[1]);
    }
    assert(bytes.subrange(8, 8 + name.len() as int) =~= name);
    lemma_string_reads_back(bytes, 8, table.name);
    let start = 8 + name.len() as int;
    assert(table.columns.take(count) =~= table.columns);
    assert(bytes.subrange(start, start + columns.len()) =~= columns);
    lemma_columns_read_back(bytes, start, table.columns, count);
}

/// Bytes that decode to a valid table are the encoding of that table.
pub proof fn decoded_tables_encode(bytes: Seq<u8>)
    requires
        table_format::decode_table(bytes) is Ok,
    ensures
        table_format::decode_table(bytes)->Ok_0.encoded() == bytes,
{
    let table = table_format::decode_table(bytes)->Ok_0;
    let count = codec::u16_at(bytes, 6) as int;
    let end = table_format::parse_string(bytes, 8)->Ok_0.1;
    lemma_string_reads_forward(bytes, 8);
    lemma_columns_read_forward(bytes, end, count);
    codec::lemma_u16_bytes_of_read(bytes.subrange(4, 6));
    codec::lemma_u16_bytes_of_read(bytes.subrange(6, 8));
    assert(codec::u16_at(bytes.subrange(4, 6), 0) == codec::u16_at(bytes, 4));
    assert(codec::u16_at(bytes.subrange(6, 8), 0) == codec::u16_at(bytes, 6));
    assert(bytes =~= bytes.subrange(0, 4) + bytes.subrange(4, 6) + bytes.subrange(6, 8)
        + bytes.subrange(8, end) + bytes.subrange(end, bytes.len() as int));
    assert(table.encoded() =~= bytes);
}

/// A valid table has between one and `MAX_COLUMNS` columns, whose names are
/// distinct identifiers.
pub proof fn valid_tables_have_distinct_names(table: Table)
    requires
        table.valid(),
    ensures
        1 <= table.columns.len() <= MAX_COLUMNS,
        forall|i: int|
            0 <= i < table.columns.len() ==> table_format::is_identifier(
                (#[trigger] table.columns[i]).name,
            ),
        forall|i: int, j: int|
            0 <= i < j < table.columns.len() ==> (#[trigger] table.columns[i]).name != (
            #[trigger] table.columns[j]).name,
{
    let columns = table.columns;
    let count = columns.len() as int;
    assert forall|i: int| 0 <= i < count implies table_format::is_identifier(
        (#[trigger] columns[i]).name,
    ) by {
        table::lemma_column_name(columns, count, i);
    }
    lemma_distinct_names(columns, count);
}

/// Exactly one column of a valid table is the primary key, and it is not nullable.
pub proof fn valid_tables_have_one_primary_key(table: Table)
    requires
        table.valid(),
    ensures
        exists|key: int| #[trigger] is_only_primary_key(table.columns, key),
{
    let columns = table.columns;
    let count = columns.len() as int;
    table::lemma_one_primary_key(columns, count);
    let key = choose|key: int| 0 <= key < count && (#[trigger] columns[key]).primary_key;
    assert(is_only_primary_key(columns, key));
}

/// Whether column `key` is the primary key, required, and the only one.
pub open spec fn is_only_primary_key(columns: Seq<Column>, key: int) -> bool {
    &&& 0 <= key < columns.len()
    &&& columns[key].primary_key
    &&& !columns[key].nullable
    &&& forall|j: int| 0 <= j < columns.len() && (#[trigger] columns[j]).primary_key ==> j == key
}

/// The encoding of a valid table has a bounded length.
pub proof fn encoded_tables_are_bounded(table: Table)
    requires
        table.valid(),
    ensures
        table.encoded().len() <= 10 + MAX_IDENTIFIER_BYTES + MAX_COLUMNS * (MAX_IDENTIFIER_BYTES
            + 4),
{
    let count = table.columns.len() as int;
    table::lemma_identifier_length(table.name);
    lemma_columns_length(table.columns, count);
    assert(table.columns.take(count) =~= table.columns);
    assert(count * (MAX_IDENTIFIER_BYTES + 4) <= MAX_COLUMNS * (MAX_IDENTIFIER_BYTES + 4))
        by (nonlinear_arith)
        requires
            0 <= count <= MAX_COLUMNS,
    ;
}

proof fn lemma_columns_length(columns: Seq<Column>, count: int)
    requires
        0 <= count <= columns.len(),
        table_format::columns_fault(columns, columns.len() as int) is None,
    ensures
        table_format::columns_bytes(columns.take(count)).len() <= count * (MAX_IDENTIFIER_BYTES
            + 4),
    decreases count,
{
    if count > 0 {
        lemma_columns_length(columns, count - 1);
        table::lemma_column_name(columns, columns.len() as int, count - 1);
        table::lemma_identifier_length(columns[count - 1].name);
        assert(columns.take(count).drop_last() =~= columns.take(count - 1));
        assert(count * (MAX_IDENTIFIER_BYTES + 4) == (count - 1) * (MAX_IDENTIFIER_BYTES + 4) + (
        MAX_IDENTIFIER_BYTES + 4)) by (nonlinear_arith);
    } else {
        assert(columns.take(0) =~= Seq::empty());
    }
}

/// Columns without fault have distinct names.
proof fn lemma_distinct_names(columns: Seq<Column>, count: int)
    requires
        0 <= count <= columns.len(),
        table_format::columns_fault(columns, count) is None,
    ensures
        forall|i: int, j: int|
            0 <= i < j < count ==> (#[trigger] columns[i]).name != (#[trigger] columns[j]).name,
    decreases count,
{
    if count > 0 {
        lemma_distinct_names(columns, count - 1);
    }
}

/// A string is read back where it was written.
proof fn lemma_string_reads_back(bytes: Seq<u8>, position: int, text: Seq<char>)
    requires
        vstd::utf8::encode_utf8(text).len() <= u16::MAX,
        0 <= position,
        position + table_format::string_bytes(text).len() <= bytes.len(),
        bytes.subrange(position, position + table_format::string_bytes(text).len())
            == table_format::string_bytes(text),
    ensures
        table_format::parse_string(bytes, position) == Ok::<(Seq<char>, int), &'static str>(
            (text, position + table_format::string_bytes(text).len()),
        ),
{
    let encoded = vstd::utf8::encode_utf8(text);
    let stored = table_format::string_bytes(text);
    let length = codec::u16_bytes(encoded.len() as u16);
    codec::lemma_u16_round_trip(encoded.len() as u16);
    let written = bytes.subrange(position, position + stored.len());
    assert(bytes[position] == written[0] && bytes[position + 1] == written[1]);
    assert(stored[0] == length[0] && stored[1] == length[1]);
    assert(codec::u16_at(bytes, position) == encoded.len());
    assert(bytes.subrange(position + 2, position + 2 + encoded.len()) =~= encoded) by {
        assert(written.subrange(2, stored.len() as int) =~= encoded);
        assert(bytes.subrange(position + 2, position + 2 + encoded.len()) =~= written.subrange(
            2,
            stored.len() as int,
        ));
    }
    vstd::utf8::encode_utf8_valid_utf8(text);
    vstd::utf8::encode_utf8_decode_utf8(text);
}

/// Columns are read back where they were written.
proof fn lemma_columns_read_back(bytes: Seq<u8>, position: int, columns: Seq<Column>, count: int)
    requires
        0 <= count <= columns.len(),
        forall|i: int|
            0 <= i < columns.len() ==> vstd::utf8::encode_utf8((#[trigger] columns[i]).name).len()
                <= u16::MAX,
        0 <= position,
        position + table_format::columns_bytes(columns.take(count)).len() <= bytes.len(),
        bytes.subrange(
            position,
            position + table_format::columns_bytes(columns.take(count)).len(),
        ) == table_format::columns_bytes(columns.take(count)),
    ensures
        table_format::parse_columns(bytes, position, count) == Ok::<
            (Seq<Column>, int),
            &'static str,
        >((columns.take(count), position + table_format::columns_bytes(columns.take(count)).len())),
    decreases count,
{
    if count == 0 {
        assert(columns.take(0) =~= Seq::empty());
    } else {
        let column = columns[count - 1];
        let all = table_format::columns_bytes(columns.take(count));
        let before = table_format::columns_bytes(columns.take(count - 1));
        let own = table_format::column_bytes(column);
        let name = table_format::string_bytes(column.name);
        let written = bytes.subrange(position, position + all.len());
        assert(columns.take(count).drop_last() =~= columns.take(count - 1));
        assert(columns.take(count - 1).push(column) =~= columns.take(count));
        assert(all == before + own);
        assert(bytes.subrange(position, position + before.len()) =~= before) by {
            assert(written.subrange(0, before.len() as int) =~= before);
            assert(bytes.subrange(position, position + before.len()) =~= written.subrange(
                0,
                before.len() as int,
            ));
        }
        lemma_columns_read_back(bytes, position, columns, count - 1);
        let start = position + before.len() as int;
        assert(vstd::utf8::encode_utf8(columns[count - 1].name).len() <= u16::MAX);
        assert(bytes.subrange(start, start + name.len()) =~= name) by {
            assert(written.subrange(before.len() as int, (before.len() + name.len()) as int)
                =~= name);
            assert(bytes.subrange(start, start + name.len()) =~= written.subrange(
                before.len() as int,
                (before.len() + name.len()) as int,
            ));
        }
        lemma_string_reads_back(bytes, start, column.name);
        let end = start + name.len();
        assert(bytes[end] == written[before.len() as int + name.len()]);
        assert(bytes[end + 1] == written[before.len() as int + name.len() + 1]);
        assert(own[name.len() as int] == table_format::type_tag(column.data_type));
        assert(own[name.len() as int + 1] == table_format::column_flags(column));
    }
}

/// A string that was read is written back the same.
proof fn lemma_string_reads_forward(bytes: Seq<u8>, position: int)
    requires
        0 <= position,
        table_format::parse_string(bytes, position) is Ok,
    ensures
        ({
            let (text, end) = table_format::parse_string(bytes, position)->Ok_0;
            &&& position + 2 <= end <= bytes.len()
            &&& table_format::string_bytes(text) == bytes.subrange(position, end)
        }),
{
    let (text, end) = table_format::parse_string(bytes, position)->Ok_0;
    let payload = bytes.subrange(position + 2, end);
    vstd::utf8::decode_utf8_encode_utf8(payload);
    codec::lemma_u16_bytes_of_read(bytes.subrange(position, position + 2));
    assert(codec::u16_at(bytes.subrange(position, position + 2), 0) == codec::u16_at(
        bytes,
        position,
    ));
    assert(table_format::string_bytes(text) =~= bytes.subrange(position, end));
}

/// Columns that were read are written back the same.
proof fn lemma_columns_read_forward(bytes: Seq<u8>, position: int, count: int)
    requires
        0 <= position <= bytes.len(),
        0 <= count,
        table_format::parse_columns(bytes, position, count) is Ok,
    ensures
        ({
            let (columns, end) = table_format::parse_columns(bytes, position, count)->Ok_0;
            &&& position <= end <= bytes.len()
            &&& columns.len() == count
            &&& table_format::columns_bytes(columns) == bytes.subrange(position, end)
        }),
    decreases count,
{
    if count > 0 {
        lemma_columns_read_forward(bytes, position, count - 1);
        let (before, middle) = table_format::parse_columns(bytes, position, count - 1)->Ok_0;
        let (columns, end) = table_format::parse_columns(bytes, position, count)->Ok_0;
        let column = columns.last();
        lemma_string_reads_forward(bytes, middle);
        assert(columns.drop_last() =~= before);
        assert(table_format::column_bytes(column) =~= bytes.subrange(middle, end));
        assert(table_format::columns_bytes(columns) =~= bytes.subrange(position, end));
    }
}

} // verus!
