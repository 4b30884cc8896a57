//! Declarations of tables and columns.

use vstd::prelude::*;

use crate::codec;
use crate::message::{self, Message};
use crate::text;

use super::cursor::{self, Cursor};
use super::row::{self, RowError, RowLayout, Value, ValueRef};
use super::row_format;
use super::table_format::{
    self, FLAG_NULLABLE, FLAG_PRIMARY_KEY, MAX_COLUMNS, MAX_IDENTIFIER_BYTES, MAX_ROW_SIZE,
    SCHEMA_FORMAT_VERSION, SCHEMA_MAGIC,
};

verus! {

#[derive(Clone, Copy, Debug, PartialEq, Eq, Structural)]
pub enum DataType {
    Int,
    Float,
    Bool,
    Text,
    Bytes,
}

impl DataType {
    pub open spec fn spec_name(self) -> &'static str {
        match self {
            DataType::Int => "int",
            DataType::Float => "float",
            DataType::Bool => "bool",
            DataType::Text => "text",
            DataType::Bytes => "bytes",
        }
    }

    pub fn name(self) -> (name: &'static str)
        ensures
            name == self.spec_name(),
    {
        match self {
            Self::Int => "int",
            Self::Float => "float",
            Self::Bool => "bool",
            Self::Text => "text",
            Self::Bytes => "bytes",
        }
    }

    fn tag(self) -> (tag: u8)
        ensures
            tag == table_format::type_tag(self),
    {
        match self {
            Self::Int => 1,
            Self::Float => 2,
            Self::Bool => 3,
            Self::Text => 4,
            Self::Bytes => 5,
        }
    }

    fn from_tag(tag: u8) -> (result: Result<Self, SchemaError>)
        ensures
            match table_format::type_of_tag(tag) {
                Some(data_type) => result == Ok::<_, SchemaError>(data_type),
                None => result == Err::<Self, _>(
                    SchemaError::CorruptEncoding("unknown column type tag"),
                ),
            },
    {
        match tag {
            1 => Ok(Self::Int),
            2 => Ok(Self::Float),
            3 => Ok(Self::Bool),
            4 => Ok(Self::Text),
            5 => Ok(Self::Bytes),
            _ => Err(SchemaError::CorruptEncoding("unknown column type tag")),
        }
    }
}

/// Declaration of one column.
#[derive(Clone, Debug, PartialEq, Eq)]
pub struct ColumnSchema {
    name: String,
    data_type: DataType,
    nullable: bool,
    primary_key: bool,
}

impl View for ColumnSchema {
    type V = table_format::Column;

    closed spec fn view(&self) -> table_format::Column {
        table_format::Column {
            name: self.name@,
            data_type: self.data_type,
            nullable: self.nullable,
            primary_key: self.primary_key,
        }
    }
}

impl ColumnSchema {
    pub fn required(name: &str, data_type: DataType) -> (column: Self)
        ensures
            column@ == (table_format::Column {
                name: name@,
                data_type,
                nullable: false,
                primary_key: false,
            }),
    {
        Self { name: name.to_owned(), data_type, nullable: false, primary_key: false }
    }

    pub fn nullable(name: &str, data_type: DataType) -> (column: Self)
        ensures
            column@ == (table_format::Column {
                name: name@,
                data_type,
                nullable: true,
                primary_key: false,
            }),
    {
        Self { name: name.to_owned(), data_type, nullable: true, primary_key: false }
    }

    pub fn primary_key(name: &str, data_type: DataType) -> (column: Self)
        ensures
            column@ == (table_format::Column {
                name: name@,
                data_type,
                nullable: false,
                primary_key: true,
            }),
    {
        Self { name: name.to_owned(), data_type, nullable: false, primary_key: true }
    }

    pub fn name(&self) -> (name: &str)
        ensures
            name@ == self@.name,
    {
        self.name.as_str()
    }

    pub fn data_type(&self) -> (data_type: DataType)
        ensures
            data_type == self@.data_type,
    {
        self.data_type
    }

    pub fn is_nullable(&self) -> (nullable: bool)
        ensures
            nullable == self@.nullable,
    {
        self.nullable
    }

    pub fn is_primary_key(&self) -> (primary_key: bool)
        ensures
            primary_key == self@.primary_key,
    {
        self.primary_key
    }
}

#[derive(Clone, Debug, PartialEq, Eq)]
pub enum SchemaError {
    InvalidIdentifier { kind: &'static str, identifier: String },
    NoColumns,
    TooManyColumns { count: usize, maximum: usize },
    DuplicateColumn(String),
    MissingPrimaryKey,
    MultiplePrimaryKeys,
    NullablePrimaryKey(String),
    SchemaTooWide { minimum_row_size: usize, maximum: usize },
    CorruptEncoding(&'static str),
}

impl View for SchemaError {
    type V = table_format::SchemaFault;

    open spec fn view(&self) -> table_format::SchemaFault {
        match *self {
            SchemaError::InvalidIdentifier { kind, identifier } => {
                table_format::SchemaFault::InvalidIdentifier { kind, identifier: identifier@ }
            },
            SchemaError::NoColumns => table_format::SchemaFault::NoColumns,
            SchemaError::TooManyColumns { count, maximum } => {
                table_format::SchemaFault::TooManyColumns { count, maximum }
            },
            SchemaError::DuplicateColumn(name) => table_format::SchemaFault::DuplicateColumn(name@),
            SchemaError::MissingPrimaryKey => table_format::SchemaFault::MissingPrimaryKey,
            SchemaError::MultiplePrimaryKeys => table_format::SchemaFault::MultiplePrimaryKeys,
            SchemaError::NullablePrimaryKey(name) => {
                table_format::SchemaFault::NullablePrimaryKey(name@)
            },
            SchemaError::SchemaTooWide { minimum_row_size, maximum } => {
                table_format::SchemaFault::SchemaTooWide { minimum_row_size, maximum }
            },
            SchemaError::CorruptEncoding(reason) => {
                table_format::SchemaFault::CorruptEncoding(reason)
            },
        }
    }
}

fn is_identifier_start(byte: u8) -> (result: bool)
    ensures
        byte < 128 ==> result == (byte as char == '_' || table_format::is_letter(byte as char)),
        byte >= 128 ==> !result,
{
    byte == 95 || (97 <= byte && byte <= 122) || (65 <= byte && byte <= 90)
}

/// Whether `text` is a letter or underscore, followed by letters, digits and
/// underscores, within the length that identifiers may have.
fn is_identifier(text: &str) -> (result: bool)
    ensures
        result == table_format::is_identifier(text@),
{
    if !text.is_ascii() {
        return false;
    }
    let bytes = text.as_bytes();
    proof {
        vstd::utf8::is_ascii_chars_encode_utf8(text@);
    }
    if bytes.len() == 0 || bytes.len() > MAX_IDENTIFIER_BYTES {
        return false;
    }
    if !is_identifier_start(bytes[0]) {
        return false;
    }
    let mut i: usize = 1;
    while i < bytes.len()
        invariant
            1 <= i <= bytes@.len(),
            vstd::utf8::is_ascii_chars(text@),
            bytes@ =~= Seq::new(text@.len(), |j: int| text@[j] as u8),
            forall|j: int|
                1 <= j < i ==> {
                    ||| #[trigger] text@[j] == '_'
                    ||| table_format::is_letter(text@[j])
                    ||| table_format::is_digit(text@[j])
                },
        decreases bytes@.len() - i,
    {
        let byte: u8 = bytes[i];
        if !(is_identifier_start(byte) || (48 <= byte && byte <= 57)) {
            return false;
        }
        i += 1;
    }
    true
}

fn validate_identifier(kind: &'static str, identifier: &str) -> (result: Result<(), SchemaError>)
    ensures
        match result {
            Ok(()) => table_format::is_identifier(identifier@),
            Err(error) => !table_format::is_identifier(identifier@) && error@ == (
            table_format::SchemaFault::InvalidIdentifier { kind, identifier: identifier@ }),
        },
{
    if is_identifier(identifier) {
        Ok(())
    } else {
        Err(SchemaError::InvalidIdentifier { kind, identifier: identifier.to_owned() })
    }
}

/// An immutable table declaration with the row layout that follows from it.
#[derive(Clone, Debug, PartialEq, Eq)]
pub struct TableSchema {
    name: String,
    columns: Vec<ColumnSchema>,
    primary_key_index: usize,
    layout: RowLayout,
}

impl View for TableSchema {
    type V = table_format::Table;

    closed spec fn view(&self) -> table_format::Table {
        table_format::Table { name: self.name@, columns: row::declared(self.columns@) }
    }
}

impl TableSchema {
    /// A schema is valid, knows its primary key, and has the layout that follows
    /// from its columns.
    pub closed spec fn wf(&self) -> bool {
        &&& self@.valid()
        &&& self.primary_key_index < self.columns@.len()
        &&& self@.columns[self.primary_key_index as int].primary_key
        &&& self.layout@ == row_format::layout_of(self@.columns)
    }

    /// A schema declares a valid table.
    pub proof fn lemma_valid(&self)
        requires
            self.wf(),
        ensures
            self@.valid(),
    {
    }

    /// Declares a table, where the declaration is valid.
    pub fn new(name: &str, columns: Vec<ColumnSchema>) -> (result: Result<Self, SchemaError>)
        ensures
            ({
                let table = table_format::Table { name: name@, columns: row::declared(columns@) };
                match table.fault() {
                    None => result matches Ok(schema) && schema.wf() && schema@ == table,
                    Some(fault) => result matches Err(error) && error@ == fault,
                }
            }),
    {
        let ghost specs = row::declared(columns@);
        match validate_identifier("table", name) {
            Ok(()) => {},
            Err(error) => {
                return Err(error);
            },
        }
        if columns.len() == 0 {
            return Err(SchemaError::NoColumns);
        }
        if columns.len() > MAX_COLUMNS {
            return Err(SchemaError::TooManyColumns { count: columns.len(), maximum: MAX_COLUMNS });
        }
        let mut primary_key: Option<usize> = None;
        let mut index: usize = 0;
        while index < columns.len()
            invariant
                index <= columns@.len(),
                specs == row::declared(columns@),
                table_format::is_identifier(name@),
                0 < columns@.len() <= MAX_COLUMNS,
                table_format::columns_fault(specs, index as int) is None,
                match primary_key {
                    Some(key) => key < index && specs[key as int].primary_key,
                    None => !table_format::has_primary_key(specs, index as int),
                },
            decreases columns@.len() - index,
        {
            let column = &columns[index];
            let ghost fault = table_format::column_fault(specs, index as int);
            proof {
                assert(specs[index as int] == column@);
                if fault is Some {
                    assert(table_format::columns_fault(specs, index + 1) == fault);
                    lemma_columns_fault_stays(specs, index + 1, specs.len() as int);
                }
            }
            match validate_identifier("column", column.name.as_str()) {
                Ok(()) => {},
                Err(error) => {
                    return Err(error);
                },
            }
            if name_is_taken(&columns, index) {
                return Err(SchemaError::DuplicateColumn(column.name.clone()));
            }
            if column.primary_key {
                if let Some(key) = primary_key {
                    assert(specs[key as int].primary_key);
                    return Err(SchemaError::MultiplePrimaryKeys);
                }
                if column.nullable {
                    return Err(SchemaError::NullablePrimaryKey(column.name.clone()));
                }
                primary_key = Some(index);
            }
            index += 1;
        }
        let primary_key_index: usize = match primary_key {
            Some(key) => {
                assert(specs[key as int].primary_key);
                key
            },
            None => {
                return Err(SchemaError::MissingPrimaryKey);
            },
        };
        let layout = RowLayout::compile(columns.as_slice());
        if layout.minimum_row_size() > MAX_ROW_SIZE {
            return Err(
                SchemaError::SchemaTooWide {
                    minimum_row_size: layout.minimum_row_size(),
                    maximum: MAX_ROW_SIZE,
                },
            );
        }
        Ok(Self { name: name.to_owned(), columns, primary_key_index, layout })
    }

    pub fn name(&self) -> (name: &str)
        ensures
            name@ == self@.name,
    {
        self.name.as_str()
    }

    pub fn columns(&self) -> (columns: &[ColumnSchema])
        ensures
            row::declared(columns@) == self@.columns,
    {
        self.columns.as_slice()
    }

    pub fn column(&self, index: usize) -> (column: Option<&ColumnSchema>)
        ensures
            match column {
                Some(column) => index < self@.columns.len() && column@
                    == self@.columns[index as int],
                None => index >= self@.columns.len(),
            },
    {
        if index < self.columns.len() {
            Some(&self.columns[index])
        } else {
            None
        }
    }

    /// Position of the first column with this name.
    pub fn column_index(&self, name: &str) -> (index: Option<usize>)
        ensures
            match index {
                Some(index) => {
                    &&& index < self@.columns.len()
                    &&& self@.columns[index as int].name == name@
                    &&& forall|j: int|
                        0 <= j < index ==> (#[trigger] self@.columns[j]).name != name@
                },
                None => forall|j: int|
                    0 <= j < self@.columns.len() ==> (#[trigger] self@.columns[j]).name != name@,
            },
    {
        let mut index: usize = 0;
        while index < self.columns.len()
            invariant
                index <= self.columns@.len(),
                forall|j: int| 0 <= j < index ==> (#[trigger] self@.columns[j]).name != name@,
            decreases self.columns@.len() - index,
        {
            assert(self@.columns[index as int] == self.columns@[index as int]@);
            if text::same(self.columns[index].name.as_str(), name) {
                return Some(index);
            }
            index += 1;
        }
        None
    }

    pub fn primary_key_index(&self) -> (index: usize)
        requires
            self.wf(),
        ensures
            index < self@.columns.len(),
            forall|j: int|
                0 <= j < self@.columns.len() ==> ((#[trigger] self@.columns[j]).primary_key <==> j
                    == index),
    {
        proof {
            lemma_one_primary_key(self@.columns, self@.columns.len() as int);
        }
        self.primary_key_index
    }

    pub fn primary_key(&self) -> (column: &ColumnSchema)
        requires
            self.wf(),
        ensures
            column@.primary_key,
            !column@.nullable,
            self@.columns.contains(column@),
    {
        proof {
            let key = self.primary_key_index as int;
            lemma_one_primary_key(self@.columns, self@.columns.len() as int);
            assert(self@.columns[key] == self.columns@[key]@);
        }
        &self.columns[self.primary_key_index]
    }

    pub fn layout(&self) -> (layout: &RowLayout)
        requires
            self.wf(),
        ensures
            layout@ == row_format::layout_of(self@.columns),
    {
        &self.layout
    }

    /// Encodes one row.
    pub fn encode_row(&self, values: &[Value]) -> (result: Result<Vec<u8>, RowError>)
        requires
            self.wf(),
        ensures
            match row_format::encode_fault(self@.columns, row::cells(values@)) {
                None => result matches Ok(row) && row@ == row_format::encoded_row(
                    self@.columns,
                    row::cells(values@),
                ),
                Some(fault) => result matches Err(error) && error@ == fault,
            },
    {
        self.layout.encode(self.columns.as_slice(), values)
    }

    /// Decodes every column of a row.
    pub fn decode_row<'row>(&self, row: &'row [u8]) -> (result: Result<
        Vec<ValueRef<'row>>,
        RowError,
    >)
        requires
            self.wf(),
        ensures
            match row_format::row_fault(self@.columns, row@) {
                None => result matches Ok(values) && row::value_cells(values@)
                    == row_format::cells_of(self@.columns, row@),
                Some(fault) => result matches Err(error) && error@
                    == row_format::RowFault::Corrupt(fault),
            },
    {
        self.layout.decode(self.columns.as_slice(), row)
    }

    /// Decodes the listed columns of a row, in that order.
    pub fn project_row<'row>(&self, row: &'row [u8], columns: &[usize]) -> (result: Result<
        Vec<ValueRef<'row>>,
        RowError,
    >)
        requires
            self.wf(),
        ensures
            match row_format::project_fault(self@.columns, row@, columns@) {
                None => result matches Ok(values) && row::value_cells(values@)
                    == row_format::projected_cells(self@.columns, row@, columns@),
                Some(fault) => result matches Err(error) && error@ == fault,
            },
    {
        self.layout.project(self.columns.as_slice(), row, columns)
    }

    /// Decodes the primary key of a row.
    pub fn primary_key_value<'row>(&self, row: &'row [u8]) -> (result: Result<
        ValueRef<'row>,
        RowError,
    >)
        requires
            self.wf(),
        ensures
            match row_format::row_fault(self@.columns, row@) {
                None => result matches Ok(value) && forall|key: int|
                    0 <= key < self@.columns.len() && (#[trigger] self@.columns[key]).primary_key
                        ==> value@ == row_format::cell_at(self@.columns, row@, key),
                Some(fault) => result matches Err(error) && error@
                    == row_format::RowFault::Corrupt(fault),
            },
    {
        proof {
            lemma_one_primary_key(self@.columns, self@.columns.len() as int);
        }
        self.layout.decode_column(self.columns.as_slice(), row, self.primary_key_index)
    }
}

impl TableSchema {
    /// Encodes the declaration; the row layout is not part of it.
    pub fn encode(&self) -> (bytes: Vec<u8>)
        requires
            self.wf(),
        ensures
            bytes@ == self@.encoded(),
    {
        let ghost specs = self@.columns;
        let mut bytes: Vec<u8> = Vec::new();
        codec::append(&mut bytes, &SCHEMA_MAGIC);
        codec::append(&mut bytes, &codec::encode_u16(SCHEMA_FORMAT_VERSION));
        codec::append(&mut bytes, &codec::encode_u16(self.columns.len() as u16));
        proof {
            lemma_identifier_length(self.name@);
        }
        cursor::write_string(&mut bytes, self.name.as_str());
        let ghost head = bytes@;
        let mut index: usize = 0;
        assert(specs.take(0) =~= Seq::empty());
        while index < self.columns.len()
            invariant
                index <= self.columns@.len(),
                specs == row::declared(self.columns@),
                table_format::columns_fault(specs, specs.len() as int) is None,
                bytes@ == head + table_format::columns_bytes(specs.take(index as int)),
            decreases self.columns@.len() - index,
        {
            let column = &self.columns[index];
            proof {
                lemma_column_name(specs, specs.len() as int, index as int);
                lemma_identifier_length(column.name@);
                assert(specs[index as int] == column@);
                assert(specs.take(index + 1).drop_last() =~= specs.take(index as int));
                assert(specs.take(index + 1).last() == column@);
            }
            let ghost before = bytes@;
            cursor::write_string(&mut bytes, column.name.as_str());
            bytes.push(column.data_type.tag());
            let mut flags: u8 = 0;
            if column.nullable {
                flags += FLAG_NULLABLE;
            }
            if column.primary_key {
                flags += FLAG_PRIMARY_KEY;
            }
            bytes.push(flags);
            assert(bytes@ =~= before + table_format::column_bytes(column@));
            assert(bytes@ =~= head + table_format::columns_bytes(specs.take(index + 1)));
            index += 1;
        }
        assert(specs.take(index as int) =~= specs);
        assert(bytes@ =~= self@.encoded());
        bytes
    }

    /// Decodes a declaration and derives its row layout anew.
    pub fn decode(bytes: &[u8]) -> (result: Result<Self, SchemaError>)
        ensures
            match table_format::decode_table(bytes@) {
                Ok(table) => result matches Ok(schema) && schema.wf() && schema@ == table,
                Err(fault) => result matches Err(error) && error@ == fault,
            },
    {
        let mut cursor = Cursor::new(bytes);
        match cursor.take(4) {
            Ok(magic) => {
                if !codec::equal(magic, &SCHEMA_MAGIC) {
                    return Err(SchemaError::CorruptEncoding("invalid schema magic"));
                }
            },
            Err(error) => {
                return Err(error);
            },
        }
        match cursor.read_u16() {
            Ok(version) => {
                if version != SCHEMA_FORMAT_VERSION {
                    return Err(SchemaError::CorruptEncoding("unsupported schema format version"));
                }
            },
            Err(error) => {
                return Err(error);
            },
        }
        let count: usize = match cursor.read_u16() {
            Ok(count) => count as usize,
            Err(error) => {
                return Err(error);
            },
        };
        if count == 0 || count > MAX_COLUMNS {
            return Err(SchemaError::CorruptEncoding("invalid schema column count"));
        }
        let name = match cursor.read_string() {
            Ok(name) => name,
            Err(error) => {
                return Err(error);
            },
        };
        let columns = match decode_columns(&mut cursor, count) {
            Ok(columns) => columns,
            Err(error) => {
                return Err(error);
            },
        };
        if !cursor.is_empty() {
            return Err(SchemaError::CorruptEncoding("trailing bytes after schema declaration"));
        }
        Self::new(name, columns)
    }
}

/// Reads `count` column declarations.
fn decode_columns(cursor: &mut Cursor<'_>, count: usize) -> (result: Result<
    Vec<ColumnSchema>,
    SchemaError,
>)
    requires
        old(cursor).wf(),
    ensures
        final(cursor).wf(),
        final(cursor).bytes@ == old(cursor).bytes@,
        match table_format::parse_columns(
            old(cursor).bytes@,
            old(cursor).position as int,
            count as int,
        ) {
            Ok((columns, end)) => {
                &&& result matches Ok(decoded)
                &&& row::declared(decoded@) == columns
                &&& final(cursor).position == end
            },
            Err(reason) => {
                &&& result matches Err(error)
                &&& error@ == table_format::SchemaFault::CorruptEncoding(reason)
            },
        },
{
    let ghost start = cursor.position as int;
    let mut columns: Vec<ColumnSchema> = Vec::new();
    let mut done: usize = 0;
    assert(row::declared(columns@) =~= Seq::empty());
    while done < count
        invariant
            done <= count,
            cursor.wf(),
            cursor.bytes@ == old(cursor).bytes@,
            start == old(cursor).position,
            table_format::parse_columns(cursor.bytes@, start, done as int) == Ok::<
                (Seq<table_format::Column>, int),
                &'static str,
            >((row::declared(columns@), cursor.position as int)),
        decreases count - done,
    {
        proof {
            let next = table_format::parse_columns(cursor.bytes@, start, done + 1);
            if next is Err {
                lemma_parse_fault_stays(cursor.bytes@, start, done + 1, count as int);
            }
        }
        let column = match decode_column(cursor) {
            Ok(column) => column,
            Err(error) => {
                return Err(error);
            },
        };
        let ghost before = row::declared(columns@);
        columns.push(column);
        assert(row::declared(columns@) =~= before.push(column@));
        done += 1;
    }
    Ok(columns)
}

/// Reads one column declaration.
fn decode_column(cursor: &mut Cursor<'_>) -> (result: Result<ColumnSchema, SchemaError>)
    requires
        old(cursor).wf(),
    ensures
        final(cursor).wf(),
        final(cursor).bytes@ == old(cursor).bytes@,
        match table_format::parse_column(old(cursor).bytes@, old(cursor).position as int) {
            Ok((column, end)) => {
                &&& result matches Ok(decoded)
                &&& decoded@ == column
                &&& final(cursor).position == end
            },
            Err(reason) => {
                &&& result matches Err(error)
                &&& error@ == table_format::SchemaFault::CorruptEncoding(reason)
            },
        },
{
    let name = match cursor.read_string() {
        Ok(name) => name,
        Err(error) => {
            return Err(error);
        },
    };
    let tag: u8 = match cursor.read_u8() {
        Ok(tag) => tag,
        Err(error) => {
            return Err(error);
        },
    };
    let data_type = match DataType::from_tag(tag) {
        Ok(data_type) => data_type,
        Err(error) => {
            return Err(error);
        },
    };
    let flags: u8 = match cursor.read_u8() {
        Ok(flags) => flags,
        Err(error) => {
            return Err(error);
        },
    };
    if flags > FLAG_NULLABLE + FLAG_PRIMARY_KEY {
        return Err(SchemaError::CorruptEncoding("unknown column flags"));
    }
    Ok(
        ColumnSchema {
            name: name.to_owned(),
            data_type,
            nullable: flags % 2 == FLAG_NULLABLE,
            primary_key: flags >= FLAG_PRIMARY_KEY,
        },
    )
}

/// An identifier takes up one byte per character.
pub proof fn lemma_identifier_length(text: Seq<char>)
    requires
        table_format::is_identifier(text),
    ensures
        vstd::utf8::encode_utf8(text).len() == text.len(),
{
    assert(vstd::utf8::is_ascii_chars(text)) by {
        assert forall|i: int| 0 <= i < text.len() implies (0 <= #[trigger] text[i] < 128) by {
            if i > 0 {
                assert(text[i] == '_' || table_format::is_letter(text[i])
                    || table_format::is_digit(text[i]));
            }
        }
    }
    vstd::utf8::is_ascii_chars_encode_utf8(text);
}

/// Columns without fault have identifiers for names.
pub proof fn lemma_column_name(columns: Seq<table_format::Column>, count: int, index: int)
    requires
        0 <= index < count <= columns.len(),
        table_format::columns_fault(columns, count) is None,
    ensures
        table_format::is_identifier(columns[index].name),
    decreases count,
{
    if index < count - 1 {
        lemma_column_name(columns, count - 1, index);
    }
}

/// Where the first columns cannot be read, more columns cannot either.
proof fn lemma_parse_fault_stays(bytes: Seq<u8>, position: int, shorter: int, longer: int)
    requires
        shorter <= longer,
        table_format::parse_columns(bytes, position, shorter) is Err,
    ensures
        table_format::parse_columns(bytes, position, longer) == table_format::parse_columns(
            bytes,
            position,
            shorter,
        ),
    decreases longer,
{
    if shorter < longer {
        lemma_parse_fault_stays(bytes, position, shorter, longer - 1);
    }
}

/// Whether a column before `index` has the name of that column.
fn name_is_taken(columns: &Vec<ColumnSchema>, index: usize) -> (taken: bool)
    requires
        index < columns@.len(),
    ensures
        taken == table_format::is_duplicate(row::declared(columns@), index as int),
{
    let ghost specs = row::declared(columns@);
    let mut j: usize = 0;
    while j < index
        invariant
            j <= index < columns@.len(),
            specs == row::declared(columns@),
            forall|k: int|
                0 <= k < j ==> (#[trigger] specs[k]).name != specs[index as int].name,
        decreases index - j,
    {
        assert(specs[j as int].name == columns@[j as int].name@);
        if columns[j].name == columns[index].name {
            return true;
        }
        j += 1;
    }
    false
}

/// A fault among the first columns is the fault of the columns.
pub proof fn lemma_columns_fault_stays(
    columns: Seq<table_format::Column>,
    shorter: int,
    longer: int,
)
    requires
        shorter <= longer,
        table_format::columns_fault(columns, shorter) is Some,
    ensures
        table_format::columns_fault(columns, longer) == table_format::columns_fault(
            columns,
            shorter,
        ),
    decreases longer,
{
    if shorter < longer {
        lemma_columns_fault_stays(columns, shorter, longer - 1);
    }
}

/// Columns without fault have at most one primary key, and it is not nullable.
pub proof fn lemma_one_primary_key(columns: Seq<table_format::Column>, count: int)
    requires
        0 <= count <= columns.len(),
        table_format::columns_fault(columns, count) is None,
    ensures
        forall|i: int, j: int|
            0 <= i < j < count && (#[trigger] columns[i]).primary_key ==> !(
            #[trigger] columns[j]).primary_key,
        forall|i: int|
            0 <= i < count && (#[trigger] columns[i]).primary_key ==> !columns[i].nullable,
    decreases count,
{
    if count > 0 {
        lemma_one_primary_key(columns, count - 1);
    }
}

impl table_format::SchemaFault {
    pub open spec fn text(self) -> Seq<char> {
        match self {
            table_format::SchemaFault::InvalidIdentifier { kind, identifier } => {
                "invalid "@ + kind@ + " identifier: "@ + message::quoted(identifier)
            },
            table_format::SchemaFault::NoColumns => "table must contain at least one column"@,
            table_format::SchemaFault::TooManyColumns { count, maximum } => {
                "table has "@ + message::decimal(count as int) + " columns; maximum is "@
                    + message::decimal(maximum as int)
            },
            table_format::SchemaFault::DuplicateColumn(name) => "duplicate column: "@ + name,
            table_format::SchemaFault::MissingPrimaryKey => {
                "table must have exactly one primary key"@
            },
            table_format::SchemaFault::MultiplePrimaryKeys => {
                "table cannot have more than one primary key"@
            },
            table_format::SchemaFault::NullablePrimaryKey(name) => {
                "primary-key column "@ + name + " cannot be nullable"@
            },
            table_format::SchemaFault::SchemaTooWide { minimum_row_size, maximum } => {
                "schema requires at least "@ + message::decimal(minimum_row_size as int)
                    + " bytes per row; maximum is "@ + message::decimal(maximum as int)
            },
            table_format::SchemaFault::CorruptEncoding(reason) => {
                "invalid schema encoding: "@ + reason@
            },
        }
    }
}

impl SchemaError {
    /// What went wrong, for people to read.
    pub fn message(&self) -> (message: String)
        ensures
            message@ == self@.text(),
    {
        match self {
            Self::InvalidIdentifier { kind, identifier } => Message::new("invalid ").text(
                kind,
            ).text(" identifier: ").quoted(identifier.as_str()).finish(),
            Self::NoColumns => "table must contain at least one column".to_owned(),
            Self::TooManyColumns { count, maximum } => Message::new("table has ").number(
                *count as u64,
            ).text(" columns; maximum is ").number(*maximum as u64).finish(),
            Self::DuplicateColumn(name) => Message::new("duplicate column: ").text(
                name.as_str(),
            ).finish(),
            Self::MissingPrimaryKey => "table must have exactly one primary key".to_owned(),
            Self::MultiplePrimaryKeys => "table cannot have more than one primary key".to_owned(),
            Self::NullablePrimaryKey(name) => Message::new("primary-key column ").text(
                name.as_str(),
            ).text(" cannot be nullable").finish(),
            Self::SchemaTooWide { minimum_row_size, maximum } => Message::new(
                "schema requires at least ",
            ).number(*minimum_row_size as u64).text(" bytes per row; maximum is ").number(
                *maximum as u64,
            ).finish(),
            Self::CorruptEncoding(reason) => Message::new("invalid schema encoding: ").text(
                reason,
            ).finish(),
        }
    }
}

} // verus!
