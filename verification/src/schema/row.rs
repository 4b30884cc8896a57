//! Rows of values and their layout.

use vstd::prelude::*;

use crate::codec;
use crate::message::{self, Message};
use crate::text;

use super::row_format::{self, ROW_FORMAT_VERSION};
use super::row_lemmas;
use super::table::{ColumnSchema, DataType};
use super::table_format::{self, MAX_COLUMNS, MAX_ROW_SIZE, VARIABLE_DESCRIPTOR_SIZE};

verus! {

/// A value to store in a row.
#[derive(Clone, Debug)]
pub enum Value {
    Null,
    Int(i64),
    /// A float, by its IEEE 754 bit pattern.
    Float(u64),
    Bool(bool),
    Text(String),
    Bytes(Vec<u8>),
}

/// A value read from a row, borrowing text and bytes from it.
#[derive(Clone, Copy, Debug)]
pub enum ValueRef<'row> {
    Null,
    Int(i64),
    /// A float, by its IEEE 754 bit pattern.
    Float(u64),
    Bool(bool),
    Text(&'row str),
    Bytes(&'row [u8]),
}

impl View for Value {
    type V = row_format::Cell;

    open spec fn view(&self) -> row_format::Cell {
        match *self {
            Value::Null => row_format::Cell::Null,
            Value::Int(value) => row_format::Cell::Int(value),
            Value::Float(pattern) => row_format::Cell::Float(pattern),
            Value::Bool(value) => row_format::Cell::Bool(value),
            Value::Text(text) => row_format::Cell::Text(text@),
            Value::Bytes(bytes) => row_format::Cell::Bytes(bytes@),
        }
    }
}

impl<'row> View for ValueRef<'row> {
    type V = row_format::Cell;

    open spec fn view(&self) -> row_format::Cell {
        match *self {
            ValueRef::Null => row_format::Cell::Null,
            ValueRef::Int(value) => row_format::Cell::Int(value),
            ValueRef::Float(pattern) => row_format::Cell::Float(pattern),
            ValueRef::Bool(value) => row_format::Cell::Bool(value),
            ValueRef::Text(text) => row_format::Cell::Text(text@),
            ValueRef::Bytes(bytes) => row_format::Cell::Bytes(bytes@),
        }
    }
}

impl PartialEq for Value {
    fn eq(&self, other: &Self) -> (equal: bool) {
        match (self, other) {
            (Self::Null, Self::Null) => true,
            (Self::Int(left), Self::Int(right)) => *left == *right,
            (Self::Float(left), Self::Float(right)) => floats_equal(*left, *right),
            (Self::Bool(left), Self::Bool(right)) => *left == *right,
            (Self::Text(left), Self::Text(right)) => text::same(left.as_str(), right.as_str()),
            (Self::Bytes(left), Self::Bytes(right)) => codec::equal(left.as_slice(), right.as_slice()),
            _ => false,
        }
    }
}

impl vstd::std_specs::cmp::PartialEqSpecImpl for Value {
    open spec fn obeys_eq_spec() -> bool {
        true
    }

    open spec fn eq_spec(&self, other: &Self) -> bool {
        row_format::equal_cells(self@, other@)
    }
}

impl<'row> PartialEq for ValueRef<'row> {
    fn eq(&self, other: &Self) -> (equal: bool) {
        match (self, other) {
            (Self::Null, Self::Null) => true,
            (Self::Int(left), Self::Int(right)) => *left == *right,
            (Self::Float(left), Self::Float(right)) => floats_equal(*left, *right),
            (Self::Bool(left), Self::Bool(right)) => *left == *right,
            (Self::Text(left), Self::Text(right)) => text::same(left, right),
            (Self::Bytes(left), Self::Bytes(right)) => codec::equal(left, right),
            _ => false,
        }
    }
}

impl<'row> vstd::std_specs::cmp::PartialEqSpecImpl for ValueRef<'row> {
    open spec fn obeys_eq_spec() -> bool {
        true
    }

    open spec fn eq_spec(&self, other: &Self) -> bool {
        row_format::equal_cells(self@, other@)
    }
}

/// Whether two IEEE 754 bit patterns stand for equal floats.
fn floats_equal(left: u64, right: u64) -> (equal: bool)
    ensures
        equal == row_format::equal_floats(left, right),
{
    let left_magnitude: u64 = left % 0x8000_0000_0000_0000;
    let right_magnitude: u64 = right % 0x8000_0000_0000_0000;
    if left_magnitude > 0x7ff0_0000_0000_0000 || right_magnitude > 0x7ff0_0000_0000_0000 {
        return false;
    }
    left == right || (left_magnitude == 0 && right_magnitude == 0)
}

impl<'row> ValueRef<'row> {
    pub fn to_owned(self) -> (value: Value)
        ensures
            value@ == self@,
    {
        match self {
            Self::Null => Value::Null,
            Self::Int(value) => Value::Int(value),
            Self::Float(pattern) => Value::Float(pattern),
            Self::Bool(value) => Value::Bool(value),
            Self::Text(text) => Value::Text(text.to_owned()),
            Self::Bytes(bytes) => {
                let mut copy: Vec<u8> = Vec::new();
                codec::append(&mut copy, bytes);
                assert(copy@ =~= bytes@);
                Value::Bytes(copy)
            },
        }
    }
}

/// The declarations that `columns` hold.
pub open spec fn declared(columns: Seq<ColumnSchema>) -> Seq<table_format::Column> {
    Seq::new(columns.len(), |i: int| columns[i]@)
}

/// The values that `values` hold.
pub open spec fn cells(values: Seq<Value>) -> Seq<row_format::Cell> {
    Seq::new(values.len(), |i: int| values[i]@)
}

/// Where the columns of a table's rows lie.
#[derive(Clone, Debug, PartialEq, Eq)]
pub struct RowLayout {
    null_bitmap_size: usize,
    columns: Vec<ColumnLayout>,
    minimum_row_size: usize,
}

#[derive(Clone, Debug, PartialEq, Eq)]
struct ColumnLayout {
    offset: usize,
    width: usize,
}

impl View for RowLayout {
    type V = row_format::Layout;

    closed spec fn view(&self) -> row_format::Layout {
        row_format::Layout {
            bitmap_size: self.null_bitmap_size as int,
            offsets: Seq::new(self.columns@.len(), |i: int| self.columns@[i].offset as int),
            widths: Seq::new(self.columns@.len(), |i: int| self.columns@[i].width as int),
            minimum_row_size: self.minimum_row_size as int,
        }
    }
}

impl RowLayout {
    /// Lays out the rows of a table with these columns.
    pub(super) fn compile(columns: &[ColumnSchema]) -> (layout: Self)
        requires
            columns@.len() <= MAX_COLUMNS,
        ensures
            layout@ == row_format::layout_of(declared(columns@)),
    {
        let ghost specs = declared(columns@);
        let null_bitmap_size: usize = (columns.len() + 7) / 8;
        let mut offset: usize = 1 + null_bitmap_size;
        let mut layouts: Vec<ColumnLayout> = Vec::new();
        let mut i: usize = 0;
        while i < columns.len()
            invariant
                i <= columns@.len() <= MAX_COLUMNS,
                specs == declared(columns@),
                offset == table_format::column_offset(specs, i as int),
                offset <= 1 + 128 + 8 * i,
                layouts@.len() == i,
                forall|j: int|
                    0 <= j < i ==> (#[trigger] layouts@[j]).offset == table_format::column_offset(
                        specs,
                        j,
                    ),
                forall|j: int|
                    0 <= j < i ==> (#[trigger] layouts@[j]).width == table_format::width(
                        specs[j].data_type,
                    ),
            decreases columns@.len() - i,
        {
            let width: usize = type_width(columns[i].data_type());
            layouts.push(ColumnLayout { offset, width });
            offset += width;
            i += 1;
        }
        let layout = Self { null_bitmap_size, columns: layouts, minimum_row_size: offset };
        assert(layout@ =~= row_format::layout_of(specs));
        layout
    }

    pub fn null_bitmap_size(&self) -> (size: usize)
        ensures
            size == self@.bitmap_size,
    {
        self.null_bitmap_size
    }

    pub fn minimum_row_size(&self) -> (size: usize)
        ensures
            size == self@.minimum_row_size,
    {
        self.minimum_row_size
    }

    pub fn column_offset(&self, index: usize) -> (offset: Option<usize>)
        ensures
            match offset {
                Some(offset) => index < self@.offsets.len() && offset == self@.offsets[index as int],
                None => index >= self@.offsets.len(),
            },
    {
        if index < self.columns.len() {
            Some(self.columns[index].offset)
        } else {
            None
        }
    }

    /// Encodes `values` as a row of a table with these columns.
    pub(super) fn encode(&self, columns: &[ColumnSchema], values: &[Value]) -> (result: Result<
        Vec<u8>,
        RowError,
    >)
        requires
            self@ == row_format::layout_of(declared(columns@)),
            self@.minimum_row_size <= MAX_ROW_SIZE,
        ensures
            match row_format::encode_fault(declared(columns@), cells(values@)) {
                None => result matches Ok(row) && row@ == row_format::encoded_row(
                    declared(columns@),
                    cells(values@),
                ),
                Some(fault) => result matches Err(error) && error@ == fault,
            },
    {
        let ghost specs = declared(columns@);
        let ghost items = cells(values@);
        if values.len() != columns.len() {
            return Err(
                RowError::WrongValueCount { expected: columns.len(), found: values.len() },
            );
        }
        let mut row: Vec<u8> = vec![0u8; self.minimum_row_size];
        proof {
            row_lemmas::lemma_offsets_grow(specs, 0, specs.len() as int);
            assert(row@ =~= row_format::zeros(table_format::minimum_row_size(specs)));
            row_lemmas::lemma_empty_row(specs, items);
        }
        row[0] = ROW_FORMAT_VERSION;
        let mut index: usize = 0;
        while index < columns.len()
            invariant
                index <= columns@.len() == values@.len(),
                specs == declared(columns@),
                items == cells(values@),
                self@ == row_format::layout_of(specs),
                self@.minimum_row_size <= MAX_ROW_SIZE,
                row_format::cells_fault(specs, items, index as int) is None,
                row@ == row_lemmas::partial_row(specs, items, index as int),
                row@.len() <= MAX_ROW_SIZE,
            decreases columns@.len() - index,
        {
            let ghost fault = row_format::cell_fault(specs, items, index as int);
            assert(self@.offsets.len() == specs.len());
            assert(self@.offsets[index as int] == table_format::column_offset(
                specs,
                index as int,
            ));
            proof {
                row_lemmas::lemma_partial_length(specs, items, index as int);
                row_lemmas::lemma_column_ends(specs, index as int, specs.len() as int);
                row_lemmas::lemma_offsets_grow(specs, index as int, index as int);
                if fault is Some {
                    assert(row_format::cells_fault(specs, items, index + 1) == fault);
                    row_lemmas::lemma_cells_fault_stays(
                        specs,
                        items,
                        index + 1,
                        specs.len() as int,
                    );
                } else if items[index as int] is Null {
                    row_lemmas::lemma_null_step(specs, items, index as int);
                } else {
                    row_lemmas::lemma_value_step(specs, items, index as int);
                }
            }
            match encode_value(
                &mut row,
                &columns[index],
                self.columns[index].offset,
                index,
                &values[index],
            ) {
                Ok(()) => {},
                Err(error) => {
                    return Err(error);
                },
            }
            proof {
                row_lemmas::lemma_partial_length(specs, items, index + 1);
            }
            index += 1;
        }
        proof {
            row_lemmas::lemma_complete_row(specs, items);
        }
        Ok(row)
    }

    /// Decodes every column of `row`.
    pub(super) fn decode<'row>(&self, columns: &[ColumnSchema], row: &'row [u8]) -> (result: Result<
        Vec<ValueRef<'row>>,
        RowError,
    >)
        requires
            self@ == row_format::layout_of(declared(columns@)),
        ensures
            match row_format::row_fault(declared(columns@), row@) {
                None => result matches Ok(values) && value_cells(values@) == row_format::cells_of(
                    declared(columns@),
                    row@,
                ),
                Some(fault) => result matches Err(error) && error@
                    == row_format::RowFault::Corrupt(fault),
            },
    {
        match self.validate(columns, row) {
            Ok(()) => {},
            Err(error) => {
                return Err(error);
            },
        }
        let ghost specs = declared(columns@);
        let mut values: Vec<ValueRef<'row>> = Vec::new();
        let mut index: usize = 0;
        while index < columns.len()
            invariant
                index <= columns@.len(),
                specs == declared(columns@),
                self@ == row_format::layout_of(specs),
                row_format::row_fault(specs, row@) is None,
                values@.len() == index,
                forall|j: int|
                    0 <= j < index ==> (#[trigger] values@[j])@ == row_format::cell_at(
                        specs,
                        row@,
                        j,
                    ),
            decreases columns@.len() - index,
        {
            values.push(self.decode_column_unchecked(columns, row, index));
            index += 1;
        }
        assert(value_cells(values@) =~= row_format::cells_of(specs, row@));
        Ok(values)
    }

    /// Decodes the columns of `row` that `projected_columns` lists, in that order.
    pub(super) fn project<'row>(
        &self,
        schema_columns: &[ColumnSchema],
        row: &'row [u8],
        projected_columns: &[usize],
    ) -> (result: Result<Vec<ValueRef<'row>>, RowError>)
        requires
            self@ == row_format::layout_of(declared(schema_columns@)),
        ensures
            match row_format::project_fault(declared(schema_columns@), row@, projected_columns@) {
                None => result matches Ok(values) && value_cells(values@)
                    == row_format::projected_cells(
                    declared(schema_columns@),
                    row@,
                    projected_columns@,
                ),
                Some(fault) => result matches Err(error) && error@ == fault,
            },
    {
        let ghost specs = declared(schema_columns@);
        let mut position: usize = 0;
        while position < projected_columns.len()
            invariant
                position <= projected_columns@.len(),
                specs == declared(schema_columns@),
                row_format::out_of_bounds(specs, projected_columns@, position as int) is None,
            decreases projected_columns@.len() - position,
        {
            let index: usize = projected_columns[position];
            if index >= schema_columns.len() {
                proof {
                    row_lemmas::lemma_out_of_bounds_stays(
                        specs,
                        projected_columns@,
                        position + 1,
                        projected_columns@.len() as int,
                    );
                }
                return Err(
                    RowError::ColumnOutOfBounds { index, column_count: schema_columns.len() },
                );
            }
            position += 1;
        }
        match self.validate(schema_columns, row) {
            Ok(()) => {},
            Err(error) => {
                return Err(error);
            },
        }
        proof {
            row_lemmas::lemma_in_bounds(specs, projected_columns@, projected_columns@.len() as int);
        }
        let mut values: Vec<ValueRef<'row>> = Vec::new();
        let mut next: usize = 0;
        while next < projected_columns.len()
            invariant
                next <= projected_columns@.len(),
                specs == declared(schema_columns@),
                self@ == row_format::layout_of(specs),
                row_format::row_fault(specs, row@) is None,
                forall|j: int|
                    0 <= j < projected_columns@.len() ==> #[trigger] projected_columns@[j]
                        < specs.len(),
                values@.len() == next,
                forall|j: int|
                    0 <= j < next ==> (#[trigger] values@[j])@ == row_format::cell_at(
                        specs,
                        row@,
                        projected_columns@[j] as int,
                    ),
            decreases projected_columns@.len() - next,
        {
            values.push(self.decode_column_unchecked(schema_columns, row, projected_columns[next]));
            next += 1;
        }
        assert(value_cells(values@) =~= row_format::projected_cells(
            specs,
            row@,
            projected_columns@,
        ));
        Ok(values)
    }

    /// Decodes one column of `row`.
    pub(super) fn decode_column<'row>(
        &self,
        columns: &[ColumnSchema],
        row: &'row [u8],
        index: usize,
    ) -> (result: Result<ValueRef<'row>, RowError>)
        requires
            self@ == row_format::layout_of(declared(columns@)),
        ensures
            if index >= columns@.len() {
                &&& result matches Err(error)
                &&& error@ == (row_format::RowFault::ColumnOutOfBounds {
                    index,
                    column_count: columns@.len() as usize,
                })
            } else {
                match row_format::row_fault(declared(columns@), row@) {
                    None => result matches Ok(value) && value@ == row_format::cell_at(
                        declared(columns@),
                        row@,
                        index as int,
                    ),
                    Some(fault) => result matches Err(error) && error@
                        == row_format::RowFault::Corrupt(fault),
                }
            },
    {
        if index >= columns.len() {
            return Err(RowError::ColumnOutOfBounds { index, column_count: columns.len() });
        }
        match self.validate(columns, row) {
            Ok(()) => Ok(self.decode_column_unchecked(columns, row, index)),
            Err(error) => Err(error),
        }
    }

    /// Checks that `row` is a row of a table with these columns.
    fn validate(&self, columns: &[ColumnSchema], row: &[u8]) -> (result: Result<(), RowError>)
        requires
            self@ == row_format::layout_of(declared(columns@)),
        ensures
            match row_format::row_fault(declared(columns@), row@) {
                None => result is Ok,
                Some(fault) => result matches Err(error) && error@
                    == row_format::RowFault::Corrupt(fault),
            },
    {
        let ghost specs = declared(columns@);
        if row.len() < self.minimum_row_size {
            return Err(RowError::Corrupt("row is shorter than its fixed layout"));
        }
        if row.len() > MAX_ROW_SIZE {
            return Err(RowError::Corrupt("row exceeds maximum page payload"));
        }
        proof {
            row_lemmas::lemma_offsets_grow(specs, 0, specs.len() as int);
        }
        if row[0] != ROW_FORMAT_VERSION {
            return Err(RowError::Corrupt("unsupported row format version"));
        }
        let mut expected_payload_offset: usize = self.minimum_row_size;
        let mut index: usize = 0;
        while index < columns.len()
            invariant
                index <= columns@.len(),
                specs == declared(columns@),
                self@ == row_format::layout_of(specs),
                table_format::minimum_row_size(specs) <= row@.len() <= MAX_ROW_SIZE,
                row@[0] == ROW_FORMAT_VERSION,
                row_format::check_columns(specs, row@, index as int) == Ok::<_, &'static str>(
                    expected_payload_offset as int,
                ),
                expected_payload_offset <= row@.len(),
            decreases columns@.len() - index,
        {
            assert(self@.offsets.len() == specs.len());
            assert(self@.offsets[index as int] == table_format::column_offset(
                specs,
                index as int,
            ));
            proof {
                row_lemmas::lemma_column_ends(specs, index as int, specs.len() as int);
                row_lemmas::lemma_offsets_grow(specs, index as int, index as int);
            }
            match check_column(
                &columns[index],
                row,
                index,
                self.columns[index].offset,
                expected_payload_offset,
            ) {
                Ok(end) => {
                    expected_payload_offset = end;
                },
                Err(reason) => {
                    proof {
                        row_lemmas::lemma_check_stays(specs, row@, index + 1, specs.len() as int);
                    }
                    return Err(RowError::Corrupt(reason));
                },
            }
            index += 1;
        }
        if expected_payload_offset != row.len() {
            return Err(RowError::Corrupt("row has trailing or unreferenced payload"));
        }
        Ok(())
    }

    /// Decodes one column of a valid row.
    fn decode_column_unchecked<'row>(
        &self,
        columns: &[ColumnSchema],
        row: &'row [u8],
        index: usize,
    ) -> (value: ValueRef<'row>)
        requires
            self@ == row_format::layout_of(declared(columns@)),
            index < columns@.len(),
            row_format::row_fault(declared(columns@), row@) is None,
        ensures
            value@ == row_format::cell_at(declared(columns@), row@, index as int),
    {
        let ghost specs = declared(columns@);
        assert(self@.offsets.len() == specs.len());
        assert(self@.offsets[index as int] == table_format::column_offset(specs, index as int));
        let offset: usize = self.columns[index].offset;
        proof {
            row_lemmas::lemma_column_ends(specs, index as int, specs.len() as int);
            row_lemmas::lemma_offsets_grow(specs, index as int, index as int);
            row_lemmas::lemma_valid_column(specs, row@, index as int, specs.len() as int);
        }
        if is_null(row, index) {
            return ValueRef::Null;
        }
        match columns[index].data_type() {
            DataType::Int => ValueRef::Int(codec::read_i64(row, offset)),
            DataType::Float => ValueRef::Float(codec::read_u64(row, offset)),
            DataType::Bool => ValueRef::Bool(row[offset] == 1),
            DataType::Text => ValueRef::Text(
                text::decode_text(variable_payload(row, offset)).unwrap(),
            ),
            DataType::Bytes => ValueRef::Bytes(variable_payload(row, offset)),
        }
    }
}

/// The values that `values` borrow.
pub open spec fn value_cells(values: Seq<ValueRef>) -> Seq<row_format::Cell> {
    Seq::new(values.len(), |i: int| values[i]@)
}

/// Checks one column at `offset`, whose payload, if it has one, must start at
/// `expected`. Gives the end of its payload.
fn check_column(
    column: &ColumnSchema,
    row: &[u8],
    index: usize,
    offset: usize,
    expected: usize,
) -> (result: Result<usize, &'static str>)
    requires
        1 + index / 8 < row@.len() <= MAX_ROW_SIZE,
        offset + table_format::width(column@.data_type) <= row@.len(),
        expected <= row@.len(),
    ensures
        match row_format::check_field(column@, row@, index as int, offset as int, expected as int) {
            Ok(end) => result == Ok::<_, &'static str>(end as usize) && end <= row@.len(),
            Err(reason) => result == Err::<usize, _>(reason),
        },
{
    if is_null(row, index) {
        if !column.is_nullable() {
            return Err("required column is encoded as null");
        }
        let width: usize = type_width(column.data_type());
        let mut k: usize = offset;
        while k < offset + width
            invariant
                offset <= k <= offset + width <= row@.len() <= MAX_ROW_SIZE,
                width == table_format::width(column@.data_type),
                column@.nullable,
                row_format::is_null(row@, index as int),
                forall|j: int| offset <= j < k ==> #[trigger] row@[j] == 0,
            decreases offset + width - k,
        {
            if row[k] != 0 {
                return Err("null column has nonzero fixed bytes");
            }
            k += 1;
        }
        return Ok(expected);
    }
    match column.data_type() {
        DataType::Bool => {
            if row[offset] > 1 {
                return Err("boolean column is not zero or one");
            }
            Ok(expected)
        },
        DataType::Text | DataType::Bytes => {
            let start: usize = codec::read_u32(row, offset) as usize;
            let length: usize = codec::read_u32(row, offset + 4) as usize;
            if start != expected {
                return Err("variable column payload is not canonical");
            }
            if length > row.len() - start {
                return Err("variable column exceeds row boundary");
            }
            let end: usize = start + length;
            if column.data_type() == DataType::Text {
                if text::decode_text(&row[start..end]).is_none() {
                    return Err("text column is not UTF-8");
                }
            }
            Ok(end)
        },
        _ => Ok(expected),
    }
}

fn type_width(data_type: DataType) -> (width: usize)
    ensures
        width == table_format::width(data_type),
{
    match data_type {
        DataType::Int | DataType::Float => 8,
        DataType::Bool => 1,
        DataType::Text | DataType::Bytes => VARIABLE_DESCRIPTOR_SIZE,
    }
}

/// The payload that the descriptor at `offset` refers to.
fn variable_payload<'row>(row: &'row [u8], offset: usize) -> (payload: &'row [u8])
    requires
        offset + VARIABLE_DESCRIPTOR_SIZE <= row@.len() <= MAX_ROW_SIZE,
        codec::u32_at(row@, offset as int) + codec::u32_at(row@, offset + 4) <= row@.len(),
    ensures
        payload@ == row_format::referenced_payload(row@, offset as int),
{
    let start: usize = codec::read_u32(row, offset) as usize;
    let length: usize = codec::read_u32(row, offset + 4) as usize;
    &row[start..start + length]
}

fn is_null(row: &[u8], column_index: usize) -> (null: bool)
    requires
        1 + column_index / 8 < row@.len(),
    ensures
        null == row_format::is_null(row@, column_index as int),
{
    row[1 + column_index / 8] & bit_of(column_index) != 0
}

/// Stores the value of column `index` in a row that holds the columns before it.
fn encode_value(
    row: &mut Vec<u8>,
    column: &ColumnSchema,
    offset: usize,
    index: usize,
    value: &Value,
) -> (result: Result<(), RowError>)
    requires
        1 + index / 8 < old(row)@.len(),
        offset + table_format::width(column@.data_type) <= old(row)@.len() <= MAX_ROW_SIZE,
    ensures
        match row_format::value_fault(column@, value@, old(row)@.len() as int) {
            Some(fault) => result matches Err(error) && error@ == fault,
            None => {
                &&& result is Ok
                &&& final(row)@ == if value@ is Null {
                    old(row)@.update(
                        1 + index / 8,
                        old(row)@[1 + index / 8] | row_format::null_bit(index as int),
                    )
                } else {
                    codec::splice(
                        old(row)@,
                        offset as int,
                        row_format::value_bytes(
                            column@.data_type,
                            value@,
                            old(row)@.len() as int,
                        ),
                    ) + value@.payload()
                }
                &&& final(row)@.len() <= MAX_ROW_SIZE
            },
        },
{
    let ghost length = row@.len() as int;
    let ghost fixed = row_format::value_bytes(column@.data_type, value@, length);
    match (column.data_type(), value) {
        (_, Value::Null) => {
            if !column.is_nullable() {
                return Err(RowError::NullNotAllowed { column: column.name().to_owned() });
            }
            set_null(row, index);
        },
        (DataType::Int, Value::Int(number)) => {
            proof {
                codec::lemma_i64_round_trip(*number);
            }
            store(row, offset, &codec::encode_i64(*number));
            assert(row@ =~= codec::splice(old(row)@, offset as int, fixed) + value@.payload());
        },
        (DataType::Float, Value::Float(pattern)) => {
            proof {
                codec::lemma_u64_round_trip(*pattern);
            }
            store(row, offset, &codec::encode_u64(*pattern));
            assert(row@ =~= codec::splice(old(row)@, offset as int, fixed) + value@.payload());
        },
        (DataType::Bool, Value::Bool(flag)) => {
            let bytes: [u8; 1] = [if *flag { 1u8 } else { 0u8 }];
            assert(bytes@ =~= fixed);
            store(row, offset, &bytes);
            assert(row@ =~= codec::splice(old(row)@, offset as int, fixed) + value@.payload());
        },
        (DataType::Text, Value::Text(text)) => {
            return append_variable(row, offset, text.as_str().as_bytes());
        },
        (DataType::Bytes, Value::Bytes(bytes)) => {
            return append_variable(row, offset, bytes.as_slice());
        },
        (expected, found) => {
            return Err(
                RowError::TypeMismatch {
                    column: column.name().to_owned(),
                    expected,
                    found: value_kind(found),
                },
            );
        },
    }
    Ok(())
}

fn value_kind(value: &Value) -> (name: &'static str)
    ensures
        name == value@.kind_name(),
{
    match value {
        Value::Null => "null",
        Value::Int(_) => "int",
        Value::Float(_) => "float",
        Value::Bool(_) => "bool",
        Value::Text(_) => "text",
        Value::Bytes(_) => "bytes",
    }
}

/// Replaces the bytes from `offset` on by `source`.
fn store(row: &mut Vec<u8>, offset: usize, source: &[u8])
    requires
        offset + source@.len() <= old(row)@.len(),
    ensures
        final(row)@ == codec::splice(old(row)@, offset as int, source@),
{
    let mut i: usize = 0;
    while i < source.len()
        invariant
            i <= source@.len(),
            offset + source@.len() <= row@.len(),
            row@ =~= codec::splice(old(row)@, offset as int, source@.take(i as int)),
        decreases source@.len() - i,
    {
        assert(row.len() == row@.len());
        row[offset + i] = source[i];
        i += 1;
    }
    assert(source@.take(i as int) =~= source@);
}

/// Appends `value` to the row and stores its place and length at
/// `descriptor_offset`.
fn append_variable(row: &mut Vec<u8>, descriptor_offset: usize, value: &[u8]) -> (result: Result<
    (),
    RowError,
>)
    requires
        descriptor_offset + VARIABLE_DESCRIPTOR_SIZE <= old(row)@.len() <= MAX_ROW_SIZE,
    ensures
        ({
            let size = old(row)@.len() + value@.len();
            if size > MAX_ROW_SIZE {
                &&& result matches Err(error)
                &&& error@ == (row_format::RowFault::RowTooLarge {
                    size: row_format::saturated(size as int),
                    maximum: MAX_ROW_SIZE,
                })
                &&& final(row)@ == old(row)@
            } else {
                &&& result is Ok
                &&& final(row)@ == codec::splice(
                    old(row)@,
                    descriptor_offset as int,
                    codec::u32_bytes(old(row)@.len() as u32) + codec::u32_bytes(
                        value@.len() as u32,
                    ),
                ) + value@
            }
        }),
{
    let encoded_size: usize = row.len().saturating_add(value.len());
    if encoded_size > MAX_ROW_SIZE {
        return Err(RowError::RowTooLarge { size: encoded_size, maximum: MAX_ROW_SIZE });
    }
    let offset: u32 = row.len() as u32;
    let length: u32 = value.len() as u32;
    let ghost before = row@;
    store(row, descriptor_offset, &codec::encode_u32(offset));
    store(row, descriptor_offset + 4, &codec::encode_u32(length));
    assert(row@ =~= codec::splice(
        before,
        descriptor_offset as int,
        codec::u32_bytes(offset) + codec::u32_bytes(length),
    ));
    codec::append(row, value);
    Ok(())
}

fn bit_of(column_index: usize) -> (bit: u8)
    ensures
        bit == row_format::null_bit(column_index as int),
{
    1u8 << ((column_index % 8) as u8)
}

fn set_null(row: &mut Vec<u8>, column_index: usize)
    requires
        1 + column_index / 8 < old(row)@.len(),
    ensures
        final(row)@ == old(row)@.update(
            1 + column_index / 8,
            old(row)@[1 + column_index / 8] | row_format::null_bit(column_index as int),
        ),
{
    let byte: usize = 1 + column_index / 8;
    row[byte] = row[byte] | bit_of(column_index);
}

#[derive(Clone, Debug, PartialEq, Eq)]
pub enum RowError {
    WrongValueCount { expected: usize, found: usize },
    TypeMismatch { column: String, expected: DataType, found: &'static str },
    NullNotAllowed { column: String },
    ColumnOutOfBounds { index: usize, column_count: usize },
    RowTooLarge { size: usize, maximum: usize },
    Corrupt(&'static str),
}

impl View for RowError {
    type V = row_format::RowFault;

    open spec fn view(&self) -> row_format::RowFault {
        match *self {
            RowError::WrongValueCount { expected, found } => {
                row_format::RowFault::WrongValueCount { expected, found }
            },
            RowError::TypeMismatch { column, expected, found } => {
                row_format::RowFault::TypeMismatch { column: column@, expected, found }
            },
            RowError::NullNotAllowed { column } => {
                row_format::RowFault::NullNotAllowed { column: column@ }
            },
            RowError::ColumnOutOfBounds { index, column_count } => {
                row_format::RowFault::ColumnOutOfBounds { index, column_count }
            },
            RowError::RowTooLarge { size, maximum } => {
                row_format::RowFault::RowTooLarge { size, maximum }
            },
            RowError::Corrupt(reason) => row_format::RowFault::Corrupt(reason),
        }
    }
}

impl row_format::RowFault {
    pub open spec fn text(self) -> Seq<char> {
        match self {
            row_format::RowFault::WrongValueCount { expected, found } => {
                "row has "@ + message::decimal(found as int) + " values; expected "@
                    + message::decimal(expected as int)
            },
            row_format::RowFault::TypeMismatch { column, expected, found } => {
                "column "@ + column + " expects "@ + expected.spec_name()@ + ", found "@ + found@
            },
            row_format::RowFault::NullNotAllowed { column } => {
                "column "@ + column + " does not allow null"@
            },
            row_format::RowFault::ColumnOutOfBounds { index, column_count } => {
                "column index "@ + message::decimal(index as int) + " is out of bounds for "@
                    + message::decimal(column_count as int) + " columns"@
            },
            row_format::RowFault::RowTooLarge { size, maximum } => {
                "encoded row is "@ + message::decimal(size as int) + " bytes; maximum is "@
                    + message::decimal(maximum as int)
            },
            row_format::RowFault::Corrupt(reason) => "corrupt row encoding: "@ + reason@,
        }
    }
}

impl RowError {
    /// What went wrong, for people to read.
    pub fn message(&self) -> (message: String)
        ensures
            message@ == self@.text(),
    {
        match self {
            Self::WrongValueCount { expected, found } => Message::new("row has ").number(
                *found as u64,
            ).text(" values; expected ").number(*expected as u64).finish(),
            Self::TypeMismatch { column, expected, found } => Message::new("column ").text(
                column.as_str(),
            ).text(" expects ").text(expected.name()).text(", found ").text(found).finish(),
            Self::NullNotAllowed { column } => Message::new("column ").text(column.as_str()).text(
                " does not allow null",
            ).finish(),
            Self::ColumnOutOfBounds { index, column_count } => Message::new(
                "column index ",
            ).number(*index as u64).text(" is out of bounds for ").number(
                *column_count as u64,
            ).text(" columns").finish(),
            Self::RowTooLarge { size, maximum } => Message::new("encoded row is ").number(
                *size as u64,
            ).text(" bytes; maximum is ").number(*maximum as u64).finish(),
            Self::Corrupt(reason) => Message::new("corrupt row encoding: ").text(reason).finish(),
        }
    }
}

} // verus!
