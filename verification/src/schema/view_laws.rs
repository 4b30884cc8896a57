//! What values, columns and errors stand for.

use vstd::prelude::*;
use vstd::std_specs::cmp::PartialEqSpec;

use super::decoding_laws;
use super::row::{self, RowError, Value, ValueRef};
use super::row_format::{Cell, RowFault};
use super::table::{ColumnSchema, DataType, SchemaError};
use super::table_format::SchemaFault;

verus! {

/// A value to store stands for itself.
pub proof fn values_stand_for_themselves(value: Value)
    ensures
        match value {
            Value::Null => value@ == Cell::Null,
            Value::Int(number) => value@ == Cell::Int(number),
            Value::Float(pattern) => value@ == Cell::Float(pattern),
            Value::Bool(truth) => value@ == Cell::Bool(truth),
            Value::Text(text) => value@ == Cell::Text(text@),
            Value::Bytes(bytes) => value@ == Cell::Bytes(bytes@),
        },
{
}

/// A value that was read stands for itself.
pub proof fn read_values_stand_for_themselves(value: ValueRef)
    ensures
        match value {
            ValueRef::Null => value@ == Cell::Null,
            ValueRef::Int(number) => value@ == Cell::Int(number),
            ValueRef::Float(pattern) => value@ == Cell::Float(pattern),
            ValueRef::Bool(truth) => value@ == Cell::Bool(truth),
            ValueRef::Text(text) => value@ == Cell::Text(text@),
            ValueRef::Bytes(bytes) => value@ == Cell::Bytes(bytes@),
        },
{
}

/// Lists of columns and values stand for what is listed, in the same order.
pub proof fn lists_keep_their_order(
    columns: Seq<ColumnSchema>,
    values: Seq<Value>,
    read: Seq<ValueRef>,
    index: int,
)
    ensures
        row::declared(columns).len() == columns.len(),
        row::cells(values).len() == values.len(),
        row::value_cells(read).len() == read.len(),
        0 <= index < columns.len() ==> row::declared(columns)[index] == columns[index]@,
        0 <= index < values.len() ==> row::cells(values)[index] == values[index]@,
        0 <= index < read.len() ==> row::value_cells(read)[index] == read[index]@,
{
}

/// Types have the names under which they are declared.
pub proof fn types_have_names(data_type: DataType)
    ensures
        match data_type {
            DataType::Int => data_type.spec_name() == "int",
            DataType::Float => data_type.spec_name() == "float",
            DataType::Bool => data_type.spec_name() == "bool",
            DataType::Text => data_type.spec_name() == "text",
            DataType::Bytes => data_type.spec_name() == "bytes",
        },
{
}

/// An error of a row says what its fault says.
pub proof fn row_errors_say_their_faults(error: RowError)
    ensures
        match error {
            RowError::WrongValueCount { expected, found } => error@ == (
            RowFault::WrongValueCount { expected, found }),
            RowError::TypeMismatch { column, expected, found } => error@ == (
            RowFault::TypeMismatch { column: column@, expected, found }),
            RowError::NullNotAllowed { column } => error@ == (RowFault::NullNotAllowed {
                column: column@,
            }),
            RowError::ColumnOutOfBounds { index, column_count } => error@ == (
            RowFault::ColumnOutOfBounds { index, column_count }),
            RowError::RowTooLarge { size, maximum } => error@ == (RowFault::RowTooLarge {
                size,
                maximum,
            }),
            RowError::Corrupt(reason) => error@ == RowFault::Corrupt(reason),
        },
{
}

/// An error of a table says what its fault says.
pub proof fn schema_errors_say_their_faults(error: SchemaError)
    ensures
        match error {
            SchemaError::InvalidIdentifier { kind, identifier } => error@ == (
            SchemaFault::InvalidIdentifier { kind, identifier: identifier@ }),
            SchemaError::NoColumns => error@ == SchemaFault::NoColumns,
            SchemaError::TooManyColumns { count, maximum } => error@ == (
            SchemaFault::TooManyColumns { count, maximum }),
            SchemaError::DuplicateColumn(name) => error@ == SchemaFault::DuplicateColumn(name@),
            SchemaError::MissingPrimaryKey => error@ == SchemaFault::MissingPrimaryKey,
            SchemaError::MultiplePrimaryKeys => error@ == SchemaFault::MultiplePrimaryKeys,
            SchemaError::NullablePrimaryKey(name) => error@ == SchemaFault::NullablePrimaryKey(
                name@,
            ),
            SchemaError::SchemaTooWide { minimum_row_size, maximum } => error@ == (
            SchemaFault::SchemaTooWide { minimum_row_size, maximum }),
            SchemaError::CorruptEncoding(reason) => error@ == SchemaFault::CorruptEncoding(reason),
        },
{
}

/// Values to store are equal where what they stand for is: floats by the numbers, and
/// all others where they are the same.
pub proof fn values_are_compared_by_what_they_stand_for(left: Value, right: Value)
    ensures
        Value::obeys_eq_spec(),
        left.eq_spec(&right) <==> match (left, right) {
            (Value::Null, Value::Null) => true,
            (Value::Int(one), Value::Int(other)) => one == other,
            (Value::Float(one), Value::Float(other)) => {
                ||| decoding_laws::stands_for_zero(one) && decoding_laws::stands_for_zero(other)
                ||| one == other && !decoding_laws::stands_for_no_number(one)
            },
            (Value::Bool(one), Value::Bool(other)) => one == other,
            (Value::Text(one), Value::Text(other)) => one@ == other@,
            (Value::Bytes(one), Value::Bytes(other)) => one@ == other@,
            _ => false,
        },
{
    decoding_laws::values_are_equal_by_what_they_stand_for(left@, right@);
}

/// Values that were read are compared in the same way.
pub proof fn read_values_are_compared_by_what_they_stand_for(left: ValueRef, right: ValueRef)
    ensures
        ValueRef::obeys_eq_spec(),
        left.eq_spec(&right) <==> match (left, right) {
            (ValueRef::Null, ValueRef::Null) => true,
            (ValueRef::Int(one), ValueRef::Int(other)) => one == other,
            (ValueRef::Float(one), ValueRef::Float(other)) => {
                ||| decoding_laws::stands_for_zero(one) && decoding_laws::stands_for_zero(other)
                ||| one == other && !decoding_laws::stands_for_no_number(one)
            },
            (ValueRef::Bool(one), ValueRef::Bool(other)) => one == other,
            (ValueRef::Text(one), ValueRef::Text(other)) => one@ == other@,
            (ValueRef::Bytes(one), ValueRef::Bytes(other)) => one@ == other@,
            _ => false,
        },
{
    decoding_laws::values_are_equal_by_what_they_stand_for(left@, right@);
}

} // verus!
