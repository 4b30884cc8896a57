//! Which tables can be declared, and what is said of the others.

use vstd::prelude::*;

use super::table;
use super::table_format::{self, Column, SchemaFault, Table};
use super::table_laws;
use super::DataType;

verus! {

/// Whether a character is a letter of the alphabet, in either case, or an
/// underscore.
pub open spec fn starts_a_word(c: char) -> bool {
    c == '_' || ('a' <= c && c <= 'z') || ('A' <= c && c <= 'Z')
}

/// Identifiers are the words of letters, digits and underscores that do not start
/// with a digit and have 1 to 255 characters.
pub proof fn identifiers_are_words(text: Seq<char>)
    ensures
        table_format::is_identifier(text) <==> {
            &&& 1 <= text.len() <= 255
            &&& starts_a_word(text[0])
            &&& forall|i: int|
                0 <= i < text.len() ==> starts_a_word(#[trigger] text[i]) || ('0' <= text[i]
                    && text[i] <= '9')
        },
{
}

/// An identifier can be continued by exactly the letters, the digits and the
/// underscore, up to 255 characters.
pub proof fn identifiers_grow(text: Seq<char>, c: char)
    requires
        text.len() > 0,
    ensures
        table_format::is_identifier(text.push(c)) <==> {
            &&& table_format::is_identifier(text)
            &&& text.len() < 255
            &&& starts_a_word(c) || ('0' <= c && c <= '9')
        },
{
    let longer = text.push(c);
    identifiers_are_words(text);
    identifiers_are_words(longer);
    assert(longer[text.len() as int] == c);
    if table_format::is_identifier(longer) {
        assert forall|i: int| 0 <= i < text.len() implies starts_a_word(#[trigger] text[i]) || (
        '0' <= text[i] && text[i] <= '9') by {
            assert(longer[i] == text[i]);
        }
        assert(longer[0] == text[0]);
    }
    if table_format::is_identifier(text) {
        assert forall|i: int| 0 <= i < text.len() implies starts_a_word(#[trigger] longer[i]) || (
        '0' <= longer[i] && longer[i] <= '9') by {
            assert(longer[i] == text[i]);
        }
    }
}

/// Bytes that the columns take up in the fixed part of a row: a number takes eight,
/// a truth value one, and the reference to a text or to bytes eight.
pub open spec fn fixed_size(columns: Seq<Column>) -> int
    decreases columns.len(),
{
    if columns.len() == 0 {
        0
    } else {
        fixed_size(columns.drop_last()) + if columns.last().data_type == DataType::Bool {
            1int
        } else {
            8int
        }
    }
}

/// Bytes of the smallest row: a version byte, one bit for each column in whole
/// bytes, and the fixed part.
pub open spec fn smallest_row(columns: Seq<Column>) -> int {
    1 + (columns.len() + 7) / 8 + fixed_size(columns)
}

/// Columns lie one after the other, without gaps, behind the version byte and the
/// null bitmap.
pub proof fn columns_lie_without_gaps(columns: Seq<Column>, index: int)
    requires
        0 <= index <= columns.len(),
    ensures
        table_format::column_offset(columns, index) == 1 + (columns.len() + 7) / 8 + fixed_size(
            columns.take(index),
        ),
        index == columns.len() ==> table_format::minimum_row_size(columns) == smallest_row(columns),
    decreases index,
{
    if index > 0 {
        columns_lie_without_gaps(columns, index - 1);
        assert(columns.take(index).drop_last() =~= columns.take(index - 1));
        assert(columns.take(index).last() == columns[index - 1]);
    }
    if index == columns.len() {
        assert(columns.take(index) =~= columns);
    }
}

/// Whether a declaration has what a table needs: identifiers for names, 1 to 1024
/// columns with distinct names, one primary key that is not nullable, and rows that
/// fit into a page.
pub open spec fn is_declarable(table: Table) -> bool {
    &&& table_format::is_identifier(table.name)
    &&& 1 <= table.columns.len() <= 1024
    &&& forall|i: int|
        0 <= i < table.columns.len() ==> table_format::is_identifier(
            (#[trigger] table.columns[i]).name,
        )
    &&& forall|i: int, j: int|
        0 <= i < j < table.columns.len() ==> (#[trigger] table.columns[i]).name != (
        #[trigger] table.columns[j]).name
    &&& exists|key: int| #[trigger] table_laws::is_only_primary_key(table.columns, key)
    &&& smallest_row(table.columns) <= 8152
}

/// The tables that can be declared are those that have what a table needs, in
/// whatever order their columns stand.
pub proof fn declarable_tables_are_valid(table: Table)
    ensures
        table.valid() <==> is_declarable(table),
{
    let columns = table.columns;
    let count = columns.len() as int;
    columns_lie_without_gaps(columns, count);
    if table.valid() {
        table_laws::valid_tables_have_distinct_names(table);
        table_laws::valid_tables_have_one_primary_key(table);
    }
    if is_declarable(table) {
        lemma_columns_without_fault(columns, count);
        let key = choose|key: int| #[trigger] table_laws::is_only_primary_key(columns, key);
        assert(columns[key].primary_key);
    }
}

proof fn lemma_columns_without_fault(columns: Seq<Column>, count: int)
    requires
        0 <= count <= columns.len(),
        forall|i: int|
            0 <= i < columns.len() ==> table_format::is_identifier((#[trigger] columns[i]).name),
        forall|i: int, j: int|
            0 <= i < j < columns.len() ==> (#[trigger] columns[i]).name != (
            #[trigger] columns[j]).name,
        exists|key: int| #[trigger] table_laws::is_only_primary_key(columns, key),
    ensures
        table_format::columns_fault(columns, count) is None,
    decreases count,
{
    if count > 0 {
        lemma_columns_without_fault(columns, count - 1);
        let key = choose|key: int| #[trigger] table_laws::is_only_primary_key(columns, key);
        let last = columns[count - 1];
        if last.primary_key && table_format::has_primary_key(columns, count - 1) {
            let other = choose|j: int| 0 <= j < count - 1 && (#[trigger] columns[j]).primary_key;
            assert(other == key && count - 1 == key);
        }
    }
}

/// Whether what is said of a declaration that cannot be used is true of it.
pub open spec fn is_true_of(fault: SchemaFault, table: Table) -> bool {
    let columns = table.columns;
    match fault {
        SchemaFault::InvalidIdentifier { kind, identifier } => {
            &&& !table_format::is_identifier(identifier)
            &&& {
                ||| kind == "table" && identifier == table.name
                ||| kind == "column" && has_column(columns, identifier)
            }
        },
        SchemaFault::NoColumns => columns.len() == 0,
        SchemaFault::TooManyColumns { count, maximum } => {
            count == columns.len() && maximum == 1024 && count > maximum
        },
        SchemaFault::DuplicateColumn(name) => exists|i: int, j: int|
            0 <= i < j < columns.len() && (#[trigger] columns[i]).name == name && (
            #[trigger] columns[j]).name == name,
        SchemaFault::MissingPrimaryKey => forall|i: int|
            0 <= i < columns.len() ==> !(#[trigger] columns[i]).primary_key,
        SchemaFault::MultiplePrimaryKeys => exists|i: int, j: int|
            0 <= i < j < columns.len() && (#[trigger] columns[i]).primary_key && (
            #[trigger] columns[j]).primary_key,
        SchemaFault::NullablePrimaryKey(name) => exists|i: int|
            0 <= i < columns.len() && (#[trigger] columns[i]).primary_key && columns[i].nullable
                && columns[i].name == name,
        SchemaFault::SchemaTooWide { minimum_row_size, maximum } => {
            &&& minimum_row_size == smallest_row(columns)
            &&& maximum == 8152
            &&& minimum_row_size > maximum
        },
        SchemaFault::CorruptEncoding(_) => false,
    }
}

pub open spec fn has_column(columns: Seq<Column>, name: Seq<char>) -> bool {
    exists|i: int| 0 <= i < columns.len() && (#[trigger] columns[i]).name == name
}

/// What is said of a declaration that cannot be used is true of it.
pub proof fn declaration_faults_are_true(table: Table)
    requires
        table.columns.len() <= usize::MAX,
    ensures
        table.fault() matches Some(fault) ==> is_true_of(fault, table),
{
    let columns = table.columns;
    let count = columns.len() as int;
    columns_lie_without_gaps(columns, count);
    if columns.len() <= 1024 {
        lemma_fixed_size(columns);
    }
    if table_format::columns_fault(columns, count) is Some {
        lemma_column_faults_are_true(table, count);
    }
    if !table_format::has_primary_key(columns, count) {
        assert forall|i: int| 0 <= i < count implies !(#[trigger] columns[i]).primary_key by {}
    }
}

proof fn lemma_fixed_size(columns: Seq<Column>)
    ensures
        0 <= fixed_size(columns) <= 8 * columns.len(),
    decreases columns.len(),
{
    if columns.len() > 0 {
        lemma_fixed_size(columns.drop_last());
    }
}

proof fn lemma_column_faults_are_true(table: Table, count: int)
    requires
        0 <= count <= table.columns.len(),
        table_format::columns_fault(table.columns, count) is Some,
    ensures
        is_true_of(table_format::columns_fault(table.columns, count)->0, table),
    decreases count,
{
    let columns = table.columns;
    if table_format::columns_fault(columns, count - 1) is Some {
        lemma_column_faults_are_true(table, count - 1);
    } else {
        let index = count - 1;
        let column = columns[index];
        assert(has_column(columns, column.name));
        if table_format::is_duplicate(columns, index) {
            let other = choose|j: int|
                0 <= j < index && (#[trigger] columns[j]).name == columns[index].name;
            assert(columns[other].name == column.name);
        }
        if column.primary_key && table_format::has_primary_key(columns, index) {
            let other = choose|j: int| 0 <= j < index && (#[trigger] columns[j]).primary_key;
            assert(columns[other].primary_key && columns[index].primary_key);
        }
    }
}

/// A column that is free of fault where it stands stays so when columns are added
/// behind it, and the first faulty column decides what is said.
pub proof fn the_first_faulty_column_decides(columns: Seq<Column>, more: Seq<Column>)
    requires
        table_format::columns_fault(columns, columns.len() as int) is Some,
    ensures
        table_format::columns_fault(columns + more, (columns + more).len() as int)
            == table_format::columns_fault(columns, columns.len() as int),
{
    let all = columns + more;
    lemma_same_start(columns, more, columns.len() as int);
    table::lemma_columns_fault_stays(all, columns.len() as int, all.len() as int);
}

proof fn lemma_same_start(columns: Seq<Column>, more: Seq<Column>, count: int)
    requires
        0 <= count <= columns.len(),
    ensures
        table_format::columns_fault(columns + more, count) == table_format::columns_fault(
            columns,
            count,
        ),
    decreases count,
{
    let all = columns + more;
    if count > 0 {
        lemma_same_start(columns, more, count - 1);
        let index = count - 1;
        assert(all[index] == columns[index]);
        assert(table_format::is_duplicate(all, index) == table_format::is_duplicate(
            columns,
            index,
        )) by {
            if table_format::is_duplicate(all, index) {
                let j = choose|j: int| 0 <= j < index && (#[trigger] all[j]).name == all[index].name;
                assert(columns[j].name == columns[index].name);
            }
            if table_format::is_duplicate(columns, index) {
                let j = choose|j: int|
                    0 <= j < index && (#[trigger] columns[j]).name == columns[index].name;
                assert(all[j].name == all[index].name);
            }
        }
        assert(table_format::has_primary_key(all, index) == table_format::has_primary_key(
            columns,
            index,
        )) by {
            if table_format::has_primary_key(all, index) {
                let j = choose|j: int| 0 <= j < index && (#[trigger] all[j]).primary_key;
                assert(columns[j].primary_key);
            }
            if table_format::has_primary_key(columns, index) {
                let j = choose|j: int| 0 <= j < index && (#[trigger] columns[j]).primary_key;
                assert(all[j].primary_key);
            }
        }
    }
}

/// Where several things are wrong, the name of the table comes first, then the
/// number of columns, then the columns, then the primary key, then the size of a
/// row.
pub proof fn declarations_are_checked_in_order(table: Table)
    ensures
        ({
            let columns = table.columns;
            let count = columns.len() as int;
            let fault = table.fault();
            let of_columns = table_format::columns_fault(columns, count);
            &&& !table_format::is_identifier(table.name) ==> fault == Some(
                SchemaFault::InvalidIdentifier { kind: "table", identifier: table.name },
            )
            &&& table_format::is_identifier(table.name) ==> {
                &&& count == 0 ==> fault == Some(SchemaFault::NoColumns)
                &&& count > 1024 ==> fault is Some && fault->0 is TooManyColumns
                &&& 0 < count <= 1024 && of_columns is Some ==> fault == of_columns
                &&& 0 < count <= 1024 && of_columns is None && (forall|i: int|
                    0 <= i < count ==> !(#[trigger] columns[i]).primary_key) ==> fault == Some(
                    SchemaFault::MissingPrimaryKey,
                )
            }
        }),
{
    let columns = table.columns;
    if table_format::has_primary_key(columns, columns.len() as int) {
        let key = choose|j: int| 0 <= j < columns.len() && (#[trigger] columns[j]).primary_key;
        assert(columns[key].primary_key);
    }
}

/// Where several things are wrong with the first faulty column, its own name comes
/// first, then that the name is taken, then that it is a second primary key, then
/// that it is a nullable one.
pub proof fn columns_are_checked_in_order(columns: Seq<Column>, column: Column)
    requires
        table_format::columns_fault(columns, columns.len() as int) is None,
    ensures
        ({
            let all = columns.push(column);
            let fault = table_format::columns_fault(all, all.len() as int);
            let taken = has_column(columns, column.name);
            let second = exists|i: int|
                0 <= i < columns.len() && (#[trigger] columns[i]).primary_key;
            if !table_format::is_identifier(column.name) {
                fault == Some(
                    SchemaFault::InvalidIdentifier { kind: "column", identifier: column.name },
                )
            } else if taken {
                fault == Some(SchemaFault::DuplicateColumn(column.name))
            } else if column.primary_key && second {
                fault == Some(SchemaFault::MultiplePrimaryKeys)
            } else if column.primary_key && column.nullable {
                fault == Some(SchemaFault::NullablePrimaryKey(column.name))
            } else {
                fault is None
            }
        }),
{
    let all = columns.push(column);
    let last = columns.len() as int;
    assert(all =~= columns + seq![column]);
    lemma_same_start(columns, seq![column], last);
    assert(all[last] == column);
    assert(table_format::is_duplicate(all, last) == has_column(columns, column.name)) by {
        if table_format::is_duplicate(all, last) {
            let j = choose|j: int| 0 <= j < last && (#[trigger] all[j]).name == all[last].name;
            assert(columns[j].name == column.name);
        }
        if has_column(columns, column.name) {
            let j = choose|j: int| 0 <= j < last && (#[trigger] columns[j]).name == column.name;
            assert(all[j].name == all[last].name);
        }
    }
    if table_format::has_primary_key(all, last) {
        let j = choose|j: int| 0 <= j < last && (#[trigger] all[j]).primary_key;
        assert(columns[j].primary_key);
    }
    if exists|i: int| 0 <= i < columns.len() && (#[trigger] columns[i]).primary_key {
        let j = choose|i: int| 0 <= i < columns.len() && (#[trigger] columns[i]).primary_key;
        assert(all[j].primary_key);
    }
}

} // verus!
