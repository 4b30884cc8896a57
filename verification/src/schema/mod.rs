//! Table schemas and the encoding of rows.

mod cursor;
pub mod declaration_laws;
pub mod decoding_laws;
pub mod row;
pub mod row_format;
pub mod row_laws;
mod row_lemmas;
pub mod stored_row_laws;
mod table;
pub mod table_format;
pub mod table_laws;
pub mod view_laws;

pub use row::{RowError, RowLayout, Value, ValueRef};
pub use table::{ColumnSchema, DataType, SchemaError, TableSchema};
pub use table_format::MAX_ROW_SIZE;
