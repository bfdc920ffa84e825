//! Storage core of a small relational engine: a fixed-width row codec and a
//! slotted page container holding the rows of a single table.
//!
//! Column types have fixed widths, so a row of a schema always takes the same
//! number of bytes. Pages hold rows back to back with a directory of
//! `(offset, length)` entries and account for their free space; a table
//! routes each insert to the first page with room and reads rows back in page
//! order, then insertion order.

mod codec;
mod column;
mod data_type;
mod error;
mod integer;
mod page;
mod row;
mod statement;
mod storage;
mod table;
mod value;

pub use codec::{
    decode_value, encode_value, lemma_encoded_width, lemma_round_trip, lossy_utf8, no_trailing_nul,
    text_of, trim_nul, zeros,
};
pub use column::{column_types, types_of, Column, ColumnInfo};
pub use data_type::{supported_int_width, DataType};
pub use error::StorageError;
pub use integer::{fits_signed, le_bytes, le_value, pow256, signed_of, unsigned_of};
pub use page::{
    Page, PageFlags, PageHeader, PageType, PAGE_FLAG_DIRTY, PAGE_FLAG_EMPTY, PAGE_FLAG_FULL,
    PAGE_HEADER_SIZE, PAGE_INITIAL_FREE_SIZE, PAGE_SIZE, ROW_POINTER_SIZE,
};
pub use row::{
    all_supported, decode_row, decode_row_values, decoded_rows, encode_row, encode_row_bytes,
    lemma_encoded_row, lemma_row_round_trip, row_round_trips, row_width,
};
pub use statement::{
    decimal_u64, digits_value, insert_all, prepare_statement, word_value, words, Statement,
    StatementType,
};
pub use storage::{users_schema, BabylonStorage};
pub use table::{
    all_rows, first_fit, insert_rows, lemma_arity_rejected, lemma_empty_valid,
    lemma_insert_appends, lemma_overflow_rejected, lemma_rows_in_order, page_fits, pages_valid,
    scan, PageRows, Table, MAX_PAGES,
};
pub use value::{row_view, rows_view, ColumnValue, ValueView};
