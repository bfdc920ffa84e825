use vstd::prelude::*;

use crate::column::Column;
use crate::data_type::DataType;
use crate::error::StorageError;
use crate::table::{insert_rows, scan, Table};
use crate::value::{row_view, rows_view, ColumnValue};

verus! {

broadcast use vstd::std_specs::vec::group_vec_axioms, vstd::seq::group_seq_axioms;

/// The storage engine: the tables it serves, the first of which takes all
/// reads and writes.
#[derive(Debug)]
pub struct BabylonStorage {
    pub tables: Vec<Table>,
}

/// The schema of the table that the engine starts with: an unsigned 64-bit
/// `id`, then `first_name` and `last_name`, eight bytes of text each.
pub open spec fn users_schema() -> Seq<DataType> {
    seq![
        DataType::Integer { signed: false, bytes: 8 },
        DataType::String(8),
        DataType::String(8),
    ]
}

impl BabylonStorage {
    /// There is a first table and it is well formed.
    pub open spec fn wf(&self) -> bool {
        &&& self.tables@.len() >= 1
        &&& self.tables@[0].wf()
    }

    /// The table that reads and writes go to.
    pub open spec fn main_table(&self) -> Table {
        self.tables@[0]
    }

    /// An engine with one empty table, `users`, over `users_schema()`.
    pub fn build() -> (r: Result<BabylonStorage, StorageError>)
        ensures
            r is Ok,
            r->Ok_0.wf(),
            r->Ok_0.tables@.len() == 1,
            r->Ok_0.main_table().schema() == users_schema(),
            r->Ok_0.main_table().page_rows().len() == 0,
    {
        let columns: Vec<Column> = vec![
            Column::new("id".to_owned(), DataType::Integer { bytes: 8, signed: false }, true),
            Column::new("first_name".to_owned(), DataType::String(8), true),
            Column::new("last_name".to_owned(), DataType::String(8), true),
        ];
        let table = Table::new("users".to_owned(), columns);
        assert(table.schema() =~= users_schema());
        Ok(BabylonStorage { tables: vec![table] })
    }

    /// All rows of the first table, in page order and then insertion order.
    pub fn iter(&self) -> (r: Vec<Vec<ColumnValue>>)
        requires
            self.wf(),
        ensures
            rows_view(r@) == scan(self.main_table().schema(), self.main_table().page_rows()),
    {
        self.tables[0].iter()
    }

    /// Inserts a row into the first table.
    pub fn insert(&mut self, row: &[ColumnValue]) -> (r: Result<(), StorageError>)
        requires
            old(self).wf(),
        ensures
            final(self).wf(),
            final(self).tables@.len() == old(self).tables@.len(),
            final(self).main_table().columns == old(self).main_table().columns,
            final(self).main_table().page_rows() == insert_rows(
                old(self).main_table().schema(),
                old(self).main_table().page_rows(),
                row_view(row@),
            ).0,
            r == insert_rows(
                old(self).main_table().schema(),
                old(self).main_table().page_rows(),
                row_view(row@),
            ).1,
            r is Err ==> final(self).tables@ == old(self).tables@,
    {
        let r = self.tables[0].insert(row);
        assert(r is Err ==> self.tables@ =~= old(self).tables@);
        r
    }
}

} // verus!
