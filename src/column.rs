use vstd::prelude::*;

use crate::data_type::DataType;

verus! {

/// Read access to a column's description.
pub trait ColumnInfo {
    /// The column's name.
    fn get_name(&self) -> &str;

    /// The column's storage type.
    fn get_data_type(&self) -> &DataType;
}

/// A column of a table's schema. `nullable` is advisory: no null marker is
/// stored.
#[derive(Clone, Debug)]
pub struct Column {
    pub name: String,
    pub data_type: DataType,
    pub nullable: bool,
}

impl Column {
    pub fn new(name: String, data_type: DataType, nullable: bool) -> (r: Column)
        ensures
            r.name@ == name@,
            r.data_type == data_type,
            r.nullable == nullable,
    {
        Column { name, data_type, nullable }
    }
}

impl ColumnInfo for Column {
    fn get_name(&self) -> &str {
        self.name.as_str()
    }

    fn get_data_type(&self) -> &DataType {
        &self.data_type
    }
}

/// The storage types of a schema, column by column.
pub open spec fn column_types(columns: Seq<Column>) -> Seq<DataType> {
    columns.map_values(|c: Column| c.data_type)
}

/// The storage types of a schema, column by column.
pub fn types_of(columns: &[Column]) -> (r: Vec<DataType>)
    ensures
        r@ == column_types(columns@),
{
    let mut r: Vec<DataType> = Vec::new();
    let mut i: usize = 0;
    while i < columns.len()
        invariant
            i <= columns@.len(),
            r@ == column_types(columns@.subrange(0, i as int)),
        decreases columns@.len() - i,
    {
        r.push(columns[i].data_type);
        i = i + 1;
        assert(column_types(columns@.subrange(0, i as int)) =~= column_types(
            columns@.subrange(0, (i - 1) as int),
        ).push(columns@[i - 1].data_type));
    }
    assert(columns@.subrange(0, i as int) =~= columns@);
    r
}

} // verus!
