use vstd::prelude::*;

verus! {

/// A typed value, as supplied to an insert or produced by decoding.
#[derive(Clone, Debug)]
pub enum ColumnValue {
    /// Text.
    StringLiteral(String),
    /// An unsigned integer.
    UnsignedInteger(u64),
    /// A signed integer.
    SignedInteger(i64),
}

/// The mathematical content of a `ColumnValue`.
pub enum ValueView {
    Text(Seq<char>),
    Unsigned(u64),
    Signed(i64),
}

impl View for ColumnValue {
    type V = ValueView;

    open spec fn view(&self) -> ValueView {
        match self {
            ColumnValue::StringLiteral(s) => ValueView::Text(s@),
            ColumnValue::UnsignedInteger(n) => ValueView::Unsigned(*n),
            ColumnValue::SignedInteger(n) => ValueView::Signed(*n),
        }
    }
}

impl PartialEq for ColumnValue {
    fn eq(&self, other: &ColumnValue) -> (r: bool) {
        match (self, other) {
            (ColumnValue::StringLiteral(a), ColumnValue::StringLiteral(b)) => *a == *b,
            (ColumnValue::UnsignedInteger(a), ColumnValue::UnsignedInteger(b)) => *a == *b,
            (ColumnValue::SignedInteger(a), ColumnValue::SignedInteger(b)) => *a == *b,
            _ => false,
        }
    }
}

impl vstd::std_specs::cmp::PartialEqSpecImpl for ColumnValue {
    open spec fn obeys_eq_spec() -> bool {
        true
    }

    open spec fn eq_spec(&self, other: &ColumnValue) -> bool {
        self@ == other@
    }
}

impl Eq for ColumnValue {

}

/// The views of a row of values, column by column.
pub open spec fn row_view(row: Seq<ColumnValue>) -> Seq<ValueView> {
    row.map_values(|v: ColumnValue| v@)
}

/// The views of several rows.
pub open spec fn rows_view(rows: Seq<Vec<ColumnValue>>) -> Seq<Seq<ValueView>> {
    rows.map_values(|r: Vec<ColumnValue>| row_view(r@))
}

} // verus!
