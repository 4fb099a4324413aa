//! What a cursor hands to the engine for one column of one row.

use vstd::prelude::*;

verus! {

/// The value of a column.
#[derive(Debug, Clone, PartialEq, Eq)]
pub enum ColumnValue {
    /// Nothing is written for the column; the engine then reads it as null.
    Null,
    Integer(i64),
    Text(String),
}

/// Mathematical value of a [`ColumnValue`].
pub enum ColumnValueView {
    Null,
    Integer(i64),
    Text(Seq<char>),
}

impl View for ColumnValue {
    type V = ColumnValueView;

    open spec fn view(&self) -> ColumnValueView {
        match *self {
            ColumnValue::Null => ColumnValueView::Null,
            ColumnValue::Integer(number) => ColumnValueView::Integer(number),
            ColumnValue::Text(text) => ColumnValueView::Text(text@),
        }
    }
}

} // verus!
