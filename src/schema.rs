use vstd::prelude::*;
use crate::value::ColumnType;

verus! {

/// One column of a table: its type and, for a foreign-key column, the id of the
/// table it refers to (0 when it refers to none).
#[derive(Debug, Clone, Copy, PartialEq, Eq, Structural)]
pub struct Column {
    pub c_type: ColumnType,
    pub c_ref: i32,
}

/// The schema of one table: its columns in order.
#[derive(Debug, Clone)]
pub struct Table {
    pub t_cols: Vec<Column>,
}

} // verus!
