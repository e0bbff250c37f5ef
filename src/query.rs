use vstd::prelude::*;
use std::cmp::Ordering;
use crate::request::ErrorCode;
use crate::value::{
    Value, float_compare, float_order, integer_compare, text_compare, text_order,
};

verus! {

pub const OP_AL: i32 = 1;

pub const OP_EQ: i32 = 2;

pub const OP_NE: i32 = 3;

pub const OP_LT: i32 = 4;

pub const OP_GT: i32 = 5;

pub const OP_LE: i32 = 6;

pub const OP_GE: i32 = 7;

/// A query operator.
#[derive(Debug, Clone, Copy, PartialEq, Eq, Structural)]
pub enum QueryOp {
    All,
    Eq,
    Ne,
    Lt,
    Gt,
    Le,
    Ge,
}

pub open spec fn op_of_code(code: i32) -> Option<QueryOp> {
    if code == OP_AL {
        Some(QueryOp::All)
    } else if code == OP_EQ {
        Some(QueryOp::Eq)
    } else if code == OP_NE {
        Some(QueryOp::Ne)
    } else if code == OP_LT {
        Some(QueryOp::Lt)
    } else if code == OP_GT {
        Some(QueryOp::Gt)
    } else if code == OP_LE {
        Some(QueryOp::Le)
    } else if code == OP_GE {
        Some(QueryOp::Ge)
    } else {
        None
    }
}

impl QueryOp {
    /// The operator that a wire code names, if any.
    pub fn from_code(code: i32) -> (r: Option<QueryOp>)
        ensures
            r == op_of_code(code),
    {
        if code == OP_AL {
            Some(QueryOp::All)
        } else if code == OP_EQ {
            Some(QueryOp::Eq)
        } else if code == OP_NE {
            Some(QueryOp::Ne)
        } else if code == OP_LT {
            Some(QueryOp::Lt)
        } else if code == OP_GT {
            Some(QueryOp::Gt)
        } else if code == OP_LE {
            Some(QueryOp::Le)
        } else if code == OP_GE {
            Some(QueryOp::Ge)
        } else {
            None
        }
    }

    /// Whether an ordering between a stored value and the operand satisfies a
    /// relational operator; `None` for `All`, which is no relation.
    pub open spec fn relates(self, o: Ordering) -> Option<bool> {
        match self {
            QueryOp::All => None,
            QueryOp::Eq => Some(o == Ordering::Equal),
            QueryOp::Ne => Some(o != Ordering::Equal),
            QueryOp::Lt => Some(o == Ordering::Less),
            QueryOp::Gt => Some(o == Ordering::Greater),
            QueryOp::Le => Some(o != Ordering::Greater),
            QueryOp::Ge => Some(o != Ordering::Less),
        }
    }
}

/// Applies a relational operator to an ordering; `All` is refused.
pub fn value_is_satisfied(op: QueryOp, o: Ordering) -> (r: Result<bool, ErrorCode>)
    ensures
        r == (match op.relates(o) {
            Some(b) => Ok(b),
            None => Err(ErrorCode::BadQuery),
        }),
{
    let less = matches!(o, Ordering::Less);
    let equal = matches!(o, Ordering::Equal);
    let greater = matches!(o, Ordering::Greater);
    match op {
        QueryOp::All => Err(ErrorCode::BadQuery),
        QueryOp::Eq => Ok(equal),
        QueryOp::Ne => Ok(!equal),
        QueryOp::Lt => Ok(less),
        QueryOp::Gt => Ok(greater),
        QueryOp::Le => Ok(!greater),
        QueryOp::Ge => Ok(!less),
    }
}

/// Whether a stored column value satisfies `op` against the operand; `None`
/// when the pairing of types and operator is not allowed.
pub open spec fn cell_test(op: QueryOp, stored: Value, other: Value) -> Option<bool> {
    match (stored, other) {
        (Value::Integer(i), Value::Integer(j)) => op.relates(
            if i < j {
                Ordering::Less
            } else if i > j {
                Ordering::Greater
            } else {
                Ordering::Equal
            },
        ),
        (Value::Float(i), Value::Float(j)) => {
            if op is Eq || op is All {
                None
            } else {
                match float_order(i, j) {
                    Some(o) => op.relates(o),
                    None => Some(op is Ne),
                }
            }
        },
        (Value::Text(i), Value::Text(j)) => op.relates(text_order(i@, j@)),
        (Value::Foreign(i), Value::Foreign(j)) => {
            if op is Eq {
                Some(i == j)
            } else if op is Ne {
                Some(i != j)
            } else {
                None
            }
        },
        _ => None,
    }
}

/// Evaluates `cell_test` on a stored value.
pub fn test_cell(op: QueryOp, stored: &Value, other: &Value) -> (r: Result<bool, ErrorCode>)
    ensures
        r == (match cell_test(op, *stored, *other) {
            Some(b) => Ok(b),
            None => Err(ErrorCode::BadQuery),
        }),
{
    match (stored, other) {
        (Value::Integer(i), Value::Integer(j)) => value_is_satisfied(op, integer_compare(*i, *j)),
        (Value::Float(i), Value::Float(j)) => {
            match op {
                QueryOp::Eq | QueryOp::All => Err(ErrorCode::BadQuery),
                _ => match float_compare(*i, *j) {
                    Some(o) => value_is_satisfied(op, o),
                    None => Ok(op == QueryOp::Ne),
                },
            }
        },
        (Value::Text(i), Value::Text(j)) => value_is_satisfied(op, text_compare(i, j)),
        (Value::Foreign(i), Value::Foreign(j)) => {
            match op {
                QueryOp::Eq => Ok(*i == *j),
                QueryOp::Ne => Ok(*i != *j),
                _ => Err(ErrorCode::BadQuery),
            }
        },
        _ => Err(ErrorCode::BadQuery),
    }
}

/// For a query on the row id (column 0): whether row `id` matches, or `None`
/// when the operand or operator is not allowed there. `Null` matches every row.
pub open spec fn id_test(op: QueryOp, other: Value, id: i64) -> Option<bool> {
    match other {
        Value::Null => Some(true),
        Value::Integer(x) => {
            if op is Eq {
                Some(id == x)
            } else if op is Ne {
                Some(id != x)
            } else {
                None
            }
        },
        _ => None,
    }
}

/// Whether a query on the row id with this operator and operand is allowed.
pub open spec fn id_query_allowed(op: QueryOp, other: Value) -> bool {
    match other {
        Value::Null => true,
        Value::Integer(_) => op is Eq || op is Ne,
        _ => false,
    }
}

/// Evaluates `id_test` on an allowed query.
pub fn test_id(op: QueryOp, other: &Value, id: i64) -> (r: bool)
    requires
        id_query_allowed(op, *other),
    ensures
        id_test(op, *other, id) == Some(r),
{
    match other {
        Value::Integer(x) => {
            if op == QueryOp::Eq {
                id == *x
            } else {
                id != *x
            }
        },
        _ => true,
    }
}

} // verus!
