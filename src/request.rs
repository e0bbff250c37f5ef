use vstd::prelude::*;
use crate::value::Value;

verus! {

/// Why a request was refused.
#[derive(Debug, Clone, Copy, PartialEq, Eq, Structural)]
pub enum ErrorCode {
    BadTable,
    BadRow,
    BadValue,
    BadForeign,
    BadQuery,
    NotFound,
    TxnAbort,
    BadRequest,
    ServerBusy,
    Unimplemented,
}

/// What a client asks of one table.
#[derive(Debug, Clone)]
pub enum Command {
    Insert(Vec<Value>),
    /// Object id, expected version (0: any), new values.
    Update(i64, i64, Vec<Value>),
    Drop(i64),
    Get(i64),
    /// Column index (0: the row id), operator code, comparison value.
    Query(i32, i32, Value),
    Exit,
}

/// A decoded request: the table it is about and the command.
#[derive(Debug, Clone)]
pub struct Request {
    pub table_id: i32,
    pub command: Command,
}

/// The answer to one request.
#[derive(Debug, Clone)]
pub enum Response {
    Connected,
    /// New row id and its version.
    Insert(i64, i64),
    /// New version.
    Update(i64),
    Drop,
    /// Version and values of the row.
    Get(i64, Vec<Value>),
    /// Ids of the matching rows.
    Query(Vec<i64>),
    Error(ErrorCode),
}

} // verus!
