use vstd::prelude::*;

use crate::value::Value;

verus! {

/// A native `Error` is its own rejection payload.
pub fn Promise_Rejection_fromError(error: Value) -> (r: Value)
    ensures
        r == error,
{
    error
}

/// Reads a rejection back as a native `Error`: only native `Error` values are
/// recognised; strings and other payloads give `None`.
pub fn Promise_Rejection__toError(rejection: Value) -> (r: Option<Value>)
    ensures
        r == (if rejection is Error { Some(rejection) } else { None::<Value> }),
{
    match rejection {
        Value::Error(_) => Some(rejection),
        _ => None,
    }
}

} // verus!
