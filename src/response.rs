//! The envelope in which the HTTP demo surface answers: a success flag with
//! either data or an error message.

use vstd::prelude::*;

verus! {

/// An answer: `ok` with `data`, or not `ok` with an `error` message.
#[derive(Clone, Debug)]
pub struct ApiResponse<T> {
    pub ok: bool,
    pub data: Option<T>,
    pub error: Option<String>,
}

/// A successful answer carrying `data`.
pub fn ok<T>(data: T) -> (r: ApiResponse<T>)
    ensures
        r.ok,
        r.data == Some(data),
        r.error is None,
{
    ApiResponse { ok: true, data: Some(data), error: None }
}

/// A failed answer carrying the message `msg`.
pub fn err<T>(msg: String) -> (r: ApiResponse<T>)
    ensures
        !r.ok,
        r.data is None,
        r.error == Some(msg),
{
    ApiResponse { ok: false, data: None, error: Some(msg) }
}

} // verus!
