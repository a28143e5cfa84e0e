//! The messages between the desk and its per-user helper: a request names an
//! operation on a file, and an answer says whether it worked, with an error, a
//! JSON value or the length of the raw bytes that follow it.

use vstd::prelude::*;

verus! {

/// A JSON value, carried through unread.
#[verifier::external_type_specification]
#[verifier::external_body]
pub struct ExJsonValue(serde_json::Value);

/// What the helper process is asked to do with a file: the operation, the
/// path, a second path for a rename, and the length of a payload that follows.
pub struct Request {
    pub op: String,
    pub path: String,
    pub to: String,
    pub len: usize,
}

/// The helper's answer: success or failure, the reason for a failure, a value
/// for an operation that returns one, and the length of a payload that follows.
pub struct Response {
    pub ok: bool,
    pub error: Option<String>,
    pub data: Option<serde_json::Value>,
    pub len: usize,
}

impl Response {
    /// A failure, for the reason given, with nothing after it.
    pub fn err(msg: &str) -> (r: Response)
        ensures
            !r.ok,
            r.error matches Some(e) && e@ == msg@,
            r.data is None,
            r.len == 0,
    {
        Response { ok: false, error: Some(msg.to_owned()), data: None, len: 0 }
    }

    /// A success that returns a value.
    pub fn ok_data(v: serde_json::Value) -> (r: Response)
        ensures
            r.ok,
            r.error is None,
            r.data == Some(v),
            r.len == 0,
    {
        Response { ok: true, error: None, data: Some(v), len: 0 }
    }

    /// A success followed by `len` bytes of payload.
    pub fn ok_bytes(len: usize) -> (r: Response)
        ensures
            r.ok,
            r.error is None,
            r.data is None,
            r.len == len,
    {
        Response { ok: true, error: None, data: None, len }
    }
}

} // verus!
