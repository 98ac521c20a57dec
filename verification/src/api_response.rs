//! The envelope of every HTTP API reply.

use vstd::prelude::*;
use crate::text::owned;

verus! {

/// A reply: a status code (0 for success), a message and the payload.
#[derive(Debug)]
pub struct ApiResponse<T> {
    pub status: i32,
    pub msg: String,
    pub data: T,
}

impl<T> ApiResponse<T> {
    /// A successful reply: status 0, message "ok".
    pub fn success(data: T) -> (res: ApiResponse<T>)
        ensures
            res.status == 0,
            res.msg@ == "ok"@,
            res.data == data,
    {
        ApiResponse { status: 0, msg: owned("ok"), data }
    }

    /// A reply with the given status and message.
    pub fn error(status: i32, msg: String, data: T) -> (res: ApiResponse<T>)
        ensures
            res.status == status,
            res.msg == msg,
            res.data == data,
    {
        ApiResponse { status, msg, data }
    }
}

} // verus!
