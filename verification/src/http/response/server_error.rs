//! The responses that report a failure of the server.

use crate::http::response::{status_only, Response, ResponseStatus};
use crate::http::Headers;
use crate::http::Version;
use vstd::prelude::*;

verus! {

/// The response to a failure that has no status of its own.
pub fn generic() -> (r: Response)
    ensures
        r@ == status_only(ResponseStatus::ServerError),
{
    Response {
        version: Version::Ver1_1,
        status: ResponseStatus::ServerError,
        dyn_headers: Headers::new(),
        body_data: None,
    }
}

} // verus!
