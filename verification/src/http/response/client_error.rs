//! The responses that report an error of the client.

use crate::http::response::{status_only, Response, ResponseStatus};
use crate::http::Headers;
use crate::http::Version;
use vstd::prelude::*;

verus! {

/// The response to a request for what is not there.
pub fn not_found() -> (r: Response)
    ensures
        r@ == status_only(ResponseStatus::NotFound),
{
    Response {
        version: Version::Ver1_1,
        status: ResponseStatus::NotFound,
        dyn_headers: Headers::new(),
        body_data: None,
    }
}

} // verus!
