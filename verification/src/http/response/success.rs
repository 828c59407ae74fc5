//! The responses that report success.

use crate::encoding::Encoding;
use crate::http::response::content_type::{Application, ContentType, Text};
use crate::http::response::{encoded_response, status_only, Response, ResponseStatus};
use crate::http::Headers;
use crate::http::Version;
use vstd::prelude::*;
use vstd::string::*;
use vstd::utf8::encode_utf8;

verus! {

/// A plain-text response whose body is the bytes of `str`, encoded where an
/// encoding is asked for.
pub fn plain_text(str: String, opt_encoding: Option<Encoding>) -> (r: Response)
    ensures
        r@ == encoded_response(ContentType::Text(Text::Plain), encode_utf8(str@), opt_encoding),
{
    Response::encoded_body(
        ContentType::Text(Text::Plain),
        str.as_str().as_bytes_vec(),
        opt_encoding,
    )
}

/// An octet-stream response whose body is `unencoded_body`, encoded where an
/// encoding is asked for.
pub fn octet_stream(unencoded_body: Vec<u8>, opt_encoding: Option<Encoding>) -> (r: Response)
    ensures
        r@ == encoded_response(
            ContentType::Application(Application::OctetStream),
            unencoded_body@,
            opt_encoding,
        ),
{
    Response::encoded_body(
        ContentType::Application(Application::OctetStream),
        unencoded_body,
        opt_encoding,
    )
}

/// The response that reports that something was created.
pub fn created() -> (r: Response)
    ensures
        r@ == status_only(ResponseStatus::Created),
{
    Response {
        version: Version::Ver1_1,
        status: ResponseStatus::Created,
        dyn_headers: Headers::new(),
        body_data: None,
    }
}

} // verus!
