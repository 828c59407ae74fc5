//! The response model and its serialisation to wire bytes.

use crate::bytes::{append, decimal, to_decimal};
use crate::encoding::{encoded, read_and_encode, Encoding};
use crate::http::error::{BadRequest, IoFailure};
use crate::http::response::content_type::ContentType;
use crate::http::{crlf, crlf_bytes, header_delimiter, Headers, Version, WriteHeader};
use vstd::prelude::*;
use vstd::string::*;
use vstd::utf8::encode_utf8;

pub mod client_error;
pub mod content_type;
pub mod server_error;
pub mod success;

verus! {

/// A response: the status line's parts, the headers that do not describe the
/// body, and the body with what describes it.
#[derive(Debug, Clone, PartialEq, Eq)]
pub struct Response {
    pub version: Version,
    pub status: ResponseStatus,
    pub dyn_headers: Headers,
    pub body_data: Option<BodyData>,
}

/// A body as it goes on the wire, with its content type and the encoding
/// that was applied to it.
#[derive(Debug, Clone, PartialEq, Eq)]
pub struct BodyData {
    pub content_type: ContentType,
    pub opt_encoding: Option<Encoding>,
    pub body: Vec<u8>,
}

/// The status of a response.
#[derive(Debug, Clone, Copy, PartialEq, Eq, Structural)]
pub enum ResponseStatus {
    BadRequest,
    NotFound,
    Okay,
    ServerError,
    Created,
}

/// The model of a `BodyData`.
pub struct BodyDataView {
    pub content_type: ContentType,
    pub opt_encoding: Option<Encoding>,
    pub body: Seq<u8>,
}

/// The model of a `Response`.
pub struct ResponseView {
    pub version: Version,
    pub status: ResponseStatus,
    pub headers: Seq<(Seq<u8>, Seq<u8>)>,
    pub body_data: Option<BodyDataView>,
}

impl View for BodyData {
    type V = BodyDataView;

    open spec fn view(&self) -> BodyDataView {
        BodyDataView {
            content_type: self.content_type,
            opt_encoding: self.opt_encoding,
            body: self.body@,
        }
    }
}

impl View for Response {
    type V = ResponseView;

    open spec fn view(&self) -> ResponseView {
        ResponseView {
            version: self.version,
            status: self.status,
            headers: self.dyn_headers@,
            body_data: match self.body_data {
                Some(b) => Some(b@),
                None => None,
            },
        }
    }
}

impl ResponseStatus {
    /// The status code and reason phrase.
    pub open spec fn token(self) -> Seq<u8> {
        match self {
            ResponseStatus::Okay => "200 OK".spec_bytes(),
            ResponseStatus::Created => "201 Created".spec_bytes(),
            ResponseStatus::BadRequest => "400 Bad Request".spec_bytes(),
            ResponseStatus::NotFound => "404 Not Found".spec_bytes(),
            ResponseStatus::ServerError => "500 Internal Server Error".spec_bytes(),
        }
    }

    /// Appends the status code and reason phrase to `writer`.
    pub fn write_to(self, writer: &mut Vec<u8>)
        ensures
            final(writer)@ == old(writer)@ + self.token(),
    {
        append(writer, self.serialize().as_bytes());
    }

    /// The status code and reason phrase.
    pub fn serialize(self) -> (r: &'static str)
        ensures
            r.spec_bytes() == self.token(),
    {
        match self {
            ResponseStatus::Okay => "200 OK",
            ResponseStatus::Created => "201 Created",
            ResponseStatus::BadRequest => "400 Bad Request",
            ResponseStatus::NotFound => "404 Not Found",
            ResponseStatus::ServerError => "500 Internal Server Error",
        }
    }
}

/// One header line on the wire.
pub open spec fn header_line(key: Seq<u8>, value: Seq<u8>) -> Seq<u8> {
    key + header_delimiter() + value + crlf()
}

/// The header lines of `headers`, in their order.
pub open spec fn header_lines(headers: Seq<(Seq<u8>, Seq<u8>)>) -> Seq<u8>
    decreases headers.len(),
{
    if headers.len() == 0 {
        Seq::empty()
    } else {
        header_lines(headers.drop_last()) + header_line(headers.last().0, headers.last().1)
    }
}

/// The status line on the wire.
pub open spec fn status_line(version: Version, status: ResponseStatus) -> Seq<u8> {
    version.token() + seq![32u8] + status.token() + crlf()
}

/// The header lines that describe a body: its type, the length of the bytes
/// that go on the wire, and the encoding where one was applied.
pub open spec fn body_header_lines(body_data: BodyDataView) -> Seq<u8> {
    header_line("Content-Type".spec_bytes(), body_data.content_type.token()) + header_line(
        "Content-Length".spec_bytes(),
        decimal(body_data.body.len()),
    ) + match body_data.opt_encoding {
        Some(e) => header_line("Content-Encoding".spec_bytes(), e.token()),
        None => Seq::empty(),
    }
}

/// The bytes of a response on the wire.
pub open spec fn wire(response: ResponseView) -> Seq<u8> {
    status_line(response.version, response.status) + header_lines(response.headers)
        + match response.body_data {
        Some(b) => body_header_lines(b) + crlf() + b.body,
        None => crlf(),
    }
}

/// A response with the given status and nothing else.
pub open spec fn status_only(status: ResponseStatus) -> ResponseView {
    ResponseView {
        version: Version::Ver1_1,
        status,
        headers: Seq::empty(),
        body_data: None,
    }
}

/// The success response that carries `body`.
pub open spec fn body_response(
    content_type: ContentType,
    opt_encoding: Option<Encoding>,
    body: Seq<u8>,
) -> ResponseView {
    ResponseView {
        version: Version::Ver1_1,
        status: ResponseStatus::Okay,
        headers: Seq::empty(),
        body_data: Some(BodyDataView { content_type, opt_encoding, body }),
    }
}

/// The response to an I/O failure: not found where the thing asked for is
/// absent or out of reach, a server error for every other failure.
pub open spec fn failure_response(failure: IoFailure) -> ResponseView {
    match failure {
        IoFailure::NotFound => status_only(ResponseStatus::NotFound),
        IoFailure::PermissionDenied => status_only(ResponseStatus::NotFound),
        IoFailure::Other => status_only(ResponseStatus::ServerError),
    }
}

/// The response to a client protocol error: a bad request whose `Cause`
/// header describes the error.
pub open spec fn bad_request_response(error: BadRequest) -> ResponseView {
    ResponseView {
        version: Version::Ver1_1,
        status: ResponseStatus::BadRequest,
        headers: seq![("Cause".spec_bytes(), encode_utf8(error.cause()))],
        body_data: None,
    }
}

/// Appends the status line to `writer`.
pub fn write_status_line(writer: &mut Vec<u8>, version: Version, status: ResponseStatus)
    ensures
        final(writer)@ == old(writer)@ + status_line(version, status),
{
    version.write_to(writer);
    let space = vec![32u8];
    assert(space@ =~= seq![32u8]);
    append(writer, space.as_slice());
    status.write_to(writer);
    append(writer, crlf_bytes().as_slice());
    assert(writer@ =~= old(writer)@ + status_line(version, status));
}

/// Appends the line of every header of `headers` to `writer`, in their order.
pub fn write_headers(writer: &mut Vec<u8>, headers: &Headers)
    ensures
        final(writer)@ == old(writer)@ + header_lines(headers@),
{
    let mut i: usize = 0;
    assert(old(writer)@ + header_lines(headers@.take(0)) =~= old(writer)@);
    while i < headers.entries.len()
        invariant
            0 <= i <= headers.entries@.len(),
            writer@ == old(writer)@ + header_lines(headers@.take(i as int)),
        decreases headers.entries@.len() - i,
    {
        let header = &headers.entries[i];
        writer.write_header(header.key.as_slice(), header.value.as_slice());
        proof {
            let next = headers@.take(i + 1);
            assert(next.drop_last() =~= headers@.take(i as int));
            assert(next.last() == header@);
            assert(header_lines(next) == header_lines(next.drop_last()) + header_line(
                next.last().0,
                next.last().1,
            ));
            assert(writer@ =~= old(writer)@ + header_lines(next));
        }
        i += 1;
    }
    assert(headers@.take(i as int) =~= headers@);
}

/// Appends the header lines that describe `body_data` to `writer`.
pub fn write_body_headers(writer: &mut Vec<u8>, body_data: &BodyData)
    ensures
        final(writer)@ == old(writer)@ + body_header_lines(body_data@),
{
    writer.write_header("Content-Type".as_bytes(), body_data.content_type.as_text());
    writer.write_header("Content-Length".as_bytes(), to_decimal(body_data.body.len()).as_slice());
    if let Some(encoding) = body_data.opt_encoding {
        writer.write_header("Content-Encoding".as_bytes(), encoding.name().as_bytes());
    }
    assert(writer@ =~= old(writer)@ + body_header_lines(body_data@));
}

impl Default for Response {
    fn default() -> (r: Response)
        ensures
            r@ == status_only(ResponseStatus::Okay),
    {
        Response {
            version: Version::Ver1_1,
            status: ResponseStatus::Okay,
            dyn_headers: Headers::new(),
            body_data: None,
        }
    }
}

impl Response {
    /// Appends the response to `stream` as it goes on the wire: the status
    /// line, every header, the lines that describe the body if there is one,
    /// the empty line, and the body.
    pub fn write_to(self, stream: &mut Vec<u8>)
        ensures
            final(stream)@ == old(stream)@ + wire(self@),
    {
        let Response { version, status, dyn_headers, body_data } = self;
        write_status_line(stream, version, status);
        write_headers(stream, &dyn_headers);
        match body_data {
            Some(body_data) => {
                write_body_headers(stream, &body_data);
                append(stream, crlf_bytes().as_slice());
                append(stream, body_data.body.as_slice());
                assert(stream@ =~= old(stream)@ + wire(self@));
            },
            None => {
                append(stream, crlf_bytes().as_slice());
                assert(stream@ =~= old(stream)@ + wire(self@));
            },
        }
    }

    /// The response to a client protocol error.
    pub fn from_bad_request(error: BadRequest) -> (r: Response)
        ensures
            r@ == bad_request_response(error),
    {
        let mut headers = Headers::new();
        headers.insert("Cause".as_bytes_vec(), error.to_string().as_str().as_bytes_vec());
        assert(headers@ =~= seq![("Cause".spec_bytes(), encode_utf8(error.cause()))]);
        Response {
            version: Version::Ver1_1,
            status: ResponseStatus::BadRequest,
            dyn_headers: headers,
            body_data: None,
        }
    }

    /// The response to an I/O failure.
    pub fn from_io_failure(failure: IoFailure) -> (r: Response)
        ensures
            r@ == failure_response(failure),
    {
        match failure {
            IoFailure::NotFound => client_error::not_found(),
            IoFailure::PermissionDenied => client_error::not_found(),
            IoFailure::Other => server_error::generic(),
        }
    }

    /// The success response that carries `body`, or the response to the
    /// failure that stands in its place.
    pub fn with_body(
        content_type: ContentType,
        opt_encoding: Option<Encoding>,
        body: Result<Vec<u8>, IoFailure>,
    ) -> (r: Response)
        ensures
            r@ == match body {
                Ok(b) => body_response(content_type, opt_encoding, b@),
                Err(f) => failure_response(f),
            },
    {
        match body {
            Ok(body) => Response {
                version: Version::Ver1_1,
                status: ResponseStatus::Okay,
                dyn_headers: Headers::new(),
                body_data: Some(BodyData { content_type, opt_encoding, body }),
            },
            Err(f) => Response::from_io_failure(f),
        }
    }

    /// The success response whose body is `raw` under the encoding asked
    /// for, or `raw` itself where none is asked for.
    pub fn encoded_body(
        content_type: ContentType,
        raw: Vec<u8>,
        opt_encoding: Option<Encoding>,
    ) -> (r: Response)
        ensures
            r@ == encoded_response(content_type, raw@, opt_encoding),
    {
        let body = match opt_encoding {
            Some(encoding) => read_and_encode(raw.as_slice(), encoding),
            None => Ok(raw),
        };
        Response::with_body(content_type, opt_encoding, body)
    }
}

/// The body that goes on the wire for `raw`: `raw` itself without an
/// encoding, and otherwise what `raw` becomes under the encoding.
pub open spec fn wire_body(raw: Seq<u8>, opt_encoding: Option<Encoding>) -> Seq<u8> {
    match opt_encoding {
        None => raw,
        Some(e) => encoded(raw, e),
    }
}

/// The success response for the body `raw` and the encoding asked for: it
/// names the encoding and carries the body as it goes on the wire.
pub open spec fn encoded_response(
    content_type: ContentType,
    raw: Seq<u8>,
    opt_encoding: Option<Encoding>,
) -> ResponseView {
    body_response(content_type, opt_encoding, wire_body(raw, opt_encoding))
}

} // verus!
