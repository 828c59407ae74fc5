//! What a client gets for a request that is none: each fault has its own
//! error, and each error its own cause in the response.

use crate::bytes::find_first;
use crate::connection::refusal;
use crate::encoding::Encoding;
use crate::http::error::{BadRequest, InvalidTargetError};
use crate::http::request::{
    after_first, before_first, first_supported, first_supported_from, is_path, is_whitespace,
    read_headers, request_line, space, token_end, ReadFailure,
};
use crate::http::response::content_type::ContentType;
use crate::http::response::{body_response, encoded_response, ResponseStatus};
use crate::http::{crlf, header_delimiter, Header, Method};
use vstd::prelude::*;
use vstd::string::*;
use vstd::utf8::{encode_utf8, valid_utf8};

verus! {

/// A header line without the delimiter of a colon and a space refuses the
/// request as malformed, whatever headers came before it, and the response
/// is a bad request whose cause is the text of that error.
pub proof fn lemma_header_without_delimiter(
    input: Seq<u8>,
    pos: int,
    end: int,
    acc: Seq<(Seq<u8>, Seq<u8>)>,
)
    requires
        0 <= pos < end,
        crate::bytes::find_from(input, crlf(), pos) == Some(end),
        find_first(input.subrange(pos, end), header_delimiter()) is None,
    ensures
        Header::parse(input.subrange(pos, end)) == Err::<(Seq<u8>, Seq<u8>), BadRequest>(
            BadRequest::MalformedHeader,
        ),
        read_headers(input, pos, acc) == Err::<(Seq<(Seq<u8>, Seq<u8>)>, int), ReadFailure>(
            ReadFailure::Rejected(BadRequest::MalformedHeader),
        ),
        refusal(ReadFailure::Rejected(BadRequest::MalformedHeader)) matches Some(response)
            && response.status == ResponseStatus::BadRequest && response.headers == seq![
            ("Cause".spec_bytes(), encode_utf8("Malformed header. Recquires delimiting ': '"@)),
        ],
{
}

/// A request line whose target does not start with a slash is refused with
/// the error of the target, not with another, where the line is valid UTF-8
/// and its method is a supported one.
pub proof fn lemma_target_without_slash(line: Seq<u8>)
    requires
        valid_utf8(line),
        Method::from_token(before_first(line, space())) is Some,
        after_first(line, space()) matches Some(rest) && !is_path(before_first(rest, space())),
    ensures
        request_line(line) == Err::<(Method, Seq<u8>, crate::http::Version), BadRequest>(
            BadRequest::BadTarget(InvalidTargetError::DoesNotStartWithSlash),
        ),
        refusal(
            ReadFailure::Rejected(BadRequest::BadTarget(InvalidTargetError::DoesNotStartWithSlash)),
        ) matches Some(response) && response.status == ResponseStatus::BadRequest
            && response.headers == seq![
            ("Cause".spec_bytes(), encode_utf8("Malformed target: does not start with '/'"@)),
        ],
{
}

/// A value that is one token, without whitespace, asks for the encoding
/// that the token names, and for none where it names none.
pub proof fn lemma_single_token(token: Seq<u8>)
    requires
        token.len() > 0,
        forall|i: int| 0 <= i < token.len() ==> !is_whitespace(#[trigger] token[i]),
    ensures
        first_supported(token) == Encoding::from_token(token),
{
    lemma_runs_to_the_end(token, 0);
    assert(token.subrange(0, token.len() as int) =~= token);
    assert(!is_whitespace(token[0]));
    assert(first_supported_from(token, token.len() as int) is None);
}

/// A run of bytes without whitespace ends where the sequence ends.
proof fn lemma_runs_to_the_end(token: Seq<u8>, pos: int)
    requires
        0 <= pos <= token.len(),
        forall|i: int| 0 <= i < token.len() ==> !is_whitespace(#[trigger] token[i]),
    ensures
        token_end(token, pos) == token.len(),
    decreases token.len() - pos,
{
    if pos < token.len() {
        lemma_runs_to_the_end(token, pos + 1);
    }
}

/// A value that is one token which names no supported encoding asks for
/// none, and the response is then the success that carries the body as it
/// is: an unsupported token is no error.
pub proof fn lemma_unsupported_token_unencoded(
    content_type: ContentType,
    raw: Seq<u8>,
    token: Seq<u8>,
)
    requires
        token.len() > 0,
        forall|i: int| 0 <= i < token.len() ==> !is_whitespace(#[trigger] token[i]),
        Encoding::from_token(token) is None,
    ensures
        first_supported(token) is None,
        encoded_response(content_type, raw, first_supported(token)) == body_response(
            content_type,
            None,
            raw,
        ),
        encoded_response(content_type, raw, first_supported(token)).status
            == ResponseStatus::Okay,
{
    lemma_single_token(token);
}

} // verus!
