//! The request model, the parser that frames a request in a byte stream, and
//! the handler that routes it.

use crate::bytes::{
    bytes_eq, count_of, find, find_first, find_from, lemma_find_from, parse_count,
};
use crate::encoding::Encoding;
use crate::http::error::{BadRequest, InvalidTargetError, IoFailure};
use crate::http::response::content_type::{Application, ContentType, Text};
use crate::http::response::{
    bad_request_response, body_response, client_error, encoded_response, failure_response,
    server_error, status_only, success, Response, ResponseStatus, ResponseView,
};
use crate::http::{
    crlf, crlf_bytes, lookup, with_header, without_header, Header, Headers, Method, Version,
};
use vstd::prelude::*;
use vstd::slice::{slice_subrange, slice_to_vec};
use vstd::string::*;
use vstd::utf8::valid_utf8;

verus! {

/// A single space, which parts the tokens of a request line.
pub open spec fn space() -> Seq<u8> {
    seq![32u8]
}

/// A question mark, which ends the path of a target.
pub open spec fn question_mark() -> Seq<u8> {
    seq![63u8]
}

/// A slash, which starts every path and parts its segments.
pub open spec fn slash() -> Seq<u8> {
    seq![47u8]
}

/// The part of `s` before its first occurrence of `d`, or all of `s` where
/// `d` does not occur.
pub open spec fn before_first(s: Seq<u8>, d: Seq<u8>) -> Seq<u8> {
    match find_first(s, d) {
        Some(i) => s.take(i),
        None => s,
    }
}

/// The part of `s` after its first occurrence of `d`, where `d` occurs.
pub open spec fn after_first(s: Seq<u8>, d: Seq<u8>) -> Option<Seq<u8>> {
    match find_first(s, d) {
        Some(i) => Some(s.skip(i + d.len())),
        None => None,
    }
}

/// Splits `s` at its first occurrence of `d`.
pub fn split_first<'a>(s: &'a [u8], d: &[u8]) -> (r: (&'a [u8], Option<&'a [u8]>))
    ensures
        r.0@ == before_first(s@, d@),
        match after_first(s@, d@) {
            Some(rest) => r.1 matches Some(x) && x@ == rest,
            None => r.1 is None,
        },
{
    let n = s.len();
    match find(s, d, 0) {
        Some(i) => {
            proof {
                lemma_find_from(s@, d@, 0);
            }
            (slice_subrange(s, 0, i), Some(slice_subrange(s, i + d.len(), n)))
        },
        None => (s, None),
    }
}

/// The target of a request: its path, which starts with a slash. The query
/// that may follow the path is not kept.
#[derive(Debug, Clone, PartialEq, Eq)]
pub struct Target {
    pub path: Vec<u8>,
}

impl View for Target {
    type V = Seq<u8>;

    open spec fn view(&self) -> Seq<u8> {
        self.path@
    }
}

/// `path` is a path: it is not empty and starts with a slash.
pub open spec fn is_path(path: Seq<u8>) -> bool {
    path.len() > 0 && path[0] == 47
}

impl Target {
    /// The path is not empty and starts with a slash.
    pub open spec fn wf(&self) -> bool {
        is_path(self@)
    }

    /// The path of the target that `token` spells: the token up to its first
    /// question mark, where the token starts with a slash.
    pub open spec fn parse(token: Seq<u8>) -> Result<Seq<u8>, InvalidTargetError> {
        if is_path(token) {
            Ok(before_first(token, question_mark()))
        } else {
            Err(InvalidTargetError::DoesNotStartWithSlash)
        }
    }

    /// Reads a target from its token in the request line.
    pub fn try_from(token: &[u8]) -> (r: Result<Target, InvalidTargetError>)
        ensures
            match Target::parse(token@) {
                Ok(path) => r matches Ok(t) && t@ == path && t.wf(),
                Err(e) => r == Err::<Target, InvalidTargetError>(e),
            },
    {
        if token.len() == 0 || token[0] != 47 {
            return Err(InvalidTargetError::DoesNotStartWithSlash);
        }
        let mark = vec![63u8];
        assert(mark@ =~= question_mark());
        let (path, _) = split_first(token, mark.as_slice());
        proof {
            lemma_find_from(token@, question_mark(), 0);
            if let Some(i) = find_first(token@, question_mark()) {
                assert(token@.subrange(i, i + 1)[0] == 63u8);
            }
        }
        Ok(Target { path: slice_to_vec(path) })
    }
}

/// Tells whether `bytes` is valid UTF-8, by `std::str::from_utf8`.
#[verifier::external_body]
fn is_utf8(bytes: &[u8]) -> (r: bool)
    ensures
        r == valid_utf8(bytes@),
{
    std::str::from_utf8(bytes).is_ok()
}

/// What a request line parses to. The line must be valid UTF-8 and hold
/// exactly three tokens with single spaces between them: a supported method,
/// a target that starts with a slash, and a recognised version. The first
/// thing amiss, from the left, decides the error.
pub open spec fn request_line(line: Seq<u8>) -> Result<(Method, Seq<u8>, Version), BadRequest> {
    if !valid_utf8(line) {
        Err(BadRequest::NotUTF8)
    } else {
        match Method::from_token(before_first(line, space())) {
            None => Err(BadRequest::UnsupportedMethod),
            Some(method) => match after_first(line, space()) {
                None => Err(BadRequest::MissingTarget),
                Some(rest) => match Target::parse(before_first(rest, space())) {
                    Err(e) => Err(BadRequest::BadTarget(e)),
                    Ok(path) => match after_first(rest, space()) {
                        None => Err(BadRequest::MissingHTTPVersion),
                        Some(last) => match Version::from_token(before_first(last, space())) {
                            None => Err(BadRequest::UnsupportedHTTPVersion),
                            Some(version) => if after_first(last, space()) is Some {
                                Err(BadRequest::MissingCRLF)
                            } else {
                                Ok((method, path, version))
                            },
                        },
                    },
                },
            },
        }
    }
}

/// Parses a request line, without its line terminator.
pub fn parse_request_line(request_line: Vec<u8>) -> (r: Result<(Method, Target, Version), BadRequest>)
    ensures
        match self::request_line(request_line@) {
            Ok((method, path, version)) => r matches Ok(parts) && parts.0 == method && parts.1@
                == path && parts.1.wf() && parts.2 == version,
            Err(e) => r == Err::<(Method, Target, Version), BadRequest>(e),
        },
{
    if !is_utf8(request_line.as_slice()) {
        return Err(BadRequest::NotUTF8);
    }
    let sp = vec![32u8];
    assert(sp@ =~= space());
    let (token, rest) = split_first(request_line.as_slice(), sp.as_slice());
    let method = match Method::try_from(token) {
        Ok(m) => m,
        Err(e) => {
            return Err(e);
        },
    };
    let rest = match rest {
        Some(rest) => rest,
        None => {
            return Err(BadRequest::MissingTarget);
        },
    };
    let (token, rest) = split_first(rest, sp.as_slice());
    let target = match Target::try_from(token) {
        Ok(t) => t,
        Err(e) => {
            return Err(BadRequest::BadTarget(e));
        },
    };
    let rest = match rest {
        Some(rest) => rest,
        None => {
            return Err(BadRequest::MissingHTTPVersion);
        },
    };
    let (token, rest) = split_first(rest, sp.as_slice());
    let http_version = match Version::try_from(token) {
        Ok(v) => v,
        Err(e) => {
            return Err(e);
        },
    };
    if rest.is_some() {
        return Err(BadRequest::MissingCRLF);
    }
    Ok((method, target, http_version))
}

/// A reader of the pieces of a buffer that a delimiter of one or more bytes
/// parts.
#[derive(Debug)]
pub struct SplitByBytes<'a> {
    pub buf: &'a [u8],
    pub pos: usize,
    pub delimiter: Vec<u8>,
}

/// A reader of the pieces of `buf` that `delimiter` parts, from the start.
pub fn split_by_bytes<'a>(buf: &'a [u8], delimiter: Vec<u8>) -> (r: SplitByBytes<'a>)
    ensures
        r.buf@ == buf@,
        r.pos == 0,
        r.delimiter@ == delimiter@,
{
    SplitByBytes { buf, pos: 0, delimiter }
}

impl<'a> SplitByBytes<'a> {
    /// The next piece: the bytes from the reader's position up to the next
    /// delimiter, after which the reader then stands. Where no delimiter
    /// follows, there is no piece, and the reader stays.
    pub fn next(&mut self) -> (r: Option<Vec<u8>>)
        ensures
            final(self).buf@ == old(self).buf@,
            final(self).delimiter@ == old(self).delimiter@,
            match find_from(old(self).buf@, old(self).delimiter@, old(self).pos as int) {
                Some(i) => r matches Some(piece) && piece@ == old(self).buf@.subrange(
                    old(self).pos as int,
                    i,
                ) && final(self).pos == i + old(self).delimiter@.len(),
                None => r is None && final(self).pos == old(self).pos,
            },
    {
        let n = self.buf.len();
        match find(self.buf, self.delimiter.as_slice(), self.pos) {
            Some(i) => {
                proof {
                    lemma_find_from(self.buf@, self.delimiter@, self.pos as int);
                    assert(i + self.delimiter@.len() <= n);
                }
                let piece = slice_to_vec(slice_subrange(self.buf, self.pos, i));
                self.pos = i + self.delimiter.len();
                Some(piece)
            },
            None => None,
        }
    }
}

/// A request as it was read.
#[derive(Debug, Clone, PartialEq, Eq)]
pub struct Request {
    pub method: Method,
    pub target: Target,
    pub http_version: Version,
    pub headers: Headers,
    pub body: Vec<u8>,
}

/// The model of a `Request`.
pub struct RequestView {
    pub method: Method,
    pub path: Seq<u8>,
    pub http_version: Version,
    pub headers: Seq<(Seq<u8>, Seq<u8>)>,
    pub body: Seq<u8>,
}

impl View for Request {
    type V = RequestView;

    open spec fn view(&self) -> RequestView {
        RequestView {
            method: self.method,
            path: self.target@,
            http_version: self.http_version,
            headers: self.headers@,
            body: self.body@,
        }
    }
}

impl Request {
    /// The path starts with a slash, and no header key stands twice.
    pub open spec fn wf(&self) -> bool {
        self.target.wf() && self.headers.wf()
    }
}

/// Why no request was read.
#[derive(Debug, Clone, Copy, PartialEq, Eq)]
pub enum ReadFailure {
    /// The stream ended before it gave a single byte: the peer has closed the
    /// connection.
    Closed,
    /// The stream ended inside the headers or the body.
    UnexpectedEnd,
    /// What was read is no request.
    Rejected(BadRequest),
}

impl ReadFailure {
    /// The bytes ran out before a request was whole: there was nothing, or a
    /// request line without its end, or headers or a body without theirs.
    /// More bytes may still make a request of them.
    pub open spec fn ran_out(self) -> bool {
        match self {
            ReadFailure::Closed => true,
            ReadFailure::UnexpectedEnd => true,
            ReadFailure::Rejected(BadRequest::MissingMethod) => true,
            ReadFailure::Rejected(_) => false,
        }
    }

    /// Tells whether the bytes ran out before a request was whole.
    pub fn starved(&self) -> (r: bool)
        ensures
            r == self.ran_out(),
    {
        match self {
            ReadFailure::Closed => true,
            ReadFailure::UnexpectedEnd => true,
            ReadFailure::Rejected(BadRequest::MissingMethod) => true,
            ReadFailure::Rejected(_) => false,
        }
    }
}

/// The headers that the lines of `input` from `pos` on add to `acc`, up to
/// the first empty line, and the index after that line. A key that comes
/// again takes the later value.
pub open spec fn read_headers(input: Seq<u8>, pos: int, acc: Seq<(Seq<u8>, Seq<u8>)>) -> Result<
    (Seq<(Seq<u8>, Seq<u8>)>, int),
    ReadFailure,
>
    decreases input.len() - pos,
    when pos >= 0
    via read_headers_decreases
{
    match find_from(input, crlf(), pos) {
        None => Err(ReadFailure::UnexpectedEnd),
        Some(i) => if i == pos {
            Ok((acc, i + 2))
        } else {
            match Header::parse(input.subrange(pos, i)) {
                Err(e) => Err(ReadFailure::Rejected(e)),
                Ok(kv) => read_headers(input, i + 2, with_header(acc, kv.0, kv.1)),
            }
        },
    }
}

#[via_fn]
proof fn read_headers_decreases(input: Seq<u8>, pos: int, acc: Seq<(Seq<u8>, Seq<u8>)>) {
    lemma_find_from(input, crlf(), pos);
}

/// The body that follows the headers at `pos`, the headers that are left
/// once the body's length is taken from them, and the index after the body.
/// Only a POST carries a body; its `Content-Length` gives the length.
pub open spec fn read_body(
    input: Seq<u8>,
    pos: int,
    method: Method,
    headers: Seq<(Seq<u8>, Seq<u8>)>,
) -> Result<(Seq<(Seq<u8>, Seq<u8>)>, Seq<u8>, int), ReadFailure> {
    match method {
        Method::Get => Ok((headers, Seq::empty(), pos)),
        Method::Post => match lookup(headers, "Content-Length".spec_bytes()) {
            None => Err(ReadFailure::Rejected(BadRequest::MissingHeader("Content-Length"))),
            Some(value) => match count_of(value) {
                None => Err(ReadFailure::Rejected(BadRequest::MalformedHeader)),
                Some(count) => if pos + count > input.len() {
                    Err(ReadFailure::UnexpectedEnd)
                } else {
                    Ok(
                        (
                            without_header(headers, "Content-Length".spec_bytes()),
                            input.subrange(pos, pos + count),
                            pos + count,
                        ),
                    )
                },
            },
        },
    }
}

/// The request that stands at the front of `input`, and the number of bytes
/// that it takes up: a request line, header lines up to an empty line, and
/// for a POST a body of the length that `Content-Length` gives. An input
/// without a single byte is a closed stream; one without a whole line lacks
/// its method.
pub open spec fn incoming(input: Seq<u8>) -> Result<(RequestView, int), ReadFailure> {
    match find_first(input, crlf()) {
        None => if input.len() == 0 {
            Err(ReadFailure::Closed)
        } else {
            Err(ReadFailure::Rejected(BadRequest::MissingMethod))
        },
        Some(i) => match request_line(input.subrange(0, i)) {
            Err(e) => Err(ReadFailure::Rejected(e)),
            Ok((method, path, http_version)) => match read_headers(input, i + 2, Seq::empty()) {
                Err(e) => Err(e),
                Ok((headers, pos)) => match read_body(input, pos, method, headers) {
                    Err(e) => Err(e),
                    Ok((headers, body, end)) => Ok(
                        (RequestView { method, path, http_version, headers, body }, end),
                    ),
                },
            },
        },
    }
}

/// Reads header lines from `lines` up to the first empty line.
fn read_header_lines(lines: &mut SplitByBytes<'_>) -> (r: Result<Headers, ReadFailure>)
    requires
        old(lines).delimiter@ == crlf(),
    ensures
        final(lines).buf@ == old(lines).buf@,
        final(lines).delimiter@ == old(lines).delimiter@,
        match read_headers(old(lines).buf@, old(lines).pos as int, Seq::empty()) {
            Ok((headers, pos)) => r matches Ok(h) && h@ == headers && h.wf() && final(lines).pos
                == pos,
            Err(e) => r == Err::<Headers, ReadFailure>(e),
        },
{
    let mut headers = Headers::new();
    loop
        invariant
            lines.buf@ == old(lines).buf@,
            lines.delimiter@ == crlf(),
            old(lines).delimiter@ == crlf(),
            headers.wf(),
            read_headers(old(lines).buf@, old(lines).pos as int, Seq::empty()) == read_headers(
                lines.buf@,
                lines.pos as int,
                headers@,
            ),
        decreases lines.buf@.len() - lines.pos,
    {
        proof {
            lemma_find_from(lines.buf@, crlf(), lines.pos as int);
            assert(crlf().len() == 2);
        }
        match lines.next() {
            None => {
                return Err(ReadFailure::UnexpectedEnd);
            },
            Some(bytes) => {
                if bytes.len() == 0 {
                    return Ok(headers);
                }
                match Header::try_from(bytes) {
                    Err(e) => {
                        return Err(ReadFailure::Rejected(e));
                    },
                    Ok(Header { key, value }) => {
                        headers.insert(key, value);
                    },
                }
            },
        }
    }
}

/// A source of requests: something that holds the bytes of a stream.
pub trait RequestSource: Sized {
    /// The bytes that the source holds.
    spec fn bytes(&self) -> Seq<u8>;

    /// Reads the request that stands at the front of the source, and tells
    /// how many bytes it takes up.
    fn read_request(self) -> (r: Result<(Request, usize), ReadFailure>)
        ensures
            match incoming(self.bytes()) {
                Ok((request, end)) => r matches Ok(p) && p.0@ == request && p.0.wf() && p.1
                    == end,
                Err(e) => r == Err::<(Request, usize), ReadFailure>(e),
            },
    ;
}

impl<'a> RequestSource for &'a [u8] {
    open spec fn bytes(&self) -> Seq<u8> {
        self@
    }

    fn read_request(self) -> (r: Result<(Request, usize), ReadFailure>) {
        read_request(self)
    }
}

/// Reads the request that stands at the front of `input`, the bytes that the
/// stream holds, and tells how many bytes it takes up.
pub fn read_request(input: &[u8]) -> (r: Result<(Request, usize), ReadFailure>)
    ensures
        match incoming(input@) {
            Ok((request, end)) => r matches Ok(p) && p.0@ == request && p.0.wf() && p.1 == end,
            Err(e) => r == Err::<(Request, usize), ReadFailure>(e),
        },
{
    let n = input.len();
    let mut lines = split_by_bytes(input, crlf_bytes());
    proof {
        lemma_find_from(input@, crlf(), 0);
        assert(crlf().len() == 2);
    }
    let line = match lines.next() {
        Some(line) => line,
        None => {
            if n == 0 {
                return Err(ReadFailure::Closed);
            }
            return Err(ReadFailure::Rejected(BadRequest::MissingMethod));
        },
    };
    let (method, target, http_version) = match parse_request_line(line) {
        Ok(parts) => parts,
        Err(e) => {
            return Err(ReadFailure::Rejected(e));
        },
    };
    let mut headers = match read_header_lines(&mut lines) {
        Ok(headers) => headers,
        Err(e) => {
            return Err(e);
        },
    };
    let pos = lines.pos;
    match method {
        Method::Get => Ok(
            (Request { method, target, http_version, headers, body: Vec::new() }, pos),
        ),
        Method::Post => {
            let value = match headers.remove("Content-Length".as_bytes()) {
                Some(value) => value,
                None => {
                    return Err(ReadFailure::Rejected(BadRequest::MissingHeader("Content-Length")));
                },
            };
            let count = match parse_count(value.as_slice()) {
                Some(count) => count,
                None => {
                    return Err(ReadFailure::Rejected(BadRequest::MalformedHeader));
                },
            };
            if pos > n || count > n - pos {
                return Err(ReadFailure::UnexpectedEnd);
            }
            let body = slice_to_vec(slice_subrange(input, pos, pos + count));
            Ok((Request { method, target, http_version, headers, body }, pos + count))
        },
    }
}

/// `b` is ASCII whitespace: a space, a tab, a line feed, a form feed or a
/// carriage return.
pub open spec fn is_whitespace(b: u8) -> bool {
    b == 32 || b == 9 || b == 10 || b == 12 || b == 13
}

/// The end of the run of bytes other than whitespace that starts at `pos`.
pub open spec fn token_end(s: Seq<u8>, pos: int) -> int
    decreases s.len() - pos,
{
    if pos < 0 || pos >= s.len() || is_whitespace(s[pos]) {
        pos
    } else {
        token_end(s, pos + 1)
    }
}

/// The first of the tokens of `s` from `pos` on, parted by whitespace, that
/// names a supported encoding.
pub open spec fn first_supported_from(s: Seq<u8>, pos: int) -> Option<Encoding>
    decreases s.len() - pos,
    when pos >= 0
    via first_supported_from_decreases
{
    if pos >= s.len() {
        None
    } else if is_whitespace(s[pos]) {
        first_supported_from(s, pos + 1)
    } else {
        match Encoding::from_token(s.subrange(pos, token_end(s, pos))) {
            Some(e) => Some(e),
            None => first_supported_from(s, token_end(s, pos)),
        }
    }
}

#[via_fn]
proof fn first_supported_from_decreases(s: Seq<u8>, pos: int) {
    if pos < s.len() && !is_whitespace(s[pos]) {
        lemma_token_end(s, pos + 1);
    }
}

/// A token ends at or after the index where it starts, and within `s`.
pub proof fn lemma_token_end(s: Seq<u8>, pos: int)
    requires
        0 <= pos <= s.len(),
    ensures
        pos <= token_end(s, pos) <= s.len(),
    decreases s.len() - pos,
{
    if pos < s.len() && !is_whitespace(s[pos]) {
        lemma_token_end(s, pos + 1);
    }
}

/// The encoding that a client asks for with the `Accept-Encoding` value `s`:
/// the first of its tokens that names a supported one.
pub open spec fn first_supported(s: Seq<u8>) -> Option<Encoding> {
    first_supported_from(s, 0)
}

/// Tells whether `b` is ASCII whitespace.
fn is_ascii_whitespace(b: u8) -> (r: bool)
    ensures
        r == is_whitespace(b),
{
    b == 32 || b == 9 || b == 10 || b == 12 || b == 13
}

/// Picks the first token of an `Accept-Encoding` value that names a
/// supported encoding. Tokens that name none are passed over.
pub fn get_first_supported_encoding(s: &[u8]) -> (r: Option<Encoding>)
    ensures
        r == first_supported(s@),
{
    let mut pos: usize = 0;
    while pos < s.len()
        invariant
            0 <= pos <= s@.len(),
            first_supported(s@) == first_supported_from(s@, pos as int),
        decreases s@.len() - pos,
    {
        if is_ascii_whitespace(s[pos]) {
            pos += 1;
        } else {
            let mut end: usize = pos + 1;
            while end < s.len() && !is_ascii_whitespace(s[end])
                invariant
                    pos < end <= s@.len(),
                    token_end(s@, pos as int) == token_end(s@, end as int),
                decreases s@.len() - end,
            {
                end += 1;
            }
            assert(token_end(s@, pos as int) == end);
            match Encoding::try_from(slice_subrange(s, pos, end)) {
                Ok(encoding) => {
                    return Some(encoding);
                },
                Err(_) => {
                    pos = end;
                },
            }
        }
    }
    None
}

/// The place of a file in the store: the store's root directory and the
/// file's name below it.
#[derive(Debug, Clone, PartialEq, Eq)]
pub struct FilePath {
    pub root: String,
    pub name: Vec<u8>,
}

impl FilePath {
    /// The name stays below the root.
    pub open spec fn wf(&self) -> bool {
        name_is_relative(self.name@)
    }
}

/// What is to be done for a request: send a response, or first read a file
/// from the store or write one to it.
#[derive(Debug, Clone, PartialEq, Eq)]
pub enum Handling {
    Respond(Response),
    ReadFile { path: FilePath, opt_encoding: Option<Encoding> },
    WriteFile { path: FilePath, content: Vec<u8> },
}

/// The model of a `Handling`.
pub enum HandlingView {
    Respond(ResponseView),
    ReadFile { root: Seq<char>, name: Seq<u8>, opt_encoding: Option<Encoding> },
    WriteFile { root: Seq<char>, name: Seq<u8>, content: Seq<u8> },
}

impl View for Handling {
    type V = HandlingView;

    open spec fn view(&self) -> HandlingView {
        match self {
            Handling::Respond(response) => HandlingView::Respond(response@),
            Handling::ReadFile { path, opt_encoding } => HandlingView::ReadFile {
                root: path.root@,
                name: path.name@,
                opt_encoding: *opt_encoding,
            },
            Handling::WriteFile { path, content } => HandlingView::WriteFile {
                root: path.root@,
                name: path.name@,
                content: content@,
            },
        }
    }
}

/// The first segment of `path`: what stands between its leading slash and
/// the next one.
pub open spec fn endpoint(path: Seq<u8>) -> Seq<u8> {
    before_first(path.skip(1), slash())
}

/// What follows the slash after the first segment of `path`.
pub open spec fn remainder(path: Seq<u8>) -> Seq<u8> {
    match after_first(path.skip(1), slash()) {
        Some(rest) => rest,
        None => Seq::empty(),
    }
}

/// The encoding that the request asks for.
pub open spec fn negotiated(headers: Seq<(Seq<u8>, Seq<u8>)>) -> Option<Encoding> {
    match lookup(headers, "Accept-Encoding".spec_bytes()) {
        Some(value) => first_supported(value),
        None => None,
    }
}

/// The request is one that the handler serves: a GET, or a POST to the file
/// store.
pub open spec fn routable(request: RequestView) -> bool {
    request.method == Method::Post ==> endpoint(request.path) == "files".spec_bytes()
}

/// The response to a request for the client's `User-Agent`.
pub open spec fn user_agent_response(headers: Seq<(Seq<u8>, Seq<u8>)>) -> ResponseView {
    match lookup(headers, "User-Agent".spec_bytes()) {
        Some(value) => body_response(ContentType::Text(Text::Plain), None, value),
        None => bad_request_response(BadRequest::MissingHeader("User-Agent")),
    }
}

/// `segment` names something below the directory that holds it: it is not
/// empty, and is neither `.` nor `..`.
pub open spec fn plain_segment(segment: Seq<u8>) -> bool {
    segment.len() > 0 && segment != seq![46u8] && segment != seq![46u8, 46u8]
}

/// `name` stays below the root that it is joined to: it does not start with
/// a slash, and none of its segments between slashes is empty, `.` or `..`.
pub open spec fn name_is_relative(name: Seq<u8>) -> bool
    decreases name.len(),
    via name_is_relative_decreases
{
    plain_segment(before_first(name, slash())) && match after_first(name, slash()) {
        Some(rest) => name_is_relative(rest),
        None => true,
    }
}

#[via_fn]
proof fn name_is_relative_decreases(name: Seq<u8>) {
    lemma_find_from(name, slash(), 0);
    assert(slash().len() == 1);
}

/// Tells whether `name` stays below the root that it is joined to.
pub fn stays_inside(name: &[u8]) -> (r: bool)
    ensures
        r == name_is_relative(name@),
{
    let sl = vec![47u8];
    assert(sl@ =~= slash());
    let mut rest: &[u8] = name;
    loop
        invariant
            sl@ == slash(),
            name_is_relative(name@) == name_is_relative(rest@),
        decreases rest@.len(),
    {
        proof {
            lemma_find_from(rest@, slash(), 0);
            assert(slash().len() == 1);
        }
        let (segment, tail) = split_first(rest, sl.as_slice());
        if !is_plain_segment(segment) {
            return false;
        }
        match tail {
            Some(tail) => {
                rest = tail;
            },
            None => {
                return true;
            },
        }
    }
}

/// Tells whether `segment` names something below the directory that holds
/// it.
fn is_plain_segment(segment: &[u8]) -> (r: bool)
    ensures
        r == plain_segment(segment@),
{
    let n = segment.len();
    if n == 0 {
        false
    } else if n == 1 {
        assert(segment@ == seq![46u8] <==> segment@[0] == 46u8) by {
            if segment@[0] == 46u8 {
                assert(segment@ =~= seq![46u8]);
            }
        }
        assert(segment@ != seq![46u8, 46u8]) by {
            assert(seq![46u8, 46u8].len() == 2);
        }
        segment[0] != 46
    } else if n == 2 {
        assert(segment@ == seq![46u8, 46u8] <==> segment@[0] == 46u8 && segment@[1] == 46u8) by {
            if segment@[0] == 46u8 && segment@[1] == 46u8 {
                assert(segment@ =~= seq![46u8, 46u8]);
            }
        }
        assert(segment@ != seq![46u8]) by {
            assert(seq![46u8].len() == 1);
        }
        !(segment[0] == 46 && segment[1] == 46)
    } else {
        assert(seq![46u8].len() == 1);
        assert(seq![46u8, 46u8].len() == 2);
        true
    }
}

/// The place in the store of the file named `name`, or the response that
/// refuses it: a server error where the store has no root, and not found
/// for a name that would lead out of the root.
pub open spec fn file_place(root: Option<Seq<char>>, name: Seq<u8>) -> Result<
    (Seq<char>, Seq<u8>),
    ResponseView,
> {
    match root {
        None => Err(status_only(ResponseStatus::ServerError)),
        Some(root) => if name_is_relative(name) {
            Ok((root, name))
        } else {
            Err(status_only(ResponseStatus::NotFound))
        },
    }
}

/// The outcome for a request to the file store whose root is `root`, if it
/// has one: the refusal of the file's place where it has none, and
/// otherwise the file to read for a GET and the file to write for a POST.
pub open spec fn file_outcome(
    request: RequestView,
    root: Option<Seq<char>>,
    opt_encoding: Option<Encoding>,
) -> HandlingView {
    match file_place(root, remainder(request.path)) {
        Err(response) => HandlingView::Respond(response),
        Ok((root, name)) => match request.method {
            Method::Get => HandlingView::ReadFile { root, name, opt_encoding },
            Method::Post => HandlingView::WriteFile { root, name, content: request.body },
        },
    }
}

/// What the handler decides for a request that it serves when the file
/// store has the root `root`, if it has one. For a GET: the root path gets
/// an empty success; `files` reads the file that the rest of the path
/// names; `echo` sends the rest of the path back, encoded as negotiated;
/// `user-agent`, with nothing after it, sends that header's value back; any
/// other path finds nothing. A POST, which goes to `files` alone, writes
/// the body to the file that the rest of the path names.
pub open spec fn handled(request: RequestView, root: Option<Seq<char>>) -> HandlingView {
    let name = endpoint(request.path);
    let rest = remainder(request.path);
    let opt_encoding = negotiated(request.headers);
    let headers = without_header(request.headers, "Accept-Encoding".spec_bytes());
    match request.method {
        Method::Post => file_outcome(request, root, opt_encoding),
        Method::Get => if name.len() == 0 {
            HandlingView::Respond(status_only(ResponseStatus::Okay))
        } else if name == "files".spec_bytes() {
            file_outcome(request, root, opt_encoding)
        } else if name == "echo".spec_bytes() {
            HandlingView::Respond(
                encoded_response(ContentType::Text(Text::Plain), rest, opt_encoding),
            )
        } else if name == "user-agent".spec_bytes() && rest.len() == 0 {
            HandlingView::Respond(user_agent_response(headers))
        } else {
            HandlingView::Respond(status_only(ResponseStatus::NotFound))
        },
    }
}

impl Request {
    /// Tells whether the handler serves this request.
    pub fn is_routable(&self) -> (r: bool)
        requires
            self.target.wf(),
        ensures
            r == routable(self@),
    {
        match self.method {
            Method::Get => true,
            Method::Post => {
                let sl = vec![47u8];
                assert(sl@ =~= slash());
                let relative = slice_subrange(self.target.path.as_slice(), 1, self.target.path.len());
                let (name, _) = split_first(relative, sl.as_slice());
                bytes_eq(name, "files".as_bytes())
            },
        }
    }

    /// Routes the request by its method and the first segment of its path.
    /// The `Accept-Encoding` header is taken out of the headers and decides
    /// the encoding of an echoed or served body.
    pub fn handle(self, root: Option<&str>) -> (r: Handling)
        requires
            self.target.wf(),
            routable(self@),
        ensures
            r@ == handled(
                self@,
                match root {
                    Some(root) => Some(root@),
                    None => None,
                },
            ),
    {
        let Request { method, target, http_version: _, headers, body } = self;
        let mut headers = headers;
        let sl = vec![47u8];
        assert(sl@ =~= slash());
        let relative = slice_subrange(target.path.as_slice(), 1, target.path.len());
        let (name, rest) = split_first(relative, sl.as_slice());
        let rest = match rest {
            Some(rest) => slice_to_vec(rest),
            None => Vec::new(),
        };
        let opt_encoding = match headers.remove("Accept-Encoding".as_bytes()) {
            Some(value) => get_first_supported_encoding(value.as_slice()),
            None => None,
        };
        let is_get = match method {
            Method::Get => true,
            Method::Post => false,
        };
        let result = if is_get && name.len() == 0 {
            Ok(Response::default())
        } else if bytes_eq(name, "files".as_bytes()) {
            return match try_create_path(root, rest.as_slice()) {
                Err(response) => Handling::Respond(response),
                Ok(path) => if is_get {
                    Handling::ReadFile { path, opt_encoding }
                } else {
                    Handling::WriteFile { path, content: body }
                },
            };
        } else if bytes_eq(name, "echo".as_bytes()) {
            Ok(Response::encoded_body(ContentType::Text(Text::Plain), rest, opt_encoding))
        } else if bytes_eq(name, "user-agent".as_bytes()) && rest.len() == 0 {
            handle_get_user_agent(headers)
        } else {
            Err(client_error::not_found())
        };
        match result {
            Ok(response) => Handling::Respond(response),
            Err(response) => Handling::Respond(response),
        }
    }
}

/// The response to a POST to the file store, once the store has written the
/// file or failed to.
pub fn handle_post_file(written: Result<(), IoFailure>) -> (r: Result<Response, Response>)
    ensures
        match written {
            Ok(_) => r matches Ok(response) && response@ == status_only(ResponseStatus::Created),
            Err(f) => r matches Err(response) && response@ == failure_response(f),
        },
{
    match written {
        Ok(_) => Ok(success::created()),
        Err(f) => Err(Response::from_io_failure(f)),
    }
}

/// The response to a GET from the file store, once the store has read the
/// file or failed to: the file's bytes as an octet stream, encoded where an
/// encoding was negotiated.
pub fn handle_get_file(read: Result<Vec<u8>, IoFailure>, opt_encoding: Option<Encoding>) -> (r:
    Result<Response, Response>)
    ensures
        match read {
            Ok(content) => r matches Ok(response) && response@ == encoded_response(
                ContentType::Application(Application::OctetStream),
                content@,
                opt_encoding,
            ),
            Err(f) => r matches Err(response) && response@ == failure_response(f),
        },
{
    match read {
        Ok(content) => Ok(success::octet_stream(content, opt_encoding)),
        Err(f) => Err(Response::from_io_failure(f)),
    }
}

/// The response that sends the client's `User-Agent` back, or the bad
/// request that names the header where the client sent none.
pub fn handle_get_user_agent(headers: Headers) -> (r: Result<Response, Response>)
    ensures
        match lookup(headers@, "User-Agent".spec_bytes()) {
            Some(_) => r matches Ok(response) && response@ == user_agent_response(headers@),
            None => r matches Err(response) && response@ == user_agent_response(headers@),
        },
{
    let mut headers = headers;
    match headers.remove("User-Agent".as_bytes()) {
        Some(user_agent) => Ok(
            Response::with_body(ContentType::Text(Text::Plain), None, Ok(user_agent)),
        ),
        None => Err(Response::from_bad_request(BadRequest::MissingHeader("User-Agent"))),
    }
}

/// The place in the store of the file named `file_name`. Without a root
/// for the store it is a server error; a name that would lead out of the
/// root is not found.
pub fn try_create_path(root: Option<&str>, file_name: &[u8]) -> (r: Result<FilePath, Response>)
    ensures
        match file_place(
            match root {
                Some(root) => Some(root@),
                None => None,
            },
            file_name@,
        ) {
            Ok((root, name)) => r matches Ok(path) && path.root@ == root && path.name@ == name
                && path.wf(),
            Err(response) => r matches Err(refused) && refused@ == response,
        },
{
    match root {
        Some(root) => if stays_inside(file_name) {
            Ok(FilePath { root: String::from_str(root), name: slice_to_vec(file_name) })
        } else {
            Err(client_error::not_found())
        },
        None => Err(server_error::generic()),
    }
}

} // verus!
