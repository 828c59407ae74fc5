//! The wire model: methods, versions, headers and the header map.

use crate::bytes::{append, bytes_eq, find, find_first};
use crate::http::error::BadRequest;
use vstd::prelude::*;
use vstd::slice::slice_subrange;
use vstd::string::*;
use vstd::utf8::valid_utf8;

pub mod error;
pub mod request;
pub mod refusal;
pub mod request_line;
pub mod stream;
pub mod response;

verus! {

/// The line terminator, carriage return and line feed.
pub open spec fn crlf() -> Seq<u8> {
    seq![13u8, 10u8]
}

/// What stands between a header's key and its value: a colon and a space.
pub open spec fn header_delimiter() -> Seq<u8> {
    seq![58u8, 32u8]
}

/// The line terminator as bytes.
pub fn crlf_bytes() -> (r: Vec<u8>)
    ensures
        r@ == crlf(),
{
    let r = vec![13u8, 10u8];
    assert(r@ =~= crlf());
    r
}

/// The header delimiter as bytes.
pub fn header_delimiter_bytes() -> (r: Vec<u8>)
    ensures
        r@ == header_delimiter(),
{
    let r = vec![58u8, 32u8];
    assert(r@ =~= header_delimiter());
    r
}

/// A request method.
#[derive(PartialEq, Eq, Debug, Clone, Copy, Structural)]
pub enum Method {
    Get,
    Post,
}

impl Method {
    /// The token that names this method in a request line.
    pub open spec fn token(self) -> Seq<u8> {
        match self {
            Method::Get => "GET".spec_bytes(),
            Method::Post => "POST".spec_bytes(),
        }
    }

    /// The method that `token` names, if it names one.
    pub open spec fn from_token(token: Seq<u8>) -> Option<Method> {
        if token == Method::Get.token() {
            Some(Method::Get)
        } else if token == Method::Post.token() {
            Some(Method::Post)
        } else {
            None
        }
    }

    /// Matches `value` against the supported methods.
    pub fn try_from(value: &[u8]) -> (r: Result<Method, BadRequest>)
        ensures
            r == match Method::from_token(value@) {
                Some(m) => Ok::<Method, BadRequest>(m),
                None => Err(BadRequest::UnsupportedMethod),
            },
    {
        if bytes_eq(value, "GET".as_bytes()) {
            Ok(Method::Get)
        } else if bytes_eq(value, "POST".as_bytes()) {
            Ok(Method::Post)
        } else {
            Err(BadRequest::UnsupportedMethod)
        }
    }
}

/// A protocol version.
#[derive(PartialEq, Eq, Debug, Clone, Copy, Structural)]
pub enum Version {
    Ver1_1,
    Ver2_0,
}

impl Version {
    /// The token that names this version on the wire.
    pub open spec fn token(self) -> Seq<u8> {
        match self {
            Version::Ver1_1 => "HTTP/1.1".spec_bytes(),
            Version::Ver2_0 => "HTTP/2.0".spec_bytes(),
        }
    }

    /// The version that `token` names, if it names one.
    pub open spec fn from_token(token: Seq<u8>) -> Option<Version> {
        if token == Version::Ver1_1.token() {
            Some(Version::Ver1_1)
        } else if token == Version::Ver2_0.token() {
            Some(Version::Ver2_0)
        } else {
            None
        }
    }

    /// Appends this version's token to `writer`.
    pub fn write_to(self, writer: &mut Vec<u8>)
        ensures
            final(writer)@ == old(writer)@ + self.token(),
    {
        append(writer, self.serialize());
    }

    /// This version's token.
    pub fn serialize(self) -> (r: &'static [u8])
        ensures
            r@ == self.token(),
    {
        match self {
            Version::Ver1_1 => "HTTP/1.1".as_bytes(),
            Version::Ver2_0 => "HTTP/2.0".as_bytes(),
        }
    }

    /// Matches `value` against the recognised versions.
    pub fn try_from(value: &[u8]) -> (r: Result<Version, BadRequest>)
        ensures
            r == match Version::from_token(value@) {
                Some(v) => Ok::<Version, BadRequest>(v),
                None => Err(BadRequest::UnsupportedHTTPVersion),
            },
    {
        if bytes_eq(value, "HTTP/1.1".as_bytes()) {
            Ok(Version::Ver1_1)
        } else if bytes_eq(value, "HTTP/2.0".as_bytes()) {
            Ok(Version::Ver2_0)
        } else {
            Err(BadRequest::UnsupportedHTTPVersion)
        }
    }
}

/// The UTF-8 text that `bytes` decodes to when each ill-formed part of it is
/// replaced by U+FFFD.
pub uninterp spec fn utf8_lossy(bytes: Seq<u8>) -> Seq<u8>;

/// The text that `bytes` is read as: `bytes` itself where it is valid UTF-8,
/// and otherwise what it decodes to with replacements.
pub open spec fn text_of(bytes: Seq<u8>) -> Seq<u8> {
    if valid_utf8(bytes) {
        bytes
    } else {
        utf8_lossy(bytes)
    }
}

/// Decodes `bytes` with `String::from_utf8_lossy` and hands back the bytes
/// of the text: those of `bytes` itself where they are valid UTF-8, and
/// otherwise with U+FFFD in place of what is not.
#[verifier::external_body]
fn lossy_text(bytes: &[u8]) -> (r: Vec<u8>)
    ensures
        r@ == if valid_utf8(bytes@) {
            bytes@
        } else {
            utf8_lossy(bytes@)
        },
{
    String::from_utf8_lossy(bytes).into_owned().into_bytes()
}

/// One header: the text before the delimiter and the text after it, as
/// UTF-8.
#[derive(Debug, Clone, PartialEq, Eq)]
pub struct Header {
    pub key: Vec<u8>,
    pub value: Vec<u8>,
}

impl View for Header {
    type V = (Seq<u8>, Seq<u8>);

    open spec fn view(&self) -> (Seq<u8>, Seq<u8>) {
        (self.key@, self.value@)
    }
}

/// A header line that is valid UTF-8 keeps its bytes: its key is what stands
/// before the first delimiter and its value what stands after, as they are.
pub proof fn lemma_valid_line_keeps_bytes(line: Seq<u8>)
    requires
        valid_utf8(line),
        find_first(line, header_delimiter()) is Some,
    ensures
        ({
            let i = find_first(line, header_delimiter()).unwrap();
            Header::parse(line) == Ok::<(Seq<u8>, Seq<u8>), BadRequest>(
                (line.subrange(0, i), line.subrange(i + 2, line.len() as int)),
            )
        }),
{
    crate::bytes::lemma_find_from(line, header_delimiter(), 0);
    let i = find_first(line, header_delimiter()).unwrap();
    assert(header_delimiter().len() == 2);
    assert(line.subrange(i, i + 2)[0] == 58u8);
    assert(line.subrange(i, i + 2)[1] == 32u8);
    assert(line[i] == 58u8);
    assert(line[i + 1] == 32u8);
    vstd::utf8::is_char_boundary_iff_not_is_continuation_byte(line, i);
    vstd::utf8::valid_utf8_split(line, i);
    let rest = line.subrange(i, line.len() as int);
    assert(rest[0] == 58u8);
    let after_colon = vstd::utf8::pop_first_scalar(rest);
    assert(after_colon =~= line.subrange(i + 1, line.len() as int));
    assert(valid_utf8(after_colon));
    assert(after_colon[0] == 32u8);
    let after_space = vstd::utf8::pop_first_scalar(after_colon);
    assert(after_space =~= line.subrange(i + 2, line.len() as int));
    assert(valid_utf8(after_space));
}

impl Header {
    /// The key and value that `line` splits into at its first delimiter,
    /// each decoded as text.
    pub open spec fn parse(line: Seq<u8>) -> Result<(Seq<u8>, Seq<u8>), BadRequest> {
        match find_first(line, header_delimiter()) {
            Some(i) => Ok(
                (text_of(line.subrange(0, i)), text_of(line.subrange(i + 2, line.len() as int))),
            ),
            None => Err(BadRequest::MalformedHeader),
        }
    }

    /// Splits a header line at its first `": "`. The value is taken as it
    /// stands, untrimmed. Both parts are decoded as text; where the line is
    /// valid UTF-8 they are its bytes.
    pub fn try_from(bytes: Vec<u8>) -> (r: Result<Header, BadRequest>)
        ensures
            match Header::parse(bytes@) {
                Ok(kv) => r matches Ok(h) && h@ == kv,
                Err(e) => r == Err::<Header, BadRequest>(e),
            },
    {
        let delimiter = header_delimiter_bytes();
        let n = bytes.len();
        match find(bytes.as_slice(), delimiter.as_slice(), 0) {
            Some(i) => {
                proof {
                    crate::bytes::lemma_find_from(bytes@, header_delimiter(), 0);
                    assert(header_delimiter().len() == 2);
                }
                let key = lossy_text(slice_subrange(bytes.as_slice(), 0, i));
                let value = lossy_text(slice_subrange(bytes.as_slice(), i + 2, n));
                Ok(Header { key, value })
            },
            None => Err(BadRequest::MalformedHeader),
        }
    }
}

/// A sink for bytes that header lines can be written to.
pub trait WriteHeader {
    /// The bytes that the sink has taken.
    spec fn written(&self) -> Seq<u8>;

    /// Writes the header line of `key` and `value`: the key, a colon and a
    /// space, the value, and the line terminator.
    fn write_header(&mut self, key: &[u8], value: &[u8])
        ensures
            final(self).written() == old(self).written() + crate::http::response::header_line(
                key@,
                value@,
            ),
    ;
}

impl WriteHeader for Vec<u8> {
    open spec fn written(&self) -> Seq<u8> {
        self@
    }

    fn write_header(&mut self, key: &[u8], value: &[u8]) {
        append(self, key);
        append(self, header_delimiter_bytes().as_slice());
        append(self, value);
        append(self, crlf_bytes().as_slice());
        assert(self@ =~= old(self)@ + crate::http::response::header_line(key@, value@));
    }
}

/// A carrier of responses: a sink that takes each response as it goes on the
/// wire.
pub trait HTTPCarrier {
    /// The bytes that the carrier has taken.
    spec fn carried(&self) -> Seq<u8>;

    /// Hands `response` to the carrier.
    fn respond(&mut self, response: crate::http::response::Response)
        ensures
            final(self).carried() == old(self).carried() + crate::http::response::wire(response@),
    ;
}

impl HTTPCarrier for Vec<u8> {
    open spec fn carried(&self) -> Seq<u8> {
        self@
    }

    fn respond(&mut self, response: crate::http::response::Response) {
        response.write_to(self);
    }
}

/// The index of the first entry of `s` from `from` on whose key is `key`.
pub open spec fn key_index_from(s: Seq<(Seq<u8>, Seq<u8>)>, key: Seq<u8>, from: int) -> Option<int>
    decreases s.len() - from,
{
    if from < 0 || from >= s.len() {
        None
    } else if s[from].0 == key {
        Some(from)
    } else {
        key_index_from(s, key, from + 1)
    }
}

/// The index of the first entry of `s` whose key is `key`.
pub open spec fn key_index(s: Seq<(Seq<u8>, Seq<u8>)>, key: Seq<u8>) -> Option<int> {
    key_index_from(s, key, 0)
}

/// The value that `s` holds for `key`.
pub open spec fn lookup(s: Seq<(Seq<u8>, Seq<u8>)>, key: Seq<u8>) -> Option<Seq<u8>> {
    match key_index(s, key) {
        Some(i) => Some(s[i].1),
        None => None,
    }
}

/// No key stands twice in `s`.
pub open spec fn keys_unique(s: Seq<(Seq<u8>, Seq<u8>)>) -> bool {
    forall|i: int, j: int| 0 <= i < j < s.len() ==> (#[trigger] s[i]).0 != (#[trigger] s[j]).0
}

/// `s` once `key` has been given `value`: in place where `s` held the key,
/// at the end where it did not.
pub open spec fn with_header(s: Seq<(Seq<u8>, Seq<u8>)>, key: Seq<u8>, value: Seq<u8>) -> Seq<
    (Seq<u8>, Seq<u8>),
> {
    match key_index(s, key) {
        Some(i) => s.update(i, (key, value)),
        None => s.push((key, value)),
    }
}

/// `s` without its first entry for `key`.
pub open spec fn without_header(s: Seq<(Seq<u8>, Seq<u8>)>, key: Seq<u8>) -> Seq<
    (Seq<u8>, Seq<u8>),
> {
    match key_index(s, key) {
        Some(i) => s.remove(i),
        None => s,
    }
}

/// What `key_index_from` returns is the least index from `from` on that holds
/// the key.
pub proof fn lemma_key_index_from(s: Seq<(Seq<u8>, Seq<u8>)>, key: Seq<u8>, from: int)
    requires
        0 <= from,
    ensures
        match key_index_from(s, key, from) {
            Some(i) => from <= i < s.len() && s[i].0 == key && forall|j: int|
                from <= j < i ==> (#[trigger] s[j]).0 != key,
            None => forall|j: int| from <= j < s.len() ==> (#[trigger] s[j]).0 != key,
        },
    decreases s.len() - from,
{
    if from < s.len() && s[from].0 != key {
        lemma_key_index_from(s, key, from + 1);
    }
}

/// The least index from `from` on that holds the key is what `key_index_from`
/// returns.
pub proof fn lemma_key_index_from_least(
    s: Seq<(Seq<u8>, Seq<u8>)>,
    key: Seq<u8>,
    from: int,
    i: int,
)
    requires
        0 <= from <= i < s.len(),
        s[i].0 == key,
        forall|j: int| from <= j < i ==> (#[trigger] s[j]).0 != key,
    ensures
        key_index_from(s, key, from) == Some(i),
    decreases i - from,
{
    if from < i {
        lemma_key_index_from_least(s, key, from + 1, i);
    }
}

/// Where no entry from `from` on holds the key, `key_index_from` finds none.
pub proof fn lemma_key_index_from_none(s: Seq<(Seq<u8>, Seq<u8>)>, key: Seq<u8>, from: int)
    requires
        0 <= from,
        forall|j: int| from <= j < s.len() ==> (#[trigger] s[j]).0 != key,
    ensures
        key_index_from(s, key, from) is None,
    decreases s.len() - from,
{
    if from < s.len() {
        lemma_key_index_from_none(s, key, from + 1);
    }
}

/// Giving a key a value keeps the keys unique, and afterwards that key has
/// the value and every other key has what it had: the last write wins.
pub proof fn lemma_with_header(
    s: Seq<(Seq<u8>, Seq<u8>)>,
    key: Seq<u8>,
    value: Seq<u8>,
    other: Seq<u8>,
)
    requires
        keys_unique(s),
    ensures
        keys_unique(with_header(s, key, value)),
        lookup(with_header(s, key, value), key) == Some(value),
        other != key ==> lookup(with_header(s, key, value), other) == lookup(s, other),
{
    let t = with_header(s, key, value);
    lemma_key_index_from(s, key, 0);
    lemma_key_index_from(s, other, 0);
    match key_index(s, key) {
        Some(i) => {
            assert forall|a: int, b: int| 0 <= a < b < t.len() implies (#[trigger] t[a]).0 != (
            #[trigger] t[b]).0 by {
                assert(t[a].0 == s[a].0);
                assert(t[b].0 == s[b].0);
            }
            lemma_key_index_from_least(t, key, 0, i);
            if other != key {
                match key_index(s, other) {
                    Some(k) => {
                        assert forall|j: int| 0 <= j < k implies (#[trigger] t[j]).0 != other by {
                            assert(s[j].0 != other);
                        }
                        lemma_key_index_from_least(t, other, 0, k);
                    },
                    None => {
                        assert forall|j: int| 0 <= j < t.len() implies (#[trigger] t[j]).0
                            != other by {
                            assert(s[j].0 != other);
                        }
                        lemma_key_index_from_none(t, other, 0);
                    },
                }
            }
        },
        None => {
            let n = s.len() as int;
            assert forall|a: int, b: int| 0 <= a < b < t.len() implies (#[trigger] t[a]).0 != (
            #[trigger] t[b]).0 by {
                assert(t[a] == s[a]);
                if b < n {
                    assert(t[b] == s[b]);
                }
            }
            assert forall|j: int| 0 <= j < n implies (#[trigger] t[j]).0 != key by {
                assert(s[j].0 != key);
            }
            lemma_key_index_from_least(t, key, 0, n);
            if other != key {
                match key_index(s, other) {
                    Some(k) => {
                        assert forall|j: int| 0 <= j < k implies (#[trigger] t[j]).0 != other by {
                            assert(s[j].0 != other);
                        }
                        lemma_key_index_from_least(t, other, 0, k);
                    },
                    None => {
                        assert forall|j: int| 0 <= j < t.len() implies (#[trigger] t[j]).0
                            != other by {
                            if j < n {
                                assert(s[j].0 != other);
                            }
                        }
                        lemma_key_index_from_none(t, other, 0);
                    },
                }
            }
        },
    }
}

/// Taking a key out keeps the keys unique and leaves no entry for it.
pub proof fn lemma_without_header(s: Seq<(Seq<u8>, Seq<u8>)>, key: Seq<u8>)
    requires
        keys_unique(s),
    ensures
        keys_unique(without_header(s, key)),
        lookup(without_header(s, key), key) is None,
{
    let t = without_header(s, key);
    lemma_key_index_from(s, key, 0);
    match key_index(s, key) {
        Some(i) => {
            assert forall|a: int, b: int| 0 <= a < b < t.len() implies (#[trigger] t[a]).0 != (
            #[trigger] t[b]).0 by {
                let a0 = if a < i { a } else { a + 1 };
                let b0 = if b < i { b } else { b + 1 };
                assert(t[a] == s[a0]);
                assert(t[b] == s[b0]);
            }
            assert forall|j: int| 0 <= j < t.len() implies (#[trigger] t[j]).0 != key by {
                let j0 = if j < i { j } else { j + 1 };
                assert(t[j] == s[j0]);
                if j0 > i {
                    assert(s[i].0 != s[j0].0);
                }
            }
            lemma_key_index_from_none(t, key, 0);
        },
        None => {},
    }
}

/// The headers of a message: keys with their values, in the order in which
/// the keys first came.
#[derive(Debug, Clone, PartialEq, Eq)]
pub struct Headers {
    pub entries: Vec<Header>,
}

impl View for Headers {
    type V = Seq<(Seq<u8>, Seq<u8>)>;

    open spec fn view(&self) -> Seq<(Seq<u8>, Seq<u8>)> {
        Seq::new(self.entries@.len(), |i: int| self.entries@[i]@)
    }
}

impl Headers {
    /// No key stands twice.
    pub open spec fn wf(&self) -> bool {
        keys_unique(self@)
    }

    /// A header map without entries.
    pub fn new() -> (r: Headers)
        ensures
            r@ == Seq::<(Seq<u8>, Seq<u8>)>::empty(),
            r.wf(),
    {
        let r = Headers { entries: Vec::new() };
        assert(r@ =~= Seq::<(Seq<u8>, Seq<u8>)>::empty());
        r
    }

    /// The index of the entry for `key`.
    pub fn position(&self, key: &[u8]) -> (r: Option<usize>)
        ensures
            match r {
                Some(i) => key_index(self@, key@) == Some(i as int),
                None => key_index(self@, key@) is None,
            },
    {
        let mut i: usize = 0;
        while i < self.entries.len()
            invariant
                0 <= i <= self.entries@.len(),
                key_index(self@, key@) == key_index_from(self@, key@, i as int),
            decreases self.entries@.len() - i,
        {
            if bytes_eq(self.entries[i].key.as_slice(), key) {
                return Some(i);
            }
            i += 1;
        }
        None
    }

    /// The value that the map holds for `key`.
    pub fn get(&self, key: &[u8]) -> (r: Option<&Vec<u8>>)
        ensures
            match lookup(self@, key@) {
                Some(v) => r matches Some(x) && x@ == v,
                None => r is None,
            },
    {
        proof {
            lemma_key_index_from(self@, key@, 0);
        }
        match self.position(key) {
            Some(i) => Some(&self.entries[i].value),
            None => None,
        }
    }

    /// Gives `key` the value `value`. A key that was there keeps its place
    /// and loses its old value; a new key goes to the end.
    pub fn insert(&mut self, key: Vec<u8>, value: Vec<u8>)
        ensures
            final(self)@ == with_header(old(self)@, key@, value@),
            old(self).wf() ==> final(self).wf(),
    {
        let found = self.position(key.as_slice());
        proof {
            if old(self).wf() {
                lemma_with_header(old(self)@, key@, value@, key@);
            }
            lemma_key_index_from(old(self)@, key@, 0);
        }
        match found {
            Some(i) => {
                self.entries.set(i, Header { key, value });
            },
            None => {
                self.entries.push(Header { key, value });
            },
        }
        assert(self@ =~= with_header(old(self)@, key@, value@));
    }

    /// Takes the entry for `key` out and returns its value.
    pub fn remove(&mut self, key: &[u8]) -> (r: Option<Vec<u8>>)
        ensures
            final(self)@ == without_header(old(self)@, key@),
            old(self).wf() ==> final(self).wf(),
            match lookup(old(self)@, key@) {
                Some(v) => r matches Some(x) && x@ == v,
                None => r is None,
            },
    {
        let found = self.position(key);
        proof {
            if old(self).wf() {
                lemma_without_header(old(self)@, key@);
            }
            lemma_key_index_from(old(self)@, key@, 0);
        }
        match found {
            Some(i) => {
                let header = self.entries.remove(i);
                assert(self@ =~= without_header(old(self)@, key@));
                Some(header.value)
            },
            None => None,
        }
    }
}

} // verus!
