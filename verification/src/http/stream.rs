//! Reading from a stream that is still growing: what was read from the bytes
//! that have come stays what it is when more bytes come.

use crate::bytes::{find_from, lemma_find_from, lemma_find_from_least, matches_at};
use crate::http::crlf;
use crate::http::request::{incoming, read_body, read_headers, ReadFailure};
use crate::http::Method;
use vstd::prelude::*;

verus! {

/// The outcome is final: a request, or the refusal of what can be none. The
/// other outcomes say that the bytes ran out.
pub open spec fn settled<T>(outcome: Result<T, ReadFailure>) -> bool {
    match outcome {
        Ok(_) => true,
        Err(failure) => !failure.ran_out(),
    }
}

/// An occurrence that was found is found again when bytes are added at the
/// end.
pub proof fn lemma_find_stable(s: Seq<u8>, more: Seq<u8>, d: Seq<u8>, from: int)
    requires
        0 <= from,
        find_from(s, d, from) is Some,
    ensures
        find_from(s + more, d, from) == find_from(s, d, from),
{
    lemma_find_from(s, d, from);
    let i = find_from(s, d, from).unwrap();
    let t = s + more;
    assert(t.subrange(i, i + d.len()) =~= s.subrange(i, i + d.len()));
    assert forall|j: int| from <= j < i implies !matches_at(t, d, j) by {
        assert(!matches_at(s, d, j));
        assert(t.subrange(j, j + d.len()) =~= s.subrange(j, j + d.len()));
    }
    lemma_find_from_least(t, d, from, i);
}

/// Headers that were read to their end, or refused, are read the same when
/// bytes are added at the end.
pub proof fn lemma_read_headers_stable(
    input: Seq<u8>,
    more: Seq<u8>,
    pos: int,
    acc: Seq<(Seq<u8>, Seq<u8>)>,
)
    requires
        0 <= pos,
        settled(read_headers(input, pos, acc)),
    ensures
        read_headers(input + more, pos, acc) == read_headers(input, pos, acc),
    decreases input.len() - pos,
{
    lemma_find_from(input, crlf(), pos);
    lemma_find_stable(input, more, crlf(), pos);
    let i = find_from(input, crlf(), pos).unwrap();
    assert(crlf().len() == 2);
    if i != pos {
        assert((input + more).subrange(pos, i) =~= input.subrange(pos, i));
        match crate::http::Header::parse(input.subrange(pos, i)) {
            Err(_) => {},
            Ok(kv) => {
                lemma_read_headers_stable(
                    input,
                    more,
                    i + 2,
                    crate::http::with_header(acc, kv.0, kv.1),
                );
            },
        }
    }
}

/// Headers that were read to their end end within the input.
pub proof fn lemma_read_headers_end(input: Seq<u8>, pos: int, acc: Seq<(Seq<u8>, Seq<u8>)>)
    requires
        0 <= pos,
        read_headers(input, pos, acc) is Ok,
    ensures
        pos <= read_headers(input, pos, acc).unwrap().1 <= input.len(),
    decreases input.len() - pos,
{
    lemma_find_from(input, crlf(), pos);
    let i = find_from(input, crlf(), pos).unwrap();
    assert(crlf().len() == 2);
    if i != pos {
        match crate::http::Header::parse(input.subrange(pos, i)) {
            Err(_) => {},
            Ok(kv) => {
                lemma_read_headers_end(input, i + 2, crate::http::with_header(acc, kv.0, kv.1));
            },
        }
    }
}

/// A body that was read whole, or refused, is read the same when bytes are
/// added at the end.
pub proof fn lemma_read_body_stable(
    input: Seq<u8>,
    more: Seq<u8>,
    pos: int,
    method: Method,
    headers: Seq<(Seq<u8>, Seq<u8>)>,
)
    requires
        0 <= pos <= input.len(),
        settled(read_body(input, pos, method, headers)),
    ensures
        read_body(input + more, pos, method, headers) == read_body(input, pos, method, headers),
{
    if let Ok((_, body, end)) = read_body(input, pos, method, headers) {
        assert((input + more).subrange(pos, end) =~= input.subrange(pos, end));
    }
}

/// Once the bytes that have come hold a whole request, or what can be none,
/// more bytes change neither the request, nor the count of the bytes that it
/// takes up, nor the refusal.
pub proof fn lemma_incoming_stable(input: Seq<u8>, more: Seq<u8>)
    requires
        settled(incoming(input)),
    ensures
        incoming(input + more) == incoming(input),
{
    lemma_find_from(input, crlf(), 0);
    lemma_find_stable(input, more, crlf(), 0);
    let i = find_from(input, crlf(), 0).unwrap();
    assert(crlf().len() == 2);
    assert((input + more).subrange(0, i) =~= input.subrange(0, i));
    if let Ok((method, path, http_version)) = crate::http::request::request_line(
        input.subrange(0, i),
    ) {
        lemma_read_headers_stable(input, more, i + 2, Seq::empty());
        if let Ok((headers, pos)) = read_headers(input, i + 2, Seq::empty()) {
            lemma_read_headers_end(input, i + 2, Seq::empty());
            lemma_read_body_stable(input, more, pos, method, headers);
        }
    }
}

/// A request that was read lies within the bytes that were given.
pub proof fn lemma_incoming_within(input: Seq<u8>)
    requires
        incoming(input) is Ok,
    ensures
        0 < incoming(input).unwrap().1 <= input.len(),
{
    lemma_find_from(input, crlf(), 0);
    let i = find_from(input, crlf(), 0).unwrap();
    assert(crlf().len() == 2);
    lemma_read_headers_end(input, i + 2, Seq::empty());
}

} // verus!
