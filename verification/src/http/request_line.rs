//! What parsing keeps of a request line: the line's tokens and the parts
//! that they parse to determine each other.

use crate::bytes::{
    find_first, lemma_find_from, lemma_find_from_least, lemma_find_from_none, matches_at,
};
use crate::http::request::{
    after_first, before_first, is_path, question_mark, request_line, space,
};
use crate::http::{Method, Version};
use vstd::prelude::*;
use vstd::string::*;
use vstd::utf8::{encode_utf8_valid_utf8, valid_utf8, valid_utf8_concat};

verus! {

/// The request line that spells a method, a target and a version.
pub open spec fn request_line_of(method: Method, target: Seq<u8>, version: Version) -> Seq<u8> {
    method.token() + space() + target + space() + version.token()
}

/// `b` does not occur in `s`.
pub open spec fn free_of(s: Seq<u8>, b: u8) -> bool {
    forall|j: int| 0 <= j < s.len() ==> #[trigger] s[j] != b
}

/// A delimiter of one byte stands exactly where that byte stands.
pub proof fn lemma_matches_single(s: Seq<u8>, b: u8, i: int)
    ensures
        matches_at(s, seq![b], i) <==> 0 <= i < s.len() && s[i] == b,
{
    if 0 <= i < s.len() {
        if s[i] == b {
            assert(s.subrange(i, i + 1) =~= seq![b]);
        } else {
            assert(s.subrange(i, i + 1)[0] == s[i]);
        }
    }
}

/// A sequence splits at a byte that follows a prefix free of it: the prefix
/// comes before, and all the rest after.
pub proof fn lemma_split_at(a: Seq<u8>, b: u8, rest: Seq<u8>)
    requires
        free_of(a, b),
    ensures
        before_first(a + seq![b] + rest, seq![b]) == a,
        after_first(a + seq![b] + rest, seq![b]) == Some(rest),
{
    let s = a + seq![b] + rest;
    let n = a.len() as int;
    assert forall|j: int| 0 <= j < n implies !matches_at(s, seq![b], j) by {
        lemma_matches_single(s, b, j);
        assert(s[j] == a[j]);
    }
    lemma_matches_single(s, b, n);
    lemma_find_from_least(s, seq![b], 0, n);
    assert(s.take(n) =~= a);
    assert(s.skip(n + 1) =~= rest);
}

/// A sequence free of a byte does not split at it.
pub proof fn lemma_no_split(a: Seq<u8>, b: u8)
    requires
        free_of(a, b),
    ensures
        before_first(a, seq![b]) == a,
        after_first(a, seq![b]) is None,
{
    assert forall|j: int| 0 <= j implies !matches_at(a, seq![b], j) by {
        lemma_matches_single(a, b, j);
    }
    lemma_find_from_none(a, seq![b], 0);
}

/// A sequence that splits at a byte is what came before, the byte, and what
/// came after, and what came before is free of the byte.
pub proof fn lemma_split_joins(s: Seq<u8>, b: u8)
    requires
        after_first(s, seq![b]) is Some,
    ensures
        s == before_first(s, seq![b]) + seq![b] + after_first(s, seq![b]).unwrap(),
        free_of(before_first(s, seq![b]), b),
{
    lemma_find_from(s, seq![b], 0);
    let i = find_first(s, seq![b]).unwrap();
    lemma_matches_single(s, b, i);
    assert(s =~= s.take(i) + seq![b] + s.skip(i + 1));
    assert forall|j: int| 0 <= j < i implies #[trigger] s.take(i)[j] != b by {
        lemma_matches_single(s, b, j);
    }
}

/// The tokens of the methods and versions, byte by byte.
pub proof fn lemma_tokens()
    ensures
        Method::Get.token() == seq![71u8, 69u8, 84u8],
        Method::Post.token() == seq![80u8, 79u8, 83u8, 84u8],
        Version::Ver1_1.token() == seq![72u8, 84u8, 84u8, 80u8, 47u8, 49u8, 46u8, 49u8],
        Version::Ver2_0.token() == seq![72u8, 84u8, 84u8, 80u8, 47u8, 50u8, 46u8, 48u8],
{
    reveal_strlit("GET");
    reveal_strlit("POST");
    reveal_strlit("HTTP/1.1");
    reveal_strlit("HTTP/2.0");
    is_ascii_spec_bytes("GET");
    is_ascii_spec_bytes("POST");
    is_ascii_spec_bytes("HTTP/1.1");
    is_ascii_spec_bytes("HTTP/2.0");
    assert(Method::Get.token() =~= seq![71u8, 69u8, 84u8]);
    assert(Method::Post.token() =~= seq![80u8, 79u8, 83u8, 84u8]);
    assert(Version::Ver1_1.token() =~= seq![72u8, 84u8, 84u8, 80u8, 47u8, 49u8, 46u8, 49u8]);
    assert(Version::Ver2_0.token() =~= seq![72u8, 84u8, 84u8, 80u8, 47u8, 50u8, 46u8, 48u8]);
}

/// A token names the method that it parses to, and likewise for versions.
pub proof fn lemma_token_names(token: Seq<u8>)
    ensures
        Method::from_token(token) matches Some(m) ==> m.token() == token,
        Version::from_token(token) matches Some(v) ==> v.token() == token,
{
}

/// Every method and version parses from its own token.
pub proof fn lemma_token_parses(method: Method, version: Version)
    ensures
        Method::from_token(method.token()) == Some(method),
        Version::from_token(version.token()) == Some(version),
{
    lemma_tokens();
    assert(Method::Get.token().len() != Method::Post.token().len());
    assert(Version::Ver1_1.token()[5] != Version::Ver2_0.token()[5]);
}

/// Parsing keeps what a request line says: the line is the token of the
/// method parsed from it, a space, the path parsed from it with the query
/// that was dropped, a space, and the token of the version parsed from it.
/// The query is empty where the target holds no question mark, and starts
/// with one otherwise.
pub proof fn lemma_parse_keeps_tokens(line: Seq<u8>)
    requires
        request_line(line) is Ok,
    ensures
        ({
            let (method, path, version) = request_line(line).unwrap();
            exists|query: Seq<u8>|
                line == #[trigger] request_line_of(method, path + query, version) && (query.len()
                    == 0 || query[0] == 63)
        }),
{
    let (method, path, version) = request_line(line).unwrap();
    let rest = after_first(line, space()).unwrap();
    let target = before_first(rest, space());
    let last = after_first(rest, space()).unwrap();
    lemma_token_names(before_first(line, space()));
    lemma_token_names(before_first(last, space()));
    lemma_split_joins(line, 32);
    lemma_split_joins(rest, 32);
    assert(before_first(last, space()) == last);
    lemma_find_from(target, question_mark(), 0);
    let query = match find_first(target, question_mark()) {
        Some(i) => target.skip(i),
        None => Seq::empty(),
    };
    match find_first(target, question_mark()) {
        Some(i) => {
            lemma_matches_single(target, 63, i);
            assert(target =~= target.take(i) + target.skip(i));
        },
        None => {
            assert(target =~= target + Seq::<u8>::empty());
        },
    }
    assert(line =~= request_line_of(method, path + query, version));
}

/// A request line written from a method, a path and a version parses back
/// to them, where the path starts with a slash, is valid UTF-8 and holds
/// neither a space nor a question mark.
pub proof fn lemma_request_line_round_trip(method: Method, path: Seq<u8>, version: Version)
    requires
        is_path(path),
        valid_utf8(path),
        free_of(path, 32),
        free_of(path, 63),
    ensures
        request_line(request_line_of(method, path, version)) == Ok::<
            (Method, Seq<u8>, Version),
            crate::http::error::BadRequest,
        >((method, path, version)),
{
    let line = request_line_of(method, path, version);
    lemma_tokens();
    lemma_token_parses(method, version);
    assert(free_of(method.token(), 32));
    assert(free_of(version.token(), 32));
    assert(valid_utf8(line)) by {
        reveal_strlit(" ");
        is_ascii_spec_bytes(" ");
        assert(space() =~= " ".spec_bytes());
        encode_utf8_valid_utf8(" "@);
        encode_utf8_valid_utf8("GET"@);
        encode_utf8_valid_utf8("POST"@);
        encode_utf8_valid_utf8("HTTP/1.1"@);
        encode_utf8_valid_utf8("HTTP/2.0"@);
        valid_utf8_concat(method.token(), space());
        valid_utf8_concat(method.token() + space(), path);
        valid_utf8_concat(method.token() + space() + path, space());
        valid_utf8_concat(method.token() + space() + path + space(), version.token());
    }
    let rest = path + space() + version.token();
    assert(line =~= method.token() + seq![32u8] + rest);
    lemma_split_at(method.token(), 32, rest);
    lemma_split_at(path, 32, version.token());
    lemma_no_split(version.token(), 32);
    lemma_no_split(path, 63);
}

} // verus!
