use http_server::http::error::{BadRequest, InvalidTargetError};
use http_server::http::request::{parse_request_line, Target};
use http_server::http::{Method, Version};

fn line(text: &str) -> Vec<u8> {
    text.as_bytes().to_vec()
}

fn written(method: Method, path: &[u8], version: Version) -> Vec<u8> {
    let mut out: Vec<u8> = match method {
        Method::Get => b"GET".to_vec(),
        Method::Post => b"POST".to_vec(),
    };
    out.push(b' ');
    out.extend_from_slice(path);
    out.push(b' ');
    out.extend_from_slice(version.serialize());
    out
}

#[test]
fn request_line_gives_back_its_tokens() {
    let (method, target, version) = parse_request_line(line("GET /echo/foo HTTP/1.1")).unwrap();
    assert_eq!(method, Method::Get);
    assert_eq!(target.path, b"/echo/foo".to_vec());
    assert_eq!(version, Version::Ver1_1);
}

#[test]
fn written_request_lines_parse_back() {
    let paths: [&[u8]; 4] = [b"/", b"/echo/foo", b"/files/a/b.txt", "/caf\u{e9}".as_bytes()];
    for method in [Method::Get, Method::Post] {
        for version in [Version::Ver1_1, Version::Ver2_0] {
            for path in paths {
                let text = written(method, path, version);
                let (m, t, v) = parse_request_line(text.clone()).unwrap();
                assert_eq!(m, method);
                assert_eq!(t.path, path.to_vec());
                assert_eq!(v, version);
                assert_eq!(written(m, &t.path, v), text);
            }
        }
    }
}

#[test]
fn query_is_dropped_from_the_path() {
    let (_, target, _) = parse_request_line(line("GET /files/a?x=1&y=2 HTTP/1.1")).unwrap();
    assert_eq!(target.path, b"/files/a".to_vec());
    assert_eq!(Target::try_from(b"/?").unwrap().path, b"/".to_vec());
}

#[test]
fn post_and_second_version_are_recognised() {
    let (method, _, version) = parse_request_line(line("POST /files/x HTTP/2.0")).unwrap();
    assert_eq!(method, Method::Post);
    assert_eq!(version, Version::Ver2_0);
}

#[test]
fn unknown_method_is_unsupported() {
    assert_eq!(parse_request_line(line("PUT / HTTP/1.1")).err(), Some(BadRequest::UnsupportedMethod));
    assert_eq!(parse_request_line(line("get / HTTP/1.1")).err(), Some(BadRequest::UnsupportedMethod));
    assert_eq!(parse_request_line(line("")).err(), Some(BadRequest::UnsupportedMethod));
}

#[test]
fn line_that_is_not_utf8_is_refused_first() {
    assert_eq!(
        parse_request_line(vec![0x50, 0x55, 0x54, 0x20, 0xff]).err(),
        Some(BadRequest::NotUTF8)
    );
    assert_eq!(
        parse_request_line(b"GET /\xc3\x28 HTTP/1.1".to_vec()).err(),
        Some(BadRequest::NotUTF8)
    );
}

#[test]
fn missing_target_is_named() {
    assert_eq!(parse_request_line(line("GET")).err(), Some(BadRequest::MissingTarget));
}

#[test]
fn target_must_start_with_a_slash() {
    let expected = Some(BadRequest::BadTarget(InvalidTargetError::DoesNotStartWithSlash));
    assert_eq!(parse_request_line(line("GET echo/foo HTTP/1.1")).err(), expected);
    assert_eq!(parse_request_line(line("GET  HTTP/1.1")).err(), expected);
    assert_eq!(parse_request_line(line("GET ")).err(), expected);
    assert_eq!(
        Target::try_from(b"index.html").err(),
        Some(InvalidTargetError::DoesNotStartWithSlash)
    );
    assert_eq!(Target::try_from(b"").err(), Some(InvalidTargetError::DoesNotStartWithSlash));
}

#[test]
fn missing_version_is_named() {
    assert_eq!(parse_request_line(line("GET /")).err(), Some(BadRequest::MissingHTTPVersion));
}

#[test]
fn unknown_version_is_unsupported() {
    assert_eq!(
        parse_request_line(line("GET / HTTP/1.0")).err(),
        Some(BadRequest::UnsupportedHTTPVersion)
    );
    assert_eq!(
        parse_request_line(line("GET / ")).err(),
        Some(BadRequest::UnsupportedHTTPVersion)
    );
}

#[test]
fn a_fourth_token_is_refused() {
    assert_eq!(
        parse_request_line(line("GET / HTTP/1.1 more")).err(),
        Some(BadRequest::MissingCRLF)
    );
    assert_eq!(parse_request_line(line("GET / HTTP/1.1 ")).err(), Some(BadRequest::MissingCRLF));
}

#[test]
fn the_first_fault_from_the_left_decides() {
    assert_eq!(parse_request_line(line("PUT nowhere HTTP/9")).err(), Some(BadRequest::UnsupportedMethod));
    assert_eq!(
        parse_request_line(line("GET nowhere HTTP/9")).err(),
        Some(BadRequest::BadTarget(InvalidTargetError::DoesNotStartWithSlash))
    );
}

#[test]
fn method_and_version_tokens() {
    assert_eq!(Method::try_from(b"GET"), Ok(Method::Get));
    assert_eq!(Method::try_from(b"POST"), Ok(Method::Post));
    assert_eq!(Method::try_from(b"POST "), Err(BadRequest::UnsupportedMethod));
    assert_eq!(Version::try_from(b"HTTP/1.1"), Ok(Version::Ver1_1));
    assert_eq!(Version::try_from(b"HTTP/2.0"), Ok(Version::Ver2_0));
    assert_eq!(Version::try_from(b"HTTP/2"), Err(BadRequest::UnsupportedHTTPVersion));
    assert_eq!(Version::Ver1_1.serialize(), b"HTTP/1.1");
    assert_eq!(Version::Ver2_0.serialize(), b"HTTP/2.0");
    let mut out = b"> ".to_vec();
    Version::Ver2_0.write_to(&mut out);
    assert_eq!(out, b"> HTTP/2.0".to_vec());
}

#[test]
fn errors_describe_themselves() {
    assert_eq!(BadRequest::MissingMethod.to_string(), "Request line did not have a method");
    assert_eq!(BadRequest::UnsupportedMethod.to_string(), "Unsupported Method");
    assert_eq!(BadRequest::NotUTF8.to_string(), "Invalid utf-8");
    assert_eq!(
        BadRequest::BadTarget(InvalidTargetError::DoesNotStartWithSlash).to_string(),
        "Malformed target: does not start with '/'"
    );
    assert_eq!(BadRequest::MissingHTTPVersion.to_string(), "Missing HTTP version");
    assert_eq!(BadRequest::UnsupportedHTTPVersion.to_string(), "Unsupported HTTP version");
    assert_eq!(BadRequest::MissingCRLF.to_string(), "A CRLF is missing");
    assert_eq!(BadRequest::MissingHeader("User-Agent").to_string(), "Missing header: User-Agent");
    assert_eq!(
        BadRequest::MalformedHeader.to_string(),
        "Malformed header. Recquires delimiting ': '"
    );
    assert_eq!(BadRequest::MissingTarget.to_string(), "missing a target");
    assert_eq!(
        InvalidTargetError::DoesNotStartWithSlash.to_string(),
        "Malformed target: does not start with '/'"
    );
}
