use http_server::connection::{closing, on_read, on_sent, Action};
use http_server::encoding::Encoding;
use http_server::http::error::{BadRequest, InvalidTargetError, IoFailure};
use http_server::http::request::{
    get_first_supported_encoding, handle_get_file, handle_get_user_agent, handle_post_file,
    read_request, stays_inside, try_create_path, FilePath, Handling, ReadFailure, Request,
};
use http_server::http::response::client_error::not_found;
use http_server::http::response::server_error::generic;
use http_server::http::response::success::{created, octet_stream, plain_text};
use http_server::http::response::{Response, ResponseStatus};
use http_server::http::Headers;
use http_server::thread_pool::pool_size;
use std::collections::HashMap;
use std::io::Read;

fn request(text: &[u8]) -> Request {
    let (request, consumed) = read_request(text).unwrap();
    assert_eq!(consumed, text.len());
    request
}

fn respond(text: &[u8]) -> Response {
    let request = request(text);
    assert!(request.is_routable());
    match request.handle(Some("/srv")) {
        Handling::Respond(response) => response,
        other => panic!("no response: {:?}", other),
    }
}

fn wire(response: Response) -> Vec<u8> {
    let mut out = Vec::new();
    response.write_to(&mut out);
    out
}

fn gunzip(bytes: &[u8]) -> Vec<u8> {
    let mut out = Vec::new();
    flate2::read::GzDecoder::new(bytes).read_to_end(&mut out).unwrap();
    out
}

fn serve(store: &mut HashMap<Vec<u8>, Vec<u8>>, text: &[u8]) -> Response {
    let result = match request(text).handle(Some("/srv")) {
        Handling::Respond(response) => Ok(response),
        Handling::ReadFile { path, opt_encoding } => {
            assert_eq!(path.root, "/srv");
            handle_get_file(store.get(&path.name).cloned().ok_or(IoFailure::NotFound), opt_encoding)
        }
        Handling::WriteFile { path, content } => {
            assert_eq!(path.root, "/srv");
            store.insert(path.name, content);
            handle_post_file(Ok(()))
        }
    };
    match result {
        Ok(response) => response,
        Err(response) => response,
    }
}

#[test]
fn root_is_an_empty_success() {
    assert_eq!(wire(respond(b"GET / HTTP/1.1\r\n\r\n")), b"HTTP/1.1 200 OK\r\n\r\n".to_vec());
}

#[test]
fn echo_sends_the_rest_of_the_path_back() {
    let response = respond(b"GET /echo/foo HTTP/1.1\r\nHost: localhost\r\n\r\n");
    assert_eq!(response.status, ResponseStatus::Okay);
    assert_eq!(response.body_data.clone().unwrap().body, b"foo".to_vec());
    assert_eq!(
        wire(response),
        b"HTTP/1.1 200 OK\r\nContent-Type: text/plain\r\nContent-Length: 3\r\n\r\nfoo".to_vec()
    );
}

#[test]
fn echo_keeps_later_slashes_and_drops_the_query() {
    assert_eq!(respond(b"GET /echo/a/b/ HTTP/1.1\r\n\r\n"), plain_text("a/b/".to_string(), None));
    assert_eq!(respond(b"GET /echo/a?b=c HTTP/1.1\r\n\r\n"), plain_text("a".to_string(), None));
    assert_eq!(respond(b"GET /echo HTTP/1.1\r\n\r\n"), plain_text(String::new(), None));
    assert_eq!(respond(b"GET /echo/ HTTP/1.1\r\n\r\n"), plain_text(String::new(), None));
}

#[test]
fn user_agent_is_sent_back() {
    let response = respond(b"GET /user-agent HTTP/1.1\r\nUser-Agent: xyz/1.0\r\n\r\n");
    assert_eq!(response.status, ResponseStatus::Okay);
    assert_eq!(response.body_data.clone().unwrap().body, b"xyz/1.0".to_vec());
    assert_eq!(
        wire(response),
        b"HTTP/1.1 200 OK\r\nContent-Type: text/plain\r\nContent-Length: 7\r\n\r\nxyz/1.0".to_vec()
    );
}

#[test]
fn user_agent_is_never_encoded() {
    let response =
        respond(b"GET /user-agent HTTP/1.1\r\nUser-Agent: curl\r\nAccept-Encoding: gzip\r\n\r\n");
    assert_eq!(response, plain_text("curl".to_string(), None));
}

#[test]
fn user_agent_missing_is_a_bad_request() {
    let response = respond(b"GET /user-agent HTTP/1.1\r\nHost: localhost\r\n\r\n");
    assert_eq!(response.status, ResponseStatus::BadRequest);
    assert_eq!(
        response.dyn_headers.get(b"Cause"),
        Some(&b"Missing header: User-Agent".to_vec())
    );
    assert_eq!(
        wire(response),
        b"HTTP/1.1 400 Bad Request\r\nCause: Missing header: User-Agent\r\n\r\n".to_vec()
    );
}

#[test]
fn user_agent_with_more_path_is_not_found() {
    assert_eq!(respond(b"GET /user-agent/x HTTP/1.1\r\nUser-Agent: a\r\n\r\n"), not_found());
    assert_eq!(
        respond(b"GET /user-agent/ HTTP/1.1\r\nUser-Agent: a\r\n\r\n"),
        plain_text("a".to_string(), None)
    );
}

#[test]
fn other_paths_are_not_found() {
    assert_eq!(respond(b"GET /nothing HTTP/1.1\r\n\r\n"), not_found());
    assert_eq!(respond(b"GET /Echo/a HTTP/1.1\r\n\r\n"), not_found());
    assert_eq!(respond(b"GET /echoes HTTP/1.1\r\n\r\n"), not_found());
    assert_eq!(
        wire(respond(b"GET /nothing HTTP/1.1\r\n\r\n")),
        b"HTTP/1.1 404 Not Found\r\n\r\n".to_vec()
    );
}

#[test]
fn file_round_trip_through_the_store() {
    let mut store = HashMap::new();
    let first = serve(
        &mut store,
        b"POST /files/a/b.txt HTTP/1.1\r\nContent-Length: 5\r\n\r\nhello",
    );
    assert_eq!(first, created());
    assert_eq!(wire(first), b"HTTP/1.1 201 Created\r\n\r\n".to_vec());
    let second = serve(&mut store, b"GET /files/a/b.txt HTTP/1.1\r\n\r\n");
    assert_eq!(second.status, ResponseStatus::Okay);
    assert_eq!(second.body_data.clone().unwrap().body, b"hello".to_vec());
    assert_eq!(second, octet_stream(b"hello".to_vec(), None));
    assert_eq!(
        wire(second),
        b"HTTP/1.1 200 OK\r\nContent-Type: application/octet-stream\r\nContent-Length: 5\r\n\r\nhello"
            .to_vec()
    );
    assert_eq!(serve(&mut store, b"GET /files/a/c.txt HTTP/1.1\r\n\r\n"), not_found());
}

#[test]
fn files_name_the_rest_of_the_path() {
    let got = request(b"GET /files/a/b.txt HTTP/1.1\r\nAccept-Encoding: gzip\r\n\r\n")
        .handle(Some("/srv/files"));
    assert_eq!(
        got,
        Handling::ReadFile {
            path: FilePath { root: "/srv/files".to_string(), name: b"a/b.txt".to_vec() },
            opt_encoding: Some(Encoding::Gzip)
        }
    );
    let got = request(b"POST /files/x HTTP/1.1\r\nContent-Length: 2\r\n\r\nhi").handle(Some("r"));
    assert_eq!(
        got,
        Handling::WriteFile {
            path: FilePath { root: "r".to_string(), name: b"x".to_vec() },
            content: b"hi".to_vec()
        }
    );
}

#[test]
fn files_without_a_store_are_a_server_error() {
    assert_eq!(
        request(b"GET /files/a HTTP/1.1\r\n\r\n").handle(None),
        Handling::Respond(generic())
    );
    assert_eq!(
        request(b"POST /files/a HTTP/1.1\r\nContent-Length: 0\r\n\r\n").handle(None),
        Handling::Respond(generic())
    );
    assert_eq!(request(b"GET /echo/a HTTP/1.1\r\n\r\n").handle(None),
        Handling::Respond(plain_text("a".to_string(), None)));
    assert_eq!(try_create_path(None, b"a"), Err(generic()));
    assert_eq!(
        try_create_path(Some("/srv"), b"a/b"),
        Ok(FilePath { root: "/srv".to_string(), name: b"a/b".to_vec() })
    );
}

#[test]
fn names_that_stay_below_the_root() {
    for name in ["a", "a/b.txt", "a/b/c", "..a", "a..", "...", ".a", "a.", "a b", "\u{e9}"] {
        assert!(stays_inside(name.as_bytes()), "{name}");
    }
    for name in [
        "", "/", "/a", "a/", "a//b", ".", "..", "./a", "../a", "a/.", "a/..", "a/./b", "a/../b",
        "a/b/..", "//", "/etc/passwd", "../../etc/passwd",
    ] {
        assert!(!stays_inside(name.as_bytes()), "{name}");
    }
}

#[test]
fn names_that_lead_out_of_the_root_are_not_found() {
    assert_eq!(try_create_path(Some("/srv"), b"../secret"), Err(not_found()));
    assert_eq!(try_create_path(Some("/srv"), b"/etc/passwd"), Err(not_found()));
    assert_eq!(try_create_path(Some("/srv"), b""), Err(not_found()));
    assert_eq!(try_create_path(None, b"../secret"), Err(generic()));
    assert_eq!(
        request(b"GET /files/../secret HTTP/1.1\r\n\r\n").handle(Some("/srv")),
        Handling::Respond(not_found())
    );
    assert_eq!(
        request(b"GET /files//etc/passwd HTTP/1.1\r\n\r\n").handle(Some("/srv")),
        Handling::Respond(not_found())
    );
    assert_eq!(
        request(b"POST /files/a/../../b HTTP/1.1\r\nContent-Length: 1\r\n\r\nx")
            .handle(Some("/srv")),
        Handling::Respond(not_found())
    );
    assert_eq!(
        request(b"POST /files HTTP/1.1\r\nContent-Length: 1\r\n\r\nx").handle(Some("/srv")),
        Handling::Respond(not_found())
    );
    assert_eq!(
        request(b"GET /files/a/../b HTTP/1.1\r\n\r\n").handle(None),
        Handling::Respond(generic())
    );
}

#[test]
fn store_failures_become_responses() {
    assert_eq!(handle_get_file(Err(IoFailure::NotFound), None), Err(not_found()));
    assert_eq!(handle_get_file(Err(IoFailure::PermissionDenied), None), Err(not_found()));
    assert_eq!(handle_get_file(Err(IoFailure::Other), Some(Encoding::Gzip)), Err(generic()));
    assert_eq!(handle_get_file(Err(IoFailure::Other), None), Err(generic()));
    assert_eq!(handle_post_file(Err(IoFailure::PermissionDenied)), Err(not_found()));
    assert_eq!(handle_post_file(Err(IoFailure::Other)), Err(generic()));
    assert_eq!(handle_post_file(Ok(())), Ok(created()));
}

#[test]
fn served_file_is_encoded_as_negotiated() {
    let response = handle_get_file(Ok(b"hello".to_vec()), Some(Encoding::Gzip)).unwrap();
    let data = response.body_data.unwrap();
    assert_eq!(data.opt_encoding, Some(Encoding::Gzip));
    assert_eq!(gunzip(&data.body), b"hello".to_vec());
}

#[test]
fn echo_with_gzip_accepted() {
    let response = respond(b"GET /echo/foo HTTP/1.1\r\nAccept-Encoding: gzip\r\n\r\n");
    assert_eq!(response.status, ResponseStatus::Okay);
    let data = response.body_data.clone().unwrap();
    assert_eq!(data.opt_encoding, Some(Encoding::Gzip));
    assert_eq!(gunzip(&data.body), b"foo".to_vec());
    let bytes = wire(response);
    let mut head = b"HTTP/1.1 200 OK\r\nContent-Type: text/plain\r\nContent-Length: ".to_vec();
    head.extend_from_slice(data.body.len().to_string().as_bytes());
    head.extend_from_slice(b"\r\nContent-Encoding: gzip\r\n\r\n");
    assert_eq!(&bytes[..head.len()], &head[..]);
    assert_eq!(gunzip(&bytes[head.len()..]), b"foo".to_vec());
}

#[test]
fn unsupported_encoding_falls_back_to_none() {
    let response = respond(b"GET /echo/foo HTTP/1.1\r\nAccept-Encoding: br\r\n\r\n");
    assert_eq!(response, plain_text("foo".to_string(), None));
    assert_eq!(
        wire(response),
        b"HTTP/1.1 200 OK\r\nContent-Type: text/plain\r\nContent-Length: 3\r\n\r\nfoo".to_vec()
    );
}

#[test]
fn first_supported_token_wins() {
    assert_eq!(get_first_supported_encoding(b"gzip"), Some(Encoding::Gzip));
    assert_eq!(get_first_supported_encoding(b"br gzip deflate"), Some(Encoding::Gzip));
    assert_eq!(get_first_supported_encoding(b"  \tbr\r\n gzip  "), Some(Encoding::Gzip));
    assert_eq!(get_first_supported_encoding(b"br"), None);
    assert_eq!(get_first_supported_encoding(b""), None);
    assert_eq!(get_first_supported_encoding(b"   "), None);
    assert_eq!(get_first_supported_encoding(b"GZIP Gzip"), None);
    assert_eq!(get_first_supported_encoding(b"br, gzip"), Some(Encoding::Gzip));
    assert_eq!(get_first_supported_encoding(b"gzip, br"), None);
    assert_eq!(get_first_supported_encoding(b"gzip\x0cbr"), Some(Encoding::Gzip));
    assert_eq!(get_first_supported_encoding(b"gzip\x0bbr"), None);
}

#[test]
fn user_agent_from_headers() {
    let mut headers = Headers::new();
    assert_eq!(
        handle_get_user_agent(headers.clone()),
        Err(Response::from_bad_request(BadRequest::MissingHeader("User-Agent")))
    );
    headers.insert(b"User-Agent".to_vec(), b"a b".to_vec());
    assert_eq!(handle_get_user_agent(headers), Ok(plain_text("a b".to_string(), None)));
}

#[test]
fn posts_outside_the_store_are_not_routed() {
    assert!(!request(b"POST /echo/a HTTP/1.1\r\nContent-Length: 0\r\n\r\n").is_routable());
    assert!(!request(b"POST / HTTP/1.1\r\nContent-Length: 0\r\n\r\n").is_routable());
    assert!(request(b"POST /files HTTP/1.1\r\nContent-Length: 0\r\n\r\n").is_routable());
    assert!(request(b"POST /files/a HTTP/1.1\r\nContent-Length: 0\r\n\r\n").is_routable());
    assert!(request(b"GET /anything HTTP/1.1\r\n\r\n").is_routable());
}

#[test]
fn closed_stream_stops_in_silence() {
    assert_eq!(on_read(read_request(b"")), Action::Stop);
    assert_eq!(on_read(Err(ReadFailure::Closed)), Action::Stop);
}

#[test]
fn failures_are_answered_once() {
    assert_eq!(on_read(Err(ReadFailure::UnexpectedEnd)), Action::Refuse(generic()));
    assert_eq!(
        on_read(read_request(b"GET / HT")),
        Action::Refuse(Response::from_bad_request(BadRequest::MissingMethod))
    );
    assert_eq!(
        on_read(read_request(b"GET / HTTP/1.1\r\nHost\r\n\r\n")),
        Action::Refuse(Response::from_bad_request(BadRequest::MalformedHeader))
    );
    let refused = on_read(read_request(b"GET echo/foo HTTP/1.1\r\n\r\n"));
    assert_eq!(
        refused,
        Action::Refuse(Response::from_bad_request(BadRequest::BadTarget(
            InvalidTargetError::DoesNotStartWithSlash
        )))
    );
    match refused {
        Action::Refuse(response) => assert_eq!(
            wire(response),
            b"HTTP/1.1 400 Bad Request\r\nCause: Malformed target: does not start with '/'\r\n\r\n"
                .to_vec()
        ),
        other => panic!("not refused: {:?}", other),
    }
}

#[test]
fn requests_are_served_until_the_client_asks_to_close() {
    let text = b"GET / HTTP/1.1\r\nHost: a\r\n\r\nrest";
    let read = read_request(text);
    let expected = read.clone().unwrap();
    assert_eq!(
        on_read(read),
        Action::Serve { request: expected.0, consumed: text.len() - 4, last: false }
    );
    match on_read(read_request(b"GET / HTTP/1.1\r\nConnection: close\r\n\r\n")) {
        Action::Serve { last, .. } => assert!(last),
        other => panic!("not served: {:?}", other),
    }
    assert!(closing(&request(b"GET / HTTP/1.1\r\nConnection: close\r\n\r\n")));
    assert!(!closing(&request(b"GET / HTTP/1.1\r\nConnection: keep-alive\r\n\r\n")));
    assert!(!closing(&request(b"GET / HTTP/1.1\r\nconnection: close\r\n\r\n")));
    assert!(!closing(&request(b"GET / HTTP/1.1\r\n\r\n")));
}

#[test]
fn loop_goes_on_after_a_delivered_response() {
    assert!(on_sent(true, false));
    assert!(!on_sent(true, true));
    assert!(!on_sent(false, false));
    assert!(!on_sent(false, true));
}

#[test]
fn pool_is_one_smaller_than_the_machine_but_not_too_small() {
    assert_eq!(pool_size(Some(8), 5), 7);
    assert_eq!(pool_size(Some(6), 5), 5);
    assert_eq!(pool_size(Some(7), 5), 6);
    assert_eq!(pool_size(Some(1), 0), 0);
    assert_eq!(pool_size(Some(1), 5), 5);
    assert_eq!(pool_size(None, 3), 3);
    assert_eq!(pool_size(Some(255), 5), 254);
    assert_eq!(pool_size(Some(256), 5), 255);
    assert_eq!(pool_size(Some(257), 5), 256);
    assert_eq!(pool_size(Some(300), 5), 299);
    assert_eq!(pool_size(Some(usize::MAX), 0), usize::MAX - 1);
    assert_eq!(pool_size(Some(4), 255), 255);
    assert_eq!(pool_size(Some(256), 255), 255);
    assert_eq!(pool_size(Some(257), 255), 256);
}
