//! The decisions of the loop that serves one connection: what to do with
//! what was read, and whether to go on once a response was sent.

use crate::bytes::bytes_eq;
use crate::http::lookup;
use crate::http::request::{ReadFailure, Request, RequestView};
use crate::http::response::{
    bad_request_response, server_error, status_only, Response, ResponseStatus, ResponseView,
};
use vstd::prelude::*;
use vstd::string::*;

verus! {

/// What the loop does next.
#[derive(Debug, Clone, PartialEq, Eq)]
pub enum Action {
    /// Stop serving; nothing is sent.
    Stop,
    /// Send the response, then stop serving.
    Refuse(Response),
    /// Handle the request, which took up `consumed` bytes of the stream, and
    /// send what comes of it; `last` tells whether to stop after that.
    Serve { request: Request, consumed: usize, last: bool },
}

/// The model of an `Action`.
pub enum ActionView {
    Stop,
    Refuse(ResponseView),
    Serve { request: RequestView, consumed: usize, last: bool },
}

impl View for Action {
    type V = ActionView;

    open spec fn view(&self) -> ActionView {
        match self {
            Action::Stop => ActionView::Stop,
            Action::Refuse(response) => ActionView::Refuse(response@),
            Action::Serve { request, consumed, last } => ActionView::Serve {
                request: request@,
                consumed: *consumed,
                last: *last,
            },
        }
    }
}

/// The client asks for the connection to be closed after this request: its
/// `Connection` header says `close`.
pub open spec fn asks_to_close(request: RequestView) -> bool {
    lookup(request.headers, "Connection".spec_bytes()) == Some("close".spec_bytes())
}

/// The response that refuses what could not be read as a request: a bad
/// request for a client's error, a server error for a stream that broke off.
pub open spec fn refusal(failure: ReadFailure) -> Option<ResponseView> {
    match failure {
        ReadFailure::Closed => None,
        ReadFailure::UnexpectedEnd => Some(status_only(ResponseStatus::ServerError)),
        ReadFailure::Rejected(e) => Some(bad_request_response(e)),
    }
}

/// Tells whether the client asks for the connection to be closed.
pub fn closing(request: &Request) -> (r: bool)
    ensures
        r == asks_to_close(request@),
{
    match request.headers.get("Connection".as_bytes()) {
        Some(value) => bytes_eq(value.as_slice(), "close".as_bytes()),
        None => false,
    }
}

/// Decides what to do with what was read from the stream. A closed stream
/// ends the loop in silence; a failure is answered and ends it; a request is
/// served, and is the last one where the client asks to close.
pub fn on_read(read: Result<(Request, usize), ReadFailure>) -> (r: Action)
    ensures
        match read {
            Ok((request, consumed)) => r@ == (ActionView::Serve {
                request: request@,
                consumed,
                last: asks_to_close(request@),
            }),
            Err(failure) => match refusal(failure) {
                Some(response) => r@ == ActionView::Refuse(response),
                None => r@ == ActionView::Stop,
            },
        },
{
    match read {
        Ok((request, consumed)) => {
            let last = closing(&request);
            Action::Serve { request, consumed, last }
        },
        Err(ReadFailure::Closed) => Action::Stop,
        Err(ReadFailure::UnexpectedEnd) => Action::Refuse(server_error::generic()),
        Err(ReadFailure::Rejected(e)) => Action::Refuse(Response::from_bad_request(e)),
    }
}

/// Decides whether the loop goes on once a response was handed to the
/// stream: it does where the response was delivered and the request was not
/// the last.
pub fn on_sent(delivered: bool, last: bool) -> (again: bool)
    ensures
        again == (delivered && !last),
{
    delivered && !last
}

} // verus!
