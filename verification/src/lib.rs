//! A small HTTP/1.1 protocol engine: request framing and parsing, routing to
//! the built-in endpoints, and response serialisation, all over plain bytes.

pub mod bytes;
pub mod connection;
pub mod encoding;
pub mod http;
pub mod thread_pool;
