//! Body encodings that a client may ask for.

use crate::bytes::bytes_eq;
use crate::http::error::IoFailure;
use std::io::Read;
use vstd::prelude::*;
use vstd::string::*;

verus! {

/// A supported body encoding.
#[derive(Debug, Copy, Clone, PartialEq, Eq, Structural)]
pub enum Encoding {
    Gzip,
}

/// The answer to a token that names no supported encoding.
#[derive(Debug, Clone, PartialEq, Eq)]
pub struct UnsupportedEncodingError;

/// The gzip stream that the compressor makes of `raw` at its default level.
pub uninterp spec fn gzip_bytes(raw: Seq<u8>) -> Seq<u8>;

/// What `raw` becomes under `encoding`.
pub open spec fn encoded(raw: Seq<u8>, encoding: Encoding) -> Seq<u8> {
    match encoding {
        Encoding::Gzip => gzip_bytes(raw),
    }
}

impl Encoding {
    /// The token that names this encoding on the wire.
    pub open spec fn token(self) -> Seq<u8> {
        match self {
            Encoding::Gzip => "gzip".spec_bytes(),
        }
    }

    /// The encoding that `token` names, if it names one.
    pub open spec fn from_token(token: Seq<u8>) -> Option<Encoding> {
        if token == Encoding::Gzip.token() {
            Some(Encoding::Gzip)
        } else {
            None
        }
    }

    /// Matches `token`, case and all, against the names of the supported
    /// encodings.
    pub fn try_from(token: &[u8]) -> (r: Result<Encoding, UnsupportedEncodingError>)
        ensures
            match Encoding::from_token(token@) {
                Some(e) => r == Ok::<Encoding, UnsupportedEncodingError>(e),
                None => r is Err,
            },
    {
        if bytes_eq(token, "gzip".as_bytes()) {
            Ok(Encoding::Gzip)
        } else {
            Err(UnsupportedEncodingError)
        }
    }

    /// The name of this encoding.
    pub fn name(self) -> (r: &'static str)
        ensures
            r.spec_bytes() == self.token(),
    {
        match self {
            Encoding::Gzip => "gzip",
        }
    }
}

/// Runs `flate2::read::GzEncoder` at `flate2::Compression::default()` over
/// `raw` and reads it to its end with `read_to_end`. The read succeeds, and
/// what was read is the gzip stream of `raw`, which depends on `raw` alone.
/// It succeeds because nothing on the way reports an error: a slice reads
/// without one; the compressor is fed the input in order and then told to
/// finish, which is the use that it accepts; and its checks on its own
/// buffers cannot fail while the output goes to a buffer.
#[verifier::external_body]
fn gzip(raw: &[u8]) -> (r: Result<Vec<u8>, std::io::Error>)
    ensures
        r is Ok,
        r matches Ok(v) ==> v@ == gzip_bytes(raw@),
{
    let mut out = Vec::new();
    match flate2::read::GzEncoder::new(raw, flate2::Compression::default()).read_to_end(&mut out) {
        Ok(_) => Ok(out),
        Err(e) => Err(e),
    }
}

/// Returns a compressed copy of `raw` in the given encoding. Reading from
/// memory does not fail, so the copy is always there.
pub fn read_and_encode(raw: &[u8], encoding: Encoding) -> (r: Result<Vec<u8>, IoFailure>)
    ensures
        r matches Ok(v) && v@ == encoded(raw@, encoding),
{
    let compressed = match encoding {
        Encoding::Gzip => gzip(raw),
    };
    match compressed {
        Ok(v) => Ok(v),
        Err(_) => Err(IoFailure::Other),
    }
}

} // verus!
