//! The content types that a body can have.

use vstd::prelude::*;
use vstd::string::*;

verus! {

/// The type of a body.
#[derive(Debug, Clone, Copy, PartialEq, Eq, Structural)]
pub enum ContentType {
    Application(Application),
    Text(Text),
}

/// The application types.
#[derive(Debug, Clone, Copy, PartialEq, Eq, Structural)]
pub enum Application {
    OctetStream,
}

/// The text types.
#[derive(Debug, Clone, Copy, PartialEq, Eq, Structural)]
pub enum Text {
    Plain,
}

impl ContentType {
    /// The name of this type as a `Content-Type` header carries it.
    pub open spec fn token(self) -> Seq<u8> {
        match self {
            ContentType::Application(Application::OctetStream) => "application/octet-stream".spec_bytes(),
            ContentType::Text(Text::Plain) => "text/plain".spec_bytes(),
        }
    }

    /// The name of this type.
    pub fn as_text(&self) -> (r: &'static [u8])
        ensures
            r@ == self.token(),
    {
        match self {
            ContentType::Application(a) => match a {
                Application::OctetStream => "application/octet-stream".as_bytes(),
            },
            ContentType::Text(t) => match t {
                Text::Plain => "text/plain".as_bytes(),
            },
        }
    }
}

} // verus!
