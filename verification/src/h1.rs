//! The failures that the HTTP/1.1 layer reports.

use http::Error as HttpError;
use httparse::Error as ParseError;
use vstd::prelude::*;

verus! {

/// A failure of the HTTP/1.1 layer, in that layer's own terms.
#[derive(Debug)]
pub enum Error {
    /// The caller used the layer wrongly.
    User(String),
    /// The peer broke the protocol.
    Proto(String),
    /// The transport failed.
    Io(std::io::Error),
    /// A message could not be parsed.
    Http11Parser(ParseError),
    /// A message could not be built.
    Http(HttpError),
}

} // verus!
