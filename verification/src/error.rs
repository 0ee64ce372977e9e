//! The error type shared by the layers of the server, the conversions into it
//! from the errors of the layers below, and its classification.

use crate::h1;
use crate::text::prefixed;
use h2::Error as H2Error;
use http::Error as HttpError;
use httparse::Error as ParseError;
use rustls::TLSError;
use vstd::prelude::*;
use vstd::std_specs::convert::FromSpecImpl;
use webpki::InvalidDNSNameError;

verus! {

/// `std::io::Error`, carried as it is.
#[verifier::external_type_specification]
#[verifier::external_body]
pub struct ExIoError(std::io::Error);

/// The error of the HTTP/1.1 parser, carried as it is.
#[verifier::external_type_specification]
#[verifier::external_body]
pub struct ExParseError(ParseError);

/// The error of the HTTP/2 layer, carried as it is.
#[verifier::external_type_specification]
#[verifier::external_body]
pub struct ExH2Error(H2Error);

/// The error of building an HTTP message, carried as it is.
#[verifier::external_type_specification]
#[verifier::external_body]
pub struct ExHttpError(HttpError);

/// The error of the TLS layer, carried as it is.
#[verifier::external_type_specification]
#[verifier::external_body]
pub struct ExTlsError(TLSError);

/// The error of checking a DNS name, carried as it is.
#[verifier::external_type_specification]
#[verifier::external_body]
pub struct ExDnsNameError(InvalidDNSNameError);

/// The kinds of I/O failure that the classification tells apart.
#[derive(Clone, Copy, Debug, PartialEq, Eq, Structural)]
pub enum IoKind {
    BrokenPipe,
    ConnectionAborted,
    ConnectionReset,
    Interrupted,
    TimedOut,
    /// Any kind but the five above.
    Other,
}

/// The kind that `std::io::Error::kind` reports for `e`, as an `IoKind`:
/// `Other` for each kind that `IoKind` does not list.
pub uninterp spec fn io_kind_read(e: std::io::Error) -> IoKind;

/// The I/O error that `h2::Error::into_io` finds inside the HTTP/2 error `e`,
/// `None` where `e` wraps none.
pub uninterp spec fn h2_io_part(e: H2Error) -> Option<std::io::Error>;

/// An I/O failure: the error of the standard library, classified by the kind
/// that it reports.
#[derive(Debug)]
pub struct IoFailure {
    /// The error that the failure was recorded from.
    pub source: std::io::Error,
}

/// Calls `std::io::Error::kind` and gives the kind it reports as an `IoKind`,
/// `Other` for each kind that `IoKind` does not list. The kind depends on the
/// error alone, and `io_kind_read` is its name.
#[verifier::external_body]
fn io_error_kind(e: &std::io::Error) -> (kind: IoKind)
    ensures
        kind == io_kind_read(*e),
{
    match std::io::Error::kind(e) {
        std::io::ErrorKind::BrokenPipe => IoKind::BrokenPipe,
        std::io::ErrorKind::ConnectionAborted => IoKind::ConnectionAborted,
        std::io::ErrorKind::ConnectionReset => IoKind::ConnectionReset,
        std::io::ErrorKind::Interrupted => IoKind::Interrupted,
        std::io::ErrorKind::TimedOut => IoKind::TimedOut,
        _ => IoKind::Other,
    }
}

/// Calls `h2::Error::is_io` and, where it says yes, `h2::Error::into_io`: the
/// I/O error inside an HTTP/2 error that wraps one, else the HTTP/2 error
/// itself, unchanged. Both calls look at the same part of the error, so the
/// second finds an I/O error whenever the first says yes; `h2_io_part` is the
/// name of what it finds.
#[verifier::external_body]
fn h2_into_io(e: H2Error) -> (r: Result<std::io::Error, H2Error>)
    ensures
        match h2_io_part(e) {
            Some(io) => r == Ok::<std::io::Error, H2Error>(io),
            None => r == Err::<std::io::Error, H2Error>(e),
        },
{
    if H2Error::is_io(&e) {
        Ok(H2Error::into_io(e).unwrap())
    } else {
        Err(e)
    }
}

impl IoFailure {
    /// The kind of the failure: the kind that its error reports.
    pub open spec fn kind_of(&self) -> IoKind {
        io_kind_read(self.source)
    }

    /// Records an I/O failure.
    pub fn new(source: std::io::Error) -> (failure: IoFailure)
        ensures
            failure == (IoFailure { source }),
            failure.kind() == io_kind_read(source),
    {
        IoFailure { source }
    }

    /// The kind of the failure.
    #[verifier::when_used_as_spec(kind_of)]
    pub fn kind(&self) -> (kind: IoKind)
        ensures
            kind == io_kind_read(self.source),
    {
        io_error_kind(&self.source)
    }

    /// The message of the error that the failure was recorded from: what
    /// that error's `Display` writes.
    pub fn to_string(&self) -> (text: String)
        ensures
            vstd::string::to_string_from_display_ensures::<std::io::Error>(&self.source, text),
    {
        self.source.to_string()
    }

    /// Gives the error back.
    pub fn into_inner(self) -> (source: std::io::Error)
        ensures
            source == self.source,
    {
        self.source
    }
}

/// What can go wrong in a request or a connection.
#[derive(Debug)]
pub enum Error {
    /// A message given by the user of the library.
    User(String),
    /// The peer broke the protocol.
    Proto(String),
    /// The transport failed.
    Io(IoFailure),
    /// An HTTP/1.1 message could not be parsed.
    Http11Parser(ParseError),
    /// The HTTP/2 layer failed, for a reason other than the transport.
    H2(H2Error),
    /// An HTTP message could not be built.
    Http(HttpError),
    /// The TLS layer failed.
    TlsError(TLSError),
    /// A DNS name is not valid.
    DnsName(InvalidDNSNameError),
}

/// Whether `r` is the I/O variant recorded from `e`: it holds `e`, and its
/// kind is the kind that `e` reports.
pub open spec fn wraps_io(r: Error, e: std::io::Error) -> bool {
    &&& r == Error::Io(IoFailure { source: e })
    &&& r matches Error::Io(failure) && failure.kind() == io_kind_read(e)
}

/// The kinds of I/O failure that are transient: broken pipe, connection
/// aborted, connection reset and interrupted.
pub open spec fn retryable_kind(kind: IoKind) -> bool {
    kind == IoKind::BrokenPipe || kind == IoKind::ConnectionAborted || kind
        == IoKind::ConnectionReset || kind == IoKind::Interrupted
}

impl Error {
    /// Whether this is an I/O failure.
    pub fn is_io(&self) -> (r: bool)
        ensures
            r == (self is Io),
    {
        match self {
            Error::Io(_) => true,
            _ => false,
        }
    }

    /// The I/O error, where this is an I/O failure.
    pub fn into_io(self) -> (r: Option<std::io::Error>)
        ensures
            r == match self {
                Error::Io(failure) => Some(failure.source),
                _ => None,
            },
    {
        match self {
            Error::Io(failure) => Some(failure.into_inner()),
            _ => None,
        }
    }

    /// Whether this is an I/O failure of the kind "timed out".
    pub fn is_timeout(&self) -> (r: bool)
        ensures
            r == (self matches Error::Io(failure) && io_kind_read(failure.source)
                == IoKind::TimedOut),
    {
        if let Error::Io(failure) = self {
            if failure.kind() == IoKind::TimedOut {
                return true;
            }
        }
        false
    }

    /// Whether the failure is transient, so that the request may be tried
    /// again: an I/O failure of the kind broken pipe, connection aborted,
    /// connection reset or interrupted. Nothing else is.
    pub fn is_retryable(&self) -> (r: bool)
        ensures
            r == (self matches Error::Io(failure) && retryable_kind(
                io_kind_read(failure.source),
            )),
    {
        match self {
            Error::Io(failure) => match failure.kind() {
                IoKind::BrokenPipe
                | IoKind::ConnectionAborted
                | IoKind::ConnectionReset
                | IoKind::Interrupted => true,
                _ => false,
            },
            _ => false,
        }
    }
}

impl From<std::io::Error> for Error {
    /// An I/O error becomes the I/O variant, of the kind that the error
    /// reports.
    fn from(e: std::io::Error) -> (r: Error)
        ensures
            wraps_io(r, e),
    {
        Error::Io(IoFailure::new(e))
    }
}

impl FromSpecImpl<std::io::Error> for Error {
    open spec fn obeys_from_spec() -> bool {
        true
    }

    open spec fn from_spec(e: std::io::Error) -> Error {
        Error::Io(IoFailure { source: e })
    }
}

impl From<h1::Error> for Error {
    /// Each variant of the HTTP/1.1 layer's error becomes the variant of the
    /// same name.
    fn from(e: h1::Error) -> (r: Error)
        ensures
            match e {
                h1::Error::User(v) => r == Error::User(v),
                h1::Error::Proto(v) => r == Error::Proto(v),
                h1::Error::Io(v) => wraps_io(r, v),
                h1::Error::Http11Parser(v) => r == Error::Http11Parser(v),
                h1::Error::Http(v) => r == Error::Http(v),
            },
    {
        match e {
            h1::Error::User(v) => Error::User(v),
            h1::Error::Proto(v) => Error::Proto(v),
            h1::Error::Io(v) => Error::from(v),
            h1::Error::Http11Parser(v) => Error::Http11Parser(v),
            h1::Error::Http(v) => Error::Http(v),
        }
    }
}

impl FromSpecImpl<h1::Error> for Error {
    open spec fn obeys_from_spec() -> bool {
        true
    }

    open spec fn from_spec(e: h1::Error) -> Error {
        match e {
            h1::Error::User(v) => Error::User(v),
            h1::Error::Proto(v) => Error::Proto(v),
            h1::Error::Io(v) => Error::Io(IoFailure { source: v }),
            h1::Error::Http11Parser(v) => Error::Http11Parser(v),
            h1::Error::Http(v) => Error::Http(v),
        }
    }
}

/// What an HTTP/2 error becomes: the I/O variant recorded from the I/O error
/// that it wraps, or, where it wraps none, the HTTP/2 variant that holds the
/// error itself.
pub open spec fn reclassified(e: H2Error) -> Error {
    match h2_io_part(e) {
        Some(io) => Error::Io(IoFailure { source: io }),
        None => Error::H2(e),
    }
}

impl From<H2Error> for Error {
    /// An HTTP/2 error that wraps an I/O error becomes the I/O variant, so
    /// that I/O failures look the same whichever protocol met them. Any other
    /// HTTP/2 error is kept as it is.
    fn from(e: H2Error) -> (r: Error)
        ensures
            r == reclassified(e),
            match h2_io_part(e) {
                Some(io) => wraps_io(r, io),
                None => r == Error::H2(e),
            },
    {
        Error::from_h2_parts(h2_into_io(e))
    }
}

impl FromSpecImpl<H2Error> for Error {
    open spec fn obeys_from_spec() -> bool {
        true
    }

    open spec fn from_spec(e: H2Error) -> Error {
        reclassified(e)
    }
}

impl Error {
    /// The error for an HTTP/2 failure that has been taken apart: the I/O
    /// variant for the I/O error that it wrapped, the HTTP/2 variant else.
    pub fn from_h2_parts(parts: Result<std::io::Error, H2Error>) -> (r: Error)
        ensures
            match parts {
                Ok(io) => wraps_io(r, io),
                Err(e) => r == Error::H2(e),
            },
    {
        match parts {
            Ok(io) => Error::from(io),
            Err(e) => Error::H2(e),
        }
    }
}

impl From<HttpError> for Error {
    fn from(e: HttpError) -> (r: Error) {
        Error::Http(e)
    }
}

impl FromSpecImpl<HttpError> for Error {
    open spec fn obeys_from_spec() -> bool {
        true
    }

    open spec fn from_spec(e: HttpError) -> Error {
        Error::Http(e)
    }
}

impl From<TLSError> for Error {
    fn from(e: TLSError) -> (r: Error) {
        Error::TlsError(e)
    }
}

impl FromSpecImpl<TLSError> for Error {
    open spec fn obeys_from_spec() -> bool {
        true
    }

    open spec fn from_spec(e: TLSError) -> Error {
        Error::TlsError(e)
    }
}

impl From<InvalidDNSNameError> for Error {
    fn from(e: InvalidDNSNameError) -> (r: Error) {
        Error::DnsName(e)
    }
}

impl FromSpecImpl<InvalidDNSNameError> for Error {
    open spec fn obeys_from_spec() -> bool {
        true
    }

    open spec fn from_spec(e: InvalidDNSNameError) -> Error {
        Error::DnsName(e)
    }
}

/// Whether `text` is `prefix` followed by what the `Display` of `e` writes.
pub open spec fn shows<T: std::fmt::Display>(prefix: Seq<char>, e: T, text: Seq<char>) -> bool {
    exists|shown: String| #[trigger]
        vstd::string::to_string_from_display_ensures::<T>(&e, shown) && text == prefix + shown@
}

impl Error {
    /// The message of the error. A user's message stands as it is, and a
    /// protocol violation behind `proto: `. An I/O failure reads as the I/O
    /// error does. Every other variant reads as the error it holds does,
    /// behind a prefix that names the layer.
    pub fn to_string(&self) -> (text: String)
        ensures
            match self {
                Error::User(v) => text@ == v@,
                Error::Proto(v) => text@ == "proto: "@ + v@,
                Error::Io(failure) => vstd::string::to_string_from_display_ensures::<std::io::Error>(
                    &failure.source,
                    text,
                ),
                Error::Http11Parser(e) => shows("http11 parser: "@, *e, text@),
                Error::H2(e) => shows("http2: "@, *e, text@),
                Error::Http(e) => shows("http api: "@, *e, text@),
                Error::TlsError(e) => shows("tls: "@, *e, text@),
                Error::DnsName(e) => shows("dns name: "@, *e, text@),
            },
    {
        match self {
            Error::User(v) => v.clone(),
            Error::Proto(v) => prefixed("proto: ", v.as_str()),
            Error::Io(failure) => failure.to_string(),
            Error::Http11Parser(e) => prefixed("http11 parser: ", e.to_string().as_str()),
            Error::H2(e) => prefixed("http2: ", e.to_string().as_str()),
            Error::Http(e) => prefixed("http api: ", e.to_string().as_str()),
            Error::TlsError(e) => prefixed("tls: ", e.to_string().as_str()),
            Error::DnsName(e) => prefixed("dns name: ", e.to_string().as_str()),
        }
    }
}

} // verus!
