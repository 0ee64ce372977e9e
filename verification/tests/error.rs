use hreq::error::Error;
use hreq::{h1, test_setup, AsyncRuntime, IoFailure, IoKind};
use std::io;

fn io_error(kind: io::ErrorKind) -> Error {
    Error::from(io::Error::new(kind, "failed"))
}

fn http_error() -> http::Error {
    http::Error::from(http::StatusCode::from_u16(0).unwrap_err())
}

fn others() -> Vec<Error> {
    vec![
        Error::User("user".to_string()),
        Error::Proto("proto".to_string()),
        Error::Http11Parser(httparse::Error::Token),
        Error::from(h2::Error::from(h2::Reason::PROTOCOL_ERROR)),
        Error::from(http_error()),
        Error::from(rustls::TLSError::General("tls".to_string())),
        Error::from(webpki::InvalidDNSNameError),
    ]
}

#[test]
fn is_retryable_holds_of_the_four_transient_kinds() {
    assert!(io_error(io::ErrorKind::ConnectionReset).is_retryable());
    assert!(io_error(io::ErrorKind::ConnectionAborted).is_retryable());
    assert!(io_error(io::ErrorKind::BrokenPipe).is_retryable());
    assert!(io_error(io::ErrorKind::Interrupted).is_retryable());
}

#[test]
fn is_retryable_fails_of_other_io_kinds() {
    assert!(!io_error(io::ErrorKind::TimedOut).is_retryable());
    assert!(!io_error(io::ErrorKind::NotFound).is_retryable());
    assert!(!io_error(io::ErrorKind::ConnectionRefused).is_retryable());
    assert!(!io_error(io::ErrorKind::UnexpectedEof).is_retryable());
    assert!(!io_error(io::ErrorKind::Other).is_retryable());
}

#[test]
fn is_retryable_fails_of_every_other_variant() {
    for e in others() {
        assert!(!e.is_retryable());
    }
}

#[test]
fn is_timeout_holds_of_the_timed_out_kind_alone() {
    assert!(io_error(io::ErrorKind::TimedOut).is_timeout());
    assert!(!io_error(io::ErrorKind::ConnectionReset).is_timeout());
    assert!(!io_error(io::ErrorKind::Interrupted).is_timeout());
    assert!(!io_error(io::ErrorKind::WouldBlock).is_timeout());
    assert!(!io_error(io::ErrorKind::Other).is_timeout());
    for e in others() {
        assert!(!e.is_timeout());
    }
}

#[test]
fn is_io_holds_of_the_io_variant_alone() {
    assert!(io_error(io::ErrorKind::Other).is_io());
    for e in others() {
        assert!(!e.is_io());
    }
}

#[test]
fn into_io_gives_the_io_error_back() {
    let back = Error::from(io::Error::new(io::ErrorKind::TimedOut, "slow")).into_io().expect("an I/O failure");
    assert_eq!(back.kind(), io::ErrorKind::TimedOut);
    assert_eq!(back.to_string(), "slow");
    for e in others() {
        assert!(e.into_io().is_none());
    }
}

#[test]
fn an_io_failure_records_the_kind_of_its_error() {
    let kinds = [
        (io::ErrorKind::BrokenPipe, IoKind::BrokenPipe),
        (io::ErrorKind::ConnectionAborted, IoKind::ConnectionAborted),
        (io::ErrorKind::ConnectionReset, IoKind::ConnectionReset),
        (io::ErrorKind::Interrupted, IoKind::Interrupted),
        (io::ErrorKind::TimedOut, IoKind::TimedOut),
        (io::ErrorKind::NotFound, IoKind::Other),
        (io::ErrorKind::PermissionDenied, IoKind::Other),
    ];
    for (kind, expected) in kinds {
        let failure = IoFailure::new(io::Error::from(kind));
        assert_eq!(failure.kind(), expected);
        assert_eq!(failure.into_inner().kind(), kind);
    }
}

#[test]
fn an_http2_error_without_an_io_error_stays_an_http2_error() {
    let e = Error::from(h2::Error::from(h2::Reason::REFUSED_STREAM));
    match e {
        Error::H2(inner) => assert_eq!(inner.reason(), Some(h2::Reason::REFUSED_STREAM)),
        other => panic!("expected the HTTP/2 variant, got {:?}", other),
    }
}

#[test]
fn the_parts_of_an_http2_error_decide_the_variant() {
    let e = Error::from_h2_parts(Ok(io::Error::from(io::ErrorKind::ConnectionReset)));
    assert!(e.is_io());
    assert!(e.is_retryable());
    let e = Error::from_h2_parts(Err(h2::Error::from(h2::Reason::CANCEL)));
    assert!(matches!(e, Error::H2(_)));
    assert!(!e.is_retryable());
}

#[test]
fn the_http1_layer_error_keeps_its_variant() {
    assert!(matches!(Error::from(h1::Error::User("u".to_string())), Error::User(v) if v == "u"));
    assert!(matches!(Error::from(h1::Error::Proto("p".to_string())), Error::Proto(v) if v == "p"));
    assert!(matches!(
        Error::from(h1::Error::Http11Parser(httparse::Error::Version)),
        Error::Http11Parser(httparse::Error::Version)
    ));
    assert!(matches!(Error::from(h1::Error::Http(http_error())), Error::Http(_)));
    let e = Error::from(h1::Error::Io(io::Error::from(io::ErrorKind::BrokenPipe)));
    assert!(e.is_io());
    assert!(e.is_retryable());
    assert!(!e.is_timeout());
}

#[test]
fn the_other_layers_map_to_their_own_variant() {
    assert!(matches!(Error::from(http_error()), Error::Http(_)));
    assert!(matches!(
        Error::from(rustls::TLSError::DecryptError),
        Error::TlsError(rustls::TLSError::DecryptError)
    ));
    assert!(matches!(Error::from(webpki::InvalidDNSNameError), Error::DnsName(_)));
}

#[test]
fn to_string_names_the_layer() {
    assert_eq!(Error::User("bad input".to_string()).to_string(), "bad input");
    assert_eq!(Error::Proto("bad frame".to_string()).to_string(), "proto: bad frame");
    assert_eq!(io_error(io::ErrorKind::TimedOut).to_string(), "failed");
    assert_eq!(
        Error::Http11Parser(httparse::Error::HeaderName).to_string(),
        "http11 parser: invalid header name"
    );
    assert_eq!(
        Error::from(h2::Error::from(h2::Reason::PROTOCOL_ERROR)).to_string(),
        format!("http2: {}", h2::Error::from(h2::Reason::PROTOCOL_ERROR))
    );
    assert_eq!(Error::from(http_error()).to_string(), format!("http api: {}", http_error()));
    assert_eq!(
        Error::from(rustls::TLSError::General("oops".to_string())).to_string(),
        format!("tls: {}", rustls::TLSError::General("oops".to_string()))
    );
    assert_eq!(Error::from(webpki::InvalidDNSNameError).to_string(), "dns name: InvalidDNSNameError");
}

#[test]
fn to_string_of_an_http2_error_starts_with_its_prefix() {
    let text = Error::from(h2::Error::from(h2::Reason::PROTOCOL_ERROR)).to_string();
    assert!(text.starts_with("http2: protocol error"));
}

#[test]
fn the_tests_run_on_async_std() {
    assert_eq!(test_setup(), AsyncRuntime::AsyncStd);
    assert_ne!(test_setup(), AsyncRuntime::Tokio);
}

#[test]
fn the_classification_follows_the_kind_of_the_io_error() {
    let retryable = [
        io::ErrorKind::BrokenPipe,
        io::ErrorKind::ConnectionAborted,
        io::ErrorKind::ConnectionReset,
        io::ErrorKind::Interrupted,
    ];
    for kind in [
        io::ErrorKind::BrokenPipe,
        io::ErrorKind::ConnectionAborted,
        io::ErrorKind::ConnectionReset,
        io::ErrorKind::Interrupted,
        io::ErrorKind::TimedOut,
        io::ErrorKind::NotFound,
        io::ErrorKind::AddrInUse,
        io::ErrorKind::InvalidData,
        io::ErrorKind::Other,
    ] {
        for e in [
            Error::from(io::Error::from(kind)),
            Error::from(h1::Error::Io(io::Error::from(kind))),
            Error::from_h2_parts(Ok(io::Error::from(kind))),
            Error::Io(IoFailure::new(io::Error::from(kind))),
        ] {
            assert!(e.is_io());
            assert_eq!(e.is_retryable(), retryable.contains(&kind));
            assert_eq!(e.is_timeout(), kind == io::ErrorKind::TimedOut);
            assert_eq!(e.into_io().map(|back| back.kind()), Some(kind));
        }
    }
}

#[test]
fn the_message_of_an_io_failure_is_that_of_its_error() {
    let text = io::Error::new(io::ErrorKind::Other, "disk on fire").to_string();
    assert_eq!(IoFailure::new(io::Error::new(io::ErrorKind::Other, "disk on fire")).to_string(), text);
    assert_eq!(Error::from(io::Error::new(io::ErrorKind::Other, "disk on fire")).to_string(), text);
    assert_eq!(io_error(io::ErrorKind::BrokenPipe).to_string(), "failed");
}
