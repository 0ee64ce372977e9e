//! Request dispatch for an HTTP server: route patterns, middleware chains, the
//! router that picks an endpoint for each request, and the error type that the
//! layers below and above it share.

pub mod chain;
pub mod error;
pub mod h1;
pub mod method;
pub mod path;
pub mod router;
pub mod runtime;
pub mod text;

pub use chain::{Chain, Next, Node, Step};
pub use error::{Error, IoFailure, IoKind};
pub use method::{Method, RouteMethod};
pub use path::{ParsedPath, PathMatch, Segment};
pub use router::{Dispatch, Route, Router};
pub use runtime::{test_setup, AsyncRuntime};
