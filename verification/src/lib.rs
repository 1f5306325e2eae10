//! Components for building verified HTTP/1.1 servers: a streaming request
//! parser, path-based routing with parameter capture, content negotiation
//! over `Accept` and `Content-Type` headers, and a composable handler and
//! filter pipeline.
use vstd::prelude::*;

pub mod api;
pub mod auth;
pub mod content;
pub mod filter;
pub mod handler;
pub mod io;
pub mod prelude;
pub mod request;
pub mod response;
pub mod router;
pub mod runner;
pub mod server;
pub mod text;

verus! {

/// Version string advertised in the `Server` response header.
pub const VERSION: &'static str = "0.1.0";

} // verus!
