//! Core of a minimal concurrent HTTP listener: a route table with a
//! three-tier lookup, a request-line parser, a response encoder, and a
//! worker-pool dispatcher with round-robin assignment.

pub mod http_codec;
pub mod method;
pub mod request;
pub mod routes;
pub mod server;
pub mod worker;
pub mod text;
pub mod traits;
pub mod util;
