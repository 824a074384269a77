//! A verified request-routing and typed-extraction dispatcher.
//!
//! The crate models an HTTP-style service core: a route table with nested
//! scopes, extractors that turn path segments, query strings and JSON bodies
//! into typed values, a store of scope-local shared state, a dispatcher that
//! drives a request from match to response, and a response builder for
//! buffered and streamed bodies. The transport layer (sockets, wire parsing)
//! stays outside; the core consumes a parsed request and produces a response
//! descriptor.

pub mod bytes;
pub mod http;
pub mod route;
pub mod state;
pub mod text;
pub mod extract;
pub mod dispatch;
