//! Core of a small HTTP/1.1 server: a request parser over raw bytes, a
//! longest-prefix router and a response encoder with gzip negotiation.

pub mod bytes;
pub mod text;
pub mod decimal;
pub mod http;
pub mod headers;
pub mod encoding;
pub mod request;
pub mod response;
pub mod router;
pub mod routes;
pub mod server;
