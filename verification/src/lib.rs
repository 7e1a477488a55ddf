//! A minimal HTTP/1.1 server core: request parsing, response framing,
//! content-encoding negotiation and the per-connection lifecycle.

pub mod connection;
pub mod decimal;
pub mod framing;
pub mod http_compression;
pub mod http_headers;
pub mod http_request;
pub mod http_response;
pub mod lines;
pub mod router;
pub mod text;
