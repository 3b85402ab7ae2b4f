//! A minimal client core for a daemon that speaks HTTP/1.1 over a Unix-domain
//! socket. The crate verifies the wire-level codec: formatting a request from
//! an endpoint/method/body triple, parsing a response (status line, headers,
//! body) out of a raw byte buffer, and decoding chunked transfer-coding. The
//! transport itself is held behind a trait with a single required method, so
//! any byte-shuttling implementation can sit underneath the verified logic.

pub mod api;
pub mod errors;
pub mod strutil;
pub mod utils;
