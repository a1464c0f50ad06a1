//! A small HTTP/1.1 file and echo server: request parsing, routing and raw
//! response rendering, verified with Verus.
pub mod text;
pub mod headers;
pub mod error;
pub mod protocol;
pub mod objects;
pub mod handlers;
