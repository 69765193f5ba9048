//! A minimal client core for a daemon that speaks JSON over HTTP/1.1 on a
//! local stream socket.
//!
//! The crate holds the hand-rolled HTTP/1.1 client layer: request-line
//! formatting, status-line parsing, header skipping, and decoding of a
//! response body delivered with chunked transfer encoding. Everything works
//! on plain bytes; opening the socket, moving bytes over it, and decoding
//! JSON payloads into typed records are left to the surrounding program.

pub mod chunk;
pub mod client;
pub mod err;
pub mod hex;
pub mod request;
pub mod response;
pub mod wire;
