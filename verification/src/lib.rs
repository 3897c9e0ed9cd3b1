//! A verified core for a small HTTP/1.1 static-file server.
//!
//! The library holds the protocol engine: request parsing, path
//! resolution, and response serialization, all on plain bytes.
//! Socket and file I/O live outside; they hand lines and file
//! contents in and take wire bytes back.

pub mod bytes;
pub mod handler;
pub mod lit;
pub mod request;
pub mod resolve;
pub mod response;
