//! A minimal, synchronous HTTP/1.1 server library: request parsing,
//! response serialisation, Server-Sent Events and WebSocket framing.
//! The socket and thread handling lives outside this crate's verified core.

pub mod base64;
pub mod text;
pub mod sha1;
pub mod date;
pub mod fmt;
pub mod types;
pub mod enc;
pub mod fields;
pub mod request;
pub mod ws;
pub mod response;
pub mod server;
pub mod sse;
pub mod lines;
