//! A synchronous HTTP/1.x client engine.
//!
//! The crate holds the protocol rules of a small HTTP client: how a request
//! is written, how a response header is read, how the body that follows is
//! framed, when a connection may be kept, and how redirects are followed.
//! It never touches a socket. Bytes that arrived are fed into a [`Source`];
//! bytes to send are handed back as a `Vec<u8>`.

pub mod body;
pub mod client;
pub mod error;
pub mod header;
pub mod http1;
pub mod message;
pub mod pool;
pub mod source;
pub mod target;
pub mod text;
pub mod util;

pub use body::{Body, FromBody};
pub use client::{Client, Error};
pub use source::Source;
