//! Client-side protocol engine for an anonymous, server-polled text chat.
//!
//! The crate decides and computes; it performs no network I/O. A caller sends
//! the requests that the functions here describe and hands the response bodies
//! back to them.

pub mod error;
pub mod event;
pub mod id;
pub mod server;
pub mod stream;
pub mod text;
pub mod wire;
