//! A pipelined request/response protocol over a byte stream.
//!
//! Every message, in either direction, is one unsigned 64-bit integer sent as
//! eight bytes, most significant byte first. The crate holds the framing codec,
//! the request handler interface and the per-connection state machine; sockets
//! and threads are left to the caller.

pub mod wire;
pub mod buffer;
pub mod codec;
pub mod handler;
pub mod transport;
pub mod stream;
pub mod session;
