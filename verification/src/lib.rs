//! A minimal HTTP/1.x message engine: a wire-format codec for requests and
//! responses together with a path/method router.
//!
//! The codec works on byte buffers: encoding produces the exact wire bytes of
//! a message, and decoding consumes a prefix of a received buffer, reporting
//! whether the buffer holds a complete message, a malformed one, or too few
//! bytes so far. Connection handling (sockets, reading, writing) lives
//! outside; this crate owns the protocol semantics.

pub mod codec;
pub mod common;
pub mod digits;
pub mod headers;
pub mod laws;
pub mod router;
pub mod text;
