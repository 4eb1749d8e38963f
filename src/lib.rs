//! An HTTP/1.x wire-protocol engine: header scanning, body framing,
//! message building, and the per-connection state machines of the server
//! and the client side.
//!
//! The engine never blocks and owns no socket: each event hands it the
//! connection's input and output buffers, and it answers with the next
//! state, what to wait for, and until when.
pub mod body;
pub mod client;
pub mod digits;
pub mod error;
pub mod headers;
pub mod message;
pub mod scan;
pub mod server;
pub mod shared;
pub mod wire;
