//! The client side: the request builder and the connection state machine.
pub mod parser;
pub mod request;
pub mod creator;
