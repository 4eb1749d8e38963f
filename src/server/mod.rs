//! The server side: the response builder and the connection state machine.
pub mod parser;
pub mod response;
