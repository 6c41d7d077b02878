//! The protocols that exchange sockets speak.
pub mod websocket;
