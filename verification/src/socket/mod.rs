//! Errors of exchange sockets, and the parsing of what a socket receives.
use vstd::prelude::*;

pub mod protocol;

verus! {

/// The error of a WebSocket connection, carried through unread.
#[verifier::external_type_specification]
#[verifier::external_body]
pub struct ExWsError(tokio_tungstenite::tungstenite::Error);

/// The error of a JSON (de)serialisation, carried through unread.
#[verifier::external_type_specification]
#[verifier::external_body]
pub struct ExJsonError(serde_json::Error);

/// An error of an exchange socket.
#[derive(Debug)]
pub enum SocketError {
    WebSocketError(tokio_tungstenite::tungstenite::Error),
    SerdeJsonError(serde_json::Error),
    SinkError,
}

} // verus!
