//! What a WebSocket message means to an exchange socket: a payload to deserialise, a control
//! message to skip, or an error of the connection.
use vstd::prelude::*;
use vstd::utf8::encode_utf8;
use crate::socket::SocketError;

verus! {

/// Why a WebSocket was closed: the close code and its reason.
#[derive(Debug, PartialEq, Eq)]
pub struct CloseFrame {
    pub code: u16,
    pub reason: String,
}

/// A message received over a WebSocket.
#[derive(Debug)]
pub enum WsMessage {
    Text(String),
    Binary(Vec<u8>),
    Ping(Vec<u8>),
    Pong(Vec<u8>),
    Close(Option<CloseFrame>),
    /// A raw frame; reading from a socket does not give one.
    Frame(Vec<u8>),
}

/// Parses the messages of a WebSocket.
#[derive(Copy, Clone, Debug)]
pub struct WebSocketParser;

/// The payload that `message` carries for the exchange, if any: the UTF-8 bytes of a text, the
/// bytes of a binary message, and nothing for control messages.
pub open spec fn payload_of(message: WsMessage) -> Option<Seq<u8>> {
    match message {
        WsMessage::Text(text) => Some(encode_utf8(text@)),
        WsMessage::Binary(binary) => Some(binary@),
        _ => None,
    }
}

impl WebSocketParser {
    /// Parses what the socket received: `Ok(Some(payload))` for a message whose payload is to be
    /// deserialised, `Ok(None)` for one to skip, and the connection's error as a socket error.
    pub fn parse(input: Result<WsMessage, tokio_tungstenite::tungstenite::Error>) -> (r: Result<
        Option<Vec<u8>>,
        SocketError,
    >)
        ensures
            match input {
                Ok(message) => r matches Ok(payload) && match payload_of(message) {
                    Some(bytes) => payload matches Some(p) && p@ == bytes,
                    None => payload is None,
                },
                Err(e) => r == Err::<Option<Vec<u8>>, SocketError>(SocketError::WebSocketError(e)),
            },
    {
        match input {
            Ok(ws_message) => match ws_message {
                WsMessage::Text(text) => Ok(Some(vstd::slice::slice_to_vec(text.as_str().as_bytes()))),
                WsMessage::Binary(binary) => Ok(Some(binary)),
                WsMessage::Ping(ping) => process_ping(ping),
                WsMessage::Pong(pong) => process_pong(pong),
                WsMessage::Close(close_frame) => process_close_frame(close_frame),
                WsMessage::Frame(_) => Ok(None),
            },
            Err(ws_err) => Err(SocketError::WebSocketError(ws_err)),
        }
    }
}

/// A ping carries nothing for the exchange: it is skipped.
pub fn process_ping<ExchangeMessage>(ping: Vec<u8>) -> (r: Result<Option<ExchangeMessage>, SocketError>)
    ensures
        r matches Ok(None),
{
    Ok(None)
}

/// A pong carries nothing for the exchange: it is skipped.
pub fn process_pong<ExchangeMessage>(pong: Vec<u8>) -> (r: Result<Option<ExchangeMessage>, SocketError>)
    ensures
        r matches Ok(None),
{
    Ok(None)
}

/// A close frame carries nothing for the exchange: it is skipped.
pub fn process_close_frame<ExchangeMessage>(close_frame: Option<CloseFrame>) -> (r: Result<
    Option<ExchangeMessage>,
    SocketError,
>)
    ensures
        r matches Ok(None),
{
    Ok(None)
}

} // verus!
