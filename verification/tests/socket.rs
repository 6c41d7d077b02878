use barter_execution::socket::protocol::websocket::{
    process_close_frame, process_ping, process_pong, CloseFrame, WebSocketParser, WsMessage,
};
use barter_execution::socket::SocketError;
use tokio_tungstenite::tungstenite::Error as WsError;

#[test]
fn text_and_binary_carry_payloads() {
    let text = WebSocketParser::parse(Ok(WsMessage::Text("{\"a\":1}".to_string()))).unwrap();
    assert_eq!(text, Some(b"{\"a\":1}".to_vec()));
    let text = WebSocketParser::parse(Ok(WsMessage::Text("é".to_string()))).unwrap();
    assert_eq!(text, Some(vec![0xc3, 0xa9]));
    let binary = WebSocketParser::parse(Ok(WsMessage::Binary(vec![1, 2, 3]))).unwrap();
    assert_eq!(binary, Some(vec![1, 2, 3]));
}

#[test]
fn control_messages_are_skipped() {
    assert_eq!(WebSocketParser::parse(Ok(WsMessage::Ping(vec![9]))).unwrap(), None);
    assert_eq!(WebSocketParser::parse(Ok(WsMessage::Pong(vec![9]))).unwrap(), None);
    let close = CloseFrame { code: 1000, reason: "bye".to_string() };
    assert_eq!(WebSocketParser::parse(Ok(WsMessage::Close(Some(close)))).unwrap(), None);
    assert_eq!(WebSocketParser::parse(Ok(WsMessage::Close(None))).unwrap(), None);
    assert_eq!(WebSocketParser::parse(Ok(WsMessage::Frame(vec![0]))).unwrap(), None);
}

#[test]
fn connection_errors_become_socket_errors() {
    let parsed = WebSocketParser::parse(Err(WsError::ConnectionClosed));
    assert!(matches!(parsed, Err(SocketError::WebSocketError(WsError::ConnectionClosed))));
}

#[test]
fn process_control_messages() {
    assert!(matches!(process_ping::<u32>(vec![1]), Ok(None)));
    assert!(matches!(process_pong::<String>(vec![]), Ok(None)));
    assert!(matches!(process_close_frame::<u8>(None), Ok(None)));
}
