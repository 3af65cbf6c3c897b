use message_trigger::codec::decode_input_message;
use message_trigger::configs::WebsocketConfig;
use message_trigger::gateway::{frame_message, WsFrame};
use message_trigger::messages::InputMessage;

fn inbound(body: &[u8]) -> InputMessage {
    InputMessage {
        message: body.to_vec(),
        subject: "message.test".to_string(),
        broker: "local".to_string(),
        response_subject: None,
    }
}

#[test]
fn binary_framing_sends_the_raw_body() {
    match frame_message(&WebsocketConfig::BinaryBody, &inbound(b"raw")) {
        Some(WsFrame::Binary(b)) => assert_eq!(b, b"raw"),
        _ => panic!("expected a binary frame"),
    }
}

#[test]
fn text_framing_sends_utf8_bodies_and_drops_the_rest() {
    match frame_message(&WebsocketConfig::TextBody, &inbound("héllo".as_bytes())) {
        Some(WsFrame::Text(t)) => assert_eq!(t, "héllo"),
        _ => panic!("expected a text frame"),
    }
    assert!(frame_message(&WebsocketConfig::TextBody, &inbound(&[0xff, 0xfe])).is_none());
}

#[test]
fn envelope_framing_carries_the_whole_message() {
    let m = inbound(b"payload");
    match frame_message(&WebsocketConfig::Messagepack, &m) {
        Some(WsFrame::Binary(b)) => {
            let back = decode_input_message(&b).unwrap();
            assert_eq!(back.message, b"payload");
            assert_eq!(back.subject, "message.test");
            assert_eq!(back.broker, "local");
        }
        _ => panic!("expected a binary envelope frame"),
    }
}

#[test]
fn framings_split_into_binary_and_text() {
    assert!(WebsocketConfig::BinaryBody.is_binary());
    assert!(WebsocketConfig::Messagepack.is_binary());
    assert!(!WebsocketConfig::TextBody.is_binary());
    assert!(!WebsocketConfig::Json.is_binary());
}
