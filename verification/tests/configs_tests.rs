use message_trigger::configs::{GatewayRequestResponseConfig, WebsocketConfig};
use message_trigger::errors::TriggerError;
use message_trigger::messages::{MessageError, Outcome, OutputMessage};

#[test]
fn websocket_config_parses_the_four_framings() {
    assert_eq!(WebsocketConfig::from_str("messagepack").unwrap(), WebsocketConfig::Messagepack);
    assert_eq!(WebsocketConfig::from_str("json").unwrap(), WebsocketConfig::Json);
    assert_eq!(WebsocketConfig::from_str("binary").unwrap(), WebsocketConfig::BinaryBody);
    assert_eq!(WebsocketConfig::from_str("text").unwrap(), WebsocketConfig::TextBody);
}

#[test]
fn websocket_config_rejects_unknown_names() {
    assert_eq!(
        WebsocketConfig::from_str("carrier-pigeon").unwrap_err(),
        TriggerError::InvalidWebsocketProtocol
    );
    assert_eq!(
        WebsocketConfig::from_str("").unwrap_err(),
        TriggerError::InvalidWebsocketProtocol
    );
}

#[test]
fn request_response_config_parses_its_two_serializers() {
    assert_eq!(
        GatewayRequestResponseConfig::from_str("messagepack").unwrap(),
        GatewayRequestResponseConfig::Messagepack
    );
    assert_eq!(
        GatewayRequestResponseConfig::from_str("json").unwrap(),
        GatewayRequestResponseConfig::Json
    );
    assert_eq!(
        GatewayRequestResponseConfig::from_str("binary").unwrap_err(),
        TriggerError::InvalidRequestResponseProtocol
    );
}

#[test]
fn errors_render_the_runtime_log_lines() {
    assert_eq!(TriggerError::NoSubject.text(), "No Subject To Publish");
    assert_eq!(TriggerError::UnknownBroker.text(), "No such broker");
    assert_eq!(TriggerError::NoSubscriptionType.text(), "No Subscription Type Set");
    assert_eq!(
        TriggerError::InvalidWebsocketProtocol.text(),
        "Invalid Websocket Protocol"
    );
    assert_eq!(
        TriggerError::InvalidRequestResponseProtocol.text(),
        "Invalid Gateway Request Response Protocol"
    );
    assert_eq!(
        MessageError("boom".to_string()).text(),
        "Message Processing Error: boom"
    );
}

#[test]
fn a_handler_result_becomes_an_outcome() {
    let ok: Result<Vec<OutputMessage>, MessageError> = Ok(vec![OutputMessage {
        message: b"x".to_vec(),
        subject: None,
        broker: None,
        response_subject: None,
    }]);
    match Outcome::from_result(ok) {
        Outcome::Publish(msgs) => assert_eq!(msgs.len(), 1),
        _ => panic!("expected a publish outcome"),
    }
    match Outcome::from_result(Err(MessageError("bad".to_string()))) {
        Outcome::Error(s) => assert_eq!(s, "Message Processing Error: bad"),
        _ => panic!("expected an error outcome"),
    }
}
