use message_trigger::codec::{
    decode_input_message, decode_output_message, encode_input_message, encode_output_message,
};
use message_trigger::gateway::{decode_socket_message, encode_socket_message, BidirectionalSocketMessage};
use message_trigger::http::{HttpRequest, HttpResponse};
use message_trigger::messages::{InputMessage, OutputMessage};

#[test]
fn a_request_envelope_survives_the_wire() {
    let req = HttpRequest {
        method: "POST".to_string(),
        headers: vec![
            ("content-type".to_string(), "text/plain".to_string()),
            ("x-trace".to_string(), "abc123".to_string()),
        ],
        uri: "http://localhost:3015/request/echo".to_string(),
        path: "echo".to_string(),
        body: b"hello".to_vec(),
    };
    let bytes = req.encode();
    let back = HttpRequest::decode(&bytes).unwrap();
    assert_eq!(back.method, "POST");
    assert_eq!(back.headers.len(), 2);
    assert_eq!(back.headers[0].0, "content-type");
    assert_eq!(back.headers[0].1, "text/plain");
    assert_eq!(back.headers[1].0, "x-trace");
    assert_eq!(back.headers[1].1, "abc123");
    assert_eq!(back.uri, "http://localhost:3015/request/echo");
    assert_eq!(back.path, "echo");
    assert_eq!(back.body, b"hello");
}

#[test]
fn a_response_envelope_survives_the_wire() {
    let resp = HttpResponse {
        headers: vec![("server".to_string(), "trigger".to_string())],
        status: 200,
        body: b"hello".to_vec(),
    };
    let bytes = resp.encode();
    let back = HttpResponse::decode(&bytes).unwrap();
    assert_eq!(back.status, 200);
    assert_eq!(back.headers.len(), 1);
    assert_eq!(back.headers[0].0, "server");
    assert_eq!(back.headers[0].1, "trigger");
    assert_eq!(back.body, b"hello");
}

#[test]
fn envelope_decoding_rejects_truncated_buffers() {
    let resp = HttpResponse { headers: vec![], status: 504, body: b"late".to_vec() };
    let mut bytes = resp.encode();
    bytes.pop();
    assert!(HttpResponse::decode(&bytes).is_err());
    assert!(HttpRequest::decode(&vec![]).is_err());
}

#[test]
fn an_inbound_message_survives_the_wire() {
    let m = InputMessage {
        message: b"payload".to_vec(),
        subject: "message.test".to_string(),
        broker: "local".to_string(),
        response_subject: Some("response.abc".to_string()),
    };
    let bytes = encode_input_message(&m);
    let back = decode_input_message(&bytes).unwrap();
    assert_eq!(back.message, b"payload");
    assert_eq!(back.subject, "message.test");
    assert_eq!(back.broker, "local");
    assert_eq!(back.response_subject, Some("response.abc".to_string()));
}

#[test]
fn an_outbound_message_survives_the_wire() {
    let m = OutputMessage {
        message: b"payload".to_vec(),
        subject: Some("message.test".to_string()),
        broker: None,
        response_subject: None,
    };
    let bytes = encode_output_message(&m);
    let back = decode_output_message(&bytes).unwrap();
    assert_eq!(back.message, b"payload");
    assert_eq!(back.subject, Some("message.test".to_string()));
    assert_eq!(back.broker, None);
    assert_eq!(back.response_subject, None);
}

#[test]
fn socket_envelopes_survive_the_wire() {
    let sub = BidirectionalSocketMessage::Subscribe("message.*".to_string());
    let bytes = encode_socket_message(&sub);
    match decode_socket_message(&bytes).unwrap() {
        BidirectionalSocketMessage::Subscribe(s) => assert_eq!(s, "message.*"),
        _ => panic!("expected a subscribe envelope"),
    }

    let publ = BidirectionalSocketMessage::Publish(OutputMessage {
        message: b"x".to_vec(),
        subject: Some("a.b".to_string()),
        broker: Some("local".to_string()),
        response_subject: None,
    });
    let bytes = encode_socket_message(&publ);
    match decode_socket_message(&bytes).unwrap() {
        BidirectionalSocketMessage::Publish(o) => {
            assert_eq!(o.message, b"x");
            assert_eq!(o.subject, Some("a.b".to_string()));
            assert_eq!(o.broker, Some("local".to_string()));
        }
        _ => panic!("expected a publish envelope"),
    }
}

#[test]
fn responses_travel_back_under_the_response_subject() {
    let resp = HttpResponse { headers: vec![], status: 200, body: b"hello".to_vec() };
    let out = resp.to_response("request.01ARZ3NDEKTSV4RRFFQ69G5FAV.POST.echo");
    assert_eq!(out.len(), 1);
    assert_eq!(
        out[0].subject.as_deref(),
        Some("response.01ARZ3NDEKTSV4RRFFQ69G5FAV.POST.echo")
    );
    assert_eq!(out[0].broker, None);
    let back = HttpResponse::decode(&out[0].message).unwrap();
    assert_eq!(back.status, 200);
    assert_eq!(back.body, b"hello");
}
