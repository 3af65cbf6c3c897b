use message_trigger::configs::{BrokerConfig, BrokerTypeConfig, GatewayConfig, MessageMetadata, MessageResultType, MessageTriggerConfig, SubscriptionType};
use message_trigger::dispatch::BrokerRegistry;
use message_trigger::errors::TriggerError;
use message_trigger::gateway::{gateway_status, request_timeout_ms, RequestExchange};
use message_trigger::http::{HttpRequest, HttpResponse};
use message_trigger::in_memory_broker::InMemoryBroker;
use message_trigger::messages::{Outcome, OutputMessage};
use message_trigger::subjects::generate_http_request_subjects;

fn output(subject: Option<&str>, broker: Option<&str>, body: &str) -> OutputMessage {
    OutputMessage {
        message: body.as_bytes().to_owned(),
        subject: subject.map(|s| s.to_string()),
        broker: broker.map(|s| s.to_string()),
        response_subject: None,
    }
}

#[test]
fn dispatch_defaults_to_the_binding_broker_and_inbound_subject() {
    let mut registry = BrokerRegistry::new();
    assert!(registry.register_in_memory("B"));

    let config = MessageTriggerConfig {
        component: "handler".to_string(),
        broker: "B".to_string(),
        subscription: SubscriptionType::Topic { topic: "t.in".to_string(), result: None },
    };
    let rx = registry.subscribe_with("B", &config.subscription).unwrap();

    // the handler answered one output with neither subject nor broker
    let outcome = Outcome::Publish(vec![output(None, None, "b")]);
    registry.dispatch_outcome(&config, "t.in", outcome).unwrap();

    let received = registry.try_recv_with("B", &rx).unwrap();
    assert_eq!(received.subject, "t.in");
    assert_eq!(received.broker, "B");
    assert_eq!(received.message, b"b");
}

#[test]
fn dispatch_prefers_the_result_route_when_one_is_set() {
    let mut registry = BrokerRegistry::new();
    assert!(registry.register_in_memory("B"));
    assert!(registry.register_in_memory("C"));

    let config = MessageTriggerConfig {
        component: "handler".to_string(),
        broker: "B".to_string(),
        subscription: SubscriptionType::Topic {
            topic: "t.in".to_string(),
            result: Some(MessageResultType {
                default_broker: "C".to_string(),
                default_subject: "t.out".to_string(),
            }),
        },
    };
    let out_rx = registry
        .subscribe_with("C", &SubscriptionType::Topic { topic: "t.out".to_string(), result: None })
        .unwrap();

    let outcome = Outcome::Publish(vec![output(None, None, "routed")]);
    registry.dispatch_outcome(&config, "t.in", outcome).unwrap();

    let received = registry.try_recv_with("C", &out_rx).unwrap();
    assert_eq!(received.subject, "t.out");
    assert_eq!(received.broker, "C");
    assert_eq!(received.message, b"routed");
}

#[test]
fn an_output_with_its_own_address_keeps_it() {
    let mut registry = BrokerRegistry::new();
    assert!(registry.register_in_memory("B"));
    assert!(registry.register_in_memory("C"));

    let config = MessageTriggerConfig {
        component: "handler".to_string(),
        broker: "B".to_string(),
        subscription: SubscriptionType::Topic { topic: "t.in".to_string(), result: None },
    };
    let rx = registry
        .subscribe_with("C", &SubscriptionType::Topic { topic: "other".to_string(), result: None })
        .unwrap();

    let outcome = Outcome::Publish(vec![output(Some("other"), Some("C"), "explicit")]);
    registry.dispatch_outcome(&config, "t.in", outcome).unwrap();

    let received = registry.try_recv_with("C", &rx).unwrap();
    assert_eq!(received.subject, "other");
    assert_eq!(received.broker, "C");
}

#[test]
fn a_handler_error_is_only_logged() {
    let mut registry = BrokerRegistry::new();
    assert!(registry.register_in_memory("B"));
    let config = MessageTriggerConfig {
        component: "handler".to_string(),
        broker: "B".to_string(),
        subscription: SubscriptionType::Topic { topic: "t.in".to_string(), result: None },
    };
    let rx = registry.subscribe_with("B", &config.subscription).unwrap();
    registry
        .dispatch_outcome(&config, "t.in", Outcome::Error("boom".to_string()))
        .unwrap();
    assert!(registry.try_recv_with("B", &rx).is_err());
}

#[test]
fn sending_through_an_unknown_broker_fails() {
    let mut registry = BrokerRegistry::new();
    assert!(registry.register_in_memory("B"));
    let result = registry.send_with_broker("missing", "t.out", output(None, None, "x"));
    assert_eq!(result.unwrap_err(), TriggerError::UnknownBroker);
}

#[test]
fn subscribing_needs_a_subscription_type() {
    let mut registry = BrokerRegistry::new();
    assert!(registry.register_in_memory("B"));
    let result = registry.subscribe_with("B", &SubscriptionType::NoSubscription);
    assert_eq!(result.unwrap_err(), TriggerError::NoSubscriptionType);
}

#[test]
fn registering_a_taken_name_changes_nothing() {
    let mut registry = BrokerRegistry::new();
    assert!(registry.register_in_memory("B"));
    assert!(!registry.register_in_memory("B"));
}

#[test]
fn a_request_response_exchange_round_trips_through_the_broker() {
    // the gateway side builds the envelope and its subject pair
    let request = HttpRequest {
        method: "POST".to_string(),
        headers: vec![],
        uri: "/request/echo".to_string(),
        path: "echo".to_string(),
        body: b"hello".to_vec(),
    };
    let (subject, response_subject) = generate_http_request_subjects("echo", "POST");

    let mut broker = InMemoryBroker::new("gw".to_string());
    let handler_rx = broker.subscribe_to_request("echo", &Some("POST".to_string())).unwrap();
    let gateway_rx = broker.subscribe_to_topic(&response_subject).unwrap();

    broker
        .publish(OutputMessage {
            message: request.encode(),
            subject: Some(subject),
            broker: None,
            response_subject: Some(response_subject),
        })
        .unwrap();

    // the handler receives the request, decodes it, and echoes the body
    let inbound = broker.try_recv(&handler_rx).unwrap();
    let seen = HttpRequest::from_message(&inbound).unwrap();
    assert_eq!(seen.method, "POST");
    assert_eq!(seen.body, b"hello");
    let reply = HttpResponse { headers: vec![], status: 200, body: seen.body };
    broker.publish_all(reply.to_response(&inbound.subject)).unwrap();

    // the gateway receives the reply on the response subject, verbatim
    let raw = broker.try_recv(&gateway_rx).unwrap();
    let answer = HttpResponse::decode(&raw.message).unwrap();
    assert_eq!(answer.status, 200);
    assert_eq!(answer.headers.len(), 0);
    assert_eq!(answer.body, b"hello");
}

#[test]
fn a_missed_deadline_answers_with_gateway_timeout() {
    assert_eq!(request_timeout_ms(&None), 2000);
    assert_eq!(request_timeout_ms(&Some(250)), 250);
    assert_eq!(gateway_status(&RequestExchange::TimedOut), 504);
    assert_eq!(gateway_status(&RequestExchange::Failed), 500);
    assert_eq!(gateway_status(&RequestExchange::NotConfigured), 400);
    let ok = HttpResponse { headers: vec![], status: 200, body: vec![] };
    assert_eq!(gateway_status(&RequestExchange::Answered(ok)), 200);
}

#[test]
fn metadata_registers_in_memory_brokers_and_returns_the_rest() {
    let metadata = MessageMetadata {
        trigger_type: "message".to_string(),
        brokers: vec![
            (
                "local".to_string(),
                BrokerConfig {
                    broker_type: BrokerTypeConfig::InMemoryBroker,
                    gateway: GatewayConfig::Disabled,
                },
            ),
            (
                "remote".to_string(),
                BrokerConfig {
                    broker_type: BrokerTypeConfig::Redis("redis://localhost".to_string()),
                    gateway: GatewayConfig::Disabled,
                },
            ),
        ],
    };
    let mut registry = BrokerRegistry::new();
    let remote = registry.register_from_metadata(&metadata);
    assert_eq!(remote, vec![1]);
    // the in-memory entry is registered under its key
    assert!(!registry.register_in_memory("local"));
    assert!(registry.register_in_memory("remote"));
}
