use message_trigger::channel::RecvError;
use message_trigger::errors::TriggerError;
use message_trigger::in_memory_broker::InMemoryBroker;
use message_trigger::messages::OutputMessage;

fn output(subject: Option<&str>, body: &str) -> OutputMessage {
    OutputMessage {
        message: body.as_bytes().to_owned(),
        subject: subject.map(|s| s.to_string()),
        broker: None,
        response_subject: None,
    }
}

#[test]
fn a_published_message_gets_recieved_by_a_subscriber() {
    let message = output(Some("message.test"), "test");

    let mut broker = InMemoryBroker::default();

    let rx = broker.subscribe_to_topic("message.test").unwrap();

    broker.publish(message.clone()).unwrap();
    let result = broker.try_recv(&rx).unwrap();

    assert_eq!(result.subject, message.subject.unwrap());
    assert_eq!(result.message, message.message);
}

#[test]
fn a_published_message_doesnt_get_recieved_by_the_wrong_subscriber() {
    let message = output(Some("message.test"), "test");

    let mut broker = InMemoryBroker::default();

    let rx = broker.subscribe_to_topic("message.wrong").unwrap();

    broker.publish(message.clone()).unwrap();
    let result = broker.try_recv(&rx);
    assert!(result.is_err());
}

#[test]
fn multiple_published_messages_get_sent_through() {
    let message_1 = output(Some("message.test"), "test");
    let message_2 = output(Some("message.test"), "test 2");

    let mut broker = InMemoryBroker::default();

    let rx = broker.subscribe_to_topic("message.test").unwrap();

    broker
        .publish_all(vec![message_1.clone(), message_2.clone()])
        .unwrap();

    let result = broker.try_recv(&rx).unwrap();
    assert_eq!(result.subject, "message.test");
    assert_eq!(result.message, message_1.message);

    let result = broker.try_recv(&rx).unwrap();
    assert_eq!(result.subject, "message.test");
    assert_eq!(result.message, message_2.message);
}

#[test]
fn a_wildcard_subscription_catches_matching_subjects() {
    let message = output(Some("message.test"), "test");

    let mut broker = InMemoryBroker::default();

    let rx = broker.subscribe_to_topic("message.*").unwrap();

    broker.publish(message.clone()).unwrap();
    let result = broker.try_recv(&rx).unwrap();

    assert_eq!(result.subject, message.subject.unwrap());
    assert_eq!(result.message, message.message);
}

#[test]
fn a_wildcard_subscription_doesnt_catch_non_matching_subjects() {
    let message = output(Some("test.message"), "test");

    let mut broker = InMemoryBroker::default();

    let rx = broker.subscribe_to_topic("message.*").unwrap();

    broker.publish(message.clone()).unwrap();
    let result = broker.try_recv(&rx);
    assert!(result.is_err());
}

#[test]
fn a_published_message_on_a_queue_gets_recieved_by_a_subscriber() {
    let message = output(Some("message.test"), "test");

    let mut broker = InMemoryBroker::default();

    let rx = broker.subscribe_to_queue("message.test", "group").unwrap();

    broker.publish(message.clone()).unwrap();
    let result = broker.try_recv(&rx).expect("Should Successfully Recieve");

    assert_eq!(result.subject, message.subject.unwrap());
    assert_eq!(result.message, message.message);
}

#[test]
fn only_one_reciever_in_a_queue_group_recieves_a_message() {
    let message = output(Some("message.test"), "test");

    let mut broker = InMemoryBroker::default();

    let rx1 = broker.subscribe_to_queue("message.test", "group").unwrap();
    let rx2 = broker.subscribe_to_queue("message.test", "group").unwrap();

    broker.publish(message.clone()).unwrap();
    let result = broker.try_recv(&rx1).expect("Should Successfully Recieve");
    let _ = broker.try_recv(&rx2).expect_err("Should Be Empty");

    assert_eq!(result.subject, message.subject.unwrap());
    assert_eq!(result.message, message.message);
}

#[test]
fn messages_alternate_between_members_of_queue_group() {
    let message = output(Some("message.test"), "test");

    let mut broker = InMemoryBroker::default();

    let rx1 = broker.subscribe_to_queue("message.test", "group").unwrap();
    let rx2 = broker.subscribe_to_queue("message.test", "group").unwrap();

    broker.publish(message.clone()).unwrap();
    let result = broker.try_recv(&rx1).expect("Should Successfully Recieve");
    let _ = broker.try_recv(&rx2).expect_err("Should Be Empty");

    assert_eq!(&result.subject, message.subject.as_ref().unwrap());
    assert_eq!(result.message, message.message);

    broker.publish(message.clone()).unwrap();
    let result = broker.try_recv(&rx2).expect("Should Successfully Recieve");
    let _ = broker.try_recv(&rx1).expect_err("Should Be Empty");

    assert_eq!(&result.subject, message.subject.as_ref().unwrap());
    assert_eq!(result.message, message.message);

    broker.publish(message.clone()).unwrap();
    let result = broker.try_recv(&rx1).expect("Should Successfully Recieve");
    let _ = broker.try_recv(&rx2).expect_err("Should Be Empty");

    assert_eq!(&result.subject, message.subject.as_ref().unwrap());
    assert_eq!(result.message, message.message);
}

#[test]
fn in_memory_broker_a_published_message_gets_recieved_by_a_subscriber() {
    let message = output(Some("message.test"), "test");

    let mut broker = InMemoryBroker::default();

    let rx = broker.subscribe_to_topic("message.test").unwrap();

    broker.publish(message.clone()).unwrap();
    let result = broker.try_recv(&rx).unwrap();

    assert_eq!(result.subject, message.subject.unwrap());
    assert_eq!(result.message, message.message);
}

#[test]
fn in_memory_broker_a_published_message_doesnt_get_recieved_by_the_wrong_subscriber() {
    let message = output(Some("message.test"), "test");

    let mut broker = InMemoryBroker::default();

    let rx = broker.subscribe_to_topic("message.wrong").unwrap();

    broker.publish(message.clone()).unwrap();
    let result = broker.try_recv(&rx);
    assert!(result.is_err());
}

#[test]
fn in_memory_broker_multiple_published_messages_get_sent_through() {
    let message_1 = output(Some("message.test"), "test");
    let message_2 = output(Some("message.test"), "test 2");

    let mut broker = InMemoryBroker::default();

    let rx = broker.subscribe_to_topic("message.test").unwrap();

    broker
        .publish_all(vec![message_1.clone(), message_2.clone()])
        .unwrap();

    let result = broker.try_recv(&rx).unwrap();
    assert_eq!(result.subject, "message.test");
    assert_eq!(result.message, message_1.message);

    let result = broker.try_recv(&rx).unwrap();
    assert_eq!(result.subject, "message.test");
    assert_eq!(result.message, message_2.message);
}

#[test]
fn publish_without_subject_is_refused() {
    let mut broker = InMemoryBroker::default();
    let result = broker.publish(output(None, "test"));
    assert_eq!(result.unwrap_err(), TriggerError::NoSubject);
}

#[test]
fn publish_all_stops_at_the_first_subjectless_message() {
    let mut broker = InMemoryBroker::default();
    let rx = broker.subscribe_to_topic("message.test").unwrap();

    let result = broker.publish_all(vec![
        output(Some("message.test"), "first"),
        output(None, "second"),
        output(Some("message.test"), "third"),
    ]);
    assert!(result.is_err());

    let received = broker.try_recv(&rx).unwrap();
    assert_eq!(received.message, "first".as_bytes());
    assert!(broker.try_recv(&rx).is_err());
}

#[test]
fn a_slow_receiver_loses_the_oldest_message_and_learns_of_it() {
    let mut broker = InMemoryBroker::default();
    let rx = broker.subscribe_to_topic("message.test").unwrap();

    for i in 0..11 {
        broker
            .publish(output(Some("message.test"), &format!("m{i}")))
            .unwrap();
    }

    match broker.try_recv(&rx) {
        Err(RecvError::Lagged(n)) => assert_eq!(n, 1),
        _ => panic!("expected a lag report"),
    }
    let first = broker.try_recv(&rx).unwrap();
    assert_eq!(first.message, "m1".as_bytes());
}

#[test]
fn inbound_messages_carry_the_broker_name() {
    let mut broker = InMemoryBroker::new("my-broker".to_string());
    assert_eq!(broker.name(), "my-broker");

    let rx = broker.subscribe_to_topic("message.test").unwrap();
    broker.publish(output(Some("message.test"), "test")).unwrap();
    let result = broker.try_recv(&rx).unwrap();
    assert_eq!(result.broker, "my-broker");
}

#[test]
fn round_robin_distributes_two_to_one_over_three_publishes() {
    let mut broker = InMemoryBroker::default();
    let rx1 = broker.subscribe_to_queue("message.test", "group").unwrap();
    let rx2 = broker.subscribe_to_queue("message.test", "group").unwrap();

    for _ in 0..3 {
        broker.publish(output(Some("message.test"), "test")).unwrap();
    }

    let mut count1 = 0;
    while broker.try_recv(&rx1).is_ok() {
        count1 += 1;
    }
    let mut count2 = 0;
    while broker.try_recv(&rx2).is_ok() {
        count2 += 1;
    }
    assert_eq!(count1, 2);
    assert_eq!(count2, 1);
    assert_eq!(count1 + count2, 3);
}

#[test]
fn request_subscriptions_catch_matching_request_subjects() {
    let mut broker = InMemoryBroker::default();
    let method = Some("POST".to_string());
    let rx = broker.subscribe_to_request("echo", &method).unwrap();

    broker
        .publish(output(Some("request.01ARZ3NDEKTSV4RRFFQ69G5FAV.POST.echo"), "hello"))
        .unwrap();
    let result = broker.try_recv(&rx).unwrap();
    assert_eq!(result.message, "hello".as_bytes());

    broker
        .publish(output(Some("request.01ARZ3NDEKTSV4RRFFQ69G5FAV.GET.echo"), "nope"))
        .unwrap();
    assert!(broker.try_recv(&rx).is_err());
}
