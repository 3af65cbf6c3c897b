use message_trigger::messages::OutputMessage;
use message_trigger::subjects::{
    default_message_response_subject, escape_path, from_mqtt_subject,
    generate_http_request_subjects, generate_request_subscription, mqtt_shared_subscription,
    prepare_request, to_mqtt_subject,
};

#[test]
fn request_subjects_get_a_default_response_subject() {
    assert_eq!(
        default_message_response_subject("request.abc.POST.echo"),
        Some("response.abc.POST.echo".to_string())
    );
    assert_eq!(default_message_response_subject("request"), Some("response".to_string()));
    assert_eq!(default_message_response_subject("message.test"), None);
    assert_eq!(default_message_response_subject(""), None);
}

#[test]
fn paths_escape_dots_then_slashes() {
    assert_eq!(escape_path("a.b/c"), "a_DOT_b.c");
    assert_eq!(escape_path("some/path"), "some.path");
    assert_eq!(escape_path(""), "");
    assert_eq!(escape_path("v1.2/users/all"), "v1_DOT_2.users.all");
}

#[test]
fn request_subscriptions_follow_the_subject_convention() {
    assert_eq!(
        generate_request_subscription("echo", &Some("POST".to_string())),
        "request.*.POST.echo"
    );
    assert_eq!(generate_request_subscription("some/path", &None), "request.*.*.some.path");
}

#[test]
fn http_request_subjects_pair_up_under_one_correlation_id() {
    let (subject, response) = generate_http_request_subjects("echo", "POST");
    assert!(subject.starts_with("request."));
    assert!(response.starts_with("response."));
    assert!(subject.ends_with(".POST.echo"));
    assert!(response.ends_with(".POST.echo"));
    // both carry the same 26-character correlation id
    let id = &subject["request.".len()..subject.len() - ".POST.echo".len()];
    assert_eq!(id.len(), 26);
    assert_eq!(&response["response.".len()..response.len() - ".POST.echo".len()], id);
}

#[test]
fn prepare_request_mints_a_correlation_pair_when_none_is_set() {
    let msg = OutputMessage {
        message: b"hi".to_vec(),
        subject: Some("svc.call".to_string()),
        broker: None,
        response_subject: None,
    };
    let (prepared, await_subject) = prepare_request(msg).unwrap();
    let subject = prepared.subject.unwrap();
    let response = prepared.response_subject.unwrap();
    assert_eq!(response, await_subject);
    assert!(subject.starts_with("request."));
    assert!(subject.ends_with(".svc.call"));
    assert!(response.starts_with("response."));
    assert!(response.ends_with(".svc.call"));
    let id = &subject["request.".len()..subject.len() - ".svc.call".len()];
    assert_eq!(id.len(), 26);
}

#[test]
fn prepare_request_keeps_an_existing_response_subject() {
    let msg = OutputMessage {
        message: b"hi".to_vec(),
        subject: Some("svc.call".to_string()),
        broker: None,
        response_subject: Some("response.fixed".to_string()),
    };
    let (prepared, await_subject) = prepare_request(msg).unwrap();
    assert_eq!(prepared.subject.unwrap(), "svc.call");
    assert_eq!(await_subject, "response.fixed");
}

#[test]
fn prepare_request_refuses_a_message_without_subject() {
    let msg = OutputMessage {
        message: b"hi".to_vec(),
        subject: None,
        broker: None,
        response_subject: None,
    };
    assert!(prepare_request(msg).is_err());
}

#[test]
fn mqtt_mapping_translates_separators_and_wildcards() {
    assert_eq!(to_mqtt_subject("message.test"), "message/test");
    assert_eq!(to_mqtt_subject("message.*"), "message/+");
    assert_eq!(from_mqtt_subject("message/test"), "message.test");
    assert_eq!(from_mqtt_subject("message/+"), "message.*");
    // round trip on a plain subject
    assert_eq!(from_mqtt_subject(&to_mqtt_subject("a.b.c")), "a.b.c");
}

#[test]
fn mqtt_queue_groups_use_shared_subscriptions() {
    assert_eq!(mqtt_shared_subscription("group", "message/test"), "$share/group/message/test");
}
