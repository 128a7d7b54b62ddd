use axum_ws::{Event, Message, Payload, Status, Topic};
use serde_json::Value;

fn json(text: &str) -> Value {
    serde_json::from_str(text).unwrap()
}

#[test]
fn test_message_try_from_with_heartbeat() {
    let message = r#"[null,"123","phoenix","heartbeat",{}]"#;
    let message: Message = message.to_string().try_into().unwrap();
    assert_eq!(message.join_ref, None);
    assert_eq!(message.message_ref, Some("123".to_string()));
    assert_eq!(message.topic, Topic("phoenix".to_string()));
    assert_eq!(message.event, Event::Heartbeat);
    assert_eq!(message.payload, Payload(Value::Object(Default::default())));
}

#[test]
fn test_message_try_from_with_join() {
    let message = r#"["118","118","room:1","phx_join",{}]"#;
    let message: Message = message.to_string().try_into().unwrap();
    assert_eq!(message.join_ref, Some("118".to_string()));
    assert_eq!(message.message_ref, Some("118".to_string()));
    assert_eq!(message.topic, Topic("room:1".to_string()));
    assert_eq!(message.event, Event::Join);
    assert_eq!(message.payload, Payload(Value::Object(Default::default())));
}

#[test]
fn test_message_to_json() {
    let message = Message {
        join_ref: Some("118".to_string()),
        message_ref: Some("118".to_string()),
        topic: Topic("room:1".to_string()),
        event: Event::Join,
        payload: Payload(Value::Object(Default::default())),
    };

    let value: Value = message.into();
    let expected = r#"["118","118","room:1","phx_join",{}]"#;
    assert_eq!(value.to_string(), expected);
}

#[test]
fn message_refuses_frames_of_other_shapes() {
    let wrong: Vec<&str> = vec![
        "not json",
        r#"{"a": 1}"#,
        r#"["1","2","room:1","phx_join"]"#,
        r#"["1","2","room:1","phx_join",{},{}]"#,
        r#"["1","2",3,"phx_join",{}]"#,
        r#"["1","2","room:1",null,{}]"#,
    ];
    for text in wrong {
        let parsed: Result<Message, ()> = text.to_string().try_into();
        assert!(parsed.is_err(), "{}", text);
    }
}

#[test]
fn message_reads_non_string_references_as_absent() {
    let message: Message = r#"[7,true,"room:1","shout",[1,2]]"#.to_string().try_into().unwrap();
    assert_eq!(message.join_ref, None);
    assert_eq!(message.message_ref, None);
    assert_eq!(message.event, Event::Custom("shout".to_string()));
    assert_eq!(message.payload, Payload(json("[1,2]")));
}

#[test]
fn message_round_trips_through_its_items() {
    let message = Message {
        join_ref: None,
        message_ref: Some("9".to_string()),
        topic: Topic("room:lobby".to_string()),
        event: Event::Custom("new_msg".to_string()),
        payload: Payload(json(r#"{"body":"hi"}"#)),
    };
    let items = message.to_items();
    let back = Message::from_items(&items).unwrap();
    assert_eq!(back.join_ref, message.join_ref);
    assert_eq!(back.message_ref, message.message_ref);
    assert_eq!(back.topic, message.topic);
    assert_eq!(back.event, message.event);
    assert_eq!(back.payload, message.payload);
    assert_eq!(message.encode(), r#"[null,"9","room:lobby","new_msg",{"body":"hi"}]"#);
}

#[test]
fn reply_payload_has_status_and_response() {
    let payload = Payload::new(Status::Success, json(r#"{"x":1}"#));
    assert_eq!(payload.0.to_string(), r#"{"response":{"x":1},"status":"ok"}"#);
    let payload = Payload::new(Status::Error, Value::Null);
    assert_eq!(payload.0.to_string(), r#"{"response":null,"status":"error"}"#);
    assert_eq!(Payload::empty().0.to_string(), "{}");
    assert_eq!(Payload::default().0.to_string(), r#"{"response":{},"status":"ok"}"#);
    let v: Value = Payload::from(Value::Bool(true)).into();
    assert_eq!(v, Value::Bool(true));
}
