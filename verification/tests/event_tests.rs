use axum_ws::{Event, Status, WsError};

#[test]
fn reserved_event_names() {
    assert_eq!(Event::from("phx_join"), Event::Join);
    assert_eq!(Event::from("phx_leave"), Event::Leave);
    assert_eq!(Event::from("phx_close"), Event::Close);
    assert_eq!(Event::from("phx_reply"), Event::Reply);
    assert_eq!(Event::from("heartbeat"), Event::Heartbeat);
    assert_eq!(Event::from("new_msg"), Event::Custom("new_msg".to_string()));
    assert_eq!(Event::from(""), Event::Custom(String::new()));
}

#[test]
fn event_names_round_trip() {
    for name in ["phx_join", "phx_leave", "phx_close", "phx_reply", "heartbeat", "shout", ""] {
        assert_eq!(Event::parse(name).name(), name);
    }
    for e in [Event::Join, Event::Leave, Event::Close, Event::Reply, Event::Heartbeat, Event::Custom("x".to_string())] {
        assert_eq!(Event::parse(&e.name()), e);
    }
    // An application event that borrows a reserved name is read back as the reserved one.
    assert_eq!(Event::parse(&Event::Custom("phx_join".to_string()).name()), Event::Join);
}

#[test]
fn status_names() {
    assert_eq!(Status::Success.to_string(), "ok");
    assert_eq!(Status::Error.to_string(), "error");
    assert_eq!(Status::from_name("ok"), Status::Success);
    assert_eq!(Status::from_name("error"), Status::Error);
}

#[test]
fn error_texts() {
    assert_eq!(WsError::UnmatchedTopic.to_string(), "unmatched topic");
    assert_eq!(WsError::UnmatchedEvent.to_string(), "unmatched event");
}
