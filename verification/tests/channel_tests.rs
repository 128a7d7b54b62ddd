use axum_ws::{Channel, Event, Outcome, Status};
use serde_json::Value;

fn json(text: &str) -> Value {
    serde_json::from_str(text).unwrap()
}

#[test]
fn handlers_are_kept_per_event_in_order() {
    let channel = Channel::new().on_join(1u32).on("shout", 2).on("shout", 3).on("phx_join", 4);
    assert_eq!(channel.callbacks_for(&Event::Join), vec![&1, &4]);
    assert_eq!(channel.callbacks_for(&Event::Custom("shout".to_string())), vec![&2, &3]);
    assert!(channel.callbacks_for(&Event::Leave).is_empty());
    assert_eq!(channel.join(), Some(&1));
    assert_eq!(channel.run(&Event::Custom("shout".to_string())), Some(&2));
    assert_eq!(channel.run(&Event::Heartbeat), None);
}

#[test]
fn call_without_handlers_refuses_the_event() {
    let channel: Channel<u32> = Channel::new().on("shout", 1);
    let replies = channel.call(&Event::Custom("whisper".to_string()), vec![]);
    assert_eq!(replies.len(), 1);
    assert_eq!(replies[0].0, Status::Error);
    assert_eq!(replies[0].1.to_string(), r#"{"reason":"unmatched event"}"#);
}

#[test]
fn call_turns_outcomes_into_replies_in_order() {
    let channel: Channel<u32> = Channel::new().on("shout", 1).on("shout", 2).on("shout", 3);
    let outcomes = vec![
        Outcome::Reply(json(r#"{"a":1}"#)),
        Outcome::NoReply,
        Outcome::Failed("boom".to_string()),
    ];
    let replies = channel.call(&Event::Custom("shout".to_string()), outcomes);
    assert_eq!(replies.len(), 2);
    assert_eq!(replies[0].0, Status::Success);
    assert_eq!(replies[0].1, json(r#"{"a":1}"#));
    assert_eq!(replies[1].0, Status::Error);
    assert_eq!(replies[1].1, Value::String("boom".to_string()));
}
