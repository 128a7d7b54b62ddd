use axum_ws::{BroadcastTarget, Event, Socket, Topic};
use serde_json::Value;

#[test]
fn new_socket_has_a_nanoid_and_nothing_else() {
    let socket = Socket::new();
    let id = socket.id.clone().unwrap();
    assert_eq!(id.chars().count(), 21);
    assert!(id.chars().all(|c| c.is_ascii_alphanumeric() || c == '_' || c == '-'));
    assert!(!socket.joined);
    assert!(socket.assigns.is_empty());
    assert_eq!(socket.topic, None);
    assert_ne!(Socket::new().id, socket.id);
    assert_eq!(Socket::default().id, None);
}

#[test]
fn assign_stores_and_replaces() {
    let mut socket = Socket::default();
    socket.assign("k".to_string(), Value::Bool(true));
    socket.assign("j".to_string(), Value::Null);
    socket.assign("k".to_string(), Value::Bool(false));
    assert_eq!(socket.assigns.len(), 2);
    assert_eq!(socket.assigns.get("k"), Some(&Value::Bool(false)));
    assert_eq!(socket.assigns.get("j"), Some(&Value::Null));
}

#[test]
fn channel_socket_keeps_identity_and_records_join() {
    let mut base = Socket::new();
    base.assign("user".to_string(), Value::String("ann".to_string()));
    let channel = base.for_channel(Some("1".to_string()), Some("2".to_string()), Topic::new("room:1"));
    assert!(channel.joined);
    assert_eq!(channel.id, base.id);
    assert_eq!(channel.assigns, base.assigns);
    assert_eq!(channel.join_ref, Some("1".to_string()));
    assert_eq!(channel.message_ref, Some("2".to_string()));
    assert_eq!(channel.topic, Some(Topic::new("room:1")));
}

#[test]
fn socket_broadcasts_on_its_topic() {
    let channel = Socket::new().for_channel(None, None, Topic::new("room:1"));
    let b = channel.broadcast("news", Value::Bool(true));
    assert_eq!(b.topic, Topic::new("room:1"));
    assert_eq!(b.event, Event::Custom("news".to_string()));
    assert_eq!(b.from, channel.id);
    assert_eq!(b.target, BroadcastTarget::All);
    let b = channel.broadcast_from("news", Value::Null);
    assert_eq!(b.target, BroadcastTarget::Other);
    assert_eq!(b.payload.0, Value::Null);
}

#[test]
fn with_id_gives_a_fresh_socket_with_that_id() {
    let socket = Socket::with_id("abc".to_string());
    assert_eq!(socket.id, Some("abc".to_string()));
    assert!(!socket.joined);
    assert!(socket.assigns.is_empty());
    assert_eq!(socket.join_ref, None);
    assert_eq!(socket.message_ref, None);
    assert_eq!(socket.topic, None);
}
