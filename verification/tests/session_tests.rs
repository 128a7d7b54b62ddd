use std::sync::Arc;

use axum_ws::{Action, BroadcastMessage, BroadcastTarget, Channel, ConnectedSocket, Event, Message, Outcome, Payload, Socket, Status, Topic, WebSocket};
use serde_json::Value;

#[derive(Debug, Default)]
pub struct UserSocket;

type Session = ConnectedSocket<UserSocket, u32, (), (), String>;

fn session() -> Session {
    let ws: WebSocket<UserSocket, u32, (), ()> = WebSocket::new().channel("room:*", Channel::new().on_join(1).on("shout", 2));
    let mut base = Socket::new();
    base.id = Some("me".to_string());
    ConnectedSocket::new(Arc::new(ws), base)
}

fn frame(text: &str) -> Message {
    text.to_string().try_into().unwrap()
}

fn sent(action: Action<String>) -> Vec<String> {
    match action {
        Action::Send(ms) => ms.iter().map(|m| m.encode()).collect(),
        _ => panic!("expected messages to send"),
    }
}

#[test]
fn heartbeat_is_answered() {
    let mut s = session();
    let out = sent(s.receive(frame(r#"[null,"1","phoenix","heartbeat",{}]"#)));
    assert_eq!(out, vec![r#"[null,"1","phoenix","phx_reply",{"response":{},"status":"ok"}]"#.to_string()]);
}

#[test]
fn join_of_unrouted_topic_is_refused() {
    let mut s = session();
    let out = sent(s.receive(frame(r#"["1","1","user:1","phx_join",{}]"#)));
    assert_eq!(
        out,
        vec![r#"["1","1","user:1","phx_reply",{"response":{"reason":"unmatched topic"},"status":"error"}]"#.to_string()]
    );
    assert!(!s.is_join_topic(&Topic::new("user:1")));
}

#[test]
fn join_leave_cycle() {
    let mut s = session();
    let action = s.receive(frame(r#"["1","2","room:1","phx_join",{"pw":"x"}]"#));
    let (topic, socket, payload) = match action {
        Action::Join { topic, socket, payload } => (topic, socket, payload),
        _ => panic!("expected a join"),
    };
    assert_eq!(topic, Topic::new("room:1"));
    assert!(socket.joined);
    assert_eq!(socket.id, Some("me".to_string()));
    assert_eq!(socket.join_ref, Some("1".to_string()));
    assert_eq!(socket.message_ref, Some("2".to_string()));
    assert_eq!(payload.0.to_string(), r#"{"pw":"x"}"#);
    let channel = s.get_channel(&topic).unwrap();
    assert_eq!(channel.join(), Some(&1));

    let reply = s.finish_join(topic, "handle".to_string(), Outcome::Reply(Value::Bool(true)));
    assert_eq!(reply.encode(), r#"["1","2","room:1","phx_reply",{"response":true,"status":"ok"}]"#);
    assert!(s.is_join_topic(&Topic::new("room:1")));
    assert_eq!(s.get_channel_socket(&Topic::new("room:1")), Some(&"handle".to_string()));

    // An application event on the joined topic is dispatched to the channel.
    assert!(matches!(s.receive(frame(r#"["1","3","room:1","shout",{}]"#)), Action::Dispatch));
    let replies = s.replies(vec![(Status::Success, Value::Null), (Status::Error, Value::Bool(false))]);
    assert_eq!(replies.len(), 2);
    assert_eq!(replies[0].encode(), r#"["1","3","room:1","phx_reply",{"response":null,"status":"ok"}]"#);
    assert_eq!(replies[1].encode(), r#"["1","3","room:1","phx_reply",{"response":false,"status":"error"}]"#);

    // Leaving answers and hands back the channel socket for the close notice.
    match s.receive(frame(r#"["1","4","room:1","phx_leave",{}]"#)) {
        Action::Leave { reply, closed } => {
            assert_eq!(reply.encode(), r#"["1","4","room:1","phx_reply",{"response":{},"status":"ok"}]"#);
            assert_eq!(closed, Some("handle".to_string()));
        }
        _ => panic!("expected a leave"),
    }
    assert!(!s.is_join_topic(&Topic::new("room:1")));
    let state = Socket::new().for_channel(Some("1".to_string()), Some("2".to_string()), Topic::new("room:1"));
    assert_eq!(s.reply_close(&state).encode(), r#"["1","2","room:1","phx_close",{}]"#);

    // Once left, application events on the topic are refused.
    let out = sent(s.receive(frame(r#"["1","5","room:1","shout",{}]"#)));
    assert_eq!(
        out,
        vec![r#"["1","5","room:1","phx_reply",{"response":{"reason":"unmatched topic"},"status":"error"}]"#.to_string()]
    );
}

#[test]
fn failed_join_records_nothing() {
    let mut s = session();
    let _ = s.receive(frame(r#"["1","2","room:1","phx_join",{}]"#));
    let reply = s.finish_join(Topic::new("room:1"), "h".to_string(), Outcome::Failed("denied".to_string()));
    assert_eq!(
        reply.encode(),
        r#"["1","2","room:1","phx_reply",{"response":{"reason":"denied"},"status":"error"}]"#
    );
    assert!(!s.is_join_topic(&Topic::new("room:1")));
    let _ = s.receive(frame(r#"["1","2","room:1","phx_join",{}]"#));
    let reply = s.finish_join(Topic::new("room:1"), "h".to_string(), Outcome::NoReply);
    assert_eq!(reply.encode(), r#"["1","2","room:1","phx_reply",{"response":{},"status":"ok"}]"#);
}

#[test]
fn other_events_are_ignored_and_leave_without_join_closes_nothing() {
    let mut s = session();
    assert!(matches!(s.receive(frame(r#"[null,null,"room:1","phx_reply",{}]"#)), Action::Ignore));
    assert!(matches!(s.receive(frame(r#"[null,null,"room:1","phx_close",{}]"#)), Action::Ignore));
    match s.receive(frame(r#"[null,"1","room:1","phx_leave",{}]"#)) {
        Action::Leave { closed, .. } => assert_eq!(closed, None),
        _ => panic!("expected a leave"),
    }
}

fn broadcast(topic: &str, from: Option<&str>, target: BroadcastTarget) -> BroadcastMessage {
    BroadcastMessage {
        topic: Topic::new(topic),
        event: Event::Custom("news".to_string()),
        payload: Payload(Value::Null),
        from: from.map(|f| f.to_string()),
        target,
    }
}

#[test]
fn broadcasts_reach_subscribers_but_not_their_sender() {
    let mut s = session();
    assert!(s.deliver(broadcast("room:1", None, BroadcastTarget::All)).is_none());
    let _ = s.receive(frame(r#"["1","2","room:1","phx_join",{}]"#));
    let _ = s.finish_join(Topic::new("room:1"), "h".to_string(), Outcome::NoReply);
    let m = s.deliver(broadcast("room:1", None, BroadcastTarget::All)).unwrap();
    assert_eq!(m.encode(), r#"[null,null,"room:1","news",null]"#);
    assert!(s.deliver(broadcast("room:2", None, BroadcastTarget::All)).is_none());
    assert!(s.deliver(broadcast("room:1", Some("me"), BroadcastTarget::Other)).is_none());
    assert!(s.deliver(broadcast("room:1", Some("you"), BroadcastTarget::Other)).is_some());
    assert!(s.deliver(broadcast("room:1", Some("me"), BroadcastTarget::All)).is_some());
    match s.receive(frame(r#"["1","3","room:1","phx_leave",{}]"#)) {
        Action::Leave { closed, .. } => assert_eq!(closed, Some("h".to_string())),
        _ => panic!("expected a leave"),
    }
    assert!(s.deliver(broadcast("room:1", None, BroadcastTarget::All)).is_none());
}

#[test]
fn join_handler_is_the_first_join_handler_of_the_routed_channel() {
    let ws: WebSocket<UserSocket, u32, (), ()> = WebSocket::new()
        .channel("room:1", Channel::new().on("shout", 5))
        .channel("room:*", Channel::new().on_join(6).on_join(7));
    let mut s: Session = ConnectedSocket::new(Arc::new(ws), Socket::new());
    let _ = s.receive(frame(r#"["1","1","room:2","phx_join",{}]"#));
    assert_eq!(s.join_handler(), Some(&6));
    let _ = s.receive(frame(r#"["1","1","room:1","phx_join",{}]"#));
    assert_eq!(s.join_handler(), None);
    let _ = s.receive(frame(r#"["1","1","user:1","phx_join",{}]"#));
    assert_eq!(s.join_handler(), None);
}

#[test]
fn channel_socket_state_comes_from_the_latest_socket() {
    let mut s = session();
    let mut later = Socket::new();
    later.id = Some("renamed".to_string());
    s.set_socket(later);
    assert_eq!(s.socket().id, Some("renamed".to_string()));
    match s.receive(frame(r#"["1","2","room:1","phx_join",{}]"#)) {
        Action::Join { socket, .. } => assert_eq!(socket.id, Some("renamed".to_string())),
        _ => panic!("expected a join"),
    }
}

#[test]
fn membership_follows_joins_and_leaves() {
    let mut s = session();
    let room = Topic::new("room:1");
    let _ = s.receive(frame(r#"["1","2","room:1","phx_join",{}]"#));
    let _ = s.finish_join(room.clone(), "a".to_string(), Outcome::NoReply);
    assert!(s.is_join_topic(&room));
    // A later failed join leaves the earlier one in place.
    let _ = s.receive(frame(r#"["3","3","room:1","phx_join",{}]"#));
    let _ = s.finish_join(room.clone(), "b".to_string(), Outcome::Failed("no".to_string()));
    assert_eq!(s.get_channel_socket(&room), Some(&"a".to_string()));
    // A leave ends it; a join after the leave starts it again.
    let _ = s.receive(frame(r#"["3","4","room:1","phx_leave",{}]"#));
    assert!(!s.is_join_topic(&room));
    assert_eq!(s.take_channel_socket(&room), None);
    let _ = s.receive(frame(r#"["5","5","room:1","phx_join",{}]"#));
    let _ = s.finish_join(room.clone(), "c".to_string(), Outcome::Reply(Value::Null));
    assert_eq!(s.get_channel_socket(&room), Some(&"c".to_string()));
}

#[test]
fn dispatch_target_is_the_routed_channel_and_joined_socket() {
    let mut s = session();
    let _ = s.receive(frame(r#"["1","1","room:1","shout",{}]"#));
    assert!(s.dispatch_target().is_none());
    let _ = s.receive(frame(r#"["1","2","room:1","phx_join",{}]"#));
    let _ = s.finish_join(Topic::new("room:1"), "h".to_string(), Outcome::NoReply);
    let _ = s.receive(frame(r#"["1","3","room:1","shout",{}]"#));
    let (channel, socket) = s.dispatch_target().unwrap();
    assert_eq!(socket, &"h".to_string());
    assert_eq!(channel.callbacks_for(&Event::Custom("shout".to_string())), vec![&2]);
    let _ = s.receive(frame(r#"["1","4","user:1","shout",{}]"#));
    assert!(s.dispatch_target().is_none());
}
