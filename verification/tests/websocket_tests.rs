use std::sync::Arc;

use axum_ws::{BroadcastTarget, Channel, ConnectedSocket, Event, Socket, Topic, WebSocket};
use serde_json::Value;

#[derive(Debug, Default)]
pub struct UserSocket;

#[derive(Debug, Default)]
pub struct RoomSocket;

type Endpoint<T> = WebSocket<T, u32, (), ()>;

#[test]
fn test_socket() {
    let user_socket = Endpoint::<UserSocket>::new().path("/socket");
    let room_socket = Endpoint::<RoomSocket>::new().path("/room");

    assert_eq!(user_socket.path_str(), "/socket");
    assert_eq!(room_socket.path_str(), "/room");
}

#[test]
fn websocket_test_get_channel() {
    let user_channel = Channel::new();
    let user_socket = Endpoint::<UserSocket>::new().channel("user:*", user_channel);

    let user_channel1 = user_socket.get_channel(&"user:1".into());
    assert!(user_channel1.is_some());

    let user_channel2 = user_socket.get_channel(&"room:1".into());
    assert!(user_channel2.is_none());
}

#[test]
fn connected_socket_test_get_channel() {
    let user_channel = Channel::new();
    let user_socket = Endpoint::<UserSocket>::new().channel("user:*", user_channel);
    let socket = Socket::new();

    let connected_socket: ConnectedSocket<_, _, _, _, ()> = ConnectedSocket::new(Arc::new(user_socket), socket);

    let channel = connected_socket.get_channel(&Topic("user:123".to_string()));
    assert!(channel.is_some());

    let channel = connected_socket.get_channel(&Topic("room:456".to_string()));
    assert!(channel.is_none());
}

#[test]
fn the_first_matching_route_wins_and_patterns_are_replaced_in_place() {
    let ws = Endpoint::<UserSocket>::new()
        .channel("room:1", Channel::new().on("a", 1))
        .channel("room:*", Channel::new().on("a", 2))
        .channel("room:1", Channel::new().on("a", 3));
    let first = ws.get_channel(&"room:1".into()).unwrap();
    assert_eq!(first.callbacks_for(&Event::Custom("a".to_string())), vec![&3]);
    let other = ws.get_channel(&"room:2".into()).unwrap();
    assert_eq!(other.callbacks_for(&Event::Custom("a".to_string())), vec![&2]);
}

#[test]
fn hooks_and_route() {
    let ws: WebSocket<UserSocket, u32, &str, i64> = WebSocket::new().on_connect("connect").id(7).path("/socket");
    assert_eq!(ws.connect_callback(), Some(&"connect"));
    assert_eq!(ws.id_callback(), Some(&7));
    assert_eq!(ws.route(), "/socket/websocket");
    let bare: WebSocket<UserSocket, u32, &str, i64> = WebSocket::new();
    assert_eq!(bare.connect_callback(), None);
    assert_eq!(bare.id_callback(), None);
    assert_eq!(bare.route(), "/websocket");
}

#[test]
fn endpoint_broadcasts() {
    let b = Endpoint::<UserSocket>::broadcast("room:1", "news", Value::Bool(true));
    assert_eq!(b.topic, Topic("room:1".to_string()));
    assert_eq!(b.event, Event::Custom("news".to_string()));
    assert_eq!(b.payload.0, Value::Bool(true));
    assert_eq!(b.from, None);
    assert_eq!(b.target, BroadcastTarget::All);
    let b = Endpoint::<UserSocket>::broadcast_from("me", "room:1", "phx_close", Value::Null);
    assert_eq!(b.event, Event::Close);
    assert_eq!(b.from, Some("me".to_string()));
    assert_eq!(b.target, BroadcastTarget::Other);
}
