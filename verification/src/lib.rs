//! Phoenix-style channels over WebSockets: topic routing, the wire format of
//! messages, channel dispatch and the per-connection session state, with
//! their contracts proved by Verus.

pub mod channel;
pub mod connected_socket;
pub mod event;
pub mod json;
pub mod message;
pub mod socket;
pub mod text;
pub mod topic;
pub mod websocket;

pub use channel::{Channel, Outcome};
pub use connected_socket::{Action, ConnectedSocket};
pub use event::{Event, Status, WsError};
pub use message::{BroadcastMessage, BroadcastTarget, Message, Payload};
pub use socket::Socket;
pub use topic::Topic;
pub use websocket::WebSocket;
