//! The state of a socket: who it is, what the application stored on it and,
//! for the socket of a joined channel, which join it belongs to.
use serde_json::Value;
use vstd::prelude::*;

use crate::event::{event_of_name, Event};
use crate::json::{json_map_insert, json_map_new, json_members, no_members, JsonMap};
use crate::message::{BroadcastMessage, BroadcastTarget, Payload};
use crate::text::{clone_opt_string, opt_view};
use crate::topic::Topic;

verus! {

/// Whether `c` is in nanoid's default alphabet `[A-Za-z0-9_-]`.
pub open spec fn is_id_char(c: char) -> bool {
    c == '_' || c == '-' || ('0' as int <= c as int <= '9' as int) || ('a' as int <= c as int
        <= 'z' as int) || ('A' as int <= c as int <= 'Z' as int)
}

/// Whether `s` is an identifier as nanoid makes them with its defaults:
/// 21 characters of its default alphabet.
pub open spec fn is_nanoid(s: Seq<char>) -> bool {
    s.len() == 21 && forall|i: int| 0 <= i < s.len() ==> is_id_char(#[trigger] s[i])
}

/// `nanoid::format` with nanoid's default random source and alphabet: a
/// random identifier of `size` characters of that alphabet. Which one comes
/// out is left open. With `size == 0` it would never return, so that is
/// excluded; it panics only when the operating system gives no randomness,
/// which no argument controls.
#[verifier::external_body]
fn random_id(size: usize) -> (res: String)
    requires
        size > 0,
    ensures
        res@.len() == size,
        forall|i: int| 0 <= i < res@.len() ==> is_id_char(#[trigger] res@[i]),
{
    nanoid::format(nanoid::rngs::default, &nanoid::alphabet::SAFE, size)
}

/// The view of an optional topic.
pub open spec fn opt_topic_view(t: Option<Topic>) -> Option<Seq<char>> {
    match t {
        Some(topic) => Some(topic@),
        None => None,
    }
}

/// The state of a socket.
#[derive(Clone, Debug)]
pub struct Socket {
    /// The identifier of the connection.
    pub id: Option<String>,
    /// Whether the channel of this socket has been joined.
    pub joined: bool,
    /// What the application stored on the socket.
    pub assigns: JsonMap,
    /// The reference of the join of the channel of this socket.
    pub join_ref: Option<String>,
    /// The reference of the message that joined the channel.
    pub message_ref: Option<String>,
    /// The topic of the channel of this socket.
    pub topic: Option<Topic>,
}

impl Socket {
    /// Whether this socket holds nothing but, possibly, an identifier.
    pub open spec fn is_fresh(&self) -> bool {
        &&& !self.joined
        &&& json_members(self.assigns) == no_members()
        &&& self.join_ref is None
        &&& self.message_ref is None
        &&& self.topic is None
    }

    /// A socket with a fresh random identifier and nothing else.
    pub fn new() -> (res: Socket)
        ensures
            res.is_fresh(),
            res.id matches Some(id) && is_nanoid(id@),
    {
        Socket::with_id(random_id(21))
    }

    /// A socket with the identifier `id` and nothing else.
    pub fn with_id(id: String) -> (res: Socket)
        ensures
            res.is_fresh(),
            res.id == Some(id),
    {
        Socket {
            id: Some(id),
            joined: false,
            assigns: json_map_new(),
            join_ref: None,
            message_ref: None,
            topic: None,
        }
    }

    /// Stores `value` under `key`, replacing what was stored there.
    pub fn assign(&mut self, key: String, value: Value)
        ensures
            json_members(final(self).assigns) == json_members(old(self).assigns).insert(key@, value),
            final(self).id == old(self).id,
            final(self).joined == old(self).joined,
            final(self).join_ref == old(self).join_ref,
            final(self).message_ref == old(self).message_ref,
            final(self).topic == old(self).topic,
    {
        json_map_insert(&mut self.assigns, key, value);
    }

    /// The socket of a channel joined from this one: it keeps this socket's
    /// identifier and stored values, and records the join.
    pub fn for_channel(&self, join_ref: Option<String>, message_ref: Option<String>, topic: Topic) -> (res: Socket)
        ensures
            opt_view(res.id) == opt_view(self.id),
            json_members(res.assigns) == json_members(self.assigns),
            res.joined,
            opt_view(res.join_ref) == opt_view(join_ref),
            opt_view(res.message_ref) == opt_view(message_ref),
            opt_topic_view(res.topic) == Some(topic@),
    {
        Socket {
            id: clone_opt_string(&self.id),
            joined: true,
            assigns: self.assigns.clone(),
            join_ref,
            message_ref,
            topic: Some(topic),
        }
    }

    /// The broadcast of `event` with `payload` on this socket's topic, from
    /// this socket, to `target`.
    fn do_broadcast(&self, event: &str, payload: Value, target: BroadcastTarget) -> (res: BroadcastMessage)
        requires
            self.topic is Some,
        ensures
            Some(res.topic@) == opt_topic_view(self.topic),
            res.event@ == event_of_name(event@),
            res.payload@ == payload,
            opt_view(res.from) == opt_view(self.id),
            res.target == target,
    {
        let topic = self.topic.as_ref().unwrap().duplicate();
        BroadcastMessage {
            topic,
            event: Event::parse(event),
            payload: Payload(payload),
            from: clone_opt_string(&self.id),
            target,
        }
    }

    /// The broadcast of `event` with `payload` to every subscriber of this
    /// socket's topic. The socket must belong to a channel.
    pub fn broadcast(&self, event: &str, payload: Value) -> (res: BroadcastMessage)
        requires
            self.topic is Some,
        ensures
            Some(res.topic@) == opt_topic_view(self.topic),
            res.event@ == event_of_name(event@),
            res.payload@ == payload,
            opt_view(res.from) == opt_view(self.id),
            res.target == BroadcastTarget::All,
    {
        self.do_broadcast(event, payload, BroadcastTarget::All)
    }

    /// The broadcast of `event` with `payload` to every subscriber of this
    /// socket's topic but this socket. The socket must belong to a channel.
    pub fn broadcast_from(&self, event: &str, payload: Value) -> (res: BroadcastMessage)
        requires
            self.topic is Some,
        ensures
            Some(res.topic@) == opt_topic_view(self.topic),
            res.event@ == event_of_name(event@),
            res.payload@ == payload,
            opt_view(res.from) == opt_view(self.id),
            res.target == BroadcastTarget::Other,
    {
        self.do_broadcast(event, payload, BroadcastTarget::Other)
    }
}

impl Default for Socket {
    /// A socket with no identifier and nothing else.
    fn default() -> (res: Socket)
        ensures
            res.is_fresh(),
            res.id is None,
    {
        Socket {
            id: None,
            joined: false,
            assigns: json_map_new(),
            join_ref: None,
            message_ref: None,
            topic: None,
        }
    }
}

} // verus!
