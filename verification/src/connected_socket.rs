//! The state of one connection and the decisions taken on it: what each
//! incoming message asks to be done, what is sent back, and which
//! broadcasts reach the client.
use std::sync::Arc;
use serde_json::Value;
use vstd::prelude::*;

use crate::channel::{new_reason_body, reason_body, Channel, Outcome};
use crate::event::{error_text, Event, EventView, Status, WsError};
use crate::json::json_members;
use crate::message::{empty_object, new_empty_object, reply_body, BroadcastMessage, BroadcastTarget, Message, MessageView, Payload};
use crate::socket::{opt_topic_view, Socket};
use crate::text::{clone_opt_string, opt_string_eq, opt_view};
use crate::topic::{topic_matches, Topic};
use crate::websocket::WebSocket;

verus! {

/// What is stored under `key`, if anything; keys are unique where this is used.
pub open spec fn lookup<H>(entries: Seq<(Seq<char>, H)>, key: Seq<char>) -> Option<H> {
    if exists|i: int| 0 <= i < entries.len() && #[trigger] entries[i].0 == key {
        let i = choose|i: int| 0 <= i < entries.len() && #[trigger] entries[i].0 == key;
        Some(entries[i].1)
    } else {
        None
    }
}

/// Whether no two entries have the same key.
pub open spec fn keys_distinct<H>(entries: Seq<(Seq<char>, H)>) -> bool {
    forall|i: int, j: int| 0 <= i < j < entries.len() ==> entries[i].0 != entries[j].0
}

/// With unique keys, the entry at `i` is what its key looks up.
proof fn lemma_lookup_at<H>(entries: Seq<(Seq<char>, H)>, i: int)
    requires
        keys_distinct(entries),
        0 <= i < entries.len(),
    ensures
        lookup(entries, entries[i].0) == Some(entries[i].1),
{
    let key = entries[i].0;
    assert(entries[i].0 == key);
    let j = choose|j: int| 0 <= j < entries.len() && #[trigger] entries[j].0 == key;
    if j != i {
        if j < i {
            assert(entries[j].0 != entries[i].0);
        } else {
            assert(entries[i].0 != entries[j].0);
        }
    }
}

/// A key that no entry has looks up nothing.
proof fn lemma_lookup_absent<H>(entries: Seq<(Seq<char>, H)>, key: Seq<char>)
    requires
        forall|i: int| 0 <= i < entries.len() ==> #[trigger] entries[i].0 != key,
    ensures
        lookup(entries, key) is None,
{
}

/// Whether some route of the endpoint matches `topic`.
pub open spec fn routed<T, C, K, I>(ws: WebSocket<T, C, K, I>, topic: Seq<char>) -> bool {
    exists|i: int| 0 <= i < ws.routes().len() && topic_matches(#[trigger] ws.routes()[i].0, topic)
}

/// A topic is routed exactly when the pattern of some route matches it,
/// whatever handlers that route's channel has.
pub proof fn lemma_routed_iff_some_pattern_matches<T, C, K, I>(ws: WebSocket<T, C, K, I>, topic: Seq<char>)
    ensures
        routed(ws, topic) <==> exists|i: int|
            0 <= i < ws.routes().len() && #[trigger] topic_matches(ws.routes()[i].0, topic),
{
    if exists|i: int| 0 <= i < ws.routes().len() && #[trigger] topic_matches(ws.routes()[i].0, topic) {
        let i = choose|i: int| 0 <= i < ws.routes().len() && #[trigger] topic_matches(ws.routes()[i].0, topic);
        assert(topic_matches(ws.routes()[i].0, topic));
    }
}

/// The message sent back about `m`: same references and topic.
pub open spec fn answer(m: MessageView, event: EventView, payload: Value) -> MessageView {
    MessageView {
        join_ref: m.join_ref,
        message_ref: m.message_ref,
        topic: m.topic,
        event: event,
        payload: payload,
    }
}

/// The reply to `m` that reports `status` with `response`.
pub open spec fn reply_to(m: MessageView, status: Status, response: Value) -> MessageView {
    answer(m, EventView::Reply, reply_body(status, response))
}

/// The refusal of `m` for `reason`.
pub open spec fn refusal_of(m: MessageView, reason: WsError) -> MessageView {
    reply_to(m, Status::Error, reason_body(error_text(reason)))
}

/// The views of a list of messages.
pub open spec fn views(ms: Seq<Message>) -> Seq<MessageView> {
    ms.map_values(|m: Message| m@)
}

/// A change of what a connection has joined, as the frames it handled
/// brought it about: a join of the topic that its channel accepted, or a
/// leave of the topic.
pub enum Membership {
    Joined(Seq<char>),
    Left(Seq<char>),
}

/// Whether `topic` is joined after the changes `log`: the latest change of
/// that topic is a join, that is, some join of it was accepted and no leave
/// of it came after the latest such join.
pub open spec fn is_member(log: Seq<Membership>, topic: Seq<char>) -> bool
    decreases log.len(),
{
    if log.len() == 0 {
        false
    } else {
        match log.last() {
            Membership::Joined(t) => if t == topic {
                true
            } else {
                is_member(log.drop_last(), topic)
            },
            Membership::Left(t) => if t == topic {
                false
            } else {
                is_member(log.drop_last(), topic)
            },
        }
    }
}

/// The joined channel sockets of a connection, with the changes that led to them.
struct Joined<H> {
    entries: Vec<(Topic, H)>,
    log: Ghost<Seq<Membership>>,
}

/// The topics and channel sockets of joined channels.
spec fn entries_view<H>(j: Joined<H>) -> Seq<(Seq<char>, H)> {
    j.entries@.map_values(|p: (Topic, H)| (p.0@, p.1))
}

/// Each topic is joined at most once, and exactly the topics that are
/// members after the log are joined.
spec fn joined_ok<H>(j: Joined<H>) -> bool {
    &&& keys_distinct(entries_view(j))
    &&& forall|k: Seq<char>| #[trigger] lookup(entries_view(j), k) is Some <==> is_member(j.log@, k)
}

/// What the connection is to do after an incoming message.
pub enum Action<H> {
    /// Send these messages, in order.
    Send(Vec<Message>),
    /// Run the join handler of the channel routed for `topic` on a new
    /// channel socket in the state `socket`, with `payload`; then hand the
    /// outcome to `ConnectedSocket::finish_join`.
    Join { topic: Topic, socket: Socket, payload: Payload },
    /// Run the handlers for the event of the current message on the
    /// channel routed for its topic, with the channel socket of that topic,
    /// and hand their outcomes to `Channel::call` and the replies to
    /// `ConnectedSocket::replies`.
    Dispatch,
    /// Send `reply`; then, if a channel socket was left, send the close
    /// notice that `ConnectedSocket::reply_close` builds from its state.
    Leave { reply: Message, closed: Option<H> },
    /// Nothing to do.
    Ignore,
}

/// One connection: the endpoint it came in on, the state of its socket,
/// the sockets of the channels it joined (of type `H`) and the message
/// being handled.
pub struct ConnectedSocket<T, C, K, I, H> {
    websocket: Arc<WebSocket<T, C, K, I>>,
    socket: Socket,
    channel_sockets: Joined<H>,
    message: Option<Message>,
}

impl<T, C, K, I, H> ConnectedSocket<T, C, K, I, H> {
    /// The endpoint of the connection.
    pub closed spec fn endpoint(&self) -> WebSocket<T, C, K, I> {
        *self.websocket
    }

    /// The state of the connection's own socket.
    pub closed spec fn base(&self) -> Socket {
        self.socket
    }

    /// The joined topics and their channel sockets.
    pub closed spec fn joined(&self) -> Seq<(Seq<char>, H)> {
        entries_view(self.channel_sockets)
    }

    /// The changes of membership that the handled frames brought about, oldest first.
    pub closed spec fn history(&self) -> Seq<Membership> {
        self.channel_sockets.log@
    }

    /// Whether what is joined is what the history of the connection says:
    /// a topic has a channel socket exactly when it is a member after the
    /// history.
    pub open spec fn membership_follows_history(&self) -> bool {
        forall|k: Seq<char>| #[trigger] self.channel_socket(k) is Some <==> is_member(self.history(), k)
    }

    /// The message being handled.
    pub closed spec fn current(&self) -> Option<MessageView> {
        match self.message {
            Some(m) => Some(m@),
            None => None,
        }
    }

    /// The channel socket of `topic`, if it was joined.
    pub open spec fn channel_socket(&self, topic: Seq<char>) -> Option<H> {
        lookup(self.joined(), topic)
    }

    /// Each topic is joined at most once.
    #[verifier::type_invariant]
    spec fn wf(&self) -> bool {
        joined_ok(self.channel_sockets)
    }

    /// A connection on `websocket` whose socket is in the state `socket`,
    /// with no channel joined and no message handled yet.
    pub fn new(websocket: Arc<WebSocket<T, C, K, I>>, socket: Socket) -> (res: Self)
        ensures
            res.endpoint() == *websocket,
            res.base() == socket,
            res.joined() == Seq::<(Seq<char>, H)>::empty(),
            res.history() == Seq::<Membership>::empty(),
            res.membership_follows_history(),
            res.current() is None,
    {
        let res = ConnectedSocket {
            websocket,
            socket,
            channel_sockets: Joined { entries: Vec::new(), log: Ghost(Seq::empty()) },
            message: None,
        };
        assert(res.joined() =~= Seq::<(Seq<char>, H)>::empty());
        res
    }

    /// The state of the connection's own socket.
    pub fn socket(&self) -> (res: &Socket)
        ensures
            *res == self.base(),
    {
        &self.socket
    }

    /// The message being handled, if any.
    pub fn message(&self) -> (res: Option<&Message>)
        ensures
            match res {
                Some(m) => self.current() == Some(m@),
                None => self.current() is None,
            },
    {
        match &self.message {
            Some(m) => Some(m),
            None => None,
        }
    }

    /// The endpoint of the connection.
    pub fn websocket(&self) -> (res: &WebSocket<T, C, K, I>)
        ensures
            *res == self.endpoint(),
    {
        &self.websocket
    }

    /// The channel routed for `topic`, as the endpoint finds it.
    pub fn get_channel(&self, topic: &Topic) -> (res: Option<&Channel<C>>)
        ensures
            match res {
                Some(c) => exists|i: int|
                    crate::websocket::is_first_match(self.endpoint().routes(), topic@, i) && *c
                        == #[trigger] self.endpoint().routes()[i].1,
                None => !routed(self.endpoint(), topic@),
            },
    {
        let ws: &WebSocket<T, C, K, I> = &self.websocket;
        let res = ws.get_channel(topic);
        proof {
            assert(*ws == self.endpoint());
            if res is None {
                if routed(self.endpoint(), topic@) {
                    let i = choose|i: int|
                        0 <= i < self.endpoint().routes().len() && topic_matches(
                            #[trigger] self.endpoint().routes()[i].0,
                            topic@,
                        );
                    assert(!topic_matches(ws.routes()[i].0, topic@));
                }
            }
        }
        res
    }

    /// The message being handled, which must be there.
    fn current_message(&self) -> (res: &Message)
        requires
            self.current() is Some,
        ensures
            Some(res@) == self.current(),
    {
        self.message.as_ref().unwrap()
    }

    /// The message of `event` with `payload`, under the given references
    /// and topic.
    pub fn push(
        &self,
        event: Event,
        payload: Payload,
        join_ref: Option<String>,
        message_ref: Option<String>,
        topic: Topic,
    ) -> (res: Message)
        ensures
            res@ == (MessageView {
                join_ref: opt_view(join_ref),
                message_ref: opt_view(message_ref),
                topic: topic@,
                event: event@,
                payload: payload@,
            }),
    {
        Message { join_ref, message_ref, topic, event, payload }
    }

    /// The reply to the message being handled that reports `status` with
    /// `response`.
    pub fn reply(&self, status: Status, response: Value) -> (res: Message)
        requires
            self.current() is Some,
        ensures
            res@ == reply_to(self.current()->0, status, response),
    {
        let m = self.current_message();
        self.push(Event::Reply, Payload::new(status, response), m.join_ref(), m.message_ref(), m.topic())
    }

    /// The reply to the message being handled that reports success with an
    /// empty response.
    pub fn reply_ok(&self) -> (res: Message)
        requires
            self.current() is Some,
        ensures
            res@ == reply_to(self.current()->0, Status::Success, empty_object()),
    {
        self.reply(Status::Success, new_empty_object())
    }

    /// The reply to the message being handled that reports an error for
    /// `reason`.
    pub fn reply_error(&self, reason: &str) -> (res: Message)
        requires
            self.current() is Some,
        ensures
            res@ == reply_to(self.current()->0, Status::Error, reason_body(reason@)),
    {
        self.reply(Status::Error, new_reason_body(reason.to_owned()))
    }

    /// The notice that the channel of the channel socket in the state
    /// `data` was closed. The socket must belong to a channel.
    pub fn reply_close(&self, data: &Socket) -> (res: Message)
        requires
            data.topic is Some,
        ensures
            res@ == (MessageView {
                join_ref: opt_view(data.join_ref),
                message_ref: opt_view(data.message_ref),
                topic: opt_topic_view(data.topic)->0,
                event: EventView::Close,
                payload: empty_object(),
            }),
    {
        let topic = data.topic.as_ref().unwrap().duplicate();
        self.push(
            Event::Close,
            Payload::empty(),
            clone_opt_string(&data.join_ref),
            clone_opt_string(&data.message_ref),
            topic,
        )
    }

    /// The replies to the message being handled, one per result, in order.
    pub fn replies(&self, results: Vec<(Status, Value)>) -> (res: Vec<Message>)
        requires
            self.current() is Some,
        ensures
            res@.len() == results@.len(),
            forall|i: int| 0 <= i < res@.len() ==> #[trigger] res@[i]@ == reply_to(
                self.current()->0,
                results@[i].0,
                results@[i].1,
            ),
    {
        let mut res: Vec<Message> = Vec::new();
        let mut i: usize = 0;
        while i < results.len()
            invariant
                self.current() is Some,
                i <= results@.len(),
                res@.len() == i,
                forall|k: int| 0 <= k < res@.len() ==> #[trigger] res@[k]@ == reply_to(
                    self.current()->0,
                    results@[k].0,
                    results@[k].1,
                ),
            decreases results@.len() - i,
        {
            let (status, value) = &results[i];
            res.push(self.reply(*status, value.clone()));
            i = i + 1;
        }
        res
    }

    /// Handles an incoming message: it becomes the message being handled,
    /// and the result says what to do about it. A heartbeat is answered
    /// with success; a join runs the join handler of the channel routed for
    /// its topic, or is refused when there is none; a leave is answered
    /// with success and forgets the channel socket of its topic; an
    /// application event runs the handlers of the channel of its topic when
    /// that topic is routed and joined, and is refused otherwise; anything
    /// else is ignored.
    pub fn receive(&mut self, message: Message) -> (res: Action<H>)
        ensures
            final(self).current() == Some(message@),
            final(self).endpoint() == old(self).endpoint(),
            final(self).base() == old(self).base(),
            message@.event != EventView::Leave ==> final(self).joined() == old(self).joined(),
            final(self).history() == if message@.event == EventView::Leave {
                old(self).history().push(Membership::Left(message@.topic))
            } else {
                old(self).history()
            },
            final(self).membership_follows_history(),
            message@.event == EventView::Join ==> ((res is Join) <==> exists|i: int|
                0 <= i < old(self).endpoint().routes().len() && #[trigger] topic_matches(
                    old(self).endpoint().routes()[i].0,
                    message@.topic,
                )),
            match message@.event {
                EventView::Heartbeat => res matches Action::Send(ms) && views(ms@) == seq![
                    reply_to(message@, Status::Success, empty_object()),
                ],
                EventView::Join => if routed(old(self).endpoint(), message@.topic) {
                    res matches Action::Join { topic, socket, payload } && topic@ == message@.topic
                        && payload@ == message@.payload && socket.joined && opt_view(socket.id)
                        == opt_view(old(self).base().id) && json_members(socket.assigns)
                        == json_members(old(self).base().assigns) && opt_view(socket.join_ref)
                        == message@.join_ref && opt_view(socket.message_ref) == message@.message_ref
                        && opt_topic_view(socket.topic) == Some(message@.topic)
                } else {
                    res matches Action::Send(ms) && views(ms@) == seq![
                        refusal_of(message@, WsError::UnmatchedTopic),
                    ]
                },
                EventView::Leave => res matches Action::Leave { reply, closed } && reply@ == reply_to(
                    message@,
                    Status::Success,
                    empty_object(),
                ) && closed == old(self).channel_socket(message@.topic) && forall|k: Seq<char>|
                    #[trigger] final(self).channel_socket(k) == if k == message@.topic {
                        None
                    } else {
                        old(self).channel_socket(k)
                    },
                EventView::Custom(_) => if routed(old(self).endpoint(), message@.topic) && old(
                    self,
                ).channel_socket(message@.topic) is Some {
                    res is Dispatch
                } else {
                    res matches Action::Send(ms) && views(ms@) == seq![
                        refusal_of(message@, WsError::UnmatchedTopic),
                    ]
                },
                _ => res is Ignore,
            },
    {
        proof {
            use_type_invariant(&*self);
        }
        self.message = Some(message.duplicate());
        let topic = message.topic();
        let res = match message.event {
            Event::Heartbeat => {
                let reply = self.reply_ok();
                let ms = vec![reply];
                proof {
                    assert(views(ms@) =~= seq![reply_to(message@, Status::Success, empty_object())]);
                }
                Action::Send(ms)
            },
            Event::Join => {
                if self.get_channel(&topic).is_some() {
                    let socket = self.socket.for_channel(
                        clone_opt_string(&message.join_ref),
                        clone_opt_string(&message.message_ref),
                        topic.duplicate(),
                    );
                    Action::Join { topic, socket, payload: message.payload }
                } else {
                    let reason = WsError::UnmatchedTopic.to_string();
                    let reply = self.reply_error(reason.as_str());
                    let ms = vec![reply];
                    proof {
                        assert(views(ms@) =~= seq![refusal_of(message@, WsError::UnmatchedTopic)]);
                    }
                    Action::Send(ms)
                }
            },
            Event::Leave => {
                let reply = self.reply_ok();
                let closed = self.take_channel_socket(&topic);
                Action::Leave { reply, closed }
            },
            Event::Custom(_) => {
                if self.get_channel(&topic).is_some() && self.is_join_topic(&topic) {
                    Action::Dispatch
                } else {
                    let reason = WsError::UnmatchedTopic.to_string();
                    let reply = self.reply_error(reason.as_str());
                    let ms = vec![reply];
                    proof {
                        assert(views(ms@) =~= seq![refusal_of(message@, WsError::UnmatchedTopic)]);
                    }
                    Action::Send(ms)
                }
            },
            _ => Action::Ignore,
        };
        proof {
            lemma_routed_iff_some_pattern_matches(old(self).endpoint(), message@.topic);
            assert(message@.event == EventView::Join ==> ((res is Join) <==> routed(old(self).endpoint(), message@.topic)));
            use_type_invariant(&*self);
            assert forall|k: Seq<char>| #[trigger] self.channel_socket(k) is Some <==> is_member(self.history(), k) by {
                assert(self.channel_socket(k) == lookup(entries_view(self.channel_sockets), k));
            }
        }
        res
    }

    /// Records how the join handler of the message being handled came out
    /// and gives the reply: on success the channel socket `socket` becomes
    /// that of `topic` and the reply reports success, with the handler's
    /// response if it gave one; on failure nothing is recorded and the
    /// reply reports the error. The message being handled must be the join
    /// of `topic` whose handler ran.
    pub fn finish_join(&mut self, topic: Topic, socket: H, outcome: Outcome) -> (res: Message)
        requires
            old(self).current() matches Some(m) && m.event == EventView::Join && m.topic == topic@,
            routed(old(self).endpoint(), topic@),
        ensures
            final(self).history() == if outcome is Failed {
                old(self).history()
            } else {
                old(self).history().push(Membership::Joined(topic@))
            },
            final(self).membership_follows_history(),
            final(self).current() == old(self).current(),
            final(self).endpoint() == old(self).endpoint(),
            final(self).base() == old(self).base(),
            match outcome {
                Outcome::Reply(v) => res@ == reply_to(old(self).current()->0, Status::Success, v),
                Outcome::NoReply => res@ == reply_to(old(self).current()->0, Status::Success, empty_object()),
                Outcome::Failed(e) => res@ == reply_to(old(self).current()->0, Status::Error, reason_body(e@)),
            },
            forall|k: Seq<char>| #[trigger] final(self).channel_socket(k) == if k == topic@ && !(outcome is Failed) {
                Some(socket)
            } else {
                old(self).channel_socket(k)
            },
    {
        let res = match outcome {
            Outcome::Reply(v) => {
                self.put_channel_socket(topic, socket);
                self.reply(Status::Success, v)
            },
            Outcome::NoReply => {
                self.put_channel_socket(topic, socket);
                self.reply_ok()
            },
            Outcome::Failed(e) => self.reply_error(e.as_str()),
        };
        proof {
            use_type_invariant(&*self);
            assert forall|k: Seq<char>| #[trigger] self.channel_socket(k) is Some <==> is_member(self.history(), k) by {
                assert(self.channel_socket(k) == lookup(entries_view(self.channel_sockets), k));
            }
        }
        res
    }

    /// Whether a broadcast reaches this connection: it must be subscribed
    /// to the topic and, for a broadcast to the others, not be its sender.
    /// The result is what the client receives.
    pub fn deliver(&self, message: BroadcastMessage) -> (res: Option<Message>)
        ensures
            res is Some <==> (self.channel_socket(message.topic@) is Some && (message.target
                == BroadcastTarget::Other ==> opt_view(self.base().id) != opt_view(message.from))),
            res matches Some(m) ==> m == message.into_message_spec(),
            res matches Some(m) ==> m.join_ref is None && m.message_ref is None && m.topic == message.topic
                && m.event == message.event && m.payload == message.payload,
    {
        let subscribed = self.is_join_topic(&message.topic);
        let wanted = match message.target {
            BroadcastTarget::All => subscribed,
            BroadcastTarget::Other => subscribed && !opt_string_eq(&self.socket.id, &message.from),
        };
        if wanted {
            Some(message.into_message())
        } else {
            None
        }
    }

    /// Replaces the state of the connection's own socket with `socket`,
    /// as the application last left it.
    pub fn set_socket(&mut self, socket: Socket)
        ensures
            final(self).base() == socket,
            final(self).endpoint() == old(self).endpoint(),
            final(self).joined() == old(self).joined(),
            final(self).history() == old(self).history(),
            final(self).current() == old(self).current(),
            final(self).membership_follows_history(),
    {
        proof {
            use_type_invariant(&*self);
        }
        self.socket = socket;
        proof {
            use_type_invariant(&*self);
            assert forall|k: Seq<char>| #[trigger] self.channel_socket(k) is Some <==> is_member(self.history(), k) by {
                assert(self.channel_socket(k) == lookup(entries_view(self.channel_sockets), k));
            }
        }
    }

    /// The join handler to run for the message being handled: the first
    /// handler of the join event on the channel of the first route that
    /// matches the message's topic, if there is such a route and handler.
    pub fn join_handler(&self) -> (res: Option<&C>)
        requires
            self.current() is Some,
        ensures
            match res {
                Some(c) => exists|i: int|
                    crate::websocket::is_first_match(self.endpoint().routes(), self.current()->0.topic, i)
                        && #[trigger] self.endpoint().routes()[i].1.handlers(EventView::Join).len() > 0
                        && *c == self.endpoint().routes()[i].1.handlers(EventView::Join)[0],
                None => forall|i: int|
                    crate::websocket::is_first_match(self.endpoint().routes(), self.current()->0.topic, i)
                        ==> #[trigger] self.endpoint().routes()[i].1.handlers(EventView::Join).len() == 0,
            },
    {
        let topic = self.current_message().topic();
        let routes = Ghost(self.endpoint().routes());
        match self.get_channel(&topic) {
            Some(channel) => {
                let handler = channel.join();
                proof {
                    let i = choose|i: int|
                        crate::websocket::is_first_match(routes@, topic@, i) && *channel == #[trigger] routes@[i].1;
                    assert forall|j: int| crate::websocket::is_first_match(routes@, topic@, j) implies j == i by {
                        if j < i {
                            assert(!topic_matches(routes@[j].0, topic@));
                        } else if i < j {
                            assert(!topic_matches(routes@[i].0, topic@));
                        }
                    }
                    if handler is Some {
                        assert(routes@[i].1.handlers(EventView::Join).len() > 0);
                    }
                }
                handler
            },
            None => None,
        }
    }

    /// The channel and the channel socket that the handlers of the message
    /// being handled run with: the channel of the first route matching its
    /// topic and the channel socket of that topic, when both exist.
    pub fn dispatch_target(&self) -> (res: Option<(&Channel<C>, &H)>)
        requires
            self.current() is Some,
        ensures
            match res {
                Some((c, h)) => (exists|i: int|
                    crate::websocket::is_first_match(self.endpoint().routes(), self.current()->0.topic, i)
                        && *c == #[trigger] self.endpoint().routes()[i].1) && self.channel_socket(
                    self.current()->0.topic,
                ) == Some(*h),
                None => !routed(self.endpoint(), self.current()->0.topic) || self.channel_socket(
                    self.current()->0.topic,
                ) is None,
            },
    {
        let topic = self.current_message().topic();
        match self.get_channel(&topic) {
            Some(channel) => match self.get_channel_socket(&topic) {
                Some(socket) => Some((channel, socket)),
                None => None,
            },
            None => None,
        }
    }

    /// The position of the channel socket of `topic`, if it was joined.
    fn position(&self, topic: &Topic) -> (res: Option<usize>)
        ensures
            match res {
                Some(i) => i < self.joined().len() && self.joined()[i as int].0 == topic@,
                None => forall|i: int| 0 <= i < self.joined().len() ==> #[trigger] self.joined()[i].0 != topic@,
            },
    {
        let mut i: usize = 0;
        while i < self.channel_sockets.entries.len()
            invariant
                i <= self.channel_sockets.entries@.len(),
                self.joined().len() == self.channel_sockets.entries@.len(),
                forall|j: int| 0 <= j < i ==> #[trigger] self.joined()[j].0 != topic@,
            decreases self.channel_sockets.entries@.len() - i,
        {
            proof {
                assert(self.joined()[i as int].0 == self.channel_sockets.entries@[i as int].0@);
            }
            if self.channel_sockets.entries[i].0.same_as(topic) {
                return Some(i);
            }
            i = i + 1;
        }
        None
    }

    /// The channel socket of `topic`, if it was joined.
    pub fn get_channel_socket(&self, topic: &Topic) -> (res: Option<&H>)
        ensures
            match res {
                Some(h) => self.channel_socket(topic@) == Some(*h),
                None => self.channel_socket(topic@) is None,
            },
    {
        proof {
            use_type_invariant(self);
        }
        match self.position(topic) {
            Some(i) => {
                proof {
                    lemma_lookup_at(self.joined(), i as int);
                    assert(self.joined()[i as int].1 == self.channel_sockets.entries@[i as int].1);
                }
                Some(&self.channel_sockets.entries[i].1)
            },
            None => {
                proof {
                    lemma_lookup_absent(self.joined(), topic@);
                }
                None
            },
        }
    }

    /// Whether `topic` was joined.
    pub fn is_join_topic(&self, topic: &Topic) -> (res: bool)
        ensures
            res == self.channel_socket(topic@) is Some,
    {
        self.get_channel_socket(topic).is_some()
    }

    /// Records `socket` as the channel socket of `topic`, replacing any
    /// earlier one, and the join in the history.
    fn put_channel_socket(&mut self, topic: Topic, socket: H)
        ensures
            final(self).history() == old(self).history().push(Membership::Joined(topic@)),
            forall|k: Seq<char>| #[trigger] final(self).channel_socket(k) == if k == topic@ {
                Some(socket)
            } else {
                old(self).channel_socket(k)
            },
            final(self).endpoint() == old(self).endpoint(),
            final(self).base() == old(self).base(),
            final(self).current() == old(self).current(),
    {
        proof {
            use_type_invariant(&*self);
        }
        let ghost before = self.joined();
        let ghost log = self.history();
        let found = self.position(&topic);
        let mut taken = Joined { entries: Vec::new(), log: Ghost(Seq::empty()) };
        std::mem::swap(&mut taken, &mut self.channel_sockets);
        let mut sockets = taken.entries;
        let ghost key = topic@;
        match found {
            Some(i) => {
                sockets.set(i, (topic, socket));
            },
            None => {
                sockets.push((topic, socket));
            },
        }
        let ghost after = sockets@.map_values(|p: (Topic, H)| (p.0@, p.1));
        proof {
            match found {
                Some(i) => {
                    assert(after =~= before.update(i as int, (key, socket)));
                    assert forall|a: int, b: int| 0 <= a < b < after.len() implies after[a].0 != after[b].0 by {
                        assert(before[a].0 != before[b].0);
                    }
                    assert forall|k: Seq<char>| #[trigger] lookup(after, k) == if k == key {
                        Some(socket)
                    } else {
                        lookup(before, k)
                    } by {
                        if k == key {
                            lemma_lookup_at(after, i as int);
                        } else {
                            if exists|j: int| 0 <= j < before.len() && #[trigger] before[j].0 == k {
                                let j = choose|j: int| 0 <= j < before.len() && #[trigger] before[j].0 == k;
                                lemma_lookup_at(before, j);
                                lemma_lookup_at(after, j);
                            } else {
                                assert forall|j: int| 0 <= j < after.len() implies #[trigger] after[j].0 != k by {
                                    if j != i {
                                        assert(after[j] == before[j]);
                                    }
                                }
                                lemma_lookup_absent(after, k);
                            }
                        }
                    }
                },
                None => {
                    assert(after =~= before.push((key, socket)));
                    assert forall|a: int, b: int| 0 <= a < b < after.len() implies after[a].0 != after[b].0 by {
                        if b < before.len() {
                            assert(before[a].0 != before[b].0);
                        }
                    }
                    assert forall|k: Seq<char>| #[trigger] lookup(after, k) == if k == key {
                        Some(socket)
                    } else {
                        lookup(before, k)
                    } by {
                        if k == key {
                            lemma_lookup_at(after, before.len() as int);
                        } else {
                            if exists|j: int| 0 <= j < before.len() && #[trigger] before[j].0 == k {
                                let j = choose|j: int| 0 <= j < before.len() && #[trigger] before[j].0 == k;
                                lemma_lookup_at(before, j);
                                lemma_lookup_at(after, j);
                            } else {
                                assert forall|j: int| 0 <= j < after.len() implies #[trigger] after[j].0 != k by {
                                    if j < before.len() {
                                        assert(after[j] == before[j]);
                                    }
                                }
                                lemma_lookup_absent(after, k);
                            }
                        }
                    }
                },
            }
            let new_log = log.push(Membership::Joined(key));
            assert forall|k: Seq<char>| #[trigger] lookup(after, k) is Some <==> is_member(new_log, k) by {
                assert(new_log.drop_last() =~= log);
                assert(lookup(before, k) is Some <==> is_member(log, k));
            }
        }
        self.channel_sockets = Joined { entries: sockets, log: Ghost(log.push(Membership::Joined(key))) };
    }

    /// Removes and returns the channel socket of `topic`, if it was joined,
    /// and records the leave in the history. The message being handled must
    /// be a leave of `topic`.
    pub fn take_channel_socket(&mut self, topic: &Topic) -> (res: Option<H>)
        requires
            old(self).current() matches Some(m) && m.event == EventView::Leave && m.topic == topic@,
        ensures
            final(self).history() == old(self).history().push(Membership::Left(topic@)),
            res == old(self).channel_socket(topic@),
            forall|k: Seq<char>| #[trigger] final(self).channel_socket(k) == if k == topic@ {
                None
            } else {
                old(self).channel_socket(k)
            },
            final(self).endpoint() == old(self).endpoint(),
            final(self).base() == old(self).base(),
            final(self).current() == old(self).current(),
    {
        proof {
            use_type_invariant(&*self);
        }
        let ghost before = self.joined();
        let ghost log = self.history();
        let ghost key = topic@;
        let ghost new_log = log.push(Membership::Left(key));
        let mut taken = Joined { entries: Vec::new(), log: Ghost(Seq::empty()) };
        let found = self.position(topic);
        std::mem::swap(&mut taken, &mut self.channel_sockets);
        let mut sockets = taken.entries;
        match found {
            Some(i) => {
                let removed = sockets.remove(i);
                let ghost after = sockets@.map_values(|p: (Topic, H)| (p.0@, p.1));
                proof {
                    assert(after =~= before.remove(i as int));
                    lemma_lookup_at(before, i as int);
                    assert forall|a: int, b: int| 0 <= a < b < after.len() implies after[a].0 != after[b].0 by {
                        let a0 = if a < i { a } else { a + 1 };
                        let b0 = if b < i { b } else { b + 1 };
                        assert(after[a] == before[a0]);
                        assert(after[b] == before[b0]);
                        assert(before[a0].0 != before[b0].0);
                    }
                    assert forall|k: Seq<char>| #[trigger] lookup(after, k) == if k == key {
                        None
                    } else {
                        lookup(before, k)
                    } by {
                        if k == key {
                            assert forall|j: int| 0 <= j < after.len() implies #[trigger] after[j].0 != k by {
                                let j0 = if j < i { j } else { j + 1 };
                                assert(after[j] == before[j0]);
                                assert(before[j0].0 != before[i as int].0);
                            }
                            lemma_lookup_absent(after, k);
                        } else {
                            if exists|j: int| 0 <= j < before.len() && #[trigger] before[j].0 == k {
                                let j = choose|j: int| 0 <= j < before.len() && #[trigger] before[j].0 == k;
                                lemma_lookup_at(before, j);
                                let j1 = if j < i { j } else { j - 1 };
                                assert(after[j1] == before[j]);
                                lemma_lookup_at(after, j1);
                            } else {
                                assert forall|j: int| 0 <= j < after.len() implies #[trigger] after[j].0 != k by {
                                    let j0 = if j < i { j } else { j + 1 };
                                    assert(after[j] == before[j0]);
                                }
                                lemma_lookup_absent(after, k);
                            }
                        }
                    }
                    assert forall|k: Seq<char>| #[trigger] lookup(after, k) is Some <==> is_member(new_log, k) by {
                        assert(new_log.drop_last() =~= log);
                        assert(lookup(before, k) is Some <==> is_member(log, k));
                    }
                }
                self.channel_sockets = Joined { entries: sockets, log: Ghost(new_log) };
                Some(removed.1)
            },
            None => {
                proof {
                    lemma_lookup_absent(before, key);
                    assert(sockets@.map_values(|p: (Topic, H)| (p.0@, p.1)) == before);
                    assert forall|k: Seq<char>| #[trigger] lookup(before, k) is Some <==> is_member(new_log, k) by {
                        assert(new_log.drop_last() =~= log);
                        assert(lookup(before, k) is Some <==> is_member(log, k));
                    }
                }
                self.channel_sockets = Joined { entries: sockets, log: Ghost(new_log) };
                None
            },
        }
    }
}

} // verus!
