//! The messages of the protocol and their wire format: a JSON array
//! `[join_ref, message_ref, topic, event, payload]`.
use serde_json::Value;
use vstd::prelude::*;

use crate::event::{event_name, event_of_name, is_canonical, status_name, Event, EventView, Status};
use crate::json::{
    json_as_str, json_from_array, json_from_opt_string, json_map_insert, json_map_new,
    json_object, json_of_array, json_of_object, json_of_opt_string, json_str, json_text,
    json_to_text, no_members, parse_json_array, parsed_json_array,
};
use crate::text::{clone_opt_string, opt_view};
use crate::topic::Topic;

verus! {

/// The body of a message: any JSON value.
#[derive(Debug, PartialEq, Clone)]
pub struct Payload(pub Value);

impl View for Payload {
    type V = Value;

    open spec fn view(&self) -> Value {
        self.0
    }
}

/// The body of a reply: `{"status": <status>, "response": <response>}`.
pub open spec fn reply_body(status: Status, response: Value) -> Value {
    json_of_object(
        no_members().insert("status"@, json_of_opt_string(Some(status_name(status)))).insert(
            "response"@,
            response,
        ),
    )
}

/// The empty JSON object `{}`.
pub open spec fn empty_object() -> Value {
    json_of_object(no_members())
}

/// An empty JSON object.
pub(crate) fn new_empty_object() -> (res: Value)
    ensures
        res == empty_object(),
{
    json_object(json_map_new())
}

impl Payload {
    /// The body of a reply that reports `status` and carries `response`.
    pub fn new(status: Status, response: Value) -> (res: Payload)
        ensures
            res@ == reply_body(status, response),
    {
        let mut members = json_map_new();
        json_map_insert(&mut members, "status".to_owned(), json_from_opt_string(Some(status.to_string())));
        json_map_insert(&mut members, "response".to_owned(), response);
        Payload(json_object(members))
    }

    /// The empty body `{}`.
    pub fn empty() -> (res: Payload)
        ensures
            res@ == empty_object(),
    {
        Payload(new_empty_object())
    }

    /// A copy of this body.
    pub fn duplicate(&self) -> (res: Payload)
        ensures
            res@ == self@,
    {
        Payload(self.0.clone())
    }
}

impl Default for Payload {
    /// A successful reply with an empty response.
    fn default() -> (res: Payload)
        ensures
            res@ == reply_body(Status::Success, empty_object()),
    {
        Payload::new(Status::Success, new_empty_object())
    }
}

impl From<Value> for Payload {
    fn from(value: Value) -> (res: Payload) {
        Payload(value)
    }
}

impl vstd::std_specs::convert::FromSpecImpl<Value> for Payload {
    open spec fn obeys_from_spec() -> bool {
        true
    }

    open spec fn from_spec(value: Value) -> Payload {
        Payload(value)
    }
}

impl From<Payload> for Value {
    fn from(payload: Payload) -> (res: Value) {
        payload.0
    }
}

impl vstd::std_specs::convert::FromSpecImpl<Payload> for Value {
    open spec fn obeys_from_spec() -> bool {
        true
    }

    open spec fn from_spec(payload: Payload) -> Value {
        payload.0
    }
}

impl core::ops::Deref for Payload {
    type Target = Value;

    fn deref(&self) -> (res: &Value)
        ensures
            *res == self.0,
    {
        &self.0
    }
}

impl From<Topic> for Value {
    /// The JSON string of the topic.
    fn from(topic: Topic) -> (res: Value) {
        json_from_opt_string(Some(topic.0))
    }
}

impl vstd::std_specs::convert::FromSpecImpl<Topic> for Value {
    open spec fn obeys_from_spec() -> bool {
        true
    }

    open spec fn from_spec(topic: Topic) -> Value {
        json_of_opt_string(Some(topic@))
    }
}

impl From<Event> for Value {
    /// The JSON string of the event's wire name.
    fn from(event: Event) -> (res: Value) {
        json_from_opt_string(Some(event.name()))
    }
}

impl vstd::std_specs::convert::FromSpecImpl<Event> for Value {
    open spec fn obeys_from_spec() -> bool {
        true
    }

    open spec fn from_spec(event: Event) -> Value {
        json_of_opt_string(Some(event_name(event@)))
    }
}

/// A message as the library sees it.
pub struct MessageView {
    pub join_ref: Option<Seq<char>>,
    pub message_ref: Option<Seq<char>>,
    pub topic: Seq<char>,
    pub event: EventView,
    pub payload: Value,
}

/// A message between a client and the server.
#[derive(Debug, Clone)]
pub struct Message {
    pub join_ref: Option<String>,
    pub message_ref: Option<String>,
    pub topic: Topic,
    pub event: Event,
    pub payload: Payload,
}

impl View for Message {
    type V = MessageView;

    open spec fn view(&self) -> MessageView {
        MessageView {
            join_ref: opt_view(self.join_ref),
            message_ref: opt_view(self.message_ref),
            topic: self.topic@,
            event: self.event@,
            payload: self.payload@,
        }
    }
}

/// The message that the five elements of a frame stand for: the references
/// may be anything (only strings count), the topic and the event must be
/// strings, and the payload is taken as it is.
pub open spec fn decode_items(items: Seq<Value>) -> Option<MessageView> {
    if items.len() != 5 {
        None
    } else {
        match (json_str(items[2]), json_str(items[3])) {
            (Some(topic), Some(event)) => Some(
                MessageView {
                    join_ref: json_str(items[0]),
                    message_ref: json_str(items[1]),
                    topic: topic,
                    event: event_of_name(event),
                    payload: items[4],
                },
            ),
            _ => None,
        }
    }
}

/// The message that a text frame stands for, if it stands for one.
pub open spec fn decode_text(text: Seq<char>) -> Option<MessageView> {
    match parsed_json_array(text) {
        Some(items) => decode_items(items),
        None => None,
    }
}

/// The five elements that a message is written as.
pub open spec fn encode_items(m: MessageView) -> Seq<Value> {
    seq![
        json_of_opt_string(m.join_ref),
        json_of_opt_string(m.message_ref),
        json_of_opt_string(Some(m.topic)),
        json_of_opt_string(Some(event_name(m.event))),
        m.payload,
    ]
}

/// The JSON array that a message is written as.
pub open spec fn encode_value(m: MessageView) -> Value {
    json_of_array(encode_items(m))
}

impl Message {
    /// The message that the elements of a frame stand for; fails unless
    /// there are exactly five and the topic and the event are strings.
    pub fn from_items(items: &Vec<Value>) -> (res: Result<Message, ()>)
        ensures
            match res {
                Ok(m) => decode_items(items@) == Some(m@),
                Err(_) => decode_items(items@) is None,
            },
    {
        if items.len() != 5 {
            return Err(());
        }
        let join_ref = json_as_str(&items[0]);
        let message_ref = json_as_str(&items[1]);
        let topic = match json_as_str(&items[2]) {
            Some(t) => t,
            None => {
                return Err(());
            },
        };
        let event = match json_as_str(&items[3]) {
            Some(e) => e,
            None => {
                return Err(());
            },
        };
        let payload = Payload(items[4].clone());
        Ok(
            Message {
                join_ref,
                message_ref,
                topic: Topic(topic),
                event: Event::parse(event.as_str()),
                payload,
            },
        )
    }

    /// The elements that this message is written as. Reading them back
    /// gives this message again whenever its event is written the one way
    /// the protocol reads it back.
    pub fn to_items(&self) -> (res: Vec<Value>)
        ensures
            res@ == encode_items(self@),
            is_canonical(self@.event) ==> decode_items(res@) == Some(self@),
    {
        let mut items: Vec<Value> = Vec::new();
        items.push(json_from_opt_string(clone_opt_string(&self.join_ref)));
        items.push(json_from_opt_string(clone_opt_string(&self.message_ref)));
        items.push(json_from_opt_string(Some(self.topic.0.clone())));
        items.push(json_from_opt_string(Some(self.event.name())));
        items.push(self.payload.0.clone());
        proof {
            assert(items@ =~= encode_items(self@));
            if is_canonical(self@.event) {
                crate::event::lemma_parse_of_name(self@.event);
            }
        }
        items
    }

    /// The JSON array that this message is written as.
    pub fn to_value(&self) -> (res: Value)
        ensures
            res == encode_value(self@),
    {
        json_from_array(self.to_items())
    }

    /// The text frame that this message is sent as.
    pub fn encode(&self) -> (res: String)
        ensures
            res@ == json_text(encode_value(self@)),
    {
        json_to_text(&self.to_value())
    }

    /// A copy of this message.
    pub fn duplicate(&self) -> (res: Message)
        ensures
            res@ == self@,
    {
        Message {
            join_ref: clone_opt_string(&self.join_ref),
            message_ref: clone_opt_string(&self.message_ref),
            topic: self.topic.duplicate(),
            event: self.event.duplicate(),
            payload: self.payload.duplicate(),
        }
    }

    /// The join reference of this message.
    pub fn join_ref(&self) -> (res: Option<String>)
        ensures
            opt_view(res) == self@.join_ref,
    {
        clone_opt_string(&self.join_ref)
    }

    /// The message reference of this message.
    pub fn message_ref(&self) -> (res: Option<String>)
        ensures
            opt_view(res) == self@.message_ref,
    {
        clone_opt_string(&self.message_ref)
    }

    /// The topic of this message.
    pub fn topic(&self) -> (res: Topic)
        ensures
            res@ == self@.topic,
    {
        self.topic.duplicate()
    }
}

impl TryFrom<String> for Message {
    type Error = ();

    /// Reads a text frame: it must be a JSON array of five elements whose
    /// topic and event are strings.
    fn try_from(value: String) -> (res: Result<Message, ()>)
        ensures
            match res {
                Ok(m) => decode_text(value@) == Some(m@),
                Err(_) => decode_text(value@) is None,
            },
    {
        match parse_json_array(value.as_str()) {
            Some(items) => Message::from_items(&items),
            None => Err(()),
        }
    }
}

impl vstd::std_specs::convert::TryFromSpecImpl<String> for Message {
    open spec fn obeys_try_from_spec() -> bool {
        false
    }

    open spec fn try_from_spec(value: String) -> Result<Message, ()> {
        arbitrary()
    }
}

impl From<Message> for Value {
    fn from(message: Message) -> (res: Value) {
        message.to_value()
    }
}

impl vstd::std_specs::convert::FromSpecImpl<Message> for Value {
    open spec fn obeys_from_spec() -> bool {
        true
    }

    open spec fn from_spec(message: Message) -> Value {
        encode_value(message@)
    }
}

/// Who a broadcast goes to: every subscriber of the topic, or every one
/// but the sender.
#[derive(Debug, Clone, Copy, PartialEq, Eq, Structural)]
pub enum BroadcastTarget {
    All,
    Other,
}

/// A message that goes out to every connection subscribed to its topic.
#[derive(Debug, Clone)]
pub struct BroadcastMessage {
    pub topic: Topic,
    pub event: Event,
    pub payload: Payload,
    pub from: Option<String>,
    pub target: BroadcastTarget,
}

impl BroadcastMessage {
    /// The message that a subscriber receives.
    pub open spec fn into_message_spec(self) -> Message {
        Message {
            join_ref: None,
            message_ref: None,
            topic: self.topic,
            event: self.event,
            payload: self.payload,
        }
    }

    /// The message that a subscriber receives: no references, the topic,
    /// event and payload of the broadcast.
    pub fn into_message(self) -> (res: Message)
        ensures
            res == self.into_message_spec(),
            res.join_ref is None,
            res.message_ref is None,
            res.topic == self.topic,
            res.event == self.event,
            res.payload == self.payload,
    {
        Message {
            join_ref: None,
            message_ref: None,
            topic: self.topic,
            event: self.event,
            payload: self.payload,
        }
    }
}

/// What a subscriber receives of a broadcast carries no references, and the
/// broadcast's topic, event and payload.
pub proof fn lemma_broadcast_received_without_references(b: BroadcastMessage)
    ensures
        b.into_message_spec().join_ref is None,
        b.into_message_spec().message_ref is None,
        b.into_message_spec().topic == b.topic,
        b.into_message_spec().event == b.event,
        b.into_message_spec().payload == b.payload,
{
}

impl From<BroadcastMessage> for Message {
    fn from(message: BroadcastMessage) -> (res: Message) {
        message.into_message()
    }
}

impl vstd::std_specs::convert::FromSpecImpl<BroadcastMessage> for Message {
    open spec fn obeys_from_spec() -> bool {
        true
    }

    open spec fn from_spec(message: BroadcastMessage) -> Message {
        message.into_message_spec()
    }
}

} // verus!
