use vstd::prelude::*;

use crate::text::str_eq;

verus! {

/// What a message asks for, as the library sees it.
pub enum EventView {
    Join,
    Leave,
    Close,
    Reply,
    Heartbeat,
    Custom(Seq<char>),
}

/// The event of a message: one of the reserved events of the protocol, or
/// an event named by the application.
#[derive(Debug, PartialEq, Eq, Hash, Clone)]
pub enum Event {
    Join,
    Leave,
    Close,
    Reply,
    Heartbeat,
    Custom(String),
}

impl View for Event {
    type V = EventView;

    open spec fn view(&self) -> EventView {
        match self {
            Event::Join => EventView::Join,
            Event::Leave => EventView::Leave,
            Event::Close => EventView::Close,
            Event::Reply => EventView::Reply,
            Event::Heartbeat => EventView::Heartbeat,
            Event::Custom(name) => EventView::Custom(name@),
        }
    }
}

/// The wire name of the join event.
pub open spec fn join_name() -> Seq<char> {
    "phx_join"@
}

/// The wire name of the leave event.
pub open spec fn leave_name() -> Seq<char> {
    "phx_leave"@
}

/// The wire name of the close event.
pub open spec fn close_name() -> Seq<char> {
    "phx_close"@
}

/// The wire name of the reply event.
pub open spec fn reply_name() -> Seq<char> {
    "phx_reply"@
}

/// The wire name of the heartbeat event.
pub open spec fn heartbeat_name() -> Seq<char> {
    "heartbeat"@
}

/// Whether `name` is the wire name of one of the reserved events.
pub open spec fn is_reserved_name(name: Seq<char>) -> bool {
    name == join_name() || name == leave_name() || name == close_name() || name == reply_name()
        || name == heartbeat_name()
}

/// The event that a wire name stands for.
pub open spec fn event_of_name(name: Seq<char>) -> EventView {
    if name == join_name() {
        EventView::Join
    } else if name == leave_name() {
        EventView::Leave
    } else if name == close_name() {
        EventView::Close
    } else if name == reply_name() {
        EventView::Reply
    } else if name == heartbeat_name() {
        EventView::Heartbeat
    } else {
        EventView::Custom(name)
    }
}

/// The wire name of an event.
pub open spec fn event_name(e: EventView) -> Seq<char> {
    match e {
        EventView::Join => join_name(),
        EventView::Leave => leave_name(),
        EventView::Close => close_name(),
        EventView::Reply => reply_name(),
        EventView::Heartbeat => heartbeat_name(),
        EventView::Custom(name) => name,
    }
}

/// Whether the event is written the one way the protocol reads it back: an
/// application event must not borrow the name of a reserved one.
pub open spec fn is_canonical(e: EventView) -> bool {
    match e {
        EventView::Custom(name) => !is_reserved_name(name),
        _ => true,
    }
}

/// Reading the name of an event gives back a name's event: every wire name
/// survives being read as an event and written out again.
pub proof fn lemma_name_of_parsed(name: Seq<char>)
    ensures
        event_name(event_of_name(name)) == name,
{
}

/// Writing an event's name and reading it back gives the event, for every
/// event that is written the one way the protocol reads it back.
pub proof fn lemma_parse_of_name(e: EventView)
    requires
        is_canonical(e),
    ensures
        event_of_name(event_name(e)) == e,
{
    reveal_strlit("phx_join");
    reveal_strlit("phx_leave");
    reveal_strlit("phx_close");
    reveal_strlit("phx_reply");
    reveal_strlit("heartbeat");
    assert(join_name().len() == 8);
    assert(leave_name().len() == 9 && close_name().len() == 9 && reply_name().len() == 9);
    assert(heartbeat_name().len() == 9);
    assert(leave_name()[4] == 'l' && close_name()[4] == 'c' && reply_name()[4] == 'r');
    assert(heartbeat_name()[0] == 'h' && leave_name()[0] == 'p');
    assert(join_name() != leave_name() && join_name() != close_name() && join_name() != reply_name()
        && join_name() != heartbeat_name());
    assert(leave_name() != close_name() && leave_name() != reply_name() && leave_name()
        != heartbeat_name());
    assert(close_name() != reply_name() && close_name() != heartbeat_name());
    assert(reply_name() != heartbeat_name());
}

impl Event {
    /// The event that the wire name `s` stands for.
    pub fn parse(s: &str) -> (res: Event)
        ensures
            res@ == event_of_name(s@),
    {
        if str_eq(s, "phx_join") {
            Event::Join
        } else if str_eq(s, "phx_leave") {
            Event::Leave
        } else if str_eq(s, "phx_close") {
            Event::Close
        } else if str_eq(s, "phx_reply") {
            Event::Reply
        } else if str_eq(s, "heartbeat") {
            Event::Heartbeat
        } else {
            Event::Custom(s.to_owned())
        }
    }

    /// The wire name of this event.
    pub fn name(&self) -> (res: String)
        ensures
            res@ == event_name(self@),
    {
        match self {
            Event::Join => "phx_join".to_owned(),
            Event::Leave => "phx_leave".to_owned(),
            Event::Close => "phx_close".to_owned(),
            Event::Reply => "phx_reply".to_owned(),
            Event::Heartbeat => "heartbeat".to_owned(),
            Event::Custom(name) => name.clone(),
        }
    }

    /// A copy of this event.
    pub fn duplicate(&self) -> (res: Event)
        ensures
            res@ == self@,
    {
        match self {
            Event::Join => Event::Join,
            Event::Leave => Event::Leave,
            Event::Close => Event::Close,
            Event::Reply => Event::Reply,
            Event::Heartbeat => Event::Heartbeat,
            Event::Custom(name) => Event::Custom(name.clone()),
        }
    }

    /// Whether the two events are the same.
    pub fn same_as(&self, other: &Event) -> (res: bool)
        ensures
            res == (self@ == other@),
    {
        match (self, other) {
            (Event::Join, Event::Join) => true,
            (Event::Leave, Event::Leave) => true,
            (Event::Close, Event::Close) => true,
            (Event::Reply, Event::Reply) => true,
            (Event::Heartbeat, Event::Heartbeat) => true,
            (Event::Custom(a), Event::Custom(b)) => str_eq(a.as_str(), b.as_str()),
            _ => false,
        }
    }
}

impl<'a> From<&'a str> for Event {
    fn from(s: &'a str) -> (res: Event)
        ensures
            res@ == event_of_name(s@),
    {
        Event::parse(s)
    }
}

impl<'a> vstd::std_specs::convert::FromSpecImpl<&'a str> for Event {
    open spec fn obeys_from_spec() -> bool {
        false
    }

    open spec fn from_spec(s: &'a str) -> Event {
        arbitrary()
    }
}

/// The outcome that a reply reports.
#[derive(Debug, Clone, Copy, PartialEq, Eq, Structural)]
pub enum Status {
    Success,
    Error,
}

/// The wire name of a status.
pub open spec fn status_name(s: Status) -> Seq<char> {
    match s {
        Status::Success => "ok"@,
        Status::Error => "error"@,
    }
}

/// The status that a wire name stands for, where it stands for one.
pub open spec fn status_of_name(name: Seq<char>) -> Option<Status> {
    if name == "ok"@ {
        Some(Status::Success)
    } else if name == "error"@ {
        Some(Status::Error)
    } else {
        None
    }
}

/// Reading a status's name gives back the status.
pub proof fn lemma_status_round_trip(s: Status)
    ensures
        status_of_name(status_name(s)) == Some(s),
{
    reveal_strlit("ok");
    reveal_strlit("error");
    assert("ok"@.len() == 2 && "error"@.len() == 5);
}

impl Status {
    /// The wire name of this status: `ok` or `error`.
    pub fn to_string(&self) -> (res: String)
        ensures
            res@ == status_name(*self),
    {
        match self {
            Status::Success => "ok".to_owned(),
            Status::Error => "error".to_owned(),
        }
    }

    /// The status named `s`, which must be `ok` or `error`.
    pub fn from_name(s: &str) -> (res: Status)
        requires
            status_of_name(s@) is Some,
        ensures
            status_of_name(s@) == Some(res),
    {
        if str_eq(s, "ok") {
            Status::Success
        } else {
            Status::Error
        }
    }
}

/// Why a request could not be routed.
#[derive(Debug, Clone, Copy, PartialEq, Eq, Structural)]
pub enum WsError {
    UnmatchedTopic,
    UnmatchedEvent,
}

/// The text that describes an error.
pub open spec fn error_text(e: WsError) -> Seq<char> {
    match e {
        WsError::UnmatchedTopic => "unmatched topic"@,
        WsError::UnmatchedEvent => "unmatched event"@,
    }
}

impl WsError {
    /// The text that describes this error.
    pub fn to_string(&self) -> (res: String)
        ensures
            res@ == error_text(*self),
    {
        match self {
            WsError::UnmatchedTopic => "unmatched topic".to_owned(),
            WsError::UnmatchedEvent => "unmatched event".to_owned(),
        }
    }
}

} // verus!
