//! A channel: the handlers that the application registered per event, and
//! how their outcomes become replies.
use serde_json::Value;
use vstd::prelude::*;

use crate::event::{error_text, Event, EventView, Status, WsError};
use crate::json::{json_from_opt_string, json_map_insert, json_map_new, json_object, json_of_object, json_of_opt_string, no_members};

verus! {

/// The handlers registered for `event`, in the order of registration.
pub open spec fn handlers_of<C>(entries: Seq<(EventView, C)>, event: EventView) -> Seq<C>
    decreases entries.len(),
{
    if entries.len() == 0 {
        Seq::empty()
    } else {
        let earlier = handlers_of(entries.drop_last(), event);
        if entries.last().0 == event {
            earlier.push(entries.last().1)
        } else {
            earlier
        }
    }
}

/// What running a handler came to: a response to send back, nothing to
/// send back, or a failure with its description.
pub enum Outcome {
    Reply(Value),
    NoReply,
    Failed(String),
}

/// The reply that an outcome asks for, if any.
pub open spec fn reply_of(o: Outcome) -> Option<(Status, Value)> {
    match o {
        Outcome::Reply(v) => Some((Status::Success, v)),
        Outcome::NoReply => None,
        Outcome::Failed(e) => Some((Status::Error, json_of_opt_string(Some(e@)))),
    }
}

/// The replies that a run of handlers asks for, in order.
pub open spec fn replies_of(outcomes: Seq<Outcome>) -> Seq<(Status, Value)>
    decreases outcomes.len(),
{
    if outcomes.len() == 0 {
        Seq::empty()
    } else {
        let earlier = replies_of(outcomes.drop_last());
        match reply_of(outcomes.last()) {
            Some(r) => earlier.push(r),
            None => earlier,
        }
    }
}

/// The replies to consecutive runs of outcomes are the replies to each run,
/// one after the other.
pub proof fn lemma_replies_concat(a: Seq<Outcome>, b: Seq<Outcome>)
    ensures
        replies_of(a + b) == replies_of(a) + replies_of(b),
    decreases b.len(),
{
    if b.len() == 0 {
        assert(a + b =~= a);
        assert(replies_of(a) + replies_of(b) =~= replies_of(a));
    } else {
        lemma_replies_concat(a, b.drop_last());
        assert((a + b).drop_last() =~= a + b.drop_last());
        assert((a + b).last() == b.last());
        let ra = replies_of(a);
        let rb = replies_of(b.drop_last());
        match reply_of(b.last()) {
            Some(r) => {
                assert((ra + rb).push(r) =~= ra + rb.push(r));
            },
            None => {},
        }
    }
}

/// What each single outcome is answered with: a response with a success
/// reply carrying it, a failure with an error reply carrying its
/// description as a JSON string, and no reply at all with nothing.
pub proof fn lemma_reply_per_outcome(v: Value, e: String)
    ensures
        replies_of(seq![Outcome::Reply(v)]) == seq![(Status::Success, v)],
        replies_of(seq![Outcome::Failed(e)]) == seq![(Status::Error, json_of_opt_string(Some(e@)))],
{
    lemma_no_reply_alone();
    let r = seq![Outcome::Reply(v)];
    let f = seq![Outcome::Failed(e)];
    assert(r.drop_last() =~= Seq::<Outcome>::empty());
    assert(f.drop_last() =~= Seq::<Outcome>::empty());
    assert(replies_of(Seq::<Outcome>::empty()) == Seq::<(Status, Value)>::empty());
    assert(r.last() == Outcome::Reply(v));
    assert(f.last() == Outcome::Failed(e));
    assert(Seq::<(Status, Value)>::empty().push((Status::Success, v)) =~= seq![(Status::Success, v)]);
    assert(Seq::<(Status, Value)>::empty().push((Status::Error, json_of_opt_string(Some(e@)))) =~= seq![
        (Status::Error, json_of_opt_string(Some(e@))),
    ]);
}

/// An outcome that asks for no reply, alone, gives no replies.
pub proof fn lemma_no_reply_alone()
    ensures
        replies_of(seq![Outcome::NoReply]) == Seq::<(Status, Value)>::empty(),
{
    let n = seq![Outcome::NoReply];
    assert(n.drop_last() =~= Seq::<Outcome>::empty());
    assert(replies_of(Seq::<Outcome>::empty()) == Seq::<(Status, Value)>::empty());
    assert(n.last() == Outcome::NoReply);
    assert(reply_of(n.last()) is None);
}

/// Outcomes that ask for no reply add nothing: a run of them gives no
/// replies, wherever it stands.
pub proof fn lemma_no_reply_adds_nothing(a: Seq<Outcome>, b: Seq<Outcome>, n: nat)
    ensures
        replies_of(a + Seq::new(n, |i: int| Outcome::NoReply) + b) == replies_of(a + b),
    decreases n,
{
    let none = Seq::new(n, |i: int| Outcome::NoReply);
    if n == 0 {
        assert(a + none =~= a);
    } else {
        let fewer = Seq::new((n - 1) as nat, |i: int| Outcome::NoReply);
        lemma_no_reply_adds_nothing(a, b, (n - 1) as nat);
        assert(none =~= fewer + seq![Outcome::NoReply]);
        assert(a + none + b =~= (a + fewer) + (seq![Outcome::NoReply] + b));
        lemma_replies_concat(a + fewer, seq![Outcome::NoReply] + b);
        lemma_replies_concat(seq![Outcome::NoReply], b);
        lemma_no_reply_alone();
        assert(replies_of(seq![Outcome::NoReply]) + replies_of(b) =~= replies_of(b));
        lemma_replies_concat(a + fewer, b);
        assert((a + fewer) + b =~= a + fewer + b);
    }
}

/// The body `{"reason": <text>}` of a refusal.
pub open spec fn reason_body(reason: Seq<char>) -> Value {
    json_of_object(no_members().insert("reason"@, json_of_opt_string(Some(reason))))
}

/// The body `{"reason": <reason>}`.
pub(crate) fn new_reason_body(reason: String) -> (res: Value)
    ensures
        res == reason_body(reason@),
{
    let mut members = json_map_new();
    json_map_insert(&mut members, "reason".to_owned(), json_from_opt_string(Some(reason)));
    json_object(members)
}

/// The handlers of a channel, per event.
pub struct Channel<C> {
    callbacks: Vec<(Event, C)>,
}

impl<C> Channel<C> {
    /// The registrations of this channel, oldest first.
    pub closed spec fn entries(&self) -> Seq<(EventView, C)> {
        self.callbacks@.map_values(|p: (Event, C)| (p.0@, p.1))
    }

    /// The handlers registered for `event`, in the order of registration.
    pub open spec fn handlers(&self, event: EventView) -> Seq<C> {
        handlers_of(self.entries(), event)
    }

    /// A channel with no handlers.
    pub fn new() -> (res: Channel<C>)
        ensures
            forall|e: EventView| #[trigger] res.handlers(e) == Seq::<C>::empty(),
    {
        let res = Channel { callbacks: Vec::new() };
        assert(res.entries() =~= Seq::<(EventView, C)>::empty());
        res
    }

    /// Registers `callback` for the event named `event`, after the
    /// handlers already registered for it.
    pub fn on(self, event: &str, callback: C) -> (res: Channel<C>)
        ensures
            forall|e: EventView| #[trigger] res.handlers(e) == if e == crate::event::event_of_name(event@) {
                self.handlers(e).push(callback)
            } else {
                self.handlers(e)
            },
    {
        let mut callbacks = self.callbacks;
        let ghost before = callbacks@;
        callbacks.push((Event::parse(event), callback));
        let res = Channel { callbacks };
        proof {
            let old_entries = before.map_values(|p: (Event, C)| (p.0@, p.1));
            assert(res.entries().drop_last() =~= old_entries);
            assert(self.entries() =~= old_entries);
        }
        res
    }

    /// Registers `callback` for the join event.
    pub fn on_join(self, callback: C) -> (res: Channel<C>)
        ensures
            forall|e: EventView| #[trigger] res.handlers(e) == if e == EventView::Join {
                self.handlers(e).push(callback)
            } else {
                self.handlers(e)
            },
    {
        proof {
            reveal_strlit("phx_join");
            assert(crate::event::event_of_name("phx_join"@) == EventView::Join);
        }
        self.on("phx_join", callback)
    }

    /// The handlers registered for `event`, in the order of registration.
    pub fn callbacks_for(&self, event: &Event) -> (res: Vec<&C>)
        ensures
            res@.len() == self.handlers(event@).len(),
            forall|i: int| 0 <= i < res@.len() ==> *#[trigger] res@[i] == self.handlers(event@)[i],
    {
        let mut res: Vec<&C> = Vec::new();
        let mut i: usize = 0;
        let ghost entries = self.entries();
        proof {
            assert(entries.take(0) =~= Seq::<(EventView, C)>::empty());
        }
        while i < self.callbacks.len()
            invariant
                entries == self.entries(),
                entries.len() == self.callbacks@.len(),
                i <= entries.len(),
                res@.len() == handlers_of(entries.take(i as int), event@).len(),
                forall|k: int| 0 <= k < res@.len() ==> *#[trigger] res@[k] == handlers_of(entries.take(i as int), event@)[k],
            decreases entries.len() - i,
        {
            let ghost prev = entries.take(i as int);
            proof {
                assert(entries.take(i + 1).drop_last() =~= prev);
                assert(entries[i as int] == (self.callbacks@[i as int].0@, self.callbacks@[i as int].1));
            }
            let entry = &self.callbacks[i];
            if entry.0.same_as(event) {
                res.push(&entry.1);
            }
            i = i + 1;
        }
        proof {
            assert(entries.take(entries.len() as int) =~= entries);
        }
        res
    }

    /// The first handler registered for `event`, the one that a join runs.
    pub fn run(&self, event: &Event) -> (res: Option<&C>)
        ensures
            match res {
                Some(c) => self.handlers(event@).len() > 0 && *c == self.handlers(event@)[0],
                None => self.handlers(event@).len() == 0,
            },
    {
        let all = self.callbacks_for(event);
        if all.len() == 0 {
            None
        } else {
            Some(all[0])
        }
    }

    /// The handler that a join of this channel runs.
    pub fn join(&self) -> (res: Option<&C>)
        ensures
            match res {
                Some(c) => self.handlers(EventView::Join).len() > 0 && *c == self.handlers(EventView::Join)[0],
                None => self.handlers(EventView::Join).len() == 0,
            },
    {
        self.run(&Event::Join)
    }

    /// The replies to a message of `event`, given the outcomes of running
    /// its handlers in order, one per handler: a refusal
    /// `{"reason": "unmatched event"}` when
    /// no handler is registered for the event, otherwise one reply per
    /// outcome that asks for one, in order.
    pub fn call(&self, event: &Event, outcomes: Vec<Outcome>) -> (res: Vec<(Status, Value)>)
        requires
            self.handlers(event@).len() > 0 ==> outcomes@.len() == self.handlers(event@).len(),
        ensures
            self.handlers(event@).len() == 0 ==> res@ == seq![(Status::Error, reason_body(error_text(WsError::UnmatchedEvent)))],
            self.handlers(event@).len() > 0 ==> res@ == replies_of(outcomes@),
    {
        let registered = self.callbacks_for(event);
        let mut resp: Vec<(Status, Value)> = Vec::new();
        if registered.len() == 0 {
            resp.push((Status::Error, new_reason_body(WsError::UnmatchedEvent.to_string())));
            return resp;
        }
        let mut i: usize = 0;
        proof {
            assert(outcomes@.take(0) =~= Seq::<Outcome>::empty());
        }
        while i < outcomes.len()
            invariant
                i <= outcomes@.len(),
                resp@ == replies_of(outcomes@.take(i as int)),
            decreases outcomes@.len() - i,
        {
            proof {
                assert(outcomes@.take(i + 1).drop_last() =~= outcomes@.take(i as int));
                assert(outcomes@.take(i + 1).last() == outcomes@[i as int]);
            }
            match &outcomes[i] {
                Outcome::Reply(v) => resp.push((Status::Success, v.clone())),
                Outcome::NoReply => {},
                Outcome::Failed(e) => resp.push((Status::Error, json_from_opt_string(Some(e.clone())))),
            }
            i = i + 1;
        }
        proof {
            assert(outcomes@.take(outcomes@.len() as int) =~= outcomes@);
        }
        resp
    }
}

} // verus!
