//! A WebSocket endpoint: its path, the channels it routes topics to, and
//! the hooks it runs when a client connects.
use core::marker::PhantomData;
use serde_json::Value;
use vstd::prelude::*;

use crate::channel::Channel;
use crate::event::{event_of_name, Event};
use crate::message::{BroadcastMessage, BroadcastTarget, Payload};
use crate::text::{opt_view, str_eq};
use crate::topic::{topic_matches, Topic};

verus! {

/// The path under which an endpoint is served.
#[derive(Debug)]
struct Path(String);

/// The position of the first route for exactly `pattern`, if any.
pub open spec fn position_of<C>(routes: Seq<(Seq<char>, C)>, pattern: Seq<char>) -> Option<int>
    decreases routes.len(),
{
    if routes.len() == 0 {
        None
    } else if routes[0].0 == pattern {
        Some(0)
    } else {
        match position_of(routes.drop_first(), pattern) {
            Some(i) => Some(i + 1),
            None => None,
        }
    }
}

/// The position found for a pattern holds exactly that pattern, and none is
/// found only when no route has exactly that pattern.
pub proof fn lemma_position_is_exact<C>(routes: Seq<(Seq<char>, C)>, pattern: Seq<char>)
    ensures
        match position_of(routes, pattern) {
            Some(i) => 0 <= i < routes.len() && routes[i].0 == pattern && forall|j: int|
                0 <= j < i ==> #[trigger] routes[j].0 != pattern,
            None => forall|j: int| 0 <= j < routes.len() ==> #[trigger] routes[j].0 != pattern,
        },
    decreases routes.len(),
{
    if routes.len() > 0 && routes[0].0 != pattern {
        lemma_position_is_exact(routes.drop_first(), pattern);
        assert forall|j: int| 1 <= j < routes.len() implies #[trigger] routes[j] == routes.drop_first()[j - 1] by {}
        match position_of(routes.drop_first(), pattern) {
            Some(i) => {
                assert forall|j: int| 0 <= j < i + 1 implies #[trigger] routes[j].0 != pattern by {
                    if j > 0 {
                        assert(routes[j] == routes.drop_first()[j - 1]);
                    }
                }
            },
            None => {
                assert forall|j: int| 0 <= j < routes.len() implies #[trigger] routes[j].0 != pattern by {
                    if j > 0 {
                        assert(routes[j] == routes.drop_first()[j - 1]);
                    }
                }
            },
        }
    }
}

/// Whether the route at position `i` is the first whose pattern matches `topic`.
pub open spec fn is_first_match<C>(routes: Seq<(Seq<char>, C)>, topic: Seq<char>, i: int) -> bool {
    &&& 0 <= i < routes.len()
    &&& topic_matches(routes[i].0, topic)
    &&& forall|j: int| 0 <= j < i ==> !topic_matches(#[trigger] routes[j].0, topic)
}

/// Whether no two routes have the same pattern.
pub open spec fn patterns_distinct<C>(routes: Seq<(Seq<char>, C)>) -> bool {
    forall|i: int, j: int| 0 <= i < j < routes.len() ==> routes[i].0 != routes[j].0
}

/// The suffix of the route under which an endpoint accepts connections.
pub open spec fn websocket_suffix() -> Seq<char> {
    "/websocket"@
}

/// A WebSocket endpoint. `C` is the type of the channels' handlers, `K` and
/// `I` those of the hooks run on connection, and `T` tells endpoints apart.
pub struct WebSocket<T, C, K, I> {
    path: Path,
    channels: Vec<(Topic, Channel<C>)>,
    connect_callback: Option<K>,
    id_callback: Option<I>,
    _tag: PhantomData<T>,
}

impl<T, C, K, I> WebSocket<T, C, K, I> {
    /// The path of the endpoint.
    pub closed spec fn path_text(&self) -> Seq<char> {
        self.path.0@
    }

    /// The routes of the endpoint, in the order in which their patterns
    /// were first registered.
    pub closed spec fn routes(&self) -> Seq<(Seq<char>, Channel<C>)> {
        self.channels@.map_values(|p: (Topic, Channel<C>)| (p.0@, p.1))
    }

    /// The hook run when a client connects.
    pub closed spec fn connect_hook(&self) -> Option<K> {
        self.connect_callback
    }

    /// The hook that names a connection.
    pub closed spec fn id_hook(&self) -> Option<I> {
        self.id_callback
    }

    /// No pattern is routed twice.
    #[verifier::type_invariant]
    spec fn wf(&self) -> bool {
        patterns_distinct(self.routes())
    }

    /// An endpoint with an empty path, no channels and no hooks.
    pub fn new() -> (res: WebSocket<T, C, K, I>)
        ensures
            res.path_text() == Seq::<char>::empty(),
            res.routes() == Seq::<(Seq<char>, Channel<C>)>::empty(),
            res.connect_hook() is None,
            res.id_hook() is None,
    {
        let res = WebSocket {
            path: Path(String::new()),
            channels: Vec::new(),
            connect_callback: None,
            id_callback: None,
            _tag: PhantomData,
        };
        assert(res.routes() =~= Seq::<(Seq<char>, Channel<C>)>::empty());
        res
    }

    /// Serves the endpoint under `path`.
    pub fn path(self, path: &str) -> (res: WebSocket<T, C, K, I>)
        ensures
            res.path_text() == path@,
            res.routes() == self.routes(),
            res.connect_hook() == self.connect_hook(),
            res.id_hook() == self.id_hook(),
    {
        proof {
            use_type_invariant(&self);
        }
        WebSocket {
            path: Path(path.to_owned()),
            channels: self.channels,
            connect_callback: self.connect_callback,
            id_callback: self.id_callback,
            _tag: PhantomData,
        }
    }

    /// The path of the endpoint.
    pub fn path_str(&self) -> (res: &str)
        ensures
            res@ == self.path_text(),
    {
        self.path.0.as_str()
    }

    /// Routes the topics that `topic` matches to `channel`; a channel routed
    /// under the same pattern before is replaced, in its place.
    pub fn channel(self, topic: &str, channel: Channel<C>) -> (res: WebSocket<T, C, K, I>)
        ensures
            res.routes() == match position_of(self.routes(), topic@) {
                Some(i) => self.routes().update(i, (topic@, channel)),
                None => self.routes().push((topic@, channel)),
            },
            res.path_text() == self.path_text(),
            res.connect_hook() == self.connect_hook(),
            res.id_hook() == self.id_hook(),
            self.routes().len() <= res.routes().len() <= self.routes().len() + 1,
            forall|i: int|
                0 <= i < self.routes().len() && #[trigger] self.routes()[i].0 != topic@ ==> res.routes()[i]
                    == self.routes()[i],
            exists|i: int| 0 <= i < res.routes().len() && #[trigger] res.routes()[i] == (topic@, channel),
    {
        proof {
            use_type_invariant(&self);
            lemma_position_is_exact(self.routes(), topic@);
            match position_of(self.routes(), topic@) {
                Some(i) => {
                    assert(self.routes().update(i, (topic@, channel))[i] == (topic@, channel));
                },
                None => {
                    assert(self.routes().push((topic@, channel))[self.routes().len() as int] == (topic@, channel));
                },
            }
        }
        let ghost routes = self.routes();
        let mut channels = self.channels;
        let mut i: usize = 0;
        proof {
            assert(routes.skip(0) =~= routes);
        }
        while i < channels.len()
            invariant
                routes == channels@.map_values(|p: (Topic, Channel<C>)| (p.0@, p.1)),
                routes == self.routes(),
                patterns_distinct(routes),
                i <= channels@.len(),
                forall|j: int| 0 <= j < i ==> routes[j].0 != topic@,
                position_of(routes, topic@) == match position_of(routes.skip(i as int), topic@) {
                    Some(k) => Some(k + i),
                    None => None,
                },
            decreases channels@.len() - i,
        {
            proof {
                assert(routes.skip(i as int)[0] == routes[i as int]);
                assert(routes.skip(i as int).drop_first() =~= routes.skip(i + 1));
            }
            if str_eq(channels[i].0.as_str(), topic) {
                let replaced = (Topic::new(topic), channel);
                channels.set(i, replaced);
                proof {
                    let new_routes = channels@.map_values(|p: (Topic, Channel<C>)| (p.0@, p.1));
                    assert(routes[i as int].0 == topic@);
                    assert(new_routes =~= routes.update(i as int, (topic@, channel)));
                    assert forall|a: int, b: int| 0 <= a < b < new_routes.len() implies new_routes[a].0
                        != new_routes[b].0 by {
                        assert(routes[a].0 != routes[b].0);
                    }
                    assert(routes.skip(i as int)[0].0 == topic@);
                    assert(position_of(routes.skip(i as int), topic@) == Some(0int));
                    assert(position_of(routes, topic@) == Some(i as int));
                }
                let res = WebSocket {
                    path: self.path,
                    channels,
                    connect_callback: self.connect_callback,
                    id_callback: self.id_callback,
                    _tag: PhantomData,
                };
                proof {
                    assert(res.routes() =~= routes.update(i as int, (topic@, channel)));
                    assert(routes == self.routes());
                    assert(position_of(self.routes(), topic@) == Some(i as int));
                    assert(res.routes()[i as int] == (topic@, channel));
                }
                return res;
            }
            i = i + 1;
        }
        let pair = (Topic::new(topic), channel);
        channels.push(pair);
        proof {
            let new_routes = channels@.map_values(|p: (Topic, Channel<C>)| (p.0@, p.1));
            assert(new_routes =~= routes.push((topic@, channel)));
            assert forall|a: int, b: int| 0 <= a < b < new_routes.len() implies new_routes[a].0
                != new_routes[b].0 by {
                if b < routes.len() {
                    assert(routes[a].0 != routes[b].0);
                }
            }
        }
        let res = WebSocket {
            path: self.path,
            channels,
            connect_callback: self.connect_callback,
            id_callback: self.id_callback,
            _tag: PhantomData,
        };
        proof {
            assert(routes.skip(routes.len() as int) =~= Seq::<(Seq<char>, Channel<C>)>::empty());
            assert(res.routes() =~= routes.push((topic@, channel)));
            assert(res.routes()[routes.len() as int] == (topic@, channel));
        }
        res
    }

    /// The channel of the first route whose pattern matches `topic`.
    pub fn get_channel(&self, topic: &Topic) -> (res: Option<&Channel<C>>)
        ensures
            match res {
                Some(c) => exists|i: int| is_first_match(self.routes(), topic@, i) && *c == #[trigger] self.routes()[i].1,
                None => forall|i: int| 0 <= i < self.routes().len() ==> !topic_matches(#[trigger] self.routes()[i].0, topic@),
            },
    {
        let ghost routes = self.routes();
        let mut i: usize = 0;
        while i < self.channels.len()
            invariant
                routes == self.routes(),
                routes.len() == self.channels@.len(),
                i <= routes.len(),
                forall|j: int| 0 <= j < i ==> !topic_matches(#[trigger] routes[j].0, topic@),
            decreases routes.len() - i,
        {
            proof {
                assert(routes[i as int] == (self.channels@[i as int].0@, self.channels@[i as int].1));
            }
            if self.channels[i].0.is_match(topic) {
                proof {
                    assert(is_first_match(routes, topic@, i as int));
                    assert(self.routes()[i as int].1 == self.channels@[i as int].1);
                }
                return Some(&self.channels[i].1);
            }
            i = i + 1;
        }
        None
    }

    /// Runs `callback` when a client connects.
    pub fn on_connect(self, callback: K) -> (res: WebSocket<T, C, K, I>)
        ensures
            res.connect_hook() == Some(callback),
            res.id_hook() == self.id_hook(),
            res.routes() == self.routes(),
            res.path_text() == self.path_text(),
    {
        proof {
            use_type_invariant(&self);
        }
        WebSocket {
            path: self.path,
            channels: self.channels,
            connect_callback: Some(callback),
            id_callback: self.id_callback,
            _tag: PhantomData,
        }
    }

    /// Names each connection with what `callback` gives.
    pub fn id(self, callback: I) -> (res: WebSocket<T, C, K, I>)
        ensures
            res.id_hook() == Some(callback),
            res.connect_hook() == self.connect_hook(),
            res.routes() == self.routes(),
            res.path_text() == self.path_text(),
    {
        proof {
            use_type_invariant(&self);
        }
        WebSocket {
            path: self.path,
            channels: self.channels,
            connect_callback: self.connect_callback,
            id_callback: Some(callback),
            _tag: PhantomData,
        }
    }

    /// The hook run when a client connects, if any.
    pub fn connect_callback(&self) -> (res: Option<&K>)
        ensures
            match res {
                Some(k) => self.connect_hook() == Some(*k),
                None => self.connect_hook() is None,
            },
    {
        match &self.connect_callback {
            Some(k) => Some(k),
            None => None,
        }
    }

    /// The hook that names a connection, if any.
    pub fn id_callback(&self) -> (res: Option<&I>)
        ensures
            match res {
                Some(i) => self.id_hook() == Some(*i),
                None => self.id_hook() is None,
            },
    {
        match &self.id_callback {
            Some(i) => Some(i),
            None => None,
        }
    }

    /// The route under which the endpoint accepts connections: its path
    /// followed by `/websocket`.
    pub fn route(&self) -> (res: String)
        ensures
            res@ == self.path_text() + websocket_suffix(),
    {
        let mut res = self.path.0.clone();
        res.append("/websocket");
        res
    }

    /// The broadcast of `event` with `payload` to every subscriber of `topic`.
    pub fn broadcast(topic: &str, event: &str, payload: Value) -> (res: BroadcastMessage)
        ensures
            res.topic@ == topic@,
            res.event@ == event_of_name(event@),
            res.payload@ == payload,
            res.from is None,
            res.target == BroadcastTarget::All,
    {
        BroadcastMessage {
            topic: Topic::new(topic),
            event: Event::parse(event),
            payload: Payload(payload),
            from: None,
            target: BroadcastTarget::All,
        }
    }

    /// The broadcast of `event` with `payload` to every subscriber of
    /// `topic` but the connection named `from`.
    pub fn broadcast_from(from: &str, topic: &str, event: &str, payload: Value) -> (res: BroadcastMessage)
        ensures
            res.topic@ == topic@,
            res.event@ == event_of_name(event@),
            res.payload@ == payload,
            opt_view(res.from) == Some(from@),
            res.target == BroadcastTarget::Other,
    {
        BroadcastMessage {
            topic: Topic::new(topic),
            event: Event::parse(event),
            payload: Payload(payload),
            from: Some(from.to_owned()),
            target: BroadcastTarget::Other,
        }
    }
}

} // verus!
