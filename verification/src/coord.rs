//! A node's coordination layer: who it is, and which handler serves which topic.

use vstd::hash_map::StringHashMap;
use vstd::prelude::*;

verus! {

/// The local node's coordination layer. `H` is what serves a topic.
#[verifier::reject_recursive_types(H)]
pub struct Coord<H> {
    node_id: String,
    /// topic -> handler. Exact-match dispatch; every stream and replica registers its own topic.
    handlers: StringHashMap<H>,
}

/// A coordination layer as a mathematical value.
#[verifier::reject_recursive_types(H)]
pub struct CoordView<H> {
    pub node_id: Seq<char>,
    pub handlers: Map<Seq<char>, H>,
}

impl<H> CoordView<H> {
    /// The coordination layer with `handler` registered for `topic`.
    pub open spec fn registered(self, topic: Seq<char>, handler: H) -> Self {
        CoordView { handlers: self.handlers.insert(topic, handler), ..self }
    }

    /// The handler registered for exactly this topic.
    pub open spec fn handler_of(self, topic: Seq<char>) -> Option<H> {
        if self.handlers.contains_key(topic) {
            Some(self.handlers[topic])
        } else {
            None
        }
    }
}

impl<H> View for Coord<H> {
    type V = CoordView<H>;

    closed spec fn view(&self) -> CoordView<H> {
        CoordView { node_id: self.node_id@, handlers: self.handlers@ }
    }
}

impl<H> Coord<H> {
    /// The coordination layer of the node that reported `node_id`, with nothing registered.
    pub fn with_client(node_id: String) -> (coord: Self)
        ensures
            coord@ == (CoordView { node_id: node_id@, handlers: Map::<Seq<char>, H>::empty() }),
    {
        Coord { node_id, handlers: StringHashMap::new() }
    }

    /// This node's NodeId (hex). Readers need a writer's NodeId to follow its collection.
    pub fn node_id(&self) -> (id: &str)
        ensures
            id@ == self@.node_id,
    {
        self.node_id.as_str()
    }

    /// Registers `handler` for the messages on `topic`. Replaces any prior handler for that topic.
    pub fn register(&mut self, topic: &str, handler: H)
        ensures
            final(self)@ == old(self)@.registered(topic@, handler),
    {
        self.handlers.insert(topic.to_owned(), handler);
    }

    /// The handler registered for `topic`.
    pub fn handler(&self, topic: &str) -> (handler: Option<&H>)
        ensures
            match handler {
                Some(h) => self@.handler_of(topic@) == Some(*h),
                None => self@.handler_of(topic@) is None,
            },
    {
        self.handlers.get(topic)
    }
}

/// A topic is served by whatever was registered for it last, and registering for one topic leaves
/// every other topic as it was.
pub proof fn the_last_registration_counts<H>(
    coord: CoordView<H>,
    topic: Seq<char>,
    first: H,
    second: H,
)
    ensures
        coord.registered(topic, first).registered(topic, second) == coord.registered(topic, second),
        coord.registered(topic, first).handler_of(topic) == Some(first),
        forall|other: Seq<char>|
            other != topic ==> #[trigger] coord.registered(topic, first).handler_of(other)
                == coord.handler_of(other),
{
    assert(coord.handlers.insert(topic, first).insert(topic, second) =~= coord.handlers.insert(
        topic,
        second,
    ));
}

/// A topic that nothing was registered for has no handler, and registering changes nothing but the
/// handlers.
pub proof fn handlers_come_of_registering_alone<H>(
    coord: CoordView<H>,
    topic: Seq<char>,
    handler: H,
)
    ensures
        coord.handler_of(topic) is Some <==> coord.handlers.contains_key(topic),
        coord.handlers == Map::<Seq<char>, H>::empty() ==> coord.handler_of(topic) is None,
        coord.registered(topic, handler).node_id == coord.node_id,
{
}

} // verus!
