use vstd::prelude::*;

use crate::message::{messages_view, Message, MessageView};

verus! {

/// Direction of an entity, with the topic it publishes or consumes.
#[derive(Debug, Hash)]
pub enum Type {
    Writer(String),
    Reader(String),
}

/// A local or advertised writer or reader; compared by its whole structure.
#[derive(Debug, Hash)]
pub struct Entity {
    pub kind: Type,
}

/// The mathematical value of an `Entity`.
pub enum EntityView {
    Writer(Seq<char>),
    Reader(Seq<char>),
}

impl EntityView {
    pub open spec fn topic(self) -> Seq<char> {
        match self {
            EntityView::Writer(t) => t,
            EntityView::Reader(t) => t,
        }
    }

    /// The writer of a reader's topic, and the reader of a writer's topic.
    pub open spec fn reversed(self) -> EntityView {
        match self {
            EntityView::Writer(t) => EntityView::Reader(t),
            EntityView::Reader(t) => EntityView::Writer(t),
        }
    }
}

/// One entity is `Writer(t)` and the other `Reader(t)` for the same `t`.
pub open spec fn complementary(a: EntityView, b: EntityView) -> bool {
    ||| exists|t: Seq<char>| a == EntityView::Writer(t) && b == EntityView::Reader(t)
    ||| exists|t: Seq<char>| a == EntityView::Reader(t) && b == EntityView::Writer(t)
}

/// The views of a sequence of entities, one for one.
pub open spec fn entities_view(v: Seq<Entity>) -> Seq<EntityView> {
    v.map_values(|e: Entity| e@)
}

impl View for Entity {
    type V = EntityView;

    open spec fn view(&self) -> EntityView {
        match &self.kind {
            Type::Writer(t) => EntityView::Writer(t@),
            Type::Reader(t) => EntityView::Reader(t@),
        }
    }
}

impl Entity {
    pub fn new_reader(topic: &str) -> (r: Entity)
        ensures
            r@ == EntityView::Reader(topic@),
    {
        Entity { kind: Type::Reader(topic.to_string()) }
    }

    pub fn new_writer(topic: &str) -> (r: Entity)
        ensures
            r@ == EntityView::Writer(topic@),
    {
        Entity { kind: Type::Writer(topic.to_string()) }
    }

    pub fn reverse(&self) -> (r: Entity)
        ensures
            r@ == self@.reversed(),
    {
        match &self.kind {
            Type::Reader(t) => Entity::new_writer(t.as_str()),
            Type::Writer(t) => Entity::new_reader(t.as_str()),
        }
    }

    /// The topic this entity publishes or consumes.
    pub fn topic(&self) -> (r: &String)
        ensures
            r@ == self@.topic(),
    {
        match &self.kind {
            Type::Reader(t) => t,
            Type::Writer(t) => t,
        }
    }
}

impl Clone for Entity {
    fn clone(&self) -> (r: Self)
        ensures
            r@ == self@,
    {
        match &self.kind {
            Type::Reader(t) => Entity { kind: Type::Reader(t.clone()) },
            Type::Writer(t) => Entity { kind: Type::Writer(t.clone()) },
        }
    }
}

impl PartialEq for Entity {
    fn eq(&self, o: &Entity) -> (r: bool) {
        match (&self.kind, &o.kind) {
            (Type::Writer(a), Type::Writer(b)) => a.eq(b),
            (Type::Reader(a), Type::Reader(b)) => a.eq(b),
            _ => false,
        }
    }
}

impl vstd::std_specs::cmp::PartialEqSpecImpl for Entity {
    open spec fn obeys_eq_spec() -> bool {
        true
    }

    open spec fn eq_spec(&self, o: &Entity) -> bool {
        self@ == o@
    }
}

impl Eq for Entity {
}

/// `Writer(t)` and `Reader(t)` are complementary and each is the other's
/// reverse; entities are complementary exactly when one is the reverse of the
/// other, so a writer and a reader of different topics never are.
pub proof fn lemma_complementary_by_reverse(t: Seq<char>, a: EntityView, b: EntityView)
    ensures
        complementary(EntityView::Writer(t), EntityView::Reader(t)),
        EntityView::Writer(t).reversed() == EntityView::Reader(t),
        EntityView::Reader(t).reversed() == EntityView::Writer(t),
        complementary(a, b) <==> a.reversed() == b,
        forall|t1: Seq<char>, t2: Seq<char>|
            t1 != t2 ==> !#[trigger] complementary(EntityView::Writer(t1), EntityView::Reader(t2)),
{
    assert(EntityView::Writer(t) == EntityView::Writer(t) && EntityView::Reader(t)
        == EntityView::Reader(t));
    if a.reversed() == b {
        match a {
            EntityView::Writer(u) => {
                assert(a == EntityView::Writer(u) && b == EntityView::Reader(u));
            },
            EntityView::Reader(u) => {
                assert(a == EntityView::Reader(u) && b == EntityView::Writer(u));
            },
        }
    }
}

/// Outbound buffer of one local writer: messages queued by the application,
/// in the order they were written, all tagged with the writer's topic.
#[derive(Debug)]
pub struct WriterState {
    message_cache: Vec<Message>,
    topic: String,
}

/// The mathematical value of a `WriterState`.
pub struct WriterView {
    pub topic: Seq<char>,
    pub cache: Seq<MessageView>,
}

impl WriterView {
    /// Every queued message is a data message on the writer's topic.
    pub open spec fn wf(self) -> bool {
        forall|i: int|
            0 <= i < self.cache.len() ==> (#[trigger] self.cache[i] is Topic
                && self.cache[i]->Topic_topic == self.topic)
    }
}

impl View for WriterState {
    type V = WriterView;

    closed spec fn view(&self) -> WriterView {
        WriterView { topic: self.topic@, cache: messages_view(self.message_cache@) }
    }
}

impl WriterState {
    pub fn new(topic: &str) -> (r: WriterState)
        ensures
            r@.topic == topic@,
            r@.cache == Seq::<MessageView>::empty(),
            r@.wf(),
    {
        let r = WriterState { message_cache: Vec::new(), topic: topic.to_string() };
        assert(r@.cache =~= Seq::<MessageView>::empty());
        r
    }

    /// The topic every message of this writer is tagged with.
    pub fn topic(&self) -> (r: &String)
        ensures
            r@ == self@.topic,
    {
        &self.topic
    }

    /// Queues `data` as a message on the writer's topic.
    pub fn write(&mut self, data: &str)
        requires
            old(self)@.wf(),
        ensures
            final(self)@.topic == old(self)@.topic,
            final(self)@.cache == old(self)@.cache.push(
                MessageView::Topic { topic: old(self)@.topic, data: data@ },
            ),
            final(self)@.wf(),
    {
        let m = Message::Topic { topic: self.topic.clone(), data: data.to_string() };
        self.message_cache.push(m);
        assert(self@.cache =~= old(self)@.cache.push(
            MessageView::Topic { topic: old(self)@.topic, data: data@ },
        ));
    }

    /// Drops every queued message.
    pub fn clear(&mut self)
        ensures
            final(self)@.topic == old(self)@.topic,
            final(self)@.cache == Seq::<MessageView>::empty(),
            final(self)@.wf(),
    {
        self.message_cache.clear();
        assert(self@.cache =~= Seq::<MessageView>::empty());
    }

    /// Hands out every queued message, oldest first, and leaves the buffer empty.
    pub fn drain_all(&mut self) -> (r: Vec<Message>)
        ensures
            messages_view(r@) == old(self)@.cache,
            final(self)@.topic == old(self)@.topic,
            final(self)@.cache == Seq::<MessageView>::empty(),
            final(self)@.wf(),
    {
        let mut out: Vec<Message> = Vec::new();
        core::mem::swap(&mut out, &mut self.message_cache);
        assert(self@.cache =~= Seq::<MessageView>::empty());
        out
    }
}

/// Inbound buffer of one local reader: messages delivered to it, in arrival
/// order, until the application pops them.
#[derive(Debug)]
pub struct ReaderState {
    message_cache: Vec<Message>,
}

impl View for ReaderState {
    type V = Seq<MessageView>;

    closed spec fn view(&self) -> Seq<MessageView> {
        messages_view(self.message_cache@)
    }
}

impl ReaderState {
    pub fn new() -> (r: ReaderState)
        ensures
            r@ == Seq::<MessageView>::empty(),
    {
        let r = ReaderState { message_cache: Vec::new() };
        assert(r@ =~= Seq::<MessageView>::empty());
        r
    }

    /// Appends one delivered message.
    pub fn push(&mut self, m: Message)
        ensures
            final(self)@ == old(self)@.push(m@),
    {
        self.message_cache.push(m);
        assert(self@ =~= old(self)@.push(m@));
    }

    /// Returns every delivered message, oldest first, and empties the buffer:
    /// each message reaches the application at most once.
    pub fn pop(&mut self) -> (r: Vec<Message>)
        ensures
            messages_view(r@) == old(self)@,
            final(self)@ == Seq::<MessageView>::empty(),
    {
        let mut out: Vec<Message> = Vec::new();
        core::mem::swap(&mut out, &mut self.message_cache);
        assert(self@ =~= Seq::<MessageView>::empty());
        out
    }
}

} // verus!
