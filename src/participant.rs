use vstd::prelude::*;

use crate::domain::{NetworkConfig, PeerAddr};
use crate::entity::{entities_view, Entity, EntityView, ReaderState, WriterState, WriterView};
use crate::message::{messages_view, Message, MessageView};

verus! {

/// The full advertised entity set of one peer.
#[derive(Debug)]
pub struct RemoteParticipant {
    pub entities: Vec<Entity>,
}

impl View for RemoteParticipant {
    type V = Seq<EntityView>;

    open spec fn view(&self) -> Seq<EntityView> {
        entities_view(self.entities@)
    }
}

impl RemoteParticipant {
    pub fn duplicate(&self) -> (r: RemoteParticipant)
        ensures
            r@ == self@,
    {
        let mut entities: Vec<Entity> = Vec::new();
        let mut i: usize = 0;
        while i < self.entities.len()
            invariant
                i <= self.entities.len(),
                entities@.len() == i,
                forall|j: int| 0 <= j < i ==> #[trigger] entities@[j]@ == self.entities@[j]@,
            decreases self.entities.len() - i,
        {
            entities.push(self.entities[i].clone());
            i += 1;
        }
        let r = RemoteParticipant { entities };
        assert(r@ =~= self@);
        r
    }
}

impl Clone for RemoteParticipant {
    fn clone(&self) -> (r: Self)
        ensures
            r@ == self@,
    {
        self.duplicate()
    }
}

/// The mathematical value of one local reader: its topic and what has been
/// delivered to it and not yet popped.
pub struct ReaderView {
    pub topic: Seq<char>,
    pub buffer: Seq<MessageView>,
}

/// The mathematical value of a participant.
pub struct ParticipantView {
    /// Known peers with the entities each last advertised, in the order they
    /// were first heard from since the last clear.
    pub peers: Seq<(PeerAddr, Seq<EntityView>)>,
    /// Local writers, in registration order.
    pub writers: Seq<WriterView>,
    /// Local readers, in registration order.
    pub readers: Seq<ReaderView>,
    /// When the peer registry was last emptied, in milliseconds.
    pub last_clear: u64,
    /// How long the registry is kept without being emptied, in milliseconds.
    pub peer_ttl: u64,
}

/// No two records of the registry share an address.
pub open spec fn unique_keys(peers: Seq<(PeerAddr, Seq<EntityView>)>) -> bool {
    forall|i: int, j: int|
        0 <= i < j < peers.len() ==> #[trigger] peers[i].0 != #[trigger] peers[j].0
}

impl ParticipantView {
    pub open spec fn wf(self) -> bool {
        &&& unique_keys(self.peers)
        &&& forall|i: int| 0 <= i < self.writers.len() ==> #[trigger] self.writers[i].wf()
    }

    /// Every local entity: writers first, then readers, one entry per
    /// registration.
    pub open spec fn local_entities(self) -> Seq<EntityView> {
        self.writers.map_values(|w: WriterView| EntityView::Writer(w.topic))
            + self.readers.map_values(|r: ReaderView| EntityView::Reader(r.topic))
    }

    /// At time `now` more than the time-to-live has passed since the last clear.
    pub open spec fn expired(self, now: u64) -> bool {
        now >= self.last_clear && now - self.last_clear > self.peer_ttl
    }
}

/// The registry after `a` announced `es`: its record is replaced in place,
/// or a new record is added at the end.
pub open spec fn upsert(
    peers: Seq<(PeerAddr, Seq<EntityView>)>,
    a: PeerAddr,
    es: Seq<EntityView>,
) -> Seq<(PeerAddr, Seq<EntityView>)> {
    if exists|i: int| 0 <= i < peers.len() && #[trigger] peers[i].0 == a {
        let i = choose|i: int| 0 <= i < peers.len() && #[trigger] peers[i].0 == a;
        peers.update(i, (a, es))
    } else {
        peers.push((a, es))
    }
}

/// The first peer of the registry that advertised `wanted`, if any.
pub open spec fn first_subscriber(
    peers: Seq<(PeerAddr, Seq<EntityView>)>,
    wanted: EntityView,
) -> Option<PeerAddr>
    decreases peers.len(),
{
    if peers.len() == 0 {
        None
    } else if peers[0].1.contains(wanted) {
        Some(peers[0].0)
    } else {
        first_subscriber(peers.drop_first(), wanted)
    }
}

/// Each message paired with the destination `a`.
pub open spec fn addressed(a: PeerAddr, ms: Seq<MessageView>) -> Seq<(PeerAddr, MessageView)> {
    ms.map_values(|m: MessageView| (a, m))
}

/// What one writer's buffer turns into: all of it, in order, to the first
/// peer that advertised the reader of its topic; nothing if there is none.
pub open spec fn batch(
    peers: Seq<(PeerAddr, Seq<EntityView>)>,
    w: WriterView,
) -> Seq<(PeerAddr, MessageView)> {
    match first_subscriber(peers, EntityView::Reader(w.topic)) {
        Some(a) => addressed(a, w.cache),
        None => Seq::empty(),
    }
}

/// A writer with its buffer emptied.
pub open spec fn drained(w: WriterView) -> WriterView {
    WriterView { topic: w.topic, cache: Seq::empty() }
}

/// The batches of all writers, in writer order.
pub open spec fn outbound(
    peers: Seq<(PeerAddr, Seq<EntityView>)>,
    ws: Seq<WriterView>,
) -> Seq<(PeerAddr, MessageView)>
    decreases ws.len(),
{
    if ws.len() == 0 {
        Seq::empty()
    } else {
        outbound(peers, ws.drop_last()) + batch(peers, ws.last())
    }
}

/// One reader after `m` arrived: a data message on its topic is appended.
pub open spec fn deliver_one(r: ReaderView, m: MessageView) -> ReaderView {
    if m is Topic && m->Topic_topic == r.topic {
        ReaderView { topic: r.topic, buffer: r.buffer.push(m) }
    } else {
        r
    }
}

/// The readers after `m` arrived: a data message is appended to every reader
/// of its topic; an announcement changes nothing.
pub open spec fn deliver(readers: Seq<ReaderView>, m: MessageView) -> Seq<ReaderView> {
    readers.map_values(|r: ReaderView| deliver_one(r, m))
}

/// The readers after each of `ms` arrived, in order.
pub open spec fn deliver_all(readers: Seq<ReaderView>, ms: Seq<MessageView>) -> Seq<ReaderView>
    decreases ms.len(),
{
    if ms.len() == 0 {
        readers
    } else {
        deliver(deliver_all(readers, ms.drop_last()), ms.last())
    }
}

/// The views of addressed messages, one for one.
pub open spec fn outgoing_view(v: Seq<(PeerAddr, Message)>) -> Seq<(PeerAddr, MessageView)> {
    v.map_values(|p: (PeerAddr, Message)| (p.0, p.1@))
}

pub open spec fn peers_view(v: Seq<(PeerAddr, RemoteParticipant)>) -> Seq<
    (PeerAddr, Seq<EntityView>),
> {
    v.map_values(|p: (PeerAddr, RemoteParticipant)| (p.0, p.1@))
}

pub open spec fn writers_view(v: Seq<(Entity, WriterState)>) -> Seq<WriterView> {
    v.map_values(|w: (Entity, WriterState)| w.1@)
}

pub open spec fn readers_view(v: Seq<(Entity, ReaderState)>) -> Seq<ReaderView> {
    v.map_values(|r: (Entity, ReaderState)| ReaderView { topic: r.0@.topic(), buffer: r.1@ })
}

/// Does `entities` hold `wanted`?
fn advertises(entities: &Vec<Entity>, wanted: &Entity) -> (r: bool)
    ensures
        r == entities_view(entities@).contains(wanted@),
{
    let mut i: usize = 0;
    while i < entities.len()
        invariant
            i <= entities.len(),
            forall|j: int| 0 <= j < i ==> #[trigger] entities@[j]@ != wanted@,
        decreases entities.len() - i,
    {
        if entities[i] == *wanted {
            assert(entities_view(entities@)[i as int] == wanted@);
            return true;
        }
        i += 1;
    }
    assert forall|j: int| 0 <= j < entities_view(entities@).len() implies #[trigger] entities_view(
        entities@,
    )[j] != wanted@ by {
        assert(entities@[j]@ != wanted@);
    }
    false
}

/// Appends each of `msgs`, in order, addressed to `a`.
fn append_addressed(out: &mut Vec<(PeerAddr, Message)>, a: PeerAddr, msgs: &Vec<Message>)
    ensures
        outgoing_view(final(out)@) == outgoing_view(old(out)@) + addressed(a, messages_view(msgs@)),
{
    let ghost start = outgoing_view(old(out)@);
    let ghost ms = messages_view(msgs@);
    let base = out.len();
    let mut k: usize = 0;
    while k < msgs.len()
        invariant
            k <= msgs.len(),
            base == start.len(),
            ms == messages_view(msgs@),
            out@.len() == base + k,
            forall|j: int| 0 <= j < base ==> #[trigger] outgoing_view(out@)[j] == start[j],
            forall|j: int|
                0 <= j < k ==> #[trigger] outgoing_view(out@)[base + j] == (a, ms[j]),
        decreases msgs.len() - k,
    {
        let m = msgs[k].clone();
        assert(m@ == ms[k as int]);
        let ghost prev = out@;
        out.push((a, m));
        k += 1;
        assert forall|j: int| 0 <= j < k implies #[trigger] outgoing_view(out@)[base + j] == (
            a,
            ms[j],
        ) by {
            assert(outgoing_view(out@)[base + j] == (out@[base + j].0, out@[base + j].1@));
            if j < k - 1 {
                assert(out@[base + j] == prev[base + j]);
                assert(outgoing_view(prev)[base + j] == (prev[base + j].0, prev[base + j].1@));
            }
        }
        assert forall|j: int| 0 <= j < base implies #[trigger] outgoing_view(out@)[j] == start[j] by {
            assert(out@[j] == prev[j]);
            assert(outgoing_view(prev)[j] == (prev[j].0, prev[j].1@));
            assert(outgoing_view(out@)[j] == (out@[j].0, out@[j].1@));
        }
    }
    assert(outgoing_view(out@) =~= start + addressed(a, ms)) by {
        assert forall|j: int| 0 <= j < outgoing_view(out@).len() implies #[trigger] outgoing_view(
            out@,
        )[j] == (start + addressed(a, ms))[j] by {
            if j >= base {
                assert(outgoing_view(out@)[base + (j - base)] == (a, ms[j - base]));
            }
        }
    }
}

/// A participant: its local writers and readers, and the registry of peers
/// heard from on the discovery channel. It does no I/O itself: the caller
/// hands it what arrived and sends what it returns.
#[derive(Debug)]
pub struct RTPSParticipant {
    remote_participants: Vec<(PeerAddr, RemoteParticipant)>,
    writers: Vec<(Entity, WriterState)>,
    readers: Vec<(Entity, ReaderState)>,
    last_clear_time: u64,
    peer_ttl_ms: u64,
}

impl View for RTPSParticipant {
    type V = ParticipantView;

    closed spec fn view(&self) -> ParticipantView {
        ParticipantView {
            peers: peers_view(self.remote_participants@),
            writers: writers_view(self.writers@),
            readers: readers_view(self.readers@),
            last_clear: self.last_clear_time,
            peer_ttl: self.peer_ttl_ms,
        }
    }
}

impl RTPSParticipant {
    /// Well-formedness: the view is well formed, each writer's entity is the
    /// writer of its buffer's topic, and each reader's entity is a reader.
    pub closed spec fn inv(&self) -> bool {
        &&& self@.wf()
        &&& forall|i: int|
            0 <= i < self.writers@.len() ==> #[trigger] self.writers@[i].0@ == EntityView::Writer(
                self.writers@[i].1@.topic,
            )
        &&& forall|i: int| 0 <= i < self.readers@.len() ==> #[trigger] self.readers@[i].0@ is Reader
    }

    pub fn new(config: &NetworkConfig, now_ms: u64) -> (r: RTPSParticipant)
        ensures
            r.inv(),
            r@.peers == Seq::<(PeerAddr, Seq<EntityView>)>::empty(),
            r@.writers == Seq::<WriterView>::empty(),
            r@.readers == Seq::<ReaderView>::empty(),
            r@.last_clear == now_ms,
            r@.peer_ttl == config.peer_ttl_ms,
    {
        let r = RTPSParticipant {
            remote_participants: Vec::new(),
            writers: Vec::new(),
            readers: Vec::new(),
            last_clear_time: now_ms,
            peer_ttl_ms: config.peer_ttl_ms,
        };
        assert(r@.peers =~= Seq::<(PeerAddr, Seq<EntityView>)>::empty());
        assert(r@.writers =~= Seq::<WriterView>::empty());
        assert(r@.readers =~= Seq::<ReaderView>::empty());
        r
    }

    /// Registers a writer of `topic` with an empty buffer; returns its handle.
    pub fn new_writer(&mut self, topic: &str) -> (h: usize)
        requires
            old(self).inv(),
        ensures
            final(self).inv(),
            h == old(self)@.writers.len(),
            final(self)@.writers == old(self)@.writers.push(
                WriterView { topic: topic@, cache: Seq::empty() },
            ),
            final(self)@.peers == old(self)@.peers,
            final(self)@.readers == old(self)@.readers,
            final(self)@.last_clear == old(self)@.last_clear,
            final(self)@.peer_ttl == old(self)@.peer_ttl,
    {
        let state = WriterState::new(topic);
        let h = self.writers.len();
        self.writers.push((Entity::new_writer(topic), state));
        assert(self@.writers =~= old(self)@.writers.push(
            WriterView { topic: topic@, cache: Seq::empty() },
        ));
        assert forall|i: int| 0 <= i < self@.writers.len() implies #[trigger] self@.writers[i].wf() by {
            if i < h {
                assert(self@.writers[i] == old(self)@.writers[i]);
            }
        }
        assert forall|i: int| 0 <= i < self.writers@.len() implies #[trigger] self.writers@[i].0@
            == EntityView::Writer(self.writers@[i].1@.topic) by {
            if i < h {
                assert(self.writers@[i] == old(self).writers@[i]);
            }
        }
        h
    }

    /// Registers a reader of `topic` with an empty buffer; returns its handle.
    pub fn new_reader(&mut self, topic: &str) -> (h: usize)
        requires
            old(self).inv(),
        ensures
            final(self).inv(),
            h == old(self)@.readers.len(),
            final(self)@.readers == old(self)@.readers.push(
                ReaderView { topic: topic@, buffer: Seq::empty() },
            ),
            final(self)@.peers == old(self)@.peers,
            final(self)@.writers == old(self)@.writers,
            final(self)@.last_clear == old(self)@.last_clear,
            final(self)@.peer_ttl == old(self)@.peer_ttl,
    {
        let state = ReaderState::new();
        let h = self.readers.len();
        self.readers.push((Entity::new_reader(topic), state));
        assert(self@.readers =~= old(self)@.readers.push(
            ReaderView { topic: topic@, buffer: Seq::empty() },
        ));
        assert forall|i: int| 0 <= i < self.readers@.len() implies #[trigger] self.readers@[i].0@ is Reader by {
            if i < h {
                assert(self.readers@[i] == old(self).readers@[i]);
            }
        }
        assert(self@.writers == old(self)@.writers);
        assert(self@.wf());
        h
    }

    /// Queues `data` on the writer with handle `writer`.
    pub fn write(&mut self, writer: usize, data: &str)
        requires
            old(self).inv(),
            writer < old(self)@.writers.len(),
        ensures
            final(self).inv(),
            final(self)@.writers == old(self)@.writers.update(
                writer as int,
                WriterView {
                    topic: old(self)@.writers[writer as int].topic,
                    cache: old(self)@.writers[writer as int].cache.push(
                        MessageView::Topic {
                            topic: old(self)@.writers[writer as int].topic,
                            data: data@,
                        },
                    ),
                },
            ),
            final(self)@.peers == old(self)@.peers,
            final(self)@.readers == old(self)@.readers,
            final(self)@.last_clear == old(self)@.last_clear,
            final(self)@.peer_ttl == old(self)@.peer_ttl,
    {
        proof {
            assert(old(self)@.writers[writer as int] == old(self).writers@[writer as int].1@);
        }
        let ghost wv = self.writers@;
        self.writers[writer].1.write(data);
        proof {
            let w = old(self)@.writers[writer as int];
            let nw = WriterView {
                topic: w.topic,
                cache: w.cache.push(MessageView::Topic { topic: w.topic, data: data@ }),
            };
            assert(self@.writers =~= old(self)@.writers.update(writer as int, nw));
            assert forall|i: int| 0 <= i < self@.writers.len() implies #[trigger] self@.writers[i].wf() by {
                if i != writer {
                    assert(self@.writers[i] == old(self)@.writers[i]);
                }
            }
            assert forall|i: int| 0 <= i < self.writers@.len() implies #[trigger] self.writers@[i].0@
                == EntityView::Writer(self.writers@[i].1@.topic) by {
                if i != writer {
                    assert(self.writers@[i] == wv[i]);
                } else {
                    assert(self.writers@[i].0 == wv[i].0);
                    assert(self.writers@[i].1@.topic == wv[i].1@.topic);
                }
            }
            assert(self@.readers == old(self)@.readers);
            assert(self@.wf());
        }
    }

    /// Takes every message delivered to the reader with handle `reader`,
    /// oldest first, and empties its buffer.
    pub fn pop(&mut self, reader: usize) -> (r: Vec<Message>)
        requires
            old(self).inv(),
            reader < old(self)@.readers.len(),
        ensures
            final(self).inv(),
            messages_view(r@) == old(self)@.readers[reader as int].buffer,
            final(self)@.readers == old(self)@.readers.update(
                reader as int,
                ReaderView { topic: old(self)@.readers[reader as int].topic, buffer: Seq::empty() },
            ),
            final(self)@.peers == old(self)@.peers,
            final(self)@.writers == old(self)@.writers,
            final(self)@.last_clear == old(self)@.last_clear,
            final(self)@.peer_ttl == old(self)@.peer_ttl,
    {
        let r = self.readers[reader].1.pop();
        proof {
            let nr = ReaderView {
                topic: old(self)@.readers[reader as int].topic,
                buffer: Seq::empty(),
            };
            assert(self@.readers =~= old(self)@.readers.update(reader as int, nr));
            assert forall|i: int| 0 <= i < self.readers@.len() implies #[trigger] self.readers@[i].0@ is Reader by {
                assert(self.readers@[i].0 == old(self).readers@[i].0);
            }
            assert(self@.writers == old(self)@.writers);
            assert(self@.wf());
        }
        r
    }

    /// The announcement of this participant: every local entity, writers
    /// first, then readers.
    pub fn advertise_entities(&self) -> (r: Message)
        requires
            self.inv(),
        ensures
            r@ == MessageView::ParticipantRegister(self@.local_entities()),
    {
        let mut entities: Vec<Entity> = Vec::new();
        let mut i: usize = 0;
        while i < self.writers.len()
            invariant
                self.inv(),
                i <= self.writers.len(),
                entities@.len() == i,
                forall|k: int| 0 <= k < i ==> #[trigger] entities@[k]@ == self@.local_entities()[k],
            decreases self.writers.len() - i,
        {
            proof {
                assert(self@.writers[i as int] == self.writers@[i as int].1@);
            }
            entities.push(self.writers[i].0.clone());
            i += 1;
        }
        let mut j: usize = 0;
        while j < self.readers.len()
            invariant
                self.inv(),
                i == self.writers.len(),
                j <= self.readers.len(),
                entities@.len() == i + j,
                forall|k: int| 0 <= k < i + j ==> #[trigger] entities@[k]@ == self@.local_entities()[k],
            decreases self.readers.len() - j,
        {
            proof {
                let k = j as int;
                assert(self.readers@[k].0@ is Reader);
                assert(self@.readers[k] == ReaderView {
                    topic: self.readers@[k].0@.topic(),
                    buffer: self.readers@[k].1@,
                });
            }
            entities.push(self.readers[j].0.clone());
            j += 1;
        }
        let r = RemoteParticipant { entities };
        assert(r@ =~= self@.local_entities());
        Message::ParticipantRegister(r)
    }

    /// How many writers are registered; handles below it are valid.
    pub fn writer_count(&self) -> (r: usize)
        ensures
            r == self@.writers.len(),
    {
        self.writers.len()
    }

    /// How many readers are registered; handles below it are valid.
    pub fn reader_count(&self) -> (r: usize)
        ensures
            r == self@.readers.len(),
    {
        self.readers.len()
    }

    /// How many peers the registry holds.
    pub fn peer_count(&self) -> (r: usize)
        ensures
            r == self@.peers.len(),
    {
        self.remote_participants.len()
    }

    /// Records that `addr` announced `p`, replacing any earlier record of it.
    fn record_peer(&mut self, addr: PeerAddr, p: RemoteParticipant)
        requires
            old(self).inv(),
        ensures
            final(self).inv(),
            final(self)@.peers == upsert(old(self)@.peers, addr, p@),
            final(self)@.writers == old(self)@.writers,
            final(self)@.readers == old(self)@.readers,
            final(self)@.last_clear == old(self)@.last_clear,
            final(self)@.peer_ttl == old(self)@.peer_ttl,
    {
        let ghost es = p@;
        let ghost peers = old(self)@.peers;
        let n = self.remote_participants.len();
        let mut i: usize = 0;
        while i < n && self.remote_participants[i].0 != addr
            invariant
                n == self.remote_participants@.len(),
                peers == self@.peers,
                i <= n,
                forall|k: int| 0 <= k < i ==> #[trigger] peers[k].0 != addr,
            decreases n - i,
        {
            i += 1;
        }
        if i < n {
            proof {
                assert(peers[i as int].0 == addr);
                let j = choose|j: int| 0 <= j < peers.len() && #[trigger] peers[j].0 == addr;
                assert(j == i) by {
                    if j < i {
                        assert(peers[j].0 != addr);
                    } else if j > i {
                        assert(peers[i as int].0 != peers[j].0);
                    }
                }
            }
            self.remote_participants[i] = (addr, p);
            proof {
                assert(self@.writers == old(self)@.writers);
                assert(self@.peers =~= upsert(peers, addr, es));
                assert forall|a: int, b: int|
                    0 <= a < b < self@.peers.len() implies #[trigger] self@.peers[a].0
                    != #[trigger] self@.peers[b].0 by {
                    assert(peers[a].0 != peers[b].0);
                }
                assert(self@.wf());
            }
        } else {
            self.remote_participants.push((addr, p));
            proof {
                assert(self@.writers == old(self)@.writers);
                assert(!exists|j: int| 0 <= j < peers.len() && #[trigger] peers[j].0 == addr);
                assert(self@.peers =~= upsert(peers, addr, es));
                assert forall|a: int, b: int|
                    0 <= a < b < self@.peers.len() implies #[trigger] self@.peers[a].0
                    != #[trigger] self@.peers[b].0 by {
                    if b < peers.len() {
                        assert(peers[a].0 != peers[b].0);
                    } else {
                        assert(peers[a].0 != addr);
                    }
                }
                assert(self@.wf());
            }
        }
    }

    /// One discovery tick at time `now_ms`, with what the discovery channel
    /// delivered (the sender and its message), if anything. When more than
    /// the time-to-live has passed since the last clear, the registry is
    /// emptied first and the clear time becomes `now_ms`. Then an
    /// announcement replaces the sender's record; a data message is ignored.
    /// Returns whether an announcement was recorded.
    pub fn try_process_advertisements(
        &mut self,
        now_ms: u64,
        received: Option<(PeerAddr, Message)>,
    ) -> (r: bool)
        requires
            old(self).inv(),
        ensures
            final(self).inv(),
            ({
                let base = if old(self)@.expired(now_ms) {
                    Seq::<(PeerAddr, Seq<EntityView>)>::empty()
                } else {
                    old(self)@.peers
                };
                match received {
                    Some((a, m)) => match m@ {
                        MessageView::ParticipantRegister(es) => r && final(self)@.peers == upsert(
                            base,
                            a,
                            es,
                        ),
                        _ => !r && final(self)@.peers == base,
                    },
                    None => !r && final(self)@.peers == base,
                }
            }),
            final(self)@.last_clear == if old(self)@.expired(now_ms) {
                now_ms
            } else {
                old(self)@.last_clear
            },
            final(self)@.writers == old(self)@.writers,
            final(self)@.readers == old(self)@.readers,
            final(self)@.peer_ttl == old(self)@.peer_ttl,
    {
        if now_ms >= self.last_clear_time && now_ms - self.last_clear_time > self.peer_ttl_ms {
            self.remote_participants = Vec::new();
            self.last_clear_time = now_ms;
            assert(self@.peers =~= Seq::<(PeerAddr, Seq<EntityView>)>::empty());
            assert(self@.writers == old(self)@.writers);
            assert(self@.wf());
        }
        match received {
            Some((addr, Message::ParticipantRegister(p))) => {
                self.record_peer(addr, p);
                true
            },
            _ => false,
        }
    }

    /// The first known peer that advertised `wanted`.
    fn find_subscriber(&self, wanted: &Entity) -> (r: Option<PeerAddr>)
        ensures
            r == first_subscriber(self@.peers, wanted@),
    {
        let ghost peers = self@.peers;
        let n = self.remote_participants.len();
        let mut k: usize = 0;
        assert(peers.subrange(0, n as int) =~= peers);
        while k < n
            invariant
                n == peers.len(),
                peers == self@.peers,
                k <= n,
                first_subscriber(peers, wanted@) == first_subscriber(
                    peers.subrange(k as int, n as int),
                    wanted@,
                ),
            decreases n - k,
        {
            let ghost sub = peers.subrange(k as int, n as int);
            assert(sub[0] == peers[k as int]);
            assert(peers[k as int] == (
                self.remote_participants@[k as int].0,
                self.remote_participants@[k as int].1@,
            ));
            if advertises(&self.remote_participants[k].1.entities, wanted) {
                return Some(self.remote_participants[k].0);
            }
            assert(sub.drop_first() =~= peers.subrange(k + 1, n as int));
            k += 1;
        }
        None
    }

    /// Empties every writer's buffer. What a writer held goes, in order, to
    /// the first known peer that advertised the reader of its topic, and is
    /// dropped when there is none. Returns the messages to send with their
    /// destinations, writer by writer.
    pub fn process_writers(&mut self) -> (r: Vec<(PeerAddr, Message)>)
        requires
            old(self).inv(),
        ensures
            final(self).inv(),
            outgoing_view(r@) == outbound(old(self)@.peers, old(self)@.writers),
            final(self)@.writers == old(self)@.writers.map_values(|w: WriterView| drained(w)),
            final(self)@.peers == old(self)@.peers,
            final(self)@.readers == old(self)@.readers,
            final(self)@.last_clear == old(self)@.last_clear,
            final(self)@.peer_ttl == old(self)@.peer_ttl,
    {
        let ghost ws = old(self)@.writers;
        let mut out: Vec<(PeerAddr, Message)> = Vec::new();
        let n = self.writers.len();
        let mut i: usize = 0;
        while i < n
            invariant
                self.inv(),
                n == ws.len(),
                n == self.writers@.len(),
                i <= n,
                self@.peers == old(self)@.peers,
                self@.readers == old(self)@.readers,
                self@.last_clear == old(self)@.last_clear,
                self@.peer_ttl == old(self)@.peer_ttl,
                forall|k: int| 0 <= k < i ==> #[trigger] self@.writers[k] == drained(ws[k]),
                forall|k: int| i <= k < n ==> #[trigger] self@.writers[k] == ws[k],
                outgoing_view(out@) == outbound(old(self)@.peers, ws.subrange(0, i as int)),
            decreases n - i,
        {
            let wanted = self.writers[i].0.reverse();
            let dest = self.find_subscriber(&wanted);
            proof {
                assert(self@.writers[i as int] == self.writers@[i as int].1@);
                assert(wanted@ == EntityView::Reader(ws[i as int].topic));
            }
            let ghost before = self@;
            let ghost wv = self.writers@;
            let msgs = self.writers[i].1.drain_all();
            proof {
                assert(self@.writers =~= before.writers.update(i as int, drained(ws[i as int])));
                assert forall|k: int| 0 <= k < self.writers@.len() implies #[trigger] self.writers@[k].0@
                    == EntityView::Writer(self.writers@[k].1@.topic) by {
                    if k != i {
                        assert(self.writers@[k] == wv[k]);
                    } else {
                        assert(self.writers@[k].0 == wv[k].0);
                        assert(self.writers@[k].1@.topic == wv[k].1@.topic);
                    }
                }
                assert forall|k: int| 0 <= k < self@.writers.len() implies #[trigger] self@.writers[k].wf() by {
                    if k != i {
                        assert(self@.writers[k] == before.writers[k]);
                    }
                }
                assert(self@.wf());
            }
            match dest {
                Some(a) => append_addressed(&mut out, a, &msgs),
                None => {},
            }
            proof {
                let next = ws.subrange(0, i + 1);
                assert(next.drop_last() =~= ws.subrange(0, i as int));
                assert(next.last() == ws[i as int]);
            }
            i += 1;
        }
        proof {
            assert(ws.subrange(0, n as int) =~= ws);
            assert(self@.writers =~= ws.map_values(|w: WriterView| drained(w)));
        }
        out
    }

    /// Hands `m` to every local reader of its topic; an announcement changes
    /// nothing.
    fn deliver_message(&mut self, m: &Message)
        requires
            old(self).inv(),
        ensures
            final(self).inv(),
            final(self)@.readers == deliver(old(self)@.readers, m@),
            final(self)@.writers == old(self)@.writers,
            final(self)@.peers == old(self)@.peers,
            final(self)@.last_clear == old(self)@.last_clear,
            final(self)@.peer_ttl == old(self)@.peer_ttl,
    {
        let ghost rs = old(self)@.readers;
        let n = self.readers.len();
        let mut j: usize = 0;
        while j < n
            invariant
                self.inv(),
                n == rs.len(),
                n == self.readers@.len(),
                j <= n,
                self@.peers == old(self)@.peers,
                self@.writers == old(self)@.writers,
                self@.last_clear == old(self)@.last_clear,
                self@.peer_ttl == old(self)@.peer_ttl,
                forall|k: int| 0 <= k < j ==> #[trigger] self@.readers[k] == deliver_one(rs[k], m@),
                forall|k: int| j <= k < n ==> #[trigger] self@.readers[k] == rs[k],
                forall|k: int| 0 <= k < n ==> #[trigger] self.readers@[k].0 == old(self).readers@[k].0,
            decreases n - j,
        {
            let hit = match m {
                Message::Topic { topic, data: _ } => self.readers[j].0.topic().eq(topic),
                Message::ParticipantRegister(_) => false,
            };
            proof {
                assert(self@.readers[j as int] == ReaderView {
                    topic: self.readers@[j as int].0@.topic(),
                    buffer: self.readers@[j as int].1@,
                });
            }
            if hit {
                let ghost before = self@;
                let ghost rv = self.readers@;
                self.readers[j].1.push(m.clone());
                proof {
                    assert(self@.readers =~= before.readers.update(
                        j as int,
                        deliver_one(rs[j as int], m@),
                    ));
                    assert forall|k: int| 0 <= k < self.readers@.len() implies #[trigger] self.readers@[k].0@ is Reader by {
                        assert(self.readers@[k].0 == rv[k].0);
                    }
                    assert(self@.writers == before.writers);
                    assert forall|k: int| 0 <= k < n implies #[trigger] self.readers@[k].0 == old(self).readers@[k].0 by {
                        assert(self.readers@[k].0 == rv[k].0);
                    }
                }
            }
            j += 1;
        }
        assert(self@.readers =~= deliver(rs, m@));
    }

    /// Hands each of `incoming`, in order, to every local reader of its
    /// topic; announcements are ignored.
    pub fn process_readers(&mut self, incoming: &Vec<Message>)
        requires
            old(self).inv(),
        ensures
            final(self).inv(),
            final(self)@.readers == deliver_all(old(self)@.readers, messages_view(incoming@)),
            final(self)@.writers == old(self)@.writers,
            final(self)@.peers == old(self)@.peers,
            final(self)@.last_clear == old(self)@.last_clear,
            final(self)@.peer_ttl == old(self)@.peer_ttl,
    {
        let ghost ms = messages_view(incoming@);
        let mut i: usize = 0;
        while i < incoming.len()
            invariant
                self.inv(),
                i <= incoming.len(),
                ms == messages_view(incoming@),
                self@.readers == deliver_all(old(self)@.readers, ms.subrange(0, i as int)),
                self@.peers == old(self)@.peers,
                self@.writers == old(self)@.writers,
                self@.last_clear == old(self)@.last_clear,
                self@.peer_ttl == old(self)@.peer_ttl,
            decreases incoming.len() - i,
        {
            self.deliver_message(&incoming[i]);
            proof {
                let next = ms.subrange(0, i + 1);
                assert(next.drop_last() =~= ms.subrange(0, i as int));
                assert(next.last() == incoming@[i as int]@);
            }
            i += 1;
        }
        assert(ms.subrange(0, i as int) =~= ms);
    }

    /// One processing step: `process_writers`, then `process_readers` on
    /// what the data channel delivered. Returns what to send.
    pub fn process_all(&mut self, incoming: &Vec<Message>) -> (r: Vec<(PeerAddr, Message)>)
        requires
            old(self).inv(),
        ensures
            final(self).inv(),
            outgoing_view(r@) == outbound(old(self)@.peers, old(self)@.writers),
            final(self)@.writers == old(self)@.writers.map_values(|w: WriterView| drained(w)),
            final(self)@.readers == deliver_all(old(self)@.readers, messages_view(incoming@)),
            final(self)@.peers == old(self)@.peers,
            final(self)@.last_clear == old(self)@.last_clear,
            final(self)@.peer_ttl == old(self)@.peer_ttl,
    {
        let out = self.process_writers();
        self.process_readers(incoming);
        out
    }
}

/// The outbound messages of writers `ws1` then `ws2` are those of `ws1`
/// followed by those of `ws2`.
pub proof fn lemma_outbound_concat(
    peers: Seq<(PeerAddr, Seq<EntityView>)>,
    ws1: Seq<WriterView>,
    ws2: Seq<WriterView>,
)
    ensures
        outbound(peers, ws1 + ws2) == outbound(peers, ws1) + outbound(peers, ws2),
    decreases ws2.len(),
{
    if ws2.len() == 0 {
        assert(ws1 + ws2 =~= ws1);
        assert(outbound(peers, ws1) + outbound(peers, ws2) =~= outbound(peers, ws1));
    } else {
        lemma_outbound_concat(peers, ws1, ws2.drop_last());
        assert((ws1 + ws2).drop_last() =~= ws1 + ws2.drop_last());
        assert((ws1 + ws2).last() == ws2.last());
        assert(outbound(peers, ws1 + ws2) =~= outbound(peers, ws1) + outbound(peers, ws2));
    }
}

/// Writer `i`'s batch stands, whole and contiguous, between the outbound
/// messages of the writers before it and those of the writers after it.
pub proof fn lemma_outbound_split(
    peers: Seq<(PeerAddr, Seq<EntityView>)>,
    ws: Seq<WriterView>,
    i: int,
)
    requires
        0 <= i < ws.len(),
    ensures
        outbound(peers, ws) == outbound(peers, ws.take(i)) + batch(peers, ws[i]) + outbound(
            peers,
            ws.skip(i + 1),
        ),
{
    let head = ws.take(i + 1);
    assert(ws =~= head + ws.skip(i + 1));
    lemma_outbound_concat(peers, head, ws.skip(i + 1));
    assert(head.drop_last() =~= ws.take(i));
    assert(head.last() == ws[i]);
}

/// No known peer advertised `wanted`: there is no subscriber.
pub proof fn lemma_no_subscriber(peers: Seq<(PeerAddr, Seq<EntityView>)>, wanted: EntityView)
    requires
        forall|q: int| 0 <= q < peers.len() ==> !(#[trigger] peers[q].1).contains(wanted),
    ensures
        first_subscriber(peers, wanted) == None::<PeerAddr>,
    decreases peers.len(),
{
    if peers.len() > 0 {
        assert(!peers[0].1.contains(wanted));
        let rest = peers.drop_first();
        assert forall|q: int| 0 <= q < rest.len() implies !(#[trigger] rest[q].1).contains(wanted) by {
            assert(rest[q] == peers[q + 1]);
        }
        lemma_no_subscriber(rest, wanted);
    }
}

/// Exactly one known peer, `p`, advertised `wanted`: it is the subscriber.
pub proof fn lemma_sole_subscriber(
    peers: Seq<(PeerAddr, Seq<EntityView>)>,
    wanted: EntityView,
    p: int,
)
    requires
        0 <= p < peers.len(),
        peers[p].1.contains(wanted),
        forall|q: int| 0 <= q < peers.len() && q != p ==> !(#[trigger] peers[q].1).contains(wanted),
    ensures
        first_subscriber(peers, wanted) == Some(peers[p].0),
    decreases peers.len(),
{
    if p > 0 {
        assert(!peers[0].1.contains(wanted));
        let rest = peers.drop_first();
        assert(rest[p - 1] == peers[p]);
        assert forall|q: int| 0 <= q < rest.len() && q != p - 1 implies !(#[trigger] rest[q].1).contains(
            wanted,
        ) by {
            assert(rest[q] == peers[q + 1]);
        }
        lemma_sole_subscriber(rest, wanted, p - 1);
    }
}

/// Matching: when exactly one known peer, `p`, advertised the reader of
/// writer `i`'s topic, all of that writer's buffered messages go to that
/// peer's address, in the order they were written, none elsewhere.
pub proof fn lemma_matching(peers: Seq<(PeerAddr, Seq<EntityView>)>, ws: Seq<WriterView>, i: int, p: int)
    requires
        0 <= i < ws.len(),
        0 <= p < peers.len(),
        peers[p].1.contains(EntityView::Reader(ws[i].topic)),
        forall|q: int|
            0 <= q < peers.len() && q != p ==> !(#[trigger] peers[q].1).contains(
                EntityView::Reader(ws[i].topic),
            ),
    ensures
        outbound(peers, ws) == outbound(peers, ws.take(i)) + addressed(peers[p].0, ws[i].cache)
            + outbound(peers, ws.skip(i + 1)),
{
    lemma_sole_subscriber(peers, EntityView::Reader(ws[i].topic), p);
    lemma_outbound_split(peers, ws, i);
}

/// No-match drop: when no known peer advertised the reader of writer `i`'s
/// topic, none of that writer's buffered messages is sent.
pub proof fn lemma_no_match_drop(peers: Seq<(PeerAddr, Seq<EntityView>)>, ws: Seq<WriterView>, i: int)
    requires
        0 <= i < ws.len(),
        forall|q: int|
            0 <= q < peers.len() ==> !(#[trigger] peers[q].1).contains(
                EntityView::Reader(ws[i].topic),
            ),
    ensures
        outbound(peers, ws) == outbound(peers, ws.take(i)) + outbound(peers, ws.skip(i + 1)),
{
    lemma_no_subscriber(peers, EntityView::Reader(ws[i].topic));
    lemma_outbound_split(peers, ws, i);
    assert(batch(peers, ws[i]) =~= Seq::<(PeerAddr, MessageView)>::empty());
    assert(outbound(peers, ws.take(i)) + batch(peers, ws[i]) =~= outbound(peers, ws.take(i)));
}

/// Fan-in: one data message on topic `t` reaches every local reader of `t`;
/// two readers `i` and `j` of it each end with the message.
pub proof fn lemma_fan_in(readers: Seq<ReaderView>, t: Seq<char>, d: Seq<char>, i: int, j: int)
    requires
        0 <= i < readers.len(),
        0 <= j < readers.len(),
        readers[i].topic == t,
        readers[j].topic == t,
    ensures
        deliver_all(readers, seq![MessageView::Topic { topic: t, data: d }])[i].buffer
            == readers[i].buffer.push(MessageView::Topic { topic: t, data: d }),
        deliver_all(readers, seq![MessageView::Topic { topic: t, data: d }])[j].buffer
            == readers[j].buffer.push(MessageView::Topic { topic: t, data: d }),
{
    let ms = seq![MessageView::Topic { topic: t, data: d }];
    assert(ms.drop_last() =~= Seq::<MessageView>::empty());
    assert(deliver_all(readers, ms.drop_last()) == readers);
    assert(deliver_all(readers, ms) == deliver(readers, ms.last()));
}

} // verus!
