use vstd::prelude::*;

use crate::entity::{entities_view, Entity, EntityView};
use crate::participant::RemoteParticipant;

verus! {

/// One datagram's worth of protocol traffic.
#[derive(Debug)]
pub enum Message {
    ParticipantRegister(RemoteParticipant),
    Topic { topic: String, data: String },
}

/// The mathematical value of a `Message`.
pub enum MessageView {
    ParticipantRegister(Seq<EntityView>),
    Topic { topic: Seq<char>, data: Seq<char> },
}

/// The views of a sequence of messages, one for one.
pub open spec fn messages_view(v: Seq<Message>) -> Seq<MessageView> {
    v.map_values(|m: Message| m@)
}

impl View for Message {
    type V = MessageView;

    open spec fn view(&self) -> MessageView {
        match self {
            Message::ParticipantRegister(p) => MessageView::ParticipantRegister(p@),
            Message::Topic { topic, data } => MessageView::Topic { topic: topic@, data: data@ },
        }
    }
}

impl Clone for Message {
    fn clone(&self) -> (r: Self)
        ensures
            r@ == self@,
    {
        match self {
            Message::ParticipantRegister(p) => Message::ParticipantRegister(p.duplicate()),
            Message::Topic { topic, data } => Message::Topic { topic: topic.clone(), data: data.clone() },
        }
    }
}

impl From<RemoteParticipant> for Message {
    fn from(p: RemoteParticipant) -> (r: Message) {
        Message::ParticipantRegister(p)
    }
}

impl vstd::std_specs::convert::FromSpecImpl<RemoteParticipant> for Message {
    open spec fn obeys_from_spec() -> bool {
        true
    }

    open spec fn from_spec(p: RemoteParticipant) -> Message {
        Message::ParticipantRegister(p)
    }
}

/// Do `a` and `b` hold the same entities in the same order?
fn same_entities(a: &Vec<Entity>, b: &Vec<Entity>) -> (r: bool)
    ensures
        r == (entities_view(a@) == entities_view(b@)),
{
    if a.len() != b.len() {
        assert(entities_view(a@).len() != entities_view(b@).len());
        return false;
    }
    let mut i: usize = 0;
    while i < a.len()
        invariant
            a.len() == b.len(),
            i <= a.len(),
            forall|k: int| 0 <= k < i ==> #[trigger] a@[k]@ == b@[k]@,
        decreases a.len() - i,
    {
        if !(a[i] == b[i]) {
            assert(entities_view(a@)[i as int] != entities_view(b@)[i as int]);
            return false;
        }
        i += 1;
    }
    assert(entities_view(a@) =~= entities_view(b@));
    true
}

impl PartialEq for Message {
    fn eq(&self, o: &Message) -> (r: bool) {
        match (self, o) {
            (Message::ParticipantRegister(p), Message::ParticipantRegister(q)) => same_entities(
                &p.entities,
                &q.entities,
            ),
            (Message::Topic { topic: t1, data: d1 }, Message::Topic { topic: t2, data: d2 }) => {
                t1.eq(t2) && d1.eq(d2)
            },
            _ => false,
        }
    }
}

impl vstd::std_specs::cmp::PartialEqSpecImpl for Message {
    open spec fn obeys_eq_spec() -> bool {
        true
    }

    open spec fn eq_spec(&self, o: &Message) -> bool {
        self@ == o@
    }
}

} // verus!
