use vstd::prelude::*;

use crate::domain::MAX_DATAGRAM;
use crate::entity::{Entity, EntityView, Type};
use crate::message::{Message, MessageView};
use crate::participant::RemoteParticipant;

verus! {

/// A message in the shape the postcard format writes it, built from std
/// types only. postcard writes a `Result` as a tagged union, tag 0 for `Ok`
/// and 1 for `Err`, and a struct or tuple as its fields in order, so this
/// shape gives the same bytes as the message itself: an announcement is
/// `Ok` with each entity a writer (`Ok`) or a reader (`Err`) of its topic; a
/// data message is `Err((topic, data))`.
pub type WireForm = Result<Vec<Result<String, String>>, (String, String)>;

/// Why a message could not be encoded.
#[derive(Debug, Clone, Copy, PartialEq, Eq, Structural)]
pub enum EncodeError {
    /// The encoding does not fit in one datagram.
    EncodeFailure,
}

#[verifier::external_type_specification]
#[verifier::external_body]
pub struct ExPostcardError(postcard::Error);

/// The postcard encoding of the wire form of a message, whatever its length;
/// it depends on the characters of its strings alone.
pub uninterp spec fn postcard_encoding(m: MessageView) -> Seq<u8>;

pub open spec fn wire_entity_view(e: Result<String, String>) -> EntityView {
    match e {
        Ok(t) => EntityView::Writer(t@),
        Err(t) => EntityView::Reader(t@),
    }
}

/// The message a wire form stands for.
pub open spec fn wire_view(w: WireForm) -> MessageView {
    match w {
        Ok(es) => MessageView::ParticipantRegister(
            es@.map_values(|e: Result<String, String>| wire_entity_view(e)),
        ),
        Err((t, d)) => MessageView::Topic { topic: t@, data: d@ },
    }
}

/// What a decode of `b` may give: the message whose encoding begins `b`,
/// whenever there is one.
pub open spec fn decodes_to(b: Seq<u8>, r: Option<MessageView>) -> bool {
    forall|m: MessageView| #[trigger] postcard_encoding(m).is_prefix_of(b) ==> r == Some(m)
}

pub open spec fn opt_view(r: Option<Message>) -> Option<MessageView> {
    match r {
        Some(m) => Some(m@),
        None => None,
    }
}

/// Relies on postcard::to_vec into a buffer of `MAX_DATAGRAM` bytes: the
/// bytes are the value's postcard encoding, and the only failure is a full
/// buffer, which comes exactly when the encoding is longer than the buffer.
#[verifier::external_body]
fn postcard_to_vec(w: &WireForm) -> (r: Result<Vec<u8>, postcard::Error>)
    ensures
        r is Ok <==> postcard_encoding(wire_view(*w)).len() <= MAX_DATAGRAM,
        r matches Ok(b) ==> b@ == postcard_encoding(wire_view(*w)),
{
    postcard::to_vec::<WireForm, MAX_DATAGRAM>(w).map(|b| b.to_vec())
}

/// Relies on postcard::from_bytes: bytes that begin with a value's postcard
/// encoding are read back as that value, whatever follows it.
#[verifier::external_body]
fn postcard_from_bytes(b: &[u8]) -> (r: Result<WireForm, postcard::Error>)
    ensures
        r is Ok <== exists|m: MessageView| #[trigger] postcard_encoding(m).is_prefix_of(b@),
        r matches Ok(w) ==> forall|m: MessageView| #[trigger]
            postcard_encoding(m).is_prefix_of(b@) ==> wire_view(w) == m,
{
    postcard::from_bytes::<WireForm>(b)
}

/// The wire form of `m`.
pub fn to_wire(m: &Message) -> (r: WireForm)
    ensures
        wire_view(r) == m@,
{
    match m {
        Message::ParticipantRegister(p) => {
            let mut es: Vec<Result<String, String>> = Vec::new();
            let mut i: usize = 0;
            while i < p.entities.len()
                invariant
                    i <= p.entities.len(),
                    es@.len() == i,
                    forall|k: int| 0 <= k < i ==> #[trigger] wire_entity_view(es@[k]) == p@[k],
                decreases p.entities.len() - i,
            {
                let e = match &p.entities[i].kind {
                    Type::Writer(t) => Ok(t.clone()),
                    Type::Reader(t) => Err(t.clone()),
                };
                es.push(e);
                i += 1;
            }
            let r: WireForm = Ok(es);
            assert(wire_view(r) =~= m@) by {
                assert(es@.map_values(|e: Result<String, String>| wire_entity_view(e)) =~= p@);
            }
            r
        },
        Message::Topic { topic, data } => Err((topic.clone(), data.clone())),
    }
}

/// The message a wire form stands for.
pub fn from_wire(w: WireForm) -> (r: Message)
    ensures
        r@ == wire_view(w),
{
    match w {
        Ok(es) => {
            let mut entities: Vec<Entity> = Vec::new();
            let mut i: usize = 0;
            while i < es.len()
                invariant
                    i <= es.len(),
                    entities@.len() == i,
                    forall|k: int| 0 <= k < i ==> #[trigger] entities@[k]@ == wire_entity_view(es@[k]),
                decreases es.len() - i,
            {
                let e = match &es[i] {
                    Ok(t) => Entity { kind: Type::Writer(t.clone()) },
                    Err(t) => Entity { kind: Type::Reader(t.clone()) },
                };
                entities.push(e);
                i += 1;
            }
            let r = Message::ParticipantRegister(RemoteParticipant { entities });
            assert(r@ =~= wire_view(Ok(es))) by {
                assert(RemoteParticipant { entities }@ =~= es@.map_values(
                    |e: Result<String, String>| wire_entity_view(e),
                ));
            }
            r
        },
        Err((topic, data)) => Message::Topic { topic, data },
    }
}

/// Encodes `m` as one datagram: its full postcard encoding, or
/// `EncodeFailure` when that is longer than `MAX_DATAGRAM`; never a
/// truncated encoding.
pub fn encode(m: &Message) -> (r: Result<Vec<u8>, EncodeError>)
    ensures
        r is Ok <==> postcard_encoding(m@).len() <= MAX_DATAGRAM,
        r matches Ok(b) ==> b@ == postcard_encoding(m@),
{
    let w = to_wire(m);
    match postcard_to_vec(&w) {
        Ok(b) => Ok(b),
        Err(_) => Err(EncodeError::EncodeFailure),
    }
}

/// Decodes one datagram; `None` when it holds no message. Bytes past the
/// encoding of the message are ignored.
pub fn decode(b: &[u8]) -> (r: Option<Message>)
    ensures
        decodes_to(b@, opt_view(r)),
{
    match postcard_from_bytes(b) {
        Ok(w) => Some(from_wire(w)),
        Err(_) => None,
    }
}

/// Decoding what encoding a message gave, alone or followed by any other
/// bytes (a fixed-size receive buffer), reproduces the message exactly.
pub proof fn lemma_round_trip(m: MessageView, b: Seq<u8>, r: Option<MessageView>)
    requires
        postcard_encoding(m).is_prefix_of(b),
        decodes_to(b, r),
    ensures
        r == Some(m),
{
}

} // verus!
