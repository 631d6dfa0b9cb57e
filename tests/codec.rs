use rtps_lite::codec::{decode, encode, EncodeError};
use rtps_lite::entity::Entity;
use rtps_lite::message::Message;
use rtps_lite::participant::RemoteParticipant;

fn topic_msg(t: &str, d: &str) -> Message {
    Message::Topic { topic: t.to_string(), data: d.to_string() }
}

fn announcement() -> Message {
    Message::ParticipantRegister(RemoteParticipant {
        entities: vec![Entity::new_writer("/a"), Entity::new_reader("/b")],
    })
}

#[test]
fn topic_encoding_is_exact() {
    let b = encode(&topic_msg("/hello", "ping")).unwrap();
    let mut want = vec![1u8, 6];
    want.extend_from_slice(b"/hello");
    want.push(4);
    want.extend_from_slice(b"ping");
    assert_eq!(b, want);
}

#[test]
fn announcement_encoding_is_exact() {
    let b = encode(&announcement()).unwrap();
    assert_eq!(b, vec![0u8, 2, 0, 2, b'/', b'a', 1, 2, b'/', b'b']);
}

#[test]
fn round_trip_topic() {
    let m = topic_msg("/hello", "ping");
    let b = encode(&m).unwrap();
    assert_eq!(decode(&b), Some(m));
}

#[test]
fn round_trip_announcement() {
    let m = announcement();
    let b = encode(&m).unwrap();
    assert_eq!(decode(&b), Some(m));
}

#[test]
fn round_trip_empty_announcement() {
    let m = Message::ParticipantRegister(RemoteParticipant { entities: vec![] });
    let b = encode(&m).unwrap();
    assert_eq!(b, vec![0u8, 0]);
    assert_eq!(decode(&b), Some(m));
}

#[test]
fn round_trip_through_padded_buffer() {
    let m = topic_msg("/t", "héllo");
    let b = encode(&m).unwrap();
    let mut buf = [0u8; 128];
    buf[..b.len()].copy_from_slice(&b);
    assert_eq!(decode(&buf), Some(m));
}

#[test]
fn largest_message_fits() {
    let data = "x".repeat(124);
    let b = encode(&topic_msg("t", &data)).unwrap();
    assert_eq!(b.len(), 128);
}

#[test]
fn oversized_message_fails_to_encode() {
    let data = "x".repeat(125);
    assert_eq!(encode(&topic_msg("t", &data)), Err(EncodeError::EncodeFailure));
    let data = "y".repeat(300);
    assert_eq!(encode(&topic_msg("t", &data)), Err(EncodeError::EncodeFailure));
}

#[test]
fn garbage_decodes_to_nothing() {
    assert_eq!(decode(&[7u8, 1, 2]), None);
    assert_eq!(decode(&[]), None);
}
