use rtps_lite::entity::{Entity, ReaderState, Type, WriterState};
use rtps_lite::message::Message;

fn topic_msg(t: &str, d: &str) -> Message {
    Message::Topic { topic: t.to_string(), data: d.to_string() }
}

#[test]
fn reverse_of_writer_is_reader_of_same_topic() {
    let w = Entity::new_writer("/hello");
    let r = Entity::new_reader("/hello");
    assert!(w.reverse() == r);
    assert!(r.reverse() == w);
    assert!(matches!(w.kind, Type::Writer(ref t) if t == "/hello"));
    assert!(matches!(r.kind, Type::Reader(ref t) if t == "/hello"));
}

#[test]
fn reverse_twice_is_identity() {
    let w = Entity::new_writer("/a");
    assert!(w.reverse().reverse() == w);
}

#[test]
fn different_topics_are_not_complementary() {
    let w = Entity::new_writer("/a");
    let r = Entity::new_reader("/b");
    assert!(w.reverse() != r);
    assert!(r.reverse() != w);
    assert!(w != Entity::new_reader("/a"));
    assert!(w != Entity::new_writer("/b"));
}

#[test]
fn writer_state_tags_messages_with_its_topic() {
    let mut w = WriterState::new("/t");
    w.write("one");
    w.write("two");
    assert_eq!(w.topic(), "/t");
    let out = w.drain_all();
    assert_eq!(out, vec![topic_msg("/t", "one"), topic_msg("/t", "two")]);
    assert!(w.drain_all().is_empty());
}

#[test]
fn writer_state_clear_drops_everything() {
    let mut w = WriterState::new("/t");
    w.write("x");
    w.clear();
    assert!(w.drain_all().is_empty());
}

#[test]
fn reader_state_pop_returns_once() {
    let mut r = ReaderState::new();
    r.push(topic_msg("/t", "a"));
    r.push(topic_msg("/t", "b"));
    assert_eq!(r.pop(), vec![topic_msg("/t", "a"), topic_msg("/t", "b")]);
    assert!(r.pop().is_empty());
}
