use rtps_lite::codec::{decode, encode};
use rtps_lite::domain::{NetworkConfig, PeerAddr, MULTICAST_GROUP, MULTICAST_PORT, PEER_TTL_MS};
use rtps_lite::entity::Entity;
use rtps_lite::message::Message;
use rtps_lite::participant::{RTPSParticipant, RemoteParticipant};

fn topic_msg(t: &str, d: &str) -> Message {
    Message::Topic { topic: t.to_string(), data: d.to_string() }
}

fn announce(entities: Vec<Entity>) -> Message {
    Message::ParticipantRegister(RemoteParticipant { entities })
}

fn peer(last: u8) -> PeerAddr {
    PeerAddr { ip: 0xC0A8_0100 | last as u32, port: 7400 }
}

fn participant(now: u64) -> RTPSParticipant {
    RTPSParticipant::new(&NetworkConfig::standard(), now)
}

#[test]
fn standard_config() {
    let c = NetworkConfig::standard();
    assert_eq!(c.peer_ttl_ms, PEER_TTL_MS);
    assert_eq!(c.peer_ttl_ms, 5000);
    assert_eq!((c.port_range_start, c.port_range_end), (7400, 8000));
    assert_eq!(c.discovery_addr(), PeerAddr { ip: MULTICAST_GROUP, port: MULTICAST_PORT });
    assert_eq!(c.multicast_group, (224u32 << 24) | 23);
}

#[test]
fn advertisement_lists_writers_then_readers() {
    let mut p = participant(0);
    p.new_reader("/r");
    p.new_writer("/w");
    let m = p.advertise_entities();
    assert_eq!(m, announce(vec![Entity::new_writer("/w"), Entity::new_reader("/r")]));
}

#[test]
fn matching_delivers_all_in_order() {
    let mut a = participant(0);
    let w = a.new_writer("/t");
    assert!(a.try_process_advertisements(10, Some((peer(2), announce(vec![Entity::new_reader("/t")])))));
    a.write(w, "1");
    a.write(w, "2");
    a.write(w, "3");
    let out = a.process_writers();
    assert_eq!(
        out,
        vec![(peer(2), topic_msg("/t", "1")), (peer(2), topic_msg("/t", "2")), (peer(2), topic_msg("/t", "3"))]
    );
    assert!(a.process_writers().is_empty());
}

#[test]
fn no_match_drops_buffer() {
    let mut a = participant(0);
    let w = a.new_writer("/t");
    a.try_process_advertisements(10, Some((peer(2), announce(vec![Entity::new_reader("/other"), Entity::new_writer("/t")]))));
    a.write(w, "lost");
    assert!(a.process_writers().is_empty());
    a.try_process_advertisements(20, Some((peer(3), announce(vec![Entity::new_reader("/t")]))));
    assert!(a.process_writers().is_empty());
}

#[test]
fn first_matching_peer_wins() {
    let mut a = participant(0);
    let w = a.new_writer("/t");
    a.try_process_advertisements(1, Some((peer(5), announce(vec![Entity::new_reader("/t")]))));
    a.try_process_advertisements(2, Some((peer(4), announce(vec![Entity::new_reader("/t")]))));
    a.write(w, "x");
    assert_eq!(a.process_writers(), vec![(peer(5), topic_msg("/t", "x"))]);
}

#[test]
fn writers_are_forwarded_in_registration_order() {
    let mut a = participant(0);
    let w1 = a.new_writer("/one");
    let w2 = a.new_writer("/two");
    a.try_process_advertisements(1, Some((peer(7), announce(vec![Entity::new_reader("/two")]))));
    a.try_process_advertisements(2, Some((peer(8), announce(vec![Entity::new_reader("/one")]))));
    a.write(w2, "b");
    a.write(w1, "a");
    assert_eq!(a.process_writers(), vec![(peer(8), topic_msg("/one", "a")), (peer(7), topic_msg("/two", "b"))]);
}

#[test]
fn peer_expiry_empties_registry() {
    let mut a = participant(0);
    a.try_process_advertisements(1000, Some((peer(2), announce(vec![Entity::new_reader("/t")]))));
    assert_eq!(a.peer_count(), 1);
    assert!(!a.try_process_advertisements(5000, None));
    assert_eq!(a.peer_count(), 1);
    assert!(!a.try_process_advertisements(5001, None));
    assert_eq!(a.peer_count(), 0);
}

#[test]
fn peer_expiry_resets_clear_time() {
    let mut a = participant(0);
    a.try_process_advertisements(6000, Some((peer(2), announce(vec![]))));
    assert_eq!(a.peer_count(), 1);
    a.try_process_advertisements(7000, Some((peer(3), announce(vec![]))));
    assert_eq!(a.peer_count(), 2);
    a.try_process_advertisements(11001, Some((peer(4), announce(vec![]))));
    assert_eq!(a.peer_count(), 1);
}

#[test]
fn announcement_replaces_earlier_record() {
    let mut a = participant(0);
    let w = a.new_writer("/t");
    a.try_process_advertisements(1, Some((peer(2), announce(vec![Entity::new_reader("/t")]))));
    a.try_process_advertisements(2, Some((peer(2), announce(vec![]))));
    assert_eq!(a.peer_count(), 1);
    a.write(w, "x");
    assert!(a.process_writers().is_empty());
}

#[test]
fn data_on_discovery_channel_is_ignored() {
    let mut a = participant(0);
    assert!(!a.try_process_advertisements(1, Some((peer(2), topic_msg("/t", "x")))));
    assert_eq!(a.peer_count(), 0);
}

#[test]
fn fan_in_reaches_both_readers() {
    let mut b = participant(0);
    let r1 = b.new_reader("/t");
    let r2 = b.new_reader("/t");
    let other = b.new_reader("/u");
    b.process_readers(&vec![topic_msg("/t", "d")]);
    assert_eq!(b.pop(r1), vec![topic_msg("/t", "d")]);
    assert_eq!(b.pop(r2), vec![topic_msg("/t", "d")]);
    assert!(b.pop(other).is_empty());
    assert!(b.pop(r1).is_empty());
}

#[test]
fn announcements_on_data_channel_are_ignored() {
    let mut b = participant(0);
    let r = b.new_reader("/t");
    b.process_readers(&vec![announce(vec![Entity::new_writer("/t")]), topic_msg("/t", "a"), topic_msg("/t", "b")]);
    assert_eq!(b.pop(r), vec![topic_msg("/t", "a"), topic_msg("/t", "b")]);
}

#[test]
fn hello_ping_scenario() {
    let addr_a = peer(10);
    let addr_b = peer(11);
    let mut a = participant(0);
    let mut b = participant(0);
    let w = a.new_writer("/hello");
    let r = b.new_reader("/hello");

    let from_a = decode(&encode(&a.advertise_entities()).unwrap()).unwrap();
    let from_b = decode(&encode(&b.advertise_entities()).unwrap()).unwrap();
    assert!(a.try_process_advertisements(50, Some((addr_b, from_b))));
    assert!(b.try_process_advertisements(50, Some((addr_a, from_a))));

    a.write(w, "ping");
    let out = a.process_writers();
    assert_eq!(out.len(), 1);
    assert_eq!(out[0].0, addr_b);
    let datagram = encode(&out[0].1).unwrap();

    assert!(b.process_writers().is_empty());
    b.process_readers(&vec![decode(&datagram).unwrap()]);
    assert_eq!(b.pop(r), vec![topic_msg("/hello", "ping")]);
}

#[test]
fn process_all_forwards_and_delivers() {
    let mut a = participant(0);
    let w = a.new_writer("/t");
    let r = a.new_reader("/t");
    a.try_process_advertisements(1, Some((peer(2), announce(vec![Entity::new_reader("/t")]))));
    a.write(w, "out");
    let sent = a.process_all(&vec![topic_msg("/t", "in")]);
    assert_eq!(sent, vec![(peer(2), topic_msg("/t", "out"))]);
    assert_eq!(a.pop(r), vec![topic_msg("/t", "in")]);
}
