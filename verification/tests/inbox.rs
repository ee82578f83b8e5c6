use std::collections::hash_map::DefaultHasher;
use std::hash::{Hash, Hasher};

use ce_coord::message::fingerprint;
use ce_coord::pump::{reply_to, SEEN_LIMIT};
use ce_coord::topic::{catchup_topic_name, op_topic_name};
use ce_coord::{AppMessage, Coord, Pump};

fn message(topic: &str, received_at: u64) -> AppMessage {
    AppMessage {
        from: "a1".to_string(),
        topic: topic.to_string(),
        payload_hex: "00ff".to_string(),
        reply_token: Some(9),
        received_at,
    }
}

#[test]
fn payloads_are_hexadecimal() {
    let mut m = message("t", 0);
    assert_eq!(m.payload(), Some(vec![0x00, 0xff]));
    m.payload_hex = "48656c6C6F".to_string();
    assert_eq!(m.payload(), Some(b"Hello".to_vec()));
    m.payload_hex = String::new();
    assert_eq!(m.payload(), Some(vec![]));
    m.payload_hex = "123".to_string();
    assert_eq!(m.payload(), None);
    m.payload_hex = "foos".to_string();
    assert_eq!(m.payload(), None);
    m.payload_hex = "éé".to_string();
    assert_eq!(m.payload(), None);
}

/// What hashing the fields one after the other gives on a little-endian machine of 64 bits.
fn field_hash(m: &AppMessage) -> u64 {
    let mut h = DefaultHasher::new();
    m.from.hash(&mut h);
    m.topic.hash(&mut h);
    m.payload_hex.hash(&mut h);
    m.reply_token.hash(&mut h);
    m.received_at.hash(&mut h);
    h.finish()
}

#[test]
fn a_fingerprint_hashes_the_fields_in_order() {
    let mut m = message("ce-coord/log/a1/x", 1_700_000_000);
    assert_eq!(fingerprint(&m), field_hash(&m));
    m.reply_token = None;
    assert_eq!(fingerprint(&m), field_hash(&m));
    m.from = "größe".to_string();
    m.received_at = u64::MAX;
    assert_eq!(fingerprint(&m), field_hash(&m));
}

#[test]
fn every_field_counts_in_a_fingerprint() {
    let base = fingerprint(&message("t", 0));
    assert_eq!(base, fingerprint(&message("t", 0)));
    let mut m = message("t", 0);
    m.from = "a2".to_string();
    assert_ne!(base, fingerprint(&m));
    let mut m = message("u", 0);
    assert_ne!(base, fingerprint(&m));
    m = message("t", 0);
    m.payload_hex = "00fe".to_string();
    assert_ne!(base, fingerprint(&m));
    m = message("t", 0);
    m.reply_token = None;
    assert_ne!(base, fingerprint(&m));
    m = message("t", 1);
    assert_ne!(base, fingerprint(&m));
}

#[test]
fn text_boundaries_count_in_a_fingerprint() {
    let mut a = message("bc", 0);
    a.from = "a".to_string();
    let mut b = message("c", 0);
    b.from = "ab".to_string();
    assert_ne!(fingerprint(&a), fingerprint(&b));
}

#[test]
fn a_message_is_handed_on_once() {
    let mut coord: Coord<&str> = Coord::with_client("me".to_string());
    coord.register("t", "handler");
    let mut pump = Pump::new();
    assert_eq!(pump.dispatch(&coord, &message("t", 1)), Some(&"handler"));
    assert_eq!(pump.dispatch(&coord, &message("t", 1)), None);
    assert_eq!(pump.dispatch(&coord, &message("t", 2)), Some(&"handler"));
    assert_eq!(pump.dispatch(&coord, &message("elsewhere", 1)), None);
}

#[test]
fn a_message_without_a_handler_is_remembered_too() {
    let mut coord: Coord<u8> = Coord::with_client("me".to_string());
    let mut pump = Pump::new();
    assert_eq!(pump.dispatch(&coord, &message("t", 1)), None);
    coord.register("t", 1);
    assert_eq!(pump.dispatch(&coord, &message("t", 1)), None);
    assert_eq!(pump.dispatch(&coord, &message("t", 2)), Some(&1));
}

#[test]
fn the_memory_holds_the_limit_and_forgets_the_oldest() {
    assert_eq!(SEEN_LIMIT, 8192);
    let mut pump = Pump::new();
    for fp in 0..8192u64 {
        assert!(pump.observe(fp));
    }
    assert!(!pump.observe(0));
    assert!(!pump.observe(8191));
    // One more than fits pushes out the oldest, and only that.
    assert!(pump.observe(8192));
    assert!(!pump.observe(1));
    assert!(pump.observe(0));
    assert!(pump.observe(1));
    assert!(!pump.observe(3));
}

#[test]
fn a_repeated_fingerprint_is_not_refreshed() {
    let mut pump = Pump::new();
    assert!(pump.observe(7));
    for fp in 100..100 + 8191u64 {
        assert!(pump.observe(fp));
    }
    assert!(!pump.observe(7));
    assert!(pump.observe(50_000));
    assert!(pump.observe(7));
}

#[test]
fn only_accepted_fingerprints_push_others_out() {
    let mut pump = Pump::new();
    assert!(pump.observe(7));
    for fp in 100..100 + 8191u64 {
        assert!(pump.observe(fp));
        // Repetitions in between do not count.
        assert!(!pump.observe(fp));
        assert!(!pump.observe(7));
    }
    assert!(pump.observe(50_000));
    // The limit of others has been accepted since: it is handed on again.
    assert!(pump.observe(7));
    assert!(!pump.observe(7));
}

#[test]
fn the_last_registration_serves_a_topic() {
    let mut coord: Coord<u8> = Coord::with_client("beef".to_string());
    assert_eq!(coord.node_id(), "beef");
    assert_eq!(coord.handler("a"), None);
    coord.register("a", 1);
    coord.register("b", 2);
    coord.register("a", 3);
    assert_eq!(coord.handler("a"), Some(&3));
    assert_eq!(coord.handler("b"), Some(&2));
    assert_eq!(coord.handler("a/b"), None);
}

#[test]
fn replies_need_an_answer_and_a_token() {
    let m = message("t", 0);
    let reply = reply_to(&m, Some(vec![1, 2])).unwrap();
    assert_eq!((reply.token, reply.bytes), (9, vec![1, 2]));
    assert!(reply_to(&m, None).is_none());
    let mut silent = message("t", 0);
    silent.reply_token = None;
    assert!(reply_to(&silent, Some(vec![1])).is_none());
    assert!(reply_to(&silent, None).is_none());
}

#[test]
fn topics_carry_the_writer_and_the_name() {
    assert_eq!(op_topic_name("a1", "x"), "ce-coord/log/a1/x");
    assert_eq!(catchup_topic_name("a1", "x"), "ce-coord/catchup/a1/x");
    assert_ne!(op_topic_name("a1", "b/x"), op_topic_name("a2", "b/x"));
    assert_eq!(op_topic_name("a1", ""), "ce-coord/log/a1/");
}
