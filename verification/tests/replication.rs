use std::collections::BTreeMap;

use ce_coord::{
    AppMessage, CatchUp, CatchUpReply, Checkpoint, CheckpointError, Coord, Entry, LoadStep,
    ProposeError, Replicated, ReplyStep, Signal, Snapshot, StateMachine,
};

/// Balances by name. An operation sets a balance or, without one, closes the account.
#[derive(Default, Debug, PartialEq, Clone)]
struct Ledger(BTreeMap<String, i64>);

type LedgerOp = (String, Option<i64>);

impl StateMachine for Ledger {
    type Op = LedgerOp;
    type Model = BTreeMap<String, i64>;

    fn start() -> Self {
        Ledger::default()
    }

    fn encode(op: &LedgerOp) -> Result<Vec<u8>, String> {
        if op.0.is_empty() {
            return Err("an account needs a name".to_string());
        }
        serde_json::to_vec(op).map_err(|e| e.to_string())
    }

    fn decode(bytes: &[u8]) -> Option<LedgerOp> {
        serde_json::from_slice(bytes).ok()
    }

    fn apply(&mut self, op: LedgerOp) {
        match op {
            (name, Some(balance)) => {
                self.0.insert(name, balance);
            }
            (name, None) => {
                self.0.remove(&name);
            }
        }
    }
}

impl Snapshot for Ledger {
    fn save(&self) -> Result<Vec<u8>, String> {
        if self.0.contains_key("unsavable") {
            return Err("will not be saved".to_string());
        }
        serde_json::to_vec(&self.0).map_err(|e| e.to_string())
    }

    fn load(bytes: &[u8]) -> Result<Self, String> {
        serde_json::from_slice(bytes).map(Ledger).map_err(|e| e.to_string())
    }
}

const WRITER: &str = "a1b2";

fn writer() -> Replicated<Ledger> {
    let coord: Coord<u8> = Coord::with_client(WRITER.to_string());
    Replicated::writer(&coord, "balances")
}

fn reader() -> Replicated<Ledger> {
    let coord: Coord<u8> = Coord::with_client("ffee".to_string());
    Replicated::reader(&coord, "balances", WRITER)
}

fn snapshot_reader() -> Replicated<Ledger> {
    let coord: Coord<u8> = Coord::with_client("ffee".to_string());
    Replicated::snapshot_reader(&coord, "balances", WRITER)
}

fn set(name: &str, balance: i64) -> LedgerOp {
    (name.to_string(), Some(balance))
}

fn close(name: &str) -> LedgerOp {
    (name.to_string(), None)
}

fn balances(r: &Replicated<Ledger>) -> Vec<(String, i64)> {
    r.read(|s| s.0.iter().map(|(k, v)| (k.clone(), *v)).collect())
}

fn propose(w: &mut Replicated<Ledger>, op: LedgerOp) -> Entry {
    match w.propose(op) {
        Ok(e) => e,
        Err(e) => panic!("{}", e.message()),
    }
}

fn done(step: ReplyStep) -> Vec<Signal> {
    match step {
        ReplyStep::Done(signals) => signals,
        ReplyStep::Fetch { .. } => panic!("nothing had to be fetched"),
    }
}

fn fetch(step: ReplyStep) -> (Checkpoint, Vec<Entry>) {
    match step {
        ReplyStep::Done(_) => panic!("a snapshot had to be fetched"),
        ReplyStep::Fetch { checkpoint, tail } => (checkpoint, tail),
    }
}

fn versions(entries: &[Entry]) -> Vec<u64> {
    entries.iter().map(|e| e.version).collect()
}

/// A writer that made six operations, with the entries it published.
fn six() -> (Replicated<Ledger>, Vec<Entry>) {
    let mut w = writer();
    let mut entries = vec![];
    for op in [
        set("alice", 100),
        set("bob", 7),
        set("alice", 90),
        close("bob"),
        set("carol", 1),
        set("dave", 2),
    ] {
        entries.push(propose(&mut w, op));
    }
    (w, entries)
}

#[test]
fn a_writer_assigns_versions_in_order_and_reads_its_own_writes() {
    let mut w = writer();
    assert_eq!(w.version(), 0);
    let e = propose(&mut w, set("alice", 100));
    assert_eq!(e.version, 1);
    assert_eq!(e.op, b"[\"alice\",100]".to_vec());
    assert_eq!(propose(&mut w, set("bob", 5)).version, 2);
    assert_eq!(w.version(), 2);
    assert_eq!(balances(&w), vec![("alice".to_string(), 100), ("bob".to_string(), 5)]);
}

#[test]
fn topics_and_roles() {
    let w = writer();
    assert_eq!(w.inbound_topic(), "ce-coord/catchup/a1b2/balances");
    assert_eq!(w.outbound_topic(), "ce-coord/log/a1b2/balances");
    assert_eq!(w.writer_id(), "a1b2");
    assert_eq!(w.bootstrap(), None);
    let r = reader();
    assert_eq!(r.inbound_topic(), "ce-coord/log/a1b2/balances");
    assert_eq!(r.outbound_topic(), "ce-coord/catchup/a1b2/balances");
    assert_eq!(r.writer_id(), "a1b2");
    assert_eq!(r.bootstrap(), Some(Signal::Request(1)));
}

#[test]
fn a_read_replica_refuses_to_mutate() {
    let mut r = reader();
    let refused = r.propose(set("alice", 1));
    match refused {
        Err(e) => {
            assert!(matches!(e, ProposeError::ReadReplica));
            assert_eq!(e.message(), "propose() on a read replica — only the writer may mutate");
        }
        Ok(_) => panic!("a reader mutated"),
    }
    assert_eq!(r.version(), 0);
    assert_eq!(balances(&r), vec![]);
}

#[test]
fn an_operation_that_cannot_be_encoded_changes_nothing() {
    let mut w = writer();
    match w.propose(set("", 1)) {
        Err(ProposeError::Encode(reason)) => assert_eq!(reason, "an account needs a name"),
        _ => panic!("the operation was logged"),
    }
    assert_eq!(ProposeError::Encode("why".to_string()).message(), "why");
    assert_eq!(w.version(), 0);
    assert_eq!(w.serve_catch_up(&CatchUp { from: 1 }).tail.len(), 0);
}

#[test]
fn a_reader_applies_in_order() {
    let (w, entries) = six();
    let mut r = reader();
    for (i, e) in entries.into_iter().enumerate() {
        assert_eq!(r.ingest(e), Some(Signal::Announce(i as u64 + 1)));
    }
    assert_eq!(balances(&r), balances(&w));
    assert_eq!(r.version(), 6);
}

#[test]
fn a_gap_is_buffered_and_asked_for() {
    let (_, entries) = six();
    let mut r = reader();
    assert_eq!(r.ingest(entries[0].clone()), Some(Signal::Announce(1)));
    assert_eq!(r.ingest(entries[3].clone()), Some(Signal::Request(2)));
    assert_eq!(r.ingest(entries[2].clone()), Some(Signal::Request(2)));
    assert_eq!(r.version(), 1);
    assert_eq!(balances(&r), vec![("alice".to_string(), 100)]);
    // The missing one lets everything that waited follow.
    assert_eq!(r.ingest(entries[1].clone()), Some(Signal::Announce(4)));
    assert_eq!(balances(&r), vec![("alice".to_string(), 90)]);
}

#[test]
fn what_a_reader_has_it_ignores() {
    let (_, entries) = six();
    let mut r = reader();
    r.ingest(entries[0].clone());
    assert_eq!(r.ingest(entries[0].clone()), None);
    assert_eq!(r.ingest(Entry { version: 0, op: vec![] }), None);
    assert_eq!(r.ingest(entries[4].clone()), Some(Signal::Request(2)));
    assert_eq!(r.ingest(entries[4].clone()), Some(Signal::Request(2)));
    assert_eq!(r.version(), 1);
}

#[test]
fn any_order_reaches_the_same_state() {
    let (w, entries) = six();
    let orders: [[usize; 8]; 4] = [
        [5, 4, 3, 2, 1, 0, 0, 5],
        [1, 1, 0, 3, 5, 2, 4, 3],
        [0, 2, 4, 1, 3, 5, 2, 1],
        [3, 0, 3, 5, 1, 4, 2, 0],
    ];
    for order in orders {
        let mut r = reader();
        let mut last = 0;
        for i in order {
            r.ingest(entries[i].clone());
            assert!(r.version() >= last);
            last = r.version();
        }
        assert_eq!(r.version(), 6);
        assert_eq!(balances(&r), balances(&w));
    }
}

#[test]
fn a_malformed_operation_is_skipped_and_the_version_advances() {
    let mut r = reader();
    assert_eq!(
        r.ingest(Entry { version: 1, op: b"no json".to_vec() }),
        Some(Signal::Announce(1))
    );
    assert_eq!(balances(&r), vec![]);
    assert_eq!(
        r.ingest(Entry { version: 2, op: b"[\"bob\",3]".to_vec() }),
        Some(Signal::Announce(2))
    );
    assert_eq!(balances(&r), vec![("bob".to_string(), 3)]);
}

#[test]
fn the_last_version_there_is_can_be_applied() {
    let mut r = snapshot_reader();
    let cp = Checkpoint { base: u64::MAX - 1, cid: "c".to_string() };
    assert_eq!(
        r.install_snapshot(&cp, Ok(Ledger::default())),
        Some(Signal::Announce(u64::MAX - 1))
    );
    assert_eq!(
        r.ingest(Entry { version: u64::MAX, op: b"[\"z\",1]".to_vec() }),
        Some(Signal::Announce(u64::MAX))
    );
    assert_eq!(r.ingest(Entry { version: u64::MAX, op: vec![] }), None);
    assert_eq!(balances(&r), vec![("z".to_string(), 1)]);
}

#[test]
fn a_writer_serves_the_tail_that_is_asked_for() {
    let (w, _) = six();
    let reply = w.serve_catch_up(&CatchUp { from: 4 });
    assert_eq!(versions(&reply.tail), vec![4, 5, 6]);
    assert!(reply.redirect.is_none());
    assert_eq!(versions(&w.serve_catch_up(&CatchUp { from: 0 }).tail), vec![1, 2, 3, 4, 5, 6]);
    assert_eq!(versions(&w.serve_catch_up(&CatchUp { from: 7 }).tail), Vec::<u64>::new());
}

#[test]
fn the_first_catch_up_converges() {
    let (w, _) = six();
    let mut r = reader();
    let signals = done(r.take_reply(w.serve_catch_up(&CatchUp { from: 1 })));
    let expected: Vec<Signal> = (1..7).map(Signal::Announce).collect();
    assert_eq!(signals, expected);
    assert_eq!(r.version(), w.version());
    assert_eq!(balances(&r), balances(&w));
}

#[test]
fn a_catch_up_fills_the_gap_under_what_waits() {
    let (w, entries) = six();
    let mut r = reader();
    r.ingest(entries[0].clone());
    r.ingest(entries[4].clone());
    let signals = done(r.take_reply(w.serve_catch_up(&CatchUp { from: 2 })));
    // Version 5 was waiting, so it comes in with version 4 and is ignored on its own.
    assert_eq!(
        signals,
        vec![
            Signal::Announce(2),
            Signal::Announce(3),
            Signal::Announce(5),
            Signal::Announce(6)
        ]
    );
    assert_eq!(balances(&r), balances(&w));
}

#[test]
fn a_checkpoint_compacts_the_log() {
    let (mut w, _) = six();
    assert_eq!(w.compaction_floor(), 0);
    assert!(w.current_checkpoint().is_none());
    let (bytes, base) = match w.begin_checkpoint() {
        Ok(started) => started,
        Err(e) => panic!("{}", e.message()),
    };
    assert_eq!(base, 6);
    assert_eq!(bytes, b"{\"alice\":90,\"carol\":1,\"dave\":2}".to_vec());
    // Operations made while the object is being stored stay in the log.
    propose(&mut w, set("erin", 3));
    let cp = match w.checkpoint(base, "cid-6".to_string()) {
        Ok(cp) => cp,
        Err(e) => panic!("{}", e.message()),
    };
    assert_eq!((cp.base, cp.cid.as_str()), (6, "cid-6"));
    assert_eq!(w.compaction_floor(), 6);
    let current = w.current_checkpoint().unwrap();
    assert_eq!((current.base, current.cid.as_str()), (6, "cid-6"));
    let reply = w.serve_catch_up(&CatchUp { from: 1 });
    assert_eq!(versions(&reply.tail), vec![7]);
    assert_eq!(reply.redirect.unwrap().cid, "cid-6");
    // Exactly at the floor a reader is redirected, just above it is not.
    assert!(w.serve_catch_up(&CatchUp { from: 6 }).redirect.is_some());
    let above = w.serve_catch_up(&CatchUp { from: 7 });
    assert!(above.redirect.is_none());
    assert_eq!(versions(&above.tail), vec![7]);
}

#[test]
fn the_floor_never_goes_back() {
    let (mut w, _) = six();
    assert!(w.checkpoint(5, "cid-5".to_string()).is_ok());
    let late = w.checkpoint(2, "cid-2".to_string()).unwrap();
    assert_eq!((late.base, late.cid.as_str()), (2, "cid-2"));
    assert_eq!(w.compaction_floor(), 5);
    assert_eq!(w.current_checkpoint().unwrap().cid, "cid-5");
    assert_eq!(versions(&w.serve_catch_up(&CatchUp { from: 1 }).tail), vec![6]);
    // A second checkpoint of the same version takes the place of the first.
    assert!(w.checkpoint(5, "cid-5b".to_string()).is_ok());
    assert_eq!(w.current_checkpoint().unwrap().cid, "cid-5b");
}

#[test]
fn a_read_replica_refuses_to_checkpoint() {
    let mut r = snapshot_reader();
    match r.begin_checkpoint() {
        Err(e) => {
            assert!(matches!(e, CheckpointError::ReadReplica));
            assert_eq!(
                e.message(),
                "checkpoint() on a read replica — only the writer may checkpoint"
            );
        }
        Ok(_) => panic!("a reader took a checkpoint"),
    }
    assert!(matches!(r.checkpoint(0, "c".to_string()), Err(CheckpointError::ReadReplica)));
    assert!(r.current_checkpoint().is_none());
    assert_eq!(r.compaction_floor(), 0);
}

#[test]
fn a_state_that_cannot_be_saved_gives_no_checkpoint() {
    let mut w = writer();
    propose(&mut w, set("unsavable", 1));
    match w.begin_checkpoint() {
        Err(CheckpointError::Save(reason)) => assert_eq!(reason, "will not be saved"),
        _ => panic!("it was saved"),
    }
    assert_eq!(CheckpointError::Save("no".to_string()).message(), "no");
    assert_eq!(w.snapshot_bytes(), Err("will not be saved".to_string()));
}

#[test]
fn a_snapshot_bootstrap_equals_a_full_replay() {
    let (mut w, entries) = six();
    let mut full = reader();
    for e in &entries {
        full.ingest(e.clone());
    }
    let (object, base) = w.begin_checkpoint().ok().unwrap();
    w.checkpoint(base, "cid".to_string()).ok().unwrap();
    full.ingest(propose(&mut w, set("erin", 3)));
    full.ingest(propose(&mut w, close("alice")));

    let mut r = snapshot_reader();
    let (cp, tail) = fetch(r.take_reply(w.serve_catch_up(&CatchUp { from: 1 })));
    assert_eq!((cp.base, cp.cid.as_str()), (6, "cid"));
    assert_eq!(r.version(), 0);
    let loaded = Replicated::<Ledger>::load_object(Ok(object));
    let signals = r.finish_catch_up(&cp, loaded, tail);
    assert_eq!(signals, vec![Signal::Announce(6), Signal::Announce(7), Signal::Announce(8)]);
    assert_eq!(r.version(), 8);
    assert_eq!(r.snapshot_bytes(), full.snapshot_bytes());
    assert_eq!(balances(&r), balances(&w));
}

#[test]
fn a_snapshot_that_cannot_be_loaded_leaves_the_replica_alone() {
    let (mut w, _) = six();
    w.checkpoint(4, "cid".to_string()).ok().unwrap();
    let mut r = snapshot_reader();
    let (cp, tail) = fetch(r.take_reply(w.serve_catch_up(&CatchUp { from: 1 })));
    let loaded = Replicated::<Ledger>::load_object(Err("not found".to_string()));
    assert_eq!(loaded, Err("not found".to_string()));
    // The tail waits, and asks for what is missing below it.
    assert_eq!(
        r.finish_catch_up(&cp, loaded, tail),
        vec![Signal::Request(1), Signal::Request(1)]
    );
    assert_eq!(r.version(), 0);
    assert!(Replicated::<Ledger>::load_object(Ok(b"{".to_vec())).is_err());
}

#[test]
fn a_reader_without_snapshots_asks_for_the_whole_log() {
    let (mut w, _) = six();
    w.checkpoint(5, "cid".to_string()).ok().unwrap();
    let mut r = reader();
    let signals = done(r.take_reply(w.serve_catch_up(&CatchUp { from: 1 })));
    assert_eq!(signals, vec![Signal::Request(1), Signal::Request(1)]);
    assert_eq!(r.version(), 0);
}

#[test]
fn a_redirect_to_what_is_reached_is_skipped() {
    let (w, entries) = six();
    let mut r = snapshot_reader();
    for e in &entries[..3] {
        r.ingest(e.clone());
    }
    let cp = Checkpoint { base: 3, cid: "cid".to_string() };
    assert_eq!(r.load_checkpoint(&cp), LoadStep::Skip);
    assert_eq!(r.load_checkpoint(&Checkpoint { base: 4, cid: "c".to_string() }), LoadStep::Fetch);
    assert_eq!(
        reader().load_checkpoint(&Checkpoint { base: 1, cid: "c".to_string() }),
        LoadStep::AskForAll
    );
    let reply = CatchUpReply { tail: entries[3..].to_vec(), redirect: Some(cp) };
    assert_eq!(
        done(r.take_reply(reply)),
        vec![Signal::Announce(4), Signal::Announce(5), Signal::Announce(6)]
    );
    assert_eq!(balances(&r), balances(&w));
}

#[test]
fn a_snapshot_overtaken_while_it_was_fetched_is_not_installed() {
    let (_, entries) = six();
    let mut r = snapshot_reader();
    let cp = Checkpoint { base: 2, cid: "cid".to_string() };
    assert_eq!(r.load_checkpoint(&cp), LoadStep::Fetch);
    for e in &entries[..3] {
        r.ingest(e.clone());
    }
    assert_eq!(r.install_snapshot(&cp, Ok(Ledger::default())), None);
    assert_eq!(r.version(), 3);
    assert_eq!(balances(&r), vec![("alice".to_string(), 90), ("bob".to_string(), 7)]);
}

#[test]
fn installing_drops_what_it_covers_and_applies_what_waits_above() {
    let (w, entries) = six();
    let mut r = snapshot_reader();
    for i in [1, 3, 4, 5] {
        assert_eq!(r.ingest(entries[i].clone()), Some(Signal::Request(1)));
    }
    let mut at_three = Ledger::default();
    at_three.0.insert("alice".to_string(), 90);
    at_three.0.insert("bob".to_string(), 7);
    let cp = Checkpoint { base: 3, cid: "cid".to_string() };
    assert_eq!(r.install_snapshot(&cp, Ok(at_three)), Some(Signal::Announce(6)));
    assert_eq!(balances(&r), balances(&w));
}

#[test]
fn a_checkpoint_spares_caught_up_readers() {
    let (mut w, entries) = six();
    let mut r = reader();
    for e in &entries {
        r.ingest(e.clone());
    }
    w.checkpoint(6, "cid".to_string()).ok().unwrap();
    propose(&mut w, set("erin", 3));
    let reply = w.serve_catch_up(&CatchUp { from: r.version() + 1 });
    assert!(reply.redirect.is_none());
    assert_eq!(done(r.take_reply(reply)), vec![Signal::Announce(7)]);
    assert_eq!(balances(&r), balances(&w));
}

#[test]
fn waiting_ends_once_the_version_is_reached() {
    let (_, entries) = six();
    let mut r = reader();
    assert!(r.await_version(0));
    assert!(!r.await_version(1));
    r.ingest(entries[0].clone());
    assert!(r.await_version(1));
    assert!(!r.await_version(2));
}

fn message(from: &str, payload_hex: &str) -> AppMessage {
    AppMessage {
        from: from.to_string(),
        topic: "t".to_string(),
        payload_hex: payload_hex.to_string(),
        reply_token: None,
        received_at: 0,
    }
}

#[test]
fn a_reader_accepts_its_writer_only() {
    let r = reader();
    assert_eq!(r.accept(&message(WRITER, "7b7D")), Some(b"{}".to_vec()));
    assert_eq!(r.accept(&message("beef", "7b7d")), None);
    assert_eq!(r.accept(&message(WRITER, "7b7")), None);
    assert_eq!(r.accept(&message(WRITER, "zz")), None);
    let w = writer();
    assert_eq!(w.accept(&message("beef", "7b7d")), Some(b"{}".to_vec()));
    assert_eq!(w.accept(&message("beef", "7b7x")), None);
}

/// A message whose payload is the hex of a version and an operation in JSON.
fn entry_message(from: &str, e: &Entry) -> AppMessage {
    let json = serde_json::to_vec(&(e.version, &e.op)).unwrap();
    let hex: String = json.iter().map(|b| format!("{b:02x}")).collect();
    message(from, &hex)
}

fn parse_entry(bytes: &Vec<u8>) -> Option<Entry> {
    let (version, op) = serde_json::from_slice::<(u64, Vec<u8>)>(bytes).ok()?;
    Some(Entry { version, op })
}

#[test]
fn a_reader_takes_in_what_its_writer_sends() {
    let (_, entries) = six();
    let mut r = reader();
    let first = entry_message(WRITER, &entries[0]);
    assert_eq!(r.on_message(&first, parse_entry), Some(Signal::Announce(1)));
    assert_eq!(r.on_message(&first, parse_entry), None);
    let third = entry_message(WRITER, &entries[2]);
    assert_eq!(r.on_message(&third, parse_entry), Some(Signal::Request(2)));
    assert_eq!(balances(&r), vec![("alice".to_string(), 100)]);
    let second = entry_message(WRITER, &entries[1]);
    assert_eq!(r.on_message(&second, parse_entry), Some(Signal::Announce(3)));
    assert_eq!(balances(&r), vec![("alice".to_string(), 90), ("bob".to_string(), 7)]);
}

#[test]
fn others_cannot_mutate_what_a_reader_follows() {
    let (_, entries) = six();
    let mut r = reader();
    let forged = Entry { version: 1, op: b"[\"mallory\",9]".to_vec() };
    assert_eq!(r.on_message(&entry_message("beef", &forged), parse_entry), None);
    // Nor does what holds no entry change anything: it is no hex, or it does not parse.
    assert_eq!(r.on_message(&message(WRITER, "5b3"), parse_entry), None);
    assert_eq!(r.on_message(&message(WRITER, "7b7d"), parse_entry), None);
    assert_eq!(r.version(), 0);
    assert_eq!(balances(&r), vec![]);
    let mut alone = reader();
    for e in &entries {
        r.on_message(&entry_message("beef", &forged), parse_entry);
        r.on_message(&entry_message(WRITER, e), parse_entry);
        alone.on_message(&entry_message(WRITER, e), parse_entry);
    }
    assert_eq!(r.version(), alone.version());
    assert_eq!(balances(&r), balances(&alone));
}

#[test]
fn a_writer_answers_requests_from_anyone() {
    let (w, _) = six();
    let parse = |b: &Vec<u8>| Some(CatchUp { from: serde_json::from_slice(b).ok()? });
    // 0x35 is the digit five.
    let reply = w.on_request(&message("beef", "35"), parse).unwrap();
    assert_eq!(versions(&reply.tail), vec![5, 6]);
    assert!(reply.redirect.is_none());
    assert!(w.on_request(&message("beef", "3"), parse).is_none());
    assert!(w.on_request(&message("beef", "7b"), parse).is_none());
}

#[test]
fn a_full_read_replica_refuses_to_mutate_too() {
    let mut r = snapshot_reader();
    let cp = Checkpoint { base: u64::MAX, cid: "c".to_string() };
    r.install_snapshot(&cp, Ok(Ledger::default()));
    assert_eq!(r.version(), u64::MAX);
    assert!(!r.is_writer());
    assert!(matches!(r.propose(set("alice", 1)), Err(ProposeError::ReadReplica)));
    assert!(matches!(r.checkpoint(0, "c".to_string()), Err(CheckpointError::ReadReplica)));
    assert_eq!(r.version(), u64::MAX);
    assert_eq!(balances(&r), vec![]);
    assert!(writer().is_writer());
}

#[test]
fn watchers_see_the_version_a_replica_is_at() {
    let (_, entries) = six();
    let mut r = reader();
    let mut watched = 0;
    for i in [2, 0, 1, 1, 5, 3, 4] {
        let before = r.version();
        let signal = r.ingest(entries[i].clone());
        let next = signal.map_or(watched, |s| s.watched(watched));
        assert_eq!(next != watched, r.version() > before);
        watched = next;
        assert_eq!(watched, r.version());
    }
    assert_eq!(watched, 6);
    // A late announcement takes nobody back.
    assert_eq!(Signal::Announce(4).watched(6), 6);
    assert_eq!(Signal::Announce(7).watched(6), 7);
    assert_eq!(Signal::Request(9).watched(6), 6);
}

#[test]
fn replicas_at_the_same_version_agree() {
    let (mut w, entries) = six();
    let (object, base) = w.begin_checkpoint().ok().unwrap();
    let e = propose(&mut w, set("erin", 3));
    let mut ordered = reader();
    for entry in &entries {
        ordered.ingest(entry.clone());
    }
    let mut booted = snapshot_reader();
    let cp = Checkpoint { base, cid: "cid".to_string() };
    booted.install_snapshot(&cp, Replicated::<Ledger>::load_object(Ok(object)));
    assert_eq!(ordered.version(), booted.version());
    assert_eq!(balances(&ordered), balances(&booted));
    // A reader that has reached the version of a mutation shows it.
    ordered.ingest(e.clone());
    booted.ingest(e.clone());
    assert!(ordered.await_version(e.version) && booted.await_version(e.version));
    assert_eq!(balances(&ordered), balances(&w));
    assert_eq!(balances(&booted), balances(&w));
}

#[test]
fn without_a_checkpoint_a_snapshot_reader_replays_like_any_other() {
    let (w, _) = six();
    let mut plain = reader();
    let mut loading = snapshot_reader();
    let a = done(plain.take_reply(w.serve_catch_up(&CatchUp { from: 1 })));
    let b = done(loading.take_reply(w.serve_catch_up(&CatchUp { from: 1 })));
    assert_eq!(a, b);
    assert_eq!(balances(&plain), balances(&loading));
    assert_eq!(loading.version(), 6);
}
