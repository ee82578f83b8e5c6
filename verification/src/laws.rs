//! What holds of writers and readers together.
//!
//! A history is the list of all operations a writer ever made, the one of version `v` at position
//! `v - 1`. The laws here say how replicas relate to it, whatever the order, the gaps and the
//! repetitions in what they receive.

use vstd::prelude::*;

use crate::machine;
use crate::machine::{Snapshot, StateMachine, Version};
use crate::message::MessageView;
use crate::replica::ReplicaState;
use crate::replicated::ReplicatedState;
use crate::wire::{CheckpointView, EntryView, Signal};

verus! {

/// The entry of version `v` in a history.
pub open spec fn entry_of(history: Seq<Seq<u8>>, v: int) -> EntryView {
    EntryView { version: v as Version, op: history[v - 1] }
}

/// The entries of a history from version `from` on.
pub open spec fn entries_from(history: Seq<Seq<u8>>, from: int) -> Seq<EntryView> {
    Seq::new((history.len() - from + 1) as nat, |i: int| entry_of(history, from + i))
}

/// The entry belongs to the history.
pub open spec fn authored(history: Seq<Seq<u8>>, e: EntryView) -> bool {
    1 <= e.version <= history.len() && e.op == history[e.version - 1]
}

/// Every entry of the list belongs to the history.
pub open spec fn all_authored(history: Seq<Seq<u8>>, entries: Seq<EntryView>) -> bool {
    forall|i: int| 0 <= i < entries.len() ==> authored(history, #[trigger] entries[i])
}

/// Version `v` occurs in the list.
pub open spec fn delivers(entries: Seq<EntryView>, v: Version) -> bool {
    exists|i: int| 0 <= i < entries.len() && (#[trigger] entries[i]).version == v
}

impl<S: StateMachine> ReplicaState<S> {
    /// The replica has got to where replaying the first part of the history gets, and whatever
    /// waits on it belongs to the history too.
    pub open spec fn follows(self, history: Seq<Seq<u8>>) -> bool {
        &&& self.wf()
        &&& self.applied <= history.len()
        &&& self.sm == machine::replay::<S>(S::initial(), history.take(self.applied as int))
        &&& forall|v: Version| #[trigger]
            self.pending.contains_key(v) ==> v <= history.len() && self.pending[v] == history[v - 1]
    }

    /// The replica has the entry of version `v`, applied or waiting.
    pub open spec fn has(self, v: Version) -> bool {
        v <= self.applied || self.pending.contains_key(v)
    }
}

impl<S: StateMachine> ReplicatedState<S> {
    /// The writer has made exactly the operations of the history, and its log holds all of them
    /// above the compaction floor.
    pub open spec fn owns(self, history: Seq<Seq<u8>>) -> bool {
        &&& self.wf()
        &&& self.is_writer
        &&& self.replica.applied == history.len()
        &&& self.replica.sm == machine::replay::<S>(S::initial(), history)
        &&& self.log == entries_from(history, self.floor() + 1)
    }
}

/// Replaying one operation more is one step more.
proof fn lemma_replay_next<S: StateMachine>(history: Seq<Seq<u8>>, n: int)
    requires
        0 <= n < history.len(),
    ensures
        machine::replay::<S>(S::initial(), history.take(n + 1)) == machine::step::<S>(
            machine::replay::<S>(S::initial(), history.take(n)),
            history[n],
        ),
{
    assert(history.take(n + 1).drop_last() =~= history.take(n));
}

/// Settling keeps to the history and loses no entry.
proof fn lemma_settled_follows<S: StateMachine>(r: ReplicaState<S>, history: Seq<Seq<u8>>)
    requires
        r.applied <= history.len(),
        r.sm == machine::replay::<S>(S::initial(), history.take(r.applied as int)),
        forall|v: Version| #[trigger]
            r.pending.contains_key(v) ==> r.applied < v <= history.len() && r.pending[v]
                == history[v - 1],
    ensures
        r.settled().follows(history),
        forall|v: Version| r.has(v) ==> #[trigger] r.settled().has(v),
    decreases Version::MAX - r.applied,
{
    if r.next_waits() {
        let next = (r.applied + 1) as Version;
        lemma_replay_next::<S>(history, r.applied as int);
        lemma_settled_follows(r.advanced(), history);
        assert forall|v: Version| r.has(v) implies #[trigger] r.settled().has(v) by {
            assert(r.advanced().has(v));
        }
    }
}

/// A new replica follows every history.
pub proof fn new_replicas_follow<S: StateMachine>(history: Seq<Seq<u8>>)
    ensures
        ReplicaState::<S>::fresh().follows(history),
{
    assert(history.take(0) =~= Seq::empty());
}

/// A new writer owns the empty history.
pub proof fn new_writers_own_nothing<S: StateMachine>(node_id: Seq<char>, name: Seq<char>)
    ensures
        ReplicatedState::<S>::opened(node_id, name, None, false).owns(Seq::empty()),
{
    let w = ReplicatedState::<S>::opened(node_id, name, None, false);
    assert(w.log =~= entries_from(Seq::empty(), 1));
}

/// An operation that the writer makes is the next one of its history, under the next version.
pub proof fn proposing_extends_the_history<S: StateMachine>(
    w: ReplicatedState<S>,
    history: Seq<Seq<u8>>,
    op: Seq<u8>,
)
    requires
        w.owns(history),
        w.replica.applied < Version::MAX,
    ensures
        w.proposed(op).owns(history.push(op)),
        w.proposed(op).replica.applied == w.replica.applied + 1,
        w.proposed(op).log.last() == entry_of(history.push(op), history.len() as int + 1),
{
    let longer = history.push(op);
    assert(longer.drop_last() =~= history);
    assert(w.proposed(op).log =~= entries_from(longer, w.floor() + 1));
}

/// Compaction forgets nothing of the history but what the snapshot covers, and the floor never
/// goes back.
pub proof fn compaction_keeps_the_history<S: StateMachine>(
    w: ReplicatedState<S>,
    history: Seq<Seq<u8>>,
    cp: CheckpointView,
)
    requires
        w.owns(history),
        cp.base <= w.replica.applied,
    ensures
        w.compacted(cp).owns(history),
        w.compacted(cp).floor() >= w.floor(),
        w.compacted(cp).floor() >= cp.base,
        w.compacted(cp).replica == w.replica,
{
    w.lemma_compacted(cp);
    let c = w.compacted(cp);
    assert(c.log =~= entries_from(history, c.floor() + 1));
}

/// An entry of the history, received at whatever time, keeps a replica to the history.
pub proof fn receiving_keeps_to_the_history<S: StateMachine>(
    r: ReplicaState<S>,
    history: Seq<Seq<u8>>,
    e: EntryView,
)
    requires
        r.follows(history),
        authored(history, e),
    ensures
        r.ingested(e.version, e.op).follows(history),
        r.ingested(e.version, e.op).has(e.version),
        forall|v: Version| r.has(v) ==> #[trigger] r.ingested(e.version, e.op).has(v),
{
    if e.version > r.applied {
        let b = r.buffered(e.version, e.op);
        lemma_settled_follows(b, history);
        assert(b.has(e.version));
        assert(b.settled().has(e.version));
        assert forall|v: Version| r.has(v) implies #[trigger] r.ingested(e.version, e.op).has(
            v,
        ) by {
            assert(b.has(v));
        }
    }
}

/// A snapshot of the history keeps a replica to the history.
pub proof fn installing_keeps_to_the_history<S: StateMachine>(
    r: ReplicaState<S>,
    history: Seq<Seq<u8>>,
    base: Version,
    sm: S::Model,
)
    requires
        r.follows(history),
        base <= history.len(),
        sm == machine::replay::<S>(S::initial(), history.take(base as int)),
    ensures
        r.installed(base, sm).follows(history),
        r.installed(base, sm).applied >= base,
        forall|v: Version| r.has(v) ==> #[trigger] r.installed(base, sm).has(v),
{
    if r.applied < base {
        let pending = r.pending.restrict(Set::new(|v: Version| v > base));
        let put = ReplicaState::<S> { sm, applied: base, pending };
        lemma_settled_follows(put, history);
        put.lemma_settled();
        assert forall|v: Version| r.has(v) implies #[trigger] r.installed(base, sm).has(v) by {
            assert(put.has(v));
        }
    }
}

/// Entries of the history, received in whatever order and however often, keep a replica to the
/// history; the replica has all of them afterwards, and whatever it had before.
pub proof fn absorbing_keeps_to_the_history<S: StateMachine>(
    r: ReplicaState<S>,
    history: Seq<Seq<u8>>,
    entries: Seq<EntryView>,
)
    requires
        r.follows(history),
        all_authored(history, entries),
    ensures
        r.absorbed(entries).follows(history),
        forall|v: Version|
            r.has(v) || delivers(entries, v) ==> #[trigger] r.absorbed(entries).has(v),
    decreases entries.len(),
{
    if entries.len() > 0 {
        let shorter = entries.drop_last();
        let e = entries.last();
        assert(authored(history, entries[entries.len() - 1]));
        assert forall|i: int| 0 <= i < shorter.len() implies authored(
            history,
            #[trigger] shorter[i],
        ) by {
            assert(shorter[i] == entries[i]);
        }
        absorbing_keeps_to_the_history(r, history, shorter);
        receiving_keeps_to_the_history(r.absorbed(shorter), history, e);
        assert forall|v: Version| r.has(v) || delivers(entries, v) implies #[trigger] r.absorbed(
            entries,
        ).has(v) by {
            if delivers(entries, v) {
                let i = choose|i: int|
                    0 <= i < entries.len() && (#[trigger] entries[i]).version == v;
                if i < shorter.len() {
                    assert(shorter[i].version == v);
                    assert(delivers(shorter, v));
                }
            }
            if v != e.version {
                assert(r.absorbed(shorter).has(v));
            }
        }
    }
}

/// Delivery may be late, out of order and repeated: once every version up to `n` that a replica
/// missed has come in somehow, it has got at least to version `n`.
pub proof fn delivery_order_does_not_matter<S: StateMachine>(
    r: ReplicaState<S>,
    history: Seq<Seq<u8>>,
    entries: Seq<EntryView>,
    n: Version,
)
    requires
        r.follows(history),
        all_authored(history, entries),
        n <= history.len(),
        forall|v: Version| r.applied < v <= n ==> #[trigger] delivers(entries, v),
    ensures
        r.absorbed(entries).follows(history),
        r.absorbed(entries).applied >= n,
        n == history.len() ==> r.absorbed(entries).applied == n && r.absorbed(entries).sm
            == machine::replay::<S>(S::initial(), history),
{
    absorbing_keeps_to_the_history(r, history, entries);
    let end = r.absorbed(entries);
    if end.applied < n {
        let next = (end.applied + 1) as Version;
        if next > r.applied {
            assert(delivers(entries, next));
        }
        assert(end.has(next));
    }
    assert(history.take(history.len() as int) =~= history);
}

/// Something that reaches a reader: an entry, or a snapshot that holds `sm` and covers everything
/// up to `base`.
#[verifier::reject_recursive_types(S)]
pub enum Arrival<S: StateMachine> {
    Received(EntryView),
    Installed { base: Version, sm: S::Model },
}

impl<S: StateMachine> Arrival<S> {
    /// What arrives belongs to the history.
    pub open spec fn genuine(self, history: Seq<Seq<u8>>) -> bool {
        match self {
            Arrival::Received(e) => authored(history, e),
            Arrival::Installed { base, sm } => {
                &&& base <= history.len()
                &&& sm == machine::replay::<S>(S::initial(), history.take(base as int))
            },
        }
    }

    /// What arrives is version `v`, or covers it.
    pub open spec fn brings(self, v: Version) -> bool {
        match self {
            Arrival::Received(e) => e.version == v,
            Arrival::Installed { base, sm } => v <= base,
        }
    }
}

impl<S: StateMachine> ReplicaState<S> {
    /// The replica after one arrival.
    pub open spec fn reached_by(self, arrival: Arrival<S>) -> Self {
        match arrival {
            Arrival::Received(e) => self.ingested(e.version, e.op),
            Arrival::Installed { base, sm } => self.installed(base, sm),
        }
    }

    /// The replica after a list of arrivals.
    pub open spec fn run(self, arrivals: Seq<Arrival<S>>) -> Self
        decreases arrivals.len(),
    {
        if arrivals.len() == 0 {
            self
        } else {
            self.run(arrivals.drop_last()).reached_by(arrivals.last())
        }
    }
}

/// Some arrival of the list is version `v`, or covers it.
pub open spec fn brought<S: StateMachine>(arrivals: Seq<Arrival<S>>, v: Version) -> bool {
    exists|i: int| 0 <= i < arrivals.len() && (#[trigger] arrivals[i]).brings(v)
}

/// Whatever reaches a reader, entries and snapshots in any order and any number, it keeps to the
/// history it belongs to, never goes back, and never loses what it has got.
pub proof fn every_run_keeps_to_the_history<S: StateMachine>(
    r: ReplicaState<S>,
    history: Seq<Seq<u8>>,
    arrivals: Seq<Arrival<S>>,
)
    requires
        r.follows(history),
        forall|i: int| 0 <= i < arrivals.len() ==> (#[trigger] arrivals[i]).genuine(history),
    ensures
        r.run(arrivals).follows(history),
        r.run(arrivals).applied >= r.applied,
        forall|v: Version|
            r.has(v) || brought(arrivals, v) ==> #[trigger] r.run(arrivals).has(v),
    decreases arrivals.len(),
{
    if arrivals.len() > 0 {
        let shorter = arrivals.drop_last();
        let last = arrivals.last();
        assert forall|i: int| 0 <= i < shorter.len() implies (#[trigger] shorter[i]).genuine(
            history,
        ) by {
            assert(arrivals[i].genuine(history));
        }
        every_run_keeps_to_the_history(r, history, shorter);
        let before = r.run(shorter);
        assert(arrivals[arrivals.len() - 1].genuine(history));
        match last {
            Arrival::Received(e) => {
                receiving_keeps_to_the_history(before, history, e);
                before.lemma_ingested(e.version, e.op);
            },
            Arrival::Installed { base, sm } => {
                installing_keeps_to_the_history(before, history, base, sm);
                before.lemma_installed(base, sm);
            },
        }
        assert forall|v: Version| r.has(v) || brought(arrivals, v) implies #[trigger] r.run(
            arrivals,
        ).has(v) by {
            if !last.brings(v) {
                if !r.has(v) {
                    let i = choose|i: int|
                        0 <= i < arrivals.len() && (#[trigger] arrivals[i]).brings(v);
                    assert(shorter[i].brings(v));
                    assert(brought(shorter, v));
                }
                assert(before.has(v));
            }
        }
    }
}

/// Once everything up to version `n` that a reader missed has reached it somehow, it has got at
/// least to version `n`; and if that is all there is, it is in the state that the whole history
/// leads to.
pub proof fn every_run_converges<S: StateMachine>(
    r: ReplicaState<S>,
    history: Seq<Seq<u8>>,
    arrivals: Seq<Arrival<S>>,
    n: Version,
)
    requires
        r.follows(history),
        forall|i: int| 0 <= i < arrivals.len() ==> (#[trigger] arrivals[i]).genuine(history),
        n <= history.len(),
        forall|v: Version| r.applied < v <= n ==> #[trigger] brought(arrivals, v),
    ensures
        r.run(arrivals).applied >= n,
        n == history.len() ==> r.run(arrivals).applied == n && r.run(arrivals).sm
            == machine::replay::<S>(S::initial(), history),
{
    every_run_keeps_to_the_history(r, history, arrivals);
    let end = r.run(arrivals);
    if end.applied < n {
        let next = (end.applied + 1) as Version;
        assert(end.has(next));
    }
    assert(history.take(history.len() as int) =~= history);
}

/// A message that reaches a reader, and the entry its payload holds, if it holds one.
pub struct Delivery {
    pub message: MessageView,
    pub entry: Option<EntryView>,
}

impl<S: StateMachine> ReplicatedState<S> {
    /// The reader after a list of messages.
    pub open spec fn listened(self, deliveries: Seq<Delivery>) -> Self
        decreases deliveries.len(),
    {
        if deliveries.len() == 0 {
            self
        } else {
            let d = deliveries.last();
            self.listened(deliveries.drop_last()).heard(d.message, d.entry)
        }
    }
}

/// Only the followed writer is heard: whatever messages reach a reader, it ends up where the
/// messages of the writer it follows alone would have led it.
pub proof fn only_the_followed_writer_is_heard<S: StateMachine>(
    r: ReplicatedState<S>,
    deliveries: Seq<Delivery>,
)
    requires
        !r.is_writer,
    ensures
        r.listened(deliveries) == r.listened(
            deliveries.filter(|d: Delivery| d.message.from == r.writer),
        ),
        r.listened(deliveries) == (ReplicatedState {
            replica: r.listened(deliveries).replica,
            ..r
        }),
    decreases deliveries.len(),
{
    let by_writer = |d: Delivery| d.message.from == r.writer;
    reveal_with_fuel(Seq::<_>::filter, 1);
    if deliveries.len() > 0 {
        let shorter = deliveries.drop_last();
        let d = deliveries.last();
        only_the_followed_writer_is_heard(r, shorter);
        if by_writer(d) {
            assert(shorter.filter(by_writer).push(d).drop_last() =~= shorter.filter(by_writer));
        }
    }
}

/// A reader applies only what the writer it follows authored: if whatever the writer's own
/// messages hold belongs to its history, the reader keeps to that history, whatever anyone else
/// sends.
pub proof fn others_cannot_mislead_a_reader<S: StateMachine>(
    r: ReplicatedState<S>,
    history: Seq<Seq<u8>>,
    deliveries: Seq<Delivery>,
)
    requires
        !r.is_writer,
        r.replica.follows(history),
        forall|i: int|
            0 <= i < deliveries.len() && (#[trigger] deliveries[i]).message.from == r.writer ==> (
            deliveries[i].entry matches Some(e) ==> authored(history, e)),
    ensures
        r.listened(deliveries).replica.follows(history),
    decreases deliveries.len(),
{
    if deliveries.len() > 0 {
        let shorter = deliveries.drop_last();
        let d = deliveries.last();
        assert forall|i: int|
            0 <= i < shorter.len() && (#[trigger] shorter[i]).message.from == r.writer implies (
        shorter[i].entry matches Some(e) ==> authored(history, e)) by {
            assert(shorter[i] == deliveries[i]);
        }
        others_cannot_mislead_a_reader(r, history, shorter);
        only_the_followed_writer_is_heard(r, shorter);
        assert(deliveries[deliveries.len() - 1] == d);
        let before = r.listened(shorter);
        if let Some(e) = d.entry {
            if before.heeds(d.message) {
                receiving_keeps_to_the_history(before.replica, history, e);
            }
        }
    }
}

/// Something a writer does: it makes an operation, or records a checkpoint.
pub enum Deed {
    Proposed(Seq<u8>),
    Checkpointed(CheckpointView),
}

/// The operations among what a writer does, in order.
pub open spec fn operations(deeds: Seq<Deed>) -> Seq<Seq<u8>>
    decreases deeds.len(),
{
    if deeds.len() == 0 {
        Seq::empty()
    } else {
        match deeds.last() {
            Deed::Proposed(op) => operations(deeds.drop_last()).push(op),
            Deed::Checkpointed(_) => operations(deeds.drop_last()),
        }
    }
}

/// A writer can do these things in order: no checkpoint covers what is not made yet, and the
/// versions last.
pub open spec fn feasible(deeds: Seq<Deed>) -> bool
    decreases deeds.len(),
{
    deeds.len() == 0 || {
        let made = operations(deeds.drop_last()).len();
        &&& feasible(deeds.drop_last())
        &&& match deeds.last() {
            Deed::Proposed(_) => made < Version::MAX,
            Deed::Checkpointed(cp) => cp.base <= made,
        }
    }
}

impl<S: StateMachine> ReplicatedState<S> {
    /// The writer after what it does.
    pub open spec fn run(self, deeds: Seq<Deed>) -> Self
        decreases deeds.len(),
    {
        if deeds.len() == 0 {
            self
        } else {
            let before = self.run(deeds.drop_last());
            match deeds.last() {
                Deed::Proposed(op) => before.proposed(op),
                Deed::Checkpointed(cp) => before.compacted(cp),
            }
        }
    }
}

/// Whatever a writer does, it owns the history of exactly the operations it made, its log reaches
/// from the floor to the latest of them, and the floor is at least every checkpoint it recorded.
pub proof fn every_writer_owns_what_it_made<S: StateMachine>(
    node_id: Seq<char>,
    name: Seq<char>,
    deeds: Seq<Deed>,
)
    requires
        feasible(deeds),
    ensures
        ReplicatedState::<S>::opened(node_id, name, None, false).run(deeds).owns(operations(deeds)),
        forall|i: int|
            0 <= i < deeds.len() ==> ((#[trigger] deeds[i]) matches Deed::Checkpointed(cp)
                ==> cp.base <= ReplicatedState::<S>::opened(node_id, name, None, false).run(
                deeds,
            ).floor()),
    decreases deeds.len(),
{
    let new = ReplicatedState::<S>::opened(node_id, name, None, false);
    if deeds.len() == 0 {
        new_writers_own_nothing::<S>(node_id, name);
    } else {
        let shorter = deeds.drop_last();
        every_writer_owns_what_it_made::<S>(node_id, name, shorter);
        let before = new.run(shorter);
        match deeds.last() {
            Deed::Proposed(op) => {
                proposing_extends_the_history(before, operations(shorter), op);
            },
            Deed::Checkpointed(cp) => {
                compaction_keeps_the_history(before, operations(shorter), cp);
            },
        }
        assert forall|i: int| 0 <= i < deeds.len() implies (
        (#[trigger] deeds[i]) matches Deed::Checkpointed(cp) ==> cp.base <= new.run(
            deeds,
        ).floor()) by {
            if i < shorter.len() {
                assert(shorter[i] == deeds[i]);
            }
        }
    }
}

/// Replicas that follow one history are in the same state whenever they are at the same version.
pub proof fn same_version_same_state<S: StateMachine>(
    a: ReplicaState<S>,
    b: ReplicaState<S>,
    history: Seq<Seq<u8>>,
)
    requires
        a.follows(history),
        b.follows(history),
        a.applied == b.applied,
    ensures
        a.sm == b.sm,
{
}

/// A reader that has reached the version of a mutation has applied that mutation: its state is the
/// replay of a part of the history that holds it, and at that very version it is the state the
/// writer was left in.
pub proof fn reached_versions_are_visible<S: StateMachine>(
    w: ReplicatedState<S>,
    made: Seq<Seq<u8>>,
    op: Seq<u8>,
    history: Seq<Seq<u8>>,
    r: ReplicaState<S>,
)
    requires
        w.owns(made),
        w.replica.applied < Version::MAX,
        made.push(op).is_prefix_of(history),
        r.follows(history),
        r.applied >= w.proposed(op).replica.applied,
    ensures
        ({
            let version = w.proposed(op).replica.applied;
            let seen = history.take(r.applied as int);
            &&& r.sm == machine::replay::<S>(S::initial(), seen)
            &&& seen[version - 1] == op
            &&& r.applied == version ==> r.sm == w.proposed(op).replica.sm
        }),
{
    proposing_extends_the_history(w, made, op);
    assert(history[made.len() as int] == made.push(op)[made.len() as int]);
    if r.applied == made.len() + 1 {
        assert(history.take(r.applied as int) =~= made.push(op));
    }
}

/// What a writer answers to a catch-up request, whatever version it asks for: every entry from that
/// version on that the log still holds, which is none beyond the latest, and the checkpoint exactly
/// when it covers that version.
pub proof fn replies_hold_what_was_asked_for<S: StateMachine>(
    w: ReplicatedState<S>,
    made: Seq<Seq<u8>>,
    from: Version,
)
    requires
        w.owns(made),
    ensures
        w.tail_from(from) == if from <= w.floor() {
            entries_from(made, w.floor() + 1)
        } else if from <= made.len() {
            entries_from(made, from as int)
        } else {
            Seq::empty()
        },
        w.redirect_for(from) == if from <= w.floor() {
            w.checkpoint
        } else {
            None
        },
{
    w.lemma_tail_from(from);
    if from <= w.floor() {
        assert(w.tail_from(from) =~= w.log);
    } else if from <= made.len() {
        assert(w.tail_from(from) =~= entries_from(made, from as int));
    } else {
        assert(w.tail_from(from) =~= Seq::empty());
    }
}

/// The tail of a reply belongs to the history, and reaches from the requested version, or from
/// just above the floor, to the end.
proof fn lemma_reply_delivers<S: StateMachine>(
    w: ReplicatedState<S>,
    made: Seq<Seq<u8>>,
    history: Seq<Seq<u8>>,
    from: Version,
)
    requires
        w.owns(made),
        made.is_prefix_of(history),
    ensures
        all_authored(history, w.tail_from(from)),
        forall|v: Version|
            from <= v && w.floor() < v <= made.len() ==> #[trigger] delivers(w.tail_from(from), v),
{
    w.lemma_tail_from(from);
    let k = w.tail_start(from);
    let tail = w.tail_from(from);
    assert forall|i: int| 0 <= i < tail.len() implies authored(history, #[trigger] tail[i]) by {
        assert(tail[i] == w.log[i + k]);
        assert(w.log[i + k] == entry_of(made, w.floor() + 1 + i + k));
    }
    assert forall|v: Version|
        from <= v && w.floor() < v <= made.len() implies #[trigger] delivers(tail, v) by {
        let i = v - w.floor() - 1 - k;
        assert(tail[i] == w.log[i + k]);
    }
}

/// Catching up converges. A reader takes in the writer's answer to a request for everything it
/// missed, after installing the snapshot the answer redirects to, if it redirects. It is then at
/// least where the writer was when it answered, and in the writer's state if nothing was made
/// since.
pub proof fn catch_up_converges<S: StateMachine>(
    w: ReplicatedState<S>,
    made: Seq<Seq<u8>>,
    history: Seq<Seq<u8>>,
    r: ReplicaState<S>,
    from: Version,
    snapshot: S::Model,
)
    requires
        w.owns(made),
        made.is_prefix_of(history),
        r.follows(history),
        from <= r.applied + 1,
        snapshot == machine::replay::<S>(S::initial(), history.take(w.floor() as int)),
    ensures
        ({
            let ready = match w.redirect_for(from) {
                Some(cp) => r.installed(cp.base, snapshot),
                None => r,
            };
            let end = ready.absorbed(w.tail_from(from));
            &&& end.follows(history)
            &&& end.applied >= w.replica.applied
            &&& history == made ==> end.applied == w.replica.applied && end.sm == w.replica.sm
        }),
{
    let ready = match w.redirect_for(from) {
        Some(cp) => r.installed(cp.base, snapshot),
        None => r,
    };
    if w.redirect_for(from) is Some {
        installing_keeps_to_the_history(r, history, w.floor(), snapshot);
    }
    let tail = w.tail_from(from);
    lemma_reply_delivers(w, made, history, from);
    assert forall|v: Version|
        ready.applied < v <= w.replica.applied implies #[trigger] delivers(tail, v) by {
        assert(from <= v && w.floor() < v);
    }
    delivery_order_does_not_matter(ready, history, tail, w.replica.applied);
}

/// A snapshot is the fold of every operation it covers, and stays so whatever is made later.
pub proof fn snapshots_hold_the_history<S: Snapshot>(
    w: ReplicatedState<S>,
    made: Seq<Seq<u8>>,
    history: Seq<Seq<u8>>,
    bytes: Seq<u8>,
)
    requires
        w.owns(made),
        made.is_prefix_of(history),
        S::restored(bytes) == Some(w.replica.sm),
    ensures
        S::restored(bytes) == Some(
            machine::replay::<S>(S::initial(), history.take(w.replica.applied as int)),
        ),
{
}

/// Bootstrapping from a snapshot and then taking in only the newer operations reaches the state
/// that replaying the whole log reaches.
pub proof fn bootstrap_equals_full_replay<S: Snapshot>(
    w: ReplicatedState<S>,
    made: Seq<Seq<u8>>,
    history: Seq<Seq<u8>>,
    bytes: Seq<u8>,
)
    requires
        w.owns(made),
        made.is_prefix_of(history),
        history.len() <= Version::MAX,
        S::restored(bytes) == Some(w.replica.sm),
    ensures
        ({
            let base = w.replica.applied;
            let sm = S::restored(bytes).unwrap();
            let booted = ReplicaState::<S>::fresh().installed(base, sm).absorbed(
                entries_from(history, base + 1),
            );
            let replayed = ReplicaState::<S>::fresh().absorbed(entries_from(history, 1));
            &&& booted.applied == history.len()
            &&& replayed.applied == history.len()
            &&& booted.sm == replayed.sm
        }),
{
    let base = w.replica.applied;
    let sm = S::restored(bytes).unwrap();
    let fresh = ReplicaState::<S>::fresh();
    let n = history.len() as Version;
    new_replicas_follow::<S>(history);
    installing_keeps_to_the_history(fresh, history, base, sm);
    let newer = entries_from(history, base + 1);
    let whole = entries_from(history, 1);
    assert forall|v: Version| base < v <= n implies #[trigger] delivers(newer, v) by {
        assert(newer[v - base - 1].version == v);
    }
    assert forall|v: Version| 0 < v <= n implies #[trigger] delivers(whole, v) by {
        assert(whole[v - 1].version == v);
    }
    delivery_order_does_not_matter(fresh.installed(base, sm), history, newer, n);
    delivery_order_does_not_matter(fresh, history, whole, n);
}

/// A checkpoint does not touch readers that have come as far as its base: the writer answers
/// them as before and sends them to no snapshot.
pub proof fn compaction_spares_caught_up_readers<S: StateMachine>(
    w: ReplicatedState<S>,
    made: Seq<Seq<u8>>,
    cp: CheckpointView,
    from: Version,
)
    requires
        w.owns(made),
        cp.base <= w.replica.applied,
        w.floor() < from,
        cp.base < from,
    ensures
        w.compacted(cp).tail_from(from) == w.tail_from(from),
        w.compacted(cp).redirect_for(from) is None,
        w.redirect_for(from) is None,
{
    compaction_keeps_the_history(w, made, cp);
    let c = w.compacted(cp);
    w.lemma_tail_from(from);
    c.lemma_tail_from(from);
    assert(c.tail_from(from) =~= w.tail_from(from));
}

/// A writer that never took a checkpoint redirects nobody, so a reader that loads snapshots treats
/// its answers as any other reader does.
pub proof fn no_redirect_without_a_checkpoint<S: StateMachine>(
    w: ReplicatedState<S>,
    r: ReplicatedState<S>,
    from: Version,
)
    requires
        w.checkpoint is None,
    ensures
        w.redirect_for(from) is None,
        r.redirect_step(w.redirect_for(from)) == crate::replicated::LoadStep::Skip,
{
}

/// Receiving an entry a second time changes nothing more.
pub proof fn receiving_is_idempotent<S: StateMachine>(
    r: ReplicaState<S>,
    version: Version,
    op: Seq<u8>,
)
    requires
        r.wf(),
    ensures
        r.ingested(version, op).ingested(version, op) == r.ingested(version, op),
{
    r.lemma_ingested(version, op);
    let once = r.ingested(version, op);
    if version > r.applied + 1 {
        assert(once.buffered(version, op).pending =~= once.pending);
        once.lemma_ingested(version, op);
    }
}

/// A replica announces a version exactly when it advanced, and then the one it got to. It asks
/// for what is missing, from the next version on, exactly when it received something beyond a
/// gap, and then its state and version stay as they are.
pub proof fn signals_tell_what_happened<S: StateMachine>(
    r: ReplicaState<S>,
    version: Version,
    op: Seq<u8>,
)
    requires
        r.wf(),
    ensures
        ({
            let after = r.ingested(version, op);
            match r.ingest_signal(version, op) {
                Some(Signal::Announce(v)) => r.applied < after.applied && v == after.applied,
                Some(Signal::Request(v)) => {
                    &&& v == r.applied + 1
                    &&& v < version
                    &&& after.applied == r.applied
                    &&& after.sm == r.sm
                    &&& after.pending == r.pending.insert(version, op)
                },
                None => version <= r.applied && after == r,
            }
        }),
{
    r.lemma_ingested(version, op);
}

/// A replica announces a snapshot exactly when installing it advanced the replica, and then the
/// version it got to, which is at least the snapshot's. Otherwise nothing changed.
pub proof fn installing_is_announced<S: StateMachine>(
    r: ReplicaState<S>,
    base: Version,
    sm: S::Model,
)
    requires
        r.wf(),
    ensures
        ({
            let after = r.installed(base, sm);
            match r.install_signal(base, sm) {
                Some(Signal::Announce(v)) => r.applied < base <= v && v == after.applied,
                Some(Signal::Request(_)) => false,
                None => base <= r.applied && after == r,
            }
        }),
{
    r.lemma_installed(base, sm);
}

/// The version that watchers see after a list of signals, when they saw `current` before.
pub open spec fn watched_through(current: Version, signals: Seq<Signal>) -> Version
    decreases signals.len(),
{
    if signals.len() == 0 {
        current
    } else {
        signals.last().watched_after(watched_through(current, signals.drop_last()))
    }
}

/// Watchers see the version a replica is at. If they did before a replica took in entries,
/// installed a snapshot or made an operation, the signals of that lead them to the version after
/// it; so what they see changes exactly when the replica advanced.
pub proof fn watchers_see_every_advance<S: StateMachine>(
    r: ReplicaState<S>,
    entries: Seq<EntryView>,
    base: Version,
    sm: S::Model,
    w: ReplicatedState<S>,
    op: Seq<u8>,
)
    requires
        r.wf(),
        w.replica.applied < Version::MAX,
    ensures
        watched_through(r.applied, r.absorb_signals(entries)) == r.absorbed(entries).applied,
        match r.install_signal(base, sm) {
            Some(signal) => signal.watched_after(r.applied),
            None => r.applied,
        } == r.installed(base, sm).applied,
        Signal::Announce(w.proposed(op).replica.applied).watched_after(w.replica.applied)
            == w.proposed(op).replica.applied,
    decreases entries.len(),
{
    r.lemma_installed(base, sm);
    if entries.len() > 0 {
        let e = entries.last();
        let shorter = entries.drop_last();
        watchers_see_every_advance(r, shorter, base, sm, w, op);
        versions_never_go_back(r, shorter, base, sm);
        let before = r.absorbed(shorter);
        before.lemma_ingested(e.version, e.op);
        if let Some(signal) = before.ingest_signal(e.version, e.op) {
            let signals = r.absorb_signals(shorter);
            assert(signals.push(signal).drop_last() =~= signals);
        }
    }
}

/// Two signals lead watchers to the same version in either order.
pub proof fn signals_may_overtake_each_other(a: Signal, b: Signal, current: Version)
    ensures
        a.watched_after(b.watched_after(current)) == b.watched_after(a.watched_after(current)),
        a.watched_after(current) >= current,
{
}

/// A replica never goes back to an earlier version, whatever it receives or installs.
pub proof fn versions_never_go_back<S: StateMachine>(
    r: ReplicaState<S>,
    entries: Seq<EntryView>,
    base: Version,
    sm: S::Model,
)
    requires
        r.wf(),
    ensures
        r.absorbed(entries).wf(),
        r.absorbed(entries).applied >= r.applied,
        r.installed(base, sm).applied >= r.applied,
    decreases entries.len(),
{
    r.lemma_installed(base, sm);
    if entries.len() > 0 {
        let e = entries.last();
        versions_never_go_back(r, entries.drop_last(), base, sm);
        r.absorbed(entries.drop_last()).lemma_ingested(e.version, e.op);
    }
}

/// Bytes that are no operation are skipped: the state stays as it is, and the version advances
/// past them all the same.
pub proof fn malformed_operations_are_skipped<S: StateMachine>(r: ReplicaState<S>, op: Seq<u8>)
    requires
        r.wf(),
        r.applied < Version::MAX,
        !S::is_op(op),
    ensures
        r.ingested((r.applied + 1) as Version, op) == (ReplicaState {
            applied: (r.applied + 1) as Version,
            ..r
        }).settled(),
{
    let b = r.buffered((r.applied + 1) as Version, op);
    assert(b.advanced().pending =~= r.pending);
}

/// Settling applies the longest run of waiting entries that starts at the next version, in order,
/// and leaves the others waiting.
pub proof fn settling_takes_the_longest_run<S: StateMachine>(r: ReplicaState<S>)
    requires
        forall|v: Version| #[trigger] r.pending.contains_key(v) ==> v > r.applied,
    ensures
        ({
            let end = r.settled();
            let run = Seq::new(
                (end.applied - r.applied) as nat,
                |i: int| r.pending[(r.applied + 1 + i) as Version],
            );
            &&& r.applied <= end.applied
            &&& forall|v: Version|
                r.applied < v <= end.applied ==> #[trigger] r.pending.contains_key(v)
            &&& end.applied < Version::MAX ==> !r.pending.contains_key((end.applied + 1) as Version)
            &&& end.sm == machine::replay::<S>(r.sm, run)
            &&& end.pending == r.pending.restrict(Set::new(|v: Version| v > end.applied))
        }),
    decreases Version::MAX - r.applied,
{
    r.lemma_settled();
    let end = r.settled();
    let run = Seq::new(
        (end.applied - r.applied) as nat,
        |i: int| r.pending[(r.applied + 1 + i) as Version],
    );
    if r.next_waits() {
        let next = (r.applied + 1) as Version;
        let a = r.advanced();
        settling_takes_the_longest_run(a);
        let rest = Seq::new(
            (end.applied - a.applied) as nat,
            |i: int| a.pending[(a.applied + 1 + i) as Version],
        );
        assert(run =~= seq![r.pending[next]] + rest);
        lemma_replay_first::<S>(r.sm, r.pending[next], rest);
    } else {
        assert(run =~= Seq::empty());
    }
}

/// Replaying an operation and then others is replaying them all.
proof fn lemma_replay_first<S: StateMachine>(sm: S::Model, op: Seq<u8>, rest: Seq<Seq<u8>>)
    ensures
        machine::replay::<S>(sm, seq![op] + rest) == machine::replay::<S>(
            machine::step::<S>(sm, op),
            rest,
        ),
    decreases rest.len(),
{
    let whole = seq![op] + rest;
    if rest.len() == 0 {
        assert(whole.drop_last() =~= Seq::empty());
        assert(whole.last() == op);
        assert(machine::replay::<S>(sm, whole.drop_last()) == sm);
    } else {
        lemma_replay_first::<S>(sm, op, rest.drop_last());
        assert(whole.drop_last() =~= seq![op] + rest.drop_last());
    }
}

} // verus!
