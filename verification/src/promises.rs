//! What comes of each operation, said of what goes in and what comes out.
//!
//! The laws here look at single entries, messages, answers and checkpoints, and at what readers
//! get out of what a writer did.

use vstd::prelude::*;

use crate::laws;
use crate::laws::{Deed, Delivery};
use crate::machine;
use crate::machine::{StateMachine, Version};
use crate::message;
use crate::message::MessageView;
use crate::replica::ReplicaState;
use crate::replicated::{LoadStep, ReplicatedState, FIRST_VERSION};
use crate::topic;
use crate::wire;
use crate::wire::{CatchUpReply, CheckpointView, EntryView, Signal};

verus! {

/// Replaying goes through the operations one by one, and each makes of the state what the state
/// machine says. What is no operation makes nothing of it.
pub proof fn operations_take_effect<S: StateMachine>(
    model: S::Model,
    ops: Seq<Seq<u8>>,
    op: Seq<u8>,
)
    ensures
        machine::replay::<S>(model, Seq::empty()) == model,
        S::is_op(op) ==> machine::replay::<S>(model, ops.push(op)) == S::after(
            machine::replay::<S>(model, ops),
            op,
        ),
        !S::is_op(op) ==> machine::replay::<S>(model, ops.push(op)) == machine::replay::<S>(
            model,
            ops,
        ),
{
    assert(ops.push(op).drop_last() =~= ops);
}

/// What becomes of one received entry, by its version. One that the replica has changes nothing.
/// One beyond a gap waits, and everything from the next version on is asked for. The next one is
/// applied, and after it whatever waits without a gap, in order and no further.
pub proof fn entries_are_applied_in_order<S: StateMachine>(
    r: ReplicaState<S>,
    version: Version,
    op: Seq<u8>,
)
    requires
        r.wf(),
    ensures
        ({
            let after = r.ingested(version, op);
            let signal = r.ingest_signal(version, op);
            &&& version <= r.applied ==> after == r && signal is None
            &&& version > r.applied + 1 ==> {
                &&& after.applied == r.applied
                &&& after.sm == r.sm
                &&& after.pending == r.pending.insert(version, op)
                &&& signal == Some(Signal::Request((r.applied + 1) as Version))
            }
            &&& version == r.applied + 1 ==> {
                &&& after.applied >= version
                &&& forall|v: Version|
                    version < v <= after.applied ==> #[trigger] r.pending.contains_key(v)
                &&& after.applied < Version::MAX ==> !r.pending.contains_key(
                    (after.applied + 1) as Version,
                )
                &&& after.sm == machine::replay::<S>(
                    r.sm,
                    seq![op] + Seq::new(
                        (after.applied - version) as nat,
                        |i: int| r.pending[(version + 1 + i) as Version],
                    ),
                )
                &&& after.pending == r.pending.restrict(
                    Set::new(|v: Version| v > after.applied),
                )
                &&& signal == Some(Signal::Announce(after.applied))
            }
        }),
{
    r.lemma_ingested(version, op);
    if version == r.applied + 1 {
        let b = r.buffered(version, op);
        laws::settling_takes_the_longest_run(b);
        let after = r.ingested(version, op);
        let run = Seq::new(
            (after.applied - r.applied) as nat,
            |i: int| b.pending[(r.applied + 1 + i) as Version],
        );
        assert(run =~= seq![op] + Seq::new(
            (after.applied - version) as nat,
            |i: int| r.pending[(version + 1 + i) as Version],
        ));
        assert forall|v: Version| version < v <= after.applied implies #[trigger]
            r.pending.contains_key(v) by {
            assert(b.pending.contains_key(v));
        }
        if after.applied < Version::MAX {
            assert(!b.pending.contains_key((after.applied + 1) as Version));
        }
        assert(after.pending =~= r.pending.restrict(Set::new(|v: Version| v > after.applied)));
    }
}

/// What becomes of a snapshot. One that is not ahead of the replica changes nothing. Any other
/// takes the place of the state, what waits and is covered by it goes, and whatever waits without
/// a gap above it is applied, in order and no further.
pub proof fn snapshots_are_put_in_place<S: StateMachine>(
    r: ReplicaState<S>,
    base: Version,
    sm: S::Model,
)
    requires
        r.wf(),
    ensures
        ({
            let after = r.installed(base, sm);
            let signal = r.install_signal(base, sm);
            &&& base <= r.applied ==> after == r && signal is None
            &&& base > r.applied ==> {
                &&& after.applied >= base
                &&& forall|v: Version|
                    base < v <= after.applied ==> #[trigger] r.pending.contains_key(v)
                &&& after.applied < Version::MAX ==> !r.pending.contains_key(
                    (after.applied + 1) as Version,
                )
                &&& after.sm == machine::replay::<S>(
                    sm,
                    Seq::new(
                        (after.applied - base) as nat,
                        |i: int| r.pending[(base + 1 + i) as Version],
                    ),
                )
                &&& after.pending == r.pending.restrict(
                    Set::new(|v: Version| v > after.applied),
                )
                &&& signal == Some(Signal::Announce(after.applied))
            }
        }),
{
    if base > r.applied {
        let pending = r.pending.restrict(Set::new(|v: Version| v > base));
        let put = ReplicaState::<S> { sm, applied: base, pending };
        laws::settling_takes_the_longest_run(put);
        let after = r.installed(base, sm);
        assert(Seq::new(
            (after.applied - base) as nat,
            |i: int| put.pending[(base + 1 + i) as Version],
        ) =~= Seq::new(
            (after.applied - base) as nat,
            |i: int| r.pending[(base + 1 + i) as Version],
        ));
        assert forall|v: Version| base < v <= after.applied implies #[trigger]
            r.pending.contains_key(v) by {
            assert(put.pending.contains_key(v));
        }
        if after.applied < Version::MAX {
            assert(!put.pending.contains_key((after.applied + 1) as Version));
        }
        assert(after.pending =~= r.pending.restrict(Set::new(|v: Version| v > after.applied)));
    }
}

/// Taking in one list of entries and then another is taking in the two as one, and a list of one
/// entry is that entry.
pub proof fn lists_are_taken_in_one_by_one<S: StateMachine>(
    r: ReplicaState<S>,
    first: Seq<EntryView>,
    second: Seq<EntryView>,
    e: EntryView,
)
    ensures
        r.absorbed(first + second) == r.absorbed(first).absorbed(second),
        r.absorb_signals(first + second) == r.absorb_signals(first) + r.absorbed(
            first,
        ).absorb_signals(second),
        r.absorbed(Seq::empty()) == r,
        r.absorb_signals(Seq::empty()) == Seq::<Signal>::empty(),
        r.absorbed(seq![e]) == r.ingested(e.version, e.op),
        r.absorb_signals(seq![e]) == match r.ingest_signal(e.version, e.op) {
            Some(signal) => seq![signal],
            None => Seq::empty(),
        },
    decreases second.len(),
{
    if second.len() == 0 {
        assert(first + second =~= first);
        assert(r.absorb_signals(first) + Seq::<Signal>::empty() =~= r.absorb_signals(first));
    } else {
        let shorter = second.drop_last();
        lists_are_taken_in_one_by_one(r, first, shorter, e);
        assert((first + second).drop_last() =~= first + shorter);
        let before = r.absorbed(first).absorbed(shorter);
        let last = second.last();
        let signals = r.absorb_signals(first);
        let more = r.absorbed(first).absorb_signals(shorter);
        if let Some(signal) = before.ingest_signal(last.version, last.op) {
            assert((signals + more).push(signal) =~= signals + more.push(signal));
        }
    }
    assert(seq![e].drop_last() =~= Seq::empty());
    assert(r.absorbed(seq![e].drop_last()) == r);
    assert(r.absorb_signals(seq![e].drop_last()) =~= Seq::empty());
    if let Some(signal) = r.ingest_signal(e.version, e.op) {
        assert(Seq::<Signal>::empty().push(signal) =~= seq![signal]);
    }
}

/// What a reader makes of one message. An entry that the writer it follows sends as hexadecimal
/// is taken in like any received entry, whatever its version; beyond a gap it waits and what is
/// missing is asked for.
/// Anything else changes nothing and calls for nothing.
pub proof fn the_writer_is_always_heard<S: StateMachine>(
    r: ReplicatedState<S>,
    m: MessageView,
    parsed: Option<EntryView>,
)
    requires
        !r.is_writer,
    ensures
        ({
            let after = r.heard(m, parsed);
            let signal = r.hear_signal(m, parsed);
            match parsed {
                Some(e) => if m.from == r.writer && message::hex_decoded(m.payload_hex) is Some {
                    &&& after.replica == r.replica.ingested(e.version, e.op)
                    &&& after == ReplicatedState { replica: after.replica, ..r }
                    &&& signal == r.replica.ingest_signal(e.version, e.op)
                    &&& r.replica.wf() && e.version > r.replica.applied + 1 ==> {
                        &&& signal == Some(Signal::Request((r.replica.applied + 1) as Version))
                        &&& after.replica.has(e.version)
                        &&& after.replica.pending[e.version] == e.op
                    }
                } else {
                    after == r && signal is None
                },
                None => after == r && signal is None,
            }
        }),
{
    if let Some(e) = parsed {
        if r.replica.wf() {
            entries_are_applied_in_order(r.replica, e.version, e.op);
        }
    }
}

/// A writer serves everyone: it acts on every message whose payload is hexadecimal, whoever sent
/// it.
pub proof fn a_writer_serves_everyone<S: StateMachine>(w: ReplicatedState<S>, m: MessageView)
    requires
        w.is_writer,
    ensures
        w.heeds(m) <==> message::hex_decoded(m.payload_hex) is Some,
{
}

/// The message comes from the writer, and its payload is hexadecimal and holds the entry of
/// version `v`.
pub open spec fn carries(writer: Seq<char>, d: Delivery, v: Version) -> bool {
    &&& d.message.from == writer
    &&& message::hex_decoded(d.message.payload_hex) is Some
    &&& d.entry matches Some(e)
    &&& e.version == v
}

/// Some message of the list comes from the writer and holds the entry of version `v`.
pub open spec fn sent(writer: Seq<char>, deliveries: Seq<Delivery>, v: Version) -> bool {
    exists|i: int| 0 <= i < deliveries.len() && carries(writer, #[trigger] deliveries[i], v)
}

/// Listening gets a reader to what its writer sent. It has every version that came in a message of
/// the writer, in whatever order and between whatever messages of others. Once every version up to
/// `n` that it missed has come, it has got at least to version `n`; and if that is all there is, it
/// is in the state that the whole history leads to.
pub proof fn listening_reaches_what_was_sent<S: StateMachine>(
    r: ReplicatedState<S>,
    history: Seq<Seq<u8>>,
    deliveries: Seq<Delivery>,
    n: Version,
)
    requires
        !r.is_writer,
        r.replica.follows(history),
        forall|i: int|
            0 <= i < deliveries.len() && (#[trigger] deliveries[i]).message.from == r.writer ==> (
            deliveries[i].entry matches Some(e) ==> laws::authored(history, e)),
        n <= history.len(),
        forall|v: Version| r.replica.applied < v <= n ==> #[trigger] sent(r.writer, deliveries, v),
    ensures
        forall|v: Version|
            r.replica.has(v) || sent(r.writer, deliveries, v) ==> #[trigger] r.listened(
                deliveries,
            ).replica.has(v),
        r.listened(deliveries).replica.applied >= n,
        n == history.len() ==> r.listened(deliveries).replica.applied == n && r.listened(
            deliveries,
        ).replica.sm == machine::replay::<S>(S::initial(), history),
{
    lemma_sent_is_had(r, history, deliveries);
    laws::others_cannot_mislead_a_reader(r, history, deliveries);
    let end = r.listened(deliveries).replica;
    if end.applied < n {
        let next = (end.applied + 1) as Version;
        if next > r.replica.applied {
            assert(sent(r.writer, deliveries, next));
        }
        assert(end.has(next));
    }
    assert(history.take(history.len() as int) =~= history);
}

/// A reader has whatever came in a message of its writer, and loses nothing.
proof fn lemma_sent_is_had<S: StateMachine>(
    r: ReplicatedState<S>,
    history: Seq<Seq<u8>>,
    deliveries: Seq<Delivery>,
)
    requires
        !r.is_writer,
        r.replica.follows(history),
        forall|i: int|
            0 <= i < deliveries.len() && (#[trigger] deliveries[i]).message.from == r.writer ==> (
            deliveries[i].entry matches Some(e) ==> laws::authored(history, e)),
    ensures
        forall|v: Version|
            r.replica.has(v) || sent(r.writer, deliveries, v) ==> #[trigger] r.listened(
                deliveries,
            ).replica.has(v),
    decreases deliveries.len(),
{
    if deliveries.len() > 0 {
        let shorter = deliveries.drop_last();
        let d = deliveries.last();
        assert forall|i: int|
            0 <= i < shorter.len() && (#[trigger] shorter[i]).message.from == r.writer implies (
        shorter[i].entry matches Some(e) ==> laws::authored(history, e)) by {
            assert(shorter[i] == deliveries[i]);
        }
        lemma_sent_is_had(r, history, shorter);
        laws::others_cannot_mislead_a_reader(r, history, shorter);
        laws::only_the_followed_writer_is_heard(r, shorter);
        let before = r.listened(shorter);
        assert(deliveries[deliveries.len() - 1] == d);
        the_writer_is_always_heard(before, d.message, d.entry);
        if let Some(e) = d.entry {
            if d.message.from == r.writer {
                laws::receiving_keeps_to_the_history(before.replica, history, e);
            }
        }
        assert forall|v: Version|
            r.replica.has(v) || sent(r.writer, deliveries, v) implies #[trigger] r.listened(
            deliveries,
        ).replica.has(v) by {
            if !carries(r.writer, d, v) {
                if !r.replica.has(v) {
                    let i = choose|i: int|
                        0 <= i < deliveries.len() && carries(
                            r.writer,
                            #[trigger] deliveries[i],
                            v,
                        );
                    assert(carries(r.writer, shorter[i], v));
                    assert(sent(r.writer, shorter, v));
                }
                assert(before.replica.has(v));
            }
        }
    }
}

/// What a writer that owns a history answers to a request, entry by entry: everything it made from
/// the requested version on, or from just above its checkpoint if that is later, each under its own
/// version; and the checkpoint, exactly when it covers the requested version.
pub proof fn answers_hold_the_log<S: StateMachine>(
    w: ReplicatedState<S>,
    made: Seq<Seq<u8>>,
    from: Version,
    reply: CatchUpReply,
)
    requires
        w.owns(made),
        w.answers(reply, from),
    ensures
        ({
            let start: int = match w.checkpoint {
                Some(c) => if from <= c.base {
                    c.base + 1
                } else {
                    from as int
                },
                None => if from == 0 {
                    1
                } else {
                    from as int
                },
            };
            &&& reply.tail@.len() == if start <= made.len() {
                made.len() - start + 1
            } else {
                0
            }
            &&& forall|i: int|
                0 <= i < reply.tail@.len() ==> {
                    &&& (#[trigger] reply.tail@[i]).version == start + i
                    &&& reply.tail@[i].op@ == made[start + i - 1]
                }
            &&& match reply.redirect {
                Some(cp) => {
                    &&& from <= cp.base
                    &&& w.checkpoint == Some(CheckpointView { base: cp.base, cid: cp.cid@ })
                },
                None => w.checkpoint matches Some(c) ==> from > c.base,
            }
        }),
{
    laws::replies_hold_what_was_asked_for(w, made, from);
    let views = wire::entry_views(reply.tail@);
    assert(views.len() == reply.tail@.len());
    assert forall|i: int| 0 <= i < reply.tail@.len() implies (#[trigger] reply.tail@[i])@
        == views[i] by {}
    let first: int = if from <= w.floor() {
        w.floor() + 1
    } else {
        from as int
    };
    if first <= made.len() {
        assert(views =~= laws::entries_from(made, first));
        assert forall|i: int| 0 <= i < reply.tail@.len() implies {
            &&& (#[trigger] reply.tail@[i]).version == first + i
            &&& reply.tail@[i].op@ == made[first + i - 1]
        } by {
            assert(views[i] == laws::entry_of(made, first + i));
        }
    }
}

impl<S: StateMachine> ReplicatedState<S> {
    /// The reader's replica after a catch-up reply was taken in to the end: the snapshot it
    /// redirects to is installed first where it has to be fetched, as the state that `objects`
    /// holds under its content identifier.
    pub open spec fn caught_up(
        self,
        reply: CatchUpReply,
        objects: spec_fn(Seq<char>) -> S::Model,
    ) -> ReplicaState<S> {
        let tail = wire::entry_views(reply.tail@);
        let redirect = wire::checkpoint_view(reply.redirect);
        let looked = self.replied(redirect, tail);
        match self.redirect_step(redirect) {
            LoadStep::Fetch => {
                let cp = reply.redirect.unwrap();
                looked.finished(cp.base, Some(objects(cp.cid@)), tail).replica
            },
            _ => looked.replica,
        }
    }
}

/// A checkpoint that the writer redirects to is passed over exactly by readers that have come as
/// far as it. Of the others, those that load snapshots fetch it, and those that do not ask for the
/// whole log. Where there is no redirect there is nothing to do about it.
pub proof fn redirects_ahead_are_followed<S: StateMachine>(
    r: ReplicatedState<S>,
    cp: CheckpointView,
)
    ensures
        r.load_step(cp.base) is Skip <==> r.replica.applied >= cp.base,
        r.load_step(cp.base) is Fetch <==> r.replica.applied < cp.base && r.loads_snapshots,
        r.load_step(cp.base) is AskForAll <==> r.replica.applied < cp.base && !r.loads_snapshots,
        r.redirect_step(Some(cp)) == r.load_step(cp.base),
        r.redirect_step(None) is Skip,
{
}

/// What a reader makes of a catch-up reply. Unless a snapshot has to be fetched first, the tail is
/// taken in at once; a reader that is behind the redirect and loads no snapshots asks for the whole
/// log besides. Where one has to be fetched, nothing changes before it is there. Then the reader is
/// put at it and takes in the tail; if it could not be loaded, the tail is taken in all the same.
pub proof fn replies_are_taken_in<S: StateMachine>(
    r: ReplicatedState<S>,
    redirect: Option<CheckpointView>,
    tail: Seq<EntryView>,
    base: Version,
    sm: S::Model,
)
    requires
        r.replica.wf(),
    ensures
        ({
            let behind = redirect matches Some(cp) && r.replica.applied < cp.base;
            let after = r.replied(redirect, tail);
            let signals = r.reply_signals(redirect, tail);
            &&& behind && r.loads_snapshots ==> after == r
            &&& !(behind && r.loads_snapshots) ==> after == ReplicatedState {
                replica: r.replica.absorbed(tail),
                ..r
            }
            &&& !behind ==> signals == r.replica.absorb_signals(tail)
            &&& behind && !r.loads_snapshots ==> {
                &&& signals.first() == Signal::Request(1)
                &&& signals.drop_first() == r.replica.absorb_signals(tail)
            }
        }),
        r.finished(base, None, tail) == (ReplicatedState {
            replica: r.replica.absorbed(tail),
            ..r
        }),
        r.finish_signals(base, None, tail) == r.replica.absorb_signals(tail),
        r.finished(base, Some(sm), tail) == (ReplicatedState {
            replica: r.replica.installed(base, sm).absorbed(tail),
            ..r
        }),
        base <= r.replica.applied ==> r.finish_signals(base, Some(sm), tail)
            == r.replica.absorb_signals(tail),
        base > r.replica.applied ==> {
            let put = r.replica.installed(base, sm);
            let signals = r.finish_signals(base, Some(sm), tail);
            &&& signals.first() == Signal::Announce(put.applied)
            &&& signals.drop_first() == put.absorb_signals(tail)
        },
{
    if let Some(cp) = redirect {
        redirects_ahead_are_followed(r, cp);
    }
    let signals = r.replica.absorb_signals(tail);
    assert((seq![Signal::Request(1)] + signals).drop_first() =~= signals);
    snapshots_are_put_in_place(r.replica, base, sm);
    let put = r.replica.installed(base, sm);
    let more = put.absorb_signals(tail);
    assert((seq![Signal::Announce(put.applied)] + more).drop_first() =~= more);
}

/// An answer gets a reader to where the writer was. The reader asked for no later version than the
/// one it needs next, and takes in the answer to the end; if it is redirected ahead of it, it loads
/// snapshots, and the object named is the state at the checkpoint's base.
pub proof fn answers_get_readers_there<S: StateMachine>(
    w: ReplicatedState<S>,
    made: Seq<Seq<u8>>,
    history: Seq<Seq<u8>>,
    r: ReplicatedState<S>,
    from: Version,
    reply: CatchUpReply,
    objects: spec_fn(Seq<char>) -> S::Model,
)
    requires
        w.owns(made),
        made.is_prefix_of(history),
        !r.is_writer,
        r.replica.follows(history),
        from <= r.replica.applied + 1,
        w.answers(reply, from),
        reply.redirect matches Some(cp) ==> {
            &&& r.loads_snapshots || cp.base <= r.replica.applied
            &&& objects(cp.cid@) == machine::replay::<S>(
                S::initial(),
                history.take(cp.base as int),
            )
        },
    ensures
        r.caught_up(reply, objects).follows(history),
        r.caught_up(reply, objects).applied >= made.len(),
        history == made ==> {
            &&& r.caught_up(reply, objects).applied == made.len()
            &&& r.caught_up(reply, objects).sm == machine::replay::<S>(S::initial(), made)
        },
{
    answers_hold_the_log(w, made, from, reply);
    let tail = wire::entry_views(reply.tail@);
    let ready = match reply.redirect {
        Some(cp) => {
            redirects_ahead_are_followed(r, cp@);
            let snapshot = objects(cp.cid@);
            laws::installing_keeps_to_the_history(r.replica, history, cp.base, snapshot);
            r.replica.installed(cp.base, snapshot)
        },
        None => {
            redirects_ahead_are_followed(r, arbitrary());
            r.replica
        },
    };
    assert(r.caught_up(reply, objects) == ready.absorbed(tail));
    assert forall|i: int| 0 <= i < tail.len() implies laws::authored(
        history,
        #[trigger] tail[i],
    ) by {
        assert(tail[i] == reply.tail@[i]@);
    }
    assert forall|v: Version| ready.applied < v <= made.len() implies #[trigger] laws::delivers(
        tail,
        v,
    ) by {
        let i = v - (made.len() - reply.tail@.len() + 1);
        assert(reply.tail@[i].version == v);
        assert(tail[i] == reply.tail@[i]@);
    }
    laws::delivery_order_does_not_matter(ready, history, tail, made.len() as Version);
}

/// What making an operation does to a writer: the operation takes effect on its state under the
/// next version, and the log gets one entry more. Nothing else changes; above all, no checkpoint
/// comes of it.
pub proof fn proposing_only_appends<S: StateMachine>(w: ReplicatedState<S>, op: Seq<u8>)
    requires
        w.replica.applied < Version::MAX,
    ensures
        ({
            let after = w.proposed(op);
            &&& after.replica.applied == w.replica.applied + 1
            &&& after.replica.sm == machine::replay::<S>(w.replica.sm, seq![op])
            &&& after.replica.pending == w.replica.pending
            &&& after.log.len() == w.log.len() + 1
            &&& forall|i: int| 0 <= i < w.log.len() ==> #[trigger] after.log[i] == w.log[i]
            &&& after.log[w.log.len() as int].version == w.replica.applied + 1
            &&& after.log[w.log.len() as int].op == op
            &&& after.checkpoint == w.checkpoint
            &&& after == ReplicatedState { replica: after.replica, log: after.log, ..w }
        }),
{
    assert(seq![op].drop_last() =~= Seq::empty());
    assert(machine::replay::<S>(w.replica.sm, seq![op].drop_last()) == w.replica.sm);
}

/// What recording a checkpoint does to a writer. It takes the place of the one before as a whole,
/// base and content identifier alike, unless the one before covers more; then nothing changes. The
/// log loses exactly what it covers, and everyone who asks for that is sent to it.
pub proof fn checkpoints_are_recorded_whole<S: StateMachine>(
    w: ReplicatedState<S>,
    cp: CheckpointView,
    from: Version,
)
    requires
        w.wf(),
        w.is_writer,
        cp.base <= w.replica.applied,
    ensures
        ({
            let after = w.compacted(cp);
            let stale = w.checkpoint matches Some(c) && cp.base < c.base;
            &&& stale ==> after == w
            &&& !stale ==> {
                &&& after.checkpoint == Some(cp)
                &&& forall|i: int|
                    0 <= i < w.log.len() && (#[trigger] w.log[i]).version > cp.base
                        ==> after.log.contains(w.log[i])
                &&& forall|i: int|
                    0 <= i < after.log.len() ==> (#[trigger] after.log[i]).version > cp.base
                        && w.log.contains(after.log[i])
                &&& after.log.len() == w.replica.applied - cp.base
                &&& from <= cp.base ==> after.redirect_for(from) == Some(cp)
                &&& from > cp.base ==> after.redirect_for(from) is None
            }
            &&& after == ReplicatedState { log: after.log, checkpoint: after.checkpoint, ..w }
        }),
{
    w.lemma_compacted(cp);
    let after = w.compacted(cp);
    let stale = w.checkpoint matches Some(c) && cp.base < c.base;
    if !stale {
        let k = cp.base - w.floor();
        assert(after.log == w.log.skip(k));
        assert forall|i: int|
            0 <= i < w.log.len() && (#[trigger] w.log[i]).version
                > cp.base implies after.log.contains(w.log[i]) by {
            assert(after.log[i - k] == w.log[i]);
        }
        assert forall|i: int| 0 <= i < after.log.len() implies (#[trigger] after.log[i]).version
            > cp.base && w.log.contains(after.log[i]) by {
            assert(after.log[i] == w.log[i + k]);
        }
    }
}

/// The deed at position `i` records a checkpoint, no checkpoint covers more, and none that is
/// recorded later covers as much.
pub open spec fn stands(deeds: Seq<Deed>, i: int, cp: CheckpointView) -> bool {
    &&& 0 <= i < deeds.len()
    &&& deeds[i] == Deed::Checkpointed(cp)
    &&& forall|j: int|
        0 <= j < deeds.len() ==> ((#[trigger] deeds[j]) matches Deed::Checkpointed(other) ==> {
            &&& other.base <= cp.base
            &&& j > i ==> other.base < cp.base
        })
}

/// Whatever a writer does, its checkpoint is one that it recorded: the latest of those that cover
/// the most. As long as it recorded none it has none, and its log holds everything it made.
pub proof fn checkpoints_come_of_checkpointing_alone<S: StateMachine>(
    node_id: Seq<char>,
    name: Seq<char>,
    deeds: Seq<Deed>,
)
    requires
        laws::feasible(deeds),
    ensures
        ({
            let new = ReplicatedState::<S>::opened(node_id, name, None, false);
            let w = new.run(deeds);
            &&& match w.checkpoint {
                Some(cp) => exists|i: int| #[trigger] stands(deeds, i, cp),
                None => {
                    &&& forall|j: int|
                        0 <= j < deeds.len() ==> !((#[trigger] deeds[j]) is Checkpointed)
                    &&& w.log.len() == laws::operations(deeds).len()
                },
            }
            &&& w == ReplicatedState {
                replica: w.replica,
                log: w.log,
                checkpoint: w.checkpoint,
                ..new
            }
        }),
    decreases deeds.len(),
{
    let new = ReplicatedState::<S>::opened(node_id, name, None, false);
    laws::every_writer_owns_what_it_made::<S>(node_id, name, deeds);
    if deeds.len() > 0 {
        let shorter = deeds.drop_last();
        checkpoints_come_of_checkpointing_alone::<S>(node_id, name, shorter);
        laws::every_writer_owns_what_it_made::<S>(node_id, name, shorter);
        let before = new.run(shorter);
        let w = new.run(deeds);
        let last = deeds.len() - 1;
        match deeds.last() {
            Deed::Proposed(op) => {
                proposing_only_appends(before, op);
                if let Some(cp) = w.checkpoint {
                    let i = choose|i: int| #[trigger] stands(shorter, i, cp);
                    assert(shorter[i] == deeds[i]);
                    assert forall|j: int| 0 <= j < deeds.len() implies (
                    (#[trigger] deeds[j]) matches Deed::Checkpointed(other) ==> {
                        &&& other.base <= cp.base
                        &&& j > i ==> other.base < cp.base
                    }) by {
                        if j < last {
                            assert(shorter[j] == deeds[j]);
                        }
                    }
                    assert(stands(deeds, i, cp));
                } else {
                    assert forall|j: int| 0 <= j < deeds.len() implies !(
                    (#[trigger] deeds[j]) is Checkpointed) by {
                        if j < last {
                            assert(shorter[j] == deeds[j]);
                        }
                    }
                }
            },
            Deed::Checkpointed(new_cp) => {
                checkpoints_are_recorded_whole(before, new_cp, 0);
                let cp = w.checkpoint.unwrap();
                if before.checkpoint is Some {
                    let old_cp = before.checkpoint.unwrap();
                    let i = choose|i: int| #[trigger] stands(shorter, i, old_cp);
                    assert(shorter[i] == deeds[i]);
                    let k = if new_cp.base < old_cp.base {
                        i
                    } else {
                        last
                    };
                    assert forall|j: int| 0 <= j < deeds.len() implies (
                    (#[trigger] deeds[j]) matches Deed::Checkpointed(other) ==> {
                        &&& other.base <= cp.base
                        &&& j > k ==> other.base < cp.base
                    }) by {
                        if j < last {
                            assert(shorter[j] == deeds[j]);
                        }
                    }
                    assert(stands(deeds, k, cp));
                } else {
                    assert forall|j: int| 0 <= j < deeds.len() implies (
                    (#[trigger] deeds[j]) matches Deed::Checkpointed(other) ==> {
                        &&& other.base <= cp.base
                        &&& j > last ==> other.base < cp.base
                    }) by {
                        if j < last {
                            assert(shorter[j] == deeds[j]);
                        }
                    }
                    assert(stands(deeds, last, cp));
                }
            },
        }
    }
}

/// A wait for a version ends once it is reached and not before. What is made next ends the wait for
/// its own version, and what was reached stays reached whatever a replica receives or installs.
pub proof fn waits_end_when_reached<S: StateMachine>(
    r: ReplicatedState<S>,
    v: Version,
    op: Seq<u8>,
    entries: Seq<EntryView>,
    base: Version,
    loaded: Option<S::Model>,
)
    requires
        r.replica.wf(),
        r.replica.applied < Version::MAX,
    ensures
        r.has_reached(v) <==> v <= r.replica.applied,
        r.proposed(op).has_reached((r.replica.applied + 1) as Version),
        !r.has_reached((r.replica.applied + 1) as Version),
        r.has_reached(v) ==> r.finished(base, loaded, entries).has_reached(v),
{
    proposing_only_appends(r, op);
    let sm = match loaded {
        Some(sm) => sm,
        None => r.replica.sm,
    };
    replies_are_taken_in(r, None, entries, base, sm);
    r.replica.lemma_installed(base, sm);
    laws::versions_never_go_back(r.replica, entries, base, sm);
    laws::versions_never_go_back(r.replica.installed(base, sm), entries, base, sm);
}

/// A checkpoint is taken of everything the writer made so far: its state is what replaying all of
/// it leads to, and its base is the latest version. Recorded, it leaves nothing of it in the log.
pub proof fn checkpoints_cover_everything_made<S: StateMachine>(
    w: ReplicatedState<S>,
    made: Seq<Seq<u8>>,
    cid: Seq<char>,
)
    requires
        w.owns(made),
    ensures
        w.checkpoint_point().0 == machine::replay::<S>(S::initial(), made),
        w.checkpoint_point().1 == made.len(),
        w.compacted(CheckpointView { base: w.checkpoint_point().1, cid }).log.len() == 0,
        w.compacted(CheckpointView { base: w.checkpoint_point().1, cid }).floor() == made.len(),
{
    checkpoints_are_recorded_whole(w, CheckpointView { base: w.checkpoint_point().1, cid }, 0);
}

/// Every checkpoint that a writer records names an object that holds the state at its base.
pub open spec fn objects_are_stored<S: StateMachine>(
    deeds: Seq<Deed>,
    objects: spec_fn(Seq<char>) -> S::Model,
) -> bool {
    forall|i: int|
        0 <= i < deeds.len() ==> ((#[trigger] deeds[i]) matches Deed::Checkpointed(cp) ==> objects(
            cp.cid,
        ) == machine::replay::<S>(S::initial(), laws::operations(deeds).take(cp.base as int)))
}

/// Whatever a writer did before it answers: the answer holds everything it made from the requested
/// version on but what a recorded checkpoint covers, and if it redirects, then to a recorded
/// checkpoint whose object holds the state at its base.
pub proof fn answers_tell_what_was_done<S: StateMachine>(
    node_id: Seq<char>,
    name: Seq<char>,
    deeds: Seq<Deed>,
    objects: spec_fn(Seq<char>) -> S::Model,
    from: Version,
    reply: CatchUpReply,
)
    requires
        laws::feasible(deeds),
        objects_are_stored::<S>(deeds, objects),
        ReplicatedState::<S>::opened(node_id, name, None, false).run(deeds).answers(reply, from),
    ensures
        ({
            let made = laws::operations(deeds);
            &&& forall|i: int|
                0 <= i < reply.tail@.len() ==> {
                    &&& from <= (#[trigger] reply.tail@[i]).version <= made.len()
                    &&& reply.tail@[i].version == made.len() - reply.tail@.len() + 1 + i
                    &&& reply.tail@[i].op@ == made[reply.tail@[i].version - 1]
                }
            &&& match reply.redirect {
                Some(cp) => {
                    &&& from <= cp.base
                    &&& exists|i: int| #[trigger] stands(deeds, i, cp@)
                    &&& objects(cp.cid@) == machine::replay::<S>(
                        S::initial(),
                        made.take(cp.base as int),
                    )
                    &&& reply.tail@.len() == made.len() - cp.base
                },
                None => {
                    &&& forall|i: int|
                        0 <= i < deeds.len() ==> ((#[trigger] deeds[i]) matches Deed::Checkpointed(
                            cp,
                        ) ==> cp.base < from)
                    &&& 1 <= from <= made.len() ==> reply.tail@.len() == made.len() - from + 1
                    &&& from == 0 ==> reply.tail@.len() == made.len()
                    &&& from > made.len() ==> reply.tail@.len() == 0
                },
            }
        }),
{
    let w = ReplicatedState::<S>::opened(node_id, name, None, false).run(deeds);
    let made = laws::operations(deeds);
    laws::every_writer_owns_what_it_made::<S>(node_id, name, deeds);
    checkpoints_come_of_checkpointing_alone::<S>(node_id, name, deeds);
    answers_hold_the_log(w, made, from, reply);
    if let Some(cp) = w.checkpoint {
        let i = choose|i: int| #[trigger] stands(deeds, i, cp);
        assert(deeds[i] == Deed::Checkpointed(cp));
    }
}

/// New readers converge. Whatever a writer did, a reader that is opened for it and takes in the
/// answer to its first request is at the writer's version and in the state that replaying
/// everything the writer made leads to. A reader that loads no snapshots needs a writer that
/// recorded no checkpoint that covers anything.
pub proof fn new_readers_converge<S: StateMachine>(
    writer: Seq<char>,
    reader: Seq<char>,
    name: Seq<char>,
    deeds: Seq<Deed>,
    objects: spec_fn(Seq<char>) -> S::Model,
    loads_snapshots: bool,
    reply: CatchUpReply,
)
    requires
        laws::feasible(deeds),
        objects_are_stored::<S>(deeds, objects),
        ReplicatedState::<S>::opened(writer, name, None, false).run(deeds).answers(
            reply,
            FIRST_VERSION,
        ),
        loads_snapshots || forall|i: int|
            0 <= i < deeds.len() ==> ((#[trigger] deeds[i]) matches Deed::Checkpointed(cp)
                ==> cp.base == 0),
    ensures
        ({
            let r = ReplicatedState::<S>::opened(reader, name, Some(writer), loads_snapshots);
            let end = r.caught_up(reply, objects);
            let made = laws::operations(deeds);
            &&& end.applied == made.len()
            &&& end.sm == machine::replay::<S>(S::initial(), made)
        }),
{
    let w = ReplicatedState::<S>::opened(writer, name, None, false).run(deeds);
    let r = ReplicatedState::<S>::opened(reader, name, Some(writer), loads_snapshots);
    let made = laws::operations(deeds);
    laws::every_writer_owns_what_it_made::<S>(writer, name, deeds);
    answers_tell_what_was_done::<S>(writer, name, deeds, objects, FIRST_VERSION, reply);
    laws::new_replicas_follow::<S>(made);
    if let Some(cp) = reply.redirect {
        let i = choose|i: int| #[trigger] stands(deeds, i, cp@);
        assert(deeds[i] == Deed::Checkpointed(cp@));
    }
    answers_get_readers_there(w, made, made, r, FIRST_VERSION, reply, objects);
}

/// A reader meets its writer: it listens on the topic that the writer publishes to, asks on the one
/// that the writer serves, and follows that writer. Both start with nothing applied, and the reader
/// asks for the log from its first version on.
pub proof fn readers_meet_their_writers<S: StateMachine>(
    writer: Seq<char>,
    reader: Seq<char>,
    name: Seq<char>,
    loads_snapshots: bool,
)
    ensures
        ({
            let w = ReplicatedState::<S>::opened(writer, name, None, false);
            let r = ReplicatedState::<S>::opened(reader, name, Some(writer), loads_snapshots);
            &&& w.is_writer && !r.is_writer
            &&& w.writer == writer && r.writer == writer
            &&& w.op_topic == topic::op_topic(writer, name) && r.op_topic == w.op_topic
            &&& w.catchup_topic == topic::catchup_topic(writer, name)
            &&& r.catchup_topic == w.catchup_topic
            &&& r.listens_on() == w.sends_to() && w.sends_to() == w.op_topic
            &&& r.sends_to() == w.listens_on() && w.listens_on() == w.catchup_topic
            &&& w.first_signal() is None
            &&& r.first_signal() == Some(Signal::Request(1))
            &&& w.replica == r.replica
            &&& w.replica.applied == 0
            &&& w.replica.sm == S::initial()
            &&& forall|v: Version| !(#[trigger] w.replica.pending.contains_key(v))
            &&& w.log.len() == 0 && r.log.len() == 0
            &&& w.checkpoint is None && r.checkpoint is None
            &&& r.loads_snapshots == loads_snapshots
        }),
{
}

} // verus!
