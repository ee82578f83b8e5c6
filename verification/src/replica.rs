//! One replica: a state machine, the version it has reached, and the entries that came too early.

use std::collections::BTreeMap;

use vstd::prelude::*;

use crate::machine;
use crate::machine::{StateMachine, Version};
use crate::wire;
use crate::wire::{Entry, EntryView, Signal};

verus! {

broadcast use vstd::std_specs::btree::group_btree_axioms;

/// A replica as a mathematical value.
#[verifier::reject_recursive_types(S)]
pub struct ReplicaState<S: StateMachine> {
    /// What the replicated state holds.
    pub sm: S::Model,
    /// The highest version applied to it.
    pub applied: Version,
    /// Entries that wait for their predecessors.
    pub pending: Map<Version, Seq<u8>>,
}

impl<S: StateMachine> ReplicaState<S> {
    /// A replica that has applied nothing.
    pub open spec fn fresh() -> Self {
        ReplicaState { sm: S::initial(), applied: 0, pending: Map::empty() }
    }

    /// Nothing that waits could have been applied: every waiting entry lies beyond a gap.
    pub open spec fn wf(self) -> bool {
        forall|v: Version| #[trigger] self.pending.contains_key(v) ==> v > self.applied + 1
    }

    /// The entry that comes next is waiting.
    pub open spec fn next_waits(self) -> bool {
        self.applied < Version::MAX && self.pending.contains_key((self.applied + 1) as Version)
    }

    /// The replica after it applied the waiting entry that comes next.
    pub open spec fn advanced(self) -> Self {
        let next = (self.applied + 1) as Version;
        ReplicaState {
            sm: machine::step::<S>(self.sm, self.pending[next]),
            applied: next,
            pending: self.pending.remove(next),
        }
    }

    /// The replica after it applied, in order, every waiting entry it can.
    pub open spec fn settled(self) -> Self
        decreases Version::MAX - self.applied,
    {
        if self.next_waits() {
            self.advanced().settled()
        } else {
            self
        }
    }

    /// The replica with one more waiting entry.
    pub open spec fn buffered(self, version: Version, op: Seq<u8>) -> Self {
        ReplicaState { pending: self.pending.insert(version, op), ..self }
    }

    /// The replica after one received entry. An entry it already has changes nothing; any other
    /// is put with those that wait, and then everything that can be applied is.
    pub open spec fn ingested(self, version: Version, op: Seq<u8>) -> Self {
        if version <= self.applied {
            self
        } else {
            self.buffered(version, op).settled()
        }
    }

    /// What one received entry calls for. An entry the replica already has calls for nothing. One
    /// that lets it advance calls for an announcement, and one beyond a gap for what is missing.
    pub open spec fn ingest_signal(self, version: Version, op: Seq<u8>) -> Option<Signal> {
        if version <= self.applied {
            None
        } else if version == self.applied + 1 {
            Some(Signal::Announce(self.ingested(version, op).applied))
        } else {
            Some(Signal::Request((self.applied + 1) as Version))
        }
    }

    /// The replica after a list of received entries, taken in order.
    pub open spec fn absorbed(self, entries: Seq<EntryView>) -> Self
        decreases entries.len(),
    {
        if entries.len() == 0 {
            self
        } else {
            let e = entries.last();
            self.absorbed(entries.drop_last()).ingested(e.version, e.op)
        }
    }

    /// What a list of received entries calls for, in order.
    pub open spec fn absorb_signals(self, entries: Seq<EntryView>) -> Seq<Signal>
        decreases entries.len(),
    {
        if entries.len() == 0 {
            Seq::empty()
        } else {
            let e = entries.last();
            let before = self.absorbed(entries.drop_last());
            let signals = self.absorb_signals(entries.drop_last());
            match before.ingest_signal(e.version, e.op) {
                Some(signal) => signals.push(signal),
                None => signals,
            }
        }
    }

    /// The replica put at a snapshot that holds `sm` and covers everything up to `base`: waiting
    /// entries that the snapshot covers are dropped, and then everything that can be applied is. A
    /// replica that has come at least as far already is left alone.
    pub open spec fn installed(self, base: Version, sm: S::Model) -> Self {
        if self.applied >= base {
            self
        } else {
            ReplicaState {
                sm,
                applied: base,
                pending: self.pending.restrict(Set::new(|v: Version| v > base)),
            }.settled()
        }
    }

    /// What putting the replica at a snapshot calls for: an announcement, unless the replica has
    /// come at least as far already.
    pub open spec fn install_signal(self, base: Version, sm: S::Model) -> Option<Signal> {
        if self.applied >= base {
            None
        } else {
            Some(Signal::Announce(self.installed(base, sm).applied))
        }
    }
}

impl<S: StateMachine> ReplicaState<S> {
    /// Putting a replica at a snapshot keeps it well-formed and never takes it back.
    pub proof fn lemma_installed(self, base: Version, sm: S::Model)
        requires
            self.wf(),
        ensures
            self.installed(base, sm).wf(),
            self.applied <= self.installed(base, sm).applied,
            base <= self.installed(base, sm).applied,
    {
        if self.applied < base {
            let pending = self.pending.restrict(Set::new(|v: Version| v > base));
            (ReplicaState::<S> { sm, applied: base, pending }).lemma_settled();
        }
    }

    /// Settling only moves forward, leaves nothing applicable behind, and keeps the entries beyond
    /// where it ends.
    pub proof fn lemma_settled(self)
        requires
            forall|v: Version| #[trigger] self.pending.contains_key(v) ==> v > self.applied,
        ensures
            self.settled().wf(),
            self.applied <= self.settled().applied,
            self.next_waits() ==> self.applied < self.settled().applied,
            self.settled().pending == self.pending.restrict(
                Set::new(|v: Version| v > self.settled().applied),
            ),
        decreases Version::MAX - self.applied,
    {
        if self.next_waits() {
            self.advanced().lemma_settled();
        }
        let end = self.settled();
        assert(end.pending =~= self.pending.restrict(Set::new(|v: Version| v > end.applied)));
    }

    /// A received entry keeps a replica well-formed and never takes it back; it advances exactly
    /// when it is the one that comes next.
    pub proof fn lemma_ingested(self, version: Version, op: Seq<u8>)
        requires
            self.wf(),
        ensures
            self.ingested(version, op).wf(),
            self.applied <= self.ingested(version, op).applied,
            version == self.applied + 1 <==> self.applied < self.ingested(version, op).applied,
            version > self.applied + 1 ==> self.ingested(version, op) == self.buffered(version, op),
    {
        if version > self.applied {
            self.buffered(version, op).lemma_settled();
        }
    }
}

/// A replica: the state machine, the version it has reached, and the entries that came too early.
#[verifier::reject_recursive_types(S)]
pub struct Core<S> {
    sm: S,
    applied: Version,
    /// Out-of-order entries held until their predecessors arrive (readers only).
    pending: BTreeMap<Version, Vec<u8>>,
}

/// The bytes of every waiting entry.
pub open spec fn pending_view(pending: Map<Version, Vec<u8>>) -> Map<Version, Seq<u8>> {
    pending.map_values(|op: Vec<u8>| op@)
}

impl<S: StateMachine> View for Core<S> {
    type V = ReplicaState<S>;

    closed spec fn view(&self) -> ReplicaState<S> {
        ReplicaState {
            sm: self.sm.model(),
            applied: self.applied,
            pending: pending_view(self.pending@),
        }
    }
}

impl<S: StateMachine> Core<S> {
    /// The state machine itself.
    pub closed spec fn machine(&self) -> S {
        self.sm
    }

    /// A replica that has applied nothing.
    pub fn new() -> (core: Self)
        ensures
            core@ == ReplicaState::<S>::fresh(),
            core@.wf(),
    {
        let core = Core { sm: S::start(), applied: 0, pending: BTreeMap::new() };
        assert(core@.pending =~= Map::empty());
        core
    }

    /// The highest version applied to this replica.
    pub fn applied(&self) -> (version: Version)
        ensures
            version == self@.applied,
    {
        self.applied
    }

    /// The replicated state.
    pub fn state(&self) -> (sm: &S)
        ensures
            *sm == self.machine(),
            sm.model() == self@.sm,
    {
        &self.sm
    }

    /// Applies one logged operation to the state machine. Bytes that are no operation are
    /// skipped rather than poison the replica.
    fn apply_bytes(&mut self, bytes: &Vec<u8>)
        ensures
            final(self)@ == (ReplicaState {
                sm: machine::step::<S>(old(self)@.sm, bytes@),
                ..old(self)@
            }),
    {
        if let Some(op) = S::decode(bytes.as_slice()) {
            self.sm.apply(op);
        }
    }

    /// Applies every waiting entry that has become contiguous.
    fn drain(&mut self)
        ensures
            final(self)@ == old(self)@.settled(),
            final(self)@.applied == old(self)@.applied ==> final(self).machine()
                == old(self).machine(),
    {
        loop
            invariant
                self@.settled() == old(self)@.settled(),
                self@.applied >= old(self)@.applied,
                self@.applied == old(self)@.applied ==> self.machine() == old(self).machine(),
            ensures
                self@ == old(self)@.settled(),
                self@.applied == old(self)@.applied ==> self.machine() == old(self).machine(),
            decreases Version::MAX - self@.applied,
        {
            if self.applied == Version::MAX {
                break;
            }
            let next: Version = self.applied + 1;
            let ghost before = *self;
            match self.pending.remove(&next) {
                Some(op) => {
                    self.apply_bytes(&op);
                    self.applied = next;
                    assert(self@.pending =~= before@.pending.remove(next));
                    assert(self@ == before@.advanced());
                },
                None => {
                    assert(self@.pending =~= before@.pending);
                    break;
                },
            }
        }
    }

    /// Applies (or buffers) one received entry, and says what that calls for: an announcement when
    /// the replica advanced, or a request for the missing entries when it lies beyond a gap.
    /// An entry the replica already has is ignored.
    pub fn ingest(&mut self, version: Version, op: Vec<u8>) -> (signal: Option<Signal>)
        requires
            old(self)@.wf(),
        ensures
            final(self)@ == old(self)@.ingested(version, op@),
            signal == old(self)@.ingest_signal(version, op@),
            signal is None ==> *final(self) == *old(self),
            signal matches Some(Signal::Request(_)) ==> final(self).machine()
                == old(self).machine(),
            final(self)@.wf(),
    {
        proof {
            self@.lemma_ingested(version, op@);
        }
        if version <= self.applied {
            return None;
        }
        let ghost before = *self;
        if version != self.applied + 1 {
            self.pending.insert(version, op);
            assert(self@.pending =~= before@.pending.insert(version, op@));
            return Some(Signal::Request(self.applied + 1));
        }
        self.apply_bytes(&op);
        self.applied = version;
        assert(self@ == before@.buffered(version, op@).advanced()) by {
            assert(before@.pending =~= before@.pending.insert(version, op@).remove(version));
        }
        self.drain();
        Some(Signal::Announce(self.applied))
    }

    /// Applies (or buffers) a list of received entries in order, and collects what they call for.
    pub fn absorb(&mut self, tail: Vec<Entry>) -> (signals: Vec<Signal>)
        requires
            old(self)@.wf(),
        ensures
            final(self)@ == old(self)@.absorbed(wire::entry_views(tail@)),
            signals@ == old(self)@.absorb_signals(wire::entry_views(tail@)),
            wire::none_announced(signals@) ==> final(self).machine() == old(self).machine(),
            final(self)@.wf(),
    {
        let ghost views = wire::entry_views(tail@);
        let mut signals: Vec<Signal> = Vec::new();
        for entry in it: tail
            invariant
                it.seq() == tail@,
                views == wire::entry_views(tail@),
                self@.wf(),
                self@ == old(self)@.absorbed(views.take(it.index())),
                signals@ == old(self)@.absorb_signals(views.take(it.index())),
                wire::none_announced(signals@) ==> self.machine() == old(self).machine(),
        {
            proof {
                let i = it.index();
                assert(views.take(i + 1).drop_last() =~= views.take(i));
                assert(views.take(i + 1).last() == entry@);
            }
            let ghost earlier = signals@;
            let signal = self.ingest(entry.version, entry.op);
            if let Some(signal) = signal {
                signals.push(signal);
                assert(signals@[earlier.len() as int] == signal);
                assert(forall|i: int| 0 <= i < earlier.len() ==> earlier[i] == signals@[i]);
            }
        }
        assert(views.take(tail@.len() as int) =~= views);
        signals
    }

    /// Drops the waiting entries up to and including `base`.
    fn forget_through(&mut self, base: Version)
        ensures
            final(self)@ == (ReplicaState {
                pending: old(self)@.pending.restrict(Set::new(|v: Version| v > base)),
                ..old(self)@
            }),
            final(self).machine() == old(self).machine(),
    {
        let ghost before = *self;
        let mut covered: Vec<Version> = Vec::new();
        for version in it: self.pending.keys()
            invariant
                it.seq().unref().to_set() == self.pending@.dom(),
                forall|i: int| 0 <= i < covered@.len() ==> #[trigger] covered@[i] <= base,
                forall|i: int|
                    0 <= i < it.index() && *(#[trigger] it.seq()[i]) <= base ==> covered@.contains(
                        *it.seq()[i],
                    ),
        {
            let ghost earlier = covered@;
            if *version <= base {
                covered.push(*version);
                assert(covered@.last() == *version);
                assert forall|v: Version| earlier.contains(v) implies covered@.contains(v) by {
                    let k = choose|k: int| 0 <= k < earlier.len() && earlier[k] == v;
                    assert(covered@[k] == v);
                }
            }
        }
        let ghost doomed = covered@;
        assert forall|v: Version| #[trigger] before.pending@.contains_key(v) && v <= base implies
            doomed.contains(v) by {
            let keys = vstd::std_specs::iter::IteratorSpec::remaining(
                &vstd::std_specs::btree::spec_keys_iter(&before.pending),
            );
            assert(keys.unref().to_set().contains(v));
            let k = choose|k: int| 0 <= k < keys.unref().len() && keys.unref()[k] == v;
            assert(*keys[k] == v);
        }
        for version in it: covered
            invariant
                it.seq() == doomed,
                self.sm == before.sm,
                self.applied == before.applied,
                forall|v: Version| #[trigger]
                    self.pending@.contains_key(v) ==> before.pending@.contains_key(v)
                        && self.pending@[v] == before.pending@[v],
                forall|v: Version|
                    before.pending@.contains_key(v) && !(#[trigger] self.pending@.contains_key(v))
                        ==> doomed.contains(v),
                forall|i: int|
                    0 <= i < it.index() ==> !self.pending@.contains_key(#[trigger] doomed[i]),
        {
            assert(doomed.contains(version));
            self.pending.remove(&version);
        }
        assert(self@.pending =~= before@.pending.restrict(Set::new(|v: Version| v > base)));
    }

    /// Puts the replica at a snapshot `sm` that covers every version up to `base`, and applies
    /// what waits on top of it. A replica that has come at least as far already is left alone.
    pub fn install(&mut self, base: Version, sm: S) -> (signal: Option<Signal>)
        requires
            old(self)@.wf(),
        ensures
            final(self)@ == old(self)@.installed(base, sm.model()),
            signal == old(self)@.install_signal(base, sm.model()),
            signal is None ==> *final(self) == *old(self),
            signal == Some(Signal::Announce(base)) ==> final(self).machine() == sm,
            final(self)@.wf(),
    {
        proof {
            self@.lemma_installed(base, sm.model());
        }
        if self.applied >= base {
            return None;
        }
        self.sm = sm;
        self.applied = base;
        self.forget_through(base);
        self.drain();
        Some(Signal::Announce(self.applied))
    }

    /// Applies an operation that has just been made, under the version that comes next.
    pub fn apply_own(&mut self, op: S::Op) -> (version: Version)
        requires
            old(self)@.applied < Version::MAX,
        ensures
            version == old(self)@.applied + 1,
            final(self)@.applied == version,
            final(self)@.pending == old(self)@.pending,
            forall|bytes: Seq<u8>| #[trigger]
                S::encodes(bytes, op) ==> final(self)@.sm == S::after(old(self)@.sm, bytes),
    {
        self.applied = self.applied + 1;
        self.sm.apply(op);
        self.applied
    }
}

} // verus!
