//! The replication engine: a single-writer, log-replicated state machine.
//!
//! One node is the writer. It owns an append-only log of operations, each stamped with a monotonic
//! [`Version`]. Every operation is broadcast to a topic; readers apply them in order to their own
//! copy of the state machine. A reader only ever applies operations authored by the writer it
//! chose to follow.
//!
//! Delivery is best-effort, so ordering is enforced by the reader, not the transport:
//!
//! * entry `applied + 1`: apply it, then drain any buffered consecutive entries,
//! * entry `<= applied`: already have it, ignore,
//! * entry `> applied + 1`: a gap, so buffer it and ask the writer for everything from
//!   `applied + 1`.
//!
//! Every function here decides and computes only. What it asks of the network comes back as a
//! value: a [`Signal`], an [`Entry`] to publish, a snapshot to fetch.

use vstd::prelude::*;

use crate::coord::Coord;
use crate::machine;
use crate::machine::{Snapshot, StateMachine, Version};
use crate::message;
use crate::message::{AppMessage, MessageView};
use crate::replica::{Core, ReplicaState};
use crate::topic;
use crate::wire;
use crate::wire::{
    CatchUp, CatchUpReply, Checkpoint, CheckpointView, Entry, EntryView, Signal,
};

verus! {

/// The version from which a new reader asks for the writer's log.
pub const FIRST_VERSION: Version = 1;

/// How long a reader waits for the writer's answer to a catch-up request, in milliseconds.
pub const CATCH_UP_TIMEOUT_MS: u64 = 5000;

/// Why a mutation was not made.
#[derive(Debug)]
pub enum ProposeError {
    /// Only the writer may mutate.
    ReadReplica,
    /// The operation could not be encoded.
    Encode(String),
}

/// Why a checkpoint was not taken.
#[derive(Debug)]
pub enum CheckpointError {
    /// Only the writer may checkpoint.
    ReadReplica,
    /// The state could not be written down.
    Save(String),
}

impl ProposeError {
    /// The reason in words.
    pub fn message(&self) -> (text: String)
        ensures
            text@ == match self {
                ProposeError::ReadReplica =>
                    "propose() on a read replica — only the writer may mutate"@,
                ProposeError::Encode(reason) => reason@,
            },
    {
        match self {
            ProposeError::ReadReplica =>
                "propose() on a read replica — only the writer may mutate".to_owned(),
            ProposeError::Encode(reason) => reason.clone(),
        }
    }
}

impl CheckpointError {
    /// The reason in words.
    pub fn message(&self) -> (text: String)
        ensures
            text@ == match self {
                CheckpointError::ReadReplica =>
                    "checkpoint() on a read replica — only the writer may checkpoint"@,
                CheckpointError::Save(reason) => reason@,
            },
    {
        match self {
            CheckpointError::ReadReplica =>
                "checkpoint() on a read replica — only the writer may checkpoint".to_owned(),
            CheckpointError::Save(reason) => reason.clone(),
        }
    }
}

/// What to do about a checkpoint that the writer redirects to.
#[derive(Clone, Copy, Debug, PartialEq, Eq, Structural)]
pub enum LoadStep {
    /// The replica is already at or ahead of it.
    Skip,
    /// The replica cannot load snapshots: ask for the whole log again.
    AskForAll,
    /// Fetch its object and install it.
    Fetch,
}

/// What a catch-up reply leads to.
#[derive(Debug)]
pub enum ReplyStep {
    /// The reply has been taken in.
    Done(Vec<Signal>),
    /// The snapshot has to be fetched before the tail can be taken in.
    Fetch { checkpoint: Checkpoint, tail: Vec<Entry> },
}

/// A replicated state machine as a mathematical value.
#[verifier::reject_recursive_types(S)]
pub struct ReplicatedState<S: StateMachine> {
    pub replica: ReplicaState<S>,
    /// The writer's log above the compaction floor. Empty on readers.
    pub log: Seq<EntryView>,
    /// The writer's latest checkpoint.
    pub checkpoint: Option<CheckpointView>,
    pub is_writer: bool,
    /// The NodeId of the writer.
    pub writer: Seq<char>,
    pub op_topic: Seq<char>,
    pub catchup_topic: Seq<char>,
    /// Whether this reader bootstraps from snapshots.
    pub loads_snapshots: bool,
}

impl<S: StateMachine> ReplicatedState<S> {
    /// A newly opened replica of the collection `name`: of the node `writer`, or of this node if
    /// there is none, in which case this node is the writer.
    pub open spec fn opened(
        node_id: Seq<char>,
        name: Seq<char>,
        writer: Option<Seq<char>>,
        loads_snapshots: bool,
    ) -> Self {
        let writer_id = match writer {
            Some(w) => w,
            None => node_id,
        };
        ReplicatedState {
            replica: ReplicaState::fresh(),
            log: Seq::empty(),
            checkpoint: None,
            is_writer: writer is None,
            writer: writer_id,
            op_topic: topic::op_topic(writer_id, name),
            catchup_topic: topic::catchup_topic(writer_id, name),
            loads_snapshots,
        }
    }

    /// The topic whose messages this replica handles.
    pub open spec fn listens_on(self) -> Seq<char> {
        if self.is_writer {
            self.catchup_topic
        } else {
            self.op_topic
        }
    }

    /// The topic to which this replica sends.
    pub open spec fn sends_to(self) -> Seq<char> {
        if self.is_writer {
            self.op_topic
        } else {
            self.catchup_topic
        }
    }

    /// What opening this replica calls for.
    pub open spec fn first_signal(self) -> Option<Signal> {
        if self.is_writer {
            None
        } else {
            Some(Signal::Request(FIRST_VERSION))
        }
    }

    /// Whoever waits for version `v` on this replica may go on.
    pub open spec fn has_reached(self, v: Version) -> bool {
        self.replica.applied >= v
    }

    /// What a checkpoint started now is taken of: the state, and the version it belongs to.
    pub open spec fn checkpoint_point(self) -> (S::Model, Version) {
        (self.replica.sm, self.replica.applied)
    }

    /// The highest version no longer retained in the log (0 if never compacted).
    pub open spec fn floor(self) -> Version {
        match self.checkpoint {
            Some(c) => c.base,
            None => 0,
        }
    }

    /// The writer's log runs without a gap from just above the compaction floor to the version
    /// reached, and nothing waits on a writer. A reader has no log and no checkpoint.
    pub open spec fn wf(self) -> bool {
        &&& self.replica.wf()
        &&& if self.is_writer {
            &&& self.replica.pending == Map::<Version, Seq<u8>>::empty()
            &&& self.floor() + self.log.len() == self.replica.applied
            &&& forall|i: int|
                0 <= i < self.log.len() ==> (#[trigger] self.log[i]).version == self.floor() + 1 + i
        } else {
            &&& self.log.len() == 0
            &&& self.checkpoint is None
        }
    }

    /// The replica after one received entry.
    pub open spec fn received(self, e: EntryView) -> Self {
        ReplicatedState { replica: self.replica.ingested(e.version, e.op), ..self }
    }

    /// The replica may act on the message: a reader on messages of the writer it follows only, a
    /// writer on everyone's; and only where the payload is hexadecimal.
    pub open spec fn heeds(self, m: MessageView) -> bool {
        &&& self.is_writer || m.from == self.writer
        &&& message::hex_decoded(m.payload_hex) is Some
    }

    /// The reader after one message whose payload, if it is heeded, holds the entry `parsed`.
    pub open spec fn heard(self, m: MessageView, parsed: Option<EntryView>) -> Self {
        match parsed {
            Some(e) => if self.heeds(m) {
                self.received(e)
            } else {
                self
            },
            None => self,
        }
    }

    /// What such a message calls for.
    pub open spec fn hear_signal(
        self,
        m: MessageView,
        parsed: Option<EntryView>,
    ) -> Option<Signal> {
        match parsed {
            Some(e) => if self.heeds(m) {
                self.replica.ingest_signal(e.version, e.op)
            } else {
                None
            },
            None => None,
        }
    }

    /// The reply is what this writer answers to a request for everything from `from` on.
    pub open spec fn answers(self, reply: CatchUpReply, from: Version) -> bool {
        &&& wire::entry_views(reply.tail@) == self.tail_from(from)
        &&& wire::checkpoint_view(reply.redirect) == self.redirect_for(from)
    }

    /// The writer after one more operation.
    pub open spec fn proposed(self, op: Seq<u8>) -> Self {
        let version = (self.replica.applied + 1) as Version;
        ReplicatedState {
            replica: ReplicaState {
                sm: machine::step::<S>(self.replica.sm, op),
                applied: version,
                ..self.replica
            },
            log: self.log.push(EntryView { version, op }),
            ..self
        }
    }

    /// The logged entries from the version `from` on.
    pub open spec fn tail_from(self, from: Version) -> Seq<EntryView> {
        self.log.filter(|e: EntryView| e.version >= from)
    }

    /// How many entries of a writer's log lie below the version `from`.
    pub open spec fn tail_start(self, from: Version) -> int {
        if from <= self.floor() + 1 {
            0
        } else if from > self.replica.applied {
            self.log.len() as int
        } else {
            from - self.floor() - 1
        }
    }

    /// The checkpoint that a reader who asks for everything from `from` has to start from: the
    /// latest one, if it covers what is asked for.
    pub open spec fn redirect_for(self, from: Version) -> Option<CheckpointView> {
        match self.checkpoint {
            Some(c) => if from <= c.base {
                Some(c)
            } else {
                None
            },
            None => None,
        }
    }

    /// The writer once a checkpoint of everything up to `base` is stored: the log holds only what
    /// lies above it. The floor never goes back, so a checkpoint below it changes nothing.
    pub open spec fn compacted(self, cp: CheckpointView) -> Self {
        if cp.base < self.floor() {
            self
        } else {
            ReplicatedState {
                checkpoint: Some(cp),
                log: self.log.filter(|e: EntryView| e.version > cp.base),
                ..self
            }
        }
    }

    /// What to do about a checkpoint that the writer redirects to.
    pub open spec fn load_step(self, base: Version) -> LoadStep {
        if self.replica.applied >= base {
            LoadStep::Skip
        } else if !self.loads_snapshots {
            LoadStep::AskForAll
        } else {
            LoadStep::Fetch
        }
    }

    /// What to do about the redirect of a catch-up reply.
    pub open spec fn redirect_step(self, redirect: Option<CheckpointView>) -> LoadStep {
        match redirect {
            Some(cp) => self.load_step(cp.base),
            None => LoadStep::Skip,
        }
    }

    /// The reader once it has looked at a catch-up reply. Where a snapshot has to be fetched first
    /// it is as before, else it has taken in the tail.
    pub open spec fn replied(self, redirect: Option<CheckpointView>, tail: Seq<EntryView>) -> Self {
        match self.redirect_step(redirect) {
            LoadStep::Fetch => self,
            _ => ReplicatedState { replica: self.replica.absorbed(tail), ..self },
        }
    }

    /// What a catch-up reply calls for where nothing has to be fetched.
    pub open spec fn reply_signals(
        self,
        redirect: Option<CheckpointView>,
        tail: Seq<EntryView>,
    ) -> Seq<Signal> {
        let signals = self.replica.absorb_signals(tail);
        match self.redirect_step(redirect) {
            LoadStep::AskForAll => seq![Signal::Request(FIRST_VERSION)] + signals,
            _ => signals,
        }
    }

    /// The reader once the snapshot of a catch-up reply was fetched, or could not be, and the tail
    /// is taken in on top.
    pub open spec fn finished(
        self,
        base: Version,
        loaded: Option<S::Model>,
        tail: Seq<EntryView>,
    ) -> Self {
        let replica = match loaded {
            Some(sm) => self.replica.installed(base, sm),
            None => self.replica,
        };
        ReplicatedState { replica: replica.absorbed(tail), ..self }
    }

    /// What that calls for.
    pub open spec fn finish_signals(
        self,
        base: Version,
        loaded: Option<S::Model>,
        tail: Seq<EntryView>,
    ) -> Seq<Signal> {
        match loaded {
            Some(sm) => {
                let signals = self.replica.installed(base, sm).absorb_signals(tail);
                match self.replica.install_signal(base, sm) {
                    Some(signal) => seq![signal] + signals,
                    None => signals,
                }
            },
            None => self.replica.absorb_signals(tail),
        }
    }
}

/// What a state that was loaded holds, if one was.
pub open spec fn loaded_model<S: StateMachine>(loaded: Result<S, String>) -> Option<S::Model> {
    match loaded {
        Ok(sm) => Some(sm.model()),
        Err(_) => None,
    }
}

/// Keeping what lies from position `k` on is the same as skipping the first `k` items.
proof fn lemma_filter_is_skip(log: Seq<EntryView>, keep: spec_fn(EntryView) -> bool, k: int)
    requires
        0 <= k <= log.len(),
        forall|i: int| 0 <= i < log.len() ==> (keep(#[trigger] log[i]) <==> i >= k),
    ensures
        log.filter(keep) == log.skip(k),
    decreases log.len(),
{
    reveal_with_fuel(Seq::<_>::filter, 1);
    if log.len() > 0 {
        let shorter = log.drop_last();
        if k == log.len() {
            lemma_filter_is_skip(shorter, keep, k - 1);
            assert(!keep(log[log.len() - 1]));
            assert(shorter.skip(k - 1) =~= log.skip(k));
        } else {
            lemma_filter_is_skip(shorter, keep, k);
            assert(keep(log[log.len() - 1]));
            assert(shorter.skip(k).push(log.last()) =~= log.skip(k));
        }
    } else {
        assert(log.filter(keep) =~= log.skip(k));
    }
}

impl<S: StateMachine> ReplicatedState<S> {
    /// The writer's log from version `from` on is the log without its first entries.
    pub proof fn lemma_tail_from(self, from: Version)
        requires
            self.wf(),
            self.is_writer,
        ensures
            0 <= self.tail_start(from) <= self.log.len(),
            self.tail_from(from) == self.log.skip(self.tail_start(from)),
    {
        lemma_filter_is_skip(self.log, |e: EntryView| e.version >= from, self.tail_start(from));
    }

    /// Compaction takes entries off the front of the log only, and keeps the writer well-formed.
    pub proof fn lemma_compacted(self, cp: CheckpointView)
        requires
            self.wf(),
            self.is_writer,
            cp.base <= self.replica.applied,
        ensures
            self.compacted(cp).wf(),
            cp.base >= self.floor() ==> self.compacted(cp).log == self.log.skip(
                cp.base - self.floor(),
            ),
    {
        if cp.base >= self.floor() {
            lemma_filter_is_skip(
                self.log,
                |e: EntryView| e.version > cp.base,
                cp.base - self.floor(),
            );
        }
    }
}

/// A replicated state machine. Construct one with [`Replicated::writer`] or
/// [`Replicated::reader`]. Reads are local; the single writer's mutations go through
/// [`propose`](Self::propose).
#[verifier::reject_recursive_types(S)]
pub struct Replicated<S> {
    core: Core<S>,
    /// The writer's authoritative log, served to readers on catch-up. Empty on readers. After a
    /// compaction it holds only entries above the checkpoint's base.
    log: Vec<Entry>,
    /// The writer's latest checkpoint, if it has taken one.
    checkpoint: Option<Checkpoint>,
    is_writer: bool,
    writer: String,
    op_topic: String,
    catchup_topic: String,
    loads_snapshots: bool,
}

impl<S: StateMachine> View for Replicated<S> {
    type V = ReplicatedState<S>;

    closed spec fn view(&self) -> ReplicatedState<S> {
        ReplicatedState {
            replica: self.core@,
            log: wire::entry_views(self.log@),
            checkpoint: wire::checkpoint_view(self.checkpoint),
            is_writer: self.is_writer,
            writer: self.writer@,
            op_topic: self.op_topic@,
            catchup_topic: self.catchup_topic@,
            loads_snapshots: self.loads_snapshots,
        }
    }
}

impl<S: StateMachine> Replicated<S> {
    /// The state machine itself.
    pub closed spec fn machine(&self) -> S {
        self.core.machine()
    }

    /// Opens this node as the writer for `name`. Only one writer should exist per node and name;
    /// the topic is namespaced by the writer's NodeId, so distinct writers never collide.
    pub fn writer<H>(coord: &Coord<H>, name: &str) -> (replicated: Self)
        ensures
            replicated@ == ReplicatedState::<S>::opened(coord@.node_id, name@, None, false),
            replicated@.wf(),
    {
        Self::open(coord, name, None, false)
    }

    /// Opens this node as a read replica following `writer` (its NodeId hex) for `name`.
    pub fn reader<H>(coord: &Coord<H>, name: &str, writer: &str) -> (replicated: Self)
        ensures
            replicated@ == ReplicatedState::<S>::opened(
                coord@.node_id,
                name@,
                Some(writer@),
                false,
            ),
            replicated@.wf(),
    {
        Self::open(coord, name, Some(writer.to_owned()), false)
    }

    fn open<H>(
        coord: &Coord<H>,
        name: &str,
        writer: Option<String>,
        loads_snapshots: bool,
    ) -> (replicated: Self)
        ensures
            replicated@ == ReplicatedState::<S>::opened(
                coord@.node_id,
                name@,
                match writer {
                    Some(w) => Some(w@),
                    None => None,
                },
                loads_snapshots,
            ),
            replicated@.wf(),
    {
        let is_writer = writer.is_none();
        let writer_id = match writer {
            Some(w) => w,
            None => coord.node_id().to_owned(),
        };
        let op_topic = topic::op_topic_name(writer_id.as_str(), name);
        let catchup_topic = topic::catchup_topic_name(writer_id.as_str(), name);
        let replicated = Replicated {
            core: Core::new(),
            log: Vec::new(),
            checkpoint: None,
            is_writer,
            writer: writer_id,
            op_topic,
            catchup_topic,
            loads_snapshots,
        };
        assert(replicated@.log =~= Seq::empty());
        replicated
    }

    /// The topic whose messages this replica handles: a writer serves catch-up requests, a reader
    /// takes in the operations it subscribes to.
    pub fn inbound_topic(&self) -> (topic: &str)
        ensures
            topic@ == if self@.is_writer {
                self@.catchup_topic
            } else {
                self@.op_topic
            },
            topic@ == self@.listens_on(),
    {
        if self.is_writer {
            self.catchup_topic.as_str()
        } else {
            self.op_topic.as_str()
        }
    }

    /// The topic to which this replica sends: a writer publishes operations, a reader asks the
    /// writer for what it misses.
    pub fn outbound_topic(&self) -> (topic: &str)
        ensures
            topic@ == if self@.is_writer {
                self@.op_topic
            } else {
                self@.catchup_topic
            },
            topic@ == self@.sends_to(),
    {
        if self.is_writer {
            self.op_topic.as_str()
        } else {
            self.catchup_topic.as_str()
        }
    }

    /// Whether this replica is the writer.
    pub fn is_writer(&self) -> (is_writer: bool)
        ensures
            is_writer == self@.is_writer,
    {
        self.is_writer
    }

    /// The NodeId of the writer.
    pub fn writer_id(&self) -> (id: &str)
        ensures
            id@ == self@.writer,
    {
        self.writer.as_str()
    }

    /// What opening this replica calls for: a reader pulls the writer's whole log now rather than
    /// wait for the next write.
    pub fn bootstrap(&self) -> (signal: Option<Signal>)
        ensures
            signal == if self@.is_writer {
                None
            } else {
                Some(Signal::Request(FIRST_VERSION))
            },
            signal == self@.first_signal(),
    {
        if self.is_writer {
            None
        } else {
            Some(Signal::Request(FIRST_VERSION))
        }
    }

    /// The raw payload of a message that this replica may act on. A reader acts on messages of
    /// the writer it follows only; a writer serves everyone.
    pub fn accept(&self, msg: &AppMessage) -> (bytes: Option<Vec<u8>>)
        ensures
            match bytes {
                Some(b) => {
                    &&& self@.heeds(msg@)
                    &&& message::hex_decoded(msg@.payload_hex) == Some(b@)
                },
                None => !self@.heeds(msg@),
            },
    {
        if !self.is_writer && msg.from != self.writer {
            return None;
        }
        msg.payload()
    }

    /// Proposes a mutation (writer only): applies it locally under the next version and appends it
    /// to the log. The entry that comes back is to be announced to watchers and published.
    pub fn propose(&mut self, op: S::Op) -> (entry: Result<Entry, ProposeError>)
        requires
            old(self)@.wf(),
            old(self)@.is_writer ==> old(self)@.replica.applied < Version::MAX,
        ensures
            final(self)@.wf(),
            match entry {
                Ok(e) => {
                    &&& old(self)@.is_writer
                    &&& call_ensures(S::encode, (&op,), Ok(e.op))
                    &&& S::is_op(e.op@) && S::encodes(e.op@, op)
                    &&& e.version == old(self)@.replica.applied + 1
                    &&& final(self)@ == old(self)@.proposed(e.op@)
                    &&& final(self)@.log == old(self)@.log.push(e@)
                    &&& final(self)@.checkpoint == old(self)@.checkpoint
                },
                Err(ProposeError::ReadReplica) => {
                    &&& !old(self)@.is_writer
                    &&& *final(self) == *old(self)
                },
                Err(ProposeError::Encode(reason)) => {
                    &&& old(self)@.is_writer
                    &&& call_ensures(S::encode, (&op,), Err(reason))
                    &&& *final(self) == *old(self)
                },
            },
    {
        if !self.is_writer {
            return Err(ProposeError::ReadReplica);
        }
        let bytes = match S::encode(&op) {
            Ok(b) => b,
            Err(reason) => return Err(ProposeError::Encode(reason)),
        };
        let ghost before = *self;
        let version: Version = self.core.apply_own(op);
        let entry = Entry { version, op: bytes };
        self.log.push(entry.clone());
        assert(self@.log =~= before@.log.push(entry@));
        Ok(entry)
    }

    /// Answers a reader's catch-up request: the log from the version it asks for, and, where the
    /// log no longer reaches back that far, the checkpoint to bootstrap from instead.
    pub fn serve_catch_up(&self, request: &CatchUp) -> (reply: CatchUpReply)
        ensures
            self@.answers(reply, request.from),
            self@.wf() && self@.is_writer ==> forall|i: int|
                0 <= i < self@.log.len() && (#[trigger] self@.log[i]).version >= request.from
                    ==> wire::entry_views(reply.tail@).contains(self@.log[i]),
    {
        let from: Version = request.from;
        let mut tail: Vec<Entry> = Vec::new();
        let ghost log = self@.log;
        let ghost wanted = |e: EntryView| e.version >= from;
        assert(log.take(0).filter(wanted) =~= Seq::empty()) by {
            reveal_with_fuel(Seq::<_>::filter, 1);
        }
        let count: usize = self.log.len();
        for i in 0..count
            invariant
                count == self.log@.len(),
                log == wire::entry_views(self.log@),
                wanted == |e: EntryView| e.version >= from,
                wire::entry_views(tail@) == log.take(i as int).filter(wanted),
        {
            let entry = &self.log[i];
            proof {
                reveal_with_fuel(Seq::<_>::filter, 1);
                assert(log.take(i + 1).drop_last() =~= log.take(i as int));
                assert(log.take(i + 1).last() == entry@);
            }
            if entry.version >= from {
                let ghost earlier = tail@;
                tail.push(entry.clone());
                assert(wire::entry_views(tail@) =~= wire::entry_views(earlier).push(entry@));
            }
        }
        assert(log.take(count as int) =~= log);
        let redirect = match &self.checkpoint {
            Some(c) => if from <= c.base {
                Some(c.clone())
            } else {
                None
            },
            None => None,
        };
        proof {
            if self@.wf() && self@.is_writer {
                self@.lemma_tail_from(from);
                let k = self@.tail_start(from);
                assert forall|i: int|
                    0 <= i < log.len() && (#[trigger] log[i]).version
                        >= from implies wire::entry_views(tail@).contains(log[i]) by {
                    assert(log.skip(k)[i - k] == log[i]);
                }
            }
        }
        CatchUpReply { tail, redirect }
    }

    /// Handles a message on the writer's catch-up topic: `parse` reads the request out of its
    /// payload. A message that holds no request gets no answer.
    pub fn on_request<F: FnOnce(&Vec<u8>) -> Option<CatchUp>>(
        &self,
        msg: &AppMessage,
        parse: F,
    ) -> (reply: Option<CatchUpReply>)
        requires
            self@.is_writer,
            forall|b: &Vec<u8>|
                message::hex_decoded(msg@.payload_hex) == Some(b@) ==> #[trigger] call_requires(
                    parse,
                    (b,),
                ),
        ensures
            !self@.heeds(msg@) ==> reply is None,
            self@.heeds(msg@) ==> exists|b: &Vec<u8>, parsed: Option<CatchUp>|
                {
                    &&& message::hex_decoded(msg@.payload_hex) == Some(b@)
                    &&& #[trigger] call_ensures(parse, (b,), parsed)
                    &&& match parsed {
                        Some(request) => reply matches Some(r) && self@.answers(r, request.from),
                        None => reply is None,
                    }
                },
    {
        let bytes = match self.accept(msg) {
            Some(b) => b,
            None => return None,
        };
        let parsed = parse(&bytes);
        assert(call_ensures(parse, (&bytes,), parsed));
        match parsed {
            Some(request) => Some(self.serve_catch_up(&request)),
            None => None,
        }
    }

    /// Handles a message on the topic that a reader subscribes to: `parse` reads the entry out of
    /// its payload, which is then taken in. A message of anyone but the followed writer, or one
    /// that holds no entry, changes nothing and calls for nothing.
    pub fn on_message<F: FnOnce(&Vec<u8>) -> Option<Entry>>(
        &mut self,
        msg: &AppMessage,
        parse: F,
    ) -> (signal: Option<Signal>)
        requires
            old(self)@.wf(),
            !old(self)@.is_writer,
            forall|b: &Vec<u8>|
                old(self)@.heeds(msg@) && message::hex_decoded(msg@.payload_hex) == Some(b@)
                    ==> #[trigger] call_requires(parse, (b,)),
        ensures
            final(self)@.wf(),
            !old(self)@.heeds(msg@) ==> signal is None,
            old(self)@.heeds(msg@) ==> exists|b: &Vec<u8>, parsed: Option<Entry>|
                {
                    &&& message::hex_decoded(msg@.payload_hex) == Some(b@)
                    &&& #[trigger] call_ensures(parse, (b,), parsed)
                    &&& final(self)@ == old(self)@.heard(msg@, wire::entry_view(parsed))
                    &&& signal == old(self)@.hear_signal(msg@, wire::entry_view(parsed))
                    &&& parsed matches Some(e) ==> {
                        &&& final(self)@ == old(self)@.received(e@)
                        &&& signal == old(self)@.replica.ingest_signal(e.version, e.op@)
                    }
                },
            signal is None ==> *final(self) == *old(self),
            signal matches Some(Signal::Request(_)) ==> final(self).machine()
                == old(self).machine(),
    {
        let bytes = match self.accept(msg) {
            Some(b) => b,
            None => return None,
        };
        let parsed = parse(&bytes);
        assert(call_ensures(parse, (&bytes,), parsed));
        match parsed {
            Some(entry) => self.ingest(entry),
            None => None,
        }
    }

    /// Takes in one entry that the followed writer authored, and says what that calls for.
    pub fn ingest(&mut self, entry: Entry) -> (signal: Option<Signal>)
        requires
            old(self)@.wf(),
            !old(self)@.is_writer,
        ensures
            final(self)@.wf(),
            final(self)@ == old(self)@.received(entry@),
            signal == old(self)@.replica.ingest_signal(entry.version, entry.op@),
            signal is None ==> *final(self) == *old(self),
            signal matches Some(Signal::Request(_)) ==> final(self).machine()
                == old(self).machine(),
    {
        self.core.ingest(entry.version, entry.op)
    }

    /// Decides what to do about a checkpoint that the writer redirects to. A replica that is
    /// already at or ahead of it skips it. One that cannot load snapshots asks for the whole log
    /// again, in case the writer can still serve it.
    pub fn load_checkpoint(&self, cp: &Checkpoint) -> (step: LoadStep)
        ensures
            step == self@.load_step(cp.base),
            step is Skip <==> self@.replica.applied >= cp.base,
            step is Fetch <==> self@.replica.applied < cp.base && self@.loads_snapshots,
    {
        if self.core.applied() >= cp.base {
            LoadStep::Skip
        } else if !self.loads_snapshots {
            LoadStep::AskForAll
        } else {
            LoadStep::Fetch
        }
    }

    /// Replaces the state by the snapshot behind a checkpoint, and applies what waits on top of it.
    /// Nothing changes when the snapshot could not be loaded, or when the replica has meanwhile
    /// come at least as far.
    pub fn install_snapshot(
        &mut self,
        cp: &Checkpoint,
        loaded: Result<S, String>,
    ) -> (signal: Option<Signal>)
        requires
            old(self)@.wf(),
            !old(self)@.is_writer,
        ensures
            final(self)@.wf(),
            match loaded {
                Ok(sm) => {
                    &&& final(self)@ == (ReplicatedState {
                        replica: old(self)@.replica.installed(cp.base, sm.model()),
                        ..old(self)@
                    })
                    &&& signal == old(self)@.replica.install_signal(cp.base, sm.model())
                    &&& signal == Some(Signal::Announce(cp.base)) ==> final(self).machine() == sm
                },
                Err(_) => signal is None,
            },
            signal is None ==> *final(self) == *old(self),
    {
        match loaded {
            Ok(sm) => self.core.install(cp.base, sm),
            Err(_) => None,
        }
    }

    /// Takes in the writer's answer to a catch-up request. Where the answer redirects to a
    /// snapshot that this reader can use, that one has to be fetched first, and the tail is handed
    /// back to be taken in afterwards with [`finish_catch_up`](Self::finish_catch_up).
    pub fn take_reply(&mut self, reply: CatchUpReply) -> (step: ReplyStep)
        requires
            old(self)@.wf(),
            !old(self)@.is_writer,
        ensures
            final(self)@.wf(),
            ({
                let tail = wire::entry_views(reply.tail@);
                let redirect = wire::checkpoint_view(reply.redirect);
                let before = old(self)@;
                match before.redirect_step(redirect) {
                    LoadStep::Fetch => {
                        &&& step matches ReplyStep::Fetch { checkpoint, tail: rest }
                        &&& Some(checkpoint@) == redirect
                        &&& wire::entry_views(rest@) == tail
                        &&& *final(self) == *old(self)
                    },
                    LoadStep::AskForAll => {
                        &&& step matches ReplyStep::Done(signals)
                        &&& signals@ == seq![Signal::Request(FIRST_VERSION)]
                            + before.replica.absorb_signals(tail)
                        &&& final(self)@ == (ReplicatedState {
                            replica: before.replica.absorbed(tail),
                            ..before
                        })
                    },
                    LoadStep::Skip => {
                        &&& step matches ReplyStep::Done(signals)
                        &&& signals@ == before.replica.absorb_signals(tail)
                        &&& final(self)@ == (ReplicatedState {
                            replica: before.replica.absorbed(tail),
                            ..before
                        })
                    },
                }
            }),
            final(self)@ == old(self)@.replied(
                wire::checkpoint_view(reply.redirect),
                wire::entry_views(reply.tail@),
            ),
            step matches ReplyStep::Done(signals) ==> signals@ == old(self)@.reply_signals(
                wire::checkpoint_view(reply.redirect),
                wire::entry_views(reply.tail@),
            ),
            step matches ReplyStep::Done(signals) ==> (wire::none_announced(signals@)
                ==> final(self).machine() == old(self).machine()),
    {
        let CatchUpReply { tail, redirect } = reply;
        if let Some(cp) = redirect {
            match self.load_checkpoint(&cp) {
                LoadStep::Skip => {},
                LoadStep::AskForAll => {
                    let mut signals: Vec<Signal> = Vec::new();
                    signals.push(Signal::Request(FIRST_VERSION));
                    let mut rest = self.core.absorb(tail);
                    let ghost absorbed = rest@;
                    signals.append(&mut rest);
                    assert(forall|i: int|
                        0 <= i < absorbed.len() ==> absorbed[i] == signals@[i + 1]);
                    return ReplyStep::Done(signals);
                },
                LoadStep::Fetch => {
                    return ReplyStep::Fetch { checkpoint: cp, tail };
                },
            }
        }
        ReplyStep::Done(self.core.absorb(tail))
    }

    /// Takes in the rest of a catch-up reply once its snapshot was fetched, or could not be.
    pub fn finish_catch_up(
        &mut self,
        cp: &Checkpoint,
        loaded: Result<S, String>,
        tail: Vec<Entry>,
    ) -> (signals: Vec<Signal>)
        requires
            old(self)@.wf(),
            !old(self)@.is_writer,
        ensures
            final(self)@.wf(),
            ({
                let entries = wire::entry_views(tail@);
                let (replica, signal) = match loaded {
                    Ok(sm) => (
                        old(self)@.replica.installed(cp.base, sm.model()),
                        old(self)@.replica.install_signal(cp.base, sm.model()),
                    ),
                    Err(_) => (old(self)@.replica, None),
                };
                &&& final(self)@ == (ReplicatedState {
                    replica: replica.absorbed(entries),
                    ..old(self)@
                })
                &&& signals@ == match signal {
                    Some(s) => seq![s] + replica.absorb_signals(entries),
                    None => replica.absorb_signals(entries),
                }
            }),
            final(self)@ == old(self)@.finished(
                cp.base,
                loaded_model(loaded),
                wire::entry_views(tail@),
            ),
            signals@ == old(self)@.finish_signals(
                cp.base,
                loaded_model(loaded),
                wire::entry_views(tail@),
            ),
            wire::none_announced(signals@) ==> final(self).machine() == old(self).machine(),
    {
        match self.install_snapshot(cp, loaded) {
            Some(signal) => {
                let mut signals: Vec<Signal> = Vec::new();
                signals.push(signal);
                let mut rest = self.core.absorb(tail);
                signals.append(&mut rest);
                assert(signals@[0] == signal);
                signals
            },
            None => self.core.absorb(tail),
        }
    }

    /// The highest version applied to this replica.
    pub fn version(&self) -> (version: Version)
        ensures
            version == self@.replica.applied,
    {
        self.core.applied()
    }

    /// Whether this replica has applied at least version `v`, so that whoever waits for it may go
    /// on.
    pub fn await_version(&self, v: Version) -> (reached: bool)
        ensures
            reached == (self@.replica.applied >= v),
            reached == self@.has_reached(v),
    {
        self.core.applied() >= v
    }

    /// Reads the current state.
    pub fn read<R, F: FnOnce(&S) -> R>(&self, f: F) -> (r: R)
        requires
            call_requires(f, (&self.machine(),)),
        ensures
            call_ensures(f, (&self.machine(),), r),
            self.machine().model() == self@.replica.sm,
    {
        f(self.core.state())
    }
}

impl<S: Snapshot> Replicated<S> {
    /// Opens a read replica that bootstraps from the writer's latest snapshot (if any) instead of
    /// replaying the whole log, then tails only newer operations.
    pub fn snapshot_reader<H>(coord: &Coord<H>, name: &str, writer: &str) -> (replicated: Self)
        ensures
            replicated@ == ReplicatedState::<S>::opened(coord@.node_id, name@, Some(writer@), true),
            replicated@.wf(),
    {
        Self::open(coord, name, Some(writer.to_owned()), true)
    }

    /// Turns what was fetched for a checkpoint into a state.
    pub fn load_object(fetched: Result<Vec<u8>, String>) -> (loaded: Result<S, String>)
        ensures
            match fetched {
                Ok(bytes) => {
                    &&& exists|b: &[u8]|
                        b@ == bytes@ && #[trigger] call_ensures(S::load, (b,), loaded)
                    &&& match loaded {
                        Ok(sm) => S::restored(bytes@) == Some(sm.model()),
                        Err(_) => S::restored(bytes@) is None,
                    }
                },
                Err(reason) => loaded == Err::<S, String>(reason),
            },
    {
        match fetched {
            Ok(bytes) => {
                let slice = bytes.as_slice();
                let loaded = S::load(slice);
                assert(slice@ == bytes@ && call_ensures(S::load, (slice,), loaded));
                loaded
            },
            Err(reason) => Err(reason),
        }
    }

    /// Starts a checkpoint (writer only): writes the current state down, together with the version
    /// it belongs to. The bytes are to be stored as an object before
    /// [`checkpoint`](Self::checkpoint) records it.
    pub fn begin_checkpoint(&self) -> (started: Result<(Vec<u8>, Version), CheckpointError>)
        ensures
            match started {
                Ok((bytes, base)) => {
                    &&& self@.is_writer
                    &&& call_ensures(S::save, (&self.machine(),), Ok(bytes))
                    &&& S::restored(bytes@) == Some(self@.replica.sm)
                    &&& base == self@.replica.applied
                    &&& (S::restored(bytes@), base) == (
                        Some(self@.checkpoint_point().0),
                        self@.checkpoint_point().1,
                    )
                },
                Err(CheckpointError::ReadReplica) => !self@.is_writer,
                Err(CheckpointError::Save(reason)) => {
                    &&& self@.is_writer
                    &&& call_ensures(S::save, (&self.machine(),), Err(reason))
                },
            },
    {
        if !self.is_writer {
            return Err(CheckpointError::ReadReplica);
        }
        match self.core.state().save() {
            Ok(bytes) => Ok((bytes, self.core.applied())),
            Err(reason) => Err(CheckpointError::Save(reason)),
        }
    }

    /// Serializes this replica's current state to bytes (the encoding that a checkpoint stores).
    pub fn snapshot_bytes(&self) -> (bytes: Result<Vec<u8>, String>)
        ensures
            call_ensures(S::save, (&self.machine(),), bytes),
            bytes matches Ok(b) ==> S::restored(b@) == Some(self@.replica.sm),
    {
        self.core.state().save()
    }

    /// Records a checkpoint whose object is stored (writer only), and compacts the log by dropping
    /// every entry at or below its base. Readers that ask for entries below it are redirected to
    /// it from now on. The floor only advances: a checkpoint below it is left aside.
    pub fn checkpoint(&mut self, base: Version, cid: String) -> (recorded: Result<
        Checkpoint,
        CheckpointError,
    >)
        requires
            old(self)@.wf(),
            old(self)@.is_writer ==> base <= old(self)@.replica.applied,
        ensures
            final(self)@.wf(),
            match recorded {
                Ok(cp) => {
                    &&& old(self)@.is_writer
                    &&& cp@ == (CheckpointView { base, cid: cid@ })
                    &&& final(self)@ == old(self)@.compacted(cp@)
                    &&& final(self)@.checkpoint == match old(self)@.checkpoint {
                        Some(c) => if base < c.base {
                            Some(c)
                        } else {
                            Some(cp@)
                        },
                        None => Some(cp@),
                    }
                    &&& final(self).machine() == old(self).machine()
                },
                Err(CheckpointError::ReadReplica) => {
                    &&& !old(self)@.is_writer
                    &&& *final(self) == *old(self)
                },
                Err(CheckpointError::Save(_)) => false,
            },
    {
        if !self.is_writer {
            return Err(CheckpointError::ReadReplica);
        }
        let cp = Checkpoint { base, cid };
        if base < self.compaction_floor() {
            return Ok(cp);
        }
        proof {
            self@.lemma_compacted(cp@);
        }
        self.checkpoint = Some(cp.clone());
        self.drop_through(base);
        Ok(cp)
    }

    /// The writer's current checkpoint, if it has taken one.
    pub fn current_checkpoint(&self) -> (cp: Option<Checkpoint>)
        ensures
            wire::checkpoint_view(cp) == self@.checkpoint,
    {
        match &self.checkpoint {
            Some(c) => Some(c.clone()),
            None => None,
        }
    }

    /// The compaction floor: the highest version no longer retained in the live log (0 if never
    /// compacted). Entries at or below it live only in the snapshot.
    pub fn compaction_floor(&self) -> (floor: Version)
        ensures
            floor == self@.floor(),
    {
        match &self.checkpoint {
            Some(c) => c.base,
            None => 0,
        }
    }

    /// Drops every logged entry at or below `base`.
    fn drop_through(&mut self, base: Version)
        ensures
            final(self)@ == (ReplicatedState {
                log: old(self)@.log.filter(|e: EntryView| e.version > base),
                ..old(self)@
            }),
            final(self).machine() == old(self).machine(),
    {
        let ghost log = self@.log;
        let ghost kept_ones = |e: EntryView| e.version > base;
        let mut old_log: Vec<Entry> = Vec::new();
        old_log.append(&mut self.log);
        let mut kept: Vec<Entry> = Vec::new();
        assert(log.take(0).filter(kept_ones) =~= Seq::empty()) by {
            reveal_with_fuel(Seq::<_>::filter, 1);
        }
        for entry in it: old_log
            invariant
                wire::entry_views(it.seq()) == log,
                kept_ones == |e: EntryView| e.version > base,
                wire::entry_views(kept@) == log.take(it.index()).filter(kept_ones),
        {
            let ghost i = it.index();
            proof {
                reveal_with_fuel(Seq::<_>::filter, 1);
                assert(log.take(i + 1).drop_last() =~= log.take(i));
                assert(log.take(i + 1).last() == entry@);
            }
            if entry.version > base {
                let ghost earlier = kept@;
                kept.push(entry);
                assert(wire::entry_views(kept@) =~= wire::entry_views(earlier).push(entry@));
            }
        }
        assert(log.take(log.len() as int) =~= log);
        self.log = kept;
    }
}

} // verus!
