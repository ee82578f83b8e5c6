//! What travels between a writer and its readers.

use vstd::prelude::*;

use crate::machine::Version;

verus! {

/// One logged operation: a version plus the encoded operation.
#[derive(Debug)]
pub struct Entry {
    pub version: Version,
    pub op: Vec<u8>,
}

/// A logged operation as a mathematical value.
pub struct EntryView {
    pub version: Version,
    pub op: Seq<u8>,
}

impl View for Entry {
    type V = EntryView;

    open spec fn view(&self) -> EntryView {
        EntryView { version: self.version, op: self.op@ }
    }
}

impl Clone for Entry {
    fn clone(&self) -> (copy: Self)
        ensures
            copy@ == self@,
    {
        let op = self.op.clone();
        assert(op@ =~= self.op@);
        Entry { version: self.version, op }
    }
}

/// The value of a logged operation that may not be there.
pub open spec fn entry_view(entry: Option<Entry>) -> Option<EntryView> {
    match entry {
        Some(e) => Some(e@),
        None => None,
    }
}

/// The values of a list of logged operations.
pub open spec fn entry_views(entries: Seq<Entry>) -> Seq<EntryView> {
    entries.map_values(|e: Entry| e@)
}

/// A stored snapshot: the last version it covers, and the content identifier of its object.
#[derive(Debug)]
pub struct Checkpoint {
    pub base: Version,
    pub cid: String,
}

/// A checkpoint as a mathematical value.
pub struct CheckpointView {
    pub base: Version,
    pub cid: Seq<char>,
}

impl View for Checkpoint {
    type V = CheckpointView;

    open spec fn view(&self) -> CheckpointView {
        CheckpointView { base: self.base, cid: self.cid@ }
    }
}

impl Clone for Checkpoint {
    fn clone(&self) -> (copy: Self)
        ensures
            copy@ == self@,
    {
        Checkpoint { base: self.base, cid: self.cid.clone() }
    }
}

/// The value of a checkpoint that may not be there.
pub open spec fn checkpoint_view(cp: Option<Checkpoint>) -> Option<CheckpointView> {
    match cp {
        Some(c) => Some(c@),
        None => None,
    }
}

/// A reader's request: "send me every entry from `from` onward."
#[derive(Clone, Copy, Debug, PartialEq, Eq, Structural)]
pub struct CatchUp {
    pub from: Version,
}

/// The writer's answer to a [`CatchUp`]: the requested tail of the log, plus the checkpoint to
/// bootstrap from when the log no longer reaches back to the requested version.
#[derive(Debug)]
pub struct CatchUpReply {
    pub tail: Vec<Entry>,
    pub redirect: Option<Checkpoint>,
}

/// What a replica asks of the code that runs it.
#[derive(Clone, Copy, Debug, PartialEq, Eq, Structural)]
pub enum Signal {
    /// This version is now applied: tell everyone who watches.
    Announce(Version),
    /// Entries from this version onward are missing: ask the writer for them.
    Request(Version),
}

impl Signal {
    /// The version that watchers see after this signal, when they saw `current` before it.
    pub open spec fn watched_after(self, current: Version) -> Version {
        match self {
            Signal::Announce(v) => if v > current {
                v
            } else {
                current
            },
            Signal::Request(_) => current,
        }
    }

    /// The version that watchers see after this signal, when they saw `current` before it. A
    /// signal that is late, because a newer one overtook it, takes them back to no older version.
    pub fn watched(self, current: Version) -> (next: Version)
        ensures
            next == self.watched_after(current),
    {
        match self {
            Signal::Announce(v) => if v > current {
                v
            } else {
                current
            },
            Signal::Request(_) => current,
        }
    }
}

/// No signal of the list announces a version.
pub open spec fn none_announced(signals: Seq<Signal>) -> bool {
    forall|i: int| 0 <= i < signals.len() ==> (#[trigger] signals[i]) is Request
}

/// Watchers see the version they saw before, or a newer one that was announced.
pub proof fn watchers_see_announced_versions_only(signal: Signal, current: Version)
    ensures
        match signal {
            Signal::Announce(v) => {
                &&& v >= current ==> signal.watched_after(current) == v
                &&& v <= current ==> signal.watched_after(current) == current
            },
            Signal::Request(_) => signal.watched_after(current) == current,
        },
{
}

/// The values of what travels are those of its parts: a list has the same length and the same
/// entries in the same order, and what is not there has no value.
pub proof fn values_are_those_of_the_parts(entries: Seq<Entry>, e: Entry, cp: Checkpoint)
    ensures
        entry_views(entries).len() == entries.len(),
        forall|i: int|
            0 <= i < entries.len() ==> {
                &&& (#[trigger] entry_views(entries)[i]).version == entries[i].version
                &&& entry_views(entries)[i].op == entries[i].op@
            },
        entry_view(None) is None,
        entry_view(Some(e)) == Some(EntryView { version: e.version, op: e.op@ }),
        checkpoint_view(None) is None,
        checkpoint_view(Some(cp)) == Some(CheckpointView { base: cp.base, cid: cp.cid@ }),
{
}

} // verus!
