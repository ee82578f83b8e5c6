# ce-coord

Coordination on the CE mesh: replicated state machines with one writer and any number of readers,
built from pub/sub, directed requests and an inbox.

- `src/` is the library, verified with Verus. It decides and computes, and never touches the
  network.
  - `machine.rs`: what an application implements to be replicated.
  - `replica.rs`: one replica; it orders what it receives, buffers what came too early, and
    installs snapshots.
  - `replicated.rs`: writers and readers; whose messages they act on, the log, catch-up,
    checkpoints and compaction.
  - `laws.rs`: what holds of writers and readers together, such as that catching up converges,
    that a bootstrap from a snapshot equals a full replay, and that nobody but the followed writer
    can move a reader.
  - `wire.rs`, `topic.rs`, `message.rs`: what travels, and where.
  - `coord.rs`, `pump.rs`: handlers by topic, and the bounded de-dup in front of them.
  - `command.rs`: the language of the map writer's prompt.
- `tests/` runs the library.
- `app/` is the `coord` command: the async plumbing, the JSON on the wire, and the client of the
  local CE node.

## Protocol

A writer publishes each operation on `ce-coord/log/<writer>/<name>` under a version that grows by
one. A reader applies version `applied + 1`, ignores what it has, and buffers what lies beyond a
gap, for which it asks the writer on `ce-coord/catchup/<writer>/<name>`. The writer answers with
the tail of its log. Once it has compacted its log below a checkpoint, it also names that
checkpoint to readers that ask for less; they load the snapshot and take in the tail on top.

## What is taken on trust

The only outside call in `src/` is `hex::decode`. An application's `StateMachine` and `Snapshot`
implementations promise what their contracts say.
