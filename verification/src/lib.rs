//! # ce-coord: coordination primitives on the CE mesh
//!
//! Replicated state machines with one writer and any number of readers, over nothing but pub/sub,
//! directed requests and an inbox. The node authenticates the sender of every message, which is
//! the whole trust story: a reader only applies log entries of the one writer it was told to
//! follow.
//!
//! * [`Replicated`] is the engine: it replicates any [`StateMachine`].
//! * [`Coord`] and [`Pump`] hand the messages of a node's inbox to whoever registered for them.
//! * [`laws`] holds what is proved of writers and readers together: whatever the order, the gaps
//!   and the repetitions in what a reader receives, it ends up in the writer's state.
//! * [`promises`] holds what is proved of each operation: what comes out for what goes in.
//!
//! Everything here decides and computes; nothing here waits, sleeps or talks to the network. What
//! has to be done outside comes back as a value.
pub mod command;
pub mod coord;
pub mod laws;
pub mod machine;
pub mod message;
pub mod promises;
pub mod pump;
pub mod replica;
pub mod replicated;
pub mod topic;
pub mod wire;

pub use coord::Coord;
pub use machine::{Snapshot, StateMachine, Version};
pub use message::AppMessage;
pub use pump::Pump;
pub use replica::{Core, ReplicaState};
pub use replicated::{
    CheckpointError, LoadStep, ProposeError, Replicated, ReplicatedState, ReplyStep,
};
pub use wire::{CatchUp, CatchUpReply, Checkpoint, Entry, Signal};
