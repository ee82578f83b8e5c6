//! The application-defined state that is replicated, and what replaying a log does to it.

use vstd::prelude::*;

verus! {

/// A monotonic operation index. The writer assigns it; readers converge to it.
pub type Version = u64;

/// Some fixed value of type `T`, which may be another one for every `S`.
pub open spec fn unspecified<S, T>() -> T {
    arbitrary::<(S, T)>().1
}

/// The application-defined state being replicated. Implement this for anything: a map, a set, a
/// counter. The engine never inspects the state; it only orders and ships the operations.
///
/// The contract of each method is a promise of the implementor, and the engine is proved correct
/// for every implementation that keeps it. The specification functions say what the methods mean;
/// an implementation may leave them as they are, and then they are some fixed functions of its own,
/// of which nothing more is known.
pub trait StateMachine: Sized + Send + 'static {
    /// The mutation type. It must survive a trip through its encoding.
    type Op: Send;

    /// What a state holds, as a mathematical value. Only specifications use it.
    type Model;

    /// What this state holds.
    open spec fn model(&self) -> Self::Model {
        unspecified::<Self, spec_fn(Self) -> Self::Model>()(*self)
    }

    /// What the state holds that every replica starts from.
    open spec fn initial() -> Self::Model {
        unspecified::<Self, Self::Model>()
    }

    /// The bytes encode some operation.
    open spec fn is_op(bytes: Seq<u8>) -> bool {
        unspecified::<Self, spec_fn(Seq<u8>) -> bool>()(bytes)
    }

    /// The bytes encode this operation.
    open spec fn encodes(bytes: Seq<u8>, op: Self::Op) -> bool {
        unspecified::<Self, spec_fn(Seq<u8>, Self::Op) -> bool>()(bytes, op)
    }

    /// What the operation that `bytes` encode makes of a state.
    open spec fn after(model: Self::Model, bytes: Seq<u8>) -> Self::Model {
        unspecified::<Self, spec_fn(Self::Model, Seq<u8>) -> Self::Model>()(model, bytes)
    }

    /// Makes the state that every replica starts from, whichever node it is opened on.
    fn start() -> (s: Self)
        ensures
            s.model() == Self::initial(),
    ;

    /// Encodes one operation for the log, or says why it cannot be encoded.
    fn encode(op: &Self::Op) -> (bytes: Result<Vec<u8>, String>)
        ensures
            bytes matches Ok(b) ==> Self::is_op(b@) && Self::encodes(b@, *op),
    ;

    /// Decodes one logged operation. `None` marks bytes that encode none.
    fn decode(bytes: &[u8]) -> (op: Option<Self::Op>)
        ensures
            match op {
                Some(o) => Self::is_op(bytes@) && Self::encodes(bytes@, o),
                None => !Self::is_op(bytes@),
            },
    ;

    /// Applies one operation. Called in version order on every replica, so given the same
    /// operations every replica reaches the same state. Keep it deterministic: the state it leads
    /// to depends on the state before and on what encodes the operation alone.
    fn apply(&mut self, op: Self::Op)
        ensures
            forall|bytes: Seq<u8>| #[trigger]
                Self::encodes(bytes, op) ==> final(self).model() == Self::after(
                    old(self).model(),
                    bytes,
                ),
    ;
}

/// A state machine whose whole state can be written down and read back.
pub trait Snapshot: StateMachine {
    /// What the state holds that `bytes` were written down for, if they were for one.
    open spec fn restored(bytes: Seq<u8>) -> Option<Self::Model> {
        unspecified::<Self, spec_fn(Seq<u8>) -> Option<Self::Model>>()(bytes)
    }

    /// Writes the state down, or says why it cannot be.
    fn save(&self) -> (bytes: Result<Vec<u8>, String>)
        ensures
            bytes matches Ok(b) ==> Self::restored(b@) == Some(self.model()),
    ;

    /// Reads back a state that [`save`](Self::save) wrote, or says why it cannot be.
    fn load(bytes: &[u8]) -> (s: Result<Self, String>)
        ensures
            match s {
                Ok(state) => Self::restored(bytes@) == Some(state.model()),
                Err(_) => Self::restored(bytes@) is None,
            },
    ;
}

/// What a state holds after one logged operation. Bytes that are no operation change nothing.
pub open spec fn step<S: StateMachine>(model: S::Model, bytes: Seq<u8>) -> S::Model {
    if S::is_op(bytes) {
        S::after(model, bytes)
    } else {
        model
    }
}

/// What a state holds after replaying `ops` in order.
pub open spec fn replay<S: StateMachine>(model: S::Model, ops: Seq<Seq<u8>>) -> S::Model
    decreases ops.len(),
{
    if ops.len() == 0 {
        model
    } else {
        step::<S>(replay::<S>(model, ops.drop_last()), ops.last())
    }
}

} // verus!
