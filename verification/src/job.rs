use vstd::prelude::*;

use crate::value::{Outcome, PromiseId, Value};

verus! {

/// What happens to a promise's outcome once it is known.
#[derive(Clone, Copy, PartialEq, Eq, Debug)]
pub enum Reaction {
    /// Settle `target` with the outcome as it is (the adoption of one promise by another).
    Settle(PromiseId),
    /// Resolve `target` once with the outcome (`race`).
    Resolve(PromiseId),
    /// `then` / `catch`: call the handler for the outcome's side, if there is one, and
    /// resolve `target` with what it returns or throws; else pass the outcome on.
    Chain { target: PromiseId, success: Option<Value>, failure: Option<Value> },
    /// `finally`: call `effect` with unit, then wait for what it returns.
    Finally { target: PromiseId, effect: Value },
    /// The end of a `finally`: once the cleanup settles, resolve `target` with the
    /// original outcome, or with the cleanup's rejection.
    Restore { target: PromiseId, original: Outcome },
    /// One input of `all`: its value fills slot `index` of aggregate `aggregate`;
    /// its rejection rejects `target`.
    Element { target: PromiseId, aggregate: usize, index: usize },
    /// A host subscriber, told the outcome.
    Listen(u64),
}

/// A microtask of the runtime's FIFO queue.
#[derive(Clone, Copy, PartialEq, Eq, Debug)]
pub enum Job {
    /// Run a reaction with an outcome.
    React { reaction: Reaction, outcome: Outcome },
    /// Subscribe a reaction to `source` (adopting a promise is itself a job).
    Subscribe { source: PromiseId, reaction: Reaction },
}

/// A rejection to examine once the queue has drained: unless `promise` has been
/// handled by then, `error` escapes as an uncaught rejection.
#[derive(Clone, Copy, PartialEq, Eq, Structural, Debug)]
pub struct Check {
    pub promise: PromiseId,
    pub error: Value,
}

/// What the runtime waits for while the host runs a callback.
#[derive(Clone, Copy, PartialEq, Eq, Debug)]
pub enum Pending {
    /// A `then`/`catch` handler whose result resolves `target`.
    Handler(PromiseId),
    /// A `finally` effect; `original` is the outcome that `target` is to keep.
    Cleanup { target: PromiseId, original: Outcome },
    /// A host subscriber.
    Listener,
}

/// What one step of the runtime asks of its host.
#[derive(Clone, Copy, PartialEq, Eq, Debug)]
pub enum Step {
    /// Nothing to run: the queue is empty, or the runtime is inside a synchronous
    /// turn, or a callback of the host is still running.
    Idle,
    /// One job or check ran; step again.
    Progress,
    /// Call `func` with `arg` and hand what it returns (`Ok`) or throws (`Err`)
    /// back with `complete`.
    Call { func: Value, arg: Value },
    /// Tell subscriber `listener` the outcome, then call `complete`.
    Notify { listener: u64, outcome: Outcome },
    /// An uncaught rejection escapes the checkpoint with this error.
    Raise(Value),
}

} // verus!
