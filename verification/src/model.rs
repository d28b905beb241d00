use vstd::prelude::*;

use crate::job::{Check, Job, Pending, Reaction, Step};
use crate::value::{Outcome, PromiseId, Value};

verus! {

/// The abstract state of one promise.
#[verifier::ext_equal]
pub struct PromiseModel {
    /// `None` while pending; set once, never changed afterwards.
    pub outcome: Option<Outcome>,
    /// Reactions waiting for the outcome, in registration order.
    pub reactions: Seq<Reaction>,
    /// Whether anything has subscribed to the promise.
    pub handled: bool,
    /// Whether a resolution has been accepted (settling or adopting).
    pub resolved: bool,
}

/// The abstract state of one `all` in progress.
#[verifier::ext_equal]
pub struct AggregateModel {
    /// One slot per input, filled in input order of the inputs, not of their settlement.
    pub slots: Seq<Option<Value>>,
    /// How many slots are still empty.
    pub remaining: nat,
}

/// A native error: its name and message.
#[verifier::ext_equal]
pub struct ErrorModel {
    pub name: Seq<char>,
    pub message: Seq<char>,
}

/// The abstract state of a runtime.
#[verifier::ext_equal]
pub struct RuntimeModel {
    pub promises: Seq<PromiseModel>,
    /// The FIFO queue of jobs; the front runs first.
    pub jobs: Seq<Job>,
    /// Rejections to examine after the queue has drained, in settlement order.
    pub checks: Seq<Check>,
    pub texts: Seq<Seq<char>>,
    pub arrays: Seq<Seq<Value>>,
    pub errors: Seq<ErrorModel>,
    pub aggregates: Seq<AggregateModel>,
    /// Depth of nested synchronous turns.
    pub turns: nat,
    /// The callback the runtime waits for, if any.
    pub pending: Option<Pending>,
}

pub open spec fn fresh_promise() -> PromiseModel {
    PromiseModel { outcome: None, reactions: Seq::empty(), handled: false, resolved: false }
}

pub open spec fn empty_model() -> RuntimeModel {
    RuntimeModel {
        promises: Seq::empty(),
        jobs: Seq::empty(),
        checks: Seq::empty(),
        texts: Seq::empty(),
        arrays: Seq::empty(),
        errors: Seq::empty(),
        aggregates: Seq::empty(),
        turns: 0,
        pending: None,
    }
}

/// The jobs that run `reactions` with `outcome`, in the same order.
pub open spec fn reaction_jobs(reactions: Seq<Reaction>, outcome: Outcome) -> Seq<Job> {
    reactions.map_values(|r: Reaction| Job::React { reaction: r, outcome: outcome })
}

/// The number of empty slots.
pub open spec fn count_none(slots: Seq<Option<Value>>) -> nat
    decreases slots.len(),
{
    if slots.len() == 0 {
        0
    } else {
        count_none(slots.drop_last()) + (if slots.last() is None { 1nat } else { 0nat })
    }
}

pub open spec fn slot_value(slot: Option<Value>) -> Value {
    match slot {
        Some(v) => v,
        None => Value::Unit,
    }
}

/// The values of filled slots, in slot order.
pub open spec fn slot_values(slots: Seq<Option<Value>>) -> Seq<Value> {
    slots.map_values(|s: Option<Value>| slot_value(s))
}

/// The value a `then` handler, or the `finally` chain, receives from an outcome.
pub open spec fn payload(outcome: Outcome) -> Value {
    match outcome {
        Ok(v) => v,
        Err(e) => e,
    }
}

pub open spec fn type_error_name() -> Seq<char> {
    "TypeError"@
}

pub open spec fn error_name() -> Seq<char> {
    "Error"@
}

pub open spec fn self_resolution_message() -> Seq<char> {
    "A Promise cannot resolve to itself"@
}

pub open spec fn unhandled_prefix() -> Seq<char> {
    "Unhandled Promise rejection: "@
}

pub open spec fn unhandled_non_error_message() -> Seq<char> {
    "Unhandled Promise rejection (non-Error value)"@
}

impl RuntimeModel {
    // ---------------------------------------------------------------- validity

    /// Every handle in `v` names an existing entry.
    pub open spec fn valid_value(self, v: Value) -> bool {
        match v {
            Value::Text(t) => t < self.texts.len(),
            Value::Array(a) => a < self.arrays.len(),
            Value::Resolver(p, _) => p < self.promises.len(),
            Value::Error(e) => e < self.errors.len(),
            Value::Promise(p) => p < self.promises.len(),
            _ => true,
        }
    }

    pub open spec fn valid_outcome(self, o: Outcome) -> bool {
        self.valid_value(payload(o))
    }

    pub open spec fn valid_handler(self, h: Option<Value>) -> bool {
        match h {
            Some(v) => self.valid_value(v),
            None => true,
        }
    }

    pub open spec fn valid_reaction(self, r: Reaction) -> bool {
        match r {
            Reaction::Settle(t) => t < self.promises.len(),
            Reaction::Resolve(t) => t < self.promises.len(),
            Reaction::Chain { target, success, failure } => target < self.promises.len()
                && self.valid_handler(success) && self.valid_handler(failure),
            Reaction::Finally { target, effect } => target < self.promises.len()
                && self.valid_value(effect),
            Reaction::Restore { target, original } => target < self.promises.len()
                && self.valid_outcome(original),
            Reaction::Element { target, aggregate, index } => target < self.promises.len()
                && aggregate < self.aggregates.len()
                && index < self.aggregates[aggregate as int].slots.len(),
            Reaction::Listen(_) => true,
        }
    }

    pub open spec fn valid_job(self, j: Job) -> bool {
        match j {
            Job::React { reaction, outcome } => self.valid_reaction(reaction)
                && self.valid_outcome(outcome),
            Job::Subscribe { source, reaction } => source < self.promises.len()
                && self.valid_reaction(reaction),
        }
    }

    pub open spec fn valid_check(self, c: Check) -> bool {
        c.promise < self.promises.len() && self.valid_value(c.error)
    }

    pub open spec fn valid_pending(self, p: Option<Pending>) -> bool {
        match p {
            Some(Pending::Handler(t)) => t < self.promises.len(),
            Some(Pending::Cleanup { target, original }) => target < self.promises.len()
                && self.valid_outcome(original),
            _ => true,
        }
    }

    pub open spec fn valid_promise(self, st: PromiseModel) -> bool {
        &&& match st.outcome {
            Some(o) => self.valid_outcome(o),
            None => true,
        }
        &&& forall|i: int| 0 <= i < st.reactions.len() ==> self.valid_reaction(#[trigger] st.reactions[i])
    }

    pub open spec fn valid_aggregate(self, g: AggregateModel) -> bool {
        &&& g.remaining == count_none(g.slots)
        &&& forall|i: int| 0 <= i < g.slots.len() ==> match #[trigger] g.slots[i] {
            Some(v) => self.valid_value(v),
            None => true,
        }
    }

    /// The runtime's invariant: every handle anywhere in it names an existing
    /// entry, and every aggregate counts its empty slots.
    pub open spec fn wf(self) -> bool {
        &&& forall|p: int| 0 <= p < self.promises.len() ==> self.valid_promise(#[trigger] self.promises[p])
        &&& forall|i: int| 0 <= i < self.jobs.len() ==> self.valid_job(#[trigger] self.jobs[i])
        &&& forall|i: int| 0 <= i < self.checks.len() ==> self.valid_check(#[trigger] self.checks[i])
        &&& forall|a: int, i: int| 0 <= a < self.arrays.len() && 0 <= i < self.arrays[a].len()
            ==> self.valid_value(#[trigger] self.arrays[a][i])
        &&& forall|g: int| 0 <= g < self.aggregates.len() ==> self.valid_aggregate(#[trigger] self.aggregates[g])
        &&& self.valid_pending(self.pending)
    }

    /// `self` only added entries to `old`: what was valid in `old` stays valid.
    pub open spec fn extends(self, old: RuntimeModel) -> bool {
        &&& old.promises.len() <= self.promises.len()
        &&& old.texts.len() <= self.texts.len()
        &&& old.arrays.len() <= self.arrays.len()
        &&& old.errors.len() <= self.errors.len()
        &&& old.aggregates.len() <= self.aggregates.len()
        &&& forall|g: int| 0 <= g < old.aggregates.len()
            ==> #[trigger] self.aggregates[g].slots.len() == old.aggregates[g].slots.len()
    }

    // ---------------------------------------------------------------- queries

    pub open spec fn outcome(self, p: PromiseId) -> Option<Outcome> {
        self.promises[p as int].outcome
    }

    pub open spec fn is_pending(self, p: PromiseId) -> bool {
        self.promises[p as int].outcome is None
    }

    // ---------------------------------------------------------------- primitive updates

    pub open spec fn set_promise(self, p: PromiseId, st: PromiseModel) -> RuntimeModel {
        RuntimeModel { promises: self.promises.update(p as int, st), ..self }
    }

    pub open spec fn push_job(self, j: Job) -> RuntimeModel {
        RuntimeModel { jobs: self.jobs.push(j), ..self }
    }

    pub open spec fn push_error(self, name: Seq<char>, message: Seq<char>) -> RuntimeModel {
        RuntimeModel { errors: self.errors.push(ErrorModel { name, message }), ..self }
    }

    pub open spec fn push_text(self, text: Seq<char>) -> RuntimeModel {
        RuntimeModel { texts: self.texts.push(text), ..self }
    }

    pub open spec fn push_array(self, values: Seq<Value>) -> RuntimeModel {
        RuntimeModel { arrays: self.arrays.push(values), ..self }
    }

    pub open spec fn push_aggregate(self, n: nat) -> RuntimeModel {
        RuntimeModel {
            aggregates: self.aggregates.push(
                AggregateModel { slots: Seq::new(n, |i: int| None::<Value>), remaining: n },
            ),
            ..self
        }
    }

    // ---------------------------------------------------------------- promise transitions

    /// A new pending promise, at index `self.promises.len()`.
    pub open spec fn pending(self) -> RuntimeModel {
        RuntimeModel { promises: self.promises.push(fresh_promise()), ..self }
    }

    /// Marks `p` handled; queues the reaction at once when `p` is settled, else
    /// appends it to `p`'s waiting reactions.
    pub open spec fn subscribe(self, p: PromiseId, r: Reaction) -> RuntimeModel {
        let st = self.promises[p as int];
        match st.outcome {
            Some(o) => self.set_promise(p, PromiseModel { handled: true, ..st }).push_job(
                Job::React { reaction: r, outcome: o },
            ),
            None => self.set_promise(
                p,
                PromiseModel { handled: true, reactions: st.reactions.push(r), ..st },
            ),
        }
    }

    /// Settles `p` unless it is already settled: records the outcome, queues its
    /// waiting reactions in order, and registers a rejection for the check.
    pub open spec fn settle(self, p: PromiseId, o: Outcome) -> RuntimeModel {
        let st = self.promises[p as int];
        if st.outcome is Some {
            self
        } else {
            RuntimeModel {
                promises: self.promises.update(
                    p as int,
                    PromiseModel { outcome: Some(o), reactions: Seq::empty(), ..st },
                ),
                jobs: self.jobs + reaction_jobs(st.reactions, o),
                checks: match o {
                    Err(e) => self.checks.push(Check { promise: p, error: e }),
                    Ok(_) => self.checks,
                },
                ..self
            }
        }
    }

    /// Adopts `v` as `p`'s resolution: `p` itself rejects `p` with a new
    /// `TypeError`; another promise is adopted by a queued subscription (adopting
    /// is itself a job); any other value fulfils `p`.
    pub open spec fn adopt(self, p: PromiseId, v: Value) -> RuntimeModel {
        match v {
            Value::Promise(q) => if q == p {
                self.push_error(type_error_name(), self_resolution_message()).settle(
                    p,
                    Err(Value::Error(self.errors.len() as usize)),
                )
            } else {
                self.push_job(Job::Subscribe { source: q, reaction: Reaction::Settle(p) })
            },
            _ => self.settle(p, Ok(v)),
        }
    }

    /// Accepts the first resolution of `p` only: a rejection settles, a value is
    /// adopted.
    pub open spec fn resolve_once(self, p: PromiseId, o: Outcome) -> RuntimeModel {
        let st = self.promises[p as int];
        if st.resolved {
            self
        } else {
            let m = self.set_promise(p, PromiseModel { resolved: true, ..st });
            match o {
                Err(e) => m.settle(p, Err(e)),
                Ok(v) => m.adopt(p, v),
            }
        }
    }

    /// The promise for `v`: `v` itself when it is a promise, else a new promise
    /// fulfilled with `v`.
    pub open spec fn promise_of(self, v: Value) -> (RuntimeModel, PromiseId) {
        match v {
            Value::Promise(q) => (self, q),
            _ => {
                let n = self.promises.len() as usize;
                (self.pending().resolve_once(n, Ok(v)), n)
            },
        }
    }

    /// A new promise rejected with `e`.
    pub open spec fn rejected(self, e: Value) -> (RuntimeModel, PromiseId) {
        let n = self.promises.len() as usize;
        (self.pending().resolve_once(n, Err(e)), n)
    }

    /// A new promise resolved by `p`'s outcome through the given handlers.
    pub open spec fn chain(self, p: PromiseId, success: Option<Value>, failure: Option<Value>) -> (
        RuntimeModel,
        PromiseId,
    ) {
        let n = self.promises.len() as usize;
        (self.pending().subscribe(p, Reaction::Chain { target: n, success, failure }), n)
    }

    /// A new promise that runs `effect` once `p` settles.
    pub open spec fn finally(self, p: PromiseId, effect: Value) -> (RuntimeModel, PromiseId) {
        let n = self.promises.len() as usize;
        (self.pending().subscribe(p, Reaction::Finally { target: n, effect }), n)
    }

    /// The state after subscribing the first `k` inputs of an `all`.
    pub open spec fn all_inputs(
        self,
        inputs: Seq<Value>,
        target: PromiseId,
        aggregate: usize,
        k: nat,
    ) -> RuntimeModel
        decreases k,
    {
        if k == 0 {
            self
        } else {
            let m = self.all_inputs(inputs, target, aggregate, (k - 1) as nat);
            let (m1, src) = m.promise_of(inputs[k - 1]);
            m1.subscribe(
                src,
                Reaction::Element { target, aggregate, index: (k - 1) as usize },
            )
        }
    }

    /// `all` over array `a`: a new promise, fulfilled with the inputs' values in
    /// input order once all are fulfilled (at once for no input), rejected by the
    /// first rejection.
    pub open spec fn all(self, a: usize) -> (RuntimeModel, PromiseId) {
        let inputs = self.arrays[a as int];
        let r = self.promises.len() as usize;
        let m1 = self.pending();
        let m2 = if inputs.len() == 0 {
            m1.push_array(Seq::empty()).resolve_once(r, Ok(Value::Array(m1.arrays.len() as usize)))
        } else {
            m1
        };
        let g = m2.aggregates.len() as usize;
        (m2.push_aggregate(inputs.len()).all_inputs(inputs, r, g, inputs.len()), r)
    }

    /// The state after subscribing the first `k` inputs of a `race`.
    pub open spec fn race_inputs(self, inputs: Seq<Value>, target: PromiseId, k: nat) -> RuntimeModel
        decreases k,
    {
        if k == 0 {
            self
        } else {
            let m = self.race_inputs(inputs, target, (k - 1) as nat);
            let (m1, src) = m.promise_of(inputs[k - 1]);
            m1.subscribe(src, Reaction::Resolve(target))
        }
    }

    /// `race` over array `a`: a new promise resolved by the first input to settle
    /// (pending forever for no input).
    pub open spec fn race(self, a: usize) -> (RuntimeModel, PromiseId) {
        let inputs = self.arrays[a as int];
        let r = self.promises.len() as usize;
        (self.pending().race_inputs(inputs, r, inputs.len()), r)
    }

    /// Slot `index` of aggregate `g` receives `v`, one fewer slot remaining.
    pub open spec fn fill_slot(self, g: usize, index: usize, v: Value) -> RuntimeModel {
        let agg = self.aggregates[g as int];
        RuntimeModel {
            aggregates: self.aggregates.update(
                g as int,
                AggregateModel {
                    slots: agg.slots.update(index as int, Some(v)),
                    remaining: (agg.remaining - 1) as nat,
                },
            ),
            ..self
        }
    }

    /// Slot `index` of aggregate `g` receives `v` unless it is already filled; the
    /// last slot filled resolves `target` with a new array of all slot values.
    pub open spec fn fill(self, target: PromiseId, g: usize, index: usize, v: Value) -> RuntimeModel {
        if self.aggregates[g as int].slots[index as int] is Some {
            self
        } else {
            let m = self.fill_slot(g, index, v);
            if m.aggregates[g as int].remaining == 0 {
                m.push_array(slot_values(m.aggregates[g as int].slots)).resolve_once(
                    target,
                    Ok(Value::Array(m.arrays.len() as usize)),
                )
            } else {
                m
            }
        }
    }

    /// What a resolving function of an executor does when called with `arg`.
    pub open spec fn call_resolver(self, target: PromiseId, reject: bool, arg: Value) -> RuntimeModel {
        self.resolve_once(target, if reject { Err(arg) } else { Ok(arg) })
    }

    /// Enters a synchronous turn.
    pub open spec fn begin_turn(self) -> RuntimeModel {
        RuntimeModel { turns: self.turns + 1, ..self }
    }

    /// Leaves a synchronous turn.
    pub open spec fn end_turn(self) -> RuntimeModel {
        RuntimeModel { turns: (self.turns - 1) as nat, ..self }
    }

    // ---------------------------------------------------------------- the queue

    /// Runs one reaction with an outcome.
    pub open spec fn react(self, r: Reaction, o: Outcome) -> (RuntimeModel, Step) {
        match r {
            Reaction::Settle(t) => (self.settle(t, o), Step::Progress),
            Reaction::Resolve(t) => (self.resolve_once(t, o), Step::Progress),
            Reaction::Chain { target, success, failure } => {
                let handler = match o {
                    Ok(_) => success,
                    Err(_) => failure,
                };
                match handler {
                    Some(h) => (
                        RuntimeModel { pending: Some(Pending::Handler(target)), ..self },
                        Step::Call { func: h, arg: payload(o) },
                    ),
                    None => (self.resolve_once(target, o), Step::Progress),
                }
            },
            Reaction::Finally { target, effect } => (
                RuntimeModel {
                    pending: Some(Pending::Cleanup { target, original: o }),
                    ..self
                },
                Step::Call { func: effect, arg: Value::Unit },
            ),
            Reaction::Restore { target, original } => (
                self.resolve_once(
                    target,
                    match o {
                        Ok(_) => original,
                        Err(e) => Err(e),
                    },
                ),
                Step::Progress,
            ),
            Reaction::Element { target, aggregate, index } => match o {
                Err(e) => (self.resolve_once(target, Err(e)), Step::Progress),
                Ok(v) => (self.fill(target, aggregate, index, v), Step::Progress),
            },
            Reaction::Listen(l) => (
                RuntimeModel { pending: Some(Pending::Listener), ..self },
                Step::Notify { listener: l, outcome: o },
            ),
        }
    }

    /// Runs one job.
    pub open spec fn run_job(self, j: Job) -> (RuntimeModel, Step) {
        match j {
            Job::React { reaction, outcome } => self.react(reaction, outcome),
            Job::Subscribe { source, reaction } => (self.subscribe(source, reaction), Step::Progress),
        }
    }

    /// The error that escapes for an uncaught rejection with `e`: a native error
    /// as it is, any other payload wrapped in a new `Error`.
    pub open spec fn uncaught(self, e: Value) -> (RuntimeModel, Value) {
        let k = self.errors.len() as usize;
        match e {
            Value::Error(_) => (self, e),
            Value::Text(t) => (
                self.push_error(error_name(), unhandled_prefix() + self.texts[t as int]),
                Value::Error(k),
            ),
            _ => (self.push_error(error_name(), unhandled_non_error_message()), Value::Error(k)),
        }
    }

    /// One step of the checkpoint. Inside a turn, or while a callback of the host
    /// runs, nothing happens. Otherwise the front job runs; with no job left, the
    /// oldest rejection is examined, and escapes unless its promise is handled.
    pub open spec fn step(self) -> (RuntimeModel, Step) {
        if self.turns > 0 || self.pending is Some {
            (self, Step::Idle)
        } else if self.jobs.len() > 0 {
            RuntimeModel { jobs: self.jobs.drop_first(), ..self }.run_job(self.jobs[0])
        } else if self.checks.len() > 0 {
            let c = self.checks[0];
            let m = RuntimeModel { checks: self.checks.drop_first(), ..self };
            if self.promises[c.promise as int].handled {
                (m, Step::Progress)
            } else {
                let (m2, err) = m.uncaught(c.error);
                (m2, Step::Raise(err))
            }
        } else {
            (self, Step::Idle)
        }
    }

    /// The host hands back the result of the callback the runtime waits for.
    pub open spec fn complete(self, result: Outcome) -> RuntimeModel {
        let m = RuntimeModel { pending: None, ..self };
        match self.pending {
            Some(Pending::Handler(t)) => m.resolve_once(t, result),
            Some(Pending::Cleanup { target, original }) => match result {
                Err(e) => m.resolve_once(target, Err(e)),
                Ok(v) => {
                    let restored = m.promises.len() as usize;
                    let m1 = m.pending();
                    let (m2, src) = m1.promise_of(v);
                    m2.subscribe(src, Reaction::Restore { target: restored, original }).resolve_once(
                        target,
                        Ok(Value::Promise(restored)),
                    )
                },
            },
            _ => m,
        }
    }
}

} // verus!
