use std::collections::VecDeque;

use vstd::prelude::*;
use vstd::string::StringExecFns;

use crate::job::{Check, Job, Pending, Reaction, Step};
use crate::model::{
    AggregateModel, ErrorModel, PromiseModel, RuntimeModel, empty_model, error_name,
    fresh_promise, reaction_jobs, slot_value, slot_values,
};
use crate::validity::{
    lemma_chain_wf, lemma_count_none_zero, lemma_extends_refl,
    lemma_extends_trans, lemma_fill_slot_wf, lemma_fill_wf, lemma_finally_wf, lemma_pending_wf,
    lemma_promise_of_wf, lemma_push_aggregate_wf, lemma_push_array_wf, lemma_push_error_wf,
    lemma_push_job_wf, lemma_push_text_wf, lemma_queue_change_wf, lemma_rejected_wf, lemma_resolve_once_wf,
    lemma_set_promise_wf, lemma_settle_wf, lemma_subscribe_wf, lemma_valid_mono,
};
use crate::value::{Outcome, PromiseId, Value};

verus! {

/// The state of one native promise.
pub struct Promise {
    pub outcome: Option<Outcome>,
    pub reactions: Vec<Reaction>,
    pub handled: bool,
    pub resolved: bool,
}

impl View for Promise {
    type V = PromiseModel;

    open spec fn view(&self) -> PromiseModel {
        PromiseModel {
            outcome: self.outcome,
            reactions: self.reactions@,
            handled: self.handled,
            resolved: self.resolved,
        }
    }
}

/// A native error: its name and message.
pub struct ErrorRecord {
    pub name: String,
    pub message: String,
}

impl View for ErrorRecord {
    type V = ErrorModel;

    open spec fn view(&self) -> ErrorModel {
        ErrorModel { name: self.name@, message: self.message@ }
    }
}

/// The slots of one `all` in progress.
pub struct Aggregate {
    pub slots: Vec<Option<Value>>,
    pub remaining: usize,
}

impl View for Aggregate {
    type V = AggregateModel;

    open spec fn view(&self) -> AggregateModel {
        AggregateModel { slots: self.slots@, remaining: self.remaining as nat }
    }
}

/// A promise runtime: the promises, the microtask queue that runs their
/// reactions in FIFO order at a checkpoint, and the tables of the values they carry.
pub struct Runtime {
    promises: Vec<Promise>,
    jobs: VecDeque<Job>,
    checks: VecDeque<Check>,
    texts: Vec<String>,
    arrays: Vec<Vec<Value>>,
    errors: Vec<ErrorRecord>,
    aggregates: Vec<Aggregate>,
    turns: usize,
    pending: Option<Pending>,
}

impl View for Runtime {
    type V = RuntimeModel;

    closed spec fn view(&self) -> RuntimeModel {
        RuntimeModel {
            promises: self.promises@.map_values(|p: Promise| p@),
            jobs: self.jobs@,
            checks: self.checks@,
            texts: self.texts@.map_values(|t: String| t@),
            arrays: self.arrays@.map_values(|a: Vec<Value>| a@),
            errors: self.errors@.map_values(|e: ErrorRecord| e@),
            aggregates: self.aggregates@.map_values(|g: Aggregate| g@),
            turns: self.turns as nat,
            pending: self.pending,
        }
    }
}

impl Runtime {
    /// The runtime's invariant.
    pub open spec fn wf(&self) -> bool {
        self@.wf()
    }

    /// An empty runtime.
    pub fn new() -> (rt: Runtime)
        ensures
            rt@ == empty_model(),
            rt.wf(),
    {
        let rt = Runtime {
            promises: Vec::new(),
            jobs: VecDeque::new(),
            checks: VecDeque::new(),
            texts: Vec::new(),
            arrays: Vec::new(),
            errors: Vec::new(),
            aggregates: Vec::new(),
            turns: 0,
            pending: None,
        };
        assert(rt@ =~= empty_model());
        rt
    }

    /// A new pending promise.
    pub fn pending(&mut self) -> (p: PromiseId)
        requires
            old(self).wf(),
        ensures
            final(self)@ == old(self)@.pending(),
            p == old(self)@.promises.len(),
            p < usize::MAX,
            final(self).wf(),
    {
        let p = self.promises.len();
        self.promises.push(Promise { outcome: None, reactions: Vec::new(), handled: false, resolved: false });
        let _room = self.promises.len();
        proof {
            assert(self.promises@[p as int]@ =~= fresh_promise());
            assert(self@.promises =~= old(self)@.promises.push(fresh_promise()));
            assert(self@ =~= old(self)@.pending());
            lemma_pending_wf(old(self)@);
        }
        p
    }

    /// Adds a native error with the given name and message.
    fn push_error(&mut self, name: String, message: String) -> (e: usize)
        requires
            old(self).wf(),
        ensures
            final(self)@ == old(self)@.push_error(name@, message@),
            e == old(self)@.errors.len(),
            final(self).wf(),
    {
        let e = self.errors.len();
        self.errors.push(ErrorRecord { name, message });
        proof {
            assert(self@.errors =~= old(self)@.errors.push(ErrorModel { name: name@, message: message@ }));
            assert(self@ =~= old(self)@.push_error(name@, message@));
            lemma_push_error_wf(old(self)@, name@, message@);
        }
        e
    }

    fn push_job(&mut self, j: Job)
        requires
            old(self).wf(),
            old(self)@.valid_job(j),
        ensures
            final(self)@ == old(self)@.push_job(j),
            final(self).wf(),
    {
        self.jobs.push_back(j);
        proof {
            assert(self@ =~= old(self)@.push_job(j));
            lemma_push_job_wf(old(self)@, j);
        }
    }

    /// Subscribes a reaction to `p` (see `RuntimeModel::subscribe`).
    pub fn subscribe(&mut self, p: PromiseId, r: Reaction)
        requires
            old(self).wf(),
            p < old(self)@.promises.len(),
            old(self)@.valid_reaction(r),
        ensures
            final(self)@ == old(self)@.subscribe(p, r),
            final(self).wf(),
    {
        proof {
            lemma_subscribe_wf(old(self)@, p, r);
        }
        self.promises[p].handled = true;
        match self.promises[p].outcome {
            Some(o) => {
                self.jobs.push_back(Job::React { reaction: r, outcome: o });
            },
            None => {
                self.promises[p].reactions.push(r);
            },
        }
        proof {
            assert(self@.promises =~= old(self)@.subscribe(p, r).promises);
            assert(self@ =~= old(self)@.subscribe(p, r));
        }
    }

    /// Settles `p` (see `RuntimeModel::settle`).
    pub fn settle(&mut self, p: PromiseId, o: Outcome)
        requires
            old(self).wf(),
            p < old(self)@.promises.len(),
            old(self)@.valid_outcome(o),
        ensures
            final(self)@ == old(self)@.settle(p, o),
            final(self).wf(),
    {
        proof {
            lemma_settle_wf(old(self)@, p, o);
        }
        if self.promises[p].outcome.is_some() {
            return;
        }
        let mut waiting: Vec<Reaction> = Vec::new();
        std::mem::swap(&mut waiting, &mut self.promises[p].reactions);
        self.promises[p].outcome = Some(o);
        queue_reactions(&mut self.jobs, &waiting, o);
        match o {
            Err(e) => {
                self.checks.push_back(Check { promise: p, error: e });
            },
            Ok(_) => {},
        }
        proof {
            assert(self@.promises =~= old(self)@.settle(p, o).promises);
            assert(self@ =~= old(self)@.settle(p, o));
        }
    }

    /// Resolves `p` once (see `RuntimeModel::resolve_once`).
    pub fn resolve_once(&mut self, p: PromiseId, o: Outcome)
        requires
            old(self).wf(),
            p < old(self)@.promises.len(),
            old(self)@.valid_outcome(o),
        ensures
            final(self)@ == old(self)@.resolve_once(p, o),
            final(self).wf(),
    {
        proof {
            lemma_resolve_once_wf(old(self)@, p, o);
        }
        if self.promises[p].resolved {
            return;
        }
        self.promises[p].resolved = true;
        let ghost m1 = self@;
        proof {
            let st = old(self)@.promises[p as int];
            assert(m1.promises =~= old(self)@.promises.update(p as int, PromiseModel { resolved: true, ..st }));
            assert(m1 =~= old(self)@.set_promise(p, PromiseModel { resolved: true, ..st }));
            assert(old(self)@.valid_promise(st));
            assert forall|i: int| 0 <= i < st.reactions.len() implies old(self)@.valid_reaction(
                #[trigger] st.reactions[i],
            ) by {}
            lemma_set_promise_wf(old(self)@, p, PromiseModel { resolved: true, ..st });
            lemma_valid_mono(old(self)@, m1);
        }
        match o {
            Err(e) => self.settle(p, Err(e)),
            Ok(v) => self.adopt(p, v),
        }
    }

    /// Adopts `v` as `p`'s resolution (see `RuntimeModel::adopt`).
    fn adopt(&mut self, p: PromiseId, v: Value)
        requires
            old(self).wf(),
            p < old(self)@.promises.len(),
            old(self)@.valid_value(v),
        ensures
            final(self)@ == old(self)@.adopt(p, v),
            final(self).wf(),
    {
        match v {
            Value::Promise(q) => {
                if q == p {
                    let name = String::from_str("TypeError");
                    let message = String::from_str("A Promise cannot resolve to itself");
                    let e = self.push_error(name, message);
                    proof {
                        lemma_valid_mono(old(self)@, self@);
                    }
                    self.settle(p, Err(Value::Error(e)));
                } else {
                    self.push_job(Job::Subscribe { source: q, reaction: Reaction::Settle(p) });
                }
            },
            _ => self.settle(p, Ok(v)),
        }
    }

    /// The promise for `v` (see `RuntimeModel::promise_of`).
    pub fn promise_of(&mut self, v: Value) -> (p: PromiseId)
        requires
            old(self).wf(),
            old(self)@.valid_value(v),
        ensures
            (final(self)@, p) == old(self)@.promise_of(v),
            p < final(self)@.promises.len(),
            final(self).wf(),
            final(self)@.extends(old(self)@),
    {
        match v {
            Value::Promise(q) => {
                proof {
                    lemma_extends_refl(self@);
                }
                q
            },
            _ => {
                let n = self.pending();
                self.resolve_once(n, Ok(v));
                proof {
                    lemma_promise_of_wf(old(self)@, v);
                }
                n
            },
        }
    }

    /// A new promise rejected with `e` (see `RuntimeModel::rejected`).
    pub fn rejected(&mut self, e: Value) -> (p: PromiseId)
        requires
            old(self).wf(),
            old(self)@.valid_value(e),
        ensures
            (final(self)@, p) == old(self)@.rejected(e),
            p == old(self)@.promises.len(),
            final(self).wf(),
            final(self)@.extends(old(self)@),
    {
        let n = self.pending();
        proof {
            lemma_valid_mono(old(self)@, self@);
        }
        self.resolve_once(n, Err(e));
        proof {
            lemma_rejected_wf(old(self)@, e);
        }
        n
    }

    /// A new promise resolved through `p`'s outcome and the given handlers.
    pub fn chain(&mut self, p: PromiseId, success: Option<Value>, failure: Option<Value>) -> (r: PromiseId)
        requires
            old(self).wf(),
            p < old(self)@.promises.len(),
            old(self)@.valid_handler(success),
            old(self)@.valid_handler(failure),
        ensures
            (final(self)@, r) == old(self)@.chain(p, success, failure),
            r == old(self)@.promises.len(),
            final(self).wf(),
            final(self)@.extends(old(self)@),
    {
        let n = self.pending();
        proof {
            lemma_valid_mono(old(self)@, self@);
        }
        self.subscribe(p, Reaction::Chain { target: n, success, failure });
        proof {
            lemma_chain_wf(old(self)@, p, success, failure);
        }
        n
    }

    /// A new promise that runs `effect` once `p` settles.
    pub fn finally(&mut self, p: PromiseId, effect: Value) -> (r: PromiseId)
        requires
            old(self).wf(),
            p < old(self)@.promises.len(),
            old(self)@.valid_value(effect),
        ensures
            (final(self)@, r) == old(self)@.finally(p, effect),
            r == old(self)@.promises.len(),
            final(self).wf(),
            final(self)@.extends(old(self)@),
    {
        let n = self.pending();
        proof {
            lemma_valid_mono(old(self)@, self@);
        }
        self.subscribe(p, Reaction::Finally { target: n, effect });
        proof {
            lemma_finally_wf(old(self)@, p, effect);
        }
        n
    }

    /// Adds a string to the text table.
    pub fn new_text(&mut self, text: String) -> (v: Value)
        requires
            old(self).wf(),
        ensures
            final(self)@ == old(self)@.push_text(text@),
            v == Value::Text(old(self)@.texts.len() as usize),
            final(self).wf(),
    {
        let t = self.texts.len();
        let ghost s = text@;
        self.texts.push(text);
        proof {
            assert(self@.texts =~= old(self)@.texts.push(s));
            assert(self@ =~= old(self)@.push_text(s));
            lemma_push_text_wf(old(self)@, s);
        }
        Value::Text(t)
    }

    /// Adds an array to the array table.
    pub fn new_array(&mut self, values: Vec<Value>) -> (v: Value)
        requires
            old(self).wf(),
            forall|i: int| 0 <= i < values@.len() ==> old(self)@.valid_value(#[trigger] values@[i]),
        ensures
            final(self)@ == old(self)@.push_array(values@),
            v == Value::Array(old(self)@.arrays.len() as usize),
            final(self).wf(),
    {
        let a = self.arrays.len();
        let ghost s = values@;
        self.arrays.push(values);
        proof {
            assert(self@.arrays =~= old(self)@.arrays.push(s));
            assert(self@ =~= old(self)@.push_array(s));
            lemma_push_array_wf(old(self)@, s);
        }
        Value::Array(a)
    }

    /// Creates a native `Error` with the given message.
    pub fn new_error(&mut self, message: String) -> (v: Value)
        requires
            old(self).wf(),
        ensures
            final(self)@ == old(self)@.push_error(error_name(), message@),
            v == Value::Error(old(self)@.errors.len() as usize),
            final(self).wf(),
    {
        let name = String::from_str("Error");
        let e = self.push_error(name, message);
        Value::Error(e)
    }

    fn push_aggregate(&mut self, n: usize) -> (g: usize)
        requires
            old(self).wf(),
        ensures
            final(self)@ == old(self)@.push_aggregate(n as nat),
            g == old(self)@.aggregates.len(),
            final(self).wf(),
    {
        let g = self.aggregates.len();
        let mut slots: Vec<Option<Value>> = Vec::new();
        let mut i: usize = 0;
        while i < n
            invariant
                i <= n,
                slots@ =~= Seq::new(i as nat, |k: int| None::<Value>),
            decreases n - i,
        {
            slots.push(None);
            i += 1;
        }
        self.aggregates.push(Aggregate { slots, remaining: n });
        proof {
            assert(self@.aggregates =~= old(self)@.push_aggregate(n as nat).aggregates);
            assert(self@ =~= old(self)@.push_aggregate(n as nat));
            lemma_push_aggregate_wf(old(self)@, n as nat);
        }
        g
    }

    /// Slot `index` of aggregate `g` receives `v` (see `RuntimeModel::fill`).
    fn fill(&mut self, target: PromiseId, g: usize, index: usize, v: Value)
        requires
            old(self).wf(),
            target < old(self)@.promises.len(),
            g < old(self)@.aggregates.len(),
            index < old(self)@.aggregates[g as int].slots.len(),
            old(self)@.valid_value(v),
        ensures
            final(self)@ == old(self)@.fill(target, g, index, v),
            final(self).wf(),
    {
        proof {
            lemma_fill_wf(old(self)@, target, g, index, v);
        }
        if self.aggregates[g].slots[index].is_some() {
            return;
        }
        proof {
            lemma_fill_slot_wf(old(self)@, g, index, v);
        }
        self.aggregates[g].slots.set(index, Some(v));
        self.aggregates[g].remaining = self.aggregates[g].remaining - 1;
        proof {
            let m1 = old(self)@.fill_slot(g, index, v);
            assert(self@.aggregates[g as int] =~= m1.aggregates[g as int]);
            assert(self@.aggregates =~= m1.aggregates);
            assert(self@ =~= m1);
        }
        if self.aggregates[g].remaining == 0 {
            let values = collect_slots(&self.aggregates[g].slots);
            proof {
                let agg2 = self@.aggregates[g as int];
                assert(self@.valid_aggregate(agg2));
                lemma_count_none_zero(agg2.slots);
                assert forall|i: int| 0 <= i < values@.len() implies self@.valid_value(
                    #[trigger] values@[i],
                ) by {
                    assert(agg2.slots[i] is Some);
                }
            }
            let arr = self.new_array(values);
            self.resolve_once(target, Ok(arr));
        }
    }

    /// `all` over array `a` (see `RuntimeModel::all`).
    pub fn all(&mut self, a: usize) -> (r: PromiseId)
        requires
            old(self).wf(),
            a < old(self)@.arrays.len(),
        ensures
            (final(self)@, r) == old(self)@.all(a),
            r < final(self)@.promises.len(),
            final(self).wf(),
            final(self)@.extends(old(self)@),
    {
        let inputs = copy_values(&self.arrays[a]);
        let n = inputs.len();
        proof {
            assert forall|i: int| 0 <= i < inputs@.len() implies old(self)@.valid_value(#[trigger] inputs@[i]) by {
                assert(old(self)@.arrays[a as int][i] == inputs@[i]);
            }
        }
        let r = self.pending();
        let ghost m1 = self@;
        proof {
            lemma_valid_mono(old(self)@, m1);
        }
        if n == 0 {
            let arr = self.new_array(Vec::new());
            proof {
                assert(self@ == m1.push_array(Seq::empty()));
                lemma_valid_mono(m1, self@);
            }
            self.resolve_once(r, Ok(arr));
        }
        let ghost m2 = self@;
        proof {
            lemma_extends_trans(old(self)@, m1, m2);
        }
        let g = self.push_aggregate(n);
        let ghost m3 = self@;
        proof {
            lemma_extends_trans(old(self)@, m2, m3);
            lemma_extends_refl(m3);
        }
        let mut i: usize = 0;
        while i < n
            invariant
                i <= n,
                n == inputs@.len(),
                forall|k: int| 0 <= k < inputs@.len() ==> old(self)@.valid_value(#[trigger] inputs@[k]),
                self.wf(),
                self@ == m3.all_inputs(inputs@, r, g, i as nat),
                self@.extends(m3),
                m3.extends(old(self)@),
                r < m3.promises.len(),
                g < m3.aggregates.len(),
                m3.aggregates[g as int].slots.len() == n,
            decreases n - i,
        {
            let v = inputs[i];
            proof {
                lemma_extends_trans(old(self)@, m3, self@);
                lemma_valid_mono(old(self)@, self@);
            }
            let ghost before = self@;
            let src = self.promise_of(v);
            proof {
                lemma_extends_trans(m3, before, self@);
            }
            self.subscribe(src, Reaction::Element { target: r, aggregate: g, index: i });
            proof {
                lemma_extends_trans(m3, before, self@);
            }
            i += 1;
        }
        proof {
            lemma_extends_trans(old(self)@, m3, self@);
        }
        r
    }

    /// `race` over array `a` (see `RuntimeModel::race`).
    pub fn race(&mut self, a: usize) -> (r: PromiseId)
        requires
            old(self).wf(),
            a < old(self)@.arrays.len(),
        ensures
            (final(self)@, r) == old(self)@.race(a),
            r < final(self)@.promises.len(),
            final(self).wf(),
            final(self)@.extends(old(self)@),
    {
        let inputs = copy_values(&self.arrays[a]);
        let n = inputs.len();
        proof {
            assert forall|i: int| 0 <= i < inputs@.len() implies old(self)@.valid_value(#[trigger] inputs@[i]) by {
                assert(old(self)@.arrays[a as int][i] == inputs@[i]);
            }
        }
        let r = self.pending();
        let ghost m1 = self@;
        proof {
            lemma_valid_mono(old(self)@, m1);
            lemma_extends_refl(m1);
        }
        let mut i: usize = 0;
        while i < n
            invariant
                i <= n,
                n == inputs@.len(),
                forall|k: int| 0 <= k < inputs@.len() ==> old(self)@.valid_value(#[trigger] inputs@[k]),
                self.wf(),
                self@ == m1.race_inputs(inputs@, r, i as nat),
                self@.extends(m1),
                m1.extends(old(self)@),
                r < m1.promises.len(),
            decreases n - i,
        {
            let v = inputs[i];
            proof {
                lemma_extends_trans(old(self)@, m1, self@);
                lemma_valid_mono(old(self)@, self@);
            }
            let ghost before = self@;
            let src = self.promise_of(v);
            proof {
                lemma_extends_trans(m1, before, self@);
            }
            self.subscribe(src, Reaction::Resolve(r));
            proof {
                lemma_extends_trans(m1, before, self@);
            }
            i += 1;
        }
        proof {
            lemma_extends_trans(old(self)@, m1, self@);
        }
        r
    }

    /// Runs one reaction with an outcome (see `RuntimeModel::react`).
    fn react(&mut self, r: Reaction, o: Outcome) -> (s: Step)
        requires
            old(self).wf(),
            old(self)@.valid_reaction(r),
            old(self)@.valid_outcome(o),
        ensures
            (final(self)@, s) == old(self)@.react(r, o),
            final(self).wf(),
    {
        match r {
            Reaction::Settle(t) => {
                self.settle(t, o);
                Step::Progress
            },
            Reaction::Resolve(t) => {
                self.resolve_once(t, o);
                Step::Progress
            },
            Reaction::Chain { target, success, failure } => {
                let handler = match o {
                    Ok(_) => success,
                    Err(_) => failure,
                };
                match handler {
                    Some(h) => {
                        proof {
                            let n = RuntimeModel { pending: Some(Pending::Handler(target)), ..old(self)@ };
                            lemma_queue_change_wf(old(self)@, n);
                        }
                        self.pending = Some(Pending::Handler(target));
                        let arg = match o {
                            Ok(v) => v,
                            Err(e) => e,
                        };
                        proof {
                            assert(self@ =~= RuntimeModel { pending: Some(Pending::Handler(target)), ..old(self)@ });
                        }
                        Step::Call { func: h, arg }
                    },
                    None => {
                        self.resolve_once(target, o);
                        Step::Progress
                    },
                }
            },
            Reaction::Finally { target, effect } => {
                proof {
                    let n = RuntimeModel {
                        pending: Some(Pending::Cleanup { target, original: o }),
                        ..old(self)@
                    };
                    lemma_queue_change_wf(old(self)@, n);
                }
                self.pending = Some(Pending::Cleanup { target, original: o });
                proof {
                    assert(self@ =~= RuntimeModel {
                        pending: Some(Pending::Cleanup { target, original: o }),
                        ..old(self)@
                    });
                }
                Step::Call { func: effect, arg: Value::Unit }
            },
            Reaction::Restore { target, original } => {
                let result = match o {
                    Ok(_) => original,
                    Err(e) => Err(e),
                };
                self.resolve_once(target, result);
                Step::Progress
            },
            Reaction::Element { target, aggregate, index } => {
                match o {
                    Err(e) => self.resolve_once(target, Err(e)),
                    Ok(v) => self.fill(target, aggregate, index, v),
                }
                Step::Progress
            },
            Reaction::Listen(l) => {
                proof {
                    let n = RuntimeModel { pending: Some(Pending::Listener), ..old(self)@ };
                    lemma_queue_change_wf(old(self)@, n);
                }
                self.pending = Some(Pending::Listener);
                proof {
                    assert(self@ =~= RuntimeModel { pending: Some(Pending::Listener), ..old(self)@ });
                }
                Step::Notify { listener: l, outcome: o }
            },
        }
    }

    /// The error that escapes for an uncaught rejection with `e` (see `RuntimeModel::uncaught`).
    fn uncaught(&mut self, e: Value) -> (err: Value)
        requires
            old(self).wf(),
            old(self)@.valid_value(e),
        ensures
            (final(self)@, err) == old(self)@.uncaught(e),
            final(self).wf(),
    {
        match e {
            Value::Error(_) => e,
            Value::Text(t) => {
                let mut message = String::from_str("Unhandled Promise rejection: ");
                message.append(self.texts[t].as_str());
                self.new_error(message)
            },
            _ => {
                let message = String::from_str("Unhandled Promise rejection (non-Error value)");
                self.new_error(message)
            },
        }
    }

    /// One step of the checkpoint (see `RuntimeModel::step`): runs the front job,
    /// or, with none left, examines the oldest rejection.
    pub fn step(&mut self) -> (s: Step)
        requires
            old(self).wf(),
        ensures
            (final(self)@, s) == old(self)@.step(),
            final(self).wf(),
    {
        if self.turns > 0 || self.pending.is_some() {
            return Step::Idle;
        }
        match self.jobs.pop_front() {
            Some(j) => {
                let ghost m = RuntimeModel { jobs: old(self)@.jobs.drop_first(), ..old(self)@ };
                proof {
                    assert(self@.jobs =~= m.jobs);
                    assert(self@ =~= m);
                    assert(old(self)@.valid_job(j));
                    lemma_queue_change_wf(old(self)@, m);
                    lemma_valid_mono(old(self)@, m);
                }
                match j {
                    Job::React { reaction, outcome } => self.react(reaction, outcome),
                    Job::Subscribe { source, reaction } => {
                        self.subscribe(source, reaction);
                        Step::Progress
                    },
                }
            },
            None => {
                match self.checks.pop_front() {
                    Some(c) => {
                        let ghost m = RuntimeModel { checks: old(self)@.checks.drop_first(), ..old(self)@ };
                        proof {
                            assert(self@.checks =~= m.checks);
                            assert(self@ =~= m);
                            assert(old(self)@.valid_check(c));
                            lemma_queue_change_wf(old(self)@, m);
                            lemma_valid_mono(old(self)@, m);
                        }
                        if self.promises[c.promise].handled {
                            Step::Progress
                        } else {
                            let err = self.uncaught(c.error);
                            Step::Raise(err)
                        }
                    },
                    None => Step::Idle,
                }
            },
        }
    }

    /// Hands back the result of the host callback that the runtime waits for
    /// (see `RuntimeModel::complete`); a subscriber's result is ignored.
    pub fn complete(&mut self, result: Outcome)
        requires
            old(self).wf(),
            old(self)@.pending is Some,
            old(self)@.valid_outcome(result),
        ensures
            final(self)@ == old(self)@.complete(result),
            final(self).wf(),
    {
        let waiting = self.pending;
        let ghost m = RuntimeModel { pending: None, ..old(self)@ };
        proof {
            lemma_queue_change_wf(old(self)@, m);
            lemma_valid_mono(old(self)@, m);
        }
        self.pending = None;
        proof {
            assert(self@ =~= m);
        }
        match waiting {
            Some(Pending::Handler(t)) => self.resolve_once(t, result),
            Some(Pending::Cleanup { target, original }) => match result {
                Err(e) => self.resolve_once(target, Err(e)),
                Ok(v) => {
                    let restored = self.pending();
                    proof {
                        lemma_valid_mono(m, self@);
                    }
                    let ghost m1 = self@;
                    let src = self.promise_of(v);
                    proof {
                        lemma_valid_mono(m, m1);
                        lemma_valid_mono(m1, self@);
                    }
                    self.subscribe(src, Reaction::Restore { target: restored, original });
                    self.resolve_once(target, Ok(Value::Promise(restored)));
                },
            },
            _ => {},
        }
    }

    /// Calls a resolving function of an executor with `arg`; returns unit.
    pub fn call_resolver(&mut self, resolver: Value, arg: Value) -> (r: Value)
        requires
            old(self).wf(),
            resolver is Resolver,
            old(self)@.valid_value(resolver),
            old(self)@.valid_value(arg),
        ensures
            final(self)@ == old(self)@.call_resolver(resolver->Resolver_0, resolver->Resolver_1, arg),
            r == Value::Unit,
            final(self).wf(),
    {
        match resolver {
            Value::Resolver(target, reject) => {
                let o: Outcome = if reject {
                    Err(arg)
                } else {
                    Ok(arg)
                };
                self.resolve_once(target, o);
            },
            _ => {},
        }
        Value::Unit
    }

    /// Enters a synchronous turn: no job runs until every turn has ended.
    pub fn begin_turn(&mut self)
        requires
            old(self).wf(),
            old(self)@.turns < usize::MAX,
        ensures
            final(self)@ == old(self)@.begin_turn(),
            final(self).wf(),
    {
        self.turns = self.turns + 1;
        proof {
            assert(self@ =~= old(self)@.begin_turn());
        }
    }

    /// Leaves a synchronous turn.
    pub fn end_turn(&mut self)
        requires
            old(self).wf(),
            old(self)@.turns > 0,
        ensures
            final(self)@ == old(self)@.end_turn(),
            final(self).wf(),
    {
        self.turns = self.turns - 1;
        proof {
            assert(self@ =~= old(self)@.end_turn());
        }
    }

    /// Subscribes host subscriber `listener` to `p`.
    pub fn listen(&mut self, p: PromiseId, listener: u64)
        requires
            old(self).wf(),
            p < old(self)@.promises.len(),
        ensures
            final(self)@ == old(self)@.subscribe(p, Reaction::Listen(listener)),
            final(self).wf(),
    {
        self.subscribe(p, Reaction::Listen(listener));
    }

    /// How `p` settled, if it has.
    pub fn outcome(&self, p: PromiseId) -> (o: Option<Outcome>)
        requires
            p < self@.promises.len(),
        ensures
            o == self@.outcome(p),
    {
        self.promises[p].outcome
    }

    /// Whether anything has subscribed to `p`.
    pub fn is_handled(&self, p: PromiseId) -> (h: bool)
        requires
            p < self@.promises.len(),
        ensures
            h == self@.promises[p as int].handled,
    {
        self.promises[p].handled
    }

    /// Marks `p` as handled, as a subscription does, without subscribing.
    pub fn mark_handled(&mut self, p: PromiseId)
        requires
            old(self).wf(),
            p < old(self)@.promises.len(),
        ensures
            final(self)@ == old(self)@.set_promise(
                p,
                PromiseModel { handled: true, ..old(self)@.promises[p as int] },
            ),
            final(self).wf(),
    {
        proof {
            let st = old(self)@.promises[p as int];
            assert(old(self)@.valid_promise(st));
            assert forall|i: int| 0 <= i < st.reactions.len() implies old(self)@.valid_reaction(
                #[trigger] st.reactions[i],
            ) by {}
            lemma_set_promise_wf(old(self)@, p, PromiseModel { handled: true, ..st });
        }
        self.promises[p].handled = true;
        proof {
            assert(self@.promises =~= old(self)@.promises.update(
                p as int,
                PromiseModel { handled: true, ..old(self)@.promises[p as int] },
            ));
            assert(self@ =~= old(self)@.set_promise(
                p,
                PromiseModel { handled: true, ..old(self)@.promises[p as int] },
            ));
        }
    }

    /// Whether every handle in `v` names an entry of this runtime.
    pub fn is_valid_value(&self, v: Value) -> (b: bool)
        ensures
            b == self@.valid_value(v),
    {
        match v {
            Value::Text(t) => t < self.texts.len(),
            Value::Array(a) => a < self.arrays.len(),
            Value::Resolver(p, _) => p < self.promises.len(),
            Value::Error(e) => e < self.errors.len(),
            Value::Promise(p) => p < self.promises.len(),
            _ => true,
        }
    }

    /// The number of promises.
    pub fn promise_count(&self) -> (n: usize)
        ensures
            n == self@.promises.len(),
    {
        self.promises.len()
    }

    /// Whether jobs are queued.
    pub fn has_jobs(&self) -> (b: bool)
        ensures
            b == (self@.jobs.len() > 0),
    {
        self.jobs.len() > 0
    }

    /// Whether the runtime waits for a host callback to `complete`.
    pub fn awaiting(&self) -> (b: bool)
        ensures
            b == self@.pending is Some,
    {
        self.pending.is_some()
    }

    /// The string at index `t` of the text table.
    pub fn text(&self, t: usize) -> (s: &String)
        requires
            t < self@.texts.len(),
        ensures
            s@ == self@.texts[t as int],
    {
        &self.texts[t]
    }

    /// The array at index `a` of the array table.
    pub fn array(&self, a: usize) -> (values: &Vec<Value>)
        requires
            a < self@.arrays.len(),
        ensures
            values@ == self@.arrays[a as int],
    {
        &self.arrays[a]
    }

    /// The name of native error `e`.
    pub fn error_name(&self, e: usize) -> (s: &String)
        requires
            e < self@.errors.len(),
        ensures
            s@ == self@.errors[e as int].name,
    {
        &self.errors[e].name
    }

    /// The message of native error `e`.
    pub fn error_message(&self, e: usize) -> (s: &String)
        requires
            e < self@.errors.len(),
        ensures
            s@ == self@.errors[e as int].message,
    {
        &self.errors[e].message
    }
}

/// Appends to `jobs` one job per reaction, in order, each with `o`.
fn queue_reactions(jobs: &mut VecDeque<Job>, reactions: &Vec<Reaction>, o: Outcome)
    ensures
        final(jobs)@ == old(jobs)@ + reaction_jobs(reactions@, o),
{
    let mut i: usize = 0;
    while i < reactions.len()
        invariant
            i <= reactions@.len(),
            jobs@ == old(jobs)@ + reaction_jobs(reactions@.take(i as int), o),
        decreases reactions@.len() - i,
    {
        jobs.push_back(Job::React { reaction: reactions[i], outcome: o });
        proof {
            assert(reaction_jobs(reactions@.take(i + 1), o) =~= reaction_jobs(
                reactions@.take(i as int),
                o,
            ).push(Job::React { reaction: reactions@[i as int], outcome: o }));
        }
        i += 1;
    }
    proof {
        assert(reactions@.take(i as int) =~= reactions@);
    }
}


/// The values of the slots, in order (each slot is filled).
fn collect_slots(slots: &Vec<Option<Value>>) -> (values: Vec<Value>)
    ensures
        values@ == slot_values(slots@),
{
    let mut values: Vec<Value> = Vec::new();
    let mut i: usize = 0;
    while i < slots.len()
        invariant
            i <= slots@.len(),
            values@ =~= slot_values(slots@.take(i as int)),
        decreases slots@.len() - i,
    {
        let v = match slots[i] {
            Some(v) => v,
            None => Value::Unit,
        };
        values.push(v);
        proof {
            assert(slot_values(slots@.take(i + 1)) =~= slot_values(slots@.take(i as int)).push(
                slot_value(slots@[i as int]),
            ));
        }
        i += 1;
    }
    proof {
        assert(slots@.take(i as int) =~= slots@);
    }
    values
}


/// A copy of `values`.
fn copy_values(values: &Vec<Value>) -> (copy: Vec<Value>)
    ensures
        copy@ == values@,
{
    let mut copy: Vec<Value> = Vec::new();
    let mut i: usize = 0;
    while i < values.len()
        invariant
            i <= values@.len(),
            copy@ =~= values@.take(i as int),
        decreases values@.len() - i,
    {
        copy.push(values[i]);
        proof {
            assert(values@.take(i + 1) =~= values@.take(i as int).push(values@[i as int]));
        }
        i += 1;
    }
    proof {
        assert(values@.take(i as int) =~= values@);
    }
    copy
}

} // verus!
