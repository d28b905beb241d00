use vstd::prelude::*;

use crate::job::{Check, Job, Pending, Reaction, Step};
use crate::model::{
    error_name, payload, reaction_jobs, slot_values, type_error_name, unhandled_prefix,
    PromiseModel, RuntimeModel,
};
use crate::validity::lemma_valid_mono;
use crate::value::{Outcome, PromiseId, Value};

verus! {

/// Every promise of `old` is still there in `new`; one that was settled keeps
/// its outcome, one that was resolved stays resolved.
pub open spec fn keeps_settlements(old: RuntimeModel, new: RuntimeModel) -> bool {
    &&& old.promises.len() <= new.promises.len()
    &&& forall|q: int|
        #![trigger new.promises[q]]
        0 <= q < old.promises.len() ==> {
            &&& (old.promises[q].outcome is Some ==> new.promises[q].outcome
                == old.promises[q].outcome)
            &&& (old.promises[q].resolved ==> new.promises[q].resolved)
        }
}

/// `new`'s queue starts with `old`'s: jobs are only ever added at the back.
pub open spec fn queue_grows(old: Seq<Job>, new: Seq<Job>) -> bool {
    old.len() <= new.len() && new.subrange(0, old.len() as int) == old
}

proof fn lemma_keeps_trans(a: RuntimeModel, b: RuntimeModel, c: RuntimeModel)
    requires
        keeps_settlements(a, b),
        keeps_settlements(b, c),
    ensures
        keeps_settlements(a, c),
{
    assert forall|q: int| #![trigger c.promises[q]] 0 <= q < a.promises.len() implies {
        &&& (a.promises[q].outcome is Some ==> c.promises[q].outcome == a.promises[q].outcome)
        &&& (a.promises[q].resolved ==> c.promises[q].resolved)
    } by {
        assert(b.promises[q] == b.promises[q]);
    }
}

proof fn lemma_grows_trans(a: Seq<Job>, b: Seq<Job>, c: Seq<Job>)
    requires
        queue_grows(a, b),
        queue_grows(b, c),
    ensures
        queue_grows(a, c),
{
    assert(c.subrange(0, a.len() as int) =~= b.subrange(0, a.len() as int));
}

proof fn lemma_settle_keeps(m: RuntimeModel, p: PromiseId, o: Outcome)
    requires
        p < m.promises.len(),
    ensures
        keeps_settlements(m, m.settle(p, o)),
        queue_grows(m.jobs, m.settle(p, o).jobs),
{
    assert(m.settle(p, o).jobs.subrange(0, m.jobs.len() as int) =~= m.jobs);
}

proof fn lemma_subscribe_keeps(m: RuntimeModel, p: PromiseId, r: Reaction)
    requires
        p < m.promises.len(),
    ensures
        keeps_settlements(m, m.subscribe(p, r)),
        queue_grows(m.jobs, m.subscribe(p, r).jobs),
{
    assert(m.subscribe(p, r).jobs.subrange(0, m.jobs.len() as int) =~= m.jobs);
}

proof fn lemma_adopt_keeps(m: RuntimeModel, p: PromiseId, v: Value)
    requires
        p < m.promises.len(),
        m.promises[p as int].resolved,
    ensures
        keeps_settlements(m, m.adopt(p, v)),
        queue_grows(m.jobs, m.adopt(p, v).jobs),
{
    match v {
        Value::Promise(q) => {
            if q == p {
                let m2 = m.push_error(type_error_name(), crate::model::self_resolution_message());
                lemma_settle_keeps(m2, p, Err(Value::Error(m.errors.len() as usize)));
                lemma_keeps_trans(m, m2, m2.settle(p, Err(Value::Error(m.errors.len() as usize))));
            } else {
                let m2 = m.push_job(Job::Subscribe { source: q, reaction: Reaction::Settle(p) });
                assert(m2.jobs.subrange(0, m.jobs.len() as int) =~= m.jobs);
            }
        },
        _ => lemma_settle_keeps(m, p, Ok(v)),
    }
}

proof fn lemma_resolve_once_keeps(m: RuntimeModel, p: PromiseId, o: Outcome)
    requires
        p < m.promises.len(),
    ensures
        keeps_settlements(m, m.resolve_once(p, o)),
        queue_grows(m.jobs, m.resolve_once(p, o).jobs),
{
    let st = m.promises[p as int];
    assert(m.jobs.subrange(0, m.jobs.len() as int) =~= m.jobs);
    if !st.resolved {
        let m1 = m.set_promise(p, PromiseModel { resolved: true, ..st });
        assert(keeps_settlements(m, m1));
        assert(m1.jobs == m.jobs);
        match o {
            Err(e) => {
                lemma_settle_keeps(m1, p, Err(e));
                lemma_keeps_trans(m, m1, m1.settle(p, Err(e)));
            },
            Ok(v) => {
                lemma_adopt_keeps(m1, p, v);
                lemma_keeps_trans(m, m1, m1.adopt(p, v));
            },
        }
    }
}

proof fn lemma_promise_of_keeps(m: RuntimeModel, v: Value)
    requires
        v is Promise ==> v->Promise_0 < m.promises.len(),
        m.promises.len() < usize::MAX,
    ensures
        keeps_settlements(m, m.promise_of(v).0),
        queue_grows(m.jobs, m.promise_of(v).0.jobs),
        m.promise_of(v).1 < m.promise_of(v).0.promises.len(),
{
    match v {
        Value::Promise(q) => {
            assert(m.jobs.subrange(0, m.jobs.len() as int) =~= m.jobs);
        },
        _ => {
            let n = m.promises.len() as usize;
            let m1 = m.pending();
            lemma_resolve_once_keeps(m1, n, Ok(v));
            lemma_keeps_trans(m, m1, m1.resolve_once(n, Ok(v)));
        },
    }
}

proof fn lemma_fill_keeps(m: RuntimeModel, target: PromiseId, g: usize, index: usize, v: Value)
    requires
        target < m.promises.len(),
    ensures
        keeps_settlements(m, m.fill(target, g, index, v)),
        queue_grows(m.jobs, m.fill(target, g, index, v).jobs),
{
    if m.aggregates[g as int].slots[index as int] is None {
        let m1 = m.fill_slot(g, index, v);
        if m1.aggregates[g as int].remaining == 0 {
            let m2 = m1.push_array(slot_values(m1.aggregates[g as int].slots));
            lemma_resolve_once_keeps(m2, target, Ok(Value::Array(m1.arrays.len() as usize)));
        } else {
            assert(m.jobs.subrange(0, m.jobs.len() as int) =~= m.jobs);
        }
    } else {
        assert(m.jobs.subrange(0, m.jobs.len() as int) =~= m.jobs);
    }
}

proof fn lemma_react_keeps(m: RuntimeModel, r: Reaction, o: Outcome)
    requires
        m.valid_reaction(r),
    ensures
        keeps_settlements(m, m.react(r, o).0),
        queue_grows(m.jobs, m.react(r, o).0.jobs),
{
    assert(m.jobs.subrange(0, m.jobs.len() as int) =~= m.jobs);
    match r {
        Reaction::Settle(t) => lemma_settle_keeps(m, t, o),
        Reaction::Resolve(t) => lemma_resolve_once_keeps(m, t, o),
        Reaction::Chain { target, success, failure } => {
            lemma_resolve_once_keeps(m, target, o);
        },
        Reaction::Restore { target, original } => {
            lemma_resolve_once_keeps(m, target, original);
            let o2 = match o {
                Ok(_) => original,
                Err(e) => Err(e),
            };
            lemma_resolve_once_keeps(m, target, o2);
        },
        Reaction::Element { target, aggregate, index } => {
            match o {
                Err(e) => lemma_resolve_once_keeps(m, target, Err(e)),
                Ok(v) => lemma_fill_keeps(m, target, aggregate, index, v),
            }
        },
        _ => {},
    }
}

/// Settlement is single-shot: one step of the checkpoint changes no settled
/// outcome and unresolves nothing, and it only removes the job it runs from the
/// front of the queue, adding any new jobs behind the others.
pub proof fn law_step_keeps_settlements(m: RuntimeModel)
    requires
        m.wf(),
    ensures
        keeps_settlements(m, m.step().0),
        m.turns == 0 && m.pending is None && m.jobs.len() > 0 ==> queue_grows(
            m.jobs.drop_first(),
            m.step().0.jobs,
        ),
{
    if m.turns > 0 || m.pending is Some {
    } else if m.jobs.len() > 0 {
        let m1 = RuntimeModel { jobs: m.jobs.drop_first(), ..m };
        assert(m.valid_job(m.jobs[0]));
        lemma_valid_mono(m, m1);
        match m.jobs[0] {
            Job::React { reaction, outcome } => lemma_react_keeps(m1, reaction, outcome),
            Job::Subscribe { source, reaction } => lemma_subscribe_keeps(m1, source, reaction),
        }
    } else if m.checks.len() > 0 {
    }
}

/// Settlement is single-shot: handing back a host callback's result changes no
/// settled outcome and unresolves nothing.
pub proof fn law_complete_keeps_settlements(m: RuntimeModel, result: Outcome)
    requires
        m.wf(),
        m.valid_outcome(result),
        m.promises.len() + 1 < usize::MAX,
    ensures
        keeps_settlements(m, m.complete(result)),
        queue_grows(m.jobs, m.complete(result).jobs),
{
    let m0 = RuntimeModel { pending: None, ..m };
    assert(m.jobs.subrange(0, m.jobs.len() as int) =~= m.jobs);
    match m.pending {
        Some(Pending::Handler(t)) => lemma_resolve_once_keeps(m0, t, result),
        Some(Pending::Cleanup { target, original }) => match result {
            Err(e) => lemma_resolve_once_keeps(m0, target, Err(e)),
            Ok(v) => {
                let restored = m0.promises.len() as usize;
                let m1 = m0.pending();
                lemma_promise_of_keeps(m1, v);
                let (m2, src) = m1.promise_of(v);
                lemma_keeps_trans(m0, m1, m2);
                lemma_subscribe_keeps(m2, src, Reaction::Restore { target: restored, original });
                let m3 = m2.subscribe(src, Reaction::Restore { target: restored, original });
                lemma_keeps_trans(m0, m2, m3);
                lemma_grows_trans(m0.jobs, m2.jobs, m3.jobs);
                lemma_resolve_once_keeps(m3, target, Ok(Value::Promise(restored)));
                lemma_keeps_trans(m0, m3, m3.resolve_once(target, Ok(Value::Promise(restored))));
                lemma_grows_trans(m0.jobs, m3.jobs, m3.resolve_once(target, Ok(Value::Promise(restored))).jobs);
            },
        },
        _ => {},
    }
}

/// Settlement is single-shot: settling a settled promise changes nothing.
pub proof fn law_settle_once(m: RuntimeModel, p: PromiseId, o: Outcome)
    requires
        p < m.promises.len(),
        m.outcome(p) is Some,
    ensures
        m.settle(p, o) == m,
{
}

/// Resolution is single-shot, including while adopting another promise: once a
/// resolution has been accepted, later ones (a rejection, a value, an
/// executor's exception) change nothing.
pub proof fn law_resolve_once(m: RuntimeModel, p: PromiseId, o: Outcome)
    requires
        p < m.promises.len(),
        m.promises[p as int].resolved,
    ensures
        m.resolve_once(p, o) == m,
{
}

/// A promise resolved with another promise stays pending but locked: it
/// queues the adoption as a job, and no later resolution settles it.
pub proof fn law_adoption_locks(m: RuntimeModel, p: PromiseId, q: PromiseId, o: Outcome)
    requires
        p < m.promises.len(),
        q != p,
        !m.promises[p as int].resolved,
        m.is_pending(p),
    ensures
        m.resolve_once(p, Ok(Value::Promise(q))).is_pending(p),
        m.resolve_once(p, Ok(Value::Promise(q))).jobs == m.jobs.push(
            Job::Subscribe { source: q, reaction: Reaction::Settle(p) },
        ),
        m.resolve_once(p, Ok(Value::Promise(q))).resolve_once(p, o) == m.resolve_once(
            p,
            Ok(Value::Promise(q)),
        ),
{
}

/// A promise resolved with itself rejects with a new native `TypeError`.
pub proof fn law_self_resolution_rejects(m: RuntimeModel, p: PromiseId)
    requires
        p < m.promises.len(),
        !m.promises[p as int].resolved,
        m.is_pending(p),
    ensures
        m.resolve_once(p, Ok(Value::Promise(p))).outcome(p) == Some(
            Err::<Value, Value>(Value::Error(m.errors.len() as usize)),
        ),
        m.resolve_once(p, Ok(Value::Promise(p))).errors[m.errors.len() as int].name
            == type_error_name(),
{
}

/// Reactions run in registration order: a pending promise's subscribers are
/// queued, when it settles, behind the jobs already queued and in the order in
/// which they subscribed.
pub proof fn law_reactions_fifo(m: RuntimeModel, p: PromiseId, r1: Reaction, r2: Reaction, o: Outcome)
    requires
        p < m.promises.len(),
        m.is_pending(p),
    ensures
        m.subscribe(p, r1).subscribe(p, r2).settle(p, o).jobs == m.jobs + reaction_jobs(
            m.promises[p as int].reactions,
            o,
        ) + seq![Job::React { reaction: r1, outcome: o }, Job::React { reaction: r2, outcome: o }],
{
    let m2 = m.subscribe(p, r1).subscribe(p, r2);
    assert(m2.promises[p as int].reactions =~= m.promises[p as int].reactions.push(r1).push(r2));
    assert(reaction_jobs(m2.promises[p as int].reactions, o) =~= reaction_jobs(
        m.promises[p as int].reactions,
        o,
    ) + seq![Job::React { reaction: r1, outcome: o }, Job::React { reaction: r2, outcome: o }]);
}

/// No job runs inside a synchronous turn or while a host callback runs: a
/// nested checkpoint does nothing.
pub proof fn law_no_reentry(m: RuntimeModel)
    requires
        m.turns > 0 || m.pending is Some,
    ensures
        m.step() == (m, Step::Idle),
{
}

/// A rejection whose promise is handled by the time the queue has drained
/// stays quiet; one that is not escapes, a native error as it is and a string
/// wrapped in a new `Error` that names it.
pub proof fn law_unhandled_rejection(m: RuntimeModel)
    requires
        m.turns == 0,
        m.pending is None,
        m.jobs.len() == 0,
        m.checks.len() > 0,
    ensures
        m.promises[m.checks[0].promise as int].handled ==> m.step().1 == Step::Progress,
        !m.promises[m.checks[0].promise as int].handled ==> m.step().1 is Raise,
        !m.promises[m.checks[0].promise as int].handled && m.checks[0].error is Error
            ==> m.step().1 == Step::Raise(m.checks[0].error),
        !m.promises[m.checks[0].promise as int].handled && m.checks[0].error is Text
            ==> m.step().1 == Step::Raise(Value::Error(m.errors.len() as usize))
            && m.step().0.errors[m.errors.len() as int].name == error_name()
            && m.step().0.errors[m.errors.len() as int].message == unhandled_prefix()
            + m.texts[m.checks[0].error->Text_0 as int],
        m.step().0.checks == m.checks.drop_first(),
{
}

/// A rejection registers its check; subscribing to the promise before the
/// check runs marks it handled.
pub proof fn law_reject_registers_check(m: RuntimeModel, e: Value, r: Reaction)
    requires
        m.promises.len() < usize::MAX,
    ensures
        m.rejected(e).0.outcome(m.rejected(e).1) == Some(Err::<Value, Value>(e)),
        m.rejected(e).0.checks == m.checks.push(Check { promise: m.rejected(e).1, error: e }),
        m.rejected(e).0.subscribe(m.rejected(e).1, r).promises[m.rejected(e).1 as int].handled,
{
}

/// `Promise.resolve` returns a promise as it is and wraps anything else in a
/// new fulfilled promise.
pub proof fn law_resolve_value(m: RuntimeModel, v: Value)
    requires
        m.promises.len() < usize::MAX,
    ensures
        v is Promise ==> m.promise_of(v) == (m, v->Promise_0),
        !(v is Promise) ==> m.promise_of(v).1 == m.promises.len() && m.promise_of(v).0.outcome(
            m.promise_of(v).1,
        ) == Some(Ok::<Value, Value>(v)),
{
}

/// `finally` keeps the original outcome once the cleanup's promise fulfils, and
/// takes the cleanup's rejection otherwise.
pub proof fn law_finally_restores(m: RuntimeModel, target: PromiseId, original: Outcome, cleanup: Outcome)
    requires
        target < m.promises.len(),
        m.is_pending(target),
        !m.promises[target as int].resolved,
        !(original is Ok && original->Ok_0 is Promise),
    ensures
        m.react(Reaction::Restore { target, original }, cleanup).0.outcome(target) == Some(
            if cleanup is Ok {
                original
            } else {
                Err::<Value, Value>(payload(cleanup))
            },
        ),
{
}

/// `all` over no input fulfils at once with an empty array; `race` over no
/// input stays pending.
pub proof fn law_empty_aggregates(m: RuntimeModel, a: usize)
    requires
        a < m.arrays.len(),
        m.arrays[a as int].len() == 0,
        m.promises.len() < usize::MAX,
        m.arrays.len() < usize::MAX,
    ensures
        m.all(a).0.outcome(m.all(a).1) == Some(Ok::<Value, Value>(Value::Array(m.arrays.len() as usize))),
        m.all(a).0.arrays[m.arrays.len() as int] == Seq::<Value>::empty(),
        m.race(a).0.is_pending(m.race(a).1),
        m.race(a).0.jobs == m.jobs,
{
    let r = m.promises.len() as usize;
    let m1 = m.pending();
    let m2 = m1.push_array(Seq::empty()).resolve_once(r, Ok(Value::Array(m1.arrays.len() as usize)));
    assert(m2.outcome(r) == Some(Ok::<Value, Value>(Value::Array(m.arrays.len() as usize))));
}

/// `all` keeps input order: when the last empty slot is filled, the result
/// fulfils with the slots' values in slot (that is, input) order.
pub proof fn law_all_input_order(m: RuntimeModel, target: PromiseId, g: usize, index: usize, v: Value)
    requires
        target < m.promises.len(),
        m.is_pending(target),
        !m.promises[target as int].resolved,
        g < m.aggregates.len(),
        index < m.aggregates[g as int].slots.len(),
        m.aggregates[g as int].slots[index as int] is None,
        m.aggregates[g as int].remaining == 1,
        m.arrays.len() < usize::MAX,
    ensures
        m.fill(target, g, index, v).outcome(target) == Some(
            Ok::<Value, Value>(Value::Array(m.arrays.len() as usize)),
        ),
        m.fill(target, g, index, v).arrays[m.arrays.len() as int] == slot_values(
            m.aggregates[g as int].slots.update(index as int, Some(v)),
        ),
{
}


/// Settlement is single-shot: creating, chaining and resolving promises changes
/// no settled outcome and unresolves nothing, and only adds jobs at the back.
pub proof fn law_operations_keep_settlements(
    m: RuntimeModel,
    p: PromiseId,
    v: Value,
    success: Option<Value>,
    failure: Option<Value>,
    reject: bool,
)
    requires
        p < m.promises.len(),
        v is Promise ==> v->Promise_0 < m.promises.len(),
        m.promises.len() < usize::MAX,
    ensures
        keeps_settlements(m, m.promise_of(v).0),
        keeps_settlements(m, m.rejected(v).0),
        keeps_settlements(m, m.chain(p, success, failure).0),
        keeps_settlements(m, m.finally(p, v).0),
        keeps_settlements(m, m.call_resolver(p, reject, v)),
        queue_grows(m.jobs, m.promise_of(v).0.jobs),
        queue_grows(m.jobs, m.rejected(v).0.jobs),
        queue_grows(m.jobs, m.chain(p, success, failure).0.jobs),
        queue_grows(m.jobs, m.finally(p, v).0.jobs),
        queue_grows(m.jobs, m.call_resolver(p, reject, v).jobs),
{
    lemma_promise_of_keeps(m, v);
    let n = m.promises.len() as usize;
    let m1 = m.pending();
    lemma_resolve_once_keeps(m1, n, Err(v));
    lemma_keeps_trans(m, m1, m1.resolve_once(n, Err(v)));
    lemma_subscribe_keeps(m1, p, Reaction::Chain { target: n, success, failure });
    lemma_keeps_trans(m, m1, m1.subscribe(p, Reaction::Chain { target: n, success, failure }));
    lemma_subscribe_keeps(m1, p, Reaction::Finally { target: n, effect: v });
    lemma_keeps_trans(m, m1, m1.subscribe(p, Reaction::Finally { target: n, effect: v }));
    lemma_resolve_once_keeps(m, p, if reject { Err(v) } else { Ok(v) });
}

proof fn lemma_all_inputs_keeps(m: RuntimeModel, inputs: Seq<Value>, target: PromiseId, g: usize, k: nat)
    requires
        forall|i: int| 0 <= i < inputs.len() && (#[trigger] inputs[i]) is Promise
            ==> inputs[i]->Promise_0 < m.promises.len(),
        target < m.promises.len(),
        k <= inputs.len(),
        m.promises.len() + k <= usize::MAX,
    ensures
        keeps_settlements(m, m.all_inputs(inputs, target, g, k)),
        queue_grows(m.jobs, m.all_inputs(inputs, target, g, k).jobs),
        m.all_inputs(inputs, target, g, k).promises.len() <= m.promises.len() + k,
    decreases k,
{
    if k == 0 {
        assert(m.jobs.subrange(0, m.jobs.len() as int) =~= m.jobs);
    } else {
        let m0 = m.all_inputs(inputs, target, g, (k - 1) as nat);
        lemma_all_inputs_keeps(m, inputs, target, g, (k - 1) as nat);
        let v = inputs[k - 1];
        lemma_promise_of_keeps(m0, v);
        let (m1, src) = m0.promise_of(v);
        let r = Reaction::Element { target, aggregate: g, index: (k - 1) as usize };
        lemma_subscribe_keeps(m1, src, r);
        lemma_keeps_trans(m, m0, m1);
        lemma_keeps_trans(m, m1, m1.subscribe(src, r));
        lemma_grows_trans(m.jobs, m0.jobs, m1.jobs);
        lemma_grows_trans(m.jobs, m1.jobs, m1.subscribe(src, r).jobs);
    }
}

proof fn lemma_race_inputs_keeps(m: RuntimeModel, inputs: Seq<Value>, target: PromiseId, k: nat)
    requires
        forall|i: int| 0 <= i < inputs.len() && (#[trigger] inputs[i]) is Promise
            ==> inputs[i]->Promise_0 < m.promises.len(),
        target < m.promises.len(),
        k <= inputs.len(),
        m.promises.len() + k <= usize::MAX,
    ensures
        keeps_settlements(m, m.race_inputs(inputs, target, k)),
        queue_grows(m.jobs, m.race_inputs(inputs, target, k).jobs),
        m.race_inputs(inputs, target, k).promises.len() <= m.promises.len() + k,
    decreases k,
{
    if k == 0 {
        assert(m.jobs.subrange(0, m.jobs.len() as int) =~= m.jobs);
    } else {
        let m0 = m.race_inputs(inputs, target, (k - 1) as nat);
        lemma_race_inputs_keeps(m, inputs, target, (k - 1) as nat);
        let v = inputs[k - 1];
        lemma_promise_of_keeps(m0, v);
        let (m1, src) = m0.promise_of(v);
        lemma_subscribe_keeps(m1, src, Reaction::Resolve(target));
        lemma_keeps_trans(m, m0, m1);
        lemma_keeps_trans(m, m1, m1.subscribe(src, Reaction::Resolve(target)));
        lemma_grows_trans(m.jobs, m0.jobs, m1.jobs);
        lemma_grows_trans(m.jobs, m1.jobs, m1.subscribe(src, Reaction::Resolve(target)).jobs);
    }
}

/// Settlement is single-shot: `all` and `race` change no settled outcome and
/// unresolve nothing, and only add jobs at the back.
pub proof fn law_aggregates_keep_settlements(m: RuntimeModel, a: usize)
    requires
        m.wf(),
        a < m.arrays.len(),
        m.promises.len() + m.arrays[a as int].len() < usize::MAX,
    ensures
        keeps_settlements(m, m.all(a).0),
        keeps_settlements(m, m.race(a).0),
        queue_grows(m.jobs, m.all(a).0.jobs),
        queue_grows(m.jobs, m.race(a).0.jobs),
{
    let inputs = m.arrays[a as int];
    assert forall|i: int| 0 <= i < inputs.len() && (#[trigger] inputs[i]) is Promise
        implies inputs[i]->Promise_0 < m.promises.len() by {
        assert(m.valid_value(m.arrays[a as int][i]));
    }
    let r = m.promises.len() as usize;
    let m1 = m.pending();
    let m2 = if inputs.len() == 0 {
        let ma = m1.push_array(Seq::empty());
        lemma_resolve_once_keeps(ma, r, Ok(Value::Array(m1.arrays.len() as usize)));
        lemma_keeps_trans(m, ma, ma.resolve_once(r, Ok(Value::Array(m1.arrays.len() as usize))));
        ma.resolve_once(r, Ok(Value::Array(m1.arrays.len() as usize)))
    } else {
        assert(m1.jobs.subrange(0, m.jobs.len() as int) =~= m.jobs);
        m1
    };
    let g = m2.aggregates.len() as usize;
    let m3 = m2.push_aggregate(inputs.len());
    lemma_all_inputs_keeps(m3, inputs, r, g, inputs.len());
    lemma_keeps_trans(m, m3, m3.all_inputs(inputs, r, g, inputs.len()));
    lemma_grows_trans(m.jobs, m3.jobs, m3.all_inputs(inputs, r, g, inputs.len()).jobs);
    lemma_race_inputs_keeps(m1, inputs, r, inputs.len());
    lemma_keeps_trans(m, m1, m1.race_inputs(inputs, r, inputs.len()));
    assert(m1.jobs.subrange(0, m.jobs.len() as int) =~= m.jobs);
    lemma_grows_trans(m.jobs, m1.jobs, m1.race_inputs(inputs, r, inputs.len()).jobs);
}


/// The resolving functions of an executor: `reject` rejects a pending,
/// unresolved promise with its argument; `resolve` with a value that is not a
/// promise fulfils it with that value; a rejection registers its check.
pub proof fn law_executor_resolvers(m: RuntimeModel, p: PromiseId, v: Value)
    requires
        p < m.promises.len(),
        m.is_pending(p),
        !m.promises[p as int].resolved,
    ensures
        m.call_resolver(p, true, v).outcome(p) == Some(Err::<Value, Value>(v)),
        m.call_resolver(p, true, v).checks == m.checks.push(Check { promise: p, error: v }),
        !(v is Promise) ==> m.call_resolver(p, false, v).outcome(p) == Some(Ok::<Value, Value>(v)),
        !(v is Promise) ==> m.call_resolver(p, false, v).checks == m.checks,
        m.call_resolver(p, true, v).promises[p as int].resolved,
        m.call_resolver(p, false, v).promises[p as int].resolved,
{
}

/// A `then`/`catch` reaction calls the handler for the outcome's side, with the
/// outcome's value, whatever the handler of the other side is, and waits for
/// it on behalf of its target; with no handler for that side, the outcome passes
/// to the target unchanged and no other promise becomes handled.
pub proof fn law_chain_reaction(
    m: RuntimeModel,
    target: PromiseId,
    success: Option<Value>,
    failure: Option<Value>,
    o: Outcome,
)
    requires
        target < m.promises.len(),
        m.is_pending(target),
        !m.promises[target as int].resolved,
    ensures
        ({
            let (n, s) = m.react(Reaction::Chain { target, success, failure }, o);
            &&& o is Ok && success is Some ==> s == Step::Call { func: success.unwrap(), arg: payload(o) }
                && n.pending == Some(Pending::Handler(target)) && n.promises == m.promises
            &&& o is Err && failure is Some ==> s == Step::Call { func: failure.unwrap(), arg: payload(o) }
                && n.pending == Some(Pending::Handler(target)) && n.promises == m.promises
            &&& o is Err && failure is None ==> s == Step::Progress && n.outcome(target) == Some(o)
                && n.checks == m.checks.push(Check { promise: target, error: payload(o) })
                && forall|q: int| 0 <= q < m.promises.len() ==> #[trigger] n.promises[q].handled
                    == m.promises[q].handled
            &&& o is Ok && success is None && !(payload(o) is Promise) ==> s == Step::Progress
                && n.outcome(target) == Some(o)
                && forall|q: int| 0 <= q < m.promises.len() ==> #[trigger] n.promises[q].handled
                    == m.promises[q].handled
        }),
{
}

/// The host's answer to a `then`/`catch` handler resolves the handler's target:
/// a throw rejects it with the thrown value, a value that is not a promise
/// fulfils it; either way the runtime stops waiting.
pub proof fn law_complete_handler(m: RuntimeModel, target: PromiseId, result: Outcome)
    requires
        m.pending == Some(Pending::Handler(target)),
        target < m.promises.len(),
        m.is_pending(target),
        !m.promises[target as int].resolved,
    ensures
        m.complete(result).pending is None,
        result is Err ==> m.complete(result).outcome(target) == Some(result),
        result is Ok && !(payload(result) is Promise) ==> m.complete(result).outcome(target) == Some(
            result,
        ),
{
}

/// A `finally` cleanup that throws rejects the `finally` promise with what it
/// threw, whatever the original outcome; one that returns leaves the `finally`
/// promise pending until the cleanup's promise settles, adopting a new promise.
pub proof fn law_complete_cleanup(m: RuntimeModel, target: PromiseId, original: Outcome, result: Outcome)
    requires
        m.pending == Some(Pending::Cleanup { target, original }),
        target < m.promises.len(),
        m.is_pending(target),
        !m.promises[target as int].resolved,
        m.promises.len() + 1 < usize::MAX,
        payload(result) is Promise ==> payload(result)->Promise_0 < m.promises.len(),
    ensures
        m.complete(result).pending is None,
        result is Err ==> m.complete(result).outcome(target) == Some(result),
        result is Ok ==> m.complete(result).is_pending(target) && m.complete(
            result,
        ).promises[target as int].resolved,
{
    if result is Ok {
        let m0 = RuntimeModel { pending: None, ..m };
        let v = result->Ok_0;
        let restored = m0.promises.len() as usize;
        let m1 = m0.pending();
        lemma_promise_of_keeps(m1, v);
        let (m2, src) = m1.promise_of(v);
        lemma_subscribe_keeps(m2, src, Reaction::Restore { target: restored, original });
        let m3 = m2.subscribe(src, Reaction::Restore { target: restored, original });
        lemma_keeps_trans(m1, m2, m3);
        assert(m1.is_pending(target));
        if m2.promises[target as int].outcome is Some {
            // promise_of settles only the promise it creates
            assert(m2.promises[target as int] == m1.promises[target as int]);
        }
    }
}

/// A host subscriber's answer changes nothing but ending the wait.
pub proof fn law_complete_listener(m: RuntimeModel, result: Outcome)
    requires
        m.pending == Some(Pending::Listener),
    ensures
        m.complete(result) == (RuntimeModel { pending: None, ..m }),
{
}

proof fn lemma_grows_contains(a: Seq<Job>, b: Seq<Job>, j: Job)
    requires
        queue_grows(a, b),
        a.contains(j),
    ensures
        b.contains(j),
{
    let i = choose|i: int| 0 <= i < a.len() && a[i] == j;
    assert(b.subrange(0, a.len() as int)[i] == j);
    assert(b[i] == j);
}

proof fn lemma_promise_of_plain(m: RuntimeModel, v: Value)
    requires
        !(v is Promise),
        m.promises.len() < usize::MAX,
    ensures
        m.promise_of(v).1 == m.promises.len(),
        m.promise_of(v).1 < m.promise_of(v).0.promises.len(),
        m.promise_of(v).0.outcome(m.promise_of(v).1) == Some(Ok::<Value, Value>(v)),
{
}

proof fn lemma_race_inputs_watch(m: RuntimeModel, inputs: Seq<Value>, target: PromiseId, k: nat)
    requires
        forall|i: int| 0 <= i < inputs.len() && (#[trigger] inputs[i]) is Promise
            ==> inputs[i]->Promise_0 < m.promises.len(),
        target < m.promises.len(),
        k <= inputs.len(),
        m.promises.len() + k <= usize::MAX,
    ensures
        forall|j: int| 0 <= j < k && !((#[trigger] inputs[j]) is Promise) ==> m.race_inputs(
            inputs,
            target,
            k,
        ).jobs.contains(Job::React { reaction: Reaction::Resolve(target), outcome: Ok(inputs[j]) }),
    decreases k,
{
    if k > 0 {
        let m0 = m.race_inputs(inputs, target, (k - 1) as nat);
        lemma_race_inputs_watch(m, inputs, target, (k - 1) as nat);
        lemma_race_inputs_keeps(m, inputs, target, (k - 1) as nat);
        let v = inputs[k - 1];
        lemma_promise_of_keeps(m0, v);
        let (m1, src) = m0.promise_of(v);
        lemma_subscribe_keeps(m1, src, Reaction::Resolve(target));
        let m2 = m1.subscribe(src, Reaction::Resolve(target));
        lemma_grows_trans(m0.jobs, m1.jobs, m2.jobs);
        assert forall|j: int| 0 <= j < k && !((#[trigger] inputs[j]) is Promise) implies m2.jobs.contains(
            Job::React { reaction: Reaction::Resolve(target), outcome: Ok(inputs[j]) },
        ) by {
            let job = Job::React { reaction: Reaction::Resolve(target), outcome: Ok(inputs[j]) };
            if j < k - 1 {
                lemma_grows_contains(m0.jobs, m2.jobs, job);
            } else {
                lemma_promise_of_plain(m0, v);
                assert(m2.jobs[m1.jobs.len() as int] == job);
            }
        }
    }
}

/// `race` watches every input, plain values included: for each input that is
/// not a promise, a job resolving the race with that value is queued, so the
/// race settles with the first of them unless an earlier input settles first.
pub proof fn law_race_watches_every_input(m: RuntimeModel, a: usize)
    requires
        m.wf(),
        a < m.arrays.len(),
        m.promises.len() + m.arrays[a as int].len() < usize::MAX,
    ensures
        forall|j: int| 0 <= j < m.arrays[a as int].len() && !((#[trigger] m.arrays[a as int][j]) is Promise)
            ==> m.race(a).0.jobs.contains(
            Job::React { reaction: Reaction::Resolve(m.race(a).1), outcome: Ok(m.arrays[a as int][j]) },
        ),
{
    let inputs = m.arrays[a as int];
    assert forall|i: int| 0 <= i < inputs.len() && (#[trigger] inputs[i]) is Promise
        implies inputs[i]->Promise_0 < m.promises.len() by {
        assert(m.valid_value(m.arrays[a as int][i]));
    }
    let r = m.promises.len() as usize;
    lemma_race_inputs_watch(m.pending(), inputs, r, inputs.len());
}

proof fn lemma_all_inputs_watch(m: RuntimeModel, inputs: Seq<Value>, target: PromiseId, g: usize, k: nat)
    requires
        forall|i: int| 0 <= i < inputs.len() && (#[trigger] inputs[i]) is Promise
            ==> inputs[i]->Promise_0 < m.promises.len(),
        target < m.promises.len(),
        k <= inputs.len(),
        m.promises.len() + k <= usize::MAX,
    ensures
        forall|j: int| 0 <= j < k && !((#[trigger] inputs[j]) is Promise) ==> m.all_inputs(
            inputs,
            target,
            g,
            k,
        ).jobs.contains(
            Job::React {
                reaction: Reaction::Element { target, aggregate: g, index: j as usize },
                outcome: Ok(inputs[j]),
            },
        ),
    decreases k,
{
    if k > 0 {
        let m0 = m.all_inputs(inputs, target, g, (k - 1) as nat);
        lemma_all_inputs_watch(m, inputs, target, g, (k - 1) as nat);
        lemma_all_inputs_keeps(m, inputs, target, g, (k - 1) as nat);
        let v = inputs[k - 1];
        lemma_promise_of_keeps(m0, v);
        let (m1, src) = m0.promise_of(v);
        let r = Reaction::Element { target, aggregate: g, index: (k - 1) as usize };
        lemma_subscribe_keeps(m1, src, r);
        let m2 = m1.subscribe(src, r);
        lemma_grows_trans(m0.jobs, m1.jobs, m2.jobs);
        assert forall|j: int| 0 <= j < k && !((#[trigger] inputs[j]) is Promise) implies m2.jobs.contains(
            Job::React {
                reaction: Reaction::Element { target, aggregate: g, index: j as usize },
                outcome: Ok(inputs[j]),
            },
        ) by {
            let job = Job::React {
                reaction: Reaction::Element { target, aggregate: g, index: j as usize },
                outcome: Ok(inputs[j]),
            };
            if j < k - 1 {
                lemma_grows_contains(m0.jobs, m2.jobs, job);
            } else {
                lemma_promise_of_plain(m0, v);
                assert(m2.jobs[m1.jobs.len() as int] == job);
            }
        }
    }
}

/// `all` watches every input, plain values included: for each input that is not
/// a promise, a job filling its own slot (the input's index) with that value is
/// queued.
pub proof fn law_all_watches_every_input(m: RuntimeModel, a: usize)
    requires
        m.wf(),
        a < m.arrays.len(),
        m.promises.len() + m.arrays[a as int].len() < usize::MAX,
        m.aggregates.len() < usize::MAX,
        m.arrays.len() < usize::MAX,
    ensures
        forall|j: int| 0 <= j < m.arrays[a as int].len() && !((#[trigger] m.arrays[a as int][j]) is Promise)
            ==> m.all(a).0.jobs.contains(
            Job::React {
                reaction: Reaction::Element {
                    target: m.all(a).1,
                    aggregate: m.aggregates.len() as usize,
                    index: j as usize,
                },
                outcome: Ok(m.arrays[a as int][j]),
            },
        ),
{
    let inputs = m.arrays[a as int];
    assert forall|i: int| 0 <= i < inputs.len() && (#[trigger] inputs[i]) is Promise
        implies inputs[i]->Promise_0 < m.promises.len() by {
        assert(m.valid_value(m.arrays[a as int][i]));
    }
    let r = m.promises.len() as usize;
    let m1 = m.pending();
    let m2 = if inputs.len() == 0 {
        m1.push_array(Seq::empty()).resolve_once(r, Ok(Value::Array(m1.arrays.len() as usize)))
    } else {
        m1
    };
    assert(m2.aggregates.len() == m.aggregates.len());
    let m3 = m2.push_aggregate(inputs.len());
    assert(m3.promises.len() == m.promises.len() + 1);
    lemma_all_inputs_watch(m3, inputs, r, m.aggregates.len() as usize, inputs.len());
}


/// Settling a pending promise records the outcome, hands its waiting reactions
/// to the queue (emptying its list), keeps its handled flag, and registers a
/// check exactly when it rejects.
pub proof fn law_settle_records(m: RuntimeModel, p: PromiseId, o: Outcome)
    requires
        p < m.promises.len(),
        m.is_pending(p),
    ensures
        m.settle(p, o).outcome(p) == Some(o),
        m.settle(p, o).promises[p as int].reactions.len() == 0,
        m.settle(p, o).promises[p as int].handled == m.promises[p as int].handled,
        m.settle(p, o).jobs.len() == m.jobs.len() + m.promises[p as int].reactions.len(),
        o is Err ==> m.settle(p, o).checks == m.checks.push(Check { promise: p, error: payload(o) }),
        o is Ok ==> m.settle(p, o).checks == m.checks,
        m.settle(p, o).promises.len() == m.promises.len(),
        forall|q: int| 0 <= q < m.promises.len() && q != p ==> #[trigger] m.settle(p, o).promises[q]
            == m.promises[q],
{
}

/// Subscribing marks the promise handled; to a settled promise it queues one
/// job that runs the reaction with the promise's outcome; to a pending one it
/// adds the reaction last to the waiting list and queues nothing.
pub proof fn law_subscribe(m: RuntimeModel, p: PromiseId, r: Reaction)
    requires
        p < m.promises.len(),
    ensures
        m.subscribe(p, r).promises[p as int].handled,
        m.subscribe(p, r).outcome(p) == m.outcome(p),
        m.outcome(p) is Some ==> m.subscribe(p, r).jobs == m.jobs.push(
            Job::React { reaction: r, outcome: m.outcome(p).unwrap() },
        ),
        m.is_pending(p) ==> m.subscribe(p, r).jobs == m.jobs && m.subscribe(p, r).promises[p as int].reactions
            == m.promises[p as int].reactions.push(r),
        m.subscribe(p, r).checks == m.checks,
        forall|q: int| 0 <= q < m.promises.len() && q != p ==> #[trigger] m.subscribe(p, r).promises[q]
            == m.promises[q],
{
}

/// The reactions that settle or resolve a target hand it the outcome: adoption
/// settles it even though it is already resolved; `race` resolves it once.
pub proof fn law_settle_and_resolve_reactions(m: RuntimeModel, t: PromiseId, o: Outcome)
    requires
        t < m.promises.len(),
        m.is_pending(t),
    ensures
        m.react(Reaction::Settle(t), o).0.outcome(t) == Some(o),
        m.react(Reaction::Settle(t), o).1 == Step::Progress,
        !m.promises[t as int].resolved && !(o is Ok && payload(o) is Promise) ==> m.react(
            Reaction::Resolve(t),
            o,
        ).0.outcome(t) == Some(o),
        m.promises[t as int].resolved ==> m.react(Reaction::Resolve(t), o).0 == m,
{
}

/// A `finally` reaction calls the effect with unit and waits for it, keeping
/// the settled outcome to restore later; a subscriber's reaction tells the host
/// the outcome and waits for it.
pub proof fn law_finally_and_listen_reactions(m: RuntimeModel, t: PromiseId, effect: Value, l: u64, o: Outcome)
    ensures
        m.react(Reaction::Finally { target: t, effect }, o).1 == (Step::Call { func: effect, arg: Value::Unit }),
        m.react(Reaction::Finally { target: t, effect }, o).0 == (RuntimeModel {
            pending: Some(Pending::Cleanup { target: t, original: o }),
            ..m
        }),
        m.react(Reaction::Listen(l), o).1 == (Step::Notify { listener: l, outcome: o }),
        m.react(Reaction::Listen(l), o).0 == (RuntimeModel { pending: Some(Pending::Listener), ..m }),
{
}

/// An input of `all` that rejects rejects the `all`; one that fulfils fills
/// its own slot and, while other slots are empty, leaves the `all` pending.
pub proof fn law_element_reaction(m: RuntimeModel, t: PromiseId, g: usize, i: usize, o: Outcome)
    requires
        t < m.promises.len(),
        m.is_pending(t),
        !m.promises[t as int].resolved,
        g < m.aggregates.len(),
        i < m.aggregates[g as int].slots.len(),
        m.aggregates[g as int].slots[i as int] is None,
    ensures
        o is Err ==> m.react(Reaction::Element { target: t, aggregate: g, index: i }, o).0.outcome(t)
            == Some(o),
        o is Ok ==> m.react(Reaction::Element { target: t, aggregate: g, index: i }, o).0.aggregates[g as int].slots
            == m.aggregates[g as int].slots.update(i as int, Some(payload(o))),
        o is Ok && m.aggregates[g as int].remaining > 1 ==> m.react(
            Reaction::Element { target: t, aggregate: g, index: i },
            o,
        ).0.is_pending(t) && m.react(Reaction::Element { target: t, aggregate: g, index: i }, o).0.aggregates[g as int].remaining
            == m.aggregates[g as int].remaining - 1,
{
}

/// A step that finds a job runs the front one: a subscription job subscribes
/// its reaction to its source.
pub proof fn law_step_runs_front_job(m: RuntimeModel)
    requires
        m.turns == 0,
        m.pending is None,
        m.jobs.len() > 0,
    ensures
        m.jobs[0] matches Job::Subscribe { source, reaction } ==> m.step() == (
            RuntimeModel { jobs: m.jobs.drop_first(), ..m }.subscribe(source, reaction),
            Step::Progress,
        ),
{
}

/// An uncaught rejection with a payload that is neither a native error nor a
/// string escapes as a new generic `Error`.
pub proof fn law_uncaught_other(m: RuntimeModel, e: Value)
    requires
        !(e is Error),
        !(e is Text),
    ensures
        m.uncaught(e).1 == Value::Error(m.errors.len() as usize),
        m.uncaught(e).0.errors == m.errors.push(
            crate::model::ErrorModel { name: error_name(), message: crate::model::unhandled_non_error_message() },
        ),
{
}

/// A turn holds back every job until it ends, and ending it undoes beginning it.
pub proof fn law_turns(m: RuntimeModel)
    ensures
        m.begin_turn().step() == (m.begin_turn(), Step::Idle),
        m.begin_turn().end_turn() == m,
{
    assert(m.begin_turn().end_turn() =~= m);
}

/// A `finally` cleanup that returns `v` (not a promise) queues the restoring
/// of the original outcome on a new promise fulfilled with `v`, and the
/// `finally` promise adopts a new promise (`restored`) that this restoring
/// resolves.
pub proof fn law_cleanup_restores_later(m: RuntimeModel, target: PromiseId, original: Outcome, v: Value)
    requires
        m.pending == Some(Pending::Cleanup { target, original }),
        target < m.promises.len(),
        m.is_pending(target),
        !m.promises[target as int].resolved,
        !(v is Promise),
        m.promises.len() + 1 < usize::MAX,
    ensures
        ({
            let restored = m.promises.len() as usize;
            let n = m.complete(Ok(v));
            &&& n.jobs == m.jobs.push(
                Job::React { reaction: Reaction::Restore { target: restored, original }, outcome: Ok(v) },
            ).push(Job::Subscribe { source: restored, reaction: Reaction::Settle(target) })
            &&& n.is_pending(restored)
            &&& !n.promises[restored as int].resolved
        }),
{
}


/// `then`/`catch` and `finally` make a new pending promise, unresolved and
/// unhandled, and subscribe to the source a reaction that resolves that new
/// promise with the given handlers (or effect).
pub proof fn law_chain_and_finally_ops(
    m: RuntimeModel,
    p: PromiseId,
    success: Option<Value>,
    failure: Option<Value>,
    effect: Value,
)
    requires
        p < m.promises.len(),
        m.promises.len() < usize::MAX,
    ensures
        ({
            let (n, r) = m.chain(p, success, failure);
            let reaction = Reaction::Chain { target: r, success, failure };
            &&& r == m.promises.len()
            &&& n.promises.len() == m.promises.len() + 1
            &&& n.is_pending(r) && !n.promises[r as int].resolved && !n.promises[r as int].handled
            &&& n.promises[p as int].handled
            &&& m.is_pending(p) ==> n.promises[p as int].reactions == m.promises[p as int].reactions.push(reaction)
            &&& m.outcome(p) is Some ==> n.jobs == m.jobs.push(
                Job::React { reaction, outcome: m.outcome(p).unwrap() },
            )
        }),
        ({
            let (n, r) = m.finally(p, effect);
            let reaction = Reaction::Finally { target: r, effect };
            &&& r == m.promises.len()
            &&& n.promises.len() == m.promises.len() + 1
            &&& n.is_pending(r) && !n.promises[r as int].resolved && !n.promises[r as int].handled
            &&& n.promises[p as int].handled
            &&& m.is_pending(p) ==> n.promises[p as int].reactions == m.promises[p as int].reactions.push(reaction)
            &&& m.outcome(p) is Some ==> n.jobs == m.jobs.push(
                Job::React { reaction, outcome: m.outcome(p).unwrap() },
            )
        }),
{
}

} // verus!
