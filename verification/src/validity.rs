use vstd::prelude::*;

use crate::job::{Check, Job, Pending, Reaction};
use crate::model::{
    count_none, fresh_promise, reaction_jobs, self_resolution_message, slot_values,
    type_error_name, PromiseModel, RuntimeModel,
};
use crate::value::{Outcome, PromiseId, Value};

verus! {

/// Whatever is valid in `old` stays valid in a model that extends it.
pub proof fn lemma_valid_mono(old: RuntimeModel, new: RuntimeModel)
    requires
        new.extends(old),
    ensures
        forall|v: Value| old.valid_value(v) ==> #[trigger] new.valid_value(v),
        forall|o: Outcome| old.valid_outcome(o) ==> #[trigger] new.valid_outcome(o),
        forall|h: Option<Value>| old.valid_handler(h) ==> #[trigger] new.valid_handler(h),
        forall|r: Reaction| old.valid_reaction(r) ==> #[trigger] new.valid_reaction(r),
        forall|j: Job| old.valid_job(j) ==> #[trigger] new.valid_job(j),
        forall|c: Check| old.valid_check(c) ==> #[trigger] new.valid_check(c),
        forall|p: Option<Pending>| old.valid_pending(p) ==> #[trigger] new.valid_pending(p),
{
    assert forall|r: Reaction| old.valid_reaction(r) implies #[trigger] new.valid_reaction(r) by {
        match r {
            Reaction::Element { target, aggregate, index } => {
                assert(new.aggregates[aggregate as int].slots.len()
                    == old.aggregates[aggregate as int].slots.len());
            },
            _ => {},
        }
    }
}

/// `extends` is transitive.
pub proof fn lemma_extends_trans(a: RuntimeModel, b: RuntimeModel, c: RuntimeModel)
    requires
        b.extends(a),
        c.extends(b),
    ensures
        c.extends(a),
{
    assert forall|g: int| 0 <= g < a.aggregates.len() implies #[trigger] c.aggregates[g].slots.len()
        == a.aggregates[g].slots.len() by {
        assert(c.aggregates[g].slots.len() == b.aggregates[g].slots.len());
    }
}

/// A model extends itself.
pub proof fn lemma_extends_refl(a: RuntimeModel)
    ensures
        a.extends(a),
{
}

/// The parts of the invariant that do not look at promises, jobs or checks carry
/// over to a model with more entries and the same arrays and aggregates.
pub proof fn lemma_wf_tables(old: RuntimeModel, new: RuntimeModel)
    requires
        old.wf(),
        new.extends(old),
        new.arrays == old.arrays,
        new.aggregates == old.aggregates,
        new.pending == old.pending,
    ensures
        forall|a: int, i: int| 0 <= a < new.arrays.len() && 0 <= i < new.arrays[a].len()
            ==> new.valid_value(#[trigger] new.arrays[a][i]),
        forall|g: int| 0 <= g < new.aggregates.len() ==> new.valid_aggregate(#[trigger] new.aggregates[g]),
        new.valid_pending(new.pending),
{
    lemma_valid_mono(old, new);
    assert forall|a: int, i: int| 0 <= a < new.arrays.len() && 0 <= i < new.arrays[a].len()
        implies new.valid_value(#[trigger] new.arrays[a][i]) by {
        assert(old.valid_value(old.arrays[a][i]));
    }
    assert forall|g: int| 0 <= g < new.aggregates.len() implies new.valid_aggregate(
        #[trigger] new.aggregates[g],
    ) by {
        let agg = new.aggregates[g];
        assert(old.valid_aggregate(old.aggregates[g]));
        assert forall|i: int| 0 <= i < agg.slots.len() implies match #[trigger] agg.slots[i] {
            Some(v) => new.valid_value(v),
            None => true,
        } by {
            match agg.slots[i] {
                Some(v) => assert(old.valid_value(v)),
                None => {},
            }
        }
    }
}

pub proof fn lemma_pending_wf(m: RuntimeModel)
    requires
        m.wf(),
    ensures
        m.pending().wf(),
        m.pending().extends(m),
        m.pending().promises.len() == m.promises.len() + 1,
        m.pending().promises[m.promises.len() as int] == fresh_promise(),
{
    let n = m.pending();
    lemma_valid_mono(m, n);
    lemma_wf_tables(m, n);
    assert forall|p: int| 0 <= p < n.promises.len() implies n.valid_promise(#[trigger] n.promises[p]) by {
        if p < m.promises.len() {
            let st = m.promises[p];
            assert(m.valid_promise(st));
            assert forall|i: int| 0 <= i < st.reactions.len() implies n.valid_reaction(
                #[trigger] st.reactions[i],
            ) by {
                assert(m.valid_reaction(st.reactions[i]));
            }
        }
    }
    assert forall|i: int| 0 <= i < n.jobs.len() implies n.valid_job(#[trigger] n.jobs[i]) by {
        assert(m.valid_job(m.jobs[i]));
    }
    assert forall|i: int| 0 <= i < n.checks.len() implies n.valid_check(#[trigger] n.checks[i]) by {
        assert(m.valid_check(m.checks[i]));
    }
}

/// Replacing promise `p` by a valid state keeps the invariant.
pub proof fn lemma_set_promise_wf(m: RuntimeModel, p: PromiseId, st: PromiseModel)
    requires
        m.wf(),
        p < m.promises.len(),
        m.valid_promise(st),
    ensures
        m.set_promise(p, st).wf(),
        m.set_promise(p, st).extends(m),
{
    let n = m.set_promise(p, st);
    lemma_valid_mono(m, n);
    lemma_wf_tables(m, n);
    assert forall|q: int| 0 <= q < n.promises.len() implies n.valid_promise(#[trigger] n.promises[q]) by {
        if q != p {
            let s = m.promises[q];
            assert(m.valid_promise(s));
            assert forall|i: int| 0 <= i < s.reactions.len() implies n.valid_reaction(
                #[trigger] s.reactions[i],
            ) by {
                assert(m.valid_reaction(s.reactions[i]));
            }
        }
    }
    assert forall|i: int| 0 <= i < n.jobs.len() implies n.valid_job(#[trigger] n.jobs[i]) by {
        assert(m.valid_job(m.jobs[i]));
    }
    assert forall|i: int| 0 <= i < n.checks.len() implies n.valid_check(#[trigger] n.checks[i]) by {
        assert(m.valid_check(m.checks[i]));
    }
}

pub proof fn lemma_push_job_wf(m: RuntimeModel, j: Job)
    requires
        m.wf(),
        m.valid_job(j),
    ensures
        m.push_job(j).wf(),
        m.push_job(j).extends(m),
{
    let n = m.push_job(j);
    lemma_valid_mono(m, n);
    lemma_wf_tables(m, n);
    assert forall|q: int| 0 <= q < n.promises.len() implies n.valid_promise(#[trigger] n.promises[q]) by {
        let s = m.promises[q];
        assert(m.valid_promise(s));
        assert forall|i: int| 0 <= i < s.reactions.len() implies n.valid_reaction(
            #[trigger] s.reactions[i],
        ) by {
            assert(m.valid_reaction(s.reactions[i]));
        }
    }
    assert forall|i: int| 0 <= i < n.jobs.len() implies n.valid_job(#[trigger] n.jobs[i]) by {
        if i < m.jobs.len() {
            assert(m.valid_job(m.jobs[i]));
        }
    }
    assert forall|i: int| 0 <= i < n.checks.len() implies n.valid_check(#[trigger] n.checks[i]) by {
        assert(m.valid_check(m.checks[i]));
    }
}

pub proof fn lemma_push_error_wf(m: RuntimeModel, name: Seq<char>, message: Seq<char>)
    requires
        m.wf(),
    ensures
        m.push_error(name, message).wf(),
        m.push_error(name, message).extends(m),
{
    let n = m.push_error(name, message);
    lemma_valid_mono(m, n);
    lemma_wf_tables(m, n);
    assert forall|q: int| 0 <= q < n.promises.len() implies n.valid_promise(#[trigger] n.promises[q]) by {
        let s = m.promises[q];
        assert(m.valid_promise(s));
        assert forall|i: int| 0 <= i < s.reactions.len() implies n.valid_reaction(
            #[trigger] s.reactions[i],
        ) by {
            assert(m.valid_reaction(s.reactions[i]));
        }
    }
    assert forall|i: int| 0 <= i < n.jobs.len() implies n.valid_job(#[trigger] n.jobs[i]) by {
        assert(m.valid_job(m.jobs[i]));
    }
    assert forall|i: int| 0 <= i < n.checks.len() implies n.valid_check(#[trigger] n.checks[i]) by {
        assert(m.valid_check(m.checks[i]));
    }
}


pub proof fn lemma_subscribe_wf(m: RuntimeModel, p: PromiseId, r: Reaction)
    requires
        m.wf(),
        p < m.promises.len(),
        m.valid_reaction(r),
    ensures
        m.subscribe(p, r).wf(),
        m.subscribe(p, r).extends(m),
        m.subscribe(p, r).promises.len() == m.promises.len(),
{
    let st = m.promises[p as int];
    assert(m.valid_promise(st));
    match st.outcome {
        Some(o) => {
            let st2 = PromiseModel { handled: true, ..st };
            assert forall|i: int| 0 <= i < st2.reactions.len() implies m.valid_reaction(
                #[trigger] st2.reactions[i],
            ) by {
                assert(st2.reactions[i] == st.reactions[i]);
            }
            lemma_set_promise_wf(m, p, st2);
            let m1 = m.set_promise(p, st2);
            lemma_valid_mono(m, m1);
            lemma_push_job_wf(m1, Job::React { reaction: r, outcome: o });
            lemma_extends_trans(m, m1, m1.push_job(Job::React { reaction: r, outcome: o }));
        },
        None => {
            let st2 = PromiseModel { handled: true, reactions: st.reactions.push(r), ..st };
            assert forall|i: int| 0 <= i < st2.reactions.len() implies m.valid_reaction(
                #[trigger] st2.reactions[i],
            ) by {
                if i < st.reactions.len() {
                    assert(st2.reactions[i] == st.reactions[i]);
                }
            }
            lemma_set_promise_wf(m, p, st2);
        },
    }
}

pub proof fn lemma_settle_wf(m: RuntimeModel, p: PromiseId, o: Outcome)
    requires
        m.wf(),
        p < m.promises.len(),
        m.valid_outcome(o),
    ensures
        m.settle(p, o).wf(),
        m.settle(p, o).extends(m),
        m.settle(p, o).promises.len() == m.promises.len(),
{
    let st = m.promises[p as int];
    if st.outcome is None {
        let n = m.settle(p, o);
        assert(m.valid_promise(st));
        lemma_valid_mono(m, n);
        lemma_wf_tables(m, n);
        assert forall|q: int| 0 <= q < n.promises.len() implies n.valid_promise(#[trigger] n.promises[q]) by {
            if q != p {
                let s = m.promises[q];
                assert(m.valid_promise(s));
                assert forall|i: int| 0 <= i < s.reactions.len() implies n.valid_reaction(
                    #[trigger] s.reactions[i],
                ) by {
                    assert(m.valid_reaction(s.reactions[i]));
                }
            }
        }
        let added = reaction_jobs(st.reactions, o);
        assert forall|i: int| 0 <= i < n.jobs.len() implies n.valid_job(#[trigger] n.jobs[i]) by {
            if i < m.jobs.len() {
                assert(m.valid_job(m.jobs[i]));
            } else {
                let k = i - m.jobs.len();
                assert(n.jobs[i] == added[k]);
                assert(m.valid_reaction(st.reactions[k]));
            }
        }
        assert forall|i: int| 0 <= i < n.checks.len() implies n.valid_check(#[trigger] n.checks[i]) by {
            if i < m.checks.len() {
                assert(m.valid_check(m.checks[i]));
            }
        }
    }
}

pub proof fn lemma_adopt_wf(m: RuntimeModel, p: PromiseId, v: Value)
    requires
        m.wf(),
        p < m.promises.len(),
        m.valid_value(v),
    ensures
        m.adopt(p, v).wf(),
        m.adopt(p, v).extends(m),
        m.adopt(p, v).promises.len() == m.promises.len(),
{
    match v {
        Value::Promise(q) => {
            if q == p {
                lemma_push_error_wf(m, type_error_name(), self_resolution_message());
                let m2 = m.push_error(type_error_name(), self_resolution_message());
                lemma_valid_mono(m, m2);
                let e = Value::Error(m.errors.len() as usize);
                lemma_settle_wf(m2, p, Err(e));
                lemma_extends_trans(m, m2, m2.settle(p, Err(e)));
            } else {
                let j = Job::Subscribe { source: q, reaction: Reaction::Settle(p) };
                lemma_push_job_wf(m, j);
            }
        },
        _ => {
            lemma_settle_wf(m, p, Ok(v));
        },
    }
}

pub proof fn lemma_resolve_once_wf(m: RuntimeModel, p: PromiseId, o: Outcome)
    requires
        m.wf(),
        p < m.promises.len(),
        m.valid_outcome(o),
    ensures
        m.resolve_once(p, o).wf(),
        m.resolve_once(p, o).extends(m),
        m.resolve_once(p, o).promises.len() == m.promises.len(),
{
    let st = m.promises[p as int];
    if !st.resolved {
        let st2 = PromiseModel { resolved: true, ..st };
        assert(m.valid_promise(st));
        assert forall|i: int| 0 <= i < st2.reactions.len() implies m.valid_reaction(
            #[trigger] st2.reactions[i],
        ) by {
            assert(st2.reactions[i] == st.reactions[i]);
        }
        lemma_set_promise_wf(m, p, st2);
        let m1 = m.set_promise(p, st2);
        lemma_valid_mono(m, m1);
        match o {
            Err(e) => {
                lemma_settle_wf(m1, p, Err(e));
                lemma_extends_trans(m, m1, m1.settle(p, Err(e)));
            },
            Ok(v) => {
                lemma_adopt_wf(m1, p, v);
                lemma_extends_trans(m, m1, m1.adopt(p, v));
            },
        }
    }
}

pub proof fn lemma_promise_of_wf(m: RuntimeModel, v: Value)
    requires
        m.wf(),
        m.promises.len() < usize::MAX,
        m.valid_value(v),
    ensures
        m.promise_of(v).0.wf(),
        m.promise_of(v).0.extends(m),
        m.promise_of(v).1 < m.promise_of(v).0.promises.len(),
        m.promise_of(v).0.promises.len() == m.promises.len() + (if v is Promise { 0int } else { 1int }),
{
    match v {
        Value::Promise(q) => {},
        _ => {
            let n = m.promises.len() as usize;
            lemma_pending_wf(m);
            let m1 = m.pending();
            lemma_valid_mono(m, m1);
            lemma_resolve_once_wf(m1, n, Ok(v));
            lemma_extends_trans(m, m1, m1.resolve_once(n, Ok(v)));
        },
    }
}

pub proof fn lemma_rejected_wf(m: RuntimeModel, e: Value)
    requires
        m.wf(),
        m.promises.len() < usize::MAX,
        m.valid_value(e),
    ensures
        m.rejected(e).0.wf(),
        m.rejected(e).0.extends(m),
        m.rejected(e).1 == m.promises.len(),
        m.rejected(e).0.promises.len() == m.promises.len() + 1,
{
    let n = m.promises.len() as usize;
    lemma_pending_wf(m);
    let m1 = m.pending();
    lemma_valid_mono(m, m1);
    lemma_resolve_once_wf(m1, n, Err(e));
    lemma_extends_trans(m, m1, m1.resolve_once(n, Err(e)));
}


pub proof fn lemma_count_none_fresh(n: nat)
    ensures
        count_none(Seq::new(n, |i: int| None::<Value>)) == n,
    decreases n,
{
    if n > 0 {
        let s = Seq::new(n, |i: int| None::<Value>);
        assert(s.drop_last() =~= Seq::new((n - 1) as nat, |i: int| None::<Value>));
        lemma_count_none_fresh((n - 1) as nat);
    }
}

pub proof fn lemma_count_none_fill(s: Seq<Option<Value>>, i: int, v: Value)
    requires
        0 <= i < s.len(),
        s[i] is None,
    ensures
        count_none(s) >= 1,
        count_none(s.update(i, Some(v))) == count_none(s) - 1,
    decreases s.len(),
{
    let t = s.update(i, Some(v));
    if i == s.len() - 1 {
        assert(t.drop_last() =~= s.drop_last());
    } else {
        assert(t.drop_last() =~= s.drop_last().update(i, Some(v)));
        lemma_count_none_fill(s.drop_last(), i, v);
    }
}

pub proof fn lemma_count_none_zero(s: Seq<Option<Value>>)
    requires
        count_none(s) == 0,
    ensures
        forall|i: int| 0 <= i < s.len() ==> #[trigger] s[i] is Some,
    decreases s.len(),
{
    if s.len() > 0 {
        lemma_count_none_zero(s.drop_last());
        assert forall|i: int| 0 <= i < s.len() implies #[trigger] s[i] is Some by {
            if i < s.len() - 1 {
                assert(s[i] == s.drop_last()[i]);
            }
        }
    }
}

/// The invariant's parts on promises, jobs and checks carry over to a model with
/// more entries and the same promises, jobs and checks.
pub proof fn lemma_wf_queue(old: RuntimeModel, new: RuntimeModel)
    requires
        old.wf(),
        new.extends(old),
        new.promises == old.promises,
        new.jobs == old.jobs,
        new.checks == old.checks,
    ensures
        forall|p: int| 0 <= p < new.promises.len() ==> new.valid_promise(#[trigger] new.promises[p]),
        forall|i: int| 0 <= i < new.jobs.len() ==> new.valid_job(#[trigger] new.jobs[i]),
        forall|i: int| 0 <= i < new.checks.len() ==> new.valid_check(#[trigger] new.checks[i]),
{
    lemma_valid_mono(old, new);
    assert forall|q: int| 0 <= q < new.promises.len() implies new.valid_promise(#[trigger] new.promises[q]) by {
        let s = old.promises[q];
        assert(old.valid_promise(s));
        assert forall|i: int| 0 <= i < s.reactions.len() implies new.valid_reaction(
            #[trigger] s.reactions[i],
        ) by {
            assert(old.valid_reaction(s.reactions[i]));
        }
    }
    assert forall|i: int| 0 <= i < new.jobs.len() implies new.valid_job(#[trigger] new.jobs[i]) by {
        assert(old.valid_job(old.jobs[i]));
    }
    assert forall|i: int| 0 <= i < new.checks.len() implies new.valid_check(#[trigger] new.checks[i]) by {
        assert(old.valid_check(old.checks[i]));
    }
}

pub proof fn lemma_push_text_wf(m: RuntimeModel, t: Seq<char>)
    requires
        m.wf(),
    ensures
        m.push_text(t).wf(),
        m.push_text(t).extends(m),
{
    lemma_wf_tables(m, m.push_text(t));
    lemma_wf_queue(m, m.push_text(t));
}

pub proof fn lemma_push_array_wf(m: RuntimeModel, values: Seq<Value>)
    requires
        m.wf(),
        forall|i: int| 0 <= i < values.len() ==> m.valid_value(#[trigger] values[i]),
    ensures
        m.push_array(values).wf(),
        m.push_array(values).extends(m),
{
    let n = m.push_array(values);
    lemma_valid_mono(m, n);
    lemma_wf_queue(m, n);
    assert forall|a: int, i: int| 0 <= a < n.arrays.len() && 0 <= i < n.arrays[a].len()
        implies n.valid_value(#[trigger] n.arrays[a][i]) by {
        if a < m.arrays.len() {
            assert(m.valid_value(m.arrays[a][i]));
        } else {
            assert(m.valid_value(values[i]));
        }
    }
    assert forall|g: int| 0 <= g < n.aggregates.len() implies n.valid_aggregate(
        #[trigger] n.aggregates[g],
    ) by {
        let agg = n.aggregates[g];
        assert(m.valid_aggregate(m.aggregates[g]));
        assert forall|i: int| 0 <= i < agg.slots.len() implies match #[trigger] agg.slots[i] {
            Some(v) => n.valid_value(v),
            None => true,
        } by {
            match agg.slots[i] {
                Some(v) => assert(m.valid_value(v)),
                None => {},
            }
        }
    }
}

pub proof fn lemma_push_aggregate_wf(m: RuntimeModel, k: nat)
    requires
        m.wf(),
    ensures
        m.push_aggregate(k).wf(),
        m.push_aggregate(k).extends(m),
        m.push_aggregate(k).aggregates[m.aggregates.len() as int].slots.len() == k,
{
    let n = m.push_aggregate(k);
    lemma_valid_mono(m, n);
    lemma_wf_queue(m, n);
    lemma_count_none_fresh(k);
    assert forall|a: int, i: int| 0 <= a < n.arrays.len() && 0 <= i < n.arrays[a].len()
        implies n.valid_value(#[trigger] n.arrays[a][i]) by {
        assert(m.valid_value(m.arrays[a][i]));
    }
    assert forall|g: int| 0 <= g < n.aggregates.len() implies n.valid_aggregate(
        #[trigger] n.aggregates[g],
    ) by {
        let agg = n.aggregates[g];
        if g < m.aggregates.len() {
            assert(m.valid_aggregate(m.aggregates[g]));
            assert forall|i: int| 0 <= i < agg.slots.len() implies match #[trigger] agg.slots[i] {
                Some(v) => n.valid_value(v),
                None => true,
            } by {
                match agg.slots[i] {
                    Some(v) => assert(m.valid_value(v)),
                    None => {},
                }
            }
        }
    }
}


pub proof fn lemma_fill_slot_wf(m: RuntimeModel, g: usize, index: usize, v: Value)
    requires
        m.wf(),
        g < m.aggregates.len(),
        index < m.aggregates[g as int].slots.len(),
        m.aggregates[g as int].slots[index as int] is None,
        m.valid_value(v),
    ensures
        m.fill_slot(g, index, v).wf(),
        m.fill_slot(g, index, v).extends(m),
        m.aggregates[g as int].remaining >= 1,
{
    let agg = m.aggregates[g as int];
    assert(m.valid_aggregate(agg));
    lemma_count_none_fill(agg.slots, index as int, v);
    let m1 = m.fill_slot(g, index, v);
    assert(m1.extends(m));
    lemma_valid_mono(m, m1);
    lemma_wf_queue(m, m1);
    assert forall|a: int, i: int| 0 <= a < m1.arrays.len() && 0 <= i < m1.arrays[a].len()
        implies m1.valid_value(#[trigger] m1.arrays[a][i]) by {
        assert(m.valid_value(m.arrays[a][i]));
    }
    assert forall|h: int| 0 <= h < m1.aggregates.len() implies m1.valid_aggregate(
        #[trigger] m1.aggregates[h],
    ) by {
        let a = m1.aggregates[h];
        if h != g {
            assert(m.valid_aggregate(m.aggregates[h]));
        }
        assert forall|i: int| 0 <= i < a.slots.len() implies match #[trigger] a.slots[i] {
            Some(w) => m1.valid_value(w),
            None => true,
        } by {
            if h != g || i != index {
                match a.slots[i] {
                    Some(w) => {
                        assert(m.aggregates[h].slots[i] == a.slots[i]);
                        assert(m.valid_value(w));
                    },
                    None => {},
                }
            }
        }
    }
}

pub proof fn lemma_fill_wf(m: RuntimeModel, target: PromiseId, g: usize, index: usize, v: Value)
    requires
        m.wf(),
        target < m.promises.len(),
        g < m.aggregates.len(),
        index < m.aggregates[g as int].slots.len(),
        m.valid_value(v),
    ensures
        m.fill(target, g, index, v).wf(),
        m.fill(target, g, index, v).extends(m),
        m.fill(target, g, index, v).promises.len() == m.promises.len(),
{
    if m.aggregates[g as int].slots[index as int] is None {
        lemma_fill_slot_wf(m, g, index, v);
        let m1 = m.fill_slot(g, index, v);
        let agg2 = m1.aggregates[g as int];
        if agg2.remaining == 0 {
            assert(m1.valid_aggregate(agg2));
            lemma_count_none_zero(agg2.slots);
            let vals = slot_values(agg2.slots);
            assert forall|i: int| 0 <= i < vals.len() implies m1.valid_value(#[trigger] vals[i]) by {
                assert(agg2.slots[i] is Some);
            }
            lemma_push_array_wf(m1, vals);
            let m2 = m1.push_array(vals);
            lemma_extends_trans(m, m1, m2);
            lemma_resolve_once_wf(m2, target, Ok(Value::Array(m1.arrays.len() as usize)));
            lemma_extends_trans(m, m2, m2.resolve_once(target, Ok(Value::Array(m1.arrays.len() as usize))));
        }
    }
}

pub proof fn lemma_chain_wf(m: RuntimeModel, p: PromiseId, success: Option<Value>, failure: Option<Value>)
    requires
        m.wf(),
        p < m.promises.len(),
        m.promises.len() < usize::MAX,
        m.valid_handler(success),
        m.valid_handler(failure),
    ensures
        m.chain(p, success, failure).0.wf(),
        m.chain(p, success, failure).0.extends(m),
        m.chain(p, success, failure).1 == m.promises.len(),
        m.chain(p, success, failure).0.promises.len() == m.promises.len() + 1,
{
    let n = m.promises.len() as usize;
    lemma_pending_wf(m);
    let m1 = m.pending();
    lemma_valid_mono(m, m1);
    let r = Reaction::Chain { target: n, success, failure };
    lemma_subscribe_wf(m1, p, r);
    lemma_extends_trans(m, m1, m1.subscribe(p, r));
}

pub proof fn lemma_finally_wf(m: RuntimeModel, p: PromiseId, effect: Value)
    requires
        m.wf(),
        p < m.promises.len(),
        m.promises.len() < usize::MAX,
        m.valid_value(effect),
    ensures
        m.finally(p, effect).0.wf(),
        m.finally(p, effect).0.extends(m),
        m.finally(p, effect).1 == m.promises.len(),
        m.finally(p, effect).0.promises.len() == m.promises.len() + 1,
{
    let n = m.promises.len() as usize;
    lemma_pending_wf(m);
    let m1 = m.pending();
    lemma_valid_mono(m, m1);
    let r = Reaction::Finally { target: n, effect };
    lemma_subscribe_wf(m1, p, r);
    lemma_extends_trans(m, m1, m1.subscribe(p, r));
}


/// Changing only the queue, the checks or the awaited callback, to valid ones,
/// keeps the invariant.
pub proof fn lemma_queue_change_wf(m: RuntimeModel, n: RuntimeModel)
    requires
        m.wf(),
        n.promises == m.promises,
        n.texts == m.texts,
        n.arrays == m.arrays,
        n.errors == m.errors,
        n.aggregates == m.aggregates,
        forall|i: int| 0 <= i < n.jobs.len() ==> m.valid_job(#[trigger] n.jobs[i]),
        forall|i: int| 0 <= i < n.checks.len() ==> m.valid_check(#[trigger] n.checks[i]),
        m.valid_pending(n.pending),
    ensures
        n.wf(),
        n.extends(m),
{
    assert(n.extends(m));
    lemma_valid_mono(m, n);
    assert forall|q: int| 0 <= q < n.promises.len() implies n.valid_promise(#[trigger] n.promises[q]) by {
        let s = m.promises[q];
        assert(m.valid_promise(s));
        assert forall|i: int| 0 <= i < s.reactions.len() implies n.valid_reaction(
            #[trigger] s.reactions[i],
        ) by {
            assert(m.valid_reaction(s.reactions[i]));
        }
    }
    assert forall|i: int| 0 <= i < n.jobs.len() implies n.valid_job(#[trigger] n.jobs[i]) by {
        assert(m.valid_job(n.jobs[i]));
    }
    assert forall|i: int| 0 <= i < n.checks.len() implies n.valid_check(#[trigger] n.checks[i]) by {
        assert(m.valid_check(n.checks[i]));
    }
    assert forall|a: int, i: int| 0 <= a < n.arrays.len() && 0 <= i < n.arrays[a].len()
        implies n.valid_value(#[trigger] n.arrays[a][i]) by {
        assert(m.valid_value(m.arrays[a][i]));
    }
    assert forall|g: int| 0 <= g < n.aggregates.len() implies n.valid_aggregate(
        #[trigger] n.aggregates[g],
    ) by {
        let agg = n.aggregates[g];
        assert(m.valid_aggregate(m.aggregates[g]));
        assert forall|i: int| 0 <= i < agg.slots.len() implies match #[trigger] agg.slots[i] {
            Some(v) => n.valid_value(v),
            None => true,
        } by {
            match agg.slots[i] {
                Some(v) => assert(m.valid_value(v)),
                None => {},
            }
        }
    }
}

} // verus!
