use vstd::prelude::*;

use crate::runtime::Runtime;
use crate::value::{Outcome, PromiseId, Value};

verus! {

/// The promise behind a value known to be one, as a promise value must be
/// where the operations below expect a promise.
pub open spec fn promise_arg(rt: &Runtime, v: Value) -> bool {
    v is Promise && v->Promise_0 < rt@.promises.len()
}

/// Runs `action`; what it throws becomes `Err`. The host wraps each callback
/// that it runs for the runtime (handlers, effects, executors) this way.
pub fn promise_try<F: FnOnce() -> Outcome>(action: F) -> (o: Outcome)
    requires
        action.requires(()),
    ensures
        action.ensures((), o),
{
    action()
}

/// `Promise.resolve`: a promise value is returned as it is; any other value
/// gives a new promise fulfilled with it.
pub fn Promise_Internal_resolve(rt: &mut Runtime, value: Value) -> (p: PromiseId)
    requires
        old(rt).wf(),
        old(rt)@.valid_value(value),
    ensures
        (final(rt)@, p) == old(rt)@.promise_of(value),
        p < final(rt)@.promises.len(),
        final(rt).wf(),
{
    rt.promise_of(value)
}

/// `Promise.reject`: a new promise rejected with `error`.
pub fn Promise_Internal_reject(rt: &mut Runtime, error: Value) -> (p: PromiseId)
    requires
        old(rt).wf(),
        old(rt)@.valid_value(error),
    ensures
        (final(rt)@, p) == old(rt)@.rejected(error),
        p == old(rt)@.promises.len(),
        final(rt).wf(),
{
    rt.rejected(error)
}

/// A promise under construction and the two resolving functions to hand its
/// executor.
pub struct Executor {
    pub promise: PromiseId,
    pub resolve: Value,
    pub reject: Value,
}

/// `new Promise(executor)`, first half: a new pending promise and its resolving
/// functions. The host runs the executor at once with them, through
/// `promise_try`, and hands the result to `Promise_Internal_new_returned`.
pub fn Promise_Internal_new(rt: &mut Runtime) -> (ex: Executor)
    requires
        old(rt).wf(),
    ensures
        final(rt)@ == old(rt)@.pending(),
        ex.promise == old(rt)@.promises.len(),
        ex.resolve == Value::Resolver(ex.promise, false),
        ex.reject == Value::Resolver(ex.promise, true),
        final(rt).wf(),
{
    let p = rt.pending();
    Executor { promise: p, resolve: Value::Resolver(p, false), reject: Value::Resolver(p, true) }
}

/// `new Promise(executor)`, second half: an executor that threw rejects its
/// promise, unless one of its resolving functions was called first.
pub fn Promise_Internal_new_returned(rt: &mut Runtime, ex: &Executor, result: Outcome)
    requires
        old(rt).wf(),
        ex.promise < old(rt)@.promises.len(),
        old(rt)@.valid_outcome(result),
    ensures
        final(rt)@ == (match result {
            Err(e) => old(rt)@.resolve_once(ex.promise, Err(e)),
            Ok(_) => old(rt)@,
        }),
        final(rt).wf(),
{
    match result {
        Err(e) => rt.resolve_once(ex.promise, Err(e)),
        Ok(_) => {},
    }
}

/// `promise.then(handler)`.
pub fn Promise_Internal_then_(rt: &mut Runtime, handler: Value, promise: Value) -> (r: Value)
    requires
        old(rt).wf(),
        promise_arg(old(rt), promise),
        old(rt)@.valid_value(handler),
    ensures
        final(rt)@ == old(rt)@.chain(promise->Promise_0, Some(handler), None).0,
        r == Value::Promise(old(rt)@.chain(promise->Promise_0, Some(handler), None).1),
        final(rt).wf(),
{
    let p = match promise {
        Value::Promise(p) => p,
        _ => 0,
    };
    Value::Promise(rt.chain(p, Some(handler), None))
}

/// `promise.then(success, failure)`.
pub fn Promise_Internal_thenOrCatch(
    rt: &mut Runtime,
    success: Value,
    failure: Value,
    promise: Value,
) -> (r: Value)
    requires
        old(rt).wf(),
        promise_arg(old(rt), promise),
        old(rt)@.valid_value(success),
        old(rt)@.valid_value(failure),
    ensures
        final(rt)@ == old(rt)@.chain(promise->Promise_0, Some(success), Some(failure)).0,
        r == Value::Promise(old(rt)@.chain(promise->Promise_0, Some(success), Some(failure)).1),
        final(rt).wf(),
{
    let p = match promise {
        Value::Promise(p) => p,
        _ => 0,
    };
    Value::Promise(rt.chain(p, Some(success), Some(failure)))
}

/// `promise.catch(handler)`.
pub fn Promise_Internal_catch(rt: &mut Runtime, handler: Value, promise: Value) -> (r: Value)
    requires
        old(rt).wf(),
        promise_arg(old(rt), promise),
        old(rt)@.valid_value(handler),
    ensures
        final(rt)@ == old(rt)@.chain(promise->Promise_0, None, Some(handler)).0,
        r == Value::Promise(old(rt)@.chain(promise->Promise_0, None, Some(handler)).1),
        final(rt).wf(),
{
    let p = match promise {
        Value::Promise(p) => p,
        _ => 0,
    };
    Value::Promise(rt.chain(p, None, Some(handler)))
}

/// `promise.finally(effect)`: once `promise` settles, `effect` runs; the result
/// waits for what `effect` returns and then keeps `promise`'s outcome, unless
/// `effect` throws or its promise rejects.
pub fn Promise_Internal_finally(rt: &mut Runtime, effect: Value, promise: Value) -> (r: Value)
    requires
        old(rt).wf(),
        promise_arg(old(rt), promise),
        old(rt)@.valid_value(effect),
    ensures
        final(rt)@ == old(rt)@.finally(promise->Promise_0, effect).0,
        r == Value::Promise(old(rt)@.finally(promise->Promise_0, effect).1),
        final(rt).wf(),
{
    let p = match promise {
        Value::Promise(p) => p,
        _ => 0,
    };
    Value::Promise(rt.finally(p, effect))
}

/// `Promise.all(array)`.
pub fn Promise_Internal_all(rt: &mut Runtime, array: Value) -> (r: Value)
    requires
        old(rt).wf(),
        array is Array,
        old(rt)@.valid_value(array),
    ensures
        final(rt)@ == old(rt)@.all(array->Array_0).0,
        r == Value::Promise(old(rt)@.all(array->Array_0).1),
        final(rt).wf(),
{
    let a = match array {
        Value::Array(a) => a,
        _ => 0,
    };
    Value::Promise(rt.all(a))
}

/// `Promise.race(array)`.
pub fn Promise_Internal_race(rt: &mut Runtime, array: Value) -> (r: Value)
    requires
        old(rt).wf(),
        array is Array,
        old(rt)@.valid_value(array),
    ensures
        final(rt)@ == old(rt)@.race(array->Array_0).0,
        r == Value::Promise(old(rt)@.race(array->Array_0).1),
        final(rt).wf(),
{
    let a = match array {
        Value::Array(a) => a,
        _ => 0,
    };
    Value::Promise(rt.race(a))
}

} // verus!
