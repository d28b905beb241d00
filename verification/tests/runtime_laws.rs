use std::cell::RefCell;
use std::rc::Rc;

use js_promise::internal::{
    promise_try, Promise_Internal_all, Promise_Internal_catch, Promise_Internal_finally,
    Promise_Internal_new, Promise_Internal_new_returned, Promise_Internal_race,
    Promise_Internal_reject, Promise_Internal_resolve, Promise_Internal_then_,
};
use js_promise::job::{Reaction, Step};
use js_promise::rejection::{Promise_Rejection__toError, Promise_Rejection_fromError};
use js_promise::runtime::Runtime;
use js_promise::value::{Outcome, PromiseId, Value};

type Func = Rc<dyn Fn(&mut Runtime, Value) -> Outcome>;

/// Runs the checkpoint to its end with the given host functions; subscribers
/// log `(listener, outcome)`.
fn drain(
    rt: &mut Runtime,
    funcs: &[Func],
    heard: &RefCell<Vec<(u64, Outcome)>>,
) -> Result<(), Value> {
    loop {
        match rt.step() {
            Step::Idle => return Ok(()),
            Step::Progress => {}
            Step::Call { func, arg } => {
                let result = match func {
                    Value::Func(id) => {
                        let f = funcs[id as usize].clone();
                        promise_try(|| f(rt, arg))
                    }
                    _ => Ok(rt.call_resolver(func, arg)),
                };
                rt.complete(result);
            }
            Step::Notify { listener, outcome } => {
                heard.borrow_mut().push((listener, outcome));
                rt.complete(Ok(Value::Unit));
            }
            Step::Raise(error) => return Err(error),
        }
    }
}

fn fulfilled(rt: &mut Runtime, n: i64) -> Value {
    Value::Promise(Promise_Internal_resolve(rt, Value::Int(n)))
}

fn id(v: Value) -> PromiseId {
    match v {
        Value::Promise(p) => p,
        _ => panic!("not a promise"),
    }
}

#[test]
fn settling_twice_keeps_the_first_outcome() {
    let mut rt = Runtime::new();
    let p = rt.pending();
    rt.settle(p, Ok(Value::Int(1)));
    rt.settle(p, Err(Value::Int(2)));
    rt.settle(p, Ok(Value::Int(3)));
    assert_eq!(rt.outcome(p), Some(Ok(Value::Int(1))));
}

#[test]
fn an_executor_that_throws_after_resolving_stays_fulfilled() {
    let mut rt = Runtime::new();
    let ex = Promise_Internal_new(&mut rt);
    assert_eq!(ex.resolve, Value::Resolver(ex.promise, false));
    assert_eq!(ex.reject, Value::Resolver(ex.promise, true));
    assert_eq!(rt.call_resolver(ex.resolve, Value::Int(5)), Value::Unit);
    let error = rt.new_error("late".to_owned());
    Promise_Internal_new_returned(&mut rt, &ex, Err(error));
    assert_eq!(rt.outcome(ex.promise), Some(Ok(Value::Int(5))));
}

#[test]
fn an_executor_that_throws_first_rejects() {
    let mut rt = Runtime::new();
    let ex = Promise_Internal_new(&mut rt);
    let error = rt.new_error("early".to_owned());
    Promise_Internal_new_returned(&mut rt, &ex, Err(error));
    assert_eq!(rt.outcome(ex.promise), Some(Err(error)));
    rt.call_resolver(ex.resolve, Value::Int(1));
    assert_eq!(rt.outcome(ex.promise), Some(Err(error)));
}

#[test]
fn self_resolution_error_names_the_cause() {
    let mut rt = Runtime::new();
    let p = rt.pending();
    rt.resolve_once(p, Ok(Value::Promise(p)));
    match rt.outcome(p) {
        Some(Err(Value::Error(e))) => {
            assert_eq!(rt.error_name(e), "TypeError");
            assert_eq!(rt.error_message(e), "A Promise cannot resolve to itself");
        }
        other => panic!("unexpected {:?}", other),
    }
}

#[test]
fn resolve_returns_a_promise_as_it_is_and_wraps_other_values() {
    let mut rt = Runtime::new();
    let p = rt.pending();
    assert_eq!(Promise_Internal_resolve(&mut rt, Value::Promise(p)), p);
    let q = Promise_Internal_resolve(&mut rt, Value::Int(7));
    assert_ne!(q, p);
    assert_eq!(rt.outcome(q), Some(Ok(Value::Int(7))));
    let r = Promise_Internal_reject(&mut rt, Value::Int(8));
    assert_eq!(rt.outcome(r), Some(Err(Value::Int(8))));
}

#[test]
fn subscribers_hear_in_registration_order() {
    let mut rt = Runtime::new();
    let heard = RefCell::new(Vec::new());
    let p = rt.pending();
    for l in [10, 11, 12] {
        rt.listen(p, l);
    }
    assert!(!rt.has_jobs());
    rt.resolve_once(p, Ok(Value::Int(4)));
    assert!(rt.has_jobs());
    drain(&mut rt, &[], &heard).unwrap();
    let order: Vec<u64> = heard.borrow().iter().map(|(l, _)| *l).collect();
    assert_eq!(order, vec![10, 11, 12]);
    assert!(heard.borrow().iter().all(|(_, o)| *o == Ok(Value::Int(4))));
}

#[test]
fn a_handler_is_asked_for_and_nothing_runs_until_it_completes() {
    let mut rt = Runtime::new();
    let one = fulfilled(&mut rt, 1);
    let chained = id(Promise_Internal_then_(&mut rt, Value::Func(3), one));
    assert_eq!(rt.step(), Step::Call { func: Value::Func(3), arg: Value::Int(1) });
    assert!(rt.awaiting());
    assert_eq!(rt.step(), Step::Idle);
    rt.complete(Ok(Value::Int(2)));
    assert!(!rt.awaiting());
    assert_eq!(rt.outcome(chained), Some(Ok(Value::Int(2))));
}

#[test]
fn no_job_runs_inside_a_turn() {
    let mut rt = Runtime::new();
    let p = rt.pending();
    rt.listen(p, 1);
    rt.begin_turn();
    rt.resolve_once(p, Ok(Value::Unit));
    assert_eq!(rt.step(), Step::Idle);
    assert!(rt.has_jobs());
    rt.end_turn();
    assert_eq!(rt.step(), Step::Notify { listener: 1, outcome: Ok(Value::Unit) });
}

#[test]
fn catch_passes_a_fulfilment_through_and_then_passes_a_rejection_through() {
    let mut rt = Runtime::new();
    let heard = RefCell::new(Vec::new());
    let one = fulfilled(&mut rt, 1);
    let caught = id(Promise_Internal_catch(&mut rt, Value::Func(0), one));
    let bad = Value::Promise(Promise_Internal_reject(&mut rt, Value::Int(9)));
    let skipped = id(Promise_Internal_then_(&mut rt, Value::Func(0), bad));
    rt.listen(skipped, 0);
    let never: Func = Rc::new(|_, _| panic!("no handler should run"));
    drain(&mut rt, &[never], &heard).unwrap();
    assert_eq!(rt.outcome(caught), Some(Ok(Value::Int(1))));
    assert_eq!(rt.outcome(skipped), Some(Err(Value::Int(9))));
}

#[test]
fn finally_takes_the_effects_exception() {
    let mut rt = Runtime::new();
    let heard = RefCell::new(Vec::new());
    let boom = rt.new_error("cleanup failed".to_owned());
    let effect: Func = Rc::new(move |_, _| Err(boom));
    let one = fulfilled(&mut rt, 1);
    let p = id(Promise_Internal_finally(&mut rt, Value::Func(0), one));
    rt.listen(p, 0);
    drain(&mut rt, &[effect], &heard).unwrap();
    assert_eq!(rt.outcome(p), Some(Err(boom)));
}

#[test]
fn finally_with_a_plain_value_keeps_the_outcome() {
    let mut rt = Runtime::new();
    let heard = RefCell::new(Vec::new());
    let effect: Func = Rc::new(|_, _| Ok(Value::Int(100)));
    let one = fulfilled(&mut rt, 1);
    let p = id(Promise_Internal_finally(&mut rt, Value::Func(0), one));
    rt.listen(p, 0);
    drain(&mut rt, &[effect], &heard).unwrap();
    assert_eq!(rt.outcome(p), Some(Ok(Value::Int(1))));
}

#[test]
fn all_rejects_with_the_first_rejection_to_settle() {
    let mut rt = Runtime::new();
    let heard = RefCell::new(Vec::new());
    let a = rt.pending();
    let b = rt.pending();
    let c = fulfilled(&mut rt, 3);
    let array = rt.new_array(vec![Value::Promise(a), Value::Promise(b), c, Value::Int(4)]);
    let all = id(Promise_Internal_all(&mut rt, array));
    rt.listen(all, 0);
    rt.resolve_once(b, Err(Value::Int(20)));
    rt.resolve_once(a, Err(Value::Int(10)));
    drain(&mut rt, &[], &heard).unwrap();
    assert_eq!(rt.outcome(all), Some(Err(Value::Int(20))));
}

#[test]
fn all_of_plain_values_keeps_their_order() {
    let mut rt = Runtime::new();
    let heard = RefCell::new(Vec::new());
    let late = rt.pending();
    let array = rt.new_array(vec![Value::Int(1), Value::Promise(late), Value::Int(3)]);
    let all = id(Promise_Internal_all(&mut rt, array));
    drain(&mut rt, &[], &heard).unwrap();
    assert_eq!(rt.outcome(all), None);
    rt.resolve_once(late, Ok(Value::Int(2)));
    drain(&mut rt, &[], &heard).unwrap();
    match rt.outcome(all) {
        Some(Ok(Value::Array(a))) => {
            assert_eq!(rt.array(a), &vec![Value::Int(1), Value::Int(2), Value::Int(3)])
        }
        other => panic!("unexpected {:?}", other),
    }
}

#[test]
fn race_takes_the_first_settlement() {
    let mut rt = Runtime::new();
    let heard = RefCell::new(Vec::new());
    let a = rt.pending();
    let b = rt.pending();
    let array = rt.new_array(vec![Value::Promise(a), Value::Promise(b)]);
    let race = id(Promise_Internal_race(&mut rt, array));
    rt.resolve_once(a, Err(Value::Int(1)));
    rt.resolve_once(b, Ok(Value::Int(2)));
    rt.listen(race, 0);
    drain(&mut rt, &[], &heard).unwrap();
    assert_eq!(rt.outcome(race), Some(Err(Value::Int(1))));
}

#[test]
fn an_uncaught_string_rejection_becomes_a_named_error() {
    let mut rt = Runtime::new();
    let heard = RefCell::new(Vec::new());
    let text = rt.new_text("oops".to_owned());
    Promise_Internal_reject(&mut rt, text);
    match drain(&mut rt, &[], &heard) {
        Err(Value::Error(e)) => {
            assert_eq!(rt.error_name(e), "Error");
            assert_eq!(rt.error_message(e), "Unhandled Promise rejection: oops");
        }
        other => panic!("unexpected {:?}", other),
    }
    assert_eq!(drain(&mut rt, &[], &heard), Ok(()));
}

#[test]
fn an_uncaught_plain_rejection_becomes_a_generic_error() {
    let mut rt = Runtime::new();
    let heard = RefCell::new(Vec::new());
    Promise_Internal_reject(&mut rt, Value::Int(5));
    match drain(&mut rt, &[], &heard) {
        Err(Value::Error(e)) => {
            assert_eq!(rt.error_message(e), "Unhandled Promise rejection (non-Error value)")
        }
        other => panic!("unexpected {:?}", other),
    }
}

#[test]
fn a_handled_rejection_is_quiet() {
    let mut rt = Runtime::new();
    let heard = RefCell::new(Vec::new());
    let p = Promise_Internal_reject(&mut rt, Value::Int(5));
    rt.listen(p, 0);
    assert!(rt.is_handled(p));
    assert_eq!(drain(&mut rt, &[], &heard), Ok(()));
}

#[test]
fn to_error_recognises_only_native_errors() {
    let mut rt = Runtime::new();
    let error = rt.new_error("x".to_owned());
    let text = rt.new_text("x".to_owned());
    assert_eq!(Promise_Rejection_fromError(error), error);
    assert_eq!(Promise_Rejection__toError(Promise_Rejection_fromError(error)), Some(error));
    assert_eq!(Promise_Rejection__toError(text), None);
    assert_eq!(Promise_Rejection__toError(Value::Int(1)), None);
}

#[test]
fn handles_are_checked_against_the_tables() {
    let mut rt = Runtime::new();
    assert!(!rt.is_valid_value(Value::Promise(0)));
    let p = rt.pending();
    assert!(rt.is_valid_value(Value::Promise(p)));
    assert!(rt.is_valid_value(Value::Int(3)));
    assert!(!rt.is_valid_value(Value::Text(0)));
    assert_eq!(rt.promise_count(), 1);
}

#[test]
fn a_subscription_after_settling_is_queued_at_once() {
    let mut rt = Runtime::new();
    let p = Promise_Internal_resolve(&mut rt, Value::Int(1));
    assert!(!rt.has_jobs());
    rt.subscribe(p, Reaction::Listen(7));
    assert_eq!(rt.step(), Step::Notify { listener: 7, outcome: Ok(Value::Int(1)) });
}
