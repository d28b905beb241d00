use std::cell::{Cell, RefCell};
use std::rc::Rc;

use js_promise::internal::{
    promise_try, Promise_Internal_all, Promise_Internal_catch, Promise_Internal_finally,
    Promise_Internal_new, Promise_Internal_new_returned, Promise_Internal_race,
    Promise_Internal_reject, Promise_Internal_resolve, Promise_Internal_thenOrCatch,
    Promise_Internal_then_,
};
use js_promise::job::Step;
use js_promise::runtime::Runtime;
use js_promise::value::{Outcome, PromiseId, Value};

type Func = Rc<dyn Fn(&mut Runtime, Value) -> Outcome>;
type Listener = Rc<dyn Fn(&mut Runtime, Outcome)>;

/// The host side of the runtime: the functions and subscribers it calls back.
struct Host {
    funcs: RefCell<Vec<Func>>,
    listeners: RefCell<Vec<Listener>>,
}

impl Host {
    fn new() -> Rc<Host> {
        Rc::new(Host { funcs: RefCell::new(Vec::new()), listeners: RefCell::new(Vec::new()) })
    }

    fn func(&self, f: impl Fn(&mut Runtime, Value) -> Outcome + 'static) -> Value {
        let mut funcs = self.funcs.borrow_mut();
        funcs.push(Rc::new(f));
        Value::Func((funcs.len() - 1) as u64)
    }

    fn listener(&self, f: impl Fn(&mut Runtime, Outcome) + 'static) -> u64 {
        let mut listeners = self.listeners.borrow_mut();
        listeners.push(Rc::new(f));
        (listeners.len() - 1) as u64
    }
}

fn call(rt: &mut Runtime, host: &Host, func: Value, arg: Value) -> Outcome {
    match func {
        Value::Func(id) => {
            let f = host.funcs.borrow()[id as usize].clone();
            promise_try(|| f(rt, arg))
        }
        Value::Resolver(_, _) => Ok(rt.call_resolver(func, arg)),
        _ => panic!("not a function"),
    }
}

/// Runs the checkpoint to its end; an uncaught rejection comes back as `Err`.
fn drain(rt: &mut Runtime, host: &Host) -> Result<(), Value> {
    loop {
        match rt.step() {
            Step::Idle => return Ok(()),
            Step::Progress => {}
            Step::Call { func, arg } => {
                let result = call(rt, host, func, arg);
                rt.complete(result);
            }
            Step::Notify { listener, outcome } => {
                let l = host.listeners.borrow()[listener as usize].clone();
                l(rt, outcome);
                rt.complete(Ok(Value::Unit));
            }
            Step::Raise(error) => return Err(error),
        }
    }
}

fn value(n: i64) -> Value {
    Value::Int(n)
}

fn boxed(rt: &mut Runtime, n: i64) -> Value {
    Value::Promise(Promise_Internal_resolve(rt, value(n)))
}

fn promise(v: Value) -> PromiseId {
    match v {
        Value::Promise(p) => p,
        _ => panic!("not a promise"),
    }
}

fn int_of(v: Value) -> i64 {
    match v {
        Value::Int(n) => n,
        _ => panic!("not an int"),
    }
}

fn success(rt: &Runtime, p: PromiseId) -> Value {
    match rt.outcome(p) {
        Some(Ok(v)) => v,
        _ => panic!("not fulfilled"),
    }
}

fn failure(rt: &mut Runtime, p: PromiseId) -> Value {
    rt.mark_handled(p);
    match rt.outcome(p) {
        Some(Err(v)) => v,
        _ => panic!("not rejected"),
    }
}

fn error_name(rt: &Runtime, v: Value) -> String {
    match v {
        Value::Error(e) => rt.error_name(e).clone(),
        _ => panic!("not an error"),
    }
}

fn in_loop(test: impl FnOnce(&mut Runtime, &Rc<Host>)) {
    let mut rt = Runtime::new();
    let host = Host::new();
    test(&mut rt, &host);
    drain(&mut rt, &host).unwrap();
    assert!(!rt.has_jobs());
}

const EXPECTED_TRACE: [&str; 9] =
    ["sync", "then", "finally", "marker", "all", "race", "adopted", "chain", "after-finally"];

#[test]
fn reaction_order_matches_the_original_javascript_ffi() {
    in_loop(|rt, host| {
        let trace: Rc<RefCell<Vec<&'static str>>> = Rc::new(RefCell::new(Vec::new()));
        let record = |label: &'static str| {
            let trace = trace.clone();
            host.func(move |rt, _| {
                trace.borrow_mut().push(label);
                Ok(Value::Promise(Promise_Internal_resolve(rt, Value::Unit)))
            })
        };
        let p = Value::Promise(Promise_Internal_resolve(rt, value(1)));
        let h = record("then");
        let then = Promise_Internal_then_(rt, h, p);
        let h = record("chain");
        Promise_Internal_then_(rt, h, then);
        let h = record("finally");
        let finally = Promise_Internal_finally(rt, h, p);
        let h = record("after-finally");
        Promise_Internal_then_(rt, h, finally);
        let nine = Value::Promise(Promise_Internal_resolve(rt, value(9)));
        let h = record("marker");
        Promise_Internal_then_(rt, h, nine);
        let two = boxed(rt, 2);
        let array = rt.new_array(vec![p, two]);
        let all = Promise_Internal_all(rt, array);
        let h = record("all");
        Promise_Internal_then_(rt, h, all);
        let race = Promise_Internal_race(rt, array);
        let h = record("race");
        Promise_Internal_then_(rt, h, race);
        let adopted = rt.pending();
        rt.resolve_once(adopted, Ok(p));
        let h = record("adopted");
        Promise_Internal_then_(rt, h, Value::Promise(adopted));
        trace.borrow_mut().push("sync");
        drain(rt, host).unwrap();
        assert_eq!(*trace.borrow(), EXPECTED_TRACE.to_vec());
    });
}

#[test]
fn executor_is_immediate_reactions_are_fifo_after_the_turn() {
    in_loop(|rt, host| {
        let log = Rc::new(RefCell::new(Vec::new()));
        rt.begin_turn();
        let ex = Promise_Internal_new(rt);
        let seen = log.clone();
        let result = promise_try(|| {
            seen.borrow_mut().push(1);
            rt.call_resolver(ex.resolve, value(42));
            rt.call_resolver(ex.reject, value(99));
            rt.call_resolver(ex.resolve, value(100));
            seen.borrow_mut().push(2);
            Ok(Value::Unit)
        });
        Promise_Internal_new_returned(rt, &ex, result);
        let p = ex.promise;
        for index in [3, 4] {
            let log = log.clone();
            let h = host.func(move |rt, v| {
                assert_eq!(int_of(v), 42);
                log.borrow_mut().push(index);
                Ok(boxed(rt, index))
            });
            Promise_Internal_then_(rt, h, Value::Promise(p));
        }
        drain(rt, host).unwrap(); // A checkpoint inside a turn must not run reactions.
        assert_eq!(*log.borrow(), vec![1, 2]);
        rt.end_turn();
        drain(rt, host).unwrap();
        assert_eq!(*log.borrow(), vec![1, 2, 3, 4]);
        assert_eq!(int_of(success(rt, p)), 42);
    });
}

#[test]
fn nested_jobs_follow_existing_jobs_and_do_not_reenter() {
    in_loop(|rt, host| {
        let log = Rc::new(RefCell::new(Vec::new()));
        let p = Promise_Internal_resolve(rt, value(1));
        let seen = log.clone();
        let reenter = host.clone();
        let seen3 = log.clone();
        let third = host.listener(move |_, _| seen3.borrow_mut().push(3));
        let first = host.listener(move |rt, _| {
            seen.borrow_mut().push(1);
            rt.listen(p, third);
            drain(rt, &reenter).unwrap();
            assert_eq!(*seen.borrow(), vec![1]);
        });
        rt.listen(p, first);
        let seen = log.clone();
        let second = host.listener(move |_, _| seen.borrow_mut().push(2));
        rt.listen(p, second);
        drain(rt, host).unwrap();
        assert_eq!(*log.borrow(), vec![1, 2, 3]);
    });
}

#[test]
fn adopting_a_pending_promise_locks_out_later_settlement() {
    in_loop(|rt, host| {
        let source = rt.pending();
        let p = rt.pending();
        rt.resolve_once(p, Ok(Value::Promise(source)));
        rt.resolve_once(p, Err(value(99)));
        assert!(rt.outcome(p).is_none());
        drain(rt, host).unwrap();
        rt.resolve_once(source, Ok(value(42)));
        drain(rt, host).unwrap();
        assert_eq!(int_of(success(rt, p)), 42);
        assert_eq!(p, Promise_Internal_resolve(rt, Value::Promise(p)));
    });
}

#[test]
fn direct_and_handler_self_resolution_reject_as_type_error() {
    in_loop(|rt, host| {
        let p = rt.pending();
        rt.resolve_once(p, Ok(Value::Promise(p)));
        let err = failure(rt, p);
        assert_eq!(error_name(rt, err), "TypeError");
        let slot: Rc<Cell<Option<PromiseId>>> = Rc::new(Cell::new(None));
        let seen = slot.clone();
        let h = host.func(move |_, _| Ok(Value::Promise(seen.get().unwrap())));
        let one = Value::Promise(Promise_Internal_resolve(rt, value(1)));
        let p = promise(Promise_Internal_then_(rt, h, one));
        slot.set(Some(p));
        let checked = Rc::new(Cell::new(false));
        let done = checked.clone();
        let l = host.listener(move |rt, outcome| {
            assert_eq!(error_name(rt, outcome.err().unwrap()), "TypeError");
            done.set(true);
        });
        rt.listen(p, l);
        drain(rt, host).unwrap();
        assert!(checked.get());
        slot.take();
    });
}

#[test]
fn executor_and_handler_exceptions_preserve_native_error_identity() {
    in_loop(|rt, host| {
        let error = rt.new_error("boom".to_owned());
        let ex = Promise_Internal_new(rt);
        let result = promise_try(|| Err(error));
        Promise_Internal_new_returned(rt, &ex, result);
        assert_eq!(failure(rt, ex.promise), error);
        let h = host.func(move |_, _| Err(error));
        let one = Value::Promise(Promise_Internal_resolve(rt, value(1)));
        let p = promise(Promise_Internal_then_(rt, h, one));
        let checked = Rc::new(Cell::new(false));
        let done = checked.clone();
        let l = host.listener(move |_, outcome| {
            assert_eq!(outcome.err().unwrap(), error);
            done.set(true);
        });
        rt.listen(p, l);
        drain(rt, host).unwrap();
        assert!(checked.get());
    });
}

#[test]
fn rejection_propagation_recovery_and_two_branch_abi() {
    in_loop(|rt, host| {
        let text = rt.new_text("original".to_owned());
        let p = Value::Promise(Promise_Internal_reject(rt, text));
        let h = host.func(|_, _| panic!("success"));
        let child = Promise_Internal_then_(rt, h, p);
        let h = host.func(|rt, error| {
            match error {
                Value::Text(t) => assert_eq!(rt.text(t), "original"),
                _ => panic!("not a string"),
            }
            Ok(boxed(rt, 42))
        });
        let recovered = promise(Promise_Internal_catch(rt, h, child));
        let ok = host.func(|rt, v| Ok(boxed(rt, int_of(v) + 1)));
        let fail = host.func(|_, _| panic!("failure"));
        let ten = boxed(rt, 10);
        let sibling = promise(Promise_Internal_thenOrCatch(rt, ok, fail, ten));
        drain(rt, host).unwrap();
        assert_eq!(int_of(success(rt, recovered)), 42);
        assert_eq!(int_of(success(rt, sibling)), 11);
    });
}

#[test]
fn finally_waits_preserves_outcome_and_can_override_it() {
    in_loop(|rt, host| {
        for reject_original in [false, true] {
            for reject_cleanup in [false, true] {
                let cleanup = rt.pending();
                let effect = host.func(move |_, _| Ok(Value::Promise(cleanup)));
                let original = if reject_original {
                    Promise_Internal_reject(rt, value(1))
                } else {
                    Promise_Internal_resolve(rt, value(1))
                };
                let p = promise(Promise_Internal_finally(rt, effect, Value::Promise(original)));
                let l = host.listener(|_, _| {});
                rt.listen(p, l);
                drain(rt, host).unwrap();
                assert!(rt.outcome(p).is_none());
                rt.resolve_once(cleanup, if reject_cleanup { Err(value(2)) } else { Ok(value(99)) });
                drain(rt, host).unwrap();
                if reject_cleanup {
                    assert_eq!(int_of(failure(rt, p)), 2);
                } else if reject_original {
                    assert_eq!(int_of(failure(rt, p)), 1);
                } else {
                    assert_eq!(int_of(success(rt, p)), 1);
                }
            }
        }
    });
}

#[test]
fn all_keeps_input_order_and_race_keeps_settlement_order() {
    in_loop(|rt, host| {
        let first = rt.pending();
        let second = rt.pending();
        let array = rt.new_array(vec![Value::Promise(first), Value::Promise(second)]);
        let all = promise(Promise_Internal_all(rt, array));
        let race = promise(Promise_Internal_race(rt, array));
        rt.resolve_once(second, Ok(value(2)));
        drain(rt, host).unwrap();
        assert_eq!(int_of(success(rt, race)), 2);
        assert!(rt.outcome(all).is_none());
        rt.resolve_once(first, Ok(value(1)));
        drain(rt, host).unwrap();
        let values = match success(rt, all) {
            Value::Array(a) => rt.array(a).iter().map(|v| int_of(*v)).collect::<Vec<_>>(),
            _ => panic!("not an array"),
        };
        assert_eq!(values, vec![1, 2]);
    });
}

#[test]
fn aggregates_empty_input_rejection_and_losing_rejections() {
    in_loop(|rt, host| {
        let empty = rt.new_array(vec![]);
        let all = promise(Promise_Internal_all(rt, empty));
        match success(rt, all) {
            Value::Array(a) => assert!(rt.array(a).is_empty()),
            _ => panic!("not an array"),
        }
        let race = promise(Promise_Internal_race(rt, empty));
        assert!(rt.outcome(race).is_none());
        for use_all in [true, false] {
            let one = Value::Promise(Promise_Internal_reject(rt, value(1)));
            let two = Value::Promise(Promise_Internal_reject(rt, value(2)));
            let array = rt.new_array(vec![one, two]);
            let p = if use_all {
                promise(Promise_Internal_all(rt, array))
            } else {
                promise(Promise_Internal_race(rt, array))
            };
            let l = host.listener(|_, outcome| assert_eq!(int_of(outcome.err().unwrap()), 1));
            rt.listen(p, l);
        }
        drain(rt, host).unwrap();
    });
}

#[test]
fn handled_before_checkpoint_is_quiet_but_unhandled_is_not_swallowed() {
    in_loop(|rt, host| {
        let p = Promise_Internal_reject(rt, value(1));
        let quiet = host.listener(|_, _| {});
        let h = host.func(move |rt, _| {
            rt.listen(p, quiet);
            Ok(Value::Unit)
        });
        let unit = Value::Promise(Promise_Internal_resolve(rt, Value::Unit));
        Promise_Internal_then_(rt, h, unit);
        drain(rt, host).unwrap();
        let original = rt.new_error("uncaught".to_owned());
        Promise_Internal_reject(rt, original);
        let caught = drain(rt, host).err().unwrap();
        assert_eq!(caught, original);
        // A raise must leave the checkpoint usable.
        let h = host.func(|rt, _| Ok(boxed(rt, 2)));
        let one = Value::Promise(Promise_Internal_resolve(rt, value(1)));
        let p = promise(Promise_Internal_then_(rt, h, one));
        drain(rt, host).unwrap();
        assert_eq!(int_of(success(rt, p)), 2);
    });
}

#[test]
fn deep_chains_are_stack_safe() {
    in_loop(|rt, host| {
        let mut p = Value::Promise(Promise_Internal_resolve(rt, value(0)));
        let h = host.func(|rt, v| Ok(boxed(rt, int_of(v) + 1)));
        for _ in 0..10_000 {
            p = Promise_Internal_then_(rt, h, p);
        }
        drain(rt, host).unwrap();
        assert_eq!(int_of(success(rt, promise(p))), 10_000);
    });
}
