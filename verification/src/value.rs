use vstd::prelude::*;

verus! {

/// The index of a promise in its runtime.
pub type PromiseId = usize;

/// A value handled by the runtime. Payloads that the promise logic only carries
/// (text, arrays, native errors) live in the runtime's tables and are named here
/// by their index, so that a `Value` is a plain copyable handle.
#[derive(Clone, Copy, PartialEq, Eq, Structural, Debug)]
pub enum Value {
    Unit,
    Int(i64),
    /// A string, by its index in the runtime's text table.
    Text(usize),
    /// An array, by its index in the runtime's array table.
    Array(usize),
    /// A function of the host, by the handle the host gave it.
    Func(u64),
    /// One of the two resolving functions handed to an executor:
    /// `Resolver(p, false)` fulfils (or adopts into) `p`, `Resolver(p, true)` rejects it.
    Resolver(PromiseId, bool),
    /// A native `Error`, by its identity (its index in the runtime's error table).
    Error(usize),
    /// A native promise.
    Promise(PromiseId),
}

/// How a promise settled: `Ok` when fulfilled, `Err` when rejected.
pub type Outcome = Result<Value, Value>;

} // verus!
