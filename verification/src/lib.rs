//! A native Promise runtime: single-shot settlement, adoption of other
//! promises, FIFO reaction jobs run at a checkpoint, `finally`, `all`, `race`
//! and the uncaught-rejection check, with every transition verified against
//! an abstract model of the runtime.
#![allow(non_snake_case)]

pub mod value;
pub mod rejection;
pub mod job;
pub mod model;
pub mod validity;
pub mod runtime;
pub mod internal;
pub mod laws;
