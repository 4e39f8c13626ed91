//! Non-blocking, deterministic state machines, and a process tracer that is built on them.
//!
//! * `order`, `entries` and `common`: keys in ascending order, the model of a map, and the map of a
//!   fixed size that implements it.
//! * `futures`, `tally` and `yielder`: the runtime of one machine, the futures that it waits for,
//!   what holds of them together, and how the loops of a machine take turns.
//! * `tasks`: the tasks that a machine leaves to a worker.
//! * `map_laws`, `runtime_laws`, `task_laws`: what these are for, stated of their calls.
//! * `ptrace`, `startup`, `executor`, `event_loop`, `kernel` and `handler_sync`: the tracer of a
//!   process.
//! * `startup_laws`, `event_loop_laws`, `kernel_laws`, `tracer_laws`: what the tracer is for.
pub mod common;
pub mod entries;
pub mod event_loop;
pub mod event_loop_laws;
pub mod executor;
pub mod futures;
pub mod handler_sync;
pub mod kernel;
pub mod kernel_laws;
pub mod map_laws;
pub mod order;
pub mod ptrace;
pub mod runtime_laws;
pub mod startup;
pub mod startup_laws;
pub mod tally;
pub mod task_laws;
pub mod tasks;
pub mod tracer_laws;
pub mod yielder;

pub use crate::common::{AsyncRuntimeError, FixedSizedMap};
pub use crate::futures::AsyncRuntime;
pub use crate::tasks::{TaskBatch, TaskTracker};
pub use crate::yielder::AsyncYielder;
