//! The core of a runtime that runs statically declared tasks on
//! priority-pinned threads of a real-time operating system.
//!
//! The library holds what the runtime stores, queues and decides, stated and
//! proved over plain values; it starts no thread, takes no lock and reads no
//! clock itself:
//!
//! - [`time`]: points on the monotonic clock and the spans between them;
//! - [`slab`]: the fixed storage that keeps the input of a task from spawn to
//!   dispatch;
//! - [`rq`]: the run queue of a priority level;
//! - [`tq`]: the queue of tasks that wait for their deadline, on the heap of
//!   [`heap`];
//! - [`spawn`]: putting a task's input into its slab and the task into a
//!   queue;
//! - [`dispatcher`]: the start of the dispatcher threads and the barrier at
//!   which they meet;
//! - [`plan`]: capacities, ceilings and the access of tasks to resources;
//! - [`names`]: the names under which the runtime's parts are declared;
//! - [`cell`]: storage for the resources of tasks.

pub mod cell;
pub mod dispatcher;
pub mod heap;
pub mod names;
pub mod plan;
pub mod rq;
pub mod slab;
pub mod spawn;
pub mod time;
pub mod tq;
