//! A process-local multi-agent coordination runtime: typed message passing
//! over a hybrid point-to-point / broadcast bus, a capability-indexed agent
//! registry with heartbeat liveness, a four-band priority task queue with
//! dependency gating, a two-tier TTL-bound shared memory pool, a manager that
//! owns agent lifetimes, and the single-agent plan execution loop.
//!
//! Time never flows implicitly through the data structures: every operation
//! that depends on the clock takes the current time (seconds since the epoch)
//! as an argument, so its behaviour is fully specified and provable.

use vstd::prelude::*;

pub mod bus;
pub mod clock;
pub mod codec;
pub mod context;
pub mod input;
pub mod state;
pub mod errors;
pub mod ids;
pub mod json;
pub mod manager;
pub mod memory;
pub mod message;
pub mod plan;
pub mod registry;
pub mod task_queue;
pub mod types;

verus! {

/// The priority bands a task queue maintains, from most to least urgent.
pub const PRIORITY_BANDS: usize = 4;

} // verus!
