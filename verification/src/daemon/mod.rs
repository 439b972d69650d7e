//! The daemon: what it keeps, and how each event changes that.
//!
//! The daemon does no input or output itself. A caller reports what happened and at which time,
//! and performs what it is told in return. Times are nanoseconds on a clock that never goes
//! back; deadlines are points on the same clock.
pub mod batch_apply;
pub mod cleanup_run;
pub mod consistency;
pub mod convergence;
pub mod event_loop;
pub mod lifecycle;
pub mod maintenance;
pub mod resync_plan;
pub mod state;
