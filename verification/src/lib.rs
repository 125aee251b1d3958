//! A static-priority, interrupt-driven task executor with priority-ceiling
//! resource locking, verified as an explicit state machine.
//!
//! Tasks are bound to interrupt lines at configuration time, each with a
//! unique static priority. Shared state lives in resource cells; a task
//! gains exclusive access to a cell by raising the current execution
//! priority to the cell's ceiling (the highest priority of any task that
//! may lock it), which masks every possible competitor for the lock's
//! duration. The executor dispatches the highest-priority pending task
//! whenever it exceeds the current priority, and falls back to the idle
//! loop when nothing is pending and the priority is at its minimum.
//!
//! [`config`] builds and validates the static table; [`exec`] is the
//! executable executor, each transition pinned in its contract to a
//! counterpart in [`model`]; [`laws`] proves the per-transition
//! guarantees, and [`trace`] extends them to whole runs.

pub mod config;
pub mod exec;
pub mod laws;
pub mod model;
pub mod trace;
