//! Process core of a small multiprogramming kernel: task control blocks,
//! stride scheduling, and per-task virtual-memory area management.
//!
//! The layer is cooperative and single-CPU: a runtime around it owns the
//! scheduler and the running task, performs traps and context switches, and
//! calls into this crate for every decision that mutates task state.

pub mod mem;
pub mod task;
pub mod manager;
pub mod syscall;
