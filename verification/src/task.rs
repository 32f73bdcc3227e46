//! Processes: their control blocks, their identifiers, the ready queue and
//! the kernel state that ties them together.
pub mod exec;
pub mod family;
pub mod kernel;
pub mod manager;
pub mod pid;
pub mod schedule;
pub mod task;
