//! System calls.
pub mod dispatch;
pub mod process;
