//! Entry into and exit from the kernel.
pub mod cause;
pub mod context;
pub mod handler;
