//! The core of a small preemptive, single-hart, RISC-V supervisor-mode kernel,
//! written as a verified state machine.
//!
//! The kernel owns every process control block, every address space and the
//! scheduler queue in one [`task::Kernel`] value.  Each entry into the kernel
//! (a system call, a fault, a timer tick) is one call that takes the state
//! from a well-formed value to a well-formed value; the embedding performs the
//! hardware side (CSR access, the trampoline, file reads) around those calls.
pub mod config;
pub mod codec;
pub mod info;
pub mod mm;
pub mod signal;
pub mod syscall;
pub mod task;
pub mod timer;
pub mod trap;

