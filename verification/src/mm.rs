//! Per-process address spaces: regions, the pages behind them, and the
//! kernel's access to user memory.
pub mod access;
pub mod area;
pub mod elf;
pub mod loader;
pub mod memory_set;
pub mod mmap;
pub mod user_stack;
