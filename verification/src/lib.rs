//! Core of a small teaching kernel's process-facing syscalls: page-granular
//! anonymous memory mapping (`mmap`/`munmap`), translated writes of syscall
//! results into the calling task's address space (`get_time`/`task_info`),
//! and per-task accounting, all against an explicit task context.

pub mod addr;
pub mod perm;
pub mod bytes;
pub mod kmem;
pub mod ptable;
pub mod region;
pub mod time;
pub mod task;
pub mod syscall;
