//! AArch64.
pub mod boot;
pub mod mem;
pub mod elf;
pub mod process;
pub mod backtrace;
pub mod rand;
pub mod syscall;
pub mod irq;
