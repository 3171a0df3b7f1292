//! Ross-OS kernel logic: the parts of a small aarch64 kernel that decide and
//! compute, separated from the registers and memory they drive.

pub mod demo;
pub mod fb;
pub mod heap;
pub mod interrupts;
pub mod memory;
pub mod mmu;
pub mod sync;
pub mod task;
pub mod uart;
