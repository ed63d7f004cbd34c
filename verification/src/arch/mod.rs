//! Processor-specific logic: the port writes that program the interrupt
//! controllers and timers, and the interrupt descriptor table.
pub mod port;
pub mod riscv64;
pub mod x86_64;
pub mod x86_common;
