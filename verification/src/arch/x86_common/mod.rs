pub mod apic;
pub mod pic;
pub mod stack_trace;
