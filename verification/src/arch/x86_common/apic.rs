//! The APIC as the x86 code shared between targets sees it: the same
//! tables and registers as on x86-64.
pub use crate::arch::x86_64::interrupts::apic::{APIC, IOAPIC, IOAPICSourceOverride, LAPIC};
