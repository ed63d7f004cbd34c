pub mod acpi;
pub mod fs;
pub mod ide;
pub mod keyboard;
pub mod pci;
pub mod serial;
pub mod storage;
pub mod vga;
pub mod video;
