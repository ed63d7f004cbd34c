pub mod interrupts;
pub mod io;
