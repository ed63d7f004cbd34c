//! Small libraries: a random number generator, the ELF check and memory
//! helpers.
pub mod elf;
pub mod rand;
pub mod util;
