//! CappuccinOS kernel logic: memory managers, file-system parsers, device
//! command sequences and the console, each with a machine-checked contract.
#![allow(unused_imports)]

pub mod arch;
pub mod bit_manipulator;
pub mod bytes;
pub mod drivers;
pub mod features;
pub mod libs;
pub mod mem;
pub mod sys;
pub mod usr;
