pub mod mem;
