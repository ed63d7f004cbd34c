//! The console and the shell.
pub mod shell;
pub mod text;
pub mod tty;
