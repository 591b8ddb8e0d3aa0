//! A user-space loader for dynamically linked x86-64 ELF executables.
//!
//! The library holds the loader's decisions: where segments go, how symbols
//! resolve, what each relocation writes, how the thread-local block is laid
//! out, which protections apply, and what the initial stack holds. The
//! program around it performs the mappings and memory writes it describes.

pub mod elf;
pub mod loader;
pub mod name;
pub mod paths;
pub mod print;
pub mod process;
pub mod procfs;
pub mod start;
pub mod symtab;
