//! A verified ELF64 executable loader core.
//!
//! The parser validates an ELF64 file header and decodes the program-header
//! table from a raw byte buffer. The loader walks the loadable segments,
//! reserves page-aligned virtual-memory regions through a host capability
//! interface, copies segment data into place, and zero-fills the BSS tail.

pub mod host;
pub mod layout;
pub mod loader;
pub mod logfmt;
pub mod parser;
pub mod sim_host;

pub use parser::{Elf64Ehdr, Elf64Phdr, ElfError};
