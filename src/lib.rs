//! Structural decoding of 32-bit RISC-V ELF images: header fields, the
//! section and program tables, executable spans, a flat memory image built
//! from the loadable segments, and opcode classification of instruction words.

pub mod bytes;
pub mod header;
pub mod tables;
pub mod opcode;
pub mod image;
pub mod dump;
pub mod symbols;
pub mod memory;
pub mod elf32;

pub use memory::Memory;
