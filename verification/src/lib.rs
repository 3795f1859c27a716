//! Core of a static linker for ELF relocatable objects.
//!
//! The crate ingests relocatable object images as byte buffers, resolves
//! global symbols under strong/weak rules, lays out the selected output
//! sections at deterministic virtual addresses, binds every defined global
//! symbol to its final address, and applies the relocations byte-exactly.
//! File I/O, command-line handling and the output container writer live in
//! the surrounding driver, which hands this crate plain byte buffers.

pub mod byteops;
pub mod common;
pub mod error;
pub mod object;
pub mod resolve;
pub mod layout;
pub mod reloc;
pub mod static_link;
