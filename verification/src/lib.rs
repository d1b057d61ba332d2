//! Analysis core of a binary inspection tool.
//!
//! Given a loaded executable image, the library partitions every section into
//! semantically meaningful byte ranges (blocks), and builds an address-indexed
//! symbol table whose names are recovered from mangling schemes and from
//! import and relocation metadata.

pub mod blocks;
pub mod boundaries;
pub mod commands;
pub mod endian;
pub mod hex;
pub mod image;
pub mod imports;
pub mod processor;
pub mod sections;
pub mod symbols;
pub mod terminal;
pub mod text;
pub mod tokens;
pub mod widgets;
