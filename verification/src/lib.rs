//! A two-pass assembler for the Hack machine language.

pub mod assembler;
pub mod encoder;
pub mod error;
pub mod instruction;
pub mod parser;
pub mod symbols;
pub mod tables;
pub mod text;
