//! A two-stage toolchain for a simple 16-bit stack machine: a translator that
//! lowers stack-machine ("VM") commands to symbolic assembly, and an assembler
//! that turns symbolic assembly into fixed-width binary instruction words.
//!
//! The crate works on ready sequences of source lines; reading and writing
//! files is left to the surrounding program.

pub mod assembler;
pub mod code_gen;
pub mod errors;
pub mod instr;
pub mod instruction;
pub mod symbol_table;
pub mod text;
pub mod vm_command;
