//! An assembler for a 16-bit machine: source lines are classified into
//! commands, labels are bound in a first pass, and address and compute
//! instructions are encoded into sixteen-character binary lines in a second.

pub mod text;
pub mod symbol_table;
pub mod parser;
pub mod encoder;
pub mod assembler;
