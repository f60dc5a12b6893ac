//! Disassembly of a subset of the 8086 instruction set, and a small simulator
//! that executes the data-movement and arithmetic forms on a register file.
pub mod instruction_table;
pub mod text;
pub mod decoder;
pub mod simulator;
pub mod listing;
pub mod laws;
