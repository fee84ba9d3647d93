//! An assembler and interpreter for a tiny instruction set that drives a row of
//! eight LEDs from an 8-bit accumulator and a loop counter.

pub mod text;
pub mod display;
pub mod instruction;
pub mod labels;
pub mod parser;
pub mod assembler;
pub mod machine;
