//! The minimal dialect: `exit(..);`, `var x = ..;`, `x = ..;` and `if .. { .. }` over
//! integer and boolean expressions, compiled straight to x86-64 assembly.
pub mod lexer;
pub mod parser;
pub mod ir_generation;
pub mod asm_generation;
