pub mod minimal;
pub mod lexer;
pub mod parser;
pub mod analyzer;
pub mod ir_gen;
pub mod optimizer;
pub mod asm_gen;
pub mod compiler;
