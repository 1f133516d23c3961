//! The back end for fixed-width types: the types, the intermediate code, and its lowering.
pub mod types;
pub mod ir;
pub mod asm_gen;
pub mod ir_gen;
