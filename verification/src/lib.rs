pub mod text;
pub mod types;
pub mod symbols;
pub mod positioned;
pub mod yora_compiler;
pub mod compiler;
pub mod syntax_analysis;
pub mod interpreter;
