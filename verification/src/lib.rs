//! Front end and execution core of a small language for stateful programs:
//! a tokenizer with header inclusion, a recursive-descent parser with constant
//! folding, a fixed-width instruction codec and a register-based execution
//! context.

pub mod ast;
pub mod codes;
pub mod decimal;
pub mod errors;
pub mod grammar;
pub mod lexer;
pub mod parser;
pub mod registry;
pub mod scanner;
pub mod text;
pub mod token;
