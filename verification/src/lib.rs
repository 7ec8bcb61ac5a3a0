//! A small compiler for additive integer expressions and the virtual machine
//! its output runs on. Source bytes are tokenized, parsed into a tree whose
//! nodes remember their source range, type-checked, lowered to instructions
//! over byte-wide memory cells and executed.

pub mod common;
pub mod text;
pub mod lexer;
pub mod parser;
pub mod checker;
pub mod codegen;
pub mod pipeline;
pub mod grammar;
pub mod vm;
