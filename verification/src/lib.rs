//! Core of a small scripting-language implementation: a bytecode compiler
//! that lowers an abstract syntax tree into a flat instruction stream, and
//! a stack virtual machine that interprets that stream.  A lexer, a Pratt
//! parser and a tree-walking evaluator complete the pipeline.

pub mod code;
pub mod token;
pub mod ast;
pub mod object;
pub mod lexer;
pub mod parser;
pub mod evaluator;
pub mod compiler;
pub mod vm;
pub mod equiv;
pub mod patching;
