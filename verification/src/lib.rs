//! A small expression-language front end: a lexer that turns source text
//! into tokens, an operator-precedence parser that builds an abstract
//! syntax tree, and a code generator that lowers the tree to LLVM IR
//! through the inkwell library.

pub mod ast;
pub mod backend;
pub mod codegen;
pub mod driver;
pub mod environment;
pub mod lexer;
pub mod option_ext;
pub mod parser;
