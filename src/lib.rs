//! A small imperative language: a precedence-climbing parser that builds a
//! syntax tree, a code generator that lowers the tree to a stack-built IR,
//! and the step that hands that IR to LLVM as textual assembly.

pub mod ast;
pub mod grammar;
pub mod cursor;
pub mod parser;
pub mod codegen;
pub mod reparse;
pub mod llvm;
