//! Monkey: a small dynamically-typed language with first-class functions,
//! integers, booleans, strings, arrays and hash maps.
//!
//! The crate holds the whole pipeline: a lexer, a Pratt expression parser,
//! a tree-walking evaluator over lexically scoped environments, and a
//! bytecode compiler with a stack virtual machine that share the runtime
//! value model.

pub mod ast;
pub mod builtin;
pub mod code;
pub mod compiler;
pub mod env;
pub mod eval;
pub mod lexer;
pub mod object;
pub mod parser;
pub mod strutil;
pub mod symbol_table;
pub mod token;
pub mod vm;
