//! A lexer, parser and bytecode compiler for a declarative subset of JavaScript,
//! together with the pure parts of its module loader, linter and HTTP builtins.
use vstd::prelude::*;

pub mod text;
pub mod lexer;
pub mod ast;
pub mod grammar;
pub mod parser;
pub mod opcode;
pub mod codegen;
pub mod compiler;
pub mod builtins;
pub mod values;
pub mod lint;
pub mod json;
pub mod json_tree;
pub mod module;
pub mod laws;
pub mod frame;
pub mod wellformed;
pub mod semantics;
