//! A lexer, parser and tree-walking interpreter for the small `.gn` scripting language.
use vstd::prelude::*;

pub mod text;
pub mod token;
pub mod scanner;
pub mod lexer;
pub mod ast;
pub mod parser_spec;
pub mod parser;
pub mod value;
pub mod equality;
pub mod builtin;
pub mod semantics;
pub mod interpreter;
pub mod context;
pub mod module;
pub mod runner;
pub mod laws;
pub mod handles;
pub mod meaning;

verus! {

} // verus!
