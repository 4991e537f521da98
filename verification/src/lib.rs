//! AIRL language toolkit: lexer, S-expression reader, AST parser, runtime
//! values and environments, bytecode marshalling and validation, the
//! translation of contracts into solver terms with the plan of what to ask
//! the solver, and the bookkeeping around verification results.

pub mod span;
pub mod text;
pub mod token;
pub mod diagnostic;

pub mod lexer;
pub mod sexpr;

pub mod solver;
pub mod smt;
pub mod chars;
pub mod cache;
pub mod cache_roundtrip;
pub mod ast;
pub mod value;
pub mod error;
pub mod env;
pub mod bytecode;
pub mod jit_contract;
pub mod ir;
pub mod pattern;
pub mod ir_marshal;
pub mod parser;
pub mod forms;
pub mod toplevel;
pub mod prover;
pub mod translate;
pub mod plan;
pub mod printer;
pub mod debug_text;
pub mod display;
pub mod source_pieces;
