//! A verified interpreter for a small, dynamically evaluated scripting
//! language.  Source text is parsed into an abstract syntax tree and walked
//! by an evaluator that keeps per-call variable frames, user function
//! definitions and a configurable set of built-in commands.
//!
//! Numbers are exact fixed-point decimals, carried as a plain mantissa and
//! scale; the arithmetic itself is delegated to the `rust_decimal` crate
//! behind a handful of trusted wrappers.

pub mod num;
pub mod arith;
pub mod strutil;
pub mod errors;
pub mod strmap;
pub mod data;
pub mod ast;
pub mod lexer;
pub mod parser;
pub mod eval;
pub mod builtins;
pub mod interp;
pub mod param;
pub mod commands;
pub mod laws;
