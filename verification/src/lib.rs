//! A tree-walking interpreter for a small Scheme-like language.
//!
//! Source text is tokenized and parsed into an expression tree, convenience
//! forms are rewritten into their canonical expansions, and the tree is
//! evaluated against a chain of lexically scoped environments.  Environments
//! live in an arena and refer to their enclosing scope by index, so shared,
//! mutable scope chains need no reference counting, and every index stays
//! valid because the arena only grows.
//!
//! Numbers are machine integers: the arithmetic built-ins report overflow
//! and division by zero instead of wrapping or going infinite, and a token
//! that does not read as a machine integer reads as a symbol.
//!
//! The pieces, leaf first: [`exp`] holds the one expression type that is
//! both syntax and data, with its mathematical model; [`err`] the flat
//! error type; [`env`] the scope arena; [`prelude`] the built-ins and the
//! root scope; [`sem`] the big-step semantics of evaluation as
//! specification functions; [`eval_apply`] the evaluator and apply engine,
//! proved to return exactly what [`sem`] says; [`parser`] the batch
//! tokenizer and structural parser; [`desugar`] the rewrite of the two
//! sugar forms; [`reader`] the incremental line-buffered reader;
//! [`render`] values back to text; [`laws`] the proved general laws; and
//! [`run`] the interpreter facade that ties arena, prelude and evaluator
//! together.

use vstd::prelude::*;

pub mod desugar;
pub mod env;
pub mod err;
pub mod eval_apply;
pub mod exp;
pub mod laws;
pub mod parser;
pub mod prelude;
pub mod reader;
pub mod render;
pub mod run;
pub mod sem;
pub mod text;

verus! {

/// Depth budget handed to the evaluator by the convenience entry points.
pub const DEFAULT_FUEL: u64 = 1000000;

} // verus!
