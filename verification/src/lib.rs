//! Parsing, evaluation and truth tables for boolean logic expressions.
//!
//! A text such as `(A NOR B) & C` is read by the grammar into a parse tree,
//! the parse tree is folded into an expression, and the expression is
//! evaluated under every assignment of its variables:
//!
//! - [`syntax`] states the grammar, and what it is for a parse tree to follow
//!   it;
//! - [`parser`] reads a text by the grammar, into the nodes of [`pairs`];
//! - [`readings`] proves that the parser finds the one tree that follows the
//!   grammar, if there is one;
//! - [`ast`] builds the expression, evaluates it and collects its variables;
//! - [`truth_table`] enumerates the assignments;
//! - [`laws`] holds what follows for every expression and table.

pub mod ast;
pub mod laws;
pub mod pairs;
pub mod parser;
pub mod readings;
pub mod syntax;
pub mod truth_table;
