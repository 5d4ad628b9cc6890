//! Core of the Homonym language: a small expression language whose
//! distinguishing feature is name overloading by declared type. The same
//! identifier may hold independent values under different type names at the
//! same time; bracketed type-reference annotations on binary operators pick
//! the binding to use at each site.
//!
//! The pipeline is: `lexer` turns source text into tokens, `utils` decodes
//! type-reference annotations and checks bracket balance, `parser` builds the
//! expression tree by precedence splitting, `typechecker` validates declared
//! types, and `interpreter` evaluates a tree against a two-level
//! (type name, variable name) binding table from `table`.

pub mod ast;
pub mod interpreter;
pub mod lexer;
pub mod parser;
pub mod table;
pub mod typechecker;
pub mod utils;
