//! A minimal imperative language front-end and executor.
//!
//! Source text (a byte sequence) is turned into tokens, the tokens into an
//! abstract syntax tree, and the tree is evaluated directly.  The language
//! has unsigned 32-bit integer literals, variables, addition, named
//! functions with positional parameters and a single return value, and one
//! `begin { ... }` entry block that runs when the program starts.
//!
//! Every stage is specified against a mathematical model: the lexer against
//! a recursive specification over byte sequences, the parser against a
//! recursive-descent specification over token sequences, and the evaluator
//! against a big-step semantics over maps from names to values.

pub mod ast;
pub mod interp;
pub mod laws;
pub mod lex;
