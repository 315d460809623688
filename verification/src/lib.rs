//! Execution core of the Woflang stack language.
//!
//! The crate turns a line of source text into stack-machine effects: it
//! tokenizes the line, dispatches each token (literal pushes, two-token
//! variable forms, control-flow keywords, registered operations, bare
//! symbols), and maintains the data stack, the nested variable scopes and
//! the control-flow block records.

pub mod block;
pub mod error;
pub mod interp;
pub mod laws;
pub mod registry;
pub mod scope;
pub mod stack;
pub mod token;
pub mod value;
