//! A small templating engine: a textual format pattern (for example
//! `%tracknumber%. %title%[ (%composer%)]`) is compiled into an expression
//! tree and evaluated against a key/value metadata source to produce a
//! rendered string.
//!
//! The pipeline is: pattern text -> parser (unbound tree) -> binder
//! (+ function registry) -> bound tree -> evaluator (+ metadata instance)
//! -> output string.  Presence or absence of metadata drives the
//! "optional block" suppression semantics through a truth flag carried by
//! every evaluation.

pub mod expression;
pub mod function;
pub mod laws;
pub mod metadata;
pub mod numeric;
pub mod parser;
pub mod text;
pub mod tree;
pub mod value;
