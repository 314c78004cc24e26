//! A small tree-walking interpreter for a Lisp-family expression language.
//!
//! Source text is tokenized and parsed into S-expression values, which an
//! evaluator interprets against a chain of lexically scoped environment
//! frames.  Every piece of the pipeline carries a mathematical specification:
//! the tokenizer and parser are specified by pure functions over character
//! sequences, and the evaluator is proved equal to a reference big-step
//! semantics over abstract values.

pub mod builtins;
pub mod data;
pub mod lambda;
pub mod lexer;
pub mod list;
pub mod parser;
pub mod scope;
pub mod semantics;
pub mod value;
