//! A small Lisp-family language evaluator: a reader (tokenizer and parser)
//! that turns text into tagged values, a lexically scoped environment chain,
//! a tail-call-optimizing evaluator with macro expansion and quasiquote
//! rewriting, and a printer that renders values back to text.
pub mod types;
pub mod env;
pub mod printer;
pub mod reader;
pub mod natives;
pub mod eval;
