//! A small interpreter for a Lisp-family expression language.
//!
//! Source text is tokenized ([`lexer`]), parsed into a nested-list
//! expression tree ([`parser`]), and evaluated against a chain of lexical
//! scopes ([`store`], [`interpreter`]). The expression tree and the runtime
//! value share one type, [`lsymc::Lsymc`]: values are self-evaluating trees.

pub mod interpreter;
pub mod lexer;
pub mod lsymc;
pub mod parser;
pub mod store;
