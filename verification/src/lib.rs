//! Xur: a tiny expression language in which every value can be a function and
//! every function can be applied partially.
//!
//! The crate holds the three stages of the language: the `lexer` turns source
//! text into tokens, `ast` turns tokens into statements, and `xurvm` evaluates
//! statements against a table of global bindings.
pub mod ast;
pub mod lexer;
pub mod xurvm;
