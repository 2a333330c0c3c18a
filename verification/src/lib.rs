//! A parser for untyped lambda-calculus expressions.
//!
//! An expression is written with the lambda symbol, a bound variable, a dot,
//! variables, and parenthesized applications. [`parser::parse`] turns a line
//! of text into a [`term::Term`], the abstract syntax tree, or into a
//! classified [`error::ParseError`]; [`term::Term::serialize`] emits the tree
//! as a tagged textual record.

pub mod chars;
pub mod error;
pub mod parser;
pub mod term;

pub use error::ParseError;
pub use parser::parse;
pub use term::Term;
