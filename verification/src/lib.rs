//! A one-line arithmetic expression language in which the operators are
//! values of their own: text is cut into tokens, tokens are parsed into a
//! tree, and the tree is evaluated against a table of named values.

pub mod token;
pub mod parse;
pub mod expr;
