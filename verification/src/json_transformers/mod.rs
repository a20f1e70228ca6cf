//! A language of JSON transformers: patterns that select from the input,
//! literals, arrays and objects built from transformers, and comparisons.
pub mod eval;
pub mod parser;
pub mod syntax;

pub use self::eval::eval;
pub use self::parser::parse;
pub use self::syntax::{Expr, Pat};
