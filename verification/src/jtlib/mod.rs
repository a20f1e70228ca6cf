//! The first form of JSON transformers: a pattern is `$in` followed by keys,
//! and the parser reads only the pattern `$in`.
pub mod syntax;
pub mod parser;

pub use self::parser::parse;
pub use self::syntax::{eval, Expr, Pat};
