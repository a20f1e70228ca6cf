//! LLSPL: programs that run serverless functions one after another and
//! reshape the JSON passed between them.
pub mod error;
pub mod syntax;
pub mod parser;
pub mod eval;
pub mod programs;
pub mod gcf;

pub use self::error::Error;
pub use self::eval::eval;
pub use self::parser::parse;
pub use self::syntax::{Expr, Payload};
