//! Serverless programs over JSON: a small language of JSON transformers and a
//! language that sequences serverless functions around them.
pub mod json;
pub mod json_transformers;
pub mod jtlib;
pub mod lexer;
pub mod llspl;
pub mod simple;
