//! The compiler and evaluator of the query language.

pub mod ir;
pub mod message;
pub mod parser;
pub mod printer;
pub mod query;
pub mod safety;
pub mod semantic;
pub mod semantic_type;
pub mod tokenizer;
pub mod value;
pub mod vm;
