pub mod ast;
pub mod env;
pub mod error;
pub mod evaluator;
pub mod laws;
pub mod parser;
pub mod scope;
