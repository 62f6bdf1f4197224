pub mod ast;
pub mod evaluator;
pub mod lexer;
pub mod parser;
pub mod render;
pub mod session;
