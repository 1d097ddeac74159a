pub mod lexer;
pub mod expr;
pub mod func;
pub mod parser;
