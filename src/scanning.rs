pub mod lexer;
pub mod nodes;
pub mod parser;
pub mod position;
pub mod tokens;
