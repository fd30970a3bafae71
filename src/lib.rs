//! Front end of a small Lua-family scripting language: a lexer that turns
//! source text into positioned tokens and a recursive-descent parser that
//! turns those tokens into a syntax tree.
pub mod error;
pub mod text;
pub mod scanning;
