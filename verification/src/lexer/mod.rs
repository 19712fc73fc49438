//! Lexical analysis: the token type and the lexer.
pub mod token;
pub mod scanner;
pub mod words;

pub use scanner::lex;
