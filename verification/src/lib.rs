//! A compiler front end for the Teh Tarik language: a lexer that turns
//! source text into tokens, and a recursive-descent parser that checks the
//! program and emits its intermediate representation (IR) as text.

pub mod text;
pub mod lexer;
pub mod parser;
