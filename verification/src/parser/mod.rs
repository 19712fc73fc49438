//! The parser: checks a token stream against the grammar and the semantic
//! rules of Teh Tarik and generates IR text in the same pass.
pub mod program;
pub mod model;
pub mod function;
pub mod statement;
pub mod declaration;
pub mod expression;
pub mod laws;
pub mod ir_text;
pub mod accepted;
pub mod accepted_statements;
