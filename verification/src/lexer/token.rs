//! The tokens of the Teh Tarik language.
use vstd::prelude::*;

verus! {

/// A lexical token. `Num` carries the value of an integer literal,
/// `Ident` the text of an identifier, and `End` marks the end of input.
#[derive(Debug, Clone)]
pub enum Token {
    Func,
    Return,
    Int,
    Print,
    Read,
    While,
    If,
    Else,
    Break,
    Continue,
    LeftParen,
    RightParen,
    LeftCurly,
    RightCurly,
    LeftBracket,
    RightBracket,
    Comma,
    Semicolon,
    Plus,
    Subtract,
    Multiply,
    Divide,
    Modulus,
    Assign,
    Less,
    LessEqual,
    Greater,
    GreaterEqual,
    Equality,
    NotEqual,
    Num(i32),
    Ident(String),
    End,
}

/// The mathematical value of a token: identical to `Token`, with the text
/// of an identifier as a sequence of characters.
pub enum SpecToken {
    Func,
    Return,
    Int,
    Print,
    Read,
    While,
    If,
    Else,
    Break,
    Continue,
    LeftParen,
    RightParen,
    LeftCurly,
    RightCurly,
    LeftBracket,
    RightBracket,
    Comma,
    Semicolon,
    Plus,
    Subtract,
    Multiply,
    Divide,
    Modulus,
    Assign,
    Less,
    LessEqual,
    Greater,
    GreaterEqual,
    Equality,
    NotEqual,
    Num(i32),
    Ident(Seq<char>),
    End,
}

impl View for Token {
    type V = SpecToken;

    open spec fn view(&self) -> SpecToken {
        match self {
            Token::Func => SpecToken::Func,
            Token::Return => SpecToken::Return,
            Token::Int => SpecToken::Int,
            Token::Print => SpecToken::Print,
            Token::Read => SpecToken::Read,
            Token::While => SpecToken::While,
            Token::If => SpecToken::If,
            Token::Else => SpecToken::Else,
            Token::Break => SpecToken::Break,
            Token::Continue => SpecToken::Continue,
            Token::LeftParen => SpecToken::LeftParen,
            Token::RightParen => SpecToken::RightParen,
            Token::LeftCurly => SpecToken::LeftCurly,
            Token::RightCurly => SpecToken::RightCurly,
            Token::LeftBracket => SpecToken::LeftBracket,
            Token::RightBracket => SpecToken::RightBracket,
            Token::Comma => SpecToken::Comma,
            Token::Semicolon => SpecToken::Semicolon,
            Token::Plus => SpecToken::Plus,
            Token::Subtract => SpecToken::Subtract,
            Token::Multiply => SpecToken::Multiply,
            Token::Divide => SpecToken::Divide,
            Token::Modulus => SpecToken::Modulus,
            Token::Assign => SpecToken::Assign,
            Token::Less => SpecToken::Less,
            Token::LessEqual => SpecToken::LessEqual,
            Token::Greater => SpecToken::Greater,
            Token::GreaterEqual => SpecToken::GreaterEqual,
            Token::Equality => SpecToken::Equality,
            Token::NotEqual => SpecToken::NotEqual,
            Token::Num(n) => SpecToken::Num(*n),
            Token::Ident(s) => SpecToken::Ident(s@),
            Token::End => SpecToken::End,
        }
    }
}

/// The values of a sequence of tokens.
pub open spec fn tokens_view(ts: Seq<Token>) -> Seq<SpecToken> {
    ts.map_values(|t: Token| t@)
}

/// A token stream the parser accepts: it is not empty and it ends with
/// `End`, and the position `i` lies inside it.
pub open spec fn well_formed_stream(ts: Seq<SpecToken>, i: int) -> bool {
    &&& ts.len() >= 1
    &&& ts.last() is End
    &&& 0 <= i < ts.len()
}

} // verus!
