use compiler_project::lexer::lex;
use compiler_project::lexer::scanner::try_lex;
use compiler_project::lexer::token::Token;

#[test]
fn lexer_test() {
    // test that lexer works on correct cases
    let toks = lex("1 + 2 + 3").unwrap();
    assert!(toks.len() == 6);
    assert!(matches!(toks[0], Token::Num(1)));
    assert!(matches!(toks[1], Token::Plus));
    assert!(matches!(toks[2], Token::Num(2)));
    assert!(matches!(toks[3], Token::Plus));
    assert!(matches!(toks[4], Token::Num(3)));
    assert!(matches!(toks[5], Token::End));

    let toks = lex("3 + 215 +").unwrap();
    assert!(toks.len() == 5);
    assert!(matches!(toks[0], Token::Num(3)));
    assert!(matches!(toks[1], Token::Plus));
    assert!(matches!(toks[2], Token::Num(215)));
    assert!(matches!(toks[3], Token::Plus));
    assert!(matches!(toks[4], Token::End));
    // keywords
    let toks = lex("func return int print read while if else break continue").unwrap();
    assert!(matches!(toks[0], Token::Func));
    assert!(matches!(toks[1], Token::Return));
    assert!(matches!(toks[2], Token::Int));
    assert!(matches!(toks[3], Token::Print));
    assert!(matches!(toks[4], Token::Read));
    assert!(matches!(toks[5], Token::While));
    assert!(matches!(toks[6], Token::If));
    assert!(matches!(toks[7], Token::Else));
    assert!(matches!(toks[8], Token::Break));
    assert!(matches!(toks[9], Token::Continue));
    assert!(matches!(toks[10], Token::End));
    // ( ) { } [ ] , ;
    let toks = lex("( ) { } [ ] , ;").unwrap();
    assert!(matches!(toks[0], Token::LeftParen));
    assert!(matches!(toks[1], Token::RightParen));
    assert!(matches!(toks[2], Token::LeftCurly));
    assert!(matches!(toks[3], Token::RightCurly));
    assert!(matches!(toks[4], Token::LeftBracket));
    assert!(matches!(toks[5], Token::RightBracket));
    assert!(matches!(toks[6], Token::Comma));
    assert!(matches!(toks[7], Token::Semicolon));
    assert!(matches!(toks[8], Token::End));
    // operators
    let toks = lex("+ - * / %").unwrap();
    assert!(matches!(toks[0], Token::Plus));
    assert!(matches!(toks[1], Token::Subtract));
    assert!(matches!(toks[2], Token::Multiply));
    assert!(matches!(toks[3], Token::Divide));
    assert!(matches!(toks[4], Token::Modulus));
    assert!(matches!(toks[5], Token::End));
    // comparison
    let toks = lex("= < <= > >= == !=").unwrap();
    assert!(matches!(toks[0], Token::Assign));
    assert!(matches!(toks[1], Token::Less));
    assert!(matches!(toks[2], Token::LessEqual));
    assert!(matches!(toks[3], Token::Greater));
    assert!(matches!(toks[4], Token::GreaterEqual));
    assert!(matches!(toks[5], Token::Equality));
    assert!(matches!(toks[6], Token::NotEqual));
    assert!(matches!(toks[7], Token::End));

    let toks = lex("var_1 = 32;").unwrap();
    assert!(matches!(toks[0], Token::Ident(ref s) if s == "var_1"));
    assert!(matches!(toks[1], Token::Assign));
    assert!(matches!(toks[2], Token::Num(32)));
    assert!(matches!(toks[3], Token::Semicolon));
    assert!(matches!(toks[4], Token::End));

    // test that the lexer catches invalid tokens
    assert!(matches!(lex("^^^"), Err(_)));
}

#[test]
fn lexer_numbers_and_operators() {
    let toks = lex("1 + 2 + 3").unwrap();
    assert_eq!(toks.len(), 6);
    assert!(matches!(toks[0], Token::Num(1)));
    assert!(matches!(toks[1], Token::Plus));
    assert!(matches!(toks[2], Token::Num(2)));
    assert!(matches!(toks[3], Token::Plus));
    assert!(matches!(toks[4], Token::Num(3)));
    assert!(matches!(toks[5], Token::End));

    // trailing operator is fine, lexer should still tokenize
    let toks = lex("3 + 215 +").unwrap();
    assert_eq!(toks.len(), 5);
    assert!(matches!(toks[0], Token::Num(3)));
    assert!(matches!(toks[1], Token::Plus));
    assert!(matches!(toks[2], Token::Num(215)));
    assert!(matches!(toks[3], Token::Plus));
    assert!(matches!(toks[4], Token::End));
}

#[test]
fn lexer_keywords() {
    let toks = lex("func return int print read while if else break continue").unwrap();
    assert!(matches!(toks[0], Token::Func));
    assert!(matches!(toks[1], Token::Return));
    assert!(matches!(toks[2], Token::Int));
    assert!(matches!(toks[3], Token::Print));
    assert!(matches!(toks[4], Token::Read));
    assert!(matches!(toks[5], Token::While));
    assert!(matches!(toks[6], Token::If));
    assert!(matches!(toks[7], Token::Else));
    assert!(matches!(toks[8], Token::Break));
    assert!(matches!(toks[9], Token::Continue));
    assert!(matches!(toks[10], Token::End));
}

#[test]
fn lexer_delimiters() {
    let toks = lex("( ) { } [ ] , ;").unwrap();
    assert!(matches!(toks[0], Token::LeftParen));
    assert!(matches!(toks[1], Token::RightParen));
    assert!(matches!(toks[2], Token::LeftCurly));
    assert!(matches!(toks[3], Token::RightCurly));
    assert!(matches!(toks[4], Token::LeftBracket));
    assert!(matches!(toks[5], Token::RightBracket));
    assert!(matches!(toks[6], Token::Comma));
    assert!(matches!(toks[7], Token::Semicolon));
    assert!(matches!(toks[8], Token::End));
}

#[test]
fn lexer_arithmetic_operators() {
    let toks = lex("+ - * / %").unwrap();
    assert!(matches!(toks[0], Token::Plus));
    assert!(matches!(toks[1], Token::Subtract));
    assert!(matches!(toks[2], Token::Multiply));
    assert!(matches!(toks[3], Token::Divide));
    assert!(matches!(toks[4], Token::Modulus));
    assert!(matches!(toks[5], Token::End));
}

#[test]
fn lexer_comparison_operators() {
    let toks = lex("= < <= > >= == !=").unwrap();
    assert!(matches!(toks[0], Token::Assign));
    assert!(matches!(toks[1], Token::Less));
    assert!(matches!(toks[2], Token::LessEqual));
    assert!(matches!(toks[3], Token::Greater));
    assert!(matches!(toks[4], Token::GreaterEqual));
    assert!(matches!(toks[5], Token::Equality));
    assert!(matches!(toks[6], Token::NotEqual));
    assert!(matches!(toks[7], Token::End));
}

#[test]
fn lexer_identifiers() {
    let toks = lex("var_1 = 32;").unwrap();
    assert!(matches!(&toks[0], Token::Ident(s) if s == "var_1"));
    assert!(matches!(toks[1], Token::Assign));
    assert!(matches!(toks[2], Token::Num(32)));
    assert!(matches!(toks[3], Token::Semicolon));
    assert!(matches!(toks[4], Token::End));
}

#[test]
fn lexer_rejects_invalid_tokens() {
    assert!(lex("^^^").is_err());
}

// Further cases

#[test]
fn lexer_empty_input_gives_end_only() {
    let toks = lex("").unwrap();
    assert_eq!(toks.len(), 1);
    assert!(matches!(toks[0], Token::End));
    let toks = lex("  \n  ").unwrap();
    assert_eq!(toks.len(), 1);
    assert!(matches!(toks[0], Token::End));
}

#[test]
fn lexer_skips_comments() {
    let toks = lex("# a comment ^^^\nx # another\n").unwrap();
    assert_eq!(toks.len(), 2);
    assert!(matches!(&toks[0], Token::Ident(s) if s == "x"));
    assert!(matches!(toks[1], Token::End));
}

#[test]
fn lexer_adjacent_tokens() {
    let toks = lex("a<=b!=c==d").unwrap();
    assert_eq!(toks.len(), 8);
    assert!(matches!(&toks[0], Token::Ident(s) if s == "a"));
    assert!(matches!(toks[1], Token::LessEqual));
    assert!(matches!(&toks[2], Token::Ident(s) if s == "b"));
    assert!(matches!(toks[3], Token::NotEqual));
    assert!(matches!(&toks[4], Token::Ident(s) if s == "c"));
    assert!(matches!(toks[5], Token::Equality));
    assert!(matches!(&toks[6], Token::Ident(s) if s == "d"));
    assert!(matches!(toks[7], Token::End));
}

#[test]
fn lexer_error_messages() {
    assert_eq!(lex("^^^").unwrap_err(), "Unrecognized symbol '^'");
    assert_eq!(lex("a ! b").unwrap_err(), "Unrecognized symbol '!'");
    assert_eq!(lex("x = 2a;").unwrap_err(), "Invalid identifier: 2a");
    assert_eq!(lex("x = 12ab;").unwrap_err(), "Invalid identifier: 12a");
    assert_eq!(lex("_x").unwrap_err(), "Unrecognized symbol '_'");
}

#[test]
fn lexer_keyword_prefixes_are_identifiers() {
    let toks = lex("integer if_1 whiles").unwrap();
    assert!(matches!(&toks[0], Token::Ident(s) if s == "integer"));
    assert!(matches!(&toks[1], Token::Ident(s) if s == "if_1"));
    assert!(matches!(&toks[2], Token::Ident(s) if s == "whiles"));
    assert!(matches!(toks[3], Token::End));
}

#[test]
fn lexer_number_limits() {
    let toks = lex("2147483647 0").unwrap();
    assert!(matches!(toks[0], Token::Num(2147483647)));
    assert!(matches!(toks[1], Token::Num(0)));
    // a literal beyond i32 is reported
    assert_eq!(lex("x = 2147483648;").unwrap_err(), "Number out of range: 2147483648");
    assert_eq!(lex("99999999999999999999999").unwrap_err(), "Number out of range: 99999999999999999999999");
    assert!(matches!(try_lex("2147483648"), Some(Err(_))));
    assert!(matches!(try_lex("7"), Some(Ok(_))));
}

#[test]
fn lexer_non_ascii_identifier_bytes() {
    // 'õ' is one alphabetic character in Latin-1 terms for both its bytes
    let toks = lex("a\u{f5}").unwrap();
    assert_eq!(toks.len(), 2);
    assert!(matches!(&toks[0], Token::Ident(s) if s == "a\u{f5}"));
    // an identifier that would end inside a character is not lexed
    assert!(try_lex("a\u{e9}").is_none());
    assert!(try_lex("2\u{e9}").is_none());
}

#[test]
fn lexer_is_defined_on_ascii_text() {
    for text in ["", "a", "2a", "~", "x=1;#c", "99999999999", "func main() { read(x); }", "\t"] {
        assert!(try_lex(text).is_some(), "ascii text {:?} left out", text);
    }
}
