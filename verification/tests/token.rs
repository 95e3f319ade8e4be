use lox_scanner::parser::Parser;
use lox_scanner::scanner::scan_tokens;
use lox_scanner::token::{Token, TokenType};

#[test]
fn token_holds_what_it_was_made_of() {
    let token = Token::new(TokenType::Identifier, String::from("count"), 7);
    assert_eq!(token.kind(), TokenType::Identifier);
    assert_eq!(token.lexeme(), "count");
    assert_eq!(token.line(), 7);
}

#[test]
fn tokens_are_equal_when_all_parts_are() {
    let token = Token::new(TokenType::Number, String::from("1"), 1);
    assert_eq!(token, Token::new(TokenType::Number, String::from("1"), 1));
    assert_ne!(token, Token::new(TokenType::String, String::from("1"), 1));
    assert_ne!(token, Token::new(TokenType::Number, String::from("2"), 1));
    assert_ne!(token, Token::new(TokenType::Number, String::from("1"), 2));
}

#[test]
fn token_kinds_can_be_copied_and_compared() {
    let kind = TokenType::While;
    let copy = kind;
    assert_eq!(kind, copy);
    assert_ne!(TokenType::Less, TokenType::LessEqual);
}

#[test]
fn parser_takes_the_tokens_of_a_scan() {
    let tokens = scan_tokens(String::from("print 1;")).unwrap();
    let _parser = Parser::new(tokens);
    let _empty = Parser::new(Vec::new());
}

#[test]
fn large_source_is_scanned_in_one_pass() {
    let line = "var total = total + 12.5; // running sum\n";
    let source = line.repeat(20_000);
    let tokens = scan_tokens(source).unwrap();
    assert_eq!(tokens.len(), 7 * 20_000);
    assert_eq!(tokens[tokens.len() - 1].line(), 20_000);
    assert_eq!(tokens[tokens.len() - 2].lexeme(), "12.5");
}
