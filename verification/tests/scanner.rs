use lox_scanner::scanner::{scan_tokens, Errors};
use lox_scanner::token::{Token, TokenType};

fn scan(source: &str) -> Result<Vec<Token>, Errors> {
    scan_tokens(String::from(source))
}

fn kinds(source: &str) -> Vec<TokenType> {
    scan(source).unwrap().iter().map(|token| token.kind()).collect()
}

fn token(kind: TokenType, lexeme: &str, line: usize) -> Token {
    Token::new(kind, String::from(lexeme), line)
}

#[test]
fn it_should_return_tokens() {
    let source_code = String::from("var a = 1;\nwhile (a < 10) { print a; a = a + 1;}");
    let tokens = scan_tokens(source_code);
    assert_eq!(tokens.is_ok(), true);
}

#[test]
fn it_should_return_error() {
    let source_code = String::from("var a = 1;\n var b = ยบ;");
    let tokens = scan_tokens(source_code);
    assert_eq!(tokens.is_err(), true);
}

#[test]
fn it_should_return_error_string() {
    let source_code = String::from("");
    let tokens = scan_tokens(source_code);
    assert_eq!(tokens.is_err(), false);
}

#[test]
fn empty_source_gives_no_tokens() {
    assert_eq!(scan(""), Ok(vec![]));
}

#[test]
fn blank_source_gives_no_tokens() {
    assert_eq!(scan("   "), Ok(vec![]));
    assert_eq!(scan("\n\n"), Ok(vec![]));
    assert_eq!(scan(" \n  \n "), Ok(vec![]));
}

#[test]
fn loop_program_gives_kinds_lexemes_and_lines() {
    let source = "var a = 1;\nwhile (a < 10) { print a; a = a + 1;}";
    let tokens = scan(source).unwrap();
    let found: Vec<TokenType> = tokens.iter().map(|token| token.kind()).collect();
    assert_eq!(
        found,
        vec![
            TokenType::Var,
            TokenType::Identifier,
            TokenType::Equal,
            TokenType::Number,
            TokenType::Semicolon,
            TokenType::While,
            TokenType::LeftParen,
            TokenType::Identifier,
            TokenType::Less,
            TokenType::Number,
            TokenType::RightParen,
            TokenType::LeftBrace,
            TokenType::Print,
            TokenType::Identifier,
            TokenType::Semicolon,
            TokenType::Identifier,
            TokenType::Equal,
            TokenType::Identifier,
            TokenType::Plus,
            TokenType::Number,
            TokenType::Semicolon,
            TokenType::RightBrace,
        ]
    );
    let lines: Vec<usize> = tokens.iter().map(|token| token.line()).collect();
    assert_eq!(lines, vec![1, 1, 1, 1, 1, 2, 2, 2, 2, 2, 2, 2, 2, 2, 2, 2, 2, 2, 2, 2, 2, 2]);
    let lexemes: Vec<&str> = tokens.iter().map(|token| token.lexeme()).collect();
    assert_eq!(
        lexemes,
        vec![
            "var", "a", "=", "1", ";", "while", "(", "a", "<", "10", ")", "{", "print", "a", ";",
            "a", "=", "a", "+", "1", ";", "}"
        ]
    );
}

#[test]
fn sum_and_equality() {
    assert_eq!(
        scan("1 + 2 == 3"),
        Ok(vec![
            token(TokenType::Number, "1", 1),
            token(TokenType::Plus, "+", 1),
            token(TokenType::Number, "2", 1),
            token(TokenType::EqualEqual, "==", 1),
            token(TokenType::Number, "3", 1),
        ])
    );
}

#[test]
fn comment_line_is_skipped() {
    assert_eq!(
        scan("// comment only\nvar x;"),
        Ok(vec![
            token(TokenType::Var, "var", 2),
            token(TokenType::Identifier, "x", 2),
            token(TokenType::Semicolon, ";", 2),
        ])
    );
}

#[test]
fn comment_runs_to_the_end_of_its_line_only() {
    assert_eq!(scan("// nothing here"), Ok(vec![]));
    assert_eq!(scan("//"), Ok(vec![]));
    assert_eq!(
        scan("a // b $ \" c\nd"),
        Ok(vec![token(TokenType::Identifier, "a", 1), token(TokenType::Identifier, "d", 2)])
    );
}

#[test]
fn lone_slash_is_a_token() {
    assert_eq!(scan("/"), Ok(vec![token(TokenType::Slash, "/", 1)]));
    assert_eq!(kinds("a / b"), vec![TokenType::Identifier, TokenType::Slash, TokenType::Identifier]);
    assert_eq!(kinds("/ /"), vec![TokenType::Slash, TokenType::Slash]);
}

#[test]
fn every_punctuation_character() {
    assert_eq!(
        scan("+-*;,.(){}"),
        Ok(vec![
            token(TokenType::Plus, "+", 1),
            token(TokenType::Minus, "-", 1),
            token(TokenType::Star, "*", 1),
            token(TokenType::Semicolon, ";", 1),
            token(TokenType::Comma, ",", 1),
            token(TokenType::Dot, ".", 1),
            token(TokenType::LeftParen, "(", 1),
            token(TokenType::RightParen, ")", 1),
            token(TokenType::LeftBrace, "{", 1),
            token(TokenType::RightBrace, "}", 1),
        ])
    );
}

#[test]
fn operators_alone() {
    assert_eq!(
        scan("= ! < >"),
        Ok(vec![
            token(TokenType::Equal, "=", 1),
            token(TokenType::Bang, "!", 1),
            token(TokenType::Less, "<", 1),
            token(TokenType::Greater, ">", 1),
        ])
    );
}

#[test]
fn operators_take_the_equals_sign() {
    assert_eq!(
        scan("== != <= >="),
        Ok(vec![
            token(TokenType::EqualEqual, "==", 1),
            token(TokenType::BangEqual, "!=", 1),
            token(TokenType::LessEqual, "<=", 1),
            token(TokenType::GreaterEqual, ">=", 1),
        ])
    );
    assert_eq!(kinds("a==b"), vec![TokenType::Identifier, TokenType::EqualEqual, TokenType::Identifier]);
    assert_eq!(kinds("a>=b"), vec![TokenType::Identifier, TokenType::GreaterEqual, TokenType::Identifier]);
}

#[test]
fn operators_apart_stay_apart() {
    assert_eq!(kinds("= ="), vec![TokenType::Equal, TokenType::Equal]);
    assert_eq!(kinds("! ="), vec![TokenType::Bang, TokenType::Equal]);
    assert_eq!(kinds("<\n="), vec![TokenType::Less, TokenType::Equal]);
}

#[test]
fn operators_pair_from_the_left() {
    assert_eq!(kinds("==="), vec![TokenType::EqualEqual, TokenType::Equal]);
    assert_eq!(kinds("===="), vec![TokenType::EqualEqual, TokenType::EqualEqual]);
    assert_eq!(kinds("!=="), vec![TokenType::BangEqual, TokenType::Equal]);
    assert_eq!(kinds("<=>"), vec![TokenType::LessEqual, TokenType::Greater]);
    assert_eq!(kinds("=!"), vec![TokenType::Equal, TokenType::Bang]);
}

#[test]
fn every_keyword() {
    assert_eq!(
        kinds("and class else false for fun if nil or print return super this true var while"),
        vec![
            TokenType::And,
            TokenType::Class,
            TokenType::Else,
            TokenType::False,
            TokenType::For,
            TokenType::Fun,
            TokenType::If,
            TokenType::Nil,
            TokenType::Or,
            TokenType::Print,
            TokenType::Return,
            TokenType::Super,
            TokenType::This,
            TokenType::True,
            TokenType::Var,
            TokenType::While,
        ]
    );
}

#[test]
fn longer_word_is_no_keyword() {
    assert_eq!(scan("printer"), Ok(vec![token(TokenType::Identifier, "printer", 1)]));
    assert_eq!(scan("classy"), Ok(vec![token(TokenType::Identifier, "classy", 1)]));
    assert_eq!(scan("i"), Ok(vec![token(TokenType::Identifier, "i", 1)]));
    assert_eq!(scan("fo"), Ok(vec![token(TokenType::Identifier, "fo", 1)]));
    assert_eq!(scan("_for"), Ok(vec![token(TokenType::Identifier, "_for", 1)]));
    assert_eq!(scan("for_"), Ok(vec![token(TokenType::Identifier, "for_", 1)]));
}

#[test]
fn keywords_are_lower_case() {
    assert_eq!(scan("Print"), Ok(vec![token(TokenType::Identifier, "Print", 1)]));
    assert_eq!(scan("WHILE"), Ok(vec![token(TokenType::Identifier, "WHILE", 1)]));
}

#[test]
fn word_stops_at_a_digit() {
    assert_eq!(
        scan("abc1"),
        Ok(vec![token(TokenType::Identifier, "abc", 1), token(TokenType::Number, "1", 1)])
    );
    assert_eq!(
        scan("var1"),
        Ok(vec![token(TokenType::Var, "var", 1), token(TokenType::Number, "1", 1)])
    );
}

#[test]
fn underscore_begins_a_word() {
    assert_eq!(scan("_"), Ok(vec![token(TokenType::Identifier, "_", 1)]));
    assert_eq!(scan("_a_B"), Ok(vec![token(TokenType::Identifier, "_a_B", 1)]));
}

#[test]
fn whole_number() {
    assert_eq!(scan("0"), Ok(vec![token(TokenType::Number, "0", 1)]));
    assert_eq!(scan("1234567890"), Ok(vec![token(TokenType::Number, "1234567890", 1)]));
}

#[test]
fn number_with_a_fraction() {
    assert_eq!(scan("1.5"), Ok(vec![token(TokenType::Number, "1.5", 1)]));
    assert_eq!(scan("12.25;"), Ok(vec![
        token(TokenType::Number, "12.25", 1),
        token(TokenType::Semicolon, ";", 1),
    ]));
}

#[test]
fn number_takes_digits_and_dots_once_a_digit_follows_the_dot() {
    assert_eq!(scan("1.2.3"), Ok(vec![token(TokenType::Number, "1.2.3", 1)]));
    assert_eq!(scan("1.2..4."), Ok(vec![token(TokenType::Number, "1.2..4.", 1)]));
}

#[test]
fn number_leaves_a_dot_that_no_digit_follows() {
    assert_eq!(
        scan("1."),
        Ok(vec![token(TokenType::Number, "1", 1), token(TokenType::Dot, ".", 1)])
    );
    assert_eq!(
        scan("1..5"),
        Ok(vec![
            token(TokenType::Number, "1", 1),
            token(TokenType::Dot, ".", 1),
            token(TokenType::Dot, ".", 1),
            token(TokenType::Number, "5", 1),
        ])
    );
    assert_eq!(
        scan("1.a"),
        Ok(vec![
            token(TokenType::Number, "1", 1),
            token(TokenType::Dot, ".", 1),
            token(TokenType::Identifier, "a", 1),
        ])
    );
}

#[test]
fn number_stops_at_what_is_no_dot() {
    assert_eq!(
        scan("1 2"),
        Ok(vec![token(TokenType::Number, "1", 1), token(TokenType::Number, "2", 1)])
    );
    assert_eq!(
        scan("1a2"),
        Ok(vec![
            token(TokenType::Number, "1", 1),
            token(TokenType::Identifier, "a", 1),
            token(TokenType::Number, "2", 1),
        ])
    );
    assert_eq!(
        scan("7+8"),
        Ok(vec![
            token(TokenType::Number, "7", 1),
            token(TokenType::Plus, "+", 1),
            token(TokenType::Number, "8", 1),
        ])
    );
}

#[test]
fn dot_before_a_number_is_its_own_token() {
    assert_eq!(
        scan(".5"),
        Ok(vec![token(TokenType::Dot, ".", 1), token(TokenType::Number, "5", 1)])
    );
}

#[test]
fn string_lexeme_leaves_the_quotes_out() {
    assert_eq!(scan("\"hello\""), Ok(vec![token(TokenType::String, "hello", 1)]));
    assert_eq!(scan("\"\""), Ok(vec![token(TokenType::String, "", 1)]));
    assert_eq!(
        scan("\"a b\"+\"c\""),
        Ok(vec![
            token(TokenType::String, "a b", 1),
            token(TokenType::Plus, "+", 1),
            token(TokenType::String, "c", 1),
        ])
    );
}

#[test]
fn string_holds_any_character() {
    assert_eq!(scan("\"$ % @ // var 1.5\""), Ok(vec![token(TokenType::String, "$ % @ // var 1.5", 1)]));
    assert_eq!(
        scan("\"ยบ\" + \"é\""),
        Ok(vec![
            token(TokenType::String, "ยบ", 1),
            token(TokenType::Plus, "+", 1),
            token(TokenType::String, "é", 1),
        ])
    );
}

#[test]
fn line_break_inside_a_string_is_not_counted() {
    assert_eq!(
        scan("\"a\nb\" c\nd"),
        Ok(vec![
            token(TokenType::String, "a\nb", 1),
            token(TokenType::Identifier, "c", 1),
            token(TokenType::Identifier, "d", 2),
        ])
    );
}

#[test]
fn lines_count_line_breaks_between_tokens() {
    assert_eq!(
        scan("\n\na\n\n\nb // c\n\nd"),
        Ok(vec![
            token(TokenType::Identifier, "a", 3),
            token(TokenType::Identifier, "b", 6),
            token(TokenType::Identifier, "d", 8),
        ])
    );
}

#[test]
fn lexemes_are_pieces_of_the_source_in_order() {
    let source = "fun add(a, b) { return a + b; } // sum\nprint add(1.5, 20) >= \"x y\";";
    let tokens = scan(source).unwrap();
    let mut from: usize = 0;
    for token in tokens.iter() {
        let at: usize = source[from..].find(token.lexeme()).unwrap();
        from = from + at + token.lexeme().len();
    }
    let lexemes: Vec<&str> = tokens.iter().map(|token| token.lexeme()).collect();
    assert_eq!(
        lexemes,
        vec![
            "fun", "add", "(", "a", ",", "b", ")", "{", "return", "a", "+", "b", ";", "}",
            "print", "add", "(", "1.5", ",", "20", ")", ">=", "x y", ";"
        ]
    );
    let lines: Vec<usize> = tokens.iter().map(|token| token.line()).collect();
    assert_eq!(lines, vec![1, 1, 1, 1, 1, 1, 1, 1, 1, 1, 1, 1, 1, 1, 2, 2, 2, 2, 2, 2, 2, 2, 2, 2]);
}

#[test]
fn scanning_twice_gives_the_same() {
    let source = "var a = \"one\";\nif (a != nil) { print a; } // done";
    assert_eq!(scan(source), scan(source));
    let broken = "var a = 1;\n@";
    assert_eq!(scan(broken), scan(broken));
}
