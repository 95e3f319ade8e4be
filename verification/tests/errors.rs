use lox_scanner::scanner::{scan_tokens, Errors};

fn syntax_error(source: &str) -> String {
    match scan_tokens(String::from(source)) {
        Err(Errors::SyntaxError(message)) => message,
        other => panic!("expected a syntax error, got {:?}", other),
    }
}

#[test]
fn unterminated_string_is_reported_with_its_line() {
    let message = syntax_error("\"hello");
    assert_eq!(message, "Unterminated String at line 1");
    assert!(message.to_lowercase().contains("unterminated string"));
    assert!(message.contains("1"));
}

#[test]
fn unterminated_string_on_a_later_line() {
    assert_eq!(syntax_error("var a;\n\nvar b = \"abc;"), "Unterminated String at line 3");
}

#[test]
fn unterminated_string_is_reported_on_the_line_it_opens() {
    assert_eq!(syntax_error("a\n\"b\nc\nd"), "Unterminated String at line 2");
}

#[test]
fn lone_quote_is_an_unterminated_string() {
    assert_eq!(syntax_error("\""), "Unterminated String at line 1");
    assert_eq!(syntax_error("\"a\" \""), "Unterminated String at line 1");
}

#[test]
fn unsupported_characters_are_reported() {
    assert_eq!(syntax_error("$"), "Unsupported token $ at line 1");
    assert_eq!(syntax_error("a % b"), "Unsupported token % at line 1");
    assert_eq!(syntax_error("\n@"), "Unsupported token @ at line 2");
}

#[test]
fn character_outside_ascii_is_reported() {
    assert_eq!(syntax_error("var a = 1;\n var b = ยบ;"), "Unsupported token ย at line 2");
    assert_eq!(syntax_error("é"), "Unsupported token é at line 1");
}

#[test]
fn tab_and_carriage_return_are_unsupported() {
    assert_eq!(syntax_error("a\tb"), "Unsupported token \t at line 1");
    assert_eq!(syntax_error("a\r\nb"), "Unsupported token \r at line 1");
}

#[test]
fn digit_outside_ascii_is_unsupported() {
    assert_eq!(syntax_error("1٣"), "Unsupported token ٣ at line 1");
}

#[test]
fn first_fault_is_the_one_reported() {
    assert_eq!(syntax_error("$ @ \""), "Unsupported token $ at line 1");
    assert_eq!(syntax_error("a\n\"b\n$"), "Unterminated String at line 2");
    assert_eq!(syntax_error("a\n@\n\"b"), "Unsupported token @ at line 2");
}

#[test]
fn fault_leaves_no_tokens() {
    let result = scan_tokens(String::from("var a = 1; $"));
    assert_eq!(result, Err(Errors::SyntaxError(String::from("Unsupported token $ at line 1"))));
}

#[test]
fn fault_inside_a_comment_or_a_string_is_none() {
    assert!(scan_tokens(String::from("// $ @ %")).is_ok());
    assert!(scan_tokens(String::from("\"$ @ %\"")).is_ok());
}

#[test]
fn line_numbers_are_written_in_decimal() {
    assert_eq!(syntax_error(&format!("{}$", "\n".repeat(8))), "Unsupported token $ at line 9");
    assert_eq!(syntax_error(&format!("{}$", "\n".repeat(9))), "Unsupported token $ at line 10");
    assert_eq!(syntax_error(&format!("{}$", "\n".repeat(99))), "Unsupported token $ at line 100");
    assert_eq!(syntax_error(&format!("{}$", "\n".repeat(1204))), "Unsupported token $ at line 1205");
    assert_eq!(
        syntax_error(&format!("{}\"", "\n".repeat(30_000))),
        "Unterminated String at line 30001"
    );
}

#[test]
fn file_not_found_is_no_syntax_error() {
    assert_ne!(Errors::FileNotFound, Errors::SyntaxError(String::new()));
    assert_eq!(format!("{:?}", Errors::FileNotFound), "FileNotFound");
}
