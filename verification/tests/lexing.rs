//! The lexer's token-by-token behaviour, including the documented keyword
//! hazards and the masking of unrecognized characters.

use loq::lexer::{Lexer, Token};

#[test]
fn keywords_and_punctuation() {
    let mut lexer = Lexer::new("let x = 1 + 2; pn 3 - 4; pnl 5 * 6 / 2;");
    let expected = vec![
        Token::Let,
        Token::Identifier(String::from("x")),
        Token::Assign,
        Token::Number(1),
        Token::Plus,
        Token::Number(2),
        Token::Semicolon,
        Token::Print,
        Token::Number(3),
        Token::Minus,
        Token::Number(4),
        Token::Semicolon,
        Token::PrintLn,
        Token::Number(5),
        Token::Multiply,
        Token::Number(6),
        Token::Divide,
        Token::Number(2),
        Token::Semicolon,
        Token::EOF,
    ];
    for want in expected {
        assert_eq!(lexer.next_token(), want);
    }
}

#[test]
fn keyword_match_is_greedy_without_boundary() {
    // "pn" is matched as a keyword even inside what looks like one
    // identifier; the rest lexes separately.
    let mut lexer = Lexer::new("pnx");
    assert_eq!(lexer.next_token(), Token::Print);
    assert_eq!(lexer.next_token(), Token::Identifier(String::from("x")));
    assert_eq!(lexer.next_token(), Token::EOF);
}

#[test]
fn longest_keyword_wins() {
    let mut lexer = Lexer::new("pnl x;");
    assert_eq!(lexer.next_token(), Token::PrintLn);
    assert_eq!(lexer.next_token(), Token::Identifier(String::from("x")));
    assert_eq!(lexer.next_token(), Token::Semicolon);
}

#[test]
fn let_prefix_consumes_keyword() {
    let mut lexer = Lexer::new("letx");
    assert_eq!(lexer.next_token(), Token::Let);
    assert_eq!(lexer.next_token(), Token::Identifier(String::from("x")));
}

#[test]
fn near_keywords_fall_through_to_identifiers() {
    let mut lexer = Lexer::new("pony lone");
    assert_eq!(lexer.next_token(), Token::Identifier(String::from("pony")));
    assert_eq!(lexer.next_token(), Token::Identifier(String::from("lone")));
    assert_eq!(lexer.next_token(), Token::EOF);
}

#[test]
fn whitespace_is_skipped() {
    let mut lexer = Lexer::new("  \t\r\n let ");
    assert_eq!(lexer.next_token(), Token::Let);
    assert_eq!(lexer.next_token(), Token::EOF);
}

#[test]
fn sentinel_repeats_forever() {
    let mut lexer = Lexer::new("x");
    assert_eq!(lexer.next_token(), Token::Identifier(String::from("x")));
    assert_eq!(lexer.next_token(), Token::EOF);
    assert_eq!(lexer.next_token(), Token::EOF);
    assert_eq!(lexer.next_token(), Token::EOF);
}

#[test]
fn unrecognized_character_masks_as_end_of_input() {
    let mut lexer = Lexer::new("@ let");
    assert_eq!(lexer.next_token(), Token::EOF);
    assert_eq!(lexer.next_token(), Token::EOF);
}

#[test]
fn decimal_point_is_not_number_syntax() {
    // "3.5" lexes as the integer 3; the stray '.' then masks the rest.
    let mut lexer = Lexer::new("3.5");
    assert_eq!(lexer.next_token(), Token::Number(3));
    assert_eq!(lexer.next_token(), Token::EOF);
}

#[test]
fn number_literal_value() {
    let mut lexer = Lexer::new("0 42 007");
    assert_eq!(lexer.next_token(), Token::Number(0));
    assert_eq!(lexer.next_token(), Token::Number(42));
    assert_eq!(lexer.next_token(), Token::Number(7));
}

#[test]
fn oversized_literal_saturates() {
    let mut lexer = Lexer::new("99999999999999999999");
    assert_eq!(lexer.next_token(), Token::Number(i64::MAX));
    assert_eq!(lexer.next_token(), Token::EOF);
}

#[test]
fn largest_literal_is_exact() {
    let mut lexer = Lexer::new("9223372036854775807");
    assert_eq!(lexer.next_token(), Token::Number(i64::MAX));
}

#[test]
fn match_keyword_advances_only_on_success() {
    let mut lexer = Lexer::new("letter");
    assert!(lexer.match_keyword("let"));
    assert!(!lexer.match_keyword("let"));
    assert_eq!(lexer.next_token(), Token::Identifier(String::from("ter")));
}

#[test]
fn skip_whitespace_stops_at_content() {
    let mut lexer = Lexer::new("   7");
    lexer.skip_whitespace();
    assert_eq!(lexer.next_token(), Token::Number(7));
}
