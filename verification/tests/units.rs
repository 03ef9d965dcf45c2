//! Unit tests for the tokenizer, the parser helpers, number parsing and
//! decimal rendering.

use reaper::numfmt::format_i64;
use reaper::parser::{Parser, ParseError, parse_i64};
use reaper::tokenizer::{Token, TokenKind, Tokenizer};

fn kinds_of(src: &str) -> Vec<TokenKind> {
    let mut t = Tokenizer::new(src.as_bytes().to_vec());
    t.tokenize().into_iter().map(|tok| tok.kind).collect()
}

#[test]
fn tokenize_function_header() {
    assert_eq!(
        kinds_of("fn id(x,) {"),
        vec![
            TokenKind::Fn,
            TokenKind::Identifier,
            TokenKind::LeftParen,
            TokenKind::Identifier,
            TokenKind::Comma,
            TokenKind::RightParen,
            TokenKind::LeftBrace,
        ]
    );
}

#[test]
fn tokenize_operators() {
    assert_eq!(
        kinds_of("== != = ! < + - * /"),
        vec![
            TokenKind::DoubleEqual,
            TokenKind::BangEqual,
            TokenKind::Equal,
            TokenKind::Bang,
            TokenKind::Less,
            TokenKind::Plus,
            TokenKind::Minus,
            TokenKind::Star,
            TokenKind::Slash,
        ]
    );
}

#[test]
fn tokenize_values() {
    let mut t = Tokenizer::new(b"counter2 1234 true".to_vec());
    let tokens = t.tokenize();
    assert_eq!(tokens.len(), 3);
    assert_eq!(tokens[0].kind, TokenKind::Identifier);
    assert_eq!(tokens[0].value, b"counter2".to_vec());
    assert_eq!(tokens[1].kind, TokenKind::Number);
    assert_eq!(tokens[1].value, b"1234".to_vec());
    assert_eq!(tokens[2].kind, TokenKind::True);
}

#[test]
fn tokenize_fractional_number_is_one_token() {
    let mut t = Tokenizer::new(b"1.5".to_vec());
    let tokens = t.tokenize();
    assert_eq!(tokens.len(), 1);
    assert_eq!(tokens[0].kind, TokenKind::Number);
    assert_eq!(tokens[0].value, b"1.5".to_vec());
}

#[test]
fn tokenize_keyword_wins_over_identifier_prefix() {
    let mut t = Tokenizer::new(b"iffy".to_vec());
    let tokens = t.tokenize();
    assert_eq!(tokens.len(), 2);
    assert_eq!(tokens[0].kind, TokenKind::If);
    assert_eq!(tokens[1].kind, TokenKind::Identifier);
    assert_eq!(tokens[1].value, b"fy".to_vec());
}

#[test]
fn tokenize_skips_unknown_bytes() {
    assert_eq!(kinds_of("  @ print # ; "), vec![TokenKind::Print, TokenKind::Semicolon]);
}

#[test]
fn tokenize_string_token() {
    let mut t = Tokenizer::new(b"\"abc\"".to_vec());
    let tokens = t.tokenize();
    assert_eq!(tokens.len(), 1);
    assert_eq!(tokens[0].kind, TokenKind::String);
    assert_eq!(tokens[0].value, b"\"abc\"".to_vec());
}

#[test]
fn tokenizer_next_steps_through() {
    let mut t = Tokenizer::new(b"print 1;".to_vec());
    assert_eq!(t.next().expect("token").kind, TokenKind::Print);
    assert_eq!(t.next().expect("token").kind, TokenKind::Number);
    assert_eq!(t.next().expect("token").kind, TokenKind::Semicolon);
    assert!(t.next().is_none());
    assert!(t.next().is_none());
}

#[test]
fn token_new_keeps_fields() {
    let t = Token::new(TokenKind::Identifier, b"abc".to_vec());
    assert_eq!(t.kind, TokenKind::Identifier);
    assert_eq!(t.value, b"abc".to_vec());
}

#[test]
fn parser_helpers() {
    let mut tk = Tokenizer::new(b"print 1;".to_vec());
    let tokens = tk.tokenize();
    let mut p = Parser::new();
    p.tokens = tokens;
    p.pos = 0;
    assert!(p.check(TokenKind::Print));
    assert!(!p.check(TokenKind::Number));
    assert!(!p.is_next(TokenKind::Number));
    assert!(p.is_next(TokenKind::Print));
    let t = p.consume(TokenKind::Number).expect("number");
    assert_eq!(t.value, b"1".to_vec());
    assert!(p.consume(TokenKind::Number).is_none());
    p.advance();
    let before = p.pos;
    p.advance();
    assert_eq!(p.pos, before);
}

#[test]
fn parse_rejects_fractional_literal() {
    let mut tk = Tokenizer::new(b"print 1.5;".to_vec());
    let tokens = tk.tokenize();
    let mut p = Parser::new();
    assert_eq!(p.parse(tokens).unwrap_err(), ParseError::BadNumber);
}

#[test]
fn parse_rejects_oversized_literal() {
    let mut tk = Tokenizer::new(b"print 99999999999999999999;".to_vec());
    let tokens = tk.tokenize();
    let mut p = Parser::new();
    assert_eq!(p.parse(tokens).unwrap_err(), ParseError::BadNumber);
}

#[test]
fn parse_rejects_missing_semicolon() {
    let mut tk = Tokenizer::new(b"print 1".to_vec());
    let tokens = tk.tokenize();
    let mut p = Parser::new();
    assert_eq!(p.parse(tokens).unwrap_err(), ParseError::UnexpectedToken);
}

#[test]
fn parse_rejects_unclosed_block() {
    let mut tk = Tokenizer::new(b"{ print 1;".to_vec());
    let tokens = tk.tokenize();
    let mut p = Parser::new();
    assert_eq!(p.parse(tokens).unwrap_err(), ParseError::UnexpectedEnd);
}

#[test]
fn parse_rejects_literal_callee() {
    let mut tk = Tokenizer::new(b"print 1(2);".to_vec());
    let tokens = tk.tokenize();
    let mut p = Parser::new();
    assert_eq!(p.parse(tokens).unwrap_err(), ParseError::BadCallee);
}

#[test]
fn parse_i64_reads_digits() {
    assert_eq!(parse_i64(&b"0".to_vec()), Some(0));
    assert_eq!(parse_i64(&b"123".to_vec()), Some(123));
    assert_eq!(parse_i64(&b"007".to_vec()), Some(7));
    assert_eq!(parse_i64(&b"9223372036854775807".to_vec()), Some(i64::MAX));
}

#[test]
fn parse_i64_rejects_non_numbers() {
    assert_eq!(parse_i64(&b"".to_vec()), None);
    assert_eq!(parse_i64(&b"12a".to_vec()), None);
    assert_eq!(parse_i64(&b"1.5".to_vec()), None);
    assert_eq!(parse_i64(&b"-3".to_vec()), None);
    assert_eq!(parse_i64(&b"9223372036854775808".to_vec()), None);
}

#[test]
fn format_i64_renders_decimal() {
    assert_eq!(format_i64(0), b"0".to_vec());
    assert_eq!(format_i64(7), b"7".to_vec());
    assert_eq!(format_i64(-5), b"-5".to_vec());
    assert_eq!(format_i64(1000), b"1000".to_vec());
    assert_eq!(format_i64(i64::MAX), b"9223372036854775807".to_vec());
    assert_eq!(format_i64(i64::MIN), b"-9223372036854775808".to_vec());
}
