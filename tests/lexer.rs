use aurora::error::Error;
use aurora::lexer::{Lexer, Token};

fn lexer(src: &str) -> Lexer {
    Lexer::new(src.as_bytes().to_vec())
}

fn all_tokens(src: &str) -> Vec<Token> {
    let mut l = lexer(src);
    let mut out = Vec::new();
    loop {
        let t = l.next_token().expect("token");
        let end = t == Token::Eof;
        out.push(t);
        if end {
            return out;
        }
    }
}

fn ident(s: &str) -> Token {
    Token::Identifier(s.to_string())
}

#[test]
fn lexes_function_header_round_trip() {
    let tokens = all_tokens("fn foo(x: i32) i32 { return x + 1; }");
    assert_eq!(
        tokens,
        vec![
            Token::Def,
            ident("foo"),
            Token::OpenParen,
            ident("x"),
            Token::Colon,
            ident("i32"),
            Token::CloseParen,
            ident("i32"),
            Token::OpenBracket,
            Token::Return,
            ident("x"),
            Token::Plus,
            Token::Integer(1),
            Token::SemiColon,
            Token::CloseBracket,
            Token::Eof,
        ]
    );
}

#[test]
fn eof_is_reached_and_repeats() {
    let mut l = lexer("let a = 3;\n# done\n");
    let mut steps = 0;
    while l.next_token().unwrap() != Token::Eof {
        steps += 1;
        assert!(steps < 100);
    }
    assert_eq!(steps, 5);
    for _ in 0..3 {
        assert_eq!(l.next_token().unwrap(), Token::Eof);
    }
    assert_eq!(l.peek(4).unwrap(), Token::Eof);
    assert_eq!(l.next_token().unwrap(), Token::Eof);
}

#[test]
fn empty_input_is_eof() {
    let mut l = lexer("");
    assert_eq!(l.next_token().unwrap(), Token::Eof);
    assert_eq!(l.next_token().unwrap(), Token::Eof);
}

#[test]
fn peek_then_next_agree() {
    let mut l = lexer("extern putfloatd(x: f64);");
    loop {
        let peeked = l.peek(0).unwrap();
        let read = l.next_token().unwrap();
        assert_eq!(peeked, read);
        if read == Token::Eof {
            break;
        }
    }
}

#[test]
fn peek_ahead_does_not_consume() {
    let mut l = lexer("a = b;");
    assert_eq!(l.peek(1).unwrap(), Token::Equal);
    assert_eq!(l.peek(0).unwrap(), ident("a"));
    assert_eq!(l.peek(3).unwrap(), Token::SemiColon);
    assert_eq!(l.next_token().unwrap(), ident("a"));
    assert_eq!(l.next_token().unwrap(), Token::Equal);
    assert_eq!(l.next_token().unwrap(), ident("b"));
}

#[test]
fn line_counts_newlines_read() {
    let mut l = lexer("a\nb\n\n# note\nc");
    assert_eq!(l.get_line(), 1);
    assert_eq!(l.next_token().unwrap(), ident("a"));
    assert_eq!(l.get_line(), 1);
    assert_eq!(l.next_token().unwrap(), ident("b"));
    assert_eq!(l.get_line(), 2);
    assert_eq!(l.next_token().unwrap(), ident("c"));
    assert_eq!(l.get_line(), 5);
    assert_eq!(l.next_token().unwrap(), Token::Eof);
    assert_eq!(l.get_line(), 5);
}

#[test]
fn column_tracks_read_position() {
    let mut l = lexer("ab cd\nx");
    assert_eq!(l.get_pos(), 1);
    l.next_token().unwrap();
    assert_eq!(l.get_pos(), 3);
    l.next_token().unwrap();
    assert_eq!(l.get_pos(), 6);
    l.next_token().unwrap();
    assert_eq!(l.get_pos(), 2);
}

#[test]
fn keywords_and_identifiers() {
    assert_eq!(
        all_tokens("fn extern let return fnx _a1 Let"),
        vec![
            Token::Def,
            Token::Extern,
            Token::Let,
            Token::Return,
            ident("fnx"),
            ident("_a1"),
            ident("Let"),
            Token::Eof,
        ]
    );
}

#[test]
fn punctuation_and_operators() {
    assert_eq!(
        all_tokens("<+-*;,():{}="),
        vec![
            Token::LessThan,
            Token::Plus,
            Token::Minus,
            Token::Star,
            Token::SemiColon,
            Token::Comma,
            Token::OpenParen,
            Token::CloseParen,
            Token::Colon,
            Token::OpenBracket,
            Token::CloseBracket,
            Token::Equal,
            Token::Eof,
        ]
    );
}

#[test]
fn float_literals_keep_their_text() {
    assert_eq!(
        all_tokens("1.5 2. .25 7"),
        vec![
            Token::Float("1.5".to_string()),
            Token::Float("2.".to_string()),
            Token::Float(".25".to_string()),
            Token::Integer(7),
            Token::Eof,
        ]
    );
}

#[test]
fn lone_dot_is_a_float_error() {
    let mut l = lexer(". 1");
    assert_eq!(l.next_token(), Err(Error::ParseFloat));
    assert_eq!(l.next_token().unwrap(), Token::Integer(1));
}

#[test]
fn largest_integer_and_overflow() {
    let mut l = lexer("9223372036854775807 9223372036854775808 5");
    assert_eq!(l.next_token().unwrap(), Token::Integer(i64::MAX));
    assert_eq!(l.next_token(), Err(Error::ParseInt));
    assert_eq!(l.next_token().unwrap(), Token::Integer(5));
}

#[test]
fn unknown_char_is_reported_and_skipped() {
    let mut l = lexer("a $ b");
    assert_eq!(l.next_token().unwrap(), ident("a"));
    assert_eq!(l.next_token(), Err(Error::UnknownChar('$')));
    assert_eq!(l.next_token().unwrap(), ident("b"));
}

#[test]
fn comment_runs_to_end_of_line() {
    assert_eq!(
        all_tokens("a # b c\nd # e"),
        vec![ident("a"), ident("d"), Token::Eof]
    );
}

#[test]
fn same_compares_by_value() {
    assert!(ident("x").same(&ident("x")));
    assert!(!ident("x").same(&ident("y")));
    assert!(Token::Integer(3).same(&Token::Integer(3)));
    assert!(!Token::Integer(3).same(&Token::Float("3.".to_string())));
    assert!(Token::Comma.same(&Token::Comma));
    assert!(!Token::Comma.same(&Token::Colon));
    assert_eq!(ident("q").duplicate(), ident("q"));
}
