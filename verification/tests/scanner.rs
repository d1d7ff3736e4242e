use rlox::scanner::{Scanner, TokenType};

#[test]
fn scan_empty_source() {
    let mut s = Scanner::new("");
    let tok = s.scan_token();
    assert_eq!(tok.typ, TokenType::Eof);
}

#[test]
fn scan_random_identifier() {
    let mut s = Scanner::new("bar");
    let tok = s.scan_token();

    assert_eq!(tok.typ, TokenType::Identifier);
    assert_eq!(tok.name, "bar");
}

#[test]
fn scan_keywords() {
    let test_cases = vec![
        ("if", TokenType::If),
        ("class", TokenType::Class),
        ("false", TokenType::False),
        ("true", TokenType::True),
        ("true_", TokenType::Identifier),
    ];

    for (source, expected_token_type) in test_cases {
        let mut s = Scanner::new(source);
        let tok = s.scan_token();

        assert_eq!(tok.typ, expected_token_type);
        assert_eq!(tok.name, source);
    }
}

#[test]
fn scan_all_keywords() {
    let cases = vec![
        ("and", TokenType::And),
        ("else", TokenType::Else),
        ("for", TokenType::For),
        ("fun", TokenType::Fun),
        ("nil", TokenType::Nil),
        ("or", TokenType::Or),
        ("print", TokenType::Print),
        ("return", TokenType::Return),
        ("super", TokenType::Super),
        ("this", TokenType::This),
        ("var", TokenType::Var),
        ("while", TokenType::While),
        ("whilee", TokenType::Identifier),
        ("vara", TokenType::Identifier),
        ("_if", TokenType::Identifier),
    ];
    for (source, expected) in cases {
        let mut s = Scanner::new(source);
        let tok = s.scan_token();
        assert_eq!(tok.typ, expected);
        assert_eq!(tok.name, source);
    }
}

#[test]
fn scan_punctuation_and_operators() {
    let mut s = Scanner::new("(){};,.-+/*! != = == < <= > >=");
    let expected = vec![
        TokenType::LeftParen,
        TokenType::RightParen,
        TokenType::LeftBrace,
        TokenType::RightBrace,
        TokenType::Semicolon,
        TokenType::Comma,
        TokenType::Dot,
        TokenType::Minus,
        TokenType::Plus,
        TokenType::Slash,
        TokenType::Star,
        TokenType::Bang,
        TokenType::BangEqual,
        TokenType::Equal,
        TokenType::EqualEqual,
        TokenType::Less,
        TokenType::LessEqual,
        TokenType::Greater,
        TokenType::GreaterEqual,
        TokenType::Eof,
    ];
    for e in expected {
        let tok = s.scan_token();
        assert_eq!(tok.typ, e);
    }
}

#[test]
fn scan_numbers() {
    let mut s = Scanner::new("123 1.5 7.");
    let t1 = s.scan_token();
    assert_eq!(t1.typ, TokenType::Number);
    assert_eq!(t1.name, "123");
    let t2 = s.scan_token();
    assert_eq!(t2.typ, TokenType::Number);
    assert_eq!(t2.name, "1.5");
    let t3 = s.scan_token();
    assert_eq!(t3.typ, TokenType::Number);
    assert_eq!(t3.name, "7");
    let t4 = s.scan_token();
    assert_eq!(t4.typ, TokenType::Dot);
}

#[test]
fn scan_string_with_quotes_in_lexeme() {
    let mut s = Scanner::new("\"hello\"");
    let tok = s.scan_token();
    assert_eq!(tok.typ, TokenType::String);
    assert_eq!(tok.name, "\"hello\"");
}

#[test]
fn scan_multiline_string_counts_lines() {
    let mut s = Scanner::new("\"a\nb\" x");
    let tok = s.scan_token();
    assert_eq!(tok.typ, TokenType::String);
    assert_eq!(tok.line, 2);
    let tok2 = s.scan_token();
    assert_eq!(tok2.typ, TokenType::Identifier);
    assert_eq!(tok2.line, 2);
}

#[test]
fn scan_unterminated_string() {
    let mut s = Scanner::new("\"abc");
    let tok = s.scan_token();
    assert_eq!(tok.typ, TokenType::Error);
    assert_eq!(tok.name, "Unterminated string.");
}

#[test]
fn scan_unexpected_character() {
    let mut s = Scanner::new("@");
    let tok = s.scan_token();
    assert_eq!(tok.typ, TokenType::Error);
    assert_eq!(tok.name, "Unexpected character.");
}

#[test]
fn scan_skips_whitespace_and_comments() {
    let mut s = Scanner::new("  // a comment\n\t x");
    let tok = s.scan_token();
    assert_eq!(tok.typ, TokenType::Identifier);
    assert_eq!(tok.name, "x");
    assert_eq!(tok.line, 2);
    let tok2 = s.scan_token();
    assert_eq!(tok2.typ, TokenType::Eof);
}

#[test]
fn scan_eof_repeats() {
    let mut s = Scanner::new("x");
    let _ = s.scan_token();
    assert_eq!(s.scan_token().typ, TokenType::Eof);
    assert_eq!(s.scan_token().typ, TokenType::Eof);
}
