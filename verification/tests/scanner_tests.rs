use lox_front::{LexError, Scanner, Token, TokenType};

fn tok(kind: TokenType, lexeme: &str, line: i32) -> Token {
    Token { kind, lexeme: lexeme.to_string(), line }
}

#[test]
fn scanner_test1() {
    let source = "var i = 1;\n";
    let mut s = Scanner::new(source);
    assert_eq!(
        s.scan_tokens(),
        Ok(vec![
            tok(TokenType::Var, "var", 1),
            tok(TokenType::Identifier, "i", 1),
            tok(TokenType::Equal, "=", 1),
            tok(TokenType::NumberLiteral, "1", 1),
            tok(TokenType::Semicolon, ";", 1),
            tok(TokenType::Eof, "", 2),
        ])
    );
}

#[test]
fn scanner_test2() {
    let source = "var s = \"Hello, World!\";\n";
    let mut s = Scanner::new(source);
    assert_eq!(
        s.scan_tokens(),
        Ok(vec![
            tok(TokenType::Var, "var", 1),
            tok(TokenType::Identifier, "s", 1),
            tok(TokenType::Equal, "=", 1),
            tok(TokenType::StringLiteral, "\"Hello, World!\"", 1),
            tok(TokenType::Semicolon, ";", 1),
            tok(TokenType::Eof, "", 2),
        ])
    );
}

#[test]
fn scanner_test3() {
    let source = "var a = 1;\nvar b = 2;\nvar c = a + b * a - b / a;\nprint c;\n";
    let mut s = Scanner::new(source);
    assert_eq!(
        s.scan_tokens(),
        Ok(vec![
            tok(TokenType::Var, "var", 1),
            tok(TokenType::Identifier, "a", 1),
            tok(TokenType::Equal, "=", 1),
            tok(TokenType::NumberLiteral, "1", 1),
            tok(TokenType::Semicolon, ";", 1),
            tok(TokenType::Var, "var", 2),
            tok(TokenType::Identifier, "b", 2),
            tok(TokenType::Equal, "=", 2),
            tok(TokenType::NumberLiteral, "2", 2),
            tok(TokenType::Semicolon, ";", 2),
            tok(TokenType::Var, "var", 3),
            tok(TokenType::Identifier, "c", 3),
            tok(TokenType::Equal, "=", 3),
            tok(TokenType::Identifier, "a", 3),
            tok(TokenType::Plus, "+", 3),
            tok(TokenType::Identifier, "b", 3),
            tok(TokenType::Star, "*", 3),
            tok(TokenType::Identifier, "a", 3),
            tok(TokenType::Minus, "-", 3),
            tok(TokenType::Identifier, "b", 3),
            tok(TokenType::Slash, "/", 3),
            tok(TokenType::Identifier, "a", 3),
            tok(TokenType::Semicolon, ";", 3),
            tok(TokenType::Print, "print", 4),
            tok(TokenType::Identifier, "c", 4),
            tok(TokenType::Semicolon, ";", 4),
            tok(TokenType::Eof, "", 5),
        ])
    );
}

#[test]
fn simple_tokens_classified_in_order() {
    let source = "( ) { } , . - + ; * / ! != = == < <= > >= ";
    let mut s = Scanner::new(source);
    let tokens = s.scan_tokens().unwrap();
    let expected = [
        TokenType::LeftParen,
        TokenType::RightParen,
        TokenType::LeftBrace,
        TokenType::RightBrace,
        TokenType::Comma,
        TokenType::Dot,
        TokenType::Minus,
        TokenType::Plus,
        TokenType::Semicolon,
        TokenType::Star,
        TokenType::Slash,
        TokenType::Bang,
        TokenType::BangEqual,
        TokenType::Equal,
        TokenType::EqualEqual,
        TokenType::Less,
        TokenType::LessEqual,
        TokenType::Greater,
        TokenType::GreaterEqual,
        TokenType::Eof,
    ];
    assert_eq!(tokens.len(), expected.len());
    for (t, k) in tokens.iter().zip(expected.iter()) {
        assert_eq!(t.kind, *k);
        assert_eq!(t.line, 1);
    }
}

#[test]
fn two_char_operators_bind_without_spaces() {
    let mut s = Scanner::new("==!=<=>=");
    let tokens = s.scan_tokens().unwrap();
    let kinds: Vec<TokenType> = tokens.iter().map(|t| t.kind).collect();
    assert_eq!(
        kinds,
        vec![
            TokenType::EqualEqual,
            TokenType::BangEqual,
            TokenType::LessEqual,
            TokenType::GreaterEqual,
            TokenType::Eof,
        ]
    );
}

#[test]
fn lexeme_round_trip() {
    let source = "var x12 = (1.25 <= \"two words\") != nil; // trailing comment\n";
    let mut s = Scanner::new(source);
    let tokens = s.scan_tokens().unwrap();
    for t in tokens.iter() {
        if t.kind == TokenType::Eof {
            continue;
        }
        let mut again = Scanner::new(&t.lexeme);
        let rescanned = again.scan_tokens().unwrap();
        assert_eq!(rescanned.len(), 2);
        assert_eq!(rescanned[0].kind, t.kind);
        assert_eq!(rescanned[0].lexeme, t.lexeme);
        assert_eq!(rescanned[1].kind, TokenType::Eof);
    }
}

#[test]
fn line_tracking_counts_newlines() {
    let mut s = Scanner::new("\n\n\nfoo");
    let tokens = s.scan_tokens().unwrap();
    assert_eq!(tokens[0], tok(TokenType::Identifier, "foo", 4));
    assert_eq!(tokens[1], tok(TokenType::Eof, "", 4));
}

#[test]
fn string_spanning_lines_reports_its_first_line() {
    let mut s = Scanner::new("\"a\nb\"\nx");
    let tokens = s.scan_tokens().unwrap();
    assert_eq!(tokens[0], tok(TokenType::StringLiteral, "\"a\nb\"", 1));
    assert_eq!(tokens[1], tok(TokenType::Identifier, "x", 3));
    assert_eq!(tokens[2], tok(TokenType::Eof, "", 3));
}

#[test]
fn keyword_versus_identifier() {
    let mut s = Scanner::new("class");
    let tokens = s.scan_tokens().unwrap();
    assert_eq!(tokens[0].kind, TokenType::Class);

    let mut s = Scanner::new("class1");
    let tokens = s.scan_tokens().unwrap();
    assert_eq!(tokens[0], tok(TokenType::Identifier, "class1", 1));

    let mut s = Scanner::new("classy");
    let tokens = s.scan_tokens().unwrap();
    assert_eq!(tokens[0], tok(TokenType::Identifier, "classy", 1));
}

#[test]
fn all_keywords_resolve() {
    let source = "and class else false for fun if nil or print return super this true var while";
    let mut s = Scanner::new(source);
    let tokens = s.scan_tokens().unwrap();
    let kinds: Vec<TokenType> = tokens.iter().map(|t| t.kind).collect();
    assert_eq!(
        kinds,
        vec![
            TokenType::And,
            TokenType::Class,
            TokenType::Else,
            TokenType::False,
            TokenType::For,
            TokenType::Fun,
            TokenType::If,
            TokenType::Nil,
            TokenType::Or,
            TokenType::Print,
            TokenType::Return,
            TokenType::Super,
            TokenType::This,
            TokenType::True,
            TokenType::Var,
            TokenType::While,
            TokenType::Eof,
        ]
    );
}

#[test]
fn comment_suppression() {
    let mut s = Scanner::new("1 // comment\n2");
    assert_eq!(
        s.scan_tokens(),
        Ok(vec![
            tok(TokenType::NumberLiteral, "1", 1),
            tok(TokenType::NumberLiteral, "2", 2),
            tok(TokenType::Eof, "", 2),
        ])
    );
}

#[test]
fn unterminated_string_is_an_error() {
    let mut s = Scanner::new("\"abc");
    assert_eq!(s.scan_tokens(), Err(LexError::UnterminatedString { line: 1 }));
}

#[test]
fn unexpected_character_names_character_and_line() {
    let mut s = Scanner::new("`");
    assert_eq!(
        s.scan_tokens(),
        Err(LexError::UnexpectedCharacter { character: '`', line: 1 })
    );

    let mut s = Scanner::new("ok\nok\n#");
    assert_eq!(
        s.scan_tokens(),
        Err(LexError::UnexpectedCharacter { character: '#', line: 3 })
    );
}

#[test]
fn number_lookahead_leaves_trailing_dot() {
    let mut s = Scanner::new("1.5 1. .5 12.34.56");
    assert_eq!(
        s.scan_tokens(),
        Ok(vec![
            tok(TokenType::NumberLiteral, "1.5", 1),
            tok(TokenType::NumberLiteral, "1", 1),
            tok(TokenType::Dot, ".", 1),
            tok(TokenType::Dot, ".", 1),
            tok(TokenType::NumberLiteral, "5", 1),
            tok(TokenType::NumberLiteral, "12.34", 1),
            tok(TokenType::Dot, ".", 1),
            tok(TokenType::NumberLiteral, "56", 1),
            tok(TokenType::Eof, "", 1),
        ])
    );
}

#[test]
fn empty_source_scans_to_eof_alone() {
    let mut s = Scanner::new("");
    assert_eq!(s.scan_tokens(), Ok(vec![tok(TokenType::Eof, "", 1)]));
}

#[test]
fn identifier_beyond_ascii() {
    let mut s = Scanner::new("h\u{e9}llo");
    let tokens = s.scan_tokens().unwrap();
    assert_eq!(tokens[0], tok(TokenType::Identifier, "h\u{e9}llo", 1));
}

#[test]
fn underscore_continues_but_does_not_start_identifiers() {
    let mut s = Scanner::new("a_b");
    let tokens = s.scan_tokens().unwrap();
    assert_eq!(tokens[0], tok(TokenType::Identifier, "a_b", 1));

    let mut s = Scanner::new("_a");
    assert_eq!(
        s.scan_tokens(),
        Err(LexError::UnexpectedCharacter { character: '_', line: 1 })
    );
}

#[test]
fn whitespace_beyond_ascii_is_skipped() {
    let mut s = Scanner::new("\u{00A0}1");
    assert_eq!(
        s.scan_tokens(),
        Ok(vec![
            tok(TokenType::NumberLiteral, "1", 1),
            tok(TokenType::Eof, "", 1),
        ])
    );
}

#[test]
fn symbol_beyond_ascii_is_rejected() {
    let mut s = Scanner::new("\u{25B3}");
    assert_eq!(
        s.scan_tokens(),
        Err(LexError::UnexpectedCharacter { character: '\u{25B3}', line: 1 })
    );
}
