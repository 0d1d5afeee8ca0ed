use lox_front::{Expression, Literal, ParseError, Parser, Scanner, Token, TokenType};

fn tok(kind: TokenType, lexeme: &str, line: i32) -> Token {
    Token { kind, lexeme: lexeme.to_string(), line }
}

fn num(text: &str) -> Expression {
    Expression::Literal(Literal::Num(text.to_string()))
}

fn binary(e1: Expression, op: TokenType, e2: Expression) -> Expression {
    Expression::Binary { e1: Box::new(e1), op, e2: Box::new(e2) }
}

#[test]
fn parser_test1() {
    let tokens = vec![
        tok(TokenType::NumberLiteral, "6", 1),
        tok(TokenType::Slash, "/", 1),
        tok(TokenType::NumberLiteral, "3", 1),
    ];
    let mut parser = Parser::new(tokens);
    let expr = parser.parse().unwrap();
    assert_eq!(expr, binary(num("6"), TokenType::Slash, num("3")));
}

#[test]
fn division_is_left_associative() {
    let tokens = vec![
        tok(TokenType::NumberLiteral, "6", 1),
        tok(TokenType::Slash, "/", 1),
        tok(TokenType::NumberLiteral, "3", 1),
        tok(TokenType::Slash, "/", 1),
        tok(TokenType::NumberLiteral, "2", 1),
        tok(TokenType::Eof, "", 1),
    ];
    let mut parser = Parser::new(tokens);
    let expr = parser.parse().unwrap();
    assert_eq!(
        expr,
        binary(
            binary(num("6"), TokenType::Slash, num("3")),
            TokenType::Slash,
            num("2"),
        )
    );
}

#[test]
fn multiplication_binds_tighter_than_addition() {
    let tokens = vec![
        tok(TokenType::NumberLiteral, "1", 1),
        tok(TokenType::Plus, "+", 1),
        tok(TokenType::NumberLiteral, "2", 1),
        tok(TokenType::Star, "*", 1),
        tok(TokenType::NumberLiteral, "3", 1),
        tok(TokenType::Eof, "", 1),
    ];
    let mut parser = Parser::new(tokens);
    let expr = parser.parse().unwrap();
    assert_eq!(
        expr,
        binary(
            num("1"),
            TokenType::Plus,
            binary(num("2"), TokenType::Star, num("3")),
        )
    );
}

#[test]
fn grouping_overrides_precedence() {
    let mut scanner = Scanner::new("(1 + 2) * 3");
    let tokens = scanner.scan_tokens().unwrap();
    let mut parser = Parser::new(tokens);
    let expr = parser.parse().unwrap();
    assert_eq!(
        expr,
        binary(
            binary(num("1"), TokenType::Plus, num("2")),
            TokenType::Star,
            num("3"),
        )
    );
}

#[test]
fn missing_right_parenthesis_is_an_error() {
    let mut scanner = Scanner::new("(1 + 2");
    let tokens = scanner.scan_tokens().unwrap();
    let mut parser = Parser::new(tokens);
    assert_eq!(parser.parse(), Err(ParseError::UnclosedGroup));
}

#[test]
fn empty_input_is_an_error() {
    let mut parser = Parser::new(vec![]);
    assert_eq!(parser.parse(), Err(ParseError::UnexpectedEnd));
}

#[test]
fn operator_in_literal_position_is_an_error() {
    let tokens = vec![tok(TokenType::Plus, "+", 1), tok(TokenType::Eof, "", 1)];
    let mut parser = Parser::new(tokens);
    assert_eq!(
        parser.parse(),
        Err(ParseError::UnexpectedToken { kind: TokenType::Plus })
    );
}

#[test]
fn unary_operators_nest() {
    let mut scanner = Scanner::new("-  -1");
    let tokens = scanner.scan_tokens().unwrap();
    let mut parser = Parser::new(tokens);
    let expr = parser.parse().unwrap();
    assert_eq!(
        expr,
        Expression::Unary {
            op: TokenType::Minus,
            e: Box::new(Expression::Unary { op: TokenType::Minus, e: Box::new(num("1")) }),
        }
    );

    let mut scanner = Scanner::new("!!true");
    let tokens = scanner.scan_tokens().unwrap();
    let mut parser = Parser::new(tokens);
    let expr = parser.parse().unwrap();
    assert_eq!(
        expr,
        Expression::Unary {
            op: TokenType::Bang,
            e: Box::new(Expression::Unary {
                op: TokenType::Bang,
                e: Box::new(Expression::Literal(Literal::Bool(true))),
            }),
        }
    );
}

#[test]
fn literal_kinds_parse() {
    let mut scanner = Scanner::new("\"hi\"");
    let tokens = scanner.scan_tokens().unwrap();
    let mut parser = Parser::new(tokens);
    assert_eq!(
        parser.parse().unwrap(),
        Expression::Literal(Literal::Str("\"hi\"".to_string()))
    );

    let mut parser = Parser::new(vec![tok(TokenType::Nil, "nil", 1)]);
    assert_eq!(parser.parse().unwrap(), Expression::Literal(Literal::Nil));

    let mut parser = Parser::new(vec![tok(TokenType::False, "false", 1)]);
    assert_eq!(
        parser.parse().unwrap(),
        Expression::Literal(Literal::Bool(false))
    );
}

#[test]
fn comparison_and_equality_layers_combine() {
    let mut scanner = Scanner::new("1 < 2 == 3 >= 4");
    let tokens = scanner.scan_tokens().unwrap();
    let mut parser = Parser::new(tokens);
    let expr = parser.parse().unwrap();
    assert_eq!(
        expr,
        binary(
            binary(num("1"), TokenType::Less, num("2")),
            TokenType::EqualEqual,
            binary(num("3"), TokenType::GreaterEqual, num("4")),
        )
    );
}

#[test]
fn scan_then_parse_pipeline() {
    let mut scanner = Scanner::new("6 / 3 - 1");
    let tokens = scanner.scan_tokens().unwrap();
    let mut parser = Parser::new(tokens);
    let expr = parser.parse().unwrap();
    assert_eq!(
        expr,
        binary(
            binary(num("6"), TokenType::Slash, num("3")),
            TokenType::Minus,
            num("1"),
        )
    );
}
