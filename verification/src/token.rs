use vstd::prelude::*;

verus! {

/// The classification of a lexical token.
///
/// `Whitespace` marks blank runs, newlines and line comments while scanning;
/// such tokens are filtered out before the sequence is handed onward, so the
/// kind never appears in the scanner's output. `Eof` is the sentinel that
/// closes every successful scan.
#[derive(Debug, PartialEq, Eq, Copy, Clone, Structural)]
pub enum TokenType {
    LeftParen,
    RightParen,
    LeftBrace,
    RightBrace,
    Comma,
    Dot,
    Minus,
    Plus,
    Semicolon,
    Slash,
    Star,
    Bang,
    BangEqual,
    Equal,
    EqualEqual,
    Greater,
    GreaterEqual,
    Less,
    LessEqual,
    Identifier,
    StringLiteral,
    NumberLiteral,
    And,
    Class,
    Else,
    False,
    Fun,
    For,
    If,
    Nil,
    Or,
    Print,
    Return,
    Super,
    This,
    True,
    Var,
    While,
    Whitespace,
    Eof,
}

/// One classified token: its kind, the exact source substring that produced
/// it, and the 1-based source line on which that substring begins.
#[derive(Debug, PartialEq)]
pub struct Token {
    pub kind: TokenType,
    pub lexeme: String,
    pub line: i32,
}

/// The mathematical value of a token: the lexeme as a sequence of characters
/// and the line as an unbounded integer.
pub ghost struct TokenModel {
    pub kind: TokenType,
    pub lexeme: Seq<char>,
    pub line: int,
}

impl View for Token {
    type V = TokenModel;

    open spec fn view(&self) -> TokenModel {
        TokenModel { kind: self.kind, lexeme: self.lexeme@, line: self.line as int }
    }
}

/// A fatal lexical fault: a character that no scanning rule recognizes, or a
/// string literal still open when the input ends. Both carry the 1-based line
/// on which scanning stopped.
#[derive(Debug, PartialEq, Eq, Copy, Clone, Structural)]
pub enum LexError {
    UnexpectedCharacter { character: char, line: i32 },
    UnterminatedString { line: i32 },
}

/// The mathematical value of a `LexError`, with the line unbounded.
pub ghost enum LexErrorModel {
    UnexpectedCharacter { character: char, line: int },
    UnterminatedString { line: int },
}

impl View for LexError {
    type V = LexErrorModel;

    open spec fn view(&self) -> LexErrorModel {
        match *self {
            LexError::UnexpectedCharacter { character, line } => {
                LexErrorModel::UnexpectedCharacter { character, line: line as int }
            },
            LexError::UnterminatedString { line } => {
                LexErrorModel::UnterminatedString { line: line as int }
            },
        }
    }
}

/// The sequence of mathematical values of a sequence of tokens.
pub open spec fn token_views(ts: Seq<Token>) -> Seq<TokenModel> {
    ts.map_values(|t: Token| t@)
}

/// The kind an identifier-shaped lexeme resolves to: the matching reserved
/// keyword when the lexeme equals one exactly, `Identifier` otherwise.
pub open spec fn keyword_kind(lex: Seq<char>) -> TokenType {
    if lex == "and"@ {
        TokenType::And
    } else if lex == "class"@ {
        TokenType::Class
    } else if lex == "else"@ {
        TokenType::Else
    } else if lex == "false"@ {
        TokenType::False
    } else if lex == "for"@ {
        TokenType::For
    } else if lex == "fun"@ {
        TokenType::Fun
    } else if lex == "if"@ {
        TokenType::If
    } else if lex == "nil"@ {
        TokenType::Nil
    } else if lex == "or"@ {
        TokenType::Or
    } else if lex == "print"@ {
        TokenType::Print
    } else if lex == "return"@ {
        TokenType::Return
    } else if lex == "super"@ {
        TokenType::Super
    } else if lex == "this"@ {
        TokenType::This
    } else if lex == "true"@ {
        TokenType::True
    } else if lex == "var"@ {
        TokenType::Var
    } else if lex == "while"@ {
        TokenType::While
    } else {
        TokenType::Identifier
    }
}

/// Consults the fixed keyword table for a scanned identifier lexeme.
pub(crate) fn keyword_or_identifier(lexeme: &str) -> (k: TokenType)
    ensures
        k == keyword_kind(lexeme@),
{
    let s = lexeme.to_owned();
    if s == "and".to_owned() {
        TokenType::And
    } else if s == "class".to_owned() {
        TokenType::Class
    } else if s == "else".to_owned() {
        TokenType::Else
    } else if s == "false".to_owned() {
        TokenType::False
    } else if s == "for".to_owned() {
        TokenType::For
    } else if s == "fun".to_owned() {
        TokenType::Fun
    } else if s == "if".to_owned() {
        TokenType::If
    } else if s == "nil".to_owned() {
        TokenType::Nil
    } else if s == "or".to_owned() {
        TokenType::Or
    } else if s == "print".to_owned() {
        TokenType::Print
    } else if s == "return".to_owned() {
        TokenType::Return
    } else if s == "super".to_owned() {
        TokenType::Super
    } else if s == "this".to_owned() {
        TokenType::This
    } else if s == "true".to_owned() {
        TokenType::True
    } else if s == "var".to_owned() {
        TokenType::Var
    } else if s == "while".to_owned() {
        TokenType::While
    } else {
        TokenType::Identifier
    }
}

} // verus!
