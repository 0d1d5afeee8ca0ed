use vstd::prelude::*;

use crate::token::{TokenModel, TokenType};

verus! {

/// The mathematical value of a literal expression. A number keeps the exact
/// digit text of its lexeme; a string keeps its lexeme, quotes included.
pub ghost enum LitModel {
    Num { text: Seq<char> },
    Str { text: Seq<char> },
    Bool { value: bool },
    Nil,
}

/// The mathematical value of an expression tree.
pub ghost enum ExprModel {
    Literal { value: LitModel },
    Unary { op: TokenType, e: Box<ExprModel> },
    Binary { e1: Box<ExprModel>, op: TokenType, e2: Box<ExprModel> },
}

/// A fatal syntax fault: the end of the sequence where a primary expression
/// was expected, a token of the wrong kind there, or a parenthesized group
/// with no matching right parenthesis.
#[derive(Debug, PartialEq, Eq, Copy, Clone, Structural)]
pub enum ParseError {
    UnexpectedEnd,
    UnexpectedToken { kind: TokenType },
    UnclosedGroup,
}

// The grammar, one spec function per precedence layer, each returning the
// parsed tree and the position just past it. Every binary layer parses one
// operand at the next tighter layer, then folds further operands onto the
// left, which makes every binary layer left-associative. The guards
// `i < j <= ts.len()` on each fold step only restate that a successful
// operand consumed at least one token, which every layer guarantees; they
// give the mutual recursion its termination measure.

/// equality := comparison ( ( "!=" | "==" ) comparison )*
pub open spec fn sp_equality(ts: Seq<TokenModel>, i: int) -> Result<(ExprModel, int), ParseError>
    decreases ts.len() - i, 8int, when 0 <= i <= ts.len()
{
    match sp_comparison(ts, i) {
        Err(e) => Err(e),
        Ok((e0, j)) => if i < j <= ts.len() {
            sp_equality_more(ts, j, e0)
        } else {
            Ok((e0, j))
        },
    }
}

/// The left-associative fold of the equality layer, `acc` the tree so far.
pub open spec fn sp_equality_more(ts: Seq<TokenModel>, j: int, acc: ExprModel) -> Result<
    (ExprModel, int),
    ParseError,
>
    decreases ts.len() - j, 9int, when 0 <= j <= ts.len()
{
    if j < ts.len() && (ts[j].kind == TokenType::BangEqual || ts[j].kind == TokenType::EqualEqual) {
        match sp_comparison(ts, j + 1) {
            Err(e) => Err(e),
            Ok((rhs, k)) => {
                let folded = ExprModel::Binary {
                    e1: Box::new(acc),
                    op: ts[j].kind,
                    e2: Box::new(rhs),
                };
                if j + 1 < k <= ts.len() {
                    sp_equality_more(ts, k, folded)
                } else {
                    Ok((folded, k))
                }
            },
        }
    } else {
        Ok((acc, j))
    }
}

/// comparison := term ( ( ">" | ">=" | "<" | "<=" ) term )*
pub open spec fn sp_comparison(ts: Seq<TokenModel>, i: int) -> Result<(ExprModel, int), ParseError>
    decreases ts.len() - i, 6int, when 0 <= i <= ts.len()
{
    match sp_term(ts, i) {
        Err(e) => Err(e),
        Ok((e0, j)) => if i < j <= ts.len() {
            sp_comparison_more(ts, j, e0)
        } else {
            Ok((e0, j))
        },
    }
}

/// The left-associative fold of the comparison layer.
pub open spec fn sp_comparison_more(ts: Seq<TokenModel>, j: int, acc: ExprModel) -> Result<
    (ExprModel, int),
    ParseError,
>
    decreases ts.len() - j, 7int, when 0 <= j <= ts.len()
{
    if j < ts.len() && (ts[j].kind == TokenType::Greater || ts[j].kind == TokenType::GreaterEqual
        || ts[j].kind == TokenType::Less || ts[j].kind == TokenType::LessEqual) {
        match sp_term(ts, j + 1) {
            Err(e) => Err(e),
            Ok((rhs, k)) => {
                let folded = ExprModel::Binary {
                    e1: Box::new(acc),
                    op: ts[j].kind,
                    e2: Box::new(rhs),
                };
                if j + 1 < k <= ts.len() {
                    sp_comparison_more(ts, k, folded)
                } else {
                    Ok((folded, k))
                }
            },
        }
    } else {
        Ok((acc, j))
    }
}

/// term := factor ( ( "+" | "-" ) factor )*
pub open spec fn sp_term(ts: Seq<TokenModel>, i: int) -> Result<(ExprModel, int), ParseError>
    decreases ts.len() - i, 4int, when 0 <= i <= ts.len()
{
    match sp_factor(ts, i) {
        Err(e) => Err(e),
        Ok((e0, j)) => if i < j <= ts.len() {
            sp_term_more(ts, j, e0)
        } else {
            Ok((e0, j))
        },
    }
}

/// The left-associative fold of the term layer.
pub open spec fn sp_term_more(ts: Seq<TokenModel>, j: int, acc: ExprModel) -> Result<
    (ExprModel, int),
    ParseError,
>
    decreases ts.len() - j, 5int, when 0 <= j <= ts.len()
{
    if j < ts.len() && (ts[j].kind == TokenType::Plus || ts[j].kind == TokenType::Minus) {
        match sp_factor(ts, j + 1) {
            Err(e) => Err(e),
            Ok((rhs, k)) => {
                let folded = ExprModel::Binary {
                    e1: Box::new(acc),
                    op: ts[j].kind,
                    e2: Box::new(rhs),
                };
                if j + 1 < k <= ts.len() {
                    sp_term_more(ts, k, folded)
                } else {
                    Ok((folded, k))
                }
            },
        }
    } else {
        Ok((acc, j))
    }
}

/// factor := unary ( ( "*" | "/" ) unary )*
pub open spec fn sp_factor(ts: Seq<TokenModel>, i: int) -> Result<(ExprModel, int), ParseError>
    decreases ts.len() - i, 2int, when 0 <= i <= ts.len()
{
    match sp_unary(ts, i) {
        Err(e) => Err(e),
        Ok((e0, j)) => if i < j <= ts.len() {
            sp_factor_more(ts, j, e0)
        } else {
            Ok((e0, j))
        },
    }
}

/// The left-associative fold of the factor layer.
pub open spec fn sp_factor_more(ts: Seq<TokenModel>, j: int, acc: ExprModel) -> Result<
    (ExprModel, int),
    ParseError,
>
    decreases ts.len() - j, 3int, when 0 <= j <= ts.len()
{
    if j < ts.len() && (ts[j].kind == TokenType::Star || ts[j].kind == TokenType::Slash) {
        match sp_unary(ts, j + 1) {
            Err(e) => Err(e),
            Ok((rhs, k)) => {
                let folded = ExprModel::Binary {
                    e1: Box::new(acc),
                    op: ts[j].kind,
                    e2: Box::new(rhs),
                };
                if j + 1 < k <= ts.len() {
                    sp_factor_more(ts, k, folded)
                } else {
                    Ok((folded, k))
                }
            },
        }
    } else {
        Ok((acc, j))
    }
}

/// unary := ( "-" | "!" ) unary | primary
///
/// The layer is right-recursive: a leading `-` or `!` wraps a freshly parsed
/// unary expression, so `--a` and `!!a` nest.
pub open spec fn sp_unary(ts: Seq<TokenModel>, i: int) -> Result<(ExprModel, int), ParseError>
    decreases ts.len() - i, 1int, when 0 <= i <= ts.len()
{
    if i < ts.len() && (ts[i].kind == TokenType::Minus || ts[i].kind == TokenType::Bang) {
        match sp_unary(ts, i + 1) {
            Err(e) => Err(e),
            Ok((e0, j)) => Ok((ExprModel::Unary { op: ts[i].kind, e: Box::new(e0) }, j)),
        }
    } else {
        sp_primary(ts, i)
    }
}

/// primary := NUMBER | STRING | "true" | "false" | "nil" | "(" equality ")"
///
/// Exactly one token is consumed, or a whole parenthesized group. Running
/// out of tokens, or any other kind here, is a syntax error, as is a group
/// that the next token does not close.
pub open spec fn sp_primary(ts: Seq<TokenModel>, i: int) -> Result<(ExprModel, int), ParseError>
    decreases ts.len() - i, 0int, when 0 <= i <= ts.len()
{
    if i >= ts.len() {
        Err(ParseError::UnexpectedEnd)
    } else if ts[i].kind == TokenType::NumberLiteral {
        Ok((ExprModel::Literal { value: LitModel::Num { text: ts[i].lexeme } }, i + 1))
    } else if ts[i].kind == TokenType::StringLiteral {
        Ok((ExprModel::Literal { value: LitModel::Str { text: ts[i].lexeme } }, i + 1))
    } else if ts[i].kind == TokenType::True {
        Ok((ExprModel::Literal { value: LitModel::Bool { value: true } }, i + 1))
    } else if ts[i].kind == TokenType::False {
        Ok((ExprModel::Literal { value: LitModel::Bool { value: false } }, i + 1))
    } else if ts[i].kind == TokenType::Nil {
        Ok((ExprModel::Literal { value: LitModel::Nil }, i + 1))
    } else if ts[i].kind == TokenType::LeftParen {
        match sp_equality(ts, i + 1) {
            Err(e) => Err(e),
            Ok((inner, j)) => if j < ts.len() && ts[j].kind == TokenType::RightParen {
                Ok((inner, j + 1))
            } else {
                Err(ParseError::UnclosedGroup)
            },
        }
    } else {
        Err(ParseError::UnexpectedToken { kind: ts[i].kind })
    }
}

} // verus!
