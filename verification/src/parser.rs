use vstd::prelude::*;

use crate::parse_spec::{
    sp_comparison, sp_comparison_more, sp_equality, sp_equality_more, sp_factor, sp_factor_more,
    sp_primary, sp_term, sp_term_more, sp_unary, ExprModel, LitModel, ParseError,
};
use crate::token::{token_views, Token, TokenModel, TokenType};

verus! {

/// A literal value as the parser stores it: a number keeps the digit text of
/// its lexeme, a string keeps its lexeme with the quotes.
#[derive(Debug, PartialEq)]
pub enum Literal {
    Num(String),
    Str(String),
    Bool(bool),
    Nil,
}

/// One node of the expression tree. Each node owns its children outright:
/// the tree shares nothing and has no cycles.
#[derive(Debug, PartialEq)]
pub enum Expression {
    Literal(Literal),
    Unary { op: TokenType, e: Box<Expression> },
    Binary { e1: Box<Expression>, op: TokenType, e2: Box<Expression> },
}

/// The mathematical value of a literal.
pub open spec fn lit_model(l: Literal) -> LitModel {
    match l {
        Literal::Num(s) => LitModel::Num { text: s@ },
        Literal::Str(s) => LitModel::Str { text: s@ },
        Literal::Bool(b) => LitModel::Bool { value: b },
        Literal::Nil => LitModel::Nil,
    }
}

/// The mathematical value of an expression tree.
pub open spec fn expr_model(e: Expression) -> ExprModel
    decreases e,
{
    match e {
        Expression::Literal(l) => ExprModel::Literal { value: lit_model(l) },
        Expression::Unary { op, e } => ExprModel::Unary { op, e: Box::new(expr_model(*e)) },
        Expression::Binary { e1, op, e2 } => ExprModel::Binary {
            e1: Box::new(expr_model(*e1)),
            op,
            e2: Box::new(expr_model(*e2)),
        },
    }
}

impl View for Literal {
    type V = LitModel;

    open spec fn view(&self) -> LitModel {
        lit_model(*self)
    }
}

impl View for Expression {
    type V = ExprModel;

    open spec fn view(&self) -> ExprModel {
        expr_model(*self)
    }
}

/// A forward-only cursor over a finished token sequence, building one
/// expression tree by recursive descent.
pub struct Parser {
    tokens: Vec<Token>,
    cur_idx: usize,
}

impl Parser {
    /// The mathematical values of the tokens being parsed.
    pub closed spec fn toks(&self) -> Seq<TokenModel> {
        token_views(self.tokens@)
    }

    /// The position of the next token to consume.
    pub closed spec fn pos(&self) -> int {
        self.cur_idx as int
    }

    /// The cursor never runs past the end of the sequence.
    pub closed spec fn wf(&self) -> bool {
        self.cur_idx <= self.tokens@.len()
    }

    pub fn new(tokens: Vec<Token>) -> (p: Parser)
        ensures
            p.toks() == token_views(tokens@),
            p.pos() == 0,
            p.wf(),
    {
        Parser { tokens, cur_idx: 0 }
    }

    /// The token under the cursor, if the cursor has not reached the end.
    fn current(&self) -> (r: Option<&Token>)
        requires
            self.wf(),
        ensures
            match r {
                Some(t) => self.pos() < self.toks().len() && t@ == self.toks()[self.pos()],
                None => self.pos() >= self.toks().len(),
            },
    {
        if self.cur_idx < self.tokens.len() {
            Some(&self.tokens[self.cur_idx])
        } else {
            None
        }
    }

    /// Moves the cursor forward over one token.
    fn advance(&mut self)
        requires
            old(self).wf(),
            old(self).pos() < old(self).toks().len(),
        ensures
            final(self).wf(),
            final(self).toks() == old(self).toks(),
            final(self).pos() == old(self).pos() + 1,
    {
        let n = self.tokens.len();
        proof {
            assert(self.toks().len() == self.tokens@.len());
            assert(self.cur_idx < n);
        }
        self.cur_idx = self.cur_idx + 1;
    }

    /// When the kind of the token under the cursor is one of `tokens`,
    /// consumes it and hands its kind back; otherwise moves nothing.
    fn advance_if_eq(&mut self, tokens: &Vec<TokenType>) -> (r: Option<TokenType>)
        requires
            old(self).wf(),
        ensures
            final(self).wf(),
            final(self).toks() == old(self).toks(),
            match r {
                Some(k) => {
                    &&& old(self).pos() < old(self).toks().len()
                    &&& k == old(self).toks()[old(self).pos()].kind
                    &&& tokens@.contains(k)
                    &&& final(self).pos() == old(self).pos() + 1
                },
                None => {
                    &&& final(self).pos() == old(self).pos()
                    &&& (old(self).pos() < old(self).toks().len() ==> !tokens@.contains(
                        old(self).toks()[old(self).pos()].kind,
                    ))
                },
            },
    {
        let cur_kind: TokenType;
        match self.current() {
            Some(cur) => {
                cur_kind = cur.kind;
            },
            None => {
                return None;
            },
        }
        let mut idx: usize = 0;
        while idx < tokens.len()
            invariant
                self.wf(),
                self.toks() == old(self).toks(),
                self.pos() == old(self).pos(),
                self.pos() < self.toks().len(),
                cur_kind == self.toks()[self.pos()].kind,
                idx <= tokens@.len(),
                forall|m: int| 0 <= m < idx ==> tokens@[m] != cur_kind,
            decreases tokens@.len() - idx,
        {
            if cur_kind == tokens[idx] {
                self.advance();
                return Some(cur_kind);
            }
            idx = idx + 1;
        }
        None
    }

    /// expression := equality: one operand at the comparison layer, then a
    /// left-associative fold of `!=` and `==` operators.
    fn expression(&mut self) -> (r: Result<Expression, ParseError>)
        requires
            old(self).wf(),
        ensures
            final(self).wf(),
            final(self).toks() == old(self).toks(),
            match r {
                Ok(e) => {
                    &&& sp_equality(old(self).toks(), old(self).pos()) == Ok::<
                        (ExprModel, int),
                        ParseError,
                    >((e@, final(self).pos()))
                    &&& old(self).pos() < final(self).pos() <= old(self).toks().len()
                },
                Err(pe) => sp_equality(old(self).toks(), old(self).pos()) == Err::<
                    (ExprModel, int),
                    ParseError,
                >(pe),
            },
        decreases old(self).toks().len() - old(self).pos(), 8int,
    {
        let ghost ts = self.toks();
        let ghost p0 = self.pos();
        let options = vec![TokenType::BangEqual, TokenType::EqualEqual];
        proof {
            assert(options@[0] == TokenType::BangEqual);
            assert(options@[1] == TokenType::EqualEqual);
        }
        let mut expr = match self.comparison() {
            Ok(e) => e,
            Err(pe) => {
                return Err(pe);
            },
        };
        loop
            invariant_except_break
                sp_equality(ts, p0) == sp_equality_more(ts, self.pos(), expr@),
            invariant
                self.wf(),
                self.toks() == ts,
                ts == old(self).toks(),
                p0 == old(self).pos(),
                0 <= p0 < self.pos() <= ts.len(),
                options@[0] == TokenType::BangEqual,
                options@[1] == TokenType::EqualEqual,
                options@.len() == 2,
            ensures
                self.wf(),
                self.toks() == ts,
                p0 < self.pos() <= ts.len(),
                sp_equality(ts, p0) == Ok::<(ExprModel, int), ParseError>((expr@, self.pos())),
            decreases ts.len() - self.pos(),
        {
            let ghost j = self.pos();
            match self.advance_if_eq(&options) {
                Some(op) => {
                    let ghost acc = expr@;
                    let right = match self.comparison() {
                        Ok(e) => e,
                        Err(pe) => {
                            return Err(pe);
                        },
                    };
                    expr = Expression::Binary { e1: Box::new(expr), op, e2: Box::new(right) };
                    proof {
                        assert(expr@ == (ExprModel::Binary {
                            e1: Box::new(acc),
                            op,
                            e2: Box::new(right@),
                        }));
                    }
                },
                None => {
                    break ;
                },
            }
        }
        Ok(expr)
    }

    /// comparison := term ( ( ">" | ">=" | "<" | "<=" ) term )*, the fold
    /// left-associative.
    fn comparison(&mut self) -> (r: Result<Expression, ParseError>)
        requires
            old(self).wf(),
        ensures
            final(self).wf(),
            final(self).toks() == old(self).toks(),
            match r {
                Ok(e) => {
                    &&& sp_comparison(old(self).toks(), old(self).pos()) == Ok::<
                        (ExprModel, int),
                        ParseError,
                    >((e@, final(self).pos()))
                    &&& old(self).pos() < final(self).pos() <= old(self).toks().len()
                },
                Err(pe) => sp_comparison(old(self).toks(), old(self).pos()) == Err::<
                    (ExprModel, int),
                    ParseError,
                >(pe),
            },
        decreases old(self).toks().len() - old(self).pos(), 6int,
    {
        let ghost ts = self.toks();
        let ghost p0 = self.pos();
        let options = vec![
            TokenType::Greater,
            TokenType::GreaterEqual,
            TokenType::Less,
            TokenType::LessEqual,
        ];
        proof {
            assert(options@[0] == TokenType::Greater);
            assert(options@[1] == TokenType::GreaterEqual);
            assert(options@[2] == TokenType::Less);
            assert(options@[3] == TokenType::LessEqual);
        }
        let mut expr = match self.term() {
            Ok(e) => e,
            Err(pe) => {
                return Err(pe);
            },
        };
        loop
            invariant_except_break
                sp_comparison(ts, p0) == sp_comparison_more(ts, self.pos(), expr@),
            invariant
                self.wf(),
                self.toks() == ts,
                ts == old(self).toks(),
                p0 == old(self).pos(),
                0 <= p0 < self.pos() <= ts.len(),
                options@[0] == TokenType::Greater,
                options@[1] == TokenType::GreaterEqual,
                options@[2] == TokenType::Less,
                options@[3] == TokenType::LessEqual,
                options@.len() == 4,
            ensures
                self.wf(),
                self.toks() == ts,
                p0 < self.pos() <= ts.len(),
                sp_comparison(ts, p0) == Ok::<(ExprModel, int), ParseError>((expr@, self.pos())),
            decreases ts.len() - self.pos(),
        {
            let ghost j = self.pos();
            match self.advance_if_eq(&options) {
                Some(op) => {
                    let ghost acc = expr@;
                    let right = match self.term() {
                        Ok(e) => e,
                        Err(pe) => {
                            return Err(pe);
                        },
                    };
                    expr = Expression::Binary { e1: Box::new(expr), op, e2: Box::new(right) };
                    proof {
                        assert(expr@ == (ExprModel::Binary {
                            e1: Box::new(acc),
                            op,
                            e2: Box::new(right@),
                        }));
                    }
                },
                None => {
                    break ;
                },
            }
        }
        Ok(expr)
    }

    /// term := factor ( ( "+" | "-" ) factor )*, the fold left-associative.
    fn term(&mut self) -> (r: Result<Expression, ParseError>)
        requires
            old(self).wf(),
        ensures
            final(self).wf(),
            final(self).toks() == old(self).toks(),
            match r {
                Ok(e) => {
                    &&& sp_term(old(self).toks(), old(self).pos()) == Ok::<
                        (ExprModel, int),
                        ParseError,
                    >((e@, final(self).pos()))
                    &&& old(self).pos() < final(self).pos() <= old(self).toks().len()
                },
                Err(pe) => sp_term(old(self).toks(), old(self).pos()) == Err::<
                    (ExprModel, int),
                    ParseError,
                >(pe),
            },
        decreases old(self).toks().len() - old(self).pos(), 4int,
    {
        let ghost ts = self.toks();
        let ghost p0 = self.pos();
        let options = vec![TokenType::Plus, TokenType::Minus];
        proof {
            assert(options@[0] == TokenType::Plus);
            assert(options@[1] == TokenType::Minus);
        }
        let mut expr = match self.factor() {
            Ok(e) => e,
            Err(pe) => {
                return Err(pe);
            },
        };
        loop
            invariant_except_break
                sp_term(ts, p0) == sp_term_more(ts, self.pos(), expr@),
            invariant
                self.wf(),
                self.toks() == ts,
                ts == old(self).toks(),
                p0 == old(self).pos(),
                0 <= p0 < self.pos() <= ts.len(),
                options@[0] == TokenType::Plus,
                options@[1] == TokenType::Minus,
                options@.len() == 2,
            ensures
                self.wf(),
                self.toks() == ts,
                p0 < self.pos() <= ts.len(),
                sp_term(ts, p0) == Ok::<(ExprModel, int), ParseError>((expr@, self.pos())),
            decreases ts.len() - self.pos(),
        {
            let ghost j = self.pos();
            match self.advance_if_eq(&options) {
                Some(op) => {
                    let ghost acc = expr@;
                    let right = match self.factor() {
                        Ok(e) => e,
                        Err(pe) => {
                            return Err(pe);
                        },
                    };
                    expr = Expression::Binary { e1: Box::new(expr), op, e2: Box::new(right) };
                    proof {
                        assert(expr@ == (ExprModel::Binary {
                            e1: Box::new(acc),
                            op,
                            e2: Box::new(right@),
                        }));
                    }
                },
                None => {
                    break ;
                },
            }
        }
        Ok(expr)
    }

    /// factor := unary ( ( "*" | "/" ) unary )*, the fold left-associative.
    fn factor(&mut self) -> (r: Result<Expression, ParseError>)
        requires
            old(self).wf(),
        ensures
            final(self).wf(),
            final(self).toks() == old(self).toks(),
            match r {
                Ok(e) => {
                    &&& sp_factor(old(self).toks(), old(self).pos()) == Ok::<
                        (ExprModel, int),
                        ParseError,
                    >((e@, final(self).pos()))
                    &&& old(self).pos() < final(self).pos() <= old(self).toks().len()
                },
                Err(pe) => sp_factor(old(self).toks(), old(self).pos()) == Err::<
                    (ExprModel, int),
                    ParseError,
                >(pe),
            },
        decreases old(self).toks().len() - old(self).pos(), 2int,
    {
        let ghost ts = self.toks();
        let ghost p0 = self.pos();
        let options = vec![TokenType::Star, TokenType::Slash];
        proof {
            assert(options@[0] == TokenType::Star);
            assert(options@[1] == TokenType::Slash);
        }
        let mut expr = match self.unary() {
            Ok(e) => e,
            Err(pe) => {
                return Err(pe);
            },
        };
        loop
            invariant_except_break
                sp_factor(ts, p0) == sp_factor_more(ts, self.pos(), expr@),
            invariant
                self.wf(),
                self.toks() == ts,
                ts == old(self).toks(),
                p0 == old(self).pos(),
                0 <= p0 < self.pos() <= ts.len(),
                options@[0] == TokenType::Star,
                options@[1] == TokenType::Slash,
                options@.len() == 2,
            ensures
                self.wf(),
                self.toks() == ts,
                p0 < self.pos() <= ts.len(),
                sp_factor(ts, p0) == Ok::<(ExprModel, int), ParseError>((expr@, self.pos())),
            decreases ts.len() - self.pos(),
        {
            let ghost j = self.pos();
            match self.advance_if_eq(&options) {
                Some(op) => {
                    let ghost acc = expr@;
                    let right = match self.unary() {
                        Ok(e) => e,
                        Err(pe) => {
                            return Err(pe);
                        },
                    };
                    expr = Expression::Binary { e1: Box::new(expr), op, e2: Box::new(right) };
                    proof {
                        assert(expr@ == (ExprModel::Binary {
                            e1: Box::new(acc),
                            op,
                            e2: Box::new(right@),
                        }));
                    }
                },
                None => {
                    break ;
                },
            }
        }
        Ok(expr)
    }

    /// unary := ( "-" | "!" ) unary | primary. Right-recursive, so `--a`
    /// and `!!a` nest.
    fn unary(&mut self) -> (r: Result<Expression, ParseError>)
        requires
            old(self).wf(),
        ensures
            final(self).wf(),
            final(self).toks() == old(self).toks(),
            match r {
                Ok(e) => {
                    &&& sp_unary(old(self).toks(), old(self).pos()) == Ok::<
                        (ExprModel, int),
                        ParseError,
                    >((e@, final(self).pos()))
                    &&& old(self).pos() < final(self).pos() <= old(self).toks().len()
                },
                Err(pe) => sp_unary(old(self).toks(), old(self).pos()) == Err::<
                    (ExprModel, int),
                    ParseError,
                >(pe),
            },
        decreases old(self).toks().len() - old(self).pos(), 1int,
    {
        let options = vec![TokenType::Minus, TokenType::Bang];
        proof {
            assert(options@[0] == TokenType::Minus);
            assert(options@[1] == TokenType::Bang);
        }
        match self.advance_if_eq(&options) {
            Some(op) => {
                match self.unary() {
                    Ok(right) => Ok(Expression::Unary { op, e: Box::new(right) }),
                    Err(pe) => Err(pe),
                }
            },
            None => self.primary(),
        }
    }

    /// primary := NUMBER | STRING | "true" | "false" | "nil"
    ///          | "(" expression ")"
    ///
    /// Consumes exactly one token, or a whole parenthesized group whose next
    /// token must be the closing parenthesis.
    fn primary(&mut self) -> (r: Result<Expression, ParseError>)
        requires
            old(self).wf(),
        ensures
            final(self).wf(),
            final(self).toks() == old(self).toks(),
            match r {
                Ok(e) => {
                    &&& sp_primary(old(self).toks(), old(self).pos()) == Ok::<
                        (ExprModel, int),
                        ParseError,
                    >((e@, final(self).pos()))
                    &&& old(self).pos() < final(self).pos() <= old(self).toks().len()
                },
                Err(pe) => sp_primary(old(self).toks(), old(self).pos()) == Err::<
                    (ExprModel, int),
                    ParseError,
                >(pe),
            },
        decreases old(self).toks().len() - old(self).pos(), 0int,
    {
        let expr: Expression;
        match self.current() {
            Some(cur) => {
                if cur.kind == TokenType::NumberLiteral {
                    expr = Expression::Literal(Literal::Num(cur.lexeme.clone()));
                } else if cur.kind == TokenType::StringLiteral {
                    expr = Expression::Literal(Literal::Str(cur.lexeme.clone()));
                } else if cur.kind == TokenType::True {
                    expr = Expression::Literal(Literal::Bool(true));
                } else if cur.kind == TokenType::False {
                    expr = Expression::Literal(Literal::Bool(false));
                } else if cur.kind == TokenType::Nil {
                    expr = Expression::Literal(Literal::Nil);
                } else if cur.kind == TokenType::LeftParen {
                    self.advance();  // over the left parenthesis
                    let inner = match self.expression() {
                        Ok(e) => e,
                        Err(pe) => {
                            return Err(pe);
                        },
                    };
                    let closers = vec![TokenType::RightParen];
                    proof {
                        assert(closers@[0] == TokenType::RightParen);
                    }
                    if self.advance_if_eq(&closers).is_none() {
                        return Err(ParseError::UnclosedGroup);
                    }
                    return Ok(inner);
                } else {
                    return Err(ParseError::UnexpectedToken { kind: cur.kind });
                }
            },
            None => {
                return Err(ParseError::UnexpectedEnd);
            },
        }
        self.advance();
        Ok(expr)
    }

    /// Parses the token sequence into a single expression tree, or reports
    /// the first syntax error. The cursor is left just past what was parsed;
    /// tokens after one whole expression, the closing `Eof` included, are
    /// not consumed.
    pub fn parse(&mut self) -> (r: Result<Expression, ParseError>)
        requires
            old(self).wf(),
        ensures
            final(self).wf(),
            final(self).toks() == old(self).toks(),
            match r {
                Ok(e) => {
                    &&& sp_equality(old(self).toks(), old(self).pos()) == Ok::<
                        (ExprModel, int),
                        ParseError,
                    >((e@, final(self).pos()))
                    &&& old(self).pos() < final(self).pos() <= old(self).toks().len()
                },
                Err(pe) => sp_equality(old(self).toks(), old(self).pos()) == Err::<
                    (ExprModel, int),
                    ParseError,
                >(pe),
            },
    {
        self.expression()
    }
}

} // verus!
