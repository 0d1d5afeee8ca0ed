use vstd::prelude::*;
use vstd::string::StrSliceExecFns;

use crate::scan_spec::{
    comment_end, digit_run_end, ident_run_end, lemma_newline_count_bounds,
    lemma_newline_count_split, lemma_newline_count_step, lemma_newline_count_subrange_step,
    lemma_scan_step, newline_count, pos_token_models, scan_step, spec_scan, spec_scan_from,
    string_close, PosToken, Step,
};
use crate::token::{
    keyword_or_identifier, token_views, LexError, LexErrorModel, Token, TokenModel, TokenType,
};
use crate::unicode::{exec_is_blank, exec_is_digit, exec_is_ident_continue, exec_is_ident_start};

verus! {

/// A single-pass cursor over a source text, turning it into classified
/// tokens. `start` marks the first character of the lexeme being scanned,
/// `current` the next character to consume; both are character positions.
/// `line` is the 1-based line of `current`.
pub struct Scanner<'a> {
    source: &'a str,
    start: usize,
    current: usize,
    line: i32,
}

impl<'a> Scanner<'a> {
    /// The source text being scanned.
    pub closed spec fn src(&self) -> Seq<char> {
        self.source@
    }

    /// A scanner that has consumed nothing yet.
    pub closed spec fn fresh(&self) -> bool {
        &&& self.start == 0
        &&& self.current == 0
        &&& self.line == 1
    }

    /// The cursor sits inside the source, behind the lexeme start, and the
    /// source is short enough for every line number to fit in `line`.
    spec fn inv(&self) -> bool {
        &&& self.start <= self.current <= self.src().len()
        &&& self.src().len() < 0x7fff_fffe
    }

    /// `line` agrees with the number of line feeds before `current`.
    spec fn line_sync(&self) -> bool {
        self.line as int == 1 + newline_count(self.src().take(self.current as int))
    }

    pub fn new(source: &'a str) -> (s: Scanner<'a>)
        ensures
            s.src() == source@,
            s.fresh(),
    {
        Scanner { source, start: 0, current: 0, line: 1 }
    }

    /// Consumes one character, if any is left.
    fn next(&mut self) -> (r: Option<char>)
        requires
            old(self).inv(),
        ensures
            final(self).inv(),
            final(self).src() == old(self).src(),
            final(self).start == old(self).start,
            final(self).line == old(self).line,
            old(self).current < old(self).src().len() ==> r == Some(
                old(self).src()[old(self).current as int],
            ) && final(self).current == old(self).current + 1,
            old(self).current >= old(self).src().len() ==> r == None::<char> && final(self).current
                == old(self).current,
    {
        let n = self.source.unicode_len();
        if self.current < n {
            let c = self.source.get_char(self.current);
            self.current = self.current + 1;
            Some(c)
        } else {
            None
        }
    }

    /// Consumes the next character exactly when it equals `expected`.
    fn next_if_eq(&mut self, expected: char) -> (r: bool)
        requires
            old(self).inv(),
        ensures
            final(self).inv(),
            final(self).src() == old(self).src(),
            final(self).start == old(self).start,
            final(self).line == old(self).line,
            r == (old(self).current < old(self).src().len() && old(self).src()[old(
                self,
            ).current as int] == expected),
            r ==> final(self).current == old(self).current + 1,
            !r ==> final(self).current == old(self).current,
    {
        let n = self.source.unicode_len();
        if self.current < n {
            let c = self.source.get_char(self.current);
            if c == expected {
                self.current = self.current + 1;
                return true;
            }
        }
        false
    }

    /// Looks two characters ahead for a decimal point followed by a digit,
    /// consuming nothing: a trailing dot with no digit after it must not be
    /// swallowed into a number.
    fn decimal_point(&self) -> (r: bool)
        requires
            self.inv(),
        ensures
            r == (self.current + 1 < self.src().len() && self.src()[self.current as int] == '.'
                && crate::unicode::is_digit(self.src()[self.current as int + 1])),
    {
        let n = self.source.unicode_len();
        if self.current + 1 < n {
            let c0 = self.source.get_char(self.current);
            if c0 == '.' {
                let c1 = self.source.get_char(self.current + 1);
                return exec_is_digit(c1);
            }
        }
        false
    }

    /// Consumes the maximal run of ASCII digits at the cursor.
    fn next_while_digit(&mut self)
        requires
            old(self).inv(),
        ensures
            final(self).inv(),
            final(self).src() == old(self).src(),
            final(self).start == old(self).start,
            final(self).line == old(self).line,
            final(self).current as int == digit_run_end(old(self).src(), old(self).current as int),
    {
        let n = self.source.unicode_len();
        let ghost c0 = old(self).current as int;
        loop
            invariant
                self.inv(),
                self.src() == old(self).src(),
                self.start == old(self).start,
                self.line == old(self).line,
                n == self.src().len(),
                0 <= c0 <= self.current as int,
                digit_run_end(self.src(), c0) == digit_run_end(self.src(), self.current as int),
            ensures
                self.inv(),
                self.src() == old(self).src(),
                self.start == old(self).start,
                self.line == old(self).line,
                self.current as int == digit_run_end(self.src(), c0),
            decreases self.src().len() - self.current,
        {
            if self.current < n {
                let c = self.source.get_char(self.current);
                if exec_is_digit(c) {
                    self.current = self.current + 1;
                    continue ;
                }
            }
            proof {
                assert(digit_run_end(self.src(), self.current as int) == self.current as int);
            }
            break ;
        }
    }

    /// Consumes the maximal run of identifier-continuation characters at the
    /// cursor.
    fn next_while_ident(&mut self)
        requires
            old(self).inv(),
        ensures
            final(self).inv(),
            final(self).src() == old(self).src(),
            final(self).start == old(self).start,
            final(self).line == old(self).line,
            final(self).current as int == ident_run_end(old(self).src(), old(self).current as int),
    {
        let n = self.source.unicode_len();
        let ghost c0 = old(self).current as int;
        loop
            invariant
                self.inv(),
                self.src() == old(self).src(),
                self.start == old(self).start,
                self.line == old(self).line,
                n == self.src().len(),
                0 <= c0 <= self.current as int,
                ident_run_end(self.src(), c0) == ident_run_end(self.src(), self.current as int),
            ensures
                self.inv(),
                self.src() == old(self).src(),
                self.start == old(self).start,
                self.line == old(self).line,
                self.current as int == ident_run_end(self.src(), c0),
            decreases self.src().len() - self.current,
        {
            if self.current < n {
                let c = self.source.get_char(self.current);
                if exec_is_ident_continue(c) {
                    self.current = self.current + 1;
                    continue ;
                }
            }
            proof {
                assert(ident_run_end(self.src(), self.current as int) == self.current as int);
            }
            break ;
        }
    }

    /// Consumes a line comment: everything up to, but not including, the next
    /// line feed or the end of the input.
    fn next_while_comment(&mut self)
        requires
            old(self).inv(),
        ensures
            final(self).inv(),
            final(self).src() == old(self).src(),
            final(self).start == old(self).start,
            final(self).line == old(self).line,
            final(self).current as int == comment_end(old(self).src(), old(self).current as int),
    {
        let n = self.source.unicode_len();
        let ghost c0 = old(self).current as int;
        loop
            invariant
                self.inv(),
                self.src() == old(self).src(),
                self.start == old(self).start,
                self.line == old(self).line,
                n == self.src().len(),
                0 <= c0 <= self.current as int,
                comment_end(self.src(), c0) == comment_end(self.src(), self.current as int),
            ensures
                self.inv(),
                self.src() == old(self).src(),
                self.start == old(self).start,
                self.line == old(self).line,
                self.current as int == comment_end(self.src(), c0),
            decreases self.src().len() - self.current,
        {
            if self.current < n {
                let c = self.source.get_char(self.current);
                if c != '\n' {
                    self.current = self.current + 1;
                    continue ;
                }
            }
            proof {
                assert(comment_end(self.src(), self.current as int) == self.current as int);
            }
            break ;
        }
    }

    /// Consumes the rest of a string literal, the opening quote already
    /// consumed: everything through the closing quote, counting embedded line
    /// feeds into `line`. Running out of input first is the unterminated
    /// string error.
    fn string(&mut self) -> (r: Result<TokenType, LexError>)
        requires
            old(self).inv(),
            old(self).line_sync(),
        ensures
            final(self).src() == old(self).src(),
            final(self).start == old(self).start,
            match string_close(old(self).src(), old(self).current as int) {
                Some(j) => {
                    &&& r == Ok::<TokenType, LexError>(TokenType::StringLiteral)
                    &&& final(self).inv()
                    &&& final(self).line_sync()
                    &&& final(self).current as int == j + 1
                    &&& final(self).line as int == old(self).line as int + newline_count(
                        old(self).src().subrange(old(self).current as int, j),
                    )
                },
                None => r matches Err(e) && e@ == crate::token::LexErrorModel::UnterminatedString {
                    line: old(self).line as int + newline_count(
                        old(self).src().subrange(old(self).current as int, old(self).src().len() as int),
                    ),
                },
            },
    {
        let ghost s = self.src();
        let ghost c0 = old(self).current as int;
        let n = self.source.unicode_len();
        proof {
            assert(s.subrange(c0, c0) =~= Seq::<char>::empty());
        }
        loop
            invariant
                self.inv(),
                self.line_sync(),
                self.src() == s,
                self.start == old(self).start,
                s == old(self).src(),
                c0 == old(self).current as int,
                n == s.len(),
                0 <= c0 <= self.current as int,
                string_close(s, c0) == string_close(s, self.current as int),
                self.line as int == old(self).line as int + newline_count(
                    s.subrange(c0, self.current as int),
                ),
            ensures
                self.src() == s,
                self.start == old(self).start,
                self.current as int == s.len(),
                string_close(s, c0) == None::<int>,
                self.line as int == old(self).line as int + newline_count(
                    s.subrange(c0, s.len() as int),
                ),
            decreases s.len() - self.current,
        {
            if self.current < n {
                let ghost j = self.current as int;
                let c = self.source.get_char(self.current);
                self.current = self.current + 1;
                proof {
                    lemma_newline_count_subrange_step(s, c0, j);
                    lemma_newline_count_step(s, j);
                }
                if c == '"' {
                    proof {
                        assert(string_close(s, j) == Some(j));
                    }
                    return Ok(TokenType::StringLiteral);
                } else if c == '\n' {
                    proof {
                        lemma_newline_count_bounds(s.take(j));
                    }
                    self.line = self.line + 1;
                }
            } else {
                proof {
                    assert(string_close(s, self.current as int) == None::<int>);
                }
                break ;
            }
        }
        Err(LexError::UnterminatedString { line: self.line })
    }

    /// Scans exactly one token at the cursor, `Whitespace` steps included,
    /// leaving the cursor and line counter just past it. At the end of the
    /// input the token is `Eof`. The token's line is the line on which its
    /// lexeme begins.
    fn scan_token(&mut self) -> (r: Result<Token, LexError>)
        requires
            old(self).inv(),
            old(self).line_sync(),
        ensures
            final(self).src() == old(self).src(),
            match r {
                Ok(tok) => {
                    &&& final(self).inv()
                    &&& final(self).line_sync()
                    &&& (match scan_step(
                        old(self).src(),
                        old(self).current as int,
                        old(self).line as int,
                    ) {
                        Step::Tok { kind, end, line_after } => {
                            &&& tok@ == (TokenModel {
                                kind,
                                lexeme: old(self).src().subrange(old(self).current as int, end),
                                line: old(self).line as int,
                            })
                            &&& final(self).current as int == end
                            &&& final(self).line as int == line_after
                            &&& final(self).start == final(self).current
                        },
                        Step::Fail { .. } => false,
                    })
                },
                Err(e) => (match scan_step(
                    old(self).src(),
                    old(self).current as int,
                    old(self).line as int,
                ) {
                    Step::Fail { error } => e@ == error,
                    Step::Tok { .. } => false,
                }),
            },
    {
        self.start = self.current;
        let ghost s = self.src();
        let ghost i = self.current as int;
        let ghost line0 = self.line as int;
        let tok_line = self.line;
        let kind: TokenType;
        match self.next() {
            Some(c) => {
                if c == '(' {
                    kind = TokenType::LeftParen;
                } else if c == ')' {
                    kind = TokenType::RightParen;
                } else if c == '{' {
                    kind = TokenType::LeftBrace;
                } else if c == '}' {
                    kind = TokenType::RightBrace;
                } else if c == ',' {
                    kind = TokenType::Comma;
                } else if c == '.' {
                    kind = TokenType::Dot;
                } else if c == '-' {
                    kind = TokenType::Minus;
                } else if c == '+' {
                    kind = TokenType::Plus;
                } else if c == ';' {
                    kind = TokenType::Semicolon;
                } else if c == '*' {
                    kind = TokenType::Star;
                } else if c == '!' {
                    kind = if self.next_if_eq('=') {
                        TokenType::BangEqual
                    } else {
                        TokenType::Bang
                    };
                } else if c == '=' {
                    kind = if self.next_if_eq('=') {
                        TokenType::EqualEqual
                    } else {
                        TokenType::Equal
                    };
                } else if c == '<' {
                    kind = if self.next_if_eq('=') {
                        TokenType::LessEqual
                    } else {
                        TokenType::Less
                    };
                } else if c == '>' {
                    kind = if self.next_if_eq('=') {
                        TokenType::GreaterEqual
                    } else {
                        TokenType::Greater
                    };
                } else if c == '/' {
                    if self.next_if_eq('/') {
                        self.next_while_comment();
                        kind = TokenType::Whitespace;
                    } else {
                        kind = TokenType::Slash;
                    }
                } else if c == '\n' {
                    proof {
                        lemma_newline_count_bounds(s.take(i));
                    }
                    self.line = self.line + 1;
                    kind = TokenType::Whitespace;
                } else if c == '"' {
                    proof {
                        lemma_newline_count_step(s, i);
                    }
                    match self.string() {
                        Ok(k) => {
                            kind = k;
                        },
                        Err(e) => {
                            return Err(e);
                        },
                    }
                } else if exec_is_blank(c) {
                    kind = TokenType::Whitespace;
                } else if exec_is_digit(c) {
                    self.next_while_digit();
                    if self.decimal_point() {
                        self.next();  // read the decimal point
                        self.next_while_digit();
                    }
                    kind = TokenType::NumberLiteral;
                } else if exec_is_ident_start(c) {
                    self.next_while_ident();
                    let ident = self.source.substring_char(self.start, self.current);
                    kind = keyword_or_identifier(ident);
                } else {
                    return Err(LexError::UnexpectedCharacter { character: c, line: self.line });
                }
            },
            None => {
                kind = TokenType::Eof;
            },
        }
        proof {
            lemma_scan_step(s, i, line0);
            lemma_newline_count_split(s, i, self.current as int);
        }
        let lexeme = self.source.substring_char(self.start, self.current).to_owned();
        let token = Token { kind, lexeme, line: tok_line };
        self.start = self.current;
        Ok(token)
    }

    /// Scans the whole source text: on success the ordered sequence of its
    /// tokens with `Whitespace` suppressed, closed by a single `Eof` token;
    /// otherwise the first lexical error, which aborts scanning.
    pub fn scan_tokens(&mut self) -> (r: Result<Vec<Token>, LexError>)
        requires
            old(self).fresh(),
            old(self).src().len() < 0x7fff_fffe,
        ensures
            final(self).src() == old(self).src(),
            (match spec_scan(old(self).src()) {
                Ok(models) => r matches Ok(tokens) && token_views(tokens@) == models,
                Err(error) => r matches Err(e) && e@ == error,
            }),
    {
        let ghost s = self.src();
        let mut tokens: Vec<Token> = Vec::new();
        let ghost mut done: Seq<PosToken> = Seq::empty();
        proof {
            assert(s.take(0) =~= Seq::<char>::empty());
            match spec_scan_from(s, 0, 1) {
                Ok(rest) => {
                    assert(done + rest =~= rest);
                },
                Err(_) => {},
            }
        }
        loop
            invariant_except_break
                spec_scan_from(s, 0, 1) == (match spec_scan_from(
                    s,
                    self.current as int,
                    self.line as int,
                ) {
                    Ok(rest) => Ok::<Seq<PosToken>, LexErrorModel>(done + rest),
                    Err(error) => Err::<Seq<PosToken>, LexErrorModel>(error),
                }),
            invariant
                self.inv(),
                self.line_sync(),
                self.src() == s,
                s == old(self).src(),
                token_views(tokens@) == pos_token_models(done),
            ensures
                self.src() == s,
                token_views(tokens@) == pos_token_models(done),
                spec_scan_from(s, 0, 1) == Ok::<Seq<PosToken>, LexErrorModel>(done),
            decreases s.len() - self.current,
        {
            let ghost i = self.current as int;
            let ghost line0 = self.line as int;
            let token = match self.scan_token() {
                Ok(t) => t,
                Err(e) => {
                    proof {
                        assert(spec_scan_from(s, i, line0) == Err::<
                            Seq<PosToken>,
                            LexErrorModel,
                        >(e@));
                    }
                    return Err(e);
                },
            };
            let is_ws = token.kind == TokenType::Whitespace;
            let is_eof = token.kind == TokenType::Eof;
            proof {
                lemma_scan_step(s, i, line0);
            }
            if !is_ws {
                let ghost pt = PosToken { start: i, token: token@ };
                let ghost done_before = done;
                let ghost tokens_before = tokens@;
                tokens.push(token);
                proof {
                    done = done_before + seq![pt];
                    assert(token_views(tokens_before).len() == tokens_before.len());
                    assert(pos_token_models(done_before).len() == done_before.len());
                    assert(tokens@ == tokens_before.push(token));
                    assert(done.len() == done_before.len() + 1);
                    assert forall|k: int| 0 <= k < tokens@.len() implies token_views(tokens@)[k]
                        == pos_token_models(done)[k] by {
                        if k < tokens_before.len() {
                            assert(token_views(tokens_before)[k] == pos_token_models(
                                done_before,
                            )[k]);
                            assert(tokens@[k] == tokens_before[k]);
                            assert(done[k] == done_before[k]);
                        } else {
                            assert(tokens@[k] == token);
                            assert(done[k] == pt);
                        }
                    }
                    assert(token_views(tokens@) =~= pos_token_models(done));
                    if !is_eof {
                        match spec_scan_from(s, self.current as int, self.line as int) {
                            Ok(rest) => {
                                assert((done_before + seq![pt]) + rest =~= done_before + (
                                seq![pt] + rest));
                            },
                            Err(_) => {},
                        }
                    } else {
                        assert(spec_scan_from(s, i, line0) == Ok::<
                            Seq<PosToken>,
                            LexErrorModel,
                        >(seq![pt]));
                    }
                }
                if is_eof {
                    break ;
                }
            }
        }
        proof {
            match spec_scan(s) {
                Ok(models) => {
                    assert(token_views(tokens@) == models);
                },
                Err(_) => {},
            }
        }
        Ok(tokens)
    }
}

} // verus!
