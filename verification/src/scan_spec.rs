use vstd::prelude::*;

use crate::token::{keyword_kind, LexErrorModel, TokenModel, TokenType};
use crate::unicode::{is_blank, is_digit, is_ident_continue, is_ident_start};

verus! {

/// The number of line feed characters in a sequence.
pub open spec fn newline_count(s: Seq<char>) -> int
    decreases s.len(),
{
    if s.len() == 0 {
        0
    } else {
        (if s[0] == '\n' {
            1int
        } else {
            0int
        }) + newline_count(s.skip(1))
    }
}

pub proof fn lemma_newline_count_bounds(s: Seq<char>)
    ensures
        0 <= newline_count(s) <= s.len(),
    decreases s.len(),
{
    if s.len() > 0 {
        lemma_newline_count_bounds(s.skip(1));
    }
}

pub proof fn lemma_newline_count_concat(a: Seq<char>, b: Seq<char>)
    ensures
        newline_count(a + b) == newline_count(a) + newline_count(b),
    decreases a.len(),
{
    if a.len() == 0 {
        assert(a + b =~= b);
    } else {
        assert((a + b).skip(1) =~= a.skip(1) + b);
        lemma_newline_count_concat(a.skip(1), b);
    }
}

pub proof fn lemma_newline_count_single(c: char)
    ensures
        newline_count(seq![c]) == (if c == '\n' {
            1int
        } else {
            0int
        }),
{
    assert(seq![c].skip(1) =~= Seq::<char>::empty());
    assert(newline_count(Seq::<char>::empty()) == 0);
}

pub proof fn lemma_newline_count_zero(s: Seq<char>)
    requires
        forall|k: int| 0 <= k < s.len() ==> s[k] != '\n',
    ensures
        newline_count(s) == 0,
    decreases s.len(),
{
    if s.len() > 0 {
        lemma_newline_count_zero(s.skip(1));
    }
}

/// Extending a prefix by one character adds one to the count exactly when
/// that character is a line feed.
pub proof fn lemma_newline_count_step(s: Seq<char>, i: int)
    requires
        0 <= i < s.len(),
    ensures
        newline_count(s.take(i + 1)) == newline_count(s.take(i)) + (if s[i] == '\n' {
            1int
        } else {
            0int
        }),
{
    assert(s.take(i + 1) =~= s.take(i) + seq![s[i]]);
    lemma_newline_count_concat(s.take(i), seq![s[i]]);
    lemma_newline_count_single(s[i]);
}

/// The newlines before position `end` are the newlines before position `i`
/// plus the newlines between the two positions.
pub proof fn lemma_newline_count_split(s: Seq<char>, i: int, end: int)
    requires
        0 <= i <= end <= s.len(),
    ensures
        newline_count(s.take(end)) == newline_count(s.take(i)) + newline_count(
            s.subrange(i, end),
        ),
{
    assert(s.take(end) =~= s.take(i) + s.subrange(i, end));
    lemma_newline_count_concat(s.take(i), s.subrange(i, end));
}

/// Extending a subrange by one character adds one to its newline count
/// exactly when that character is a line feed.
pub proof fn lemma_newline_count_subrange_step(s: Seq<char>, i: int, j: int)
    requires
        0 <= i <= j < s.len(),
    ensures
        newline_count(s.subrange(i, j + 1)) == newline_count(s.subrange(i, j)) + (if s[j] == '\n' {
            1int
        } else {
            0int
        }),
{
    assert(s.subrange(i, j + 1) =~= s.subrange(i, j) + seq![s[j]]);
    lemma_newline_count_concat(s.subrange(i, j), seq![s[j]]);
    lemma_newline_count_single(s[j]);
}

/// The first position at or after `i` holding a character that is not an
/// ASCII digit, or the end of the input.
pub open spec fn digit_run_end(s: Seq<char>, i: int) -> int
    decreases s.len() - i when 0 <= i <= s.len()
{
    if i < s.len() && is_digit(s[i]) {
        digit_run_end(s, i + 1)
    } else {
        i
    }
}

pub proof fn lemma_digit_run_end(s: Seq<char>, i: int)
    requires
        0 <= i <= s.len(),
    ensures
        i <= digit_run_end(s, i) <= s.len(),
        forall|k: int| i <= k < digit_run_end(s, i) ==> is_digit(s[k]),
        digit_run_end(s, i) < s.len() ==> !is_digit(s[digit_run_end(s, i)]),
    decreases s.len() - i,
{
    if i < s.len() && is_digit(s[i]) {
        lemma_digit_run_end(s, i + 1);
    }
}

/// The first position at or after `i` holding a character that cannot
/// continue an identifier, or the end of the input.
pub open spec fn ident_run_end(s: Seq<char>, i: int) -> int
    decreases s.len() - i when 0 <= i <= s.len()
{
    if i < s.len() && is_ident_continue(s[i]) {
        ident_run_end(s, i + 1)
    } else {
        i
    }
}

pub proof fn lemma_ident_run_end(s: Seq<char>, i: int)
    requires
        0 <= i <= s.len(),
    ensures
        i <= ident_run_end(s, i) <= s.len(),
        forall|k: int| i <= k < ident_run_end(s, i) ==> is_ident_continue(s[k]),
        ident_run_end(s, i) < s.len() ==> !is_ident_continue(s[ident_run_end(s, i)]),
    decreases s.len() - i,
{
    if i < s.len() && is_ident_continue(s[i]) {
        lemma_ident_run_end(s, i + 1);
    }
}

/// The first position at or after `i` holding a line feed, or the end of the
/// input: where a line comment stops.
pub open spec fn comment_end(s: Seq<char>, i: int) -> int
    decreases s.len() - i when 0 <= i <= s.len()
{
    if i < s.len() && s[i] != '\n' {
        comment_end(s, i + 1)
    } else {
        i
    }
}

pub proof fn lemma_comment_end(s: Seq<char>, i: int)
    requires
        0 <= i <= s.len(),
    ensures
        i <= comment_end(s, i) <= s.len(),
        forall|k: int| i <= k < comment_end(s, i) ==> s[k] != '\n',
        comment_end(s, i) < s.len() ==> s[comment_end(s, i)] == '\n',
    decreases s.len() - i,
{
    if i < s.len() && s[i] != '\n' {
        lemma_comment_end(s, i + 1);
    }
}

/// The position of the first double quote at or after `i`, if any.
pub open spec fn string_close(s: Seq<char>, i: int) -> Option<int>
    decreases s.len() - i when 0 <= i <= s.len()
{
    if i < s.len() {
        if s[i] == '"' {
            Some(i)
        } else {
            string_close(s, i + 1)
        }
    } else {
        None
    }
}

pub proof fn lemma_string_close(s: Seq<char>, i: int)
    requires
        0 <= i <= s.len(),
    ensures
        match string_close(s, i) {
            Some(j) => i <= j < s.len() && s[j] == '"' && forall|k: int| i <= k < j ==> s[k] != '"',
            None => forall|k: int| i <= k < s.len() ==> s[k] != '"',
        },
    decreases s.len() - i,
{
    if i < s.len() && s[i] != '"' {
        lemma_string_close(s, i + 1);
    }
}

/// The outcome of classifying one token starting at position `i` with the
/// line counter at `line`: either a kind together with the position one past
/// the token's last character and the line counter after it, or a lexical
/// error.
pub ghost enum Step {
    Tok { kind: TokenType, end: int, line_after: int },
    Fail { error: LexErrorModel },
}

/// One step of the scanner: record position `i` as the lexeme start, consume
/// one character, and classify, consuming lookahead characters as the rules
/// of the token demand. At the end of the input the step yields `Eof`.
pub open spec fn scan_step(s: Seq<char>, i: int, line: int) -> Step {
    if i >= s.len() {
        Step::Tok { kind: TokenType::Eof, end: i, line_after: line }
    } else {
        let c = s[i];
        if c == '(' {
            Step::Tok { kind: TokenType::LeftParen, end: i + 1, line_after: line }
        } else if c == ')' {
            Step::Tok { kind: TokenType::RightParen, end: i + 1, line_after: line }
        } else if c == '{' {
            Step::Tok { kind: TokenType::LeftBrace, end: i + 1, line_after: line }
        } else if c == '}' {
            Step::Tok { kind: TokenType::RightBrace, end: i + 1, line_after: line }
        } else if c == ',' {
            Step::Tok { kind: TokenType::Comma, end: i + 1, line_after: line }
        } else if c == '.' {
            Step::Tok { kind: TokenType::Dot, end: i + 1, line_after: line }
        } else if c == '-' {
            Step::Tok { kind: TokenType::Minus, end: i + 1, line_after: line }
        } else if c == '+' {
            Step::Tok { kind: TokenType::Plus, end: i + 1, line_after: line }
        } else if c == ';' {
            Step::Tok { kind: TokenType::Semicolon, end: i + 1, line_after: line }
        } else if c == '*' {
            Step::Tok { kind: TokenType::Star, end: i + 1, line_after: line }
        } else if c == '!' {
            if i + 1 < s.len() && s[i + 1] == '=' {
                Step::Tok { kind: TokenType::BangEqual, end: i + 2, line_after: line }
            } else {
                Step::Tok { kind: TokenType::Bang, end: i + 1, line_after: line }
            }
        } else if c == '=' {
            if i + 1 < s.len() && s[i + 1] == '=' {
                Step::Tok { kind: TokenType::EqualEqual, end: i + 2, line_after: line }
            } else {
                Step::Tok { kind: TokenType::Equal, end: i + 1, line_after: line }
            }
        } else if c == '<' {
            if i + 1 < s.len() && s[i + 1] == '=' {
                Step::Tok { kind: TokenType::LessEqual, end: i + 2, line_after: line }
            } else {
                Step::Tok { kind: TokenType::Less, end: i + 1, line_after: line }
            }
        } else if c == '>' {
            if i + 1 < s.len() && s[i + 1] == '=' {
                Step::Tok { kind: TokenType::GreaterEqual, end: i + 2, line_after: line }
            } else {
                Step::Tok { kind: TokenType::Greater, end: i + 1, line_after: line }
            }
        } else if c == '/' {
            if i + 1 < s.len() && s[i + 1] == '/' {
                Step::Tok { kind: TokenType::Whitespace, end: comment_end(s, i + 2), line_after: line }
            } else {
                Step::Tok { kind: TokenType::Slash, end: i + 1, line_after: line }
            }
        } else if c == '\n' {
            Step::Tok { kind: TokenType::Whitespace, end: i + 1, line_after: line + 1 }
        } else if c == '"' {
            match string_close(s, i + 1) {
                Some(j) => Step::Tok {
                    kind: TokenType::StringLiteral,
                    end: j + 1,
                    line_after: line + newline_count(s.subrange(i + 1, j)),
                },
                None => Step::Fail {
                    error: LexErrorModel::UnterminatedString {
                        line: line + newline_count(s.subrange(i + 1, s.len() as int)),
                    },
                },
            }
        } else if is_blank(c) {
            Step::Tok { kind: TokenType::Whitespace, end: i + 1, line_after: line }
        } else if is_digit(c) {
            let d = digit_run_end(s, i + 1);
            if d < s.len() && s[d] == '.' && d + 1 < s.len() && is_digit(s[d + 1]) {
                Step::Tok { kind: TokenType::NumberLiteral, end: digit_run_end(s, d + 1), line_after: line }
            } else {
                Step::Tok { kind: TokenType::NumberLiteral, end: d, line_after: line }
            }
        } else if is_ident_start(c) {
            let e = ident_run_end(s, i + 1);
            Step::Tok { kind: keyword_kind(s.subrange(i, e)), end: e, line_after: line }
        } else {
            Step::Fail { error: LexErrorModel::UnexpectedCharacter { character: c, line } }
        }
    }
}

/// A successful step stays inside the input, consumes at least one character
/// unless it is the `Eof` step, yields `Eof` exactly at the end of the input,
/// and advances the line counter by the number of line feeds it consumed.
pub proof fn lemma_scan_step(s: Seq<char>, i: int, line: int)
    requires
        0 <= i <= s.len(),
    ensures
        match scan_step(s, i, line) {
            Step::Tok { kind, end, line_after } => {
                &&& i <= end <= s.len()
                &&& (i < s.len() ==> i < end)
                &&& (kind == TokenType::Eof <==> i >= s.len())
                &&& line_after == line + newline_count(s.subrange(i, end))
            },
            Step::Fail { error } => true,
        },
{
    if i >= s.len() {
        assert(s.subrange(i, i) =~= Seq::<char>::empty());
    } else {
        let c = s[i];
        assert(s.subrange(i, i + 1) =~= seq![c]);
        lemma_newline_count_single(c);
        if c == '!' || c == '=' || c == '<' || c == '>' {
            if i + 1 < s.len() && s[i + 1] == '=' {
                lemma_no_newline_run(s, i, i + 2);
            } else {
                lemma_no_newline_run(s, i, i + 1);
            }
        } else if c == '/' && i + 1 < s.len() && s[i + 1] == '/' {
            lemma_comment_end(s, i + 2);
            lemma_no_newline_run(s, i, comment_end(s, i + 2));
        } else if c == '"' {
            lemma_string_close(s, i + 1);
            match string_close(s, i + 1) {
                Some(j) => {
                    assert(s.subrange(i, j + 1) =~= seq![c] + s.subrange(i + 1, j) + seq![s[j]]);
                    lemma_newline_count_concat(seq![c] + s.subrange(i + 1, j), seq![s[j]]);
                    lemma_newline_count_concat(seq![c], s.subrange(i + 1, j));
                    lemma_newline_count_single(s[j]);
                },
                None => {},
            }
        } else if c == '\n' {
        } else if is_digit(c) {
            lemma_digit_run_end(s, i + 1);
            let d = digit_run_end(s, i + 1);
            if d < s.len() && s[d] == '.' && d + 1 < s.len() && is_digit(s[d + 1]) {
                lemma_digit_run_end(s, d + 1);
                lemma_no_newline_run(s, i, digit_run_end(s, d + 1));
            } else {
                lemma_no_newline_run(s, i, d);
            }
        } else if !(c == '(' || c == ')' || c == '{' || c == '}' || c == ',' || c == '.' || c == '-'
            || c == '+' || c == ';' || c == '*' || is_blank(c)) && is_ident_start(c) {
            lemma_ident_run_end(s, i + 1);
            lemma_no_newline_run(s, i, ident_run_end(s, i + 1));
        } else {
            lemma_no_newline_run(s, i, i + 1);
        }
    }
}

/// When no character of `s[i .. end]` is a line feed, that range contributes
/// nothing to the line count.
proof fn lemma_no_newline_run(s: Seq<char>, i: int, end: int)
    requires
        0 <= i <= end <= s.len(),
        forall|k: int| i <= k < end ==> s[k] != '\n',
    ensures
        newline_count(s.subrange(i, end)) == 0,
{
    lemma_newline_count_zero(s.subrange(i, end));
}

/// One scanned token paired with the position of its first character.
pub ghost struct PosToken {
    pub start: int,
    pub token: TokenModel,
}

/// The tokens of a positioned token sequence, the positions dropped.
pub open spec fn pos_token_models(ps: Seq<PosToken>) -> Seq<TokenModel> {
    ps.map_values(|p: PosToken| p.token)
}

/// The whole scan from position `i` with the line counter at `line`: the
/// ordered tokens that remain, each paired with its starting position, with
/// `Whitespace` steps suppressed and a final `Eof` token, or the first
/// lexical error.
pub open spec fn spec_scan_from(s: Seq<char>, i: int, line: int) -> Result<
    Seq<PosToken>,
    LexErrorModel,
>
    decreases s.len() - i when 0 <= i <= s.len()
{
    match scan_step(s, i, line) {
        Step::Fail { error } => Err(error),
        Step::Tok { kind, end, line_after } => {
            if kind == TokenType::Eof {
                Ok(
                    seq![
                        PosToken {
                            start: i,
                            token: TokenModel {
                                kind: TokenType::Eof,
                                lexeme: s.subrange(i, end),
                                line,
                            },
                        },
                    ],
                )
            } else if kind == TokenType::Whitespace {
                proof {
                    lemma_scan_step(s, i, line);
                }
                spec_scan_from(s, end, line_after)
            } else {
                proof {
                    lemma_scan_step(s, i, line);
                }
                match spec_scan_from(s, end, line_after) {
                    Ok(rest) => Ok(
                        seq![
                            PosToken {
                                start: i,
                                token: TokenModel { kind, lexeme: s.subrange(i, end), line },
                            },
                        ] + rest,
                    ),
                    Err(error) => Err(error),
                }
            }
        },
    }
}

/// What scanning a whole source text yields: the token sequence of the
/// non-`Whitespace` tokens in order, closed by `Eof`, or the first lexical
/// error. Scanning starts at the first character with the line counter at 1.
pub open spec fn spec_scan(s: Seq<char>) -> Result<Seq<TokenModel>, LexErrorModel> {
    match spec_scan_from(s, 0, 1) {
        Ok(ps) => Ok(pos_token_models(ps)),
        Err(e) => Err(e),
    }
}

} // verus!
