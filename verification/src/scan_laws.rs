use vstd::prelude::*;

use crate::scan_spec::{
    digit_run_end, ident_run_end, lemma_digit_run_end, lemma_ident_run_end,
    lemma_newline_count_split, lemma_scan_step, lemma_string_close, newline_count,
    pos_token_models, scan_step, spec_scan, spec_scan_from, string_close, PosToken, Step,
};
use crate::token::{keyword_kind, TokenType};

verus! {

/// Every token of a successful scan records where it came from: its `start`
/// lies in the input, its line counts the line feeds before `start`, its
/// lexeme is exactly the input from `start` to the end that one scanning
/// step from `start` reaches, its kind is that step's kind, and it is never
/// `Whitespace`.
proof fn lemma_scan_from_facts(s: Seq<char>, i: int, line: int, k: int)
    requires
        0 <= i <= s.len(),
        line == 1 + newline_count(s.take(i)),
        spec_scan_from(s, i, line) matches Ok(ps) && 0 <= k < ps.len(),
    ensures
        spec_scan_from(s, i, line) matches Ok(ps) ==> ({
            let p = ps[k].start;
            let tm = ps[k].token;
            &&& i <= p <= s.len()
            &&& tm.line == 1 + newline_count(s.take(p))
            &&& tm.kind != TokenType::Whitespace
            &&& tm.lexeme == s.subrange(p, p + tm.lexeme.len())
            &&& (scan_step(s, p, tm.line) matches Step::Tok { kind, end, line_after } && kind
                == tm.kind && end == p + tm.lexeme.len())
        }),
    decreases s.len() - i,
{
    lemma_scan_step(s, i, line);
    match scan_step(s, i, line) {
        Step::Fail { .. } => {},
        Step::Tok { kind, end, line_after } => {
            if kind == TokenType::Eof {
                assert(s.subrange(i, i).len() == 0);
            } else {
                lemma_newline_count_split(s, i, end);
                if kind == TokenType::Whitespace {
                    lemma_scan_from_facts(s, end, line_after, k);
                } else {
                    if k == 0 {
                        assert(s.subrange(i, end).len() == end - i);
                    } else {
                        lemma_scan_from_facts(s, end, line_after, k - 1);
                    }
                }
            }
        },
    }
}

/// Line tracking: a token that begins after exactly N line feed characters
/// of the source reports line N + 1.
pub proof fn lemma_line_tracking(s: Seq<char>, k: int)
    requires
        spec_scan_from(s, 0, 1) matches Ok(ps) && 0 <= k < ps.len(),
    ensures
        spec_scan_from(s, 0, 1) matches Ok(ps) ==> ps[k].token.line == 1 + newline_count(
            s.take(ps[k].start),
        ),
{
    assert(s.take(0) =~= Seq::<char>::empty());
    lemma_scan_from_facts(s, 0, 1, k);
}

/// The kinds written with one or two characters of punctuation alone.
pub open spec fn simple_kind(k: TokenType) -> bool {
    ||| k == TokenType::LeftParen
    ||| k == TokenType::RightParen
    ||| k == TokenType::LeftBrace
    ||| k == TokenType::RightBrace
    ||| k == TokenType::Comma
    ||| k == TokenType::Dot
    ||| k == TokenType::Minus
    ||| k == TokenType::Plus
    ||| k == TokenType::Semicolon
    ||| k == TokenType::Star
    ||| k == TokenType::Slash
    ||| k == TokenType::Bang
    ||| k == TokenType::BangEqual
    ||| k == TokenType::Equal
    ||| k == TokenType::EqualEqual
    ||| k == TokenType::Less
    ||| k == TokenType::LessEqual
    ||| k == TokenType::Greater
    ||| k == TokenType::GreaterEqual
}

/// The spelling of each such kind.
pub open spec fn simple_lexeme(k: TokenType) -> Seq<char> {
    if k == TokenType::LeftParen {
        seq!['(']
    } else if k == TokenType::RightParen {
        seq![')']
    } else if k == TokenType::LeftBrace {
        seq!['{']
    } else if k == TokenType::RightBrace {
        seq!['}']
    } else if k == TokenType::Comma {
        seq![',']
    } else if k == TokenType::Dot {
        seq!['.']
    } else if k == TokenType::Minus {
        seq!['-']
    } else if k == TokenType::Plus {
        seq!['+']
    } else if k == TokenType::Semicolon {
        seq![';']
    } else if k == TokenType::Star {
        seq!['*']
    } else if k == TokenType::Slash {
        seq!['/']
    } else if k == TokenType::Bang {
        seq!['!']
    } else if k == TokenType::BangEqual {
        seq!['!', '=']
    } else if k == TokenType::Equal {
        seq!['=']
    } else if k == TokenType::EqualEqual {
        seq!['=', '=']
    } else if k == TokenType::Less {
        seq!['<']
    } else if k == TokenType::LessEqual {
        seq!['<', '=']
    } else if k == TokenType::Greater {
        seq!['>']
    } else if k == TokenType::GreaterEqual {
        seq!['>', '=']
    } else {
        Seq::empty()
    }
}

/// The source text that writes the kinds of `ks` in order, one space after
/// each lexeme.
pub open spec fn spaced_source(ks: Seq<TokenType>) -> Seq<char>
    decreases ks.len(),
{
    if ks.len() == 0 {
        Seq::empty()
    } else {
        simple_lexeme(ks[0]) + seq![' '] + spaced_source(ks.skip(1))
    }
}

/// Scanning a tail of the input that spells out `ks` yields exactly those
/// kinds in order, each with its spelling as lexeme and the unchanged line,
/// closed by `Eof`.
proof fn lemma_scan_spaced(s: Seq<char>, i: int, line: int, ks: Seq<TokenType>)
    requires
        0 <= i <= s.len(),
        forall|m: int| 0 <= m < ks.len() ==> simple_kind(ks[m]),
        s.subrange(i, s.len() as int) == spaced_source(ks),
    ensures
        spec_scan_from(s, i, line) matches Ok(ps) && ps.len() == ks.len() + 1 && (forall|m: int|
            0 <= m < ks.len() ==> ps[m].token.kind == ks[m] && ps[m].token.lexeme
                == simple_lexeme(ks[m]) && ps[m].token.line == line) && ps[ks.len() as int].token.kind
            == TokenType::Eof,
    decreases ks.len(),
{
    let tail = s.subrange(i, s.len() as int);
    if ks.len() == 0 {
        assert(tail.len() == 0);
        assert(i == s.len());
    } else {
        let k0 = ks[0];
        let lex = simple_lexeme(k0);
        let w = lex.len() as int;
        let rest = spaced_source(ks.skip(1));
        assert(simple_kind(k0));
        assert(1 <= w <= 2);
        assert(tail.len() == w + 1 + rest.len());
        assert(s[i] == tail[0] && tail[0] == lex[0]);
        if w == 2 {
            assert(s[i + 1] == tail[1] && tail[1] == lex[1]);
        }
        assert(s[i + w] == tail[w] && tail[w] == ' ');
        assert(scan_step(s, i, line) matches Step::Tok { kind, end, line_after } && kind == k0
            && end == i + w && line_after == line);
        assert(s.subrange(i, i + w) =~= lex);
        assert(scan_step(s, i + w, line) == (Step::Tok {
            kind: TokenType::Whitespace,
            end: i + w + 1,
            line_after: line,
        }));
        assert(s.subrange(i + w + 1, s.len() as int) =~= rest) by {
            assert forall|d: int| 0 <= d < rest.len() implies s.subrange(
                i + w + 1,
                s.len() as int,
            )[d] == rest[d] by {
                assert(s.subrange(i + w + 1, s.len() as int)[d] == tail[w + 1 + d]);
                assert(tail[w + 1 + d] == rest[d]);
            }
        }
        lemma_scan_spaced(s, i + w + 1, line, ks.skip(1));
        if let Ok(ps1) = spec_scan_from(s, i + w + 1, line) {
            assert(spec_scan_from(s, i + w, line) == Ok::<Seq<PosToken>, crate::token::LexErrorModel>(ps1));
            assert(spec_scan_from(s, i, line) matches Ok(ps) && ps == seq![
                PosToken {
                    start: i,
                    token: crate::token::TokenModel {
                        kind: k0,
                        lexeme: s.subrange(i, i + w),
                        line,
                    },
                },
            ] + ps1);
            if let Ok(ps) = spec_scan_from(s, i, line) {
                assert forall|m: int| 0 <= m < ks.len() implies ps[m].token.kind == ks[m]
                    && ps[m].token.lexeme == simple_lexeme(ks[m]) && ps[m].token.line == line by {
                    if m > 0 {
                        assert(ps[m] == ps1[m - 1]);
                        assert(ks.skip(1)[m - 1] == ks[m]);
                    }
                }
                assert(ps[ks.len() as int] == ps1[ks.len() as int - 1]);
                assert(ks.skip(1).len() == ks.len() - 1);
            }
        }
    }
}

/// When the input is nothing but recognized one- and two-character tokens
/// separated by spaces, the scan succeeds with exactly those kinds in order,
/// each on line 1, and a final `Eof`.
pub proof fn lemma_simple_tokens(ks: Seq<TokenType>)
    requires
        forall|m: int| 0 <= m < ks.len() ==> simple_kind(ks[m]),
    ensures
        spec_scan(spaced_source(ks)) matches Ok(toks) && toks.len() == ks.len() + 1 && (forall|
            m: int,
        |
            0 <= m < ks.len() ==> toks[m].kind == ks[m] && toks[m].lexeme == simple_lexeme(ks[m])
                && toks[m].line == 1) && toks[ks.len() as int].kind == TokenType::Eof,
{
    let s = spaced_source(ks);
    assert(s.subrange(0, s.len() as int) =~= s);
    lemma_scan_spaced(s, 0, 1, ks);
    if let Ok(ps) = spec_scan_from(s, 0, 1) {
        assert(pos_token_models(ps).len() == ps.len());
        assert forall|m: int| 0 <= m < ps.len() implies pos_token_models(ps)[m] == ps[m].token by {}
    }
}

/// The digit run from `i` ends exactly at `j` when the characters up to `j`
/// are digits and the one at `j`, if any, is not.
proof fn lemma_digit_run_end_is(s: Seq<char>, i: int, j: int)
    requires
        0 <= i <= j <= s.len(),
        forall|m: int| i <= m < j ==> crate::unicode::is_digit(s[m]),
        j < s.len() ==> !crate::unicode::is_digit(s[j]),
    ensures
        digit_run_end(s, i) == j,
{
    lemma_digit_run_end(s, i);
}

/// The identifier run from `i` ends exactly at `j` when the characters up to
/// `j` can continue an identifier and the one at `j`, if any, cannot.
proof fn lemma_ident_run_end_is(s: Seq<char>, i: int, j: int)
    requires
        0 <= i <= j <= s.len(),
        forall|m: int| i <= m < j ==> crate::unicode::is_ident_continue(s[m]),
        j < s.len() ==> !crate::unicode::is_ident_continue(s[j]),
    ensures
        ident_run_end(s, i) == j,
{
    lemma_ident_run_end(s, i);
}

/// The first double quote at or after `i` sits exactly at `j` when `s[j]` is
/// a double quote and no earlier character from `i` on is one.
proof fn lemma_string_close_is(s: Seq<char>, i: int, j: int)
    requires
        0 <= i <= j < s.len(),
        s[j] == '"',
        forall|m: int| i <= m < j ==> s[m] != '"',
    ensures
        string_close(s, i) == Some(j),
{
    lemma_string_close(s, i);
}

/// Re-scanning the text that one scanning step consumed for a token takes a
/// single step to the same kind, consuming all of it. The line counter does
/// not matter to what is consumed.
proof fn lemma_step_rescan(s: Seq<char>, p: int, l: int)
    requires
        0 <= p <= s.len(),
        scan_step(s, p, l) matches Step::Tok { kind, end, line_after } && kind
            != TokenType::Whitespace && kind != TokenType::Eof,
    ensures
        scan_step(s, p, l) matches Step::Tok { kind, end, line_after } ==> ({
            let t = s.subrange(p, end);
            &&& (scan_step(t, 0, 1) matches Step::Tok { kind: k2, end: e2, line_after: la2 }
                && k2 == kind && e2 == end - p)
        }),
{
    lemma_scan_step(s, p, l);
    if let Step::Tok { kind, end, line_after } = scan_step(s, p, l) {
        let c = s[p];
        let t = s.subrange(p, end);
        assert(t.len() == end - p);
        assert(t[0] == c);
        if c == '(' || c == ')' || c == '{' || c == '}' || c == ',' || c == '.' || c == '-' || c
            == '+' || c == ';' || c == '*' {
            // one character, one kind
        } else if c == '!' || c == '=' || c == '<' || c == '>' {
            if p + 1 < s.len() && s[p + 1] == '=' {
                assert(t[1] == '=');
            }
        } else if c == '/' {
            // a comment step yields Whitespace, which the requires rules out,
            // so only the plain slash remains
            assert(end == p + 1);
        } else if c == '"' {
            lemma_string_close(s, p + 1);
            match string_close(s, p + 1) {
                Some(j) => {
                    assert(t[j - p] == '"');
                    assert(forall|m: int| 1 <= m < j - p ==> t[m] == s[p + m] && t[m] != '"');
                    lemma_string_close_is(t, 1, j - p);
                },
                None => {},
            }
        } else if crate::unicode::is_blank(c) {
            // a blank step yields Whitespace, ruled out
        } else if crate::unicode::is_digit(c) {
            let d = digit_run_end(s, p + 1);
            lemma_digit_run_end(s, p + 1);
            if d < s.len() && s[d] == '.' && d + 1 < s.len() && crate::unicode::is_digit(
                s[d + 1],
            ) {
                lemma_digit_run_end(s, d + 1);
                assert(forall|m: int| 1 <= m < d - p ==> t[m] == s[p + m] && crate::unicode::is_digit(
                    t[m],
                ));
                assert(t[d - p] == '.');
                lemma_digit_run_end_is(t, 1, d - p);
                assert(forall|m: int|
                    d - p + 1 <= m < t.len() ==> t[m] == s[p + m] && crate::unicode::is_digit(
                        t[m],
                    ));
                lemma_digit_run_end_is(t, d - p + 1, t.len() as int);
            } else {
                assert(end == d);
                assert(forall|m: int| 1 <= m < t.len() ==> t[m] == s[p + m] && crate::unicode::is_digit(
                    t[m],
                ));
                lemma_digit_run_end_is(t, 1, t.len() as int);
            }
        } else if crate::unicode::is_ident_start(c) {
            lemma_ident_run_end(s, p + 1);
            assert(forall|m: int|
                1 <= m < t.len() ==> t[m] == s[p + m] && crate::unicode::is_ident_continue(t[m]));
            lemma_ident_run_end_is(t, 1, t.len() as int);
            assert(t.subrange(0, t.len() as int) =~= t);
            assert(kind == keyword_kind(t));
        }
    }
}

/// Round trip: every token of a successful scan, the closing `Eof` aside,
/// re-scans alone to exactly one token of the same kind with the same
/// lexeme, followed by the appended `Eof`.
pub proof fn lemma_lexeme_round_trip(s: Seq<char>, k: int)
    requires
        spec_scan(s) matches Ok(toks) && 0 <= k < toks.len() && toks[k].kind != TokenType::Eof,
    ensures
        spec_scan(s) matches Ok(toks) ==> (spec_scan(toks[k].lexeme) matches Ok(toks2)
            && toks2.len() == 2 && toks2[0].kind == toks[k].kind && toks2[0].lexeme
            == toks[k].lexeme && toks2[1].kind == TokenType::Eof),
{
    assert(s.take(0) =~= Seq::<char>::empty());
    if let Ok(ps) = spec_scan_from(s, 0, 1) {
        lemma_scan_from_facts(s, 0, 1, k);
        let p = ps[k].start;
        let tm = ps[k].token;
        assert(pos_token_models(ps)[k] == tm);
        lemma_step_rescan(s, p, tm.line);
        let t = s.subrange(p, p + tm.lexeme.len());
        assert(t == tm.lexeme);
        if let Step::Tok { kind: k2, end: e2, line_after: la2 } = scan_step(t, 0, 1) {
            lemma_scan_step(t, 0, 1);
            assert(spec_scan_from(t, e2, la2) matches Ok(eps) && eps.len() == 1 && eps[0].token.kind
                == TokenType::Eof);
            if let Ok(eps) = spec_scan_from(t, e2, la2) {
                if let Ok(ps2) = spec_scan_from(t, 0, 1) {
                    assert(ps2 == seq![
                        PosToken { start: 0, token: crate::token::TokenModel { kind: k2, lexeme: t.subrange(0, e2), line: 1 } },
                    ] + eps);
                    assert(t.subrange(0, e2) =~= t);
                    assert(pos_token_models(ps2).len() == 2);
                    assert(pos_token_models(ps2)[0].kind == tm.kind);
                    assert(pos_token_models(ps2)[0].lexeme == tm.lexeme);
                    assert(pos_token_models(ps2)[1].kind == TokenType::Eof);
                }
            }
        }
    }
}

} // verus!
