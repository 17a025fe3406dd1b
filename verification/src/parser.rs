//! The parser: lexes source text into tokens, then descends the grammar —
//! a program header, account definitions, instructions with parameter lists
//! and statement bodies, and operator-precedence expressions. There is no
//! recovery: the first structural mismatch ends the run with one error and
//! no tree.

use vstd::prelude::*;

use crate::ast::{
    expr_equiv, AccountDef, BinOp, Expr, Field, Instruction, Literal, Param, ParamType, Program,
    Statement, Type, UnOp,
};
use crate::strings::str_eq;

verus! {

/// The error of a failed run: one aggregated message for the cause
/// encountered at the point of failure, never an empty report.
#[derive(Debug, PartialEq)]
pub struct ParseError {
    pub message: String,
}

fn perr(detail: &str) -> (e: ParseError)
    ensures
        e.message@.len() > 0,
{
    let mut m = String::from_str("parse error: ");
    proof {
        reveal_strlit("parse error: ");
    }
    m.append(detail);
    ParseError { message: m }
}

/// One lexical token of the source language.
#[derive(Debug, PartialEq)]
pub enum Token {
    /// An identifier or keyword word.
    Ident(String),
    /// An unsigned integer literal.
    Number(u64),
    /// A quoted string literal, quotes stripped.
    Text(String),
    LBrace,
    RBrace,
    LParen,
    RParen,
    Colon,
    Comma,
    Dot,
    Lt,
    Gt,
    Le,
    Ge,
    EqEq,
    NotEq,
    AndAnd,
    OrOr,
    Plus,
    Minus,
    Star,
    Slash,
    Percent,
    Bang,
    Assign,
    PlusAssign,
    MinusAssign,
    StarAssign,
    SlashAssign,
    PercentAssign,
}

/// Whether a character separates tokens.
pub open spec fn is_space_char(c: char) -> bool {
    c == ' ' || c == '\t' || c == '\n' || c == '\r'
}

/// Whether a character may open an identifier.
pub open spec fn is_ident_start_char(c: char) -> bool {
    c == '_' || ('a' as u32 <= c as u32 && c as u32 <= 'z' as u32) || ('A' as u32 <= c as u32
        && c as u32 <= 'Z' as u32)
}

/// Whether a character is a decimal digit.
pub open spec fn is_digit_char(c: char) -> bool {
    '0' as u32 <= c as u32 && c as u32 <= '9' as u32
}

/// Whether a character may continue an identifier.
pub open spec fn is_ident_char(c: char) -> bool {
    is_ident_start_char(c) || is_digit_char(c)
}

fn is_space(c: char) -> (r: bool)
    ensures
        r == is_space_char(c),
{
    c == ' ' || c == '\t' || c == '\n' || c == '\r'
}

fn is_ident_start(c: char) -> (r: bool)
    ensures
        r == is_ident_start_char(c),
{
    c == '_' || ('a' as u32 <= c as u32 && c as u32 <= 'z' as u32) || ('A' as u32 <= c as u32
        && c as u32 <= 'Z' as u32)
}

fn is_digit(c: char) -> (r: bool)
    ensures
        r == is_digit_char(c),
{
    '0' as u32 <= c as u32 && c as u32 <= '9' as u32
}

fn is_ident_continue(c: char) -> (r: bool)
    ensures
        r == is_ident_char(c),
{
    is_ident_start(c) || is_digit(c)
}

/// The length of the run of identifier characters starting at `i`.
pub open spec fn ident_run(s: Seq<char>, i: int) -> int
    decreases s.len() - i,
{
    if i < 0 || i >= s.len() || !is_ident_char(s[i]) {
        0
    } else {
        1 + ident_run(s, i + 1)
    }
}

/// The length of the run of digits starting at `i`.
pub open spec fn digit_run(s: Seq<char>, i: int) -> int
    decreases s.len() - i,
{
    if i < 0 || i >= s.len() || !is_digit_char(s[i]) {
        0
    } else {
        1 + digit_run(s, i + 1)
    }
}

/// The number of characters before the next quote, from `i`.
pub open spec fn quote_run(s: Seq<char>, i: int) -> int
    decreases s.len() - i,
{
    if i < 0 || i >= s.len() || s[i] == '"' {
        0
    } else {
        1 + quote_run(s, i + 1)
    }
}

/// The value of a digit string, most significant first.
pub open spec fn digits_value(s: Seq<char>) -> int
    decreases s.len(),
{
    if s.len() == 0 {
        0
    } else {
        digits_value(s.drop_last()) * 10 + (s.last() as u32 - '0' as u32)
    }
}

/// The value a number token carries: the digits' value, or 0 when it
/// overflows the machine word, as a failed conversion would leave it.
pub open spec fn number_value(s: Seq<char>) -> int {
    if digits_value(s) > u64::MAX {
        0
    } else {
        digits_value(s)
    }
}

/// A position clamped to the end of the text.
pub open spec fn cap_pos(s: Seq<char>, j: int) -> int {
    if j > s.len() {
        s.len() as int
    } else {
        j
    }
}

/// Whether the characters from `i` on lex exactly into the token list `ts`:
/// runs of identifier characters and of digits are taken whole, a quoted
/// string runs to the next quote, operators take their longest spelling,
/// and whitespace only separates.
pub open spec fn lexes_from(s: Seq<char>, i: int, ts: Seq<Token>) -> bool
    decreases ts.len(), s.len() - i,
{
    if i < 0 {
        false
    } else if i >= s.len() {
        ts.len() == 0
    } else if is_space_char(s[i]) {
        lexes_from(s, i + 1, ts)
    } else if ts.len() == 0 {
        false
    } else if is_ident_start_char(s[i]) {
        &&& ts[0] matches Token::Ident(w) && w@ == s.subrange(i, i + 1 + ident_run(s, i + 1))
        &&& lexes_from(s, cap_pos(s, i + 1 + ident_run(s, i + 1)), ts.drop_first())
    } else if is_digit_char(s[i]) {
        &&& ts[0] matches Token::Number(n) && n as int == number_value(
            s.subrange(i, i + 1 + digit_run(s, i + 1)),
        )
        &&& lexes_from(s, cap_pos(s, i + 1 + digit_run(s, i + 1)), ts.drop_first())
    } else if s[i] == '"' {
        if i + 1 + quote_run(s, i + 1) >= s.len() {
            false
        } else {
            &&& ts[0] matches Token::Text(w) && w@ == s.subrange(i + 1, i + 1 + quote_run(s, i + 1))
            &&& lexes_from(s, cap_pos(s, i + 2 + quote_run(s, i + 1)), ts.drop_first())
        }
    } else if s[i] == '{' {
        ts[0] is LBrace && lexes_from(s, i + 1, ts.drop_first())
    } else if s[i] == '}' {
        ts[0] is RBrace && lexes_from(s, i + 1, ts.drop_first())
    } else if s[i] == '(' {
        ts[0] is LParen && lexes_from(s, i + 1, ts.drop_first())
    } else if s[i] == ')' {
        ts[0] is RParen && lexes_from(s, i + 1, ts.drop_first())
    } else if s[i] == ':' {
        ts[0] is Colon && lexes_from(s, i + 1, ts.drop_first())
    } else if s[i] == ',' {
        ts[0] is Comma && lexes_from(s, i + 1, ts.drop_first())
    } else if s[i] == '.' {
        ts[0] is Dot && lexes_from(s, i + 1, ts.drop_first())
    } else if s[i] == '+' {
        if i + 1 < s.len() && s[i + 1] == '=' {
            ts[0] is PlusAssign && lexes_from(s, i + 2, ts.drop_first())
        } else {
            ts[0] is Plus && lexes_from(s, i + 1, ts.drop_first())
        }
    } else if s[i] == '-' {
        if i + 1 < s.len() && s[i + 1] == '=' {
            ts[0] is MinusAssign && lexes_from(s, i + 2, ts.drop_first())
        } else {
            ts[0] is Minus && lexes_from(s, i + 1, ts.drop_first())
        }
    } else if s[i] == '*' {
        if i + 1 < s.len() && s[i + 1] == '=' {
            ts[0] is StarAssign && lexes_from(s, i + 2, ts.drop_first())
        } else {
            ts[0] is Star && lexes_from(s, i + 1, ts.drop_first())
        }
    } else if s[i] == '/' {
        if i + 1 < s.len() && s[i + 1] == '=' {
            ts[0] is SlashAssign && lexes_from(s, i + 2, ts.drop_first())
        } else {
            ts[0] is Slash && lexes_from(s, i + 1, ts.drop_first())
        }
    } else if s[i] == '%' {
        if i + 1 < s.len() && s[i + 1] == '=' {
            ts[0] is PercentAssign && lexes_from(s, i + 2, ts.drop_first())
        } else {
            ts[0] is Percent && lexes_from(s, i + 1, ts.drop_first())
        }
    } else if s[i] == '=' {
        if i + 1 < s.len() && s[i + 1] == '=' {
            ts[0] is EqEq && lexes_from(s, i + 2, ts.drop_first())
        } else {
            ts[0] is Assign && lexes_from(s, i + 1, ts.drop_first())
        }
    } else if s[i] == '!' {
        if i + 1 < s.len() && s[i + 1] == '=' {
            ts[0] is NotEq && lexes_from(s, i + 2, ts.drop_first())
        } else {
            ts[0] is Bang && lexes_from(s, i + 1, ts.drop_first())
        }
    } else if s[i] == '<' {
        if i + 1 < s.len() && s[i + 1] == '=' {
            ts[0] is Le && lexes_from(s, i + 2, ts.drop_first())
        } else {
            ts[0] is Lt && lexes_from(s, i + 1, ts.drop_first())
        }
    } else if s[i] == '>' {
        if i + 1 < s.len() && s[i + 1] == '=' {
            ts[0] is Ge && lexes_from(s, i + 2, ts.drop_first())
        } else {
            ts[0] is Gt && lexes_from(s, i + 1, ts.drop_first())
        }
    } else if s[i] == '&' {
        if i + 1 < s.len() && s[i + 1] == '&' {
            ts[0] is AndAnd && lexes_from(s, i + 2, ts.drop_first())
        } else {
            false
        }
    } else if s[i] == '|' {
        if i + 1 < s.len() && s[i + 1] == '|' {
            ts[0] is OrOr && lexes_from(s, i + 2, ts.drop_first())
        } else {
            false
        }
    } else {
        false
    }
}

/// Whether the whole text lexes exactly into the token list `ts`.
pub open spec fn lexes_to(s: Seq<char>, ts: Seq<Token>) -> bool {
    lexes_from(s, 0, ts)
}

proof fn lemma_ident_run_exact(s: Seq<char>, a: int, b: int)
    requires
        0 <= a <= b <= s.len(),
        forall|k: int| a <= k < b ==> is_ident_char(#[trigger] s[k]),
        b == s.len() || !is_ident_char(s[b]),
    ensures
        ident_run(s, a) == b - a,
    decreases b - a,
{
    if a < b {
        lemma_ident_run_exact(s, a + 1, b);
    }
}

proof fn lemma_digit_run_exact(s: Seq<char>, a: int, b: int)
    requires
        0 <= a <= b <= s.len(),
        forall|k: int| a <= k < b ==> is_digit_char(#[trigger] s[k]),
        b == s.len() || !is_digit_char(s[b]),
    ensures
        digit_run(s, a) == b - a,
    decreases b - a,
{
    if a < b {
        lemma_digit_run_exact(s, a + 1, b);
    }
}

proof fn lemma_quote_run_exact(s: Seq<char>, a: int, b: int)
    requires
        0 <= a <= b <= s.len(),
        forall|k: int| a <= k < b ==> #[trigger] s[k] != '"',
        b == s.len() || s[b] == '"',
    ensures
        quote_run(s, a) == b - a,
    decreases b - a,
{
    if a < b {
        lemma_quote_run_exact(s, a + 1, b);
    }
}

proof fn lemma_digits_value_nonneg(s: Seq<char>)
    requires
        forall|k: int| 0 <= k < s.len() ==> is_digit_char(#[trigger] s[k]),
    ensures
        digits_value(s) >= 0,
    decreases s.len(),
{
    if s.len() > 0 {
        lemma_digits_value_nonneg(s.drop_last());
    }
}

/// Lexes source text into tokens: words, numbers, quoted strings and the
/// fixed punctuation, with longest-match operators; whitespace separates.
/// A returned token list is exactly what the text spells out.
fn lex(source: &str) -> (r: Result<Vec<Token>, ParseError>)
    ensures
        r matches Ok(ts) ==> lexes_to(source@, ts@),
        r matches Err(e) ==> e.message@.len() > 0,
        r matches Err(e) ==> forall|ts: Seq<Token>| !lexes_to(source@, ts),
{
    let n = source.unicode_len();
    let mut toks: Vec<Token> = Vec::new();
    let mut i: usize = 0;
    proof {
        assert forall|full: Seq<Token>| #[trigger] lexes_from(source@, 0, full) implies lexes_from(
            source@,
            0,
            full.skip(0),
        ) by {
            assert(full.skip(0) =~= full);
        }
    }
    while i < n
        invariant
            n == source@.len(),
            i <= n,
            forall|rest: Seq<Token>|
                #[trigger] lexes_from(source@, i as int, rest) ==> lexes_from(
                    source@,
                    0,
                    toks@ + rest,
                ),
            forall|full: Seq<Token>|
                #[trigger] lexes_from(source@, 0, full) ==> (full.len() >= toks@.len()
                    && lexes_from(source@, i as int, full.skip(toks@.len() as int))),
        decreases n - i,
    {
        let ghost iold = i as int;
        let ghost tv = toks@;
        let c = source.get_char(i);
        if is_space(c) {
            i += 1;
            proof {
                assert forall|rest: Seq<Token>|
                    #[trigger] lexes_from(source@, i as int, rest) implies lexes_from(
                    source@,
                    0,
                    toks@ + rest,
                ) by {
                    assert(lexes_from(source@, iold, rest));
                }
                assert forall|full: Seq<Token>| #[trigger] lexes_from(source@, 0, full) implies (
                full.len() >= toks@.len() && lexes_from(
                    source@,
                    i as int,
                    full.skip(toks@.len() as int),
                )) by {
                    assert(lexes_from(source@, iold, full.skip(toks@.len() as int)));
                }
            }
            continue;
        }
        let tok: Token;
        let next_i: usize;
        if is_ident_start(c) {
            let mut j = i + 1;
            while j < n && is_ident_continue(source.get_char(j))
                invariant
                    n == source@.len(),
                    i < j <= n,
                    forall|k: int| i < k < j ==> is_ident_char(#[trigger] source@[k]),
                decreases n - j,
            {
                j += 1;
            }
            proof {
                lemma_ident_run_exact(source@, i as int + 1, j as int);
            }
            let word = source.substring_char(i, j);
            tok = Token::Ident(word.to_owned());
            next_i = j;
            proof {
                let gt = tok;
                assert forall|rest: Seq<Token>|
                    #[trigger] lexes_from(source@, next_i as int, rest) implies lexes_from(
                    source@,
                    iold,
                    seq![gt] + rest,
                ) by {
                    assert((seq![gt] + rest)[0] == gt);
                    assert((seq![gt] + rest).drop_first() =~= rest);
                }
            }
        } else if is_digit(c) {
            // Accumulate the decimal value; a literal too wide for the
            // machine word lexes as 0, as a failed conversion would.
            let mut val: u64 = 0;
            let mut overflow = false;
            let mut j = i;
            while j < n && is_digit(source.get_char(j))
                invariant
                    n == source@.len(),
                    i <= j <= n,
                    forall|k: int| i <= k < j ==> is_digit_char(#[trigger] source@[k]),
                    !overflow ==> val as int == digits_value(source@.subrange(i as int, j as int)),
                    overflow ==> digits_value(source@.subrange(i as int, j as int)) > u64::MAX,
                decreases n - j,
            {
                let d: u64 = (source.get_char(j) as u32) as u64 - 48;
                proof {
                    assert(source@.subrange(i as int, j as int + 1).drop_last() =~= source@.subrange(
                        i as int,
                        j as int,
                    ));
                    assert(source@.subrange(i as int, j as int + 1).last() == source@[j as int]);
                    lemma_digits_value_nonneg(source@.subrange(i as int, j as int));
                }
                if val > 1844674407370955161u64 {
                    overflow = true;
                } else {
                    let v10 = val * 10;
                    if d > u64::MAX - v10 {
                        overflow = true;
                    } else {
                        val = v10 + d;
                    }
                }
                j += 1;
            }
            proof {
                lemma_digit_run_exact(source@, i as int + 1, j as int);
            }
            tok = Token::Number(if overflow { 0 } else { val });
            next_i = j;
            proof {
                let gt = tok;
                assert forall|rest: Seq<Token>|
                    #[trigger] lexes_from(source@, next_i as int, rest) implies lexes_from(
                    source@,
                    iold,
                    seq![gt] + rest,
                ) by {
                    assert((seq![gt] + rest)[0] == gt);
                    assert((seq![gt] + rest).drop_first() =~= rest);
                }
            }
        } else if c == '"' {
            let start = i + 1;
            let mut j = start;
            while j < n && source.get_char(j) != '"'
                invariant
                    n == source@.len(),
                    start <= j <= n,
                    forall|k: int| start <= k < j ==> #[trigger] source@[k] != '"',
                decreases n - j,
            {
                j += 1;
            }
            if j >= n {
                proof {
                    lemma_quote_run_exact(source@, start as int, n as int);
                    assert forall|full: Seq<Token>|
                        #[trigger] lexes_from(source@, 0, full) implies false by {
                        assert(lexes_from(source@, iold, full.skip(toks@.len() as int)));
                    }
                }
                return Err(perr("unterminated string literal"));
            }
            proof {
                lemma_quote_run_exact(source@, start as int, j as int);
            }
            let content = source.substring_char(start, j);
            tok = Token::Text(content.to_owned());
            next_i = j + 1;
            proof {
                let gt = tok;
                assert forall|rest: Seq<Token>|
                    #[trigger] lexes_from(source@, next_i as int, rest) implies lexes_from(
                    source@,
                    iold,
                    seq![gt] + rest,
                ) by {
                    assert((seq![gt] + rest)[0] == gt);
                    assert((seq![gt] + rest).drop_first() =~= rest);
                }
            }
        } else {
            if c == '{' {
                tok = Token::LBrace;
                next_i = i + 1;
            } else if c == '}' {
                tok = Token::RBrace;
                next_i = i + 1;
            } else if c == '(' {
                tok = Token::LParen;
                next_i = i + 1;
            } else if c == ')' {
                tok = Token::RParen;
                next_i = i + 1;
            } else if c == ':' {
                tok = Token::Colon;
                next_i = i + 1;
            } else if c == ',' {
                tok = Token::Comma;
                next_i = i + 1;
            } else if c == '.' {
                tok = Token::Dot;
                next_i = i + 1;
            } else if c == '+' {
                if i + 1 < n && source.get_char(i + 1) == '=' {
                    tok = Token::PlusAssign;
                    next_i = i + 2;
                } else {
                    tok = Token::Plus;
                    next_i = i + 1;
                }
            } else if c == '-' {
                if i + 1 < n && source.get_char(i + 1) == '=' {
                    tok = Token::MinusAssign;
                    next_i = i + 2;
                } else {
                    tok = Token::Minus;
                    next_i = i + 1;
                }
            } else if c == '*' {
                if i + 1 < n && source.get_char(i + 1) == '=' {
                    tok = Token::StarAssign;
                    next_i = i + 2;
                } else {
                    tok = Token::Star;
                    next_i = i + 1;
                }
            } else if c == '/' {
                if i + 1 < n && source.get_char(i + 1) == '=' {
                    tok = Token::SlashAssign;
                    next_i = i + 2;
                } else {
                    tok = Token::Slash;
                    next_i = i + 1;
                }
            } else if c == '%' {
                if i + 1 < n && source.get_char(i + 1) == '=' {
                    tok = Token::PercentAssign;
                    next_i = i + 2;
                } else {
                    tok = Token::Percent;
                    next_i = i + 1;
                }
            } else if c == '=' {
                if i + 1 < n && source.get_char(i + 1) == '=' {
                    tok = Token::EqEq;
                    next_i = i + 2;
                } else {
                    tok = Token::Assign;
                    next_i = i + 1;
                }
            } else if c == '!' {
                if i + 1 < n && source.get_char(i + 1) == '=' {
                    tok = Token::NotEq;
                    next_i = i + 2;
                } else {
                    tok = Token::Bang;
                    next_i = i + 1;
                }
            } else if c == '<' {
                if i + 1 < n && source.get_char(i + 1) == '=' {
                    tok = Token::Le;
                    next_i = i + 2;
                } else {
                    tok = Token::Lt;
                    next_i = i + 1;
                }
            } else if c == '>' {
                if i + 1 < n && source.get_char(i + 1) == '=' {
                    tok = Token::Ge;
                    next_i = i + 2;
                } else {
                    tok = Token::Gt;
                    next_i = i + 1;
                }
            } else if c == '&' {
                if i + 1 < n && source.get_char(i + 1) == '&' {
                    tok = Token::AndAnd;
                    next_i = i + 2;
                } else {
                    proof {
                        assert forall|full: Seq<Token>|
                            #[trigger] lexes_from(source@, 0, full) implies false by {
                            assert(lexes_from(source@, iold, full.skip(toks@.len() as int)));
                        }
                    }
                    return Err(perr("a lone '&' is not an operator"));
                }
            } else if c == '|' {
                if i + 1 < n && source.get_char(i + 1) == '|' {
                    tok = Token::OrOr;
                    next_i = i + 2;
                } else {
                    proof {
                        assert forall|full: Seq<Token>|
                            #[trigger] lexes_from(source@, 0, full) implies false by {
                            assert(lexes_from(source@, iold, full.skip(toks@.len() as int)));
                        }
                    }
                    return Err(perr("a lone '|' is not an operator"));
                }
            } else {
                proof {
                    assert forall|full: Seq<Token>|
                        #[trigger] lexes_from(source@, 0, full) implies false by {
                        assert(lexes_from(source@, iold, full.skip(toks@.len() as int)));
                    }
                }
                return Err(perr("unexpected character"));
            }
            proof {
                let gt = tok;
                assert forall|rest: Seq<Token>|
                    #[trigger] lexes_from(source@, next_i as int, rest) implies lexes_from(
                    source@,
                    iold,
                    seq![gt] + rest,
                ) by {
                    assert((seq![gt] + rest)[0] == gt);
                    assert((seq![gt] + rest).drop_first() =~= rest);
                }
            }
        }
        let ghost gt = tok;
        toks.push(tok);
        proof {
            assert forall|rest: Seq<Token>|
                #[trigger] lexes_from(source@, next_i as int, rest) implies lexes_from(
                source@,
                0,
                toks@ + rest,
            ) by {
                assert(lexes_from(source@, iold, seq![gt] + rest));
                assert(toks@ + rest =~= tv + (seq![gt] + rest));
                assert(lexes_from(source@, 0, tv + (seq![gt] + rest)));
            }
            assert forall|full: Seq<Token>| #[trigger] lexes_from(source@, 0, full) implies (
            full.len() >= toks@.len() && lexes_from(
                source@,
                next_i as int,
                full.skip(toks@.len() as int),
            )) by {
                let suf = full.skip(tv.len() as int);
                assert(lexes_from(source@, iold, suf));
                assert(suf.drop_first() =~= full.skip(toks@.len() as int));
            }
        }
        i = next_i;
    }
    proof {
        assert(lexes_from(source@, n as int, Seq::<Token>::empty()));
        assert(toks@ + Seq::<Token>::empty() =~= toks@);
    }
    Ok(toks)
}

/// Whether the token at `pos` is the identifier word `word`.
pub open spec fn tok_is_word(toks: Seq<Token>, pos: int, word: Seq<char>) -> bool {
    &&& 0 <= pos < toks.len()
    &&& toks[pos] matches Token::Ident(s) && s@ == word
}

fn tok_ident_is(toks: &Vec<Token>, pos: usize, word: &str) -> (r: bool)
    ensures
        r == tok_is_word(toks@, pos as int, word@),
{
    if pos < toks.len() {
        if let Token::Ident(s) = &toks[pos] {
            return str_eq(s.as_str(), word);
        }
    }
    false
}

/// The type keywords are pairwise distinct words.
pub open spec fn type_keywords_distinct() -> bool {
    &&& "Pubkey"@ != "u8"@
    &&& "Pubkey"@ != "u16"@
    &&& "Pubkey"@ != "u32"@
    &&& "Pubkey"@ != "u64"@
    &&& "Pubkey"@ != "i8"@
    &&& "Pubkey"@ != "i16"@
    &&& "Pubkey"@ != "i32"@
    &&& "Pubkey"@ != "i64"@
    &&& "Pubkey"@ != "bool"@
    &&& "Pubkey"@ != "String"@
    &&& "Pubkey"@ != "Vec"@
    &&& "Pubkey"@ != "Option"@
    &&& "u8"@ != "u16"@
    &&& "u8"@ != "u32"@
    &&& "u8"@ != "u64"@
    &&& "u8"@ != "i8"@
    &&& "u8"@ != "i16"@
    &&& "u8"@ != "i32"@
    &&& "u8"@ != "i64"@
    &&& "u8"@ != "bool"@
    &&& "u8"@ != "String"@
    &&& "u8"@ != "Vec"@
    &&& "u8"@ != "Option"@
    &&& "u16"@ != "u32"@
    &&& "u16"@ != "u64"@
    &&& "u16"@ != "i8"@
    &&& "u16"@ != "i16"@
    &&& "u16"@ != "i32"@
    &&& "u16"@ != "i64"@
    &&& "u16"@ != "bool"@
    &&& "u16"@ != "String"@
    &&& "u16"@ != "Vec"@
    &&& "u16"@ != "Option"@
    &&& "u32"@ != "u64"@
    &&& "u32"@ != "i8"@
    &&& "u32"@ != "i16"@
    &&& "u32"@ != "i32"@
    &&& "u32"@ != "i64"@
    &&& "u32"@ != "bool"@
    &&& "u32"@ != "String"@
    &&& "u32"@ != "Vec"@
    &&& "u32"@ != "Option"@
    &&& "u64"@ != "i8"@
    &&& "u64"@ != "i16"@
    &&& "u64"@ != "i32"@
    &&& "u64"@ != "i64"@
    &&& "u64"@ != "bool"@
    &&& "u64"@ != "String"@
    &&& "u64"@ != "Vec"@
    &&& "u64"@ != "Option"@
    &&& "i8"@ != "i16"@
    &&& "i8"@ != "i32"@
    &&& "i8"@ != "i64"@
    &&& "i8"@ != "bool"@
    &&& "i8"@ != "String"@
    &&& "i8"@ != "Vec"@
    &&& "i8"@ != "Option"@
    &&& "i16"@ != "i32"@
    &&& "i16"@ != "i64"@
    &&& "i16"@ != "bool"@
    &&& "i16"@ != "String"@
    &&& "i16"@ != "Vec"@
    &&& "i16"@ != "Option"@
    &&& "i32"@ != "i64"@
    &&& "i32"@ != "bool"@
    &&& "i32"@ != "String"@
    &&& "i32"@ != "Vec"@
    &&& "i32"@ != "Option"@
    &&& "i64"@ != "bool"@
    &&& "i64"@ != "String"@
    &&& "i64"@ != "Vec"@
    &&& "i64"@ != "Option"@
    &&& "bool"@ != "String"@
    &&& "bool"@ != "Vec"@
    &&& "bool"@ != "Option"@
    &&& "String"@ != "Vec"@
    &&& "String"@ != "Option"@
    &&& "Vec"@ != "Option"@
}

proof fn lemma_type_keywords_distinct()
    ensures
        type_keywords_distinct(),
{
    reveal_strlit("Pubkey");
    reveal_strlit("u8");
    reveal_strlit("u16");
    reveal_strlit("u32");
    reveal_strlit("u64");
    reveal_strlit("i8");
    reveal_strlit("i16");
    reveal_strlit("i32");
    reveal_strlit("i64");
    reveal_strlit("bool");
    reveal_strlit("String");
    reveal_strlit("Vec");
    reveal_strlit("Option");
    assert("Pubkey"@.len() != "u8"@.len());
    assert("Pubkey"@ != "u8"@);
    assert("Pubkey"@.len() != "u16"@.len());
    assert("Pubkey"@ != "u16"@);
    assert("Pubkey"@.len() != "u32"@.len());
    assert("Pubkey"@ != "u32"@);
    assert("Pubkey"@.len() != "u64"@.len());
    assert("Pubkey"@ != "u64"@);
    assert("Pubkey"@.len() != "i8"@.len());
    assert("Pubkey"@ != "i8"@);
    assert("Pubkey"@.len() != "i16"@.len());
    assert("Pubkey"@ != "i16"@);
    assert("Pubkey"@.len() != "i32"@.len());
    assert("Pubkey"@ != "i32"@);
    assert("Pubkey"@.len() != "i64"@.len());
    assert("Pubkey"@ != "i64"@);
    assert("Pubkey"@.len() != "bool"@.len());
    assert("Pubkey"@ != "bool"@);
    assert("Pubkey"@[0] != "String"@[0]);
    assert("Pubkey"@ != "String"@);
    assert("Pubkey"@.len() != "Vec"@.len());
    assert("Pubkey"@ != "Vec"@);
    assert("Pubkey"@[0] != "Option"@[0]);
    assert("Pubkey"@ != "Option"@);
    assert("u8"@.len() != "u16"@.len());
    assert("u8"@ != "u16"@);
    assert("u8"@.len() != "u32"@.len());
    assert("u8"@ != "u32"@);
    assert("u8"@.len() != "u64"@.len());
    assert("u8"@ != "u64"@);
    assert("u8"@[0] != "i8"@[0]);
    assert("u8"@ != "i8"@);
    assert("u8"@.len() != "i16"@.len());
    assert("u8"@ != "i16"@);
    assert("u8"@.len() != "i32"@.len());
    assert("u8"@ != "i32"@);
    assert("u8"@.len() != "i64"@.len());
    assert("u8"@ != "i64"@);
    assert("u8"@.len() != "bool"@.len());
    assert("u8"@ != "bool"@);
    assert("u8"@.len() != "String"@.len());
    assert("u8"@ != "String"@);
    assert("u8"@.len() != "Vec"@.len());
    assert("u8"@ != "Vec"@);
    assert("u8"@.len() != "Option"@.len());
    assert("u8"@ != "Option"@);
    assert("u16"@[1] != "u32"@[1]);
    assert("u16"@ != "u32"@);
    assert("u16"@[1] != "u64"@[1]);
    assert("u16"@ != "u64"@);
    assert("u16"@.len() != "i8"@.len());
    assert("u16"@ != "i8"@);
    assert("u16"@[0] != "i16"@[0]);
    assert("u16"@ != "i16"@);
    assert("u16"@[0] != "i32"@[0]);
    assert("u16"@ != "i32"@);
    assert("u16"@[0] != "i64"@[0]);
    assert("u16"@ != "i64"@);
    assert("u16"@.len() != "bool"@.len());
    assert("u16"@ != "bool"@);
    assert("u16"@.len() != "String"@.len());
    assert("u16"@ != "String"@);
    assert("u16"@[0] != "Vec"@[0]);
    assert("u16"@ != "Vec"@);
    assert("u16"@.len() != "Option"@.len());
    assert("u16"@ != "Option"@);
    assert("u32"@[1] != "u64"@[1]);
    assert("u32"@ != "u64"@);
    assert("u32"@.len() != "i8"@.len());
    assert("u32"@ != "i8"@);
    assert("u32"@[0] != "i16"@[0]);
    assert("u32"@ != "i16"@);
    assert("u32"@[0] != "i32"@[0]);
    assert("u32"@ != "i32"@);
    assert("u32"@[0] != "i64"@[0]);
    assert("u32"@ != "i64"@);
    assert("u32"@.len() != "bool"@.len());
    assert("u32"@ != "bool"@);
    assert("u32"@.len() != "String"@.len());
    assert("u32"@ != "String"@);
    assert("u32"@[0] != "Vec"@[0]);
    assert("u32"@ != "Vec"@);
    assert("u32"@.len() != "Option"@.len());
    assert("u32"@ != "Option"@);
    assert("u64"@.len() != "i8"@.len());
    assert("u64"@ != "i8"@);
    assert("u64"@[0] != "i16"@[0]);
    assert("u64"@ != "i16"@);
    assert("u64"@[0] != "i32"@[0]);
    assert("u64"@ != "i32"@);
    assert("u64"@[0] != "i64"@[0]);
    assert("u64"@ != "i64"@);
    assert("u64"@.len() != "bool"@.len());
    assert("u64"@ != "bool"@);
    assert("u64"@.len() != "String"@.len());
    assert("u64"@ != "String"@);
    assert("u64"@[0] != "Vec"@[0]);
    assert("u64"@ != "Vec"@);
    assert("u64"@.len() != "Option"@.len());
    assert("u64"@ != "Option"@);
    assert("i8"@.len() != "i16"@.len());
    assert("i8"@ != "i16"@);
    assert("i8"@.len() != "i32"@.len());
    assert("i8"@ != "i32"@);
    assert("i8"@.len() != "i64"@.len());
    assert("i8"@ != "i64"@);
    assert("i8"@.len() != "bool"@.len());
    assert("i8"@ != "bool"@);
    assert("i8"@.len() != "String"@.len());
    assert("i8"@ != "String"@);
    assert("i8"@.len() != "Vec"@.len());
    assert("i8"@ != "Vec"@);
    assert("i8"@.len() != "Option"@.len());
    assert("i8"@ != "Option"@);
    assert("i16"@[1] != "i32"@[1]);
    assert("i16"@ != "i32"@);
    assert("i16"@[1] != "i64"@[1]);
    assert("i16"@ != "i64"@);
    assert("i16"@.len() != "bool"@.len());
    assert("i16"@ != "bool"@);
    assert("i16"@.len() != "String"@.len());
    assert("i16"@ != "String"@);
    assert("i16"@[0] != "Vec"@[0]);
    assert("i16"@ != "Vec"@);
    assert("i16"@.len() != "Option"@.len());
    assert("i16"@ != "Option"@);
    assert("i32"@[1] != "i64"@[1]);
    assert("i32"@ != "i64"@);
    assert("i32"@.len() != "bool"@.len());
    assert("i32"@ != "bool"@);
    assert("i32"@.len() != "String"@.len());
    assert("i32"@ != "String"@);
    assert("i32"@[0] != "Vec"@[0]);
    assert("i32"@ != "Vec"@);
    assert("i32"@.len() != "Option"@.len());
    assert("i32"@ != "Option"@);
    assert("i64"@.len() != "bool"@.len());
    assert("i64"@ != "bool"@);
    assert("i64"@.len() != "String"@.len());
    assert("i64"@ != "String"@);
    assert("i64"@[0] != "Vec"@[0]);
    assert("i64"@ != "Vec"@);
    assert("i64"@.len() != "Option"@.len());
    assert("i64"@ != "Option"@);
    assert("bool"@.len() != "String"@.len());
    assert("bool"@ != "String"@);
    assert("bool"@.len() != "Vec"@.len());
    assert("bool"@ != "Vec"@);
    assert("bool"@.len() != "Option"@.len());
    assert("bool"@ != "Option"@);
    assert("String"@.len() != "Vec"@.len());
    assert("String"@ != "Vec"@);
    assert("String"@[0] != "Option"@[0]);
    assert("String"@ != "Option"@);
    assert("Vec"@.len() != "Option"@.len());
    assert("Vec"@ != "Option"@);
}

/// The parameter-kind keywords are pairwise distinct words.
pub open spec fn param_keywords_distinct() -> bool {
    &&& "Signer"@ != "Pubkey"@
    &&& "Signer"@ != "u8"@
    &&& "Signer"@ != "u16"@
    &&& "Signer"@ != "u32"@
    &&& "Signer"@ != "u64"@
    &&& "Signer"@ != "i8"@
    &&& "Signer"@ != "i16"@
    &&& "Signer"@ != "i32"@
    &&& "Signer"@ != "i64"@
    &&& "Signer"@ != "bool"@
    &&& "Signer"@ != "String"@
    &&& "Pubkey"@ != "u8"@
    &&& "Pubkey"@ != "u16"@
    &&& "Pubkey"@ != "u32"@
    &&& "Pubkey"@ != "u64"@
    &&& "Pubkey"@ != "i8"@
    &&& "Pubkey"@ != "i16"@
    &&& "Pubkey"@ != "i32"@
    &&& "Pubkey"@ != "i64"@
    &&& "Pubkey"@ != "bool"@
    &&& "Pubkey"@ != "String"@
    &&& "u8"@ != "u16"@
    &&& "u8"@ != "u32"@
    &&& "u8"@ != "u64"@
    &&& "u8"@ != "i8"@
    &&& "u8"@ != "i16"@
    &&& "u8"@ != "i32"@
    &&& "u8"@ != "i64"@
    &&& "u8"@ != "bool"@
    &&& "u8"@ != "String"@
    &&& "u16"@ != "u32"@
    &&& "u16"@ != "u64"@
    &&& "u16"@ != "i8"@
    &&& "u16"@ != "i16"@
    &&& "u16"@ != "i32"@
    &&& "u16"@ != "i64"@
    &&& "u16"@ != "bool"@
    &&& "u16"@ != "String"@
    &&& "u32"@ != "u64"@
    &&& "u32"@ != "i8"@
    &&& "u32"@ != "i16"@
    &&& "u32"@ != "i32"@
    &&& "u32"@ != "i64"@
    &&& "u32"@ != "bool"@
    &&& "u32"@ != "String"@
    &&& "u64"@ != "i8"@
    &&& "u64"@ != "i16"@
    &&& "u64"@ != "i32"@
    &&& "u64"@ != "i64"@
    &&& "u64"@ != "bool"@
    &&& "u64"@ != "String"@
    &&& "i8"@ != "i16"@
    &&& "i8"@ != "i32"@
    &&& "i8"@ != "i64"@
    &&& "i8"@ != "bool"@
    &&& "i8"@ != "String"@
    &&& "i16"@ != "i32"@
    &&& "i16"@ != "i64"@
    &&& "i16"@ != "bool"@
    &&& "i16"@ != "String"@
    &&& "i32"@ != "i64"@
    &&& "i32"@ != "bool"@
    &&& "i32"@ != "String"@
    &&& "i64"@ != "bool"@
    &&& "i64"@ != "String"@
    &&& "bool"@ != "String"@
}

proof fn lemma_param_keywords_distinct()
    ensures
        param_keywords_distinct(),
{
    reveal_strlit("Signer");
    reveal_strlit("Pubkey");
    reveal_strlit("u8");
    reveal_strlit("u16");
    reveal_strlit("u32");
    reveal_strlit("u64");
    reveal_strlit("i8");
    reveal_strlit("i16");
    reveal_strlit("i32");
    reveal_strlit("i64");
    reveal_strlit("bool");
    reveal_strlit("String");
    assert("Signer"@[0] != "Pubkey"@[0]);
    assert("Signer"@ != "Pubkey"@);
    assert("Signer"@.len() != "u8"@.len());
    assert("Signer"@ != "u8"@);
    assert("Signer"@.len() != "u16"@.len());
    assert("Signer"@ != "u16"@);
    assert("Signer"@.len() != "u32"@.len());
    assert("Signer"@ != "u32"@);
    assert("Signer"@.len() != "u64"@.len());
    assert("Signer"@ != "u64"@);
    assert("Signer"@.len() != "i8"@.len());
    assert("Signer"@ != "i8"@);
    assert("Signer"@.len() != "i16"@.len());
    assert("Signer"@ != "i16"@);
    assert("Signer"@.len() != "i32"@.len());
    assert("Signer"@ != "i32"@);
    assert("Signer"@.len() != "i64"@.len());
    assert("Signer"@ != "i64"@);
    assert("Signer"@.len() != "bool"@.len());
    assert("Signer"@ != "bool"@);
    assert("Signer"@[1] != "String"@[1]);
    assert("Signer"@ != "String"@);
    assert("Pubkey"@.len() != "u8"@.len());
    assert("Pubkey"@ != "u8"@);
    assert("Pubkey"@.len() != "u16"@.len());
    assert("Pubkey"@ != "u16"@);
    assert("Pubkey"@.len() != "u32"@.len());
    assert("Pubkey"@ != "u32"@);
    assert("Pubkey"@.len() != "u64"@.len());
    assert("Pubkey"@ != "u64"@);
    assert("Pubkey"@.len() != "i8"@.len());
    assert("Pubkey"@ != "i8"@);
    assert("Pubkey"@.len() != "i16"@.len());
    assert("Pubkey"@ != "i16"@);
    assert("Pubkey"@.len() != "i32"@.len());
    assert("Pubkey"@ != "i32"@);
    assert("Pubkey"@.len() != "i64"@.len());
    assert("Pubkey"@ != "i64"@);
    assert("Pubkey"@.len() != "bool"@.len());
    assert("Pubkey"@ != "bool"@);
    assert("Pubkey"@[0] != "String"@[0]);
    assert("Pubkey"@ != "String"@);
    assert("u8"@.len() != "u16"@.len());
    assert("u8"@ != "u16"@);
    assert("u8"@.len() != "u32"@.len());
    assert("u8"@ != "u32"@);
    assert("u8"@.len() != "u64"@.len());
    assert("u8"@ != "u64"@);
    assert("u8"@[0] != "i8"@[0]);
    assert("u8"@ != "i8"@);
    assert("u8"@.len() != "i16"@.len());
    assert("u8"@ != "i16"@);
    assert("u8"@.len() != "i32"@.len());
    assert("u8"@ != "i32"@);
    assert("u8"@.len() != "i64"@.len());
    assert("u8"@ != "i64"@);
    assert("u8"@.len() != "bool"@.len());
    assert("u8"@ != "bool"@);
    assert("u8"@.len() != "String"@.len());
    assert("u8"@ != "String"@);
    assert("u16"@[1] != "u32"@[1]);
    assert("u16"@ != "u32"@);
    assert("u16"@[1] != "u64"@[1]);
    assert("u16"@ != "u64"@);
    assert("u16"@.len() != "i8"@.len());
    assert("u16"@ != "i8"@);
    assert("u16"@[0] != "i16"@[0]);
    assert("u16"@ != "i16"@);
    assert("u16"@[0] != "i32"@[0]);
    assert("u16"@ != "i32"@);
    assert("u16"@[0] != "i64"@[0]);
    assert("u16"@ != "i64"@);
    assert("u16"@.len() != "bool"@.len());
    assert("u16"@ != "bool"@);
    assert("u16"@.len() != "String"@.len());
    assert("u16"@ != "String"@);
    assert("u32"@[1] != "u64"@[1]);
    assert("u32"@ != "u64"@);
    assert("u32"@.len() != "i8"@.len());
    assert("u32"@ != "i8"@);
    assert("u32"@[0] != "i16"@[0]);
    assert("u32"@ != "i16"@);
    assert("u32"@[0] != "i32"@[0]);
    assert("u32"@ != "i32"@);
    assert("u32"@[0] != "i64"@[0]);
    assert("u32"@ != "i64"@);
    assert("u32"@.len() != "bool"@.len());
    assert("u32"@ != "bool"@);
    assert("u32"@.len() != "String"@.len());
    assert("u32"@ != "String"@);
    assert("u64"@.len() != "i8"@.len());
    assert("u64"@ != "i8"@);
    assert("u64"@[0] != "i16"@[0]);
    assert("u64"@ != "i16"@);
    assert("u64"@[0] != "i32"@[0]);
    assert("u64"@ != "i32"@);
    assert("u64"@[0] != "i64"@[0]);
    assert("u64"@ != "i64"@);
    assert("u64"@.len() != "bool"@.len());
    assert("u64"@ != "bool"@);
    assert("u64"@.len() != "String"@.len());
    assert("u64"@ != "String"@);
    assert("i8"@.len() != "i16"@.len());
    assert("i8"@ != "i16"@);
    assert("i8"@.len() != "i32"@.len());
    assert("i8"@ != "i32"@);
    assert("i8"@.len() != "i64"@.len());
    assert("i8"@ != "i64"@);
    assert("i8"@.len() != "bool"@.len());
    assert("i8"@ != "bool"@);
    assert("i8"@.len() != "String"@.len());
    assert("i8"@ != "String"@);
    assert("i16"@[1] != "i32"@[1]);
    assert("i16"@ != "i32"@);
    assert("i16"@[1] != "i64"@[1]);
    assert("i16"@ != "i64"@);
    assert("i16"@.len() != "bool"@.len());
    assert("i16"@ != "bool"@);
    assert("i16"@.len() != "String"@.len());
    assert("i16"@ != "String"@);
    assert("i32"@[1] != "i64"@[1]);
    assert("i32"@ != "i64"@);
    assert("i32"@.len() != "bool"@.len());
    assert("i32"@ != "bool"@);
    assert("i32"@.len() != "String"@.len());
    assert("i32"@ != "String"@);
    assert("i64"@.len() != "bool"@.len());
    assert("i64"@ != "bool"@);
    assert("i64"@.len() != "String"@.len());
    assert("i64"@ != "String"@);
    assert("bool"@.len() != "String"@.len());
    assert("bool"@ != "String"@);
}

/// Whether the tokens from `pos` up to `end` spell out exactly the type `t`,
/// as the printed form of `t` would: its name for a scalar type, and the
/// vector or option name with the element type in angle brackets.
pub open spec fn tokens_encode_type(toks: Seq<Token>, pos: int, t: Type, end: int) -> bool
    decreases t,
{
    match t {
        Type::Pubkey => tok_is_word(toks, pos, "Pubkey"@) && end == pos + 1,
        Type::U8 => tok_is_word(toks, pos, "u8"@) && end == pos + 1,
        Type::U16 => tok_is_word(toks, pos, "u16"@) && end == pos + 1,
        Type::U32 => tok_is_word(toks, pos, "u32"@) && end == pos + 1,
        Type::U64 => tok_is_word(toks, pos, "u64"@) && end == pos + 1,
        Type::I8 => tok_is_word(toks, pos, "i8"@) && end == pos + 1,
        Type::I16 => tok_is_word(toks, pos, "i16"@) && end == pos + 1,
        Type::I32 => tok_is_word(toks, pos, "i32"@) && end == pos + 1,
        Type::I64 => tok_is_word(toks, pos, "i64"@) && end == pos + 1,
        Type::Bool => tok_is_word(toks, pos, "bool"@) && end == pos + 1,
        Type::String => tok_is_word(toks, pos, "String"@) && end == pos + 1,
        Type::Vec(inner) => {
            &&& tok_is_word(toks, pos, "Vec"@)
            &&& pos + 1 < toks.len() && toks[pos + 1] is Lt
            &&& tokens_encode_type(toks, pos + 2, *inner, end - 1)
            &&& 0 <= end - 1 < toks.len() && toks[end - 1] is Gt
        },
        Type::Option(inner) => {
            &&& tok_is_word(toks, pos, "Option"@)
            &&& pos + 1 < toks.len() && toks[pos + 1] is Lt
            &&& tokens_encode_type(toks, pos + 2, *inner, end - 1)
            &&& 0 <= end - 1 < toks.len() && toks[end - 1] is Gt
        },
    }
}

fn parse_type_at(toks: &Vec<Token>, pos: usize) -> (r: Result<(Type, usize), ParseError>)
    requires
        pos <= toks@.len(),
    ensures
        r matches Ok(p) ==> pos < p.1 <= toks@.len(),
        r matches Err(e) ==> e.message@.len() > 0,
        r matches Ok(p) ==> tokens_encode_type(toks@, pos as int, p.0, p.1 as int),
        forall|t: Type, end: int|
            #[trigger] tokens_encode_type(toks@, pos as int, t, end) ==> {
                &&& r matches Ok(p)
                &&& p.0 == t
                &&& p.1 == end
            },
    decreases toks@.len() - pos,
{
    proof {
        lemma_type_keywords_distinct();
        assert(type_keywords_distinct());
    }
    if pos >= toks.len() {
        return Err(perr("expected a type"));
    }
    let name = match &toks[pos] {
        Token::Ident(s) => s,
        _ => {
            return Err(perr("expected a type name"));
        },
    };
    proof {
        assert(toks@[pos as int] == Token::Ident(*name));
    }
    if str_eq(name.as_str(), "Pubkey") {
        Ok((Type::Pubkey, pos + 1))
    } else if str_eq(name.as_str(), "u8") {
        Ok((Type::U8, pos + 1))
    } else if str_eq(name.as_str(), "u16") {
        Ok((Type::U16, pos + 1))
    } else if str_eq(name.as_str(), "u32") {
        Ok((Type::U32, pos + 1))
    } else if str_eq(name.as_str(), "u64") {
        Ok((Type::U64, pos + 1))
    } else if str_eq(name.as_str(), "i8") {
        Ok((Type::I8, pos + 1))
    } else if str_eq(name.as_str(), "i16") {
        Ok((Type::I16, pos + 1))
    } else if str_eq(name.as_str(), "i32") {
        Ok((Type::I32, pos + 1))
    } else if str_eq(name.as_str(), "i64") {
        Ok((Type::I64, pos + 1))
    } else if str_eq(name.as_str(), "bool") {
        Ok((Type::Bool, pos + 1))
    } else if str_eq(name.as_str(), "String") {
        Ok((Type::String, pos + 1))
    } else if str_eq(name.as_str(), "Vec") {
        if pos + 1 < toks.len() && matches!(toks[pos + 1], Token::Lt) {
            let inner = match parse_type_at(toks, pos + 2) {
                Ok(x) => x,
                Err(e) => {
                    proof {
                        assert forall|t: Type, end: int|
                            #[trigger] tokens_encode_type(toks@, pos as int, t, end) implies false by {
                            match t {
                                Type::Vec(i2) => {
                                    assert(tokens_encode_type(toks@, pos as int + 2, *i2, end - 1));
                                },
                                Type::Option(i2) => {
                                    assert(tokens_encode_type(toks@, pos as int + 2, *i2, end - 1));
                                },
                                _ => {},
                            }
                        }
                    }
                    return Err(e);
                },
            };
            if inner.1 < toks.len() && matches!(toks[inner.1], Token::Gt) {
                proof {
                    assert forall|t: Type, end: int|
                        #[trigger] tokens_encode_type(toks@, pos as int, t, end) implies (t
                        matches Type::Vec(i2) && tokens_encode_type(
                        toks@,
                        pos as int + 2,
                        *i2,
                        end - 1,
                    )) by {
                        match t {
                            Type::Vec(i2) => {
                                assert(tokens_encode_type(toks@, pos as int + 2, *i2, end - 1));
                            },
                            Type::Option(i2) => {
                                assert(tokens_encode_type(toks@, pos as int + 2, *i2, end - 1));
                            },
                            _ => {},
                        }
                    }
                }
                Ok((Type::Vec(Box::new(inner.0)), inner.1 + 1))
            } else {
            proof {
                assert forall|t: Type, end: int|
                    #[trigger] tokens_encode_type(toks@, pos as int, t, end) implies false by {
                    match t {
                        Type::Vec(i2) => {
                            assert(tokens_encode_type(toks@, pos as int + 2, *i2, end - 1));
                        },
                        Type::Option(i2) => {
                            assert(tokens_encode_type(toks@, pos as int + 2, *i2, end - 1));
                        },
                        _ => {},
                    }
                }
            }
                Err(perr("expected '>' to close a vector type"))
            }
        } else {
            proof {
                assert forall|t: Type, end: int|
                    #[trigger] tokens_encode_type(toks@, pos as int, t, end) implies false by {
                    match t {
                        Type::Vec(i2) => {},
                        Type::Option(i2) => {},
                        _ => {},
                    }
                }
            }
            Err(perr("expected '<' after the vector type name"))
        }
    } else if str_eq(name.as_str(), "Option") {
        if pos + 1 < toks.len() && matches!(toks[pos + 1], Token::Lt) {
            let inner = match parse_type_at(toks, pos + 2) {
                Ok(x) => x,
                Err(e) => {
                    proof {
                        assert forall|t: Type, end: int|
                            #[trigger] tokens_encode_type(toks@, pos as int, t, end) implies false by {
                            match t {
                                Type::Vec(i2) => {
                                    assert(tokens_encode_type(toks@, pos as int + 2, *i2, end - 1));
                                },
                                Type::Option(i2) => {
                                    assert(tokens_encode_type(toks@, pos as int + 2, *i2, end - 1));
                                },
                                _ => {},
                            }
                        }
                    }
                    return Err(e);
                },
            };
            if inner.1 < toks.len() && matches!(toks[inner.1], Token::Gt) {
                proof {
                    assert forall|t: Type, end: int|
                        #[trigger] tokens_encode_type(toks@, pos as int, t, end) implies (t
                        matches Type::Option(i2) && tokens_encode_type(
                        toks@,
                        pos as int + 2,
                        *i2,
                        end - 1,
                    )) by {
                        match t {
                            Type::Vec(i2) => {
                                assert(tokens_encode_type(toks@, pos as int + 2, *i2, end - 1));
                            },
                            Type::Option(i2) => {
                                assert(tokens_encode_type(toks@, pos as int + 2, *i2, end - 1));
                            },
                            _ => {},
                        }
                    }
                }
                Ok((Type::Option(Box::new(inner.0)), inner.1 + 1))
            } else {
            proof {
                assert forall|t: Type, end: int|
                    #[trigger] tokens_encode_type(toks@, pos as int, t, end) implies false by {
                    match t {
                        Type::Vec(i2) => {
                            assert(tokens_encode_type(toks@, pos as int + 2, *i2, end - 1));
                        },
                        Type::Option(i2) => {
                            assert(tokens_encode_type(toks@, pos as int + 2, *i2, end - 1));
                        },
                        _ => {},
                    }
                }
            }
                Err(perr("expected '>' to close an option type"))
            }
        } else {
            proof {
                assert forall|t: Type, end: int|
                    #[trigger] tokens_encode_type(toks@, pos as int, t, end) implies false by {
                    match t {
                        Type::Vec(i2) => {},
                        Type::Option(i2) => {},
                        _ => {},
                    }
                }
            }
            Err(perr("expected '<' after the option type name"))
        }
    } else {
        proof {
            assert forall|t: Type, end: int|
                #[trigger] tokens_encode_type(toks@, pos as int, t, end) implies false by {
                match t {
                    Type::Vec(i2) => {},
                    Type::Option(i2) => {},
                    _ => {},
                }
            }
        }
        Err(perr("unknown type name"))
    }
}

/// Whether the token at `pos` spells out exactly the parameter kind `t`, as
/// its printed form would: its keyword, or, for an account reference, the
/// account type name — an identifier that is no keyword.
pub open spec fn token_encodes_param_type(toks: Seq<Token>, pos: int, t: ParamType) -> bool {
    match t {
        ParamType::Signer => tok_is_word(toks, pos, "Signer"@),
        ParamType::Pubkey => tok_is_word(toks, pos, "Pubkey"@),
        ParamType::U8 => tok_is_word(toks, pos, "u8"@),
        ParamType::U16 => tok_is_word(toks, pos, "u16"@),
        ParamType::U32 => tok_is_word(toks, pos, "u32"@),
        ParamType::U64 => tok_is_word(toks, pos, "u64"@),
        ParamType::I8 => tok_is_word(toks, pos, "i8"@),
        ParamType::I16 => tok_is_word(toks, pos, "i16"@),
        ParamType::I32 => tok_is_word(toks, pos, "i32"@),
        ParamType::I64 => tok_is_word(toks, pos, "i64"@),
        ParamType::Bool => tok_is_word(toks, pos, "bool"@),
        ParamType::String => tok_is_word(toks, pos, "String"@),
        ParamType::Account(n) => {
            &&& tok_is_word(toks, pos, n@)
            &&& n@ != "Signer"@
            &&& n@ != "Pubkey"@
            &&& n@ != "u8"@
            &&& n@ != "u16"@
            &&& n@ != "u32"@
            &&& n@ != "u64"@
            &&& n@ != "i8"@
            &&& n@ != "i16"@
            &&& n@ != "i32"@
            &&& n@ != "i64"@
            &&& n@ != "bool"@
            &&& n@ != "String"@
        },
    }
}

/// Whether two parameter kinds are equal, comparing account names by their
/// characters.
pub open spec fn param_type_equiv(a: ParamType, b: ParamType) -> bool {
    match (a, b) {
        (ParamType::Account(x), ParamType::Account(y)) => x@ == y@,
        _ => a == b,
    }
}

fn parse_param_type_at(toks: &Vec<Token>, pos: usize) -> (r: Result<
    (ParamType, usize),
    ParseError,
>)
    requires
        pos <= toks@.len(),
    ensures
        r matches Ok(p) ==> pos < p.1 <= toks@.len(),
        r matches Err(e) ==> e.message@.len() > 0,
        r matches Ok(p) ==> token_encodes_param_type(toks@, pos as int, p.0) && p.1 == pos + 1,
        forall|t: ParamType|
            #[trigger] token_encodes_param_type(toks@, pos as int, t) ==> {
                &&& r matches Ok(p)
                &&& param_type_equiv(p.0, t)
                &&& p.1 == pos + 1
            },
{
    proof {
        lemma_param_keywords_distinct();
        assert(param_keywords_distinct());
    }
    if pos >= toks.len() {
        return Err(perr("expected a parameter type"));
    }
    let name = match &toks[pos] {
        Token::Ident(s) => s,
        _ => {
            return Err(perr("expected a parameter type name"));
        },
    };
    proof {
        assert(toks@[pos as int] == Token::Ident(*name));
    }
    if str_eq(name.as_str(), "Signer") {
        Ok((ParamType::Signer, pos + 1))
    } else if str_eq(name.as_str(), "Pubkey") {
        Ok((ParamType::Pubkey, pos + 1))
    } else if str_eq(name.as_str(), "u8") {
        Ok((ParamType::U8, pos + 1))
    } else if str_eq(name.as_str(), "u16") {
        Ok((ParamType::U16, pos + 1))
    } else if str_eq(name.as_str(), "u32") {
        Ok((ParamType::U32, pos + 1))
    } else if str_eq(name.as_str(), "u64") {
        Ok((ParamType::U64, pos + 1))
    } else if str_eq(name.as_str(), "i8") {
        Ok((ParamType::I8, pos + 1))
    } else if str_eq(name.as_str(), "i16") {
        Ok((ParamType::I16, pos + 1))
    } else if str_eq(name.as_str(), "i32") {
        Ok((ParamType::I32, pos + 1))
    } else if str_eq(name.as_str(), "i64") {
        Ok((ParamType::I64, pos + 1))
    } else if str_eq(name.as_str(), "bool") {
        Ok((ParamType::Bool, pos + 1))
    } else if str_eq(name.as_str(), "String") {
        Ok((ParamType::String, pos + 1))
    } else {
        // A bare identifier names an account type.
        Ok((ParamType::Account(name.clone()), pos + 1))
    }
}

/// The operator token a binary operator was read from.
pub open spec fn binop_token(t: Token, op: BinOp) -> bool {
    match op {
        BinOp::Add => t is Plus,
        BinOp::Sub => t is Minus,
        BinOp::Mul => t is Star,
        BinOp::Div => t is Slash,
        BinOp::Mod => t is Percent,
        BinOp::Eq => t is EqEq,
        BinOp::Ne => t is NotEq,
        BinOp::Lt => t is Lt,
        BinOp::Le => t is Le,
        BinOp::Gt => t is Gt,
        BinOp::Ge => t is Ge,
        BinOp::And => t is AndAnd,
        BinOp::Or => t is OrOr,
    }
}

/// The operator token a unary operator was read from.
pub open spec fn unop_token(t: Token, op: UnOp) -> bool {
    match op {
        UnOp::Not => t is Bang,
        UnOp::Neg => t is Minus,
    }
}

/// The number of tokens an expression was read from.
pub open spec fn expr_token_len(e: Expr) -> int
    decreases e,
{
    match e {
        Expr::Ident(_) => 1,
        Expr::FieldAccess { object, .. } => expr_token_len(*object) + 2,
        Expr::Literal(_) => 1,
        Expr::BinaryOp { left, right, .. } => expr_token_len(*left) + 1 + expr_token_len(*right),
        Expr::UnaryOp { operand, .. } => 1 + expr_token_len(*operand),
    }
}

/// Whether the tokens from `pos` up to `end` read as exactly the expression
/// `e`: one token for an identifier or literal, a trailing dot and field
/// word for a field access, an operator token between the operand spans of a
/// binary operation. A signed literal has no spelling: the lexer only
/// produces unsigned number tokens.
pub open spec fn expr_span(ts: Seq<Token>, pos: int, e: Expr, end: int) -> bool
    decreases e,
{
    match e {
        Expr::Ident(name) => {
            &&& 0 <= pos < ts.len() && end == pos + 1
            &&& ts[pos] matches Token::Ident(w) && w@ == name@ && w@ != "true"@ && w@ != "false"@
        },
        Expr::FieldAccess { object, field } => {
            &&& expr_span(ts, pos, *object, end - 2)
            &&& 0 <= end - 2 && end - 1 < ts.len() && ts[end - 2] is Dot
            &&& ts[end - 1] matches Token::Ident(w) && w@ == field@
        },
        Expr::Literal(lit) => match lit {
            Literal::UInt(n) => 0 <= pos < ts.len() && end == pos + 1 && (ts[pos] matches
                Token::Number(v) && v == n),
            Literal::Bool(b) => 0 <= pos < ts.len() && end == pos + 1 && (ts[pos] matches
                Token::Ident(w) && w@ == (if b {
                "true"@
            } else {
                "false"@
            })),
            Literal::String(x) => 0 <= pos < ts.len() && end == pos + 1 && (ts[pos] matches
                Token::Text(w) && w@ == x@),
            Literal::Int(_) => false,
        },
        Expr::BinaryOp { op, left, right } => {
            &&& expr_span(ts, pos, *left, pos + expr_token_len(*left))
            &&& 0 <= pos + expr_token_len(*left) < ts.len()
            &&& binop_token(ts[pos + expr_token_len(*left)], op)
            &&& expr_span(ts, pos + expr_token_len(*left) + 1, *right, end)
        },
        Expr::UnaryOp { op, operand } => {
            &&& 0 <= pos < ts.len() && unop_token(ts[pos], op)
            &&& expr_span(ts, pos + 1, *operand, end)
        },
    }
}

/// A span pins its own width: the tokens an expression was read from are
/// counted by its token length.
proof fn lemma_expr_span_len(ts: Seq<Token>, pos: int, e: Expr, end: int)
    requires
        expr_span(ts, pos, e, end),
    ensures
        end == pos + expr_token_len(e),
    decreases e,
{
    match e {
        Expr::FieldAccess { object, .. } => {
            lemma_expr_span_len(ts, pos, *object, end - 2);
        },
        Expr::BinaryOp { left, right, .. } => {
            lemma_expr_span_len(ts, pos + expr_token_len(*left) + 1, *right, end);
        },
        Expr::UnaryOp { operand, .. } => {
            lemma_expr_span_len(ts, pos + 1, *operand, end);
        },
        _ => {},
    }
}

proof fn lemma_binop_span(ts: Seq<Token>, pos: int, e: Expr, m: int, end: int)
    requires
        e matches Expr::BinaryOp { op, left, right } && ({
            &&& expr_span(ts, pos, *left, m)
            &&& 0 <= m < ts.len()
            &&& binop_token(ts[m], op)
            &&& expr_span(ts, m + 1, *right, end)
        }),
    ensures
        expr_span(ts, pos, e, end),
{
    lemma_expr_span_len(ts, pos, *e->BinaryOp_left, m);
    assert(expr_span(ts, pos, *e->BinaryOp_left, pos + expr_token_len(*e->BinaryOp_left)));
}

fn parse_atom(toks: &Vec<Token>, pos: usize) -> (r: Result<(Expr, usize), ParseError>)
    requires
        pos <= toks@.len(),
    ensures
        r matches Ok(p) ==> pos < p.1 <= toks@.len(),
        r matches Err(e) ==> e.message@.len() > 0,
        r matches Ok(p) ==> expr_span(toks@, pos as int, p.0, p.1 as int),
{
    if pos >= toks.len() {
        return Err(perr("expected an expression"));
    }
    match &toks[pos] {
        Token::Number(n) => {
            proof {
                assert(toks@[pos as int] == Token::Number(*n));
            }
            Ok((Expr::Literal(Literal::UInt(*n)), pos + 1))
        },
        Token::Text(s) => {
            proof {
                assert(toks@[pos as int] == Token::Text(*s));
            }
            Ok((Expr::Literal(Literal::String(s.clone())), pos + 1))
        },
        Token::Ident(name) => {
            proof {
                assert(toks@[pos as int] == Token::Ident(*name));
            }
            if str_eq(name.as_str(), "true") {
                Ok((Expr::Literal(Literal::Bool(true)), pos + 1))
            } else if str_eq(name.as_str(), "false") {
                Ok((Expr::Literal(Literal::Bool(false)), pos + 1))
            } else {
                Ok((Expr::Ident(name.clone()), pos + 1))
            }
        },
        _ => Err(perr("expected an expression")),
    }
}

fn parse_postfix(toks: &Vec<Token>, pos: usize) -> (r: Result<(Expr, usize), ParseError>)
    requires
        pos <= toks@.len(),
    ensures
        r matches Ok(p) ==> pos < p.1 <= toks@.len(),
        r matches Err(e) ==> e.message@.len() > 0,
        r matches Ok(p) ==> expr_span(toks@, pos as int, p.0, p.1 as int),
{
    let first = parse_atom(toks, pos)?;
    let mut e = first.0;
    let mut p = first.1;
    loop
        invariant
            pos < p <= toks@.len(),
            expr_span(toks@, pos as int, e, p as int),
        decreases toks@.len() - p,
    {
        if p >= toks.len() {
            break;
        }
        if !matches!(toks[p], Token::Dot) {
            break;
        }
        if p + 1 >= toks.len() {
            break;
        }
        if let Token::Ident(field) = &toks[p + 1] {
            proof {
                assert(toks@[p as int + 1] == Token::Ident(*field));
            }
            e = Expr::FieldAccess { object: Box::new(e), field: field.clone() };
            p = p + 2;
        } else {
            break;
        }
    }
    Ok((e, p))
}

fn parse_unary(toks: &Vec<Token>, pos: usize) -> (r: Result<(Expr, usize), ParseError>)
    requires
        pos <= toks@.len(),
    ensures
        r matches Ok(p) ==> pos < p.1 <= toks@.len(),
        r matches Err(e) ==> e.message@.len() > 0,
        r matches Ok(p) ==> expr_span(toks@, pos as int, p.0, p.1 as int),
{
    if pos < toks.len() {
        let u = match &toks[pos] {
            Token::Bang => Some(UnOp::Not),
            Token::Minus => Some(UnOp::Neg),
            _ => None,
        };
        if let Some(op) = u {
            let operand = parse_postfix(toks, pos + 1)?;
            return Ok((Expr::UnaryOp { op, operand: Box::new(operand.0) }, operand.1));
        }
    }
    parse_postfix(toks, pos)
}

fn parse_product(toks: &Vec<Token>, pos: usize) -> (r: Result<(Expr, usize), ParseError>)
    requires
        pos <= toks@.len(),
    ensures
        r matches Ok(p) ==> pos < p.1 <= toks@.len(),
        r matches Err(e) ==> e.message@.len() > 0,
        r matches Ok(p) ==> expr_span(toks@, pos as int, p.0, p.1 as int),
{
    let first = parse_unary(toks, pos)?;
    let mut e = first.0;
    let mut p = first.1;
    loop
        invariant
            pos < p <= toks@.len(),
            expr_span(toks@, pos as int, e, p as int),
        decreases toks@.len() - p,
    {
        if p >= toks.len() {
            break;
        }
        let op = match &toks[p] {
            Token::Star => Some(BinOp::Mul),
            Token::Slash => Some(BinOp::Div),
            Token::Percent => Some(BinOp::Mod),
            _ => None,
        };
        match op {
            None => {
                break;
            },
            Some(o) => {
                let ghost mid = p as int;
                let ghost left_acc = e;
                let rhs = parse_unary(toks, p + 1)?;
                e = Expr::BinaryOp { op: o, left: Box::new(e), right: Box::new(rhs.0) };
                p = rhs.1;
                proof {
                    assert(expr_span(toks@, pos as int, left_acc, mid));
                    assert(binop_token(toks@[mid], o));
                    assert(expr_span(toks@, mid + 1, rhs.0, rhs.1 as int));
                    lemma_binop_span(toks@, pos as int, e, mid, p as int);
                }
            },
        }
    }
    Ok((e, p))
}

fn parse_sum(toks: &Vec<Token>, pos: usize) -> (r: Result<(Expr, usize), ParseError>)
    requires
        pos <= toks@.len(),
    ensures
        r matches Ok(p) ==> pos < p.1 <= toks@.len(),
        r matches Err(e) ==> e.message@.len() > 0,
        r matches Ok(p) ==> expr_span(toks@, pos as int, p.0, p.1 as int),
{
    let first = parse_product(toks, pos)?;
    let mut e = first.0;
    let mut p = first.1;
    loop
        invariant
            pos < p <= toks@.len(),
            expr_span(toks@, pos as int, e, p as int),
        decreases toks@.len() - p,
    {
        if p >= toks.len() {
            break;
        }
        let op = match &toks[p] {
            Token::Plus => Some(BinOp::Add),
            Token::Minus => Some(BinOp::Sub),
            _ => None,
        };
        match op {
            None => {
                break;
            },
            Some(o) => {
                let ghost mid = p as int;
                let ghost left_acc = e;
                let rhs = parse_product(toks, p + 1)?;
                e = Expr::BinaryOp { op: o, left: Box::new(e), right: Box::new(rhs.0) };
                p = rhs.1;
                proof {
                    assert(expr_span(toks@, pos as int, left_acc, mid));
                    assert(binop_token(toks@[mid], o));
                    assert(expr_span(toks@, mid + 1, rhs.0, rhs.1 as int));
                    lemma_binop_span(toks@, pos as int, e, mid, p as int);
                }
            },
        }
    }
    Ok((e, p))
}

fn parse_comparison(toks: &Vec<Token>, pos: usize) -> (r: Result<(Expr, usize), ParseError>)
    requires
        pos <= toks@.len(),
    ensures
        r matches Ok(p) ==> pos < p.1 <= toks@.len(),
        r matches Err(e) ==> e.message@.len() > 0,
        r matches Ok(p) ==> expr_span(toks@, pos as int, p.0, p.1 as int),
{
    let first = parse_sum(toks, pos)?;
    let mut e = first.0;
    let mut p = first.1;
    loop
        invariant
            pos < p <= toks@.len(),
            expr_span(toks@, pos as int, e, p as int),
        decreases toks@.len() - p,
    {
        if p >= toks.len() {
            break;
        }
        let op = match &toks[p] {
            Token::EqEq => Some(BinOp::Eq),
            Token::NotEq => Some(BinOp::Ne),
            Token::Lt => Some(BinOp::Lt),
            Token::Le => Some(BinOp::Le),
            Token::Gt => Some(BinOp::Gt),
            Token::Ge => Some(BinOp::Ge),
            _ => None,
        };
        match op {
            None => {
                break;
            },
            Some(o) => {
                let ghost mid = p as int;
                let ghost left_acc = e;
                let rhs = parse_sum(toks, p + 1)?;
                e = Expr::BinaryOp { op: o, left: Box::new(e), right: Box::new(rhs.0) };
                p = rhs.1;
                proof {
                    assert(expr_span(toks@, pos as int, left_acc, mid));
                    assert(binop_token(toks@[mid], o));
                    assert(expr_span(toks@, mid + 1, rhs.0, rhs.1 as int));
                    lemma_binop_span(toks@, pos as int, e, mid, p as int);
                }
            },
        }
    }
    Ok((e, p))
}

fn parse_logical_and(toks: &Vec<Token>, pos: usize) -> (r: Result<(Expr, usize), ParseError>)
    requires
        pos <= toks@.len(),
    ensures
        r matches Ok(p) ==> pos < p.1 <= toks@.len(),
        r matches Err(e) ==> e.message@.len() > 0,
        r matches Ok(p) ==> expr_span(toks@, pos as int, p.0, p.1 as int),
{
    let first = parse_comparison(toks, pos)?;
    let mut e = first.0;
    let mut p = first.1;
    loop
        invariant
            pos < p <= toks@.len(),
            expr_span(toks@, pos as int, e, p as int),
        decreases toks@.len() - p,
    {
        if p < toks.len() && matches!(toks[p], Token::AndAnd) {
            let ghost mid = p as int;
            let ghost left_acc = e;
            let rhs = parse_comparison(toks, p + 1)?;
            e = Expr::BinaryOp { op: BinOp::And, left: Box::new(e), right: Box::new(rhs.0) };
            p = rhs.1;
            proof {
                assert(expr_span(toks@, pos as int, left_acc, mid));
                assert(binop_token(toks@[mid], BinOp::And));
                assert(expr_span(toks@, mid + 1, rhs.0, rhs.1 as int));
                lemma_binop_span(toks@, pos as int, e, mid, p as int);
            }
        } else {
            break;
        }
    }
    Ok((e, p))
}

fn parse_expr_at(toks: &Vec<Token>, pos: usize) -> (r: Result<(Expr, usize), ParseError>)
    requires
        pos <= toks@.len(),
    ensures
        r matches Ok(p) ==> pos < p.1 <= toks@.len(),
        r matches Err(e) ==> e.message@.len() > 0,
        r matches Ok(p) ==> expr_span(toks@, pos as int, p.0, p.1 as int),
{
    let first = parse_logical_and(toks, pos)?;
    let mut e = first.0;
    let mut p = first.1;
    loop
        invariant
            pos < p <= toks@.len(),
            expr_span(toks@, pos as int, e, p as int),
        decreases toks@.len() - p,
    {
        if p < toks.len() && matches!(toks[p], Token::OrOr) {
            let ghost mid = p as int;
            let ghost left_acc = e;
            let rhs = parse_logical_and(toks, p + 1)?;
            e = Expr::BinaryOp { op: BinOp::Or, left: Box::new(e), right: Box::new(rhs.0) };
            p = rhs.1;
            proof {
                assert(expr_span(toks@, pos as int, left_acc, mid));
                assert(binop_token(toks@[mid], BinOp::Or));
                assert(expr_span(toks@, mid + 1, rhs.0, rhs.1 as int));
                lemma_binop_span(toks@, pos as int, e, mid, p as int);
            }
        } else {
            break;
        }
    }
    Ok((e, p))
}

/// Builds the statement of an assignment. A plain assignment keeps its two
/// sides; a compound assignment desugars at parse time into a plain
/// assignment whose value applies the operator to a copy of the target and
/// the addend — never an in-place update.
pub fn desugar_assign(target: Expr, op: Option<BinOp>, value: Expr) -> (r: Statement)
    ensures
        op is None ==> r == (Statement::Assign { target, value }),
        op matches Some(o) ==> {
            &&& r matches Statement::Assign { target: t, value: v }
            &&& t == target
            &&& v matches Expr::BinaryOp { op: vo, left, right }
            &&& vo == o
            &&& expr_equiv(*left, target)
            &&& *right == value
        },
{
    match op {
        None => Statement::Assign { target, value },
        Some(o) => {
            let left = Box::new(target.clone());
            Statement::Assign {
                target,
                value: Expr::BinaryOp { op: o, left, right: Box::new(value) },
            }
        },
    }
}

/// The compound-assignment token a binary operator was read from.
pub open spec fn compound_token(t: Token, op: BinOp) -> bool {
    match op {
        BinOp::Add => t is PlusAssign,
        BinOp::Sub => t is MinusAssign,
        BinOp::Mul => t is StarAssign,
        BinOp::Div => t is SlashAssign,
        BinOp::Mod => t is PercentAssign,
        _ => false,
    }
}

/// Whether the tokens from `pos` up to `end` read as exactly the statement
/// `s`. An assignment has two spellings: the plain one, and a compound one
/// whose operator token carries the operation that the desugared value
/// applies to a copy of the target.
pub open spec fn statement_span(ts: Seq<Token>, pos: int, s: Statement, end: int) -> bool {
    match s {
        Statement::InitAccount { var_name, account_name, payer, signer } => {
            &&& tok_is_word(ts, pos, "init"@)
            &&& tok_is_word(ts, pos + 1, "account"@)
            &&& pos + 2 < ts.len() && (ts[pos + 2] matches Token::Ident(w) && w@ == var_name@)
            &&& pos + 3 < ts.len() && ts[pos + 3] is Colon
            &&& pos + 4 < ts.len() && (ts[pos + 4] matches Token::Ident(w) && w@ == account_name@)
            &&& tok_is_word(ts, pos + 5, "payer"@)
            &&& pos + 6 < ts.len() && (ts[pos + 6] matches Token::Ident(w) && w@ == payer@)
            &&& match signer {
                None => end == pos + 7,
                Some(sg) => {
                    &&& tok_is_word(ts, pos + 7, "signer"@)
                    &&& pos + 8 < ts.len() && (ts[pos + 8] matches Token::Ident(w) && w@ == sg@)
                    &&& end == pos + 9
                },
            }
        },
        Statement::Require { condition, message } => {
            &&& tok_is_word(ts, pos, "require"@)
            &&& match message {
                None => expr_span(ts, pos + 1, condition, end),
                Some(m) => {
                    &&& expr_span(ts, pos + 1, condition, end - 2)
                    &&& 0 <= end - 2 && end - 1 < ts.len() && ts[end - 2] is Comma
                    &&& (ts[end - 1] matches Token::Text(w) && w@ == m@)
                },
            }
        },
        Statement::Assign { target, value } => {
            ||| ({
                &&& expr_span(ts, pos, target, pos + expr_token_len(target))
                &&& 0 <= pos + expr_token_len(target) < ts.len()
                &&& ts[pos + expr_token_len(target)] is Assign
                &&& expr_span(ts, pos + expr_token_len(target) + 1, value, end)
            })
            ||| (value matches Expr::BinaryOp { op, left, right } && ({
                &&& expr_equiv(*left, target)
                &&& expr_span(ts, pos, target, pos + expr_token_len(target))
                &&& 0 <= pos + expr_token_len(target) < ts.len()
                &&& compound_token(ts[pos + expr_token_len(target)], op)
                &&& expr_span(ts, pos + expr_token_len(target) + 1, *right, end)
            }))
        },
        Statement::Expr(e) => expr_span(ts, pos, e, end),
    }
}

fn parse_statement(toks: &Vec<Token>, pos: usize) -> (r: Result<(Statement, usize), ParseError>)
    requires
        pos <= toks@.len(),
    ensures
        r matches Ok(p) ==> pos < p.1 <= toks@.len(),
        r matches Err(e) ==> e.message@.len() > 0,
        r matches Ok(p) ==> statement_span(toks@, pos as int, p.0, p.1 as int),
{
    if pos >= toks.len() {
        return Err(perr("expected a statement"));
    }
    if tok_ident_is(toks, pos, "init") && tok_ident_is(toks, pos + 1, "account") {
        let mut p = pos + 2;
        if p >= toks.len() {
            return Err(perr("expected a variable name after 'init account'"));
        }
        let var_name = match &toks[p] {
            Token::Ident(s) => {
                proof {
                    assert(toks@[p as int] == Token::Ident(*s));
                }
                s.clone()
            },
            _ => {
                return Err(perr("expected a variable name after 'init account'"));
            },
        };
        p += 1;
        if !(p < toks.len() && matches!(toks[p], Token::Colon)) {
            return Err(perr("expected ':' after the initialised variable"));
        }
        p += 1;
        if p >= toks.len() {
            return Err(perr("expected an account type name"));
        }
        let account_name = match &toks[p] {
            Token::Ident(s) => {
                proof {
                    assert(toks@[p as int] == Token::Ident(*s));
                }
                s.clone()
            },
            _ => {
                return Err(perr("expected an account type name"));
            },
        };
        p += 1;
        if !tok_ident_is(toks, p, "payer") {
            return Err(perr("expected 'payer' in an init statement"));
        }
        p += 1;
        if p >= toks.len() {
            return Err(perr("expected a payer name"));
        }
        let payer = match &toks[p] {
            Token::Ident(s) => {
                proof {
                    assert(toks@[p as int] == Token::Ident(*s));
                }
                s.clone()
            },
            _ => {
                return Err(perr("expected a payer name"));
            },
        };
        p += 1;
        let mut signer: Option<String> = None;
        if tok_ident_is(toks, p, "signer") && p + 1 < toks.len() {
            if let Token::Ident(s) = &toks[p + 1] {
                proof {
                    assert(toks@[p as int + 1] == Token::Ident(*s));
                }
                signer = Some(s.clone());
                p += 2;
            }
        }
        Ok((Statement::InitAccount { var_name, account_name, payer, signer }, p))
    } else if tok_ident_is(toks, pos, "require") {
        let cond = parse_expr_at(toks, pos + 1)?;
        let mut p = cond.1;
        let mut message: Option<String> = None;
        if p < toks.len() && matches!(toks[p], Token::Comma) {
            if p + 1 < toks.len() {
                if let Token::Text(s) = &toks[p + 1] {
                    proof {
                        assert(toks@[p as int + 1] == Token::Text(*s));
                    }
                    message = Some(s.clone());
                    p += 2;
                } else {
                    return Err(perr("expected a string message after ','"));
                }
            } else {
                return Err(perr("expected a string message after ','"));
            }
        }
        Ok((Statement::Require { condition: cond.0, message }, p))
    } else {
        let target = parse_expr_at(toks, pos)?;
        let mut p = target.1;
        if p < toks.len() {
            let op = match &toks[p] {
                Token::Assign => Some(None),
                Token::PlusAssign => Some(Some(BinOp::Add)),
                Token::MinusAssign => Some(Some(BinOp::Sub)),
                Token::StarAssign => Some(Some(BinOp::Mul)),
                Token::SlashAssign => Some(Some(BinOp::Div)),
                Token::PercentAssign => Some(Some(BinOp::Mod)),
                _ => None,
            };
            if let Some(compound) = op {
                proof {
                    lemma_expr_span_len(toks@, pos as int, target.0, target.1 as int);
                }
                let value = parse_expr_at(toks, p + 1)?;
                return Ok((desugar_assign(target.0, compound, value.0), value.1));
            }
        }
        Ok((Statement::Expr(target.0), p))
    }
}

/// The number of tokens in the printed form of a type.
pub open spec fn type_token_len(t: Type) -> int
    decreases t,
{
    match t {
        Type::Vec(inner) => 3 + type_token_len(*inner),
        Type::Option(inner) => 3 + type_token_len(*inner),
        _ => 1,
    }
}

/// Whether two fields agree: names by their characters, types exactly.
pub open spec fn field_equiv(a: Field, b: Field) -> bool {
    a.name@ == b.name@ && a.ty == b.ty
}

/// Whether two field lists agree elementwise.
pub open spec fn fields_equiv(a: Seq<Field>, b: Seq<Field>) -> bool {
    a.len() == b.len() && (forall|i: int| 0 <= i < a.len() ==> field_equiv(a[i], #[trigger] b[i]))
}

/// Whether the tokens from `pos` up to `end` spell out the field list `fs`:
/// for each field in turn its name, a colon and its type.
pub open spec fn tokens_encode_fields(toks: Seq<Token>, pos: int, fs: Seq<Field>, end: int) -> bool
    decreases fs.len(),
{
    if fs.len() == 0 {
        end == pos
    } else {
        &&& 0 <= pos && pos + 1 < toks.len()
        &&& toks[pos] matches Token::Ident(s) && s@ == fs[0].name@
        &&& toks[pos + 1] is Colon
        &&& tokens_encode_type(toks, pos + 2, fs[0].ty, pos + 2 + type_token_len(fs[0].ty))
        &&& tokens_encode_fields(toks, pos + 2 + type_token_len(fs[0].ty), fs.drop_first(), end)
    }
}

/// Whether the tokens from `pos` up to `end` spell out the account
/// definition `a`: the keyword, its name, and its fields in braces.
pub open spec fn tokens_encode_account(toks: Seq<Token>, pos: int, a: AccountDef, end: int) -> bool {
    &&& tok_is_word(toks, pos, "account"@)
    &&& pos + 2 < toks.len()
    &&& toks[pos + 1] matches Token::Ident(s) && s@ == a.name@
    &&& toks[pos + 2] is LBrace
    &&& tokens_encode_fields(toks, pos + 3, a.fields@, end - 1)
    &&& 0 <= end - 1 < toks.len() && toks[end - 1] is RBrace
}

/// Whether two account definitions agree: names by their characters, fields
/// elementwise.
pub open spec fn account_equiv(a: AccountDef, b: AccountDef) -> bool {
    a.name@ == b.name@ && fields_equiv(a.fields@, b.fields@)
}

/// Whether the three tokens at `q` read as the parameter `p`: its name, a
/// colon and its kind.
pub open spec fn param_at(ts: Seq<Token>, q: int, p: Param) -> bool {
    &&& 0 <= q && q + 2 < ts.len()
    &&& ts[q] matches Token::Ident(w) && w@ == p.name@
    &&& ts[q + 1] is Colon
    &&& token_encodes_param_type(ts, q + 2, p.ty)
}

/// The token width of a comma-separated parameter list.
pub open spec fn params_width(ps: Seq<Param>) -> int {
    if ps.len() == 0 {
        0
    } else {
        4 * ps.len() - 1
    }
}

/// Whether parameter `j` of the list sits in its three-token slot with a
/// separating comma after it.
pub open spec fn param_slot_mid(ts: Seq<Token>, pos: int, ps: Seq<Param>, j: int) -> bool {
    &&& param_at(ts, pos + 3 + 4 * j, ps[j])
    &&& pos + 3 + 4 * j + 3 < ts.len() && ts[pos + 3 + 4 * j + 3] is Comma
}

/// Whether parameter `j` of the list sits in its three-token slot, with a
/// separating comma after every slot but the last.
pub open spec fn param_slot(ts: Seq<Token>, pos: int, ps: Seq<Param>, j: int) -> bool {
    &&& param_at(ts, pos + 3 + 4 * j, ps[j])
    &&& j < ps.len() - 1 ==> (pos + 3 + 4 * j + 3 < ts.len() && ts[pos + 3 + 4 * j + 3] is Comma)
}

/// Whether the tokens from `q` read as the field `f` — its name, a colon and
/// its type — ending at `qnext`.
pub open spec fn field_at(ts: Seq<Token>, q: int, f: Field, qnext: int) -> bool {
    &&& 0 <= q && q + 1 < ts.len()
    &&& ts[q] matches Token::Ident(w) && w@ == f.name@
    &&& ts[q + 1] is Colon
    &&& tokens_encode_type(ts, q + 2, f.ty, qnext)
}

/// Whether the tokens from `pos` up to `end` read as the account definition
/// `a`, its fields cut at the boundary positions `fbounds`.
pub open spec fn account_span(
    ts: Seq<Token>,
    pos: int,
    a: AccountDef,
    fbounds: Seq<int>,
    end: int,
) -> bool {
    &&& tok_is_word(ts, pos, "account"@)
    &&& pos + 1 < ts.len() && (ts[pos + 1] matches Token::Ident(w) && w@ == a.name@)
    &&& pos + 2 < ts.len() && ts[pos + 2] is LBrace
    &&& fbounds.len() == a.fields@.len() + 1
    &&& fbounds[0] == pos + 3
    &&& (forall|k: int|
        0 <= k < a.fields@.len() ==> #[trigger] field_at(ts, fbounds[k], a.fields@[k], fbounds[k + 1]))
    &&& fbounds[fbounds.len() - 1] == end - 1
    &&& 0 <= end - 1 < ts.len() && ts[end - 1] is RBrace
}

/// Whether the tokens from `pos` up to `end` read as the account definition
/// `a`, for some placing of its field boundaries.
pub open spec fn account_at(ts: Seq<Token>, pos: int, a: AccountDef, end: int) -> bool {
    exists|fbounds: Seq<int>| account_span(ts, pos, a, fbounds, end)
}

/// Whether the tokens from `pos` up to `end` read as the instruction `i`,
/// its body statements cut at the boundary positions `cuts`.
pub open spec fn instruction_span(
    ts: Seq<Token>,
    pos: int,
    i: Instruction,
    cuts: Seq<int>,
    end: int,
) -> bool {
    &&& tok_is_word(ts, pos, "instruction"@)
    &&& pos + 1 < ts.len() && (ts[pos + 1] matches Token::Ident(w) && w@ == i.name@)
    &&& pos + 2 < ts.len() && ts[pos + 2] is LParen
    &&& (forall|j: int|
        0 <= j < i.params@.len() ==> #[trigger] param_slot(ts, pos, i.params@, j))
    &&& 0 <= pos + 3 + params_width(i.params@) < ts.len()
    &&& ts[pos + 3 + params_width(i.params@)] is RParen
    &&& pos + 4 + params_width(i.params@) < ts.len()
    &&& ts[pos + 4 + params_width(i.params@)] is LBrace
    &&& cuts.len() == i.body@.len() + 1
    &&& cuts[0] == pos + 5 + params_width(i.params@)
    &&& (forall|k: int|
        0 <= k < i.body@.len() ==> #[trigger] statement_span(ts, cuts[k], i.body@[k], cuts[k + 1]))
    &&& cuts[cuts.len() - 1] == end - 1
    &&& 0 <= end - 1 < ts.len() && ts[end - 1] is RBrace
}

/// Whether the tokens from `pos` up to `end` read as the instruction `i`,
/// for some placing of its statement boundaries.
pub open spec fn instruction_at(ts: Seq<Token>, pos: int, i: Instruction, end: int) -> bool {
    exists|cuts: Seq<int>| instruction_span(ts, pos, i, cuts, end)
}

fn parse_account_def(toks: &Vec<Token>, pos: usize) -> (r: Result<(AccountDef, usize), ParseError>)
    requires
        pos < toks@.len(),
        tok_is_word(toks@, pos as int, "account"@),
    ensures
        r matches Ok(p) ==> pos < p.1 <= toks@.len(),
        r matches Err(e) ==> e.message@.len() > 0,
        r matches Ok(p) ==> account_at(toks@, pos as int, p.0, p.1 as int),
        forall|a: AccountDef, end: int|
            #[trigger] tokens_encode_account(toks@, pos as int, a, end) ==> {
                &&& r matches Ok(p)
                &&& account_equiv(p.0, a)
                &&& p.1 == end
            },
{
    // The caller has already seen the 'account' keyword at `pos`.
    let bound = toks.len();
    let mut p = pos + 1;
    if p >= bound {
        return Err(perr("expected an account name"));
    }
    let name = match &toks[p] {
        Token::Ident(s) => {
            proof {
                assert(toks@[p as int] == Token::Ident(*s));
            }
            s.clone()
        },
        _ => {
            return Err(perr("expected an account name"));
        },
    };
    p += 1;
    if !(p < toks.len() && matches!(toks[p], Token::LBrace)) {
        return Err(perr("expected '{' to open an account block"));
    }
    p += 1;
    let mut fields: Vec<Field> = Vec::new();
    let ghost mut fbounds: Seq<int> = seq![pos as int + 3];
    proof {
        assert forall|a: AccountDef, end: int|
            #[trigger] tokens_encode_account(toks@, pos as int, a, end) implies tokens_encode_fields(
            toks@,
            p as int,
            a.fields@.skip(fields@.len() as int),
            end - 1,
        ) by {
            assert(a.fields@.skip(0) =~= a.fields@);
        }
    }
    loop
        invariant
            pos < p <= toks@.len(),
            tok_is_word(toks@, pos as int, "account"@),
            pos as int + 1 < toks@.len(),
            (toks@[pos as int + 1] matches Token::Ident(w) && w@ == name@),
            pos as int + 2 < toks@.len(),
            toks@[pos as int + 2] is LBrace,
            fbounds.len() == fields@.len() + 1,
            fbounds[0] == pos as int + 3,
            fbounds[fbounds.len() - 1] == p as int,
            forall|kk: int|
                0 <= kk < fields@.len() ==> #[trigger] field_at(
                    toks@,
                    fbounds[kk],
                    fields@[kk],
                    fbounds[kk + 1],
                ),
            forall|a: AccountDef, end: int|
                #[trigger] tokens_encode_account(toks@, pos as int, a, end) ==> {
                    &&& name@ == a.name@
                    &&& fields@.len() <= a.fields@.len()
                    &&& (forall|i: int|
                        0 <= i < fields@.len() ==> field_equiv(fields@[i], #[trigger] a.fields@[i]))
                    &&& tokens_encode_fields(
                        toks@,
                        p as int,
                        a.fields@.skip(fields@.len() as int),
                        end - 1,
                    )
                },
        decreases toks@.len() - p,
    {
        let ghost p0 = p as int;
        let ghost k = fields@.len() as int;
        if p >= toks.len() {
            proof {
                assert forall|a: AccountDef, end: int|
                    #[trigger] tokens_encode_account(toks@, pos as int, a, end) implies false by {
                    let rest = a.fields@.skip(k);
                    if rest.len() == 0 {
                    } else {
                    }
                }
            }
            return Err(perr("unterminated account block: expected '}'"));
        }
        if matches!(toks[p], Token::RBrace) {
            proof {
                assert forall|a: AccountDef, end: int|
                    #[trigger] tokens_encode_account(toks@, pos as int, a, end) implies (fields@.len()
                    == a.fields@.len() && p0 + 1 == end) by {
                    let rest = a.fields@.skip(k);
                    if rest.len() == 0 {
                        assert(a.fields@.len() == k);
                    } else {
                        assert(false);
                    }
                }
            }
            proof {
                assert(account_span(
                    toks@,
                    pos as int,
                    AccountDef { name, fields },
                    fbounds,
                    p as int + 1,
                ));
            }
            return Ok((AccountDef { name, fields }, p + 1));
        }
        let field_name = match &toks[p] {
            Token::Ident(s) => {
                proof {
                    assert(toks@[p as int] == Token::Ident(*s));
                }
                s.clone()
            },
            _ => {
                proof {
                    assert forall|a: AccountDef, end: int|
                        #[trigger] tokens_encode_account(toks@, pos as int, a, end) implies false by {
                        let rest = a.fields@.skip(k);
                        if rest.len() == 0 {
                        } else {
                        }
                    }
                }
                return Err(perr("expected a field name or '}'"));
            },
        };
        p += 1;
        if !(p < toks.len() && matches!(toks[p], Token::Colon)) {
            proof {
                assert forall|a: AccountDef, end: int|
                    #[trigger] tokens_encode_account(toks@, pos as int, a, end) implies false by {
                    let rest = a.fields@.skip(k);
                    if rest.len() == 0 {
                    } else {
                    }
                }
            }
            return Err(perr("expected ':' after a field name"));
        }
        p += 1;
        let ty = match parse_type_at(toks, p) {
            Ok(t) => t,
            Err(e) => {
                proof {
                    assert forall|a: AccountDef, end: int|
                        #[trigger] tokens_encode_account(toks@, pos as int, a, end) implies false by {
                        let rest = a.fields@.skip(k);
                        if rest.len() == 0 {
                        } else {
                            assert(tokens_encode_type(
                                toks@,
                                p0 + 2,
                                rest[0].ty,
                                p0 + 2 + type_token_len(rest[0].ty),
                            ));
                        }
                    }
                }
                return Err(e);
            },
        };
        fields.push(Field { name: field_name, ty: ty.0 });
        p = ty.1;
        proof {
            fbounds = fbounds.push(ty.1 as int);
            assert forall|kk: int|
                0 <= kk < fields@.len() implies #[trigger] field_at(
                toks@,
                fbounds[kk],
                fields@[kk],
                fbounds[kk + 1],
            ) by {
                if kk == fields@.len() - 1 {
                    assert(field_at(toks@, p0, fields@[kk], ty.1 as int));
                }
            }
            assert forall|a: AccountDef, end: int|
                #[trigger] tokens_encode_account(toks@, pos as int, a, end) implies {
                &&& fields@.len() <= a.fields@.len()
                &&& (forall|i: int|
                    0 <= i < fields@.len() ==> field_equiv(fields@[i], #[trigger] a.fields@[i]))
                &&& tokens_encode_fields(
                    toks@,
                    p as int,
                    a.fields@.skip(fields@.len() as int),
                    end - 1,
                )
            } by {
                let rest = a.fields@.skip(k);
                if rest.len() == 0 {
                    assert(false);
                } else {
                    assert(tokens_encode_type(
                        toks@,
                        p0 + 2,
                        rest[0].ty,
                        p0 + 2 + type_token_len(rest[0].ty),
                    ));
                    assert(rest[0] == a.fields@[k]);
                    assert(rest.drop_first() =~= a.fields@.skip(k + 1));
                    assert(fields@ == fields@.subrange(0, k).push(fields@[k]));
                    assert forall|i: int|
                        0 <= i < fields@.len() implies field_equiv(
                        fields@[i],
                        #[trigger] a.fields@[i],
                    ) by {
                        if i < k {
                        } else {
                            assert(fields@[i] == Field { name: field_name, ty: ty.0 });
                        }
                    }
                }
            }
        }
    }
}

fn parse_instruction(toks: &Vec<Token>, pos: usize) -> (r: Result<
    (Instruction, usize),
    ParseError,
>)
    requires
        pos < toks@.len(),
        tok_is_word(toks@, pos as int, "instruction"@),
    ensures
        r matches Ok(p) ==> pos < p.1 <= toks@.len(),
        r matches Err(e) ==> e.message@.len() > 0,
        r matches Ok(p) ==> instruction_at(toks@, pos as int, p.0, p.1 as int),
{
    // The caller has already seen the 'instruction' keyword at `pos`.
    let bound = toks.len();
    let mut p = pos + 1;
    if p >= bound {
        return Err(perr("expected an instruction name"));
    }
    let name = match &toks[p] {
        Token::Ident(s) => {
            proof {
                assert(toks@[p as int] == Token::Ident(*s));
            }
            s.clone()
        },
        _ => {
            return Err(perr("expected an instruction name"));
        },
    };
    p += 1;
    if !(p < toks.len() && matches!(toks[p], Token::LParen)) {
        return Err(perr("expected '(' after the instruction name"));
    }
    p += 1;
    let mut params: Vec<Param> = Vec::new();
    if p < toks.len() && matches!(toks[p], Token::RParen) {
        p += 1;
    } else {
        loop
            invariant_except_break
                p as int == pos as int + 3 + 4 * params@.len(),
                forall|j: int|
                    0 <= j < params@.len() ==> #[trigger] param_slot_mid(toks@, pos as int, params@, j),
            invariant
                pos < p <= toks@.len(),
                tok_is_word(toks@, pos as int, "instruction"@),
                pos as int + 1 < toks@.len(),
                (toks@[pos as int + 1] matches Token::Ident(w) && w@ == name@),
                pos as int + 2 < toks@.len(),
                toks@[pos as int + 2] is LParen,
            ensures
                params@.len() >= 1,
                p as int == pos as int + 4 + params_width(params@),
                forall|j: int|
                    0 <= j < params@.len() ==> #[trigger] param_slot(toks@, pos as int, params@, j),
                0 <= p as int - 1 < toks@.len() && toks@[p as int - 1] is RParen,
            decreases toks@.len() - p,
        {
            let ghost pk = p as int;
            if p >= toks.len() {
                return Err(perr("unterminated parameter list: expected ')'"));
            }
            let param_name = match &toks[p] {
                Token::Ident(s) => {
                    proof {
                        assert(toks@[p as int] == Token::Ident(*s));
                    }
                    s.clone()
                },
                _ => {
                    return Err(perr("expected a parameter name"));
                },
            };
            p += 1;
            if !(p < toks.len() && matches!(toks[p], Token::Colon)) {
                return Err(perr("expected ':' after a parameter name"));
            }
            p += 1;
            let ty = parse_param_type_at(toks, p)?;
            let ghost oldps = params@;
            params.push(Param { name: param_name, ty: ty.0 });
            p = ty.1;
            proof {
                assert(param_at(toks@, pk, params@[params@.len() - 1]));
            }
            if p < toks.len() && matches!(toks[p], Token::Comma) {
                p += 1;
                proof {
                    assert forall|j: int|
                        0 <= j < params@.len() implies #[trigger] param_slot_mid(
                        toks@,
                        pos as int,
                        params@,
                        j,
                    ) by {
                        if j == params@.len() - 1 {
                            assert(param_at(toks@, pk, params@[j]));
                            assert(pos as int + 3 + 4 * j == pk);
                            assert(toks@[pk + 3] is Comma);
                        } else {
                            assert(param_slot_mid(toks@, pos as int, oldps, j));
                            assert(params@[j] == oldps[j]);
                        }
                    }
                }
            } else if p < toks.len() && matches!(toks[p], Token::RParen) {
                p += 1;
                proof {
                    assert forall|j: int|
                        0 <= j < params@.len() implies #[trigger] param_slot(
                        toks@,
                        pos as int,
                        params@,
                        j,
                    ) by {
                        if j == params@.len() - 1 {
                            assert(param_at(toks@, pk, params@[j]));
                            assert(pos as int + 3 + 4 * j == pk);
                        } else {
                            assert(param_slot_mid(toks@, pos as int, oldps, j));
                            assert(params@[j] == oldps[j]);
                        }
                    }
                }
                break;
            } else {
                return Err(perr("expected ',' or ')' in a parameter list"));
            }
        }
    }
    proof {
        assert(p as int == pos as int + 4 + params_width(params@));
        assert(0 <= p as int - 1 < toks@.len() && toks@[p as int - 1] is RParen);
    }
    if !(p < toks.len() && matches!(toks[p], Token::LBrace)) {
        return Err(perr("expected '{' to open an instruction body"));
    }
    p += 1;
    let mut body: Vec<Statement> = Vec::new();
    let ghost body_start = p as int;
    let ghost mut cuts: Seq<int> = seq![p as int];
    loop
        invariant
            pos < p <= toks@.len(),
            tok_is_word(toks@, pos as int, "instruction"@),
            pos as int + 1 < toks@.len(),
            (toks@[pos as int + 1] matches Token::Ident(w) && w@ == name@),
            pos as int + 2 < toks@.len(),
            toks@[pos as int + 2] is LParen,
            forall|j: int|
                0 <= j < params@.len() ==> #[trigger] param_slot(toks@, pos as int, params@, j),
            0 <= pos as int + 3 + params_width(params@) < toks@.len(),
            toks@[pos as int + 3 + params_width(params@)] is RParen,
            pos as int + 4 + params_width(params@) < toks@.len(),
            toks@[pos as int + 4 + params_width(params@)] is LBrace,
            body_start == pos as int + 5 + params_width(params@),
            cuts.len() == body@.len() + 1,
            cuts[0] == body_start,
            cuts[cuts.len() - 1] == p as int,
            forall|k: int|
                0 <= k < body@.len() ==> #[trigger] statement_span(
                    toks@,
                    cuts[k],
                    body@[k],
                    cuts[k + 1],
                ),
        decreases toks@.len() - p,
    {
        let ghost p0 = p as int;
        if p >= toks.len() {
            return Err(perr("unterminated instruction body: expected '}'"));
        }
        if matches!(toks[p], Token::RBrace) {
            proof {
                assert(instruction_span(
                    toks@,
                    pos as int,
                    Instruction { name, params, body },
                    cuts,
                    p as int + 1,
                ));
            }
            p += 1;
            return Ok((Instruction { name, params, body }, p));
        }
        let stmt = parse_statement(toks, p)?;
        body.push(stmt.0);
        p = stmt.1;
        proof {
            cuts = cuts.push(stmt.1 as int);
            assert forall|k: int|
                0 <= k < body@.len() implies #[trigger] statement_span(
                toks@,
                cuts[k],
                body@[k],
                cuts[k + 1],
            ) by {
                if k == body@.len() - 1 {
                    assert(statement_span(toks@, p0, body@[k], stmt.1 as int));
                }
            }
        }
    }
}

/// The number of tokens in the printed form of a field list.
pub open spec fn fields_token_len(fs: Seq<Field>) -> int
    decreases fs.len(),
{
    if fs.len() == 0 {
        0
    } else {
        2 + type_token_len(fs[0].ty) + fields_token_len(fs.drop_first())
    }
}

/// The number of tokens in the printed form of an account definition.
pub open spec fn account_token_len(a: AccountDef) -> int {
    4 + fields_token_len(a.fields@)
}

/// Whether the tokens from `pos` up to `end` spell out the account
/// definitions `accs`, one after another.
pub open spec fn tokens_encode_accounts(
    toks: Seq<Token>,
    pos: int,
    accs: Seq<AccountDef>,
    end: int,
) -> bool
    decreases accs.len(),
{
    if accs.len() == 0 {
        end == pos
    } else {
        &&& tokens_encode_account(toks, pos, accs[0], pos + account_token_len(accs[0]))
        &&& tokens_encode_accounts(toks, pos + account_token_len(accs[0]), accs.drop_first(), end)
    }
}

/// Whether a token stream spells out exactly the header and account
/// definitions of `prog`, a program that declares no instructions.
pub open spec fn tokens_encode_data_program(toks: Seq<Token>, prog: Program) -> bool {
    &&& toks.len() >= 2
    &&& toks[0] matches Token::Ident(s) && s@ == "program"@
    &&& toks[1] matches Token::Ident(s2) && s2@ == prog.name@
    &&& tokens_encode_accounts(toks, 2, prog.accounts@, toks.len() as int)
    &&& prog.instructions@.len() == 0
}

/// Whether two programs agree on their name and account declarations, with
/// equally many instructions.
pub open spec fn program_data_equiv(a: Program, b: Program) -> bool {
    &&& a.name@ == b.name@
    &&& a.accounts@.len() == b.accounts@.len()
    &&& (forall|i: int|
        0 <= i < a.accounts@.len() ==> account_equiv(a.accounts@[i], #[trigger] b.accounts@[i]))
    &&& a.instructions@.len() == b.instructions@.len()
}

/// Whether the whole token stream reads as exactly the program `q`: the
/// header, then each account definition and each instruction in order, the
/// pieces cut at the boundary positions `abounds` and `starts`, with nothing
/// after the last instruction.
pub open spec fn program_span(
    ts: Seq<Token>,
    q: Program,
    abounds: Seq<int>,
    starts: Seq<int>,
) -> bool {
    &&& tok_is_word(ts, 0, "program"@)
    &&& 1 < ts.len() && (ts[1] matches Token::Ident(w) && w@ == q.name@)
    &&& abounds.len() == q.accounts@.len() + 1
    &&& abounds[0] == 2
    &&& (forall|k: int|
        0 <= k < q.accounts@.len() ==> #[trigger] account_at(ts, abounds[k], q.accounts@[k], abounds[k + 1]))
    &&& starts.len() == q.instructions@.len() + 1
    &&& starts[0] == abounds[abounds.len() - 1]
    &&& (forall|k: int|
        0 <= k < q.instructions@.len() ==> #[trigger] instruction_at(
            ts,
            starts[k],
            q.instructions@[k],
            starts[k + 1],
        ))
    &&& starts[starts.len() - 1] == ts.len()
}

/// Whether the whole token stream reads as exactly the program `q`, for
/// some placing of its piece boundaries.
pub open spec fn program_at(ts: Seq<Token>, q: Program) -> bool {
    exists|abounds: Seq<int>, starts: Seq<int>| program_span(ts, q, abounds, starts)
}

/// Parses a token stream into a program. Sound: a returned program is
/// exactly what the tokens spell out, at boundaries the contract exhibits —
/// the whole stream, in order, nothing trailing. Complete for the
/// data-declaration half of the grammar: a stream that spells out a program
/// without instructions is accepted and reproduced.
pub fn parse_program_tokens(toks: &Vec<Token>) -> (r: Result<Program, ParseError>)
    ensures
        r matches Err(e) ==> e.message@.len() > 0,
        r matches Ok(q) ==> program_at(toks@, q),
        forall|prog: Program|
            #[trigger] tokens_encode_data_program(toks@, prog) ==> {
                &&& r matches Ok(q)
                &&& program_data_equiv(q, prog)
            },
{
    if !tok_ident_is(toks, 0, "program") {
        return Err(perr("expected the 'program' header"));
    }
    let mut p: usize = 1;
    if p >= toks.len() {
        return Err(perr("expected a program name"));
    }
    let name = match &toks[p] {
        Token::Ident(s) => {
            proof {
                assert(toks@[1] == Token::Ident(*s));
            }
            s.clone()
        },
        _ => {
            return Err(perr("expected a program name"));
        },
    };
    p += 1;
    let mut accounts: Vec<AccountDef> = Vec::new();
    let ghost mut abounds: Seq<int> = seq![2int];
    proof {
        assert forall|prog: Program|
            #[trigger] tokens_encode_data_program(toks@, prog) implies tokens_encode_accounts(
            toks@,
            p as int,
            prog.accounts@.skip(accounts@.len() as int),
            toks@.len() as int,
        ) by {
            assert(prog.accounts@.skip(0) =~= prog.accounts@);
        }
    }
    while tok_ident_is(toks, p, "account")
        invariant
            p <= toks@.len(),
            tok_is_word(toks@, 0, "program"@),
            1 < toks@.len(),
            (toks@[1] matches Token::Ident(w) && w@ == name@),
            abounds.len() == accounts@.len() + 1,
            abounds[0] == 2,
            abounds[abounds.len() - 1] == p as int,
            forall|k: int|
                0 <= k < accounts@.len() ==> #[trigger] account_at(
                    toks@,
                    abounds[k],
                    accounts@[k],
                    abounds[k + 1],
                ),
            forall|prog: Program|
                #[trigger] tokens_encode_data_program(toks@, prog) ==> {
                    &&& name@ == prog.name@
                    &&& accounts@.len() <= prog.accounts@.len()
                    &&& (forall|i: int|
                        0 <= i < accounts@.len() ==> account_equiv(
                            accounts@[i],
                            #[trigger] prog.accounts@[i],
                        ))
                    &&& tokens_encode_accounts(
                        toks@,
                        p as int,
                        prog.accounts@.skip(accounts@.len() as int),
                        toks@.len() as int,
                    )
                },
        decreases toks@.len() - p,
    {
        let ghost p0 = p as int;
        let ghost k = accounts@.len() as int;
        let acc = parse_account_def(toks, p)?;
        accounts.push(acc.0);
        p = acc.1;
        proof {
            abounds = abounds.push(acc.1 as int);
            assert forall|kk: int|
                0 <= kk < accounts@.len() implies #[trigger] account_at(
                toks@,
                abounds[kk],
                accounts@[kk],
                abounds[kk + 1],
            ) by {
                if kk == accounts@.len() - 1 {
                    assert(account_at(toks@, p0, accounts@[kk], acc.1 as int));
                }
            }
            assert forall|prog: Program|
                #[trigger] tokens_encode_data_program(toks@, prog) implies {
                &&& accounts@.len() <= prog.accounts@.len()
                &&& (forall|i: int|
                    0 <= i < accounts@.len() ==> account_equiv(
                        accounts@[i],
                        #[trigger] prog.accounts@[i],
                    ))
                &&& tokens_encode_accounts(
                    toks@,
                    p as int,
                    prog.accounts@.skip(accounts@.len() as int),
                    toks@.len() as int,
                )
            } by {
                let rest = prog.accounts@.skip(k);
                if rest.len() == 0 {
                    assert(false);
                } else {
                    assert(tokens_encode_account(
                        toks@,
                        p0,
                        rest[0],
                        p0 + account_token_len(rest[0]),
                    ));
                    assert(rest[0] == prog.accounts@[k]);
                    assert(rest.drop_first() =~= prog.accounts@.skip(k + 1));
                    assert forall|i: int|
                        0 <= i < accounts@.len() implies account_equiv(
                        accounts@[i],
                        #[trigger] prog.accounts@[i],
                    ) by {
                        if i < k {
                        } else {
                            assert(accounts@[i] == acc.0);
                        }
                    }
                }
            }
        }
    }
    proof {
        assert forall|prog: Program|
            #[trigger] tokens_encode_data_program(toks@, prog) implies (accounts@.len()
            == prog.accounts@.len() && p as int == toks@.len()) by {
            let rest = prog.accounts@.skip(accounts@.len() as int);
            if rest.len() == 0 {
            } else {
                assert(tokens_encode_account(
                    toks@,
                    p as int,
                    rest[0],
                    p as int + account_token_len(rest[0]),
                ));
                assert(false);
            }
        }
    }
    let mut instructions: Vec<Instruction> = Vec::new();
    let ghost mut starts: Seq<int> = seq![p as int];
    while tok_ident_is(toks, p, "instruction")
        invariant
            p <= toks@.len(),
            tok_is_word(toks@, 0, "program"@),
            1 < toks@.len(),
            (toks@[1] matches Token::Ident(w) && w@ == name@),
            abounds.len() == accounts@.len() + 1,
            abounds[0] == 2,
            forall|k: int|
                0 <= k < accounts@.len() ==> #[trigger] account_at(
                    toks@,
                    abounds[k],
                    accounts@[k],
                    abounds[k + 1],
                ),
            starts.len() == instructions@.len() + 1,
            starts[0] == abounds[abounds.len() - 1],
            starts[starts.len() - 1] == p as int,
            forall|k: int|
                0 <= k < instructions@.len() ==> #[trigger] instruction_at(
                    toks@,
                    starts[k],
                    instructions@[k],
                    starts[k + 1],
                ),
            forall|prog: Program|
                #[trigger] tokens_encode_data_program(toks@, prog) ==> {
                    &&& name@ == prog.name@
                    &&& accounts@.len() == prog.accounts@.len()
                    &&& (forall|i: int|
                        0 <= i < accounts@.len() ==> account_equiv(
                            accounts@[i],
                            #[trigger] prog.accounts@[i],
                        ))
                    &&& instructions@.len() == 0
                    &&& p as int == toks@.len()
                },
        decreases toks@.len() - p,
    {
        let ghost ip0 = p as int;
        let ins = parse_instruction(toks, p)?;
        instructions.push(ins.0);
        p = ins.1;
        proof {
            starts = starts.push(ins.1 as int);
            assert forall|kk: int|
                0 <= kk < instructions@.len() implies #[trigger] instruction_at(
                toks@,
                starts[kk],
                instructions@[kk],
                starts[kk + 1],
            ) by {
                if kk == instructions@.len() - 1 {
                    assert(instruction_at(toks@, ip0, instructions@[kk], ins.1 as int));
                }
            }
        }
    }
    if p < toks.len() {
        return Err(perr("unexpected input after the last instruction"));
    }
    proof {
        assert(program_span(toks@, Program { name, accounts, instructions }, abounds, starts));
        assert(program_at(toks@, Program { name, accounts, instructions }));
    }
    Ok(Program { name, accounts, instructions })
}

/// Whether two tokens agree, comparing carried text by its characters.
pub open spec fn token_like(a: Token, b: Token) -> bool {
    match (a, b) {
        (Token::Ident(x), Token::Ident(y)) => x@ == y@,
        (Token::Text(x), Token::Text(y)) => x@ == y@,
        _ => a == b,
    }
}

/// Whether two token lists agree elementwise.
pub open spec fn tokens_like(a: Seq<Token>, b: Seq<Token>) -> bool {
    a.len() == b.len() && (forall|i: int| 0 <= i < a.len() ==> token_like(a[i], #[trigger] b[i]))
}

proof fn lemma_like_cons(a: Seq<Token>, b: Seq<Token>)
    requires
        a.len() > 0,
        b.len() > 0,
        token_like(a[0], b[0]),
        tokens_like(a.drop_first(), b.drop_first()),
    ensures
        tokens_like(a, b),
{
    assert forall|k: int| 0 <= k < a.len() implies token_like(a[k], #[trigger] b[k]) by {
        if k > 0 {
            assert(a.drop_first()[k - 1] == a[k]);
            assert(b.drop_first()[k - 1] == b[k]);
            assert(token_like(a.drop_first()[k - 1], b.drop_first()[k - 1]));
        }
    }
}

/// Lexing is a function of the text: two token lists that both lex the same
/// characters agree elementwise.
proof fn lemma_lexes_deterministic(s: Seq<char>, i: int, a: Seq<Token>, b: Seq<Token>)
    requires
        lexes_from(s, i, a),
        lexes_from(s, i, b),
    ensures
        tokens_like(a, b),
    decreases a.len(), s.len() - i,
{
    if i < 0 || i >= s.len() {
    } else if is_space_char(s[i]) {
        lemma_lexes_deterministic(s, i + 1, a, b);
    } else if is_ident_start_char(s[i]) {
        lemma_lexes_deterministic(
            s,
            cap_pos(s, i + 1 + ident_run(s, i + 1)),
            a.drop_first(),
            b.drop_first(),
        );
        lemma_like_cons(a, b);
    } else if is_digit_char(s[i]) {
        lemma_lexes_deterministic(
            s,
            cap_pos(s, i + 1 + digit_run(s, i + 1)),
            a.drop_first(),
            b.drop_first(),
        );
        lemma_like_cons(a, b);
    } else if s[i] == '"' {
        lemma_lexes_deterministic(
            s,
            cap_pos(s, i + 2 + quote_run(s, i + 1)),
            a.drop_first(),
            b.drop_first(),
        );
        lemma_like_cons(a, b);
    } else if i + 1 < s.len() && ((s[i] == '+' || s[i] == '-' || s[i] == '*' || s[i] == '/' || s[i]
        == '%' || s[i] == '=' || s[i] == '!' || s[i] == '<' || s[i] == '>') && s[i + 1] == '=' || (
    s[i] == '&' && s[i + 1] == '&') || (s[i] == '|' && s[i + 1] == '|')) {
        lemma_lexes_deterministic(s, i + 2, a.drop_first(), b.drop_first());
        lemma_like_cons(a, b);
    } else {
        lemma_lexes_deterministic(s, i + 1, a.drop_first(), b.drop_first());
        lemma_like_cons(a, b);
    }
}

proof fn lemma_transfer_type(a: Seq<Token>, b: Seq<Token>, pos: int, t: Type, end: int)
    requires
        tokens_like(a, b),
        tokens_encode_type(a, pos, t, end),
    ensures
        tokens_encode_type(b, pos, t, end),
    decreases t,
{
    match t {
        Type::Vec(inner) => {
            assert(token_like(a[pos], b[pos]));
            assert(token_like(a[pos + 1], b[pos + 1]));
            assert(token_like(a[end - 1], b[end - 1]));
            lemma_transfer_type(a, b, pos + 2, *inner, end - 1);
        },
        Type::Option(inner) => {
            assert(token_like(a[pos], b[pos]));
            assert(token_like(a[pos + 1], b[pos + 1]));
            assert(token_like(a[end - 1], b[end - 1]));
            lemma_transfer_type(a, b, pos + 2, *inner, end - 1);
        },
        _ => {
            assert(token_like(a[pos], b[pos]));
        },
    }
}

proof fn lemma_transfer_fields(a: Seq<Token>, b: Seq<Token>, pos: int, fs: Seq<Field>, end: int)
    requires
        tokens_like(a, b),
        tokens_encode_fields(a, pos, fs, end),
    ensures
        tokens_encode_fields(b, pos, fs, end),
    decreases fs.len(),
{
    if fs.len() > 0 {
        assert(token_like(a[pos], b[pos]));
        assert(token_like(a[pos + 1], b[pos + 1]));
        lemma_transfer_type(a, b, pos + 2, fs[0].ty, pos + 2 + type_token_len(fs[0].ty));
        lemma_transfer_fields(a, b, pos + 2 + type_token_len(fs[0].ty), fs.drop_first(), end);
    }
}

proof fn lemma_transfer_account(a: Seq<Token>, b: Seq<Token>, pos: int, acc: AccountDef, end: int)
    requires
        tokens_like(a, b),
        tokens_encode_account(a, pos, acc, end),
    ensures
        tokens_encode_account(b, pos, acc, end),
{
    assert(token_like(a[pos], b[pos]));
    assert(token_like(a[pos + 1], b[pos + 1]));
    assert(token_like(a[pos + 2], b[pos + 2]));
    assert(token_like(a[end - 1], b[end - 1]));
    lemma_transfer_fields(a, b, pos + 3, acc.fields@, end - 1);
}

proof fn lemma_transfer_accounts(
    a: Seq<Token>,
    b: Seq<Token>,
    pos: int,
    accs: Seq<AccountDef>,
    end: int,
)
    requires
        tokens_like(a, b),
        tokens_encode_accounts(a, pos, accs, end),
    ensures
        tokens_encode_accounts(b, pos, accs, end),
    decreases accs.len(),
{
    if accs.len() > 0 {
        lemma_transfer_account(a, b, pos, accs[0], pos + account_token_len(accs[0]));
        lemma_transfer_accounts(a, b, pos + account_token_len(accs[0]), accs.drop_first(), end);
    }
}

proof fn lemma_transfer_data_program(a: Seq<Token>, b: Seq<Token>, prog: Program)
    requires
        tokens_like(a, b),
        tokens_encode_data_program(a, prog),
    ensures
        tokens_encode_data_program(b, prog),
{
    assert(token_like(a[0], b[0]));
    assert(token_like(a[1], b[1]));
    lemma_transfer_accounts(a, b, 2, prog.accounts@, a.len() as int);
}

/// Parses source text into a program: the whole input must be one program
/// header followed by account definitions and instructions. The tokens are
/// handed to [`parse_program_tokens`], whose contract pins the tree they
/// spell out; a failed run reports a non-empty error and yields no tree.
pub fn parse(source: &str) -> (r: Result<Program, ParseError>)
    ensures
        r matches Err(e) ==> e.message@.len() > 0,
        r matches Ok(q) ==> exists|ts: Seq<Token>| lexes_to(source@, ts) && program_at(ts, q),
        forall|prog: Program, ts0: Seq<Token>|
            lexes_to(source@, ts0) && #[trigger] tokens_encode_data_program(ts0, prog) ==> {
                &&& r matches Ok(q)
                &&& program_data_equiv(q, prog)
            },
{
    let toks = match lex(source) {
        Ok(t) => t,
        Err(e) => {
            proof {
                assert forall|prog: Program, ts0: Seq<Token>|
                    lexes_to(source@, ts0) && #[trigger] tokens_encode_data_program(
                        ts0,
                        prog,
                    ) implies false by {
                    assert(!lexes_to(source@, ts0));
                }
            }
            return Err(e);
        },
    };
    let r = parse_program_tokens(&toks);
    proof {
        if r is Ok {
            assert(lexes_to(source@, toks@) && program_at(toks@, r->Ok_0));
        }
        assert forall|prog: Program, ts0: Seq<Token>|
            lexes_to(source@, ts0) && #[trigger] tokens_encode_data_program(ts0, prog) implies {
            &&& r matches Ok(q)
            &&& program_data_equiv(q, prog)
        } by {
            lemma_lexes_deterministic(source@, 0, ts0, toks@);
            lemma_transfer_data_program(ts0, toks@, prog);
        }
    }
    r
}

} // verus!
