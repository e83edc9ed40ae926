//! Precedence-climbing parser and evaluator over the bridged token
//! triples.
//!
//! Grammar: an expression is a list of terms joined by `+` and `-`; a term
//! is a list of factors joined by `*` and `/`; a factor is an integer
//! literal or a parenthesized expression.  `+ - *` evaluate with wrapping
//! 64-bit semantics, `/` truncates toward zero (and wraps on the one
//! overflowing quotient); dividing by zero is reported as an error.
//!
//! Every anomaly is a structured error value: a literal too large for
//! `i64` surfaces here, when its value is actually consulted, as a `User`
//! error carrying the message built by the lexer; a token that fits no
//! production is reported with its span and the sorted list of the tokens
//! that would have been acceptable in its place.

use vstd::prelude::*;
use vstd::string::*;

use crate::lexer::{step_pos, triples_view};
use crate::token::{IntLitV, Token, TokenV, WrappedInt};

verus! {

/// A structured parse failure.
#[derive(Debug, Clone, PartialEq)]
pub enum ParseErr {
    /// An error carried by a token as data (a too-large literal): the
    /// message is shown to the user verbatim.
    User { error: String },
    /// A token that fits no production at its position, with the sorted
    /// names of the tokens that would have been acceptable there.
    UnrecognizedToken { start: usize, token: Token, end: usize, expected: Vec<String> },
    /// The line ended where more input was required.
    UnrecognizedEof { location: usize, expected: Vec<String> },
    /// A division whose right operand evaluated to zero.
    DivisionByZero,
}

/// Mathematical view of a `ParseErr`.
pub enum ParseErrV {
    User { error: Seq<char> },
    UnrecognizedToken { start: int, token: TokenV, end: int, expected: Seq<Seq<char>> },
    UnrecognizedEof { location: int, expected: Seq<Seq<char>> },
    DivisionByZero,
}

/// View of a list of names.
pub open spec fn strs_view(v: Seq<String>) -> Seq<Seq<char>> {
    v.map(|k: int, x: String| x@)
}

impl View for ParseErr {
    type V = ParseErrV;

    open spec fn view(&self) -> ParseErrV {
        match self {
            ParseErr::User { error } => ParseErrV::User { error: error@ },
            ParseErr::UnrecognizedToken { start, token, end, expected } => {
                ParseErrV::UnrecognizedToken {
                    start: *start as int,
                    token: token@,
                    end: *end as int,
                    expected: strs_view(expected@),
                }
            },
            ParseErr::UnrecognizedEof { location, expected } => {
                ParseErrV::UnrecognizedEof {
                    location: *location as int,
                    expected: strs_view(expected@),
                }
            },
            ParseErr::DivisionByZero => ParseErrV::DivisionByZero,
        }
    }
}

/// What is acceptable where a factor must start.
pub open spec fn exp_factor() -> Seq<Seq<char>> {
    seq!["Integer"@, "LParen"@]
}

/// What is acceptable after a complete expression inside parentheses.
pub open spec fn exp_op_paren() -> Seq<Seq<char>> {
    seq!["Minus"@, "Plus"@, "RParen"@, "Slash"@, "Star"@]
}

/// What is acceptable after a complete expression at the top level.
pub open spec fn exp_op_top() -> Seq<Seq<char>> {
    seq!["Minus"@, "Plus"@, "Slash"@, "Star"@]
}

/// Outcome of parsing one production: the value and the index of the
/// first unconsumed token, or a structured failure.
pub enum PRes {
    Done { v: i64, next: int },
    Fail { e: ParseErrV },
}

/// Where "unexpected end of input" points: just past the last token.
pub open spec fn eof_loc(ts: Seq<(int, TokenV, int)>) -> int {
    if ts.len() == 0 {
        0
    } else {
        ts.last().2
    }
}

/// Truncating `i64` division for a nonzero divisor; the one overflowing
/// quotient wraps.
pub open spec fn div_i64(a: i64, b: i64) -> i64
    recommends
        b != 0,
{
    match a.checked_div(b) {
        Some(q) => q,
        None => i64::MIN,
    }
}

/// factor ::= Integer | LParen expr RParen
pub open spec fn spec_factor(ts: Seq<(int, TokenV, int)>, i: int) -> PRes
    decreases ts.len() - i, 0int,
{
    if !(0 <= i && i < ts.len()) {
        PRes::Fail {
            e: ParseErrV::UnrecognizedEof { location: eof_loc(ts), expected: exp_factor() },
        }
    } else {
        match ts[i].1 {
            TokenV::Integer(lit) => match lit {
                IntLitV::Int(v) => PRes::Done { v, next: i + 1 },
                IntLitV::Overflow(m) => PRes::Fail { e: ParseErrV::User { error: m } },
            },
            TokenV::LParen => match spec_expr(ts, i + 1) {
                PRes::Done { v, next } => {
                    let np = step_pos(ts.len() as int, next, i + 2);
                    if np < ts.len() && ts[np].1 is RParen {
                        PRes::Done { v, next: np + 1 }
                    } else if np < ts.len() {
                        PRes::Fail {
                            e: ParseErrV::UnrecognizedToken {
                                start: ts[np].0,
                                token: ts[np].1,
                                end: ts[np].2,
                                expected: exp_op_paren(),
                            },
                        }
                    } else {
                        PRes::Fail {
                            e: ParseErrV::UnrecognizedEof {
                                location: eof_loc(ts),
                                expected: exp_op_paren(),
                            },
                        }
                    }
                },
                f => f,
            },
            _ => PRes::Fail {
                e: ParseErrV::UnrecognizedToken {
                    start: ts[i].0,
                    token: ts[i].1,
                    end: ts[i].2,
                    expected: exp_factor(),
                },
            },
        }
    }
}

/// term ::= factor ((Star | Slash) factor)*, folded left.
pub open spec fn spec_term(ts: Seq<(int, TokenV, int)>, i: int) -> PRes
    decreases ts.len() - i, 1int,
{
    if !(0 <= i && i < ts.len()) {
        PRes::Fail {
            e: ParseErrV::UnrecognizedEof { location: eof_loc(ts), expected: exp_factor() },
        }
    } else {
        match spec_factor(ts, i) {
            PRes::Done { v, next } => spec_term_rest(
                ts,
                step_pos(ts.len() as int, next, i + 1),
                v,
            ),
            f => f,
        }
    }
}

/// The `(Star | Slash) factor` tail of a term.
pub open spec fn spec_term_rest(ts: Seq<(int, TokenV, int)>, i: int, acc: i64) -> PRes
    decreases ts.len() - i, 0int,
{
    if 0 <= i && i < ts.len() && (ts[i].1 is Star || ts[i].1 is Slash) {
        let mul = ts[i].1 is Star;
        match spec_factor(ts, i + 1) {
            PRes::Done { v, next } => {
                let np = step_pos(ts.len() as int, next, i + 2);
                if mul {
                    spec_term_rest(ts, np, acc.wrapping_mul(v))
                } else if v == 0 {
                    PRes::Fail { e: ParseErrV::DivisionByZero }
                } else {
                    spec_term_rest(ts, np, div_i64(acc, v))
                }
            },
            f => f,
        }
    } else {
        PRes::Done { v: acc, next: i }
    }
}

/// expr ::= term ((Plus | Minus) term)*, folded left.
pub open spec fn spec_expr(ts: Seq<(int, TokenV, int)>, i: int) -> PRes
    decreases ts.len() - i, 2int,
{
    if !(0 <= i && i < ts.len()) {
        PRes::Fail {
            e: ParseErrV::UnrecognizedEof { location: eof_loc(ts), expected: exp_factor() },
        }
    } else {
        match spec_term(ts, i) {
            PRes::Done { v, next } => spec_expr_rest(
                ts,
                step_pos(ts.len() as int, next, i + 1),
                v,
            ),
            f => f,
        }
    }
}

/// The `(Plus | Minus) term` tail of an expression.
pub open spec fn spec_expr_rest(ts: Seq<(int, TokenV, int)>, i: int, acc: i64) -> PRes
    decreases ts.len() - i, 0int,
{
    if 0 <= i && i < ts.len() && (ts[i].1 is Plus || ts[i].1 is Minus) {
        let add = ts[i].1 is Plus;
        match spec_term(ts, i + 1) {
            PRes::Done { v, next } => {
                let np = step_pos(ts.len() as int, next, i + 2);
                if add {
                    spec_expr_rest(ts, np, acc.wrapping_add(v))
                } else {
                    spec_expr_rest(ts, np, acc.wrapping_sub(v))
                }
            },
            f => f,
        }
    } else {
        PRes::Done { v: acc, next: i }
    }
}

/// What parsing a whole token stream returns: the value of the expression
/// it spells, or the first structured failure.  A stream is accepted
/// exactly when it derives `expr` and nothing follows it.
pub open spec fn spec_parse(ts: Seq<(int, TokenV, int)>) -> Result<i64, ParseErrV> {
    match spec_expr(ts, 0) {
        PRes::Done { v, next } => {
            let np = step_pos(ts.len() as int, next, 0);
            if np < ts.len() {
                Result::Err(
                    ParseErrV::UnrecognizedToken {
                        start: ts[np].0,
                        token: ts[np].1,
                        end: ts[np].2,
                        expected: exp_op_top(),
                    },
                )
            } else {
                Result::Ok(v)
            }
        },
        PRes::Fail { e } => Result::Err(e),
    }
}


fn copy_wrapped(w: &WrappedInt) -> (r: WrappedInt)
    ensures
        r@ == w@,
{
    match w {
        WrappedInt::Int(v) => WrappedInt::Int(*v),
        WrappedInt::Overflow(m) => WrappedInt::Overflow(m.clone()),
    }
}

fn copy_token(t: &Token) -> (r: Token)
    ensures
        r@ == t@,
{
    match t {
        Token::LParen => Token::LParen,
        Token::RParen => Token::RParen,
        Token::Plus => Token::Plus,
        Token::Minus => Token::Minus,
        Token::Star => Token::Star,
        Token::Slash => Token::Slash,
        Token::Integer(w) => Token::Integer(copy_wrapped(w)),
        Token::RawError => Token::RawError,
        Token::Error(s) => Token::Error(s.clone()),
    }
}

fn expected_factor() -> (r: Vec<String>)
    ensures
        strs_view(r@) == exp_factor(),
{
    let mut v: Vec<String> = Vec::new();
    v.push("Integer".to_owned());
    v.push("LParen".to_owned());
    proof {
        assert(strs_view(v@) =~= exp_factor());
    }
    v
}

fn expected_op_paren() -> (r: Vec<String>)
    ensures
        strs_view(r@) == exp_op_paren(),
{
    let mut v: Vec<String> = Vec::new();
    v.push("Minus".to_owned());
    v.push("Plus".to_owned());
    v.push("RParen".to_owned());
    v.push("Slash".to_owned());
    v.push("Star".to_owned());
    proof {
        assert(strs_view(v@) =~= exp_op_paren());
    }
    v
}

fn expected_op_top() -> (r: Vec<String>)
    ensures
        strs_view(r@) == exp_op_top(),
{
    let mut v: Vec<String> = Vec::new();
    v.push("Minus".to_owned());
    v.push("Plus".to_owned());
    v.push("Slash".to_owned());
    v.push("Star".to_owned());
    proof {
        assert(strs_view(v@) =~= exp_op_top());
    }
    v
}

fn eof_location(ts: &Vec<(usize, Token, usize)>) -> (r: usize)
    ensures
        r as int == eof_loc(triples_view(ts@)),
{
    let n = ts.len();
    if n == 0 {
        0
    } else {
        let r = ts[n - 1].2;
        proof {
            assert(triples_view(ts@).last() == (ts@[n - 1 as int].0 as int, ts@[n - 1 as int].1@,
            ts@[n - 1 as int].2 as int));
        }
        r
    }
}

/// Parse one factor starting at token `i`.
pub fn parse_factor(ts: &Vec<(usize, Token, usize)>, i: usize) -> (r: Result<
    (i64, usize),
    ParseErr,
>)
    requires
        i <= ts@.len(),
    ensures
        match spec_factor(triples_view(ts@), i as int) {
            PRes::Done { v, next } => r matches Ok(p) && p.0 == v && p.1 as int == next && i < p.1
                <= ts@.len(),
            PRes::Fail { e } => r matches Err(pe) && pe@ == e,
        },
    decreases ts@.len() - i, 0int,
{
    let ghost tv = triples_view(ts@);
    if i >= ts.len() {
        return Err(
            ParseErr::UnrecognizedEof { location: eof_location(ts), expected: expected_factor() },
        );
    }
    let t = &ts[i];
    proof {
        assert(tv[i as int] == (t.0 as int, t.1@, t.2 as int));
    }
    match &t.1 {
        Token::Integer(w) => match w {
            WrappedInt::Int(v) => Ok((*v, i + 1)),
            WrappedInt::Overflow(m) => Err(ParseErr::User { error: m.clone() }),
        },
        Token::LParen => {
            match parse_expr(ts, i + 1) {
                Ok((v, next)) => {
                    proof {
                        assert(step_pos(tv.len() as int, next as int, i + 2 as int)
                            == next as int);
                    }
                    if next < ts.len() {
                        let u = &ts[next];
                        proof {
                            assert(tv[next as int] == (u.0 as int, u.1@, u.2 as int));
                        }
                        match &u.1 {
                            Token::RParen => Ok((v, next + 1)),
                            _ => Err(
                                ParseErr::UnrecognizedToken {
                                    start: u.0,
                                    token: copy_token(&u.1),
                                    end: u.2,
                                    expected: expected_op_paren(),
                                },
                            ),
                        }
                    } else {
                        Err(
                            ParseErr::UnrecognizedEof {
                                location: eof_location(ts),
                                expected: expected_op_paren(),
                            },
                        )
                    }
                },
                Err(e) => Err(e),
            }
        },
        _ => Err(
            ParseErr::UnrecognizedToken {
                start: t.0,
                token: copy_token(&t.1),
                end: t.2,
                expected: expected_factor(),
            },
        ),
    }
}

/// Parse one term (factors joined by `*` and `/`) starting at token `i`.
pub fn parse_term(ts: &Vec<(usize, Token, usize)>, i: usize) -> (r: Result<(i64, usize), ParseErr>)
    requires
        i <= ts@.len(),
    ensures
        match spec_term(triples_view(ts@), i as int) {
            PRes::Done { v, next } => r matches Ok(p) && p.0 == v && p.1 as int == next && i < p.1
                <= ts@.len(),
            PRes::Fail { e } => r matches Err(pe) && pe@ == e,
        },
    decreases ts@.len() - i, 1int,
{
    let ghost tv = triples_view(ts@);
    if i >= ts.len() {
        return Err(
            ParseErr::UnrecognizedEof { location: eof_location(ts), expected: expected_factor() },
        );
    }
    match parse_factor(ts, i) {
        Ok((v, next)) => {
            proof {
                assert(step_pos(tv.len() as int, next as int, i + 1 as int) == next as int);
            }
            parse_term_rest(ts, next, v)
        },
        Err(e) => Err(e),
    }
}

/// Fold the `(Star | Slash) factor` tail of a term into `acc`.
pub fn parse_term_rest(ts: &Vec<(usize, Token, usize)>, i: usize, acc: i64) -> (r: Result<
    (i64, usize),
    ParseErr,
>)
    requires
        i <= ts@.len(),
    ensures
        match spec_term_rest(triples_view(ts@), i as int, acc) {
            PRes::Done { v, next } => r matches Ok(p) && p.0 == v && p.1 as int == next && i <= p.1
                <= ts@.len(),
            PRes::Fail { e } => r matches Err(pe) && pe@ == e,
        },
    decreases ts@.len() - i, 0int,
{
    let ghost tv = triples_view(ts@);
    if i >= ts.len() {
        return Ok((acc, i));
    }
    let t = &ts[i];
    proof {
        assert(tv[i as int] == (t.0 as int, t.1@, t.2 as int));
    }
    let op_mul: bool;
    match &t.1 {
        Token::Star => {
            op_mul = true;
        },
        Token::Slash => {
            op_mul = false;
        },
        _ => {
            return Ok((acc, i));
        },
    }
    match parse_factor(ts, i + 1) {
        Ok((v, next)) => {
            proof {
                assert(step_pos(tv.len() as int, next as int, i + 2 as int) == next as int);
            }
            if op_mul {
                parse_term_rest(ts, next, acc.wrapping_mul(v))
            } else if v == 0 {
                Err(ParseErr::DivisionByZero)
            } else {
                let q = match acc.checked_div(v) {
                    Some(q) => q,
                    None => i64::MIN,
                };
                parse_term_rest(ts, next, q)
            }
        },
        Err(e) => Err(e),
    }
}

/// Parse one expression (terms joined by `+` and `-`) starting at `i`.
pub fn parse_expr(ts: &Vec<(usize, Token, usize)>, i: usize) -> (r: Result<(i64, usize), ParseErr>)
    requires
        i <= ts@.len(),
    ensures
        match spec_expr(triples_view(ts@), i as int) {
            PRes::Done { v, next } => r matches Ok(p) && p.0 == v && p.1 as int == next && i < p.1
                <= ts@.len(),
            PRes::Fail { e } => r matches Err(pe) && pe@ == e,
        },
    decreases ts@.len() - i, 2int,
{
    let ghost tv = triples_view(ts@);
    if i >= ts.len() {
        return Err(
            ParseErr::UnrecognizedEof { location: eof_location(ts), expected: expected_factor() },
        );
    }
    match parse_term(ts, i) {
        Ok((v, next)) => {
            proof {
                assert(step_pos(tv.len() as int, next as int, i + 1 as int) == next as int);
            }
            parse_expr_rest(ts, next, v)
        },
        Err(e) => Err(e),
    }
}

/// Fold the `(Plus | Minus) term` tail of an expression into `acc`.
pub fn parse_expr_rest(ts: &Vec<(usize, Token, usize)>, i: usize, acc: i64) -> (r: Result<
    (i64, usize),
    ParseErr,
>)
    requires
        i <= ts@.len(),
    ensures
        match spec_expr_rest(triples_view(ts@), i as int, acc) {
            PRes::Done { v, next } => r matches Ok(p) && p.0 == v && p.1 as int == next && i <= p.1
                <= ts@.len(),
            PRes::Fail { e } => r matches Err(pe) && pe@ == e,
        },
    decreases ts@.len() - i, 0int,
{
    let ghost tv = triples_view(ts@);
    if i >= ts.len() {
        return Ok((acc, i));
    }
    let t = &ts[i];
    proof {
        assert(tv[i as int] == (t.0 as int, t.1@, t.2 as int));
    }
    let op_add: bool;
    match &t.1 {
        Token::Plus => {
            op_add = true;
        },
        Token::Minus => {
            op_add = false;
        },
        _ => {
            return Ok((acc, i));
        },
    }
    match parse_term(ts, i + 1) {
        Ok((v, next)) => {
            proof {
                assert(step_pos(tv.len() as int, next as int, i + 2 as int) == next as int);
            }
            if op_add {
                parse_expr_rest(ts, next, acc.wrapping_add(v))
            } else {
                parse_expr_rest(ts, next, acc.wrapping_sub(v))
            }
        },
        Err(e) => Err(e),
    }
}

/// Parse a whole token stream: the value of the expression it spells, or
/// the first structured failure.
pub fn parse_tokens(ts: &Vec<(usize, Token, usize)>) -> (r: Result<i64, ParseErr>)
    ensures
        match spec_parse(triples_view(ts@)) {
            Result::Ok(v) => r matches Ok(x) && x == v,
            Result::Err(e) => r matches Err(pe) && pe@ == e,
        },
{
    let ghost tv = triples_view(ts@);
    match parse_expr(ts, 0) {
        Ok((v, next)) => {
            proof {
                assert(step_pos(tv.len() as int, next as int, 0int) == next as int);
            }
            if next < ts.len() {
                let u = &ts[next];
                proof {
                    assert(tv[next as int] == (u.0 as int, u.1@, u.2 as int));
                }
                Err(
                    ParseErr::UnrecognizedToken {
                        start: u.0,
                        token: copy_token(&u.1),
                        end: u.2,
                        expected: expected_op_top(),
                    },
                )
            } else {
                Ok(v)
            }
        },
        Err(e) => Err(e),
    }
}

} // verus!
