//! User-facing output: the decimal rendering of a result and the one-line
//! message for each structured failure.

use vstd::prelude::*;
use vstd::string::*;

use crate::parser::{strs_view, ParseErr, ParseErrV};
use crate::token::{Token, TokenV, WrappedInt};

verus! {

/// The decimal digit character for `d`.
pub open spec fn digit_char(d: int) -> char
    recommends
        0 <= d < 10,
{
    (48 + d) as char
}

/// Decimal rendering of a nonnegative number, most significant digit
/// first, no leading zero except for zero itself.
pub open spec fn dec_nat(n: int) -> Seq<char>
    recommends
        n >= 0,
    decreases n,
{
    if n < 10 {
        seq![digit_char(n)]
    } else {
        dec_nat(n / 10) + seq![digit_char(n % 10)]
    }
}

/// Decimal rendering of an `i64`, with a leading `-` when negative.
pub open spec fn dec_i64(v: i64) -> Seq<char> {
    if v >= 0 {
        dec_nat(v as int)
    } else {
        seq!['-'] + dec_nat(-(v as int))
    }
}

fn append_digit(s: &mut String, d: u64)
    requires
        d < 10,
    ensures
        final(s)@ == old(s)@ + seq![digit_char(d as int)],
{
    if d == 0 {
        s.append("0");
        proof {
            reveal_strlit("0");
            assert(final(s)@ =~= old(s)@ + seq![digit_char(0)]);
        }
    } else if d == 1 {
        s.append("1");
        proof {
            reveal_strlit("1");
            assert(final(s)@ =~= old(s)@ + seq![digit_char(1)]);
        }
    } else if d == 2 {
        s.append("2");
        proof {
            reveal_strlit("2");
            assert(final(s)@ =~= old(s)@ + seq![digit_char(2)]);
        }
    } else if d == 3 {
        s.append("3");
        proof {
            reveal_strlit("3");
            assert(final(s)@ =~= old(s)@ + seq![digit_char(3)]);
        }
    } else if d == 4 {
        s.append("4");
        proof {
            reveal_strlit("4");
            assert(final(s)@ =~= old(s)@ + seq![digit_char(4)]);
        }
    } else if d == 5 {
        s.append("5");
        proof {
            reveal_strlit("5");
            assert(final(s)@ =~= old(s)@ + seq![digit_char(5)]);
        }
    } else if d == 6 {
        s.append("6");
        proof {
            reveal_strlit("6");
            assert(final(s)@ =~= old(s)@ + seq![digit_char(6)]);
        }
    } else if d == 7 {
        s.append("7");
        proof {
            reveal_strlit("7");
            assert(final(s)@ =~= old(s)@ + seq![digit_char(7)]);
        }
    } else if d == 8 {
        s.append("8");
        proof {
            reveal_strlit("8");
            assert(final(s)@ =~= old(s)@ + seq![digit_char(8)]);
        }
    } else {
        s.append("9");
        proof {
            reveal_strlit("9");
            assert(final(s)@ =~= old(s)@ + seq![digit_char(9)]);
        }
    }
}

/// Decimal rendering of a `u64`.
pub fn u64_string(n: u64) -> (r: String)
    ensures
        r@ == dec_nat(n as int),
    decreases n,
{
    if n < 10 {
        let mut s = String::new();
        append_digit(&mut s, n);
        proof {
            assert(s@ =~= dec_nat(n as int));
        }
        s
    } else {
        let mut s = u64_string(n / 10);
        append_digit(&mut s, n % 10);
        proof {
            assert(s@ =~= dec_nat(n as int));
        }
        s
    }
}

/// Decimal rendering of an `i64`.
pub fn i64_string(v: i64) -> (r: String)
    ensures
        r@ == dec_i64(v),
{
    if v >= 0 {
        u64_string(v as u64)
    } else {
        let m: u64 = ((-(v + 1)) as u64) + 1;
        proof {
            assert(m as int == -(v as int));
        }
        let mut s = "-".to_owned();
        let tail = u64_string(m);
        s.append(tail.as_str());
        proof {
            reveal_strlit("-");
            assert(s@ =~= dec_i64(v));
        }
        s
    }
}

/// The description of a token used in "unexpected token" messages; an
/// `Error` token is described by the slice it carries.
pub open spec fn token_text(t: TokenV) -> Seq<char> {
    match t {
        TokenV::LParen => "LParen"@,
        TokenV::RParen => "RParen"@,
        TokenV::Plus => "Plus"@,
        TokenV::Minus => "Minus"@,
        TokenV::Star => "Star"@,
        TokenV::Slash => "Slash"@,
        TokenV::Integer(lit) => match lit {
            crate::token::IntLitV::Int(v) => "Integer(Int("@ + dec_i64(v) + "))"@,
            crate::token::IntLitV::Overflow(m) => "Integer(Overflow("@ + m + "))"@,
        },
        TokenV::RawError => "RawError"@,
        TokenV::Error(m) => m,
    }
}

/// Printable description of a token.
pub fn describe_token(t: &Token) -> (r: String)
    ensures
        r@ == token_text(t@),
{
    match t {
        Token::LParen => "LParen".to_owned(),
        Token::RParen => "RParen".to_owned(),
        Token::Plus => "Plus".to_owned(),
        Token::Minus => "Minus".to_owned(),
        Token::Star => "Star".to_owned(),
        Token::Slash => "Slash".to_owned(),
        Token::Integer(w) => match w {
            WrappedInt::Int(v) => {
                let mut s = "Integer(Int(".to_owned();
                let num = i64_string(*v);
                s.append(num.as_str());
                s.append("))");
                proof {
                    assert(s@ =~= token_text(t@));
                }
                s
            },
            WrappedInt::Overflow(m) => {
                let mut s = "Integer(Overflow(".to_owned();
                s.append(m.as_str());
                s.append("))");
                proof {
                    assert(s@ =~= token_text(t@));
                }
                s
            },
        },
        Token::RawError => "RawError".to_owned(),
        Token::Error(m) => m.clone(),
    }
}

/// The comma-separated joining of a list of names.
pub open spec fn join_names(xs: Seq<Seq<char>>) -> Seq<char>
    decreases xs.len(),
{
    if xs.len() == 0 {
        Seq::empty()
    } else if xs.len() == 1 {
        xs[0]
    } else {
        xs[0] + ", "@ + join_names(xs.subrange(1, xs.len() as int))
    }
}

fn join_from(xs: &Vec<String>, i: usize) -> (r: String)
    requires
        i <= xs@.len(),
    ensures
        r@ == join_names(strs_view(xs@).subrange(i as int, xs@.len() as int)),
    decreases xs@.len() - i,
{
    let ghost ss = strs_view(xs@);
    let ghost sub = ss.subrange(i as int, xs@.len() as int);
    let n = xs.len();
    if i >= n {
        let r = String::new();
        proof {
            assert(r@ =~= join_names(sub));
        }
        r
    } else if i + 1 == n {
        let r = xs[i].clone();
        proof {
            assert(sub[0] == ss[i as int]);
            assert(r@ =~= join_names(sub));
        }
        r
    } else {
        let mut s = xs[i].clone();
        s.append(", ");
        let tail = join_from(xs, i + 1);
        s.append(tail.as_str());
        proof {
            assert(sub.subrange(1, sub.len() as int) =~= ss.subrange(
                i + 1 as int,
                xs@.len() as int,
            ));
            assert(sub[0] == ss[i as int]);
            assert(s@ =~= join_names(sub));
        }
        s
    }
}

/// Comma-separated joining of the expected-token names.
pub fn join_strings(xs: &Vec<String>) -> (r: String)
    ensures
        r@ == join_names(strs_view(xs@)),
{
    let r = join_from(xs, 0);
    proof {
        assert(strs_view(xs@).subrange(0, xs@.len() as int) =~= strs_view(xs@));
    }
    r
}

/// The message each failure prints after `Error: `.
pub open spec fn err_msg(e: ParseErrV) -> Seq<char> {
    match e {
        ParseErrV::User { error } => error,
        ParseErrV::UnrecognizedToken { start, token, end, expected } => "Unexpected token "@
            + token_text(token) + ", expected: "@ + join_names(expected),
        ParseErrV::UnrecognizedEof { location, expected } => "Unexpected end of input, expected: "@
            + join_names(expected),
        ParseErrV::DivisionByZero => "division by zero"@,
    }
}

/// View of a finished parse.
pub open spec fn parse_view(r: Result<i64, ParseErr>) -> Result<i64, ParseErrV> {
    match r {
        Result::Ok(v) => Result::Ok(v),
        Result::Err(e) => Result::Err(e@),
    }
}

/// The full line printed for a finished parse: the value in decimal, or
/// `Error: ` followed by the failure's message.
pub open spec fn result_line(pr: Result<i64, ParseErrV>) -> Seq<char> {
    match pr {
        Result::Ok(v) => dec_i64(v),
        Result::Err(e) => "Error: "@ + err_msg(e),
    }
}

/// Render a finished parse as the line to print.
pub fn render(r: &Result<i64, ParseErr>) -> (out: String)
    ensures
        out@ == result_line(parse_view(*r)),
{
    match r {
        Ok(v) => i64_string(*v),
        Err(e) => {
            let mut s = "Error: ".to_owned();
            match e {
                ParseErr::User { error } => {
                    s.append(error.as_str());
                },
                ParseErr::UnrecognizedToken { token, expected, .. } => {
                    s.append("Unexpected token ");
                    let desc = describe_token(token);
                    s.append(desc.as_str());
                    s.append(", expected: ");
                    let names = join_strings(expected);
                    s.append(names.as_str());
                },
                ParseErr::UnrecognizedEof { expected, .. } => {
                    s.append("Unexpected end of input, expected: ");
                    let names = join_strings(expected);
                    s.append(names.as_str());
                },
                ParseErr::DivisionByZero => {
                    s.append("division by zero");
                },
            }
            proof {
                assert(s@ =~= result_line(parse_view(*r)));
            }
            s
        },
    }
}

} // verus!
