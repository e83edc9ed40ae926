//! An interactive calculator's verified core: a tokenizer that turns one
//! line of text into typed tokens with byte spans, a bridge that reshapes
//! the token stream into `(start, token, end)` triples, a
//! precedence-climbing parser and evaluator over those triples, and the
//! formatting of results and error messages.

pub mod lexer;
pub mod message;
pub mod parser;
pub mod text;
pub mod token;

use vstd::prelude::*;
use vstd::string::*;

verus! {

/// The reply to one line of input.
///
/// A line holding nothing but whitespace yields no tokens and gets `None`:
/// no output, and nothing worth recording.  Any other line gets the line
/// to print: the value of the expression it spells, or `Error: ` followed
/// by the message of the first failure.
pub fn respond(line: &str) -> (r: Option<String>)
    ensures
        match r {
            None => lexer::spec_tokens(line.spec_bytes(), 0).len() == 0,
            Some(out) => lexer::spec_tokens(line.spec_bytes(), 0).len() > 0 && out@
                == message::result_line(
                parser::spec_parse(lexer::bridged_tokens(line.spec_bytes(), 0)),
            ),
        },
{
    let ghost s = line.spec_bytes();
    let ts = lexer::tokenize(line);
    proof {
        assert(lexer::triples_view(ts@).len() == ts@.len());
        assert(lexer::bridged_tokens(s, 0).len() == lexer::spec_tokens(s, 0).len());
    }
    if ts.len() == 0 {
        None
    } else {
        let pr = parser::parse_tokens(&ts);
        let out = message::render(&pr);
        proof {
            assert(lexer::triples_view(ts@) == lexer::bridged_tokens(s, 0));
            assert(message::parse_view(pr) == parser::spec_parse(lexer::bridged_tokens(s, 0)));
        }
        Some(out)
    }
}

} // verus!
