//! The tokenizer and the token-stream bridge.
//!
//! The scanner walks the bytes of one input line and produces, one at a
//! time, tokens paired with their half-open byte spans.  Recognition rules,
//! in priority order: the six single-character tokens, a maximal run of
//! ASCII digits (an integer literal), a maximal run of whitespace (skipped,
//! no token), and otherwise a maximal run of bytes matching none of the
//! above, emitted as the internal `RawError` signal.  The bridge replaces
//! that signal with a public `Error` token carrying the offending slice.

use vstd::prelude::*;
use vstd::string::*;

use crate::text::{ascii_chars, bytes_to_string, decoded, is_ascii_bytes};
use crate::token::{IntLitV, Token, TokenV, WrappedInt};

verus! {

/// The whitespace bytes the scanner skips: space, CR, VT, TAB, LF, FF.
pub open spec fn is_ws_byte(b: u8) -> bool {
    b == 32 || b == 13 || b == 11 || b == 9 || b == 10 || b == 12
}

/// ASCII digit.
pub open spec fn is_digit_byte(b: u8) -> bool {
    48 <= b <= 57
}

/// One of the six single-character tokens `( ) + - * /`.
pub open spec fn is_single_byte(b: u8) -> bool {
    b == 40 || b == 41 || b == 43 || b == 45 || b == 42 || b == 47
}

/// The token a single-character byte stands for.
pub open spec fn single_token(b: u8) -> TokenV {
    if b == 40 {
        TokenV::LParen
    } else if b == 41 {
        TokenV::RParen
    } else if b == 43 {
        TokenV::Plus
    } else if b == 45 {
        TokenV::Minus
    } else if b == 42 {
        TokenV::Star
    } else {
        TokenV::Slash
    }
}

/// A byte at which some recognition rule (token or whitespace) starts.
pub open spec fn is_token_start(b: u8) -> bool {
    is_single_byte(b) || is_digit_byte(b) || is_ws_byte(b)
}

/// End of the maximal whitespace run beginning at `i`.
pub open spec fn ws_end(s: Seq<u8>, i: int) -> int
    decreases s.len() - i,
{
    if 0 <= i && i < s.len() && is_ws_byte(s[i]) {
        ws_end(s, i + 1)
    } else {
        i
    }
}

/// End of the maximal digit run beginning at `i`.
pub open spec fn digit_end(s: Seq<u8>, i: int) -> int
    decreases s.len() - i,
{
    if 0 <= i && i < s.len() && is_digit_byte(s[i]) {
        digit_end(s, i + 1)
    } else {
        i
    }
}

/// End of the maximal run of unrecognizable bytes beginning at `i`.
pub open spec fn err_end(s: Seq<u8>, i: int) -> int
    decreases s.len() - i,
{
    if 0 <= i && i < s.len() && !is_token_start(s[i]) {
        err_end(s, i + 1)
    } else {
        i
    }
}

/// The value of a digit run read as a decimal number.
pub open spec fn digits_val(s: Seq<u8>) -> int
    decreases s.len(),
{
    if s.len() == 0 {
        0
    } else {
        digits_val(s.drop_last()) * 10 + (s.last() - 48)
    }
}

/// The message carried by a literal whose value does not fit in `i64`.
pub open spec fn too_large_msg(run: Seq<u8>) -> Seq<char> {
    ascii_chars(run) + " is too large"@
}

/// The literal a digit run turns into: its value when it fits in `i64`,
/// else the overflow message quoting the run verbatim.
pub open spec fn int_lit_of(run: Seq<u8>) -> IntLitV {
    if digits_val(run) <= i64::MAX {
        IntLitV::Int(digits_val(run) as i64)
    } else {
        IntLitV::Overflow(too_large_msg(run))
    }
}

/// The token the scanner yields at cursor `i`, with its span: whitespace
/// before the token is skipped, and `None` means the line is exhausted.
pub open spec fn spec_next(s: Seq<u8>, i: int) -> Option<(int, TokenV, int)> {
    let p = ws_end(s, i);
    if p >= s.len() {
        None
    } else {
        let b = s[p];
        if is_single_byte(b) {
            Some((p, single_token(b), p + 1))
        } else if is_digit_byte(b) {
            let e = digit_end(s, p);
            Some((p, TokenV::Integer(int_lit_of(s.subrange(p, e))), e))
        } else {
            Some((p, TokenV::RawError, err_end(s, p)))
        }
    }
}

/// `next`, clamped into `[lo, len]`; the scanner always reports an end
/// inside that interval, so the clamp is the identity where it is used.
pub open spec fn step_pos(len: int, next: int, lo: int) -> int {
    let p = if next < lo {
        lo
    } else {
        next
    };
    if p > len {
        len
    } else {
        p
    }
}

/// The whole (finite) token sequence of the line from cursor `i` on.
pub open spec fn spec_tokens(s: Seq<u8>, i: int) -> Seq<(int, TokenV, int)>
    decreases s.len() - i,
{
    if 0 <= i && i < s.len() {
        match spec_next(s, i) {
            Some(t) => seq![t] + spec_tokens(s, step_pos(s.len() as int, t.2, i + 1)),
            None => Seq::empty(),
        }
    } else {
        Seq::empty()
    }
}

/// The rewrite the bridge applies to each scanned token: the internal
/// `RawError` signal becomes a public `Error` carrying the decoded slice.
pub open spec fn bridge_token(s: Seq<u8>, t: (int, TokenV, int)) -> (int, TokenV, int) {
    match t.1 {
        TokenV::RawError => (t.0, TokenV::Error(decoded(s.subrange(t.0, t.2))), t.2),
        _ => t,
    }
}

/// The token sequence as the bridge hands it out.
pub open spec fn bridged_tokens(s: Seq<u8>, i: int) -> Seq<(int, TokenV, int)> {
    spec_tokens(s, i).map(|k: int, t: (int, TokenV, int)| bridge_token(s, t))
}

pub proof fn lemma_ws_end(s: Seq<u8>, i: int)
    requires
        0 <= i <= s.len(),
    ensures
        i <= ws_end(s, i) <= s.len(),
        forall|k: int| i <= k < ws_end(s, i) ==> is_ws_byte(s[k]),
        ws_end(s, i) < s.len() ==> !is_ws_byte(s[ws_end(s, i)]),
    decreases s.len() - i,
{
    if i < s.len() && is_ws_byte(s[i]) {
        lemma_ws_end(s, i + 1);
    }
}

pub proof fn lemma_ws_end_is(s: Seq<u8>, i: int, p: int)
    requires
        0 <= i <= p <= s.len(),
        forall|k: int| i <= k < p ==> is_ws_byte(s[k]),
        p < s.len() ==> !is_ws_byte(s[p]),
    ensures
        ws_end(s, i) == p,
    decreases p - i,
{
    if i < p {
        lemma_ws_end_is(s, i + 1, p);
    }
}

pub proof fn lemma_digit_end(s: Seq<u8>, i: int)
    requires
        0 <= i <= s.len(),
    ensures
        i <= digit_end(s, i) <= s.len(),
        forall|k: int| i <= k < digit_end(s, i) ==> is_digit_byte(s[k]),
        digit_end(s, i) < s.len() ==> !is_digit_byte(s[digit_end(s, i)]),
    decreases s.len() - i,
{
    if i < s.len() && is_digit_byte(s[i]) {
        lemma_digit_end(s, i + 1);
    }
}

pub proof fn lemma_digit_end_is(s: Seq<u8>, i: int, p: int)
    requires
        0 <= i <= p <= s.len(),
        forall|k: int| i <= k < p ==> is_digit_byte(s[k]),
        p < s.len() ==> !is_digit_byte(s[p]),
    ensures
        digit_end(s, i) == p,
    decreases p - i,
{
    if i < p {
        lemma_digit_end_is(s, i + 1, p);
    }
}

pub proof fn lemma_err_end(s: Seq<u8>, i: int)
    requires
        0 <= i <= s.len(),
    ensures
        i <= err_end(s, i) <= s.len(),
        forall|k: int| i <= k < err_end(s, i) ==> !is_token_start(s[k]),
        err_end(s, i) < s.len() ==> is_token_start(s[err_end(s, i)]),
    decreases s.len() - i,
{
    if i < s.len() && !is_token_start(s[i]) {
        lemma_err_end(s, i + 1);
    }
}

pub proof fn lemma_err_end_is(s: Seq<u8>, i: int, p: int)
    requires
        0 <= i <= p <= s.len(),
        forall|k: int| i <= k < p ==> !is_token_start(s[k]),
        p < s.len() ==> is_token_start(s[p]),
    ensures
        err_end(s, i) == p,
    decreases p - i,
{
    if i < p {
        lemma_err_end_is(s, i + 1, p);
    }
}

pub proof fn lemma_digits_val_nonneg(s: Seq<u8>)
    requires
        forall|k: int| 0 <= k < s.len() ==> is_digit_byte(s[k]),
    ensures
        digits_val(s) >= 0,
    decreases s.len(),
{
    if s.len() > 0 {
        lemma_digits_val_nonneg(s.drop_last());
    }
}

/// Every token the scanner reports lies inside the line, strictly after
/// the cursor's whitespace gap, and that gap is whitespace only; when no
/// token is left, everything from the cursor on is whitespace.
pub proof fn lemma_spec_next(s: Seq<u8>, i: int)
    requires
        0 <= i <= s.len(),
    ensures
        match spec_next(s, i) {
            Some(t) => i <= t.0 && t.0 < t.2 <= s.len() && (forall|k: int|
                i <= k < t.0 ==> is_ws_byte(s[k])),
            None => forall|k: int| i <= k < s.len() ==> is_ws_byte(s[k]),
        },
{
    lemma_ws_end(s, i);
    let p = ws_end(s, i);
    if p < s.len() {
        let b = s[p];
        if is_single_byte(b) {
        } else if is_digit_byte(b) {
            lemma_digit_end(s, p);
            assert(digit_end(s, p) == p ==> !is_digit_byte(s[p]));
        } else {
            lemma_err_end(s, p);
            assert(err_end(s, p) == p ==> is_token_start(s[p]));
        }
    }
}

/// Unfolding of `spec_tokens` without the termination clamp.
pub proof fn lemma_spec_tokens_unfold(s: Seq<u8>, i: int)
    requires
        0 <= i <= s.len(),
    ensures
        spec_tokens(s, i) == match spec_next(s, i) {
            Some(t) => seq![t] + spec_tokens(s, t.2),
            None => Seq::<(int, TokenV, int)>::empty(),
        },
{
    lemma_spec_next(s, i);
    if i == s.len() {
        assert(ws_end(s, i) == i);
    } else {
        match spec_next(s, i) {
            Some(t) => {
                assert(step_pos(s.len() as int, t.2, i + 1) == t.2);
            },
            None => {},
        }
    }
}

/// The scanned token sequence is empty exactly when the line holds nothing
/// but whitespace.
pub proof fn lemma_no_tokens_iff_blank(s: Seq<u8>)
    ensures
        spec_tokens(s, 0).len() == 0 <==> (forall|k: int| 0 <= k < s.len() ==> is_ws_byte(s[k])),
{
    lemma_spec_tokens_unfold(s, 0);
    lemma_spec_next(s, 0);
    lemma_ws_end(s, 0);
}


fn ws_byte(b: u8) -> (r: bool)
    ensures
        r == is_ws_byte(b),
{
    b == 32 || b == 13 || b == 11 || b == 9 || b == 10 || b == 12
}

fn digit_byte(b: u8) -> (r: bool)
    ensures
        r == is_digit_byte(b),
{
    48 <= b && b <= 57
}

fn single_byte(b: u8) -> (r: bool)
    ensures
        r == is_single_byte(b),
{
    b == 40 || b == 41 || b == 43 || b == 45 || b == 42 || b == 47
}

fn token_start_byte(b: u8) -> (r: bool)
    ensures
        r == is_token_start(b),
{
    single_byte(b) || digit_byte(b) || ws_byte(b)
}

/// The scanner: the bytes of one line and a cursor that only moves forward.
pub struct Lexer {
    bytes: Vec<u8>,
    pos: usize,
}

impl Lexer {
    /// The bytes of the line being scanned.
    pub closed spec fn src(&self) -> Seq<u8> {
        self.bytes@
    }

    /// The cursor: everything before it has already been scanned.
    pub closed spec fn cursor(&self) -> int {
        self.pos as int
    }

    /// The cursor never leaves the line.
    pub open spec fn wf(&self) -> bool {
        0 <= self.cursor() <= self.src().len()
    }

    pub fn new(source: &str) -> (r: Lexer)
        ensures
            r.src() == source.spec_bytes(),
            r.cursor() == 0,
            r.wf(),
    {
        Lexer { bytes: source.as_bytes_vec(), pos: 0 }
    }

    /// Copy of the byte range `[a, b)` of the line.
    pub fn slice_bytes(&self, a: usize, b: usize) -> (r: Vec<u8>)
        requires
            a <= b <= self.src().len(),
        ensures
            r@ == self.src().subrange(a as int, b as int),
    {
        let mut r: Vec<u8> = Vec::new();
        let mut q: usize = a;
        while q < b
            invariant
                a <= q <= b <= self.src().len(),
                r@ == self.src().subrange(a as int, q as int),
            decreases b - q,
        {
            r.push(self.bytes[q]);
            proof {
                assert(r@ =~= self.src().subrange(a as int, q + 1 as int));
            }
            q = q + 1;
        }
        r
    }

    /// One scan step: the next token and its span, or `None` once the line
    /// is exhausted.  Unrecognized runs come out as `Token::RawError`.
    pub fn next_raw(&mut self) -> (r: Option<(usize, Token, usize)>)
        requires
            old(self).wf(),
        ensures
            final(self).wf(),
            final(self).src() == old(self).src(),
            match spec_next(old(self).src(), old(self).cursor()) {
                Some(t) => r matches Some(x) && x.0 == t.0 && x.1@ == t.1 && x.2 == t.2
                    && final(self).cursor() == t.2,
                None => r is None && final(self).cursor() == old(self).src().len(),
            },
    {
        let ghost s = self.bytes@;
        let n: usize = self.bytes.len();
        let mut p: usize = self.pos;
        while p < n && ws_byte(self.bytes[p])
            invariant
                old(self).cursor() <= p as int <= n as int,
                self == old(self),
                n == s.len(),
                s == self.bytes@,
                forall|k: int| old(self).cursor() <= k < p as int ==> is_ws_byte(s[k]),
            decreases n - p,
        {
            p = p + 1;
        }
        proof {
            lemma_ws_end_is(s, old(self).cursor(), p as int);
        }
        if p >= n {
            self.pos = n;
            return None;
        }
        let b = self.bytes[p];
        if single_byte(b) {
            let tok = if b == 40 {
                Token::LParen
            } else if b == 41 {
                Token::RParen
            } else if b == 43 {
                Token::Plus
            } else if b == 45 {
                Token::Minus
            } else if b == 42 {
                Token::Star
            } else {
                Token::Slash
            };
            self.pos = p + 1;
            Some((p, tok, p + 1))
        } else if digit_byte(b) {
            let start = p;
            let mut q: usize = p;
            let mut run: Vec<u8> = Vec::new();
            let mut val: i64 = 0;
            let mut overflow: bool = false;
            while q < n && digit_byte(self.bytes[q])
                invariant
                    start as int <= q as int <= n as int,
                    self == old(self),
                    n == s.len(),
                    s == self.bytes@,
                    run@ == s.subrange(start as int, q as int),
                    forall|k: int| start as int <= k < q as int ==> is_digit_byte(s[k]),
                    !overflow ==> 0 <= val == digits_val(s.subrange(start as int, q as int)),
                    overflow ==> digits_val(s.subrange(start as int, q as int)) > i64::MAX,
                decreases n - q,
            {
                let ghost old_run = s.subrange(start as int, q as int);
                let ghost new_run = s.subrange(start as int, q + 1 as int);
                let d = self.bytes[q] - 48;
                proof {
                    assert(new_run.drop_last() =~= old_run);
                    assert(digits_val(new_run) == digits_val(old_run) * 10 + d);
                }
                if !overflow {
                    match val.checked_mul(10) {
                        Some(v10) => match v10.checked_add(d as i64) {
                            Some(v) => { val = v; },
                            None => { overflow = true; },
                        },
                        None => { overflow = true; },
                    }
                } else {
                    proof {
                        assert(digits_val(old_run) * 10 >= digits_val(old_run)) by {
                            assert(digits_val(old_run) > 0);
                        };
                    }
                }
                run.push(self.bytes[q]);
                proof {
                    assert(run@ =~= new_run);
                }
                q = q + 1;
            }
            proof {
                lemma_digit_end_is(s, start as int, q as int);
            }
            let ghost the_run = s.subrange(start as int, q as int);
            let w = if !overflow {
                WrappedInt::Int(val)
            } else {
                let mut msg = bytes_to_string(&run);
                proof {
                    assert(is_ascii_bytes(run@));
                    assert(msg@ == ascii_chars(the_run));
                }
                msg.append(" is too large");
                WrappedInt::Overflow(msg)
            };
            proof {
                assert(w@ == int_lit_of(the_run));
            }
            self.pos = q;
            Some((start, Token::Integer(w), q))
        } else {
            let start = p;
            let mut q: usize = p;
            while q < n && !token_start_byte(self.bytes[q])
                invariant
                    start as int <= q as int <= n as int,
                    self == old(self),
                    n == s.len(),
                    s == self.bytes@,
                    forall|k: int| start as int <= k < q as int ==> !is_token_start(s[k]),
                decreases n - q,
            {
                q = q + 1;
            }
            proof {
                lemma_err_end_is(s, start as int, q as int);
            }
            self.pos = q;
            Some((start, Token::RawError, q))
        }
    }
}


/// Adapter that hands the scanner's tokens out as `(start, token, end)`
/// triples, replacing the internal `RawError` signal with a public
/// `Error` token that carries the offending slice.
pub struct Bridge {
    lexer: Lexer,
}

impl Bridge {
    /// The bytes of the line being scanned.
    pub closed spec fn src(&self) -> Seq<u8> {
        self.lexer.src()
    }

    /// The scanner's cursor.
    pub closed spec fn cursor(&self) -> int {
        self.lexer.cursor()
    }

    pub open spec fn wf(&self) -> bool {
        0 <= self.cursor() <= self.src().len()
    }

    pub fn new(source: &str) -> (r: Bridge)
        ensures
            r.src() == source.spec_bytes(),
            r.cursor() == 0,
            r.wf(),
    {
        Bridge { lexer: Lexer::new(source) }
    }

    /// One pull: the next triple, or `None` once the line is exhausted.
    pub fn next(&mut self) -> (r: Option<(usize, Token, usize)>)
        requires
            old(self).wf(),
        ensures
            final(self).wf(),
            final(self).src() == old(self).src(),
            match spec_next(old(self).src(), old(self).cursor()) {
                Some(t) => r matches Some(x) && x.0 == bridge_token(old(self).src(), t).0
                    && x.1@ == bridge_token(old(self).src(), t).1
                    && x.2 == bridge_token(old(self).src(), t).2
                    && final(self).cursor() == t.2,
                None => r is None && final(self).cursor() == old(self).src().len(),
            },
    {
        proof {
            assert(self.lexer.wf());
        }
        let ghost s = self.lexer.src();
        let ghost i = self.lexer.cursor();
        proof {
            lemma_spec_next(s, i);
        }
        match self.lexer.next_raw() {
            None => None,
            Some((a, tok, b)) => {
                let out = match tok {
                    Token::RawError => {
                        let sl = self.lexer.slice_bytes(a, b);
                        Token::Error(bytes_to_string(&sl))
                    },
                    other => other,
                };
                Some((a, out, b))
            },
        }
    }
}

/// View of an executable triple list as its mathematical token sequence.
pub open spec fn triples_view(r: Seq<(usize, Token, usize)>) -> Seq<(int, TokenV, int)> {
    r.map(|k: int, t: (usize, Token, usize)| (t.0 as int, t.1@, t.2 as int))
}

/// Scan a whole line into its (finite) sequence of bridged tokens.  Every
/// line, whatever its content, yields a result: unrecognized text becomes
/// `Error` tokens, never a failure.
pub fn tokenize(source: &str) -> (r: Vec<(usize, Token, usize)>)
    ensures
        triples_view(r@) == bridged_tokens(source.spec_bytes(), 0),
{
    let ghost s = source.spec_bytes();
    let mut br = Bridge::new(source);
    let mut out: Vec<(usize, Token, usize)> = Vec::new();
    let mut done: bool = false;
    while !done
        invariant
            br.wf(),
            br.src() == s,
            triples_view(out@) + bridged_tokens(s, br.cursor()) == bridged_tokens(s, 0),
            done ==> bridged_tokens(s, br.cursor()).len() == 0,
        decreases s.len() - br.cursor() + (if done { 0int } else { 1int }),
    {
        let ghost i = br.cursor();
        proof {
            lemma_spec_next(s, i);
            lemma_spec_tokens_unfold(s, i);
        }
        match br.next() {
            Some(trip) => {
                proof {
                    let t = spec_next(s, i).unwrap();
                    assert(spec_tokens(s, i) == seq![t] + spec_tokens(s, t.2));
                    assert(bridged_tokens(s, i) =~= seq![bridge_token(s, t)] + bridged_tokens(
                        s,
                        t.2,
                    ));
                    assert(triples_view(out@.push(trip)) =~= triples_view(out@) + seq![
                        bridge_token(s, t),
                    ]);
                }
                out.push(trip);
                proof {
                    assert(triples_view(out@) + bridged_tokens(s, br.cursor()) =~= bridged_tokens(
                        s,
                        0,
                    ));
                }
            },
            None => {
                proof {
                    assert(spec_tokens(s, i) =~= Seq::<(int, TokenV, int)>::empty());
                    assert(bridged_tokens(s, i) =~= Seq::<(int, TokenV, int)>::empty());
                    assert(bridged_tokens(s, br.cursor()) =~= bridged_tokens(s, i));
                }
                done = true;
            },
        }
    }
    proof {
        assert(triples_view(out@) =~= bridged_tokens(s, 0));
    }
    out
}

/// The line as rebuilt from the scan: for each token in order, the
/// whitespace gap before it followed by the token's own slice, and after
/// the last token the trailing whitespace.
pub open spec fn glue(s: Seq<u8>, i: int) -> Seq<u8>
    decreases s.len() - i,
{
    if 0 <= i && i < s.len() {
        match spec_next(s, i) {
            Some(t) => s.subrange(i, t.0) + s.subrange(t.0, t.2) + glue(
                s,
                step_pos(s.len() as int, t.2, i + 1),
            ),
            None => s.subrange(i, s.len() as int),
        }
    } else {
        Seq::empty()
    }
}

/// Span round-trip: concatenating each token's source slice with the
/// skipped whitespace, in order, reproduces the original line exactly; no
/// byte of the line escapes the scan.
pub proof fn lemma_glue_rebuilds(s: Seq<u8>, i: int)
    requires
        0 <= i <= s.len(),
    ensures
        glue(s, i) == s.subrange(i, s.len() as int),
    decreases s.len() - i,
{
    if i < s.len() {
        lemma_spec_next(s, i);
        match spec_next(s, i) {
            Some(t) => {
                assert(step_pos(s.len() as int, t.2, i + 1) == t.2);
                lemma_glue_rebuilds(s, t.2);
                assert(s.subrange(i, t.0) + s.subrange(t.0, t.2) + s.subrange(
                    t.2,
                    s.len() as int,
                ) =~= s.subrange(i, s.len() as int));
            },
            None => {},
        }
    } else {
        assert(glue(s, i) =~= s.subrange(i, s.len() as int));
    }
}


/// A digit run whose value fits in `i64` scans to exactly the value the
/// reference decimal reading `digits_val` gives it.
pub proof fn lemma_literal_value(run: Seq<u8>)
    requires
        digits_val(run) <= i64::MAX,
    ensures
        int_lit_of(run) == IntLitV::Int(digits_val(run) as i64),
{
}

/// A digit run whose value exceeds `i64` scans to the overflow message
/// quoting the run verbatim: `<run> is too large`.
pub proof fn lemma_literal_overflow(run: Seq<u8>)
    requires
        digits_val(run) > i64::MAX,
    ensures
        int_lit_of(run) == IntLitV::Overflow(ascii_chars(run) + " is too large"@),
{
}


/// Spans are well formed and monotone: every token's span lies inside the
/// line and after the cursor, each span is nonempty, and the end of each
/// token comes no later than the start of the one that follows it.  The
/// bridge rewrites only the token, never the span.
pub proof fn lemma_spans_monotone(s: Seq<u8>, i: int)
    requires
        0 <= i <= s.len(),
    ensures
        forall|k: int|
            0 <= k < spec_tokens(s, i).len() ==> {
                let t = #[trigger] spec_tokens(s, i)[k];
                i <= t.0 && t.0 < t.2 <= s.len() && (k + 1 < spec_tokens(s, i).len()
                    ==> t.2 <= spec_tokens(s, i)[k + 1].0)
            },
    decreases s.len() - i,
{
    lemma_spec_tokens_unfold(s, i);
    lemma_spec_next(s, i);
    match spec_next(s, i) {
        Some(t) => {
            lemma_spans_monotone(s, t.2);
            lemma_spec_tokens_unfold(s, t.2);
            lemma_spec_next(s, t.2);
            let ts = spec_tokens(s, i);
            let rest = spec_tokens(s, t.2);
            assert forall|k: int| 0 <= k < ts.len() implies {
                let u = #[trigger] ts[k];
                i <= u.0 && u.0 < u.2 <= s.len() && (k + 1 < ts.len() ==> u.2 <= ts[k + 1].0)
            } by {
                if k == 0 {
                    assert(ts[0] == t);
                    if 1 < ts.len() {
                        assert(ts[1] == rest[0]);
                        assert(rest[0] == spec_next(s, t.2).unwrap());
                    }
                } else {
                    assert(ts[k] == rest[k - 1]);
                    if k + 1 < ts.len() {
                        assert(ts[k + 1] == rest[k]);
                    }
                }
            }
        },
        None => {},
    }
}


/// Totality in numbers: a line of `n` bytes scans to at most `n` tokens,
/// whatever its content — the token sequence of any line is finite.
pub proof fn lemma_token_count_bounded(s: Seq<u8>, i: int)
    requires
        0 <= i <= s.len(),
    ensures
        spec_tokens(s, i).len() <= s.len() - i,
    decreases s.len() - i,
{
    lemma_spec_tokens_unfold(s, i);
    lemma_spec_next(s, i);
    match spec_next(s, i) {
        Some(t) => {
            lemma_token_count_bounded(s, t.2);
        },
        None => {},
    }
}

} // verus!
