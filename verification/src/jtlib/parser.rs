//! The parser of the first form of transformers.  It reads the pattern
//! `$in`, with whitespace around it, from a stream of bytes that may not
//! have arrived in full: where the bytes end too early it says how many
//! more it needs at least.
use vstd::prelude::*;
use super::syntax::{Expr, ExprV, Pat, PatV};

verus! {

/// The input ended before a transformer could be read: at least this many
/// more bytes are needed.
#[derive(Debug, PartialEq, Eq, Structural)]
pub enum ParseError {
    Incomplete(usize),
}

/// Space, tab, carriage return, line feed.
pub open spec fn is_ws_byte(b: u8) -> bool {
    b == 32 || b == 9 || b == 13 || b == 10
}

/// The first position at or after `p` that holds no whitespace, or the
/// length of `s`.
pub open spec fn ws_end(s: Seq<u8>, p: int) -> int
    decreases s.len() - p,
{
    if p < s.len() && is_ws_byte(s[p]) {
        ws_end(s, p + 1)
    } else {
        p
    }
}

/// The bytes of `$in`.
pub open spec fn in_tag() -> Seq<u8> {
    seq![36u8, 105u8, 110u8]
}

/// The inputs on which reading ends: after the leading whitespace, nothing,
/// or `$in` or the start of it.  On any other input the grammar's first
/// alternative, a pattern, is tried again on the same bytes without end.
pub open spec fn parse_ends(s: Seq<u8>) -> bool {
    let q = ws_end(s, 0);
    let rest = s.subrange(q, s.len() as int);
    rest.len() < 3 && rest =~= in_tag().take(rest.len() as int) || rest.len() >= 3 && rest.take(3)
        =~= in_tag()
}

/// What reading `s` gives, where it ends: the pattern `$in` when it stands
/// after the leading whitespace and more than whitespace follows it; else
/// the input is incomplete: one more byte is needed where the bytes end in
/// whitespace, three where they end inside `$in`.
pub open spec fn parse_spec(s: Seq<u8>) -> Result<ExprV, ParseError> {
    let q = ws_end(s, 0);
    if q == s.len() {
        Err(ParseError::Incomplete(1))
    } else if s.len() - q < 3 {
        Err(ParseError::Incomplete(3))
    } else if ws_end(s, q + 3) == s.len() {
        Err(ParseError::Incomplete(1))
    } else {
        Ok(ExprV::Pat(PatV::Empty))
    }
}

proof fn lemma_ws_end(s: Seq<u8>, p: int)
    requires
        0 <= p <= s.len(),
    ensures
        p <= ws_end(s, p) <= s.len(),
        ws_end(s, p) < s.len() ==> !is_ws_byte(s[ws_end(s, p)]),
        forall|i: int| p <= i < ws_end(s, p) ==> is_ws_byte(#[trigger] s[i]),
    decreases s.len() - p,
{
    if p < s.len() && is_ws_byte(s[p]) {
        lemma_ws_end(s, p + 1);
    }
}

fn ws_end_exec(s: &[u8], p: usize) -> (q: usize)
    requires
        p <= s@.len(),
    ensures
        q == ws_end(s@, p as int),
{
    let mut i = p;
    while i < s.len() && (s[i] == 32 || s[i] == 9 || s[i] == 13 || s[i] == 10)
        invariant
            p <= i <= s@.len(),
            ws_end(s@, p as int) == ws_end(s@, i as int),
        decreases s@.len() - i,
    {
        i = i + 1;
    }
    i
}

/// Reads a transformer from the bytes `input`.
pub fn parse(input: &[u8]) -> (r: Result<Expr, ParseError>)
    requires
        parse_ends(input@),
    ensures
        match r {
            Ok(e) => parse_spec(input@) == Ok::<ExprV, ParseError>(e@),
            Err(err) => parse_spec(input@) == Err::<ExprV, ParseError>(err),
        },
{
    proof {
        lemma_ws_end(input@, 0);
    }
    let q = ws_end_exec(input, 0);
    if q == input.len() {
        Err(ParseError::Incomplete(1))
    } else if input.len() - q < 3 {
        Err(ParseError::Incomplete(3))
    } else if ws_end_exec(input, q + 3) == input.len() {
        Err(ParseError::Incomplete(1))
    } else {
        Ok(Expr::Pat(Pat::Empty))
    }
}

} // verus!
