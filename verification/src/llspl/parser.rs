//! The concrete syntax of LLSPL.
//!
//! ```text
//! expr     ::= seq                             then the end of the input
//! seq      ::= atom (; atom)*                  grouped to the left
//! atom     ::= pure | download | project | split | if | parens
//! parens   ::= ( seq )
//! pure     ::= pure name                       name: "text" or letters, digits, - and _
//! project  ::= project transformer
//! download ::= download transformer
//! split    ::= split parens
//! if       ::= if parens { seq } else { seq }
//! ```
//!
//! Whitespace may stand around each atom, after a keyword and around the
//! braces of `if`.
use vstd::prelude::*;
use crate::json::chars_of;
use crate::lexer::{
    Stop, char_at, char_at_exec, has_lit, is_alphabetic, is_alphanumeric, lemma_skip_ws, lit_at,
    skip_ws, skip_ws_exec, string_of,
};
use crate::json_transformers::parser::{decoder_of, decodes, expr_exec, expr_p};
use crate::json_transformers::syntax::ExprV as TransformerV;
use super::syntax::{Expr, ExprV};

verus! {

/// The end of the run of characters other than `"` that starts at `p`.
pub open spec fn not_quote_end(s: Seq<char>, p: int) -> int
    decreases s.len() - p,
{
    if 0 <= p < s.len() && s[p] != '"' {
        not_quote_end(s, p + 1)
    } else {
        p
    }
}

/// A character of a name written without quotes.
pub open spec fn is_name_char(c: char) -> bool {
    is_alphanumeric(c) || c == '-' || c == '_'
}

/// The end of the run of name characters that starts at `p`.
pub open spec fn name_end(s: Seq<char>, p: int) -> int
    decreases s.len() - p,
{
    if 0 <= p < s.len() && is_name_char(s[p]) {
        name_end(s, p + 1)
    } else {
        p
    }
}

/// The name of a function: one or more characters other than `"` between
/// double quotes, or one or more name characters.
pub open spec fn name_p(s: Seq<char>, p: int) -> Result<(int, Seq<char>), Stop> {
    if char_at(s, p, '"') {
        let e = not_quote_end(s, p + 1);
        if e > p + 1 && char_at(s, e, '"') {
            Ok((e + 1, s.subrange(p + 1, e)))
        } else {
            Err(Stop::Fail)
        }
    } else if name_end(s, p) > p {
        Ok((name_end(s, p), s.subrange(p, name_end(s, p))))
    } else {
        Err(Stop::Fail)
    }
}

/// A keyword followed by a transformer.
pub open spec fn keyword_transformer_p(
    s: Seq<char>,
    p: int,
    kw: Seq<char>,
    dec: spec_fn(Seq<char>) -> Option<u64>,
) -> Result<(int, TransformerV), Stop> {
    if !(0 <= p <= s.len()) || !has_lit(s, p, kw) {
        Err(Stop::Fail)
    } else {
        match expr_p(s, skip_ws(s, p + kw.len()), dec) {
            Ok((q, t)) => Ok((skip_ws(s, q), t)),
            Err(e) => Err(e),
        }
    }
}

/// A program: atoms separated by `;`.
pub open spec fn seq_p(s: Seq<char>, p: int, dec: spec_fn(Seq<char>) -> Option<u64>) -> Result<
    (int, ExprV),
    Stop,
>
    decreases s.len() - p, 3nat,
{
    if !(0 <= p <= s.len()) {
        Err(Stop::Fail)
    } else {
        match atom_p(s, p, dec) {
            Ok((q, e)) => if p < q <= s.len() {
                seq_rest_p(s, q, e, dec)
            } else {
                Err(Stop::Fail)
            },
            Err(x) => Err(x),
        }
    }
}

/// More atoms, each after a `;`, run after what came before.
pub open spec fn seq_rest_p(s: Seq<char>, p: int, acc: ExprV, dec: spec_fn(Seq<char>) -> Option<u64>) -> Result<
    (int, ExprV),
    Stop,
>
    decreases s.len() - p, 1nat,
{
    if !(0 <= p <= s.len()) || !char_at(s, p, ';') {
        Ok((p, acc))
    } else {
        match atom_p(s, p + 1, dec) {
            Ok((q, e)) => if p < q <= s.len() {
                seq_rest_p(s, q, ExprV::Sequence(Box::new(acc), Box::new(e)), dec)
            } else {
                Err(Stop::Fail)
            },
            Err(Stop::Fail) => Ok((p, acc)),
            Err(Stop::Abort) => Err(Stop::Abort),
        }
    }
}

/// One atom, with the whitespace around it.
pub open spec fn atom_p(s: Seq<char>, p: int, dec: spec_fn(Seq<char>) -> Option<u64>) -> Result<
    (int, ExprV),
    Stop,
>
    decreases s.len() - p, 2nat,
{
    if !(0 <= p <= s.len()) {
        Err(Stop::Fail)
    } else {
        let q = skip_ws(s, p);
        proof {
            lemma_skip_ws(s, p);
        }
        let r = if has_lit(s, q, "pure"@) {
            match name_p(s, skip_ws(s, q + "pure"@.len())) {
                Ok((q1, n)) => Ok((q1, ExprV::Pure(n))),
                Err(e) => Err(e),
            }
        } else {
            Err(Stop::Fail)
        };
        let r = match r {
            Err(Stop::Fail) => match keyword_transformer_p(s, q, "download"@, dec) {
                Ok((q1, t)) => Ok((q1, ExprV::Download(t))),
                Err(e) => Err(e),
            },
            r => r,
        };
        let r = match r {
            Err(Stop::Fail) => match keyword_transformer_p(s, q, "project"@, dec) {
                Ok((q1, t)) => Ok((q1, ExprV::Project(t))),
                Err(e) => Err(e),
            },
            r => r,
        };
        let r = match r {
            Err(Stop::Fail) => split_p(s, q, dec),
            r => r,
        };
        let r = match r {
            Err(Stop::Fail) => if_p(s, q, dec),
            r => r,
        };
        let r = match r {
            Err(Stop::Fail) => parens_p(s, q, dec),
            r => r,
        };
        match r {
            Ok((q1, e)) => Ok((skip_ws(s, q1), e)),
            Err(x) => Err(x),
        }
    }
}

/// `(` program `)`.
pub open spec fn parens_p(s: Seq<char>, p: int, dec: spec_fn(Seq<char>) -> Option<u64>) -> Result<
    (int, ExprV),
    Stop,
>
    decreases s.len() - p, 1nat,
{
    if !(0 <= p <= s.len()) || !char_at(s, p, '(') {
        Err(Stop::Fail)
    } else {
        match seq_p(s, p + 1, dec) {
            Ok((q, e)) => if char_at(s, q, ')') {
                Ok((q + 1, e))
            } else {
                Err(Stop::Fail)
            },
            Err(x) => Err(x),
        }
    }
}

/// `split` and a program in parentheses.
pub open spec fn split_p(s: Seq<char>, p: int, dec: spec_fn(Seq<char>) -> Option<u64>) -> Result<
    (int, ExprV),
    Stop,
>
    decreases s.len() - p, 1nat,
{
    if !(0 <= p <= s.len()) || !has_lit(s, p, "split"@) {
        Err(Stop::Fail)
    } else {
        proof {
            reveal_strlit("split");
            lemma_skip_ws(s, p + 5);
        }
        match parens_p(s, skip_ws(s, p + 5), dec) {
            Ok((q, e)) => Ok((skip_ws(s, q), ExprV::Split(Box::new(e)))),
            Err(x) => Err(x),
        }
    }
}

/// A program between braces, with whitespace around the braces.
pub open spec fn braces_p(s: Seq<char>, p: int, dec: spec_fn(Seq<char>) -> Option<u64>) -> Result<
    (int, ExprV),
    Stop,
>
    decreases s.len() - p, 1nat,
{
    if !(0 <= p <= s.len()) {
        Err(Stop::Fail)
    } else {
        let q = skip_ws(s, p);
        proof {
            lemma_skip_ws(s, p);
        }
        if !char_at(s, q, '{') {
            Err(Stop::Fail)
        } else {
            proof {
                lemma_skip_ws(s, q + 1);
            }
            match seq_p(s, skip_ws(s, q + 1), dec) {
                Ok((q1, e)) => if char_at(s, skip_ws(s, q1), '}') {
                    Ok((skip_ws(s, skip_ws(s, q1) + 1), e))
                } else {
                    Err(Stop::Fail)
                },
                Err(x) => Err(x),
            }
        }
    }
}

/// `if` (program) `{` program `}` `else` `{` program `}`.
pub open spec fn if_p(s: Seq<char>, p: int, dec: spec_fn(Seq<char>) -> Option<u64>) -> Result<
    (int, ExprV),
    Stop,
>
    decreases s.len() - p, 1nat,
{
    if !(0 <= p <= s.len()) || !has_lit(s, p, "if"@) {
        Err(Stop::Fail)
    } else {
        proof {
            reveal_strlit("if");
            lemma_skip_ws(s, p + 2);
        }
        match parens_p(s, skip_ws(s, p + 2), dec) {
            Err(x) => Err(x),
            Ok((q, c)) => if !(p < q <= s.len()) {
                Err(Stop::Fail)
            } else {
                proof {
                    lemma_skip_ws(s, q);
                }
                match braces_p(s, skip_ws(s, q), dec) {
                    Err(x) => Err(x),
                    Ok((q1, t)) => if !(p < q1 <= s.len()) || !has_lit(s, q1, "else"@) {
                        Err(Stop::Fail)
                    } else {
                        proof {
                            reveal_strlit("else");
                        }
                        match braces_p(s, q1 + 4, dec) {
                            Err(x) => Err(x),
                            Ok((q2, f)) => Ok(
                                (q2, ExprV::If(Box::new(c), Box::new(t), Box::new(f))),
                            ),
                        }
                    },
                }
            },
        }
    }
}

/// A whole program: the input holds nothing after it.
pub open spec fn program_p(s: Seq<char>, dec: spec_fn(Seq<char>) -> Option<u64>) -> Result<
    ExprV,
    Stop,
> {
    match seq_p(s, 0, dec) {
        Ok((q, e)) => if q == s.len() {
            Ok(e)
        } else {
            Err(Stop::Fail)
        },
        Err(x) => Err(x),
    }
}

/// The result of a parse, read mathematically.
pub open spec fn prog_res(r: Result<(usize, Expr), Stop>) -> Result<(int, ExprV), Stop> {
    match r {
        Ok((q, e)) => Ok((q as int, e@)),
        Err(x) => Err(x),
    }
}

fn name_exec(s: &Vec<char>, p: usize) -> (r: Result<(usize, String), Stop>)
    requires
        p <= s.len(),
    ensures
        match r {
            Ok((q, n)) => name_p(s@, p as int) == Ok::<(int, Seq<char>), Stop>((q as int, n@))
                && p < q <= s.len(),
            Err(e) => name_p(s@, p as int) == Err::<(int, Seq<char>), Stop>(e),
        },
{
    if char_at_exec(s, p, '"') {
        let mut e = p + 1;
        while e < s.len() && s[e] != '"'
            invariant
                p + 1 <= e <= s.len(),
                not_quote_end(s@, p + 1) == not_quote_end(s@, e as int),
            decreases s.len() - e,
        {
            e = e + 1;
        }
        if e > p + 1 && char_at_exec(s, e, '"') {
            let n = string_of(s, p + 1, e);
            Ok((e + 1, n))
        } else {
            Err(Stop::Fail)
        }
    } else {
        let mut e = p;
        while e < s.len() && (is_alphabetic(s[e]) || ('0' <= s[e] && s[e] <= '9') || s[e] == '-'
            || s[e] == '_')
            invariant
                p <= e <= s.len(),
                name_end(s@, p as int) == name_end(s@, e as int),
            decreases s.len() - e,
        {
            e = e + 1;
        }
        if e > p {
            let n = string_of(s, p, e);
            Ok((e, n))
        } else {
            Err(Stop::Fail)
        }
    }
}

fn keyword_transformer_exec<F: Fn(&str) -> Option<u64>>(
    s: &Vec<char>,
    p: usize,
    kw: &str,
    decode: &F,
    Ghost(dec): Ghost<spec_fn(Seq<char>) -> Option<u64>>,
) -> (r: Result<(usize, crate::json_transformers::syntax::Expr), Stop>)
    requires
        p <= s.len(),
        decodes(*decode, dec),
    ensures
        match r {
            Ok((q, t)) => keyword_transformer_p(s@, p as int, kw@, dec) == Ok::<
                (int, TransformerV),
                Stop,
            >((q as int, t@)) && q <= s.len(),
            Err(e) => keyword_transformer_p(s@, p as int, kw@, dec) == Err::<
                (int, TransformerV),
                Stop,
            >(e),
        },
{
    if !lit_at(s, p, kw) {
        return Err(Stop::Fail);
    }
    let kl = chars_of(kw).len();
    let q = skip_ws_exec(s, p + kl);
    match expr_exec(s, q, decode, Ghost(dec)) {
        Ok((q1, t)) => {
            let end = skip_ws_exec(s, q1);
            Ok((end, t))
        },
        Err(e) => Err(e),
    }
}

fn seq_exec<F: Fn(&str) -> Option<u64>>(
    s: &Vec<char>,
    p: usize,
    decode: &F,
    Ghost(dec): Ghost<spec_fn(Seq<char>) -> Option<u64>>,
) -> (r: Result<(usize, Expr), Stop>)
    requires
        p <= s.len(),
        decodes(*decode, dec),
    ensures
        prog_res(r) == seq_p(s@, p as int, dec),
        r matches Ok((q, _)) ==> q <= s.len(),
    decreases s.len() - p, 3nat,
{
    match atom_exec(s, p, decode, Ghost(dec)) {
        Ok((q, e)) => if p < q && q <= s.len() {
            seq_rest_exec(s, q, e, decode, Ghost(dec))
        } else {
            Err(Stop::Fail)
        },
        Err(x) => Err(x),
    }
}

fn seq_rest_exec<F: Fn(&str) -> Option<u64>>(
    s: &Vec<char>,
    p: usize,
    acc: Expr,
    decode: &F,
    Ghost(dec): Ghost<spec_fn(Seq<char>) -> Option<u64>>,
) -> (r: Result<(usize, Expr), Stop>)
    requires
        p <= s.len(),
        decodes(*decode, dec),
    ensures
        prog_res(r) == seq_rest_p(s@, p as int, acc@, dec),
        r matches Ok((q, _)) ==> q <= s.len(),
    decreases s.len() - p, 1nat,
{
    if !char_at_exec(s, p, ';') {
        return Ok((p, acc));
    }
    match atom_exec(s, p + 1, decode, Ghost(dec)) {
        Ok((q, e)) => if p < q && q <= s.len() {
            seq_rest_exec(s, q, Expr::Sequence(Box::new(acc), Box::new(e)), decode, Ghost(dec))
        } else {
            Err(Stop::Fail)
        },
        Err(Stop::Fail) => Ok((p, acc)),
        Err(Stop::Abort) => Err(Stop::Abort),
    }
}

fn atom_exec<F: Fn(&str) -> Option<u64>>(
    s: &Vec<char>,
    p: usize,
    decode: &F,
    Ghost(dec): Ghost<spec_fn(Seq<char>) -> Option<u64>>,
) -> (r: Result<(usize, Expr), Stop>)
    requires
        p <= s.len(),
        decodes(*decode, dec),
    ensures
        prog_res(r) == atom_p(s@, p as int, dec),
        r matches Ok((q, _)) ==> q <= s.len(),
    decreases s.len() - p, 2nat,
{
    proof {
        reveal_strlit("pure");
    }
    let q = skip_ws_exec(s, p);
    let mut r: Result<(usize, Expr), Stop> = if lit_at(s, q, "pure") {
        let q0 = skip_ws_exec(s, q + 4);
        match name_exec(s, q0) {
            Ok((q1, n)) => Ok((q1, Expr::Pure(n))),
            Err(e) => Err(e),
        }
    } else {
        Err(Stop::Fail)
    };
    if let Err(Stop::Fail) = r {
        r = match keyword_transformer_exec(s, q, "download", decode, Ghost(dec)) {
            Ok((q1, t)) => Ok((q1, Expr::Download(t))),
            Err(e) => Err(e),
        };
    }
    if let Err(Stop::Fail) = r {
        r = match keyword_transformer_exec(s, q, "project", decode, Ghost(dec)) {
            Ok((q1, t)) => Ok((q1, Expr::Project(t))),
            Err(e) => Err(e),
        };
    }
    if let Err(Stop::Fail) = r {
        r = split_exec(s, q, decode, Ghost(dec));
    }
    if let Err(Stop::Fail) = r {
        r = if_exec(s, q, decode, Ghost(dec));
    }
    if let Err(Stop::Fail) = r {
        r = parens_exec(s, q, decode, Ghost(dec));
    }
    match r {
        Ok((q1, e)) => {
            let end = skip_ws_exec(s, q1);
            Ok((end, e))
        },
        Err(x) => Err(x),
    }
}

fn parens_exec<F: Fn(&str) -> Option<u64>>(
    s: &Vec<char>,
    p: usize,
    decode: &F,
    Ghost(dec): Ghost<spec_fn(Seq<char>) -> Option<u64>>,
) -> (r: Result<(usize, Expr), Stop>)
    requires
        p <= s.len(),
        decodes(*decode, dec),
    ensures
        prog_res(r) == parens_p(s@, p as int, dec),
        r matches Ok((q, _)) ==> q <= s.len(),
    decreases s.len() - p, 1nat,
{
    if !char_at_exec(s, p, '(') {
        return Err(Stop::Fail);
    }
    match seq_exec(s, p + 1, decode, Ghost(dec)) {
        Ok((q, e)) => if char_at_exec(s, q, ')') {
            Ok((q + 1, e))
        } else {
            Err(Stop::Fail)
        },
        Err(x) => Err(x),
    }
}

fn split_exec<F: Fn(&str) -> Option<u64>>(
    s: &Vec<char>,
    p: usize,
    decode: &F,
    Ghost(dec): Ghost<spec_fn(Seq<char>) -> Option<u64>>,
) -> (r: Result<(usize, Expr), Stop>)
    requires
        p <= s.len(),
        decodes(*decode, dec),
    ensures
        prog_res(r) == split_p(s@, p as int, dec),
        r matches Ok((q, _)) ==> q <= s.len(),
    decreases s.len() - p, 1nat,
{
    proof {
        reveal_strlit("split");
    }
    if !lit_at(s, p, "split") {
        return Err(Stop::Fail);
    }
    let q = skip_ws_exec(s, p + 5);
    match parens_exec(s, q, decode, Ghost(dec)) {
        Ok((q1, e)) => {
            let end = skip_ws_exec(s, q1);
            Ok((end, Expr::Split(Box::new(e))))
        },
        Err(x) => Err(x),
    }
}

fn braces_exec<F: Fn(&str) -> Option<u64>>(
    s: &Vec<char>,
    p: usize,
    decode: &F,
    Ghost(dec): Ghost<spec_fn(Seq<char>) -> Option<u64>>,
) -> (r: Result<(usize, Expr), Stop>)
    requires
        p <= s.len(),
        decodes(*decode, dec),
    ensures
        prog_res(r) == braces_p(s@, p as int, dec),
        r matches Ok((q, _)) ==> q <= s.len(),
    decreases s.len() - p, 1nat,
{
    let q = skip_ws_exec(s, p);
    if !char_at_exec(s, q, '{') {
        return Err(Stop::Fail);
    }
    let q0 = skip_ws_exec(s, q + 1);
    match seq_exec(s, q0, decode, Ghost(dec)) {
        Ok((q1, e)) => {
            let q2 = skip_ws_exec(s, q1);
            if char_at_exec(s, q2, '}') {
                let end = skip_ws_exec(s, q2 + 1);
                Ok((end, e))
            } else {
                Err(Stop::Fail)
            }
        },
        Err(x) => Err(x),
    }
}

fn if_exec<F: Fn(&str) -> Option<u64>>(
    s: &Vec<char>,
    p: usize,
    decode: &F,
    Ghost(dec): Ghost<spec_fn(Seq<char>) -> Option<u64>>,
) -> (r: Result<(usize, Expr), Stop>)
    requires
        p <= s.len(),
        decodes(*decode, dec),
    ensures
        prog_res(r) == if_p(s@, p as int, dec),
        r matches Ok((q, _)) ==> q <= s.len(),
    decreases s.len() - p, 1nat,
{
    proof {
        reveal_strlit("if");
        reveal_strlit("else");
    }
    if !lit_at(s, p, "if") {
        return Err(Stop::Fail);
    }
    let q0 = skip_ws_exec(s, p + 2);
    match parens_exec(s, q0, decode, Ghost(dec)) {
        Err(x) => Err(x),
        Ok((q, c)) => {
            if !(p < q && q <= s.len()) {
                return Err(Stop::Fail);
            }
            let q1 = skip_ws_exec(s, q);
            match braces_exec(s, q1, decode, Ghost(dec)) {
                Err(x) => Err(x),
                Ok((q2, t)) => {
                    if !(p < q2 && q2 <= s.len()) || !lit_at(s, q2, "else") {
                        return Err(Stop::Fail);
                    }
                    match braces_exec(s, q2 + 4, decode, Ghost(dec)) {
                        Err(x) => Err(x),
                        Ok((q3, f)) => Ok((q3, Expr::If(Box::new(c), Box::new(t), Box::new(f)))),
                    }
                },
            }
        },
    }
}

/// The input is not a program.
pub struct ParseError;

/// Parses a whole program; the text after it, given back with it, is empty.
/// `decode` reads decimal text as the bits of a double, for the numbers of
/// the transformers in the program.
pub fn parse<F: Fn(&str) -> Option<u64>>(input: &str, decode: &F) -> (r: Result<
    (String, Expr),
    ParseError,
>)
    requires
        exists|dec: spec_fn(Seq<char>) -> Option<u64>| decodes(*decode, dec),
        program_p(input@, decoder_of(*decode)) != Err::<ExprV, Stop>(Stop::Abort),
    ensures
        match r {
            Ok((rest, e)) => program_p(input@, decoder_of(*decode)) == Ok::<ExprV, Stop>(e@)
                && rest@.len() == 0,
            Err(_) => program_p(input@, decoder_of(*decode)) == Err::<ExprV, Stop>(Stop::Fail),
        },
{
    let chars = chars_of(input);
    let ghost dec = decoder_of(*decode);
    match seq_exec(&chars, 0, decode, Ghost(dec)) {
        Ok((q, e)) => if q == chars.len() {
            Ok((String::new(), e))
        } else {
            Err(ParseError)
        },
        Err(_) => Err(ParseError),
    }
}

/// Whether reading `input` stops on an index of a transformer written with
/// more digits than a `usize` holds: the one input on which reading panics,
/// and which `parse` leaves out.
pub fn parse_overflows<F: Fn(&str) -> Option<u64>>(input: &str, decode: &F) -> (b: bool)
    requires
        exists|dec: spec_fn(Seq<char>) -> Option<u64>| decodes(*decode, dec),
    ensures
        b == (program_p(input@, decoder_of(*decode)) == Err::<ExprV, Stop>(Stop::Abort)),
{
    let chars = chars_of(input);
    let ghost dec = decoder_of(*decode);
    match seq_exec(&chars, 0, decode, Ghost(dec)) {
        Err(Stop::Abort) => true,
        _ => false,
    }
}

} // verus!
