//! The concrete syntax of JSON transformers.
//!
//! ```text
//! expr     ::= operand (op operand)?          whitespace around each part
//! op       ::= == | != | >= | <= | > | <
//! operand  ::= number | string | array | object | true | false | null | pat
//! array    ::= [ expr , ... ]                 whitespace around [ ] and after [
//! object   ::= { key : expr , ... }           no whitespace directly after {
//! pat      ::= $in step*                      no whitespace inside
//! step     ::= [ string ] | [ digits ] | .map( expr ) | . name
//! ```
//!
//! A number is decimal text, turned into a double by a decoder that the
//! caller supplies; text whose double is not finite is not a number.  The
//! parsers below work on the characters of the input at a position.
use vstd::prelude::*;
use crate::json::{Number, NumberV, chars_of, float_bits_finite};
use crate::lexer::{
    Stop, char_at, char_at_exec, float_end, float_end_exec, has_lit, ident, ident_exec, index_exec,
    index_lit, lemma_float_end, lemma_skip_ws, lit_at, skip_ws, skip_ws_exec, string_lit,
    string_lit_exec, string_of,
};
use super::syntax::{
    Expr, ExprV, Op, Pat, PatAtom, PatAtomV, PatV, expr_entries_view, expr_seq_view, expr_view,
    pat_atom_view, pat_view,
};

verus! {

/// Decimal text read as the bits of a double, or `None` when it is not one.
pub open spec fn decodes<F: Fn(&str) -> Option<u64>>(
    decode: F,
    dec: spec_fn(Seq<char>) -> Option<u64>,
) -> bool {
    &&& forall|t: &str| #[trigger] call_requires(decode, (t,))
    &&& forall|t: &str, r: Option<u64>| #[trigger] call_ensures(decode, (t,), r) ==> r == dec(t@)
}

/// A position that did not move backwards nor past the end.
pub open spec fn advanced(s: Seq<char>, p: int, q: int) -> bool {
    p <= q <= s.len()
}

/// A number literal.
pub open spec fn number_p(s: Seq<char>, p: int, dec: spec_fn(Seq<char>) -> Option<u64>) -> Result<
    (int, ExprV),
    Stop,
> {
    match float_end(s, p) {
        Some(q) => match dec(s.subrange(p, q)) {
            Some(bits) => if float_bits_finite(bits) {
                Ok((q, ExprV::Number(NumberV::Float(bits))))
            } else {
                Err(Stop::Fail)
            },
            None => Err(Stop::Fail),
        },
        None => Err(Stop::Fail),
    }
}

/// `true`, `false` or `null`.
pub open spec fn keyword_p(s: Seq<char>, p: int) -> Result<(int, ExprV), Stop> {
    if has_lit(s, p, "true"@) {
        Ok((p + "true"@.len(), ExprV::Bool(true)))
    } else if has_lit(s, p, "false"@) {
        Ok((p + "false"@.len(), ExprV::Bool(false)))
    } else if has_lit(s, p, "null"@) {
        Ok((p + "null"@.len(), ExprV::Null))
    } else {
        Err(Stop::Fail)
    }
}

/// A comparison operator; two-character ones are tried first.
pub open spec fn op_p(s: Seq<char>, p: int) -> Option<(int, Op)> {
    if has_lit(s, p, "=="@) {
        Some((p + 2, Op::Eq))
    } else if has_lit(s, p, "!="@) {
        Some((p + 2, Op::NotEq))
    } else if has_lit(s, p, ">="@) {
        Some((p + 2, Op::GreaterEq))
    } else if has_lit(s, p, "<="@) {
        Some((p + 2, Op::LessEq))
    } else if char_at(s, p, '>') {
        Some((p + 1, Op::Greater))
    } else if char_at(s, p, '<') {
        Some((p + 1, Op::Less))
    } else {
        None
    }
}

/// What follows `[` in a pattern step: a key as a string, or a position.
pub open spec fn bracketed_p(s: Seq<char>, p: int) -> Result<(int, PatAtomV), Stop> {
    match string_lit(s, p) {
        Ok((q, k)) => Ok((q, PatAtomV::Select(k))),
        Err(Stop::Abort) => Err(Stop::Abort),
        Err(Stop::Fail) => match index_lit(s, p) {
            Ok((q, i)) => Ok((q, PatAtomV::Index(i))),
            Err(e) => Err(e),
        },
    }
}

/// A transformer, with the whitespace around it.
pub open spec fn expr_p(s: Seq<char>, p: int, dec: spec_fn(Seq<char>) -> Option<u64>) -> Result<
    (int, ExprV),
    Stop,
>
    decreases s.len() - p, 5nat,
{
    if !(0 <= p <= s.len()) {
        Err(Stop::Fail)
    } else {
        let q = skip_ws(s, p);
        proof {
            lemma_skip_ws(s, p);
        }
        match operand_p(s, q, dec) {
            Err(e) => Err(e),
            Ok((q1, l)) => if !advanced(s, q, q1) {
                Err(Stop::Fail)
            } else {
                let q2 = skip_ws(s, q1);
                proof {
                    lemma_skip_ws(s, q1);
                }
                match op_p(s, q2) {
                    None => Ok((q2, l)),
                    Some((q3, op)) => if !advanced(s, q2, q3) {
                        Err(Stop::Fail)
                    } else {
                        let q4 = skip_ws(s, q3);
                        proof {
                            lemma_skip_ws(s, q3);
                        }
                        match operand_p(s, q4, dec) {
                            Ok((q5, r)) => if advanced(s, q4, q5) {
                                Ok((skip_ws(s, q5), ExprV::BinOp(op, Box::new(l), Box::new(r))))
                            } else {
                                Err(Stop::Fail)
                            },
                            Err(Stop::Fail) => Ok((q2, l)),
                            Err(Stop::Abort) => Err(Stop::Abort),
                        }
                    },
                }
            },
        }
    }
}

/// One operand, tried in the order number, string, array, object, keyword,
/// pattern.
pub open spec fn operand_p(s: Seq<char>, p: int, dec: spec_fn(Seq<char>) -> Option<u64>) -> Result<
    (int, ExprV),
    Stop,
>
    decreases s.len() - p, 4nat,
{
    if !(0 <= p <= s.len()) {
        Err(Stop::Fail)
    } else {
        match number_p(s, p, dec) {
            Ok(r) => Ok(r),
            Err(_) => match string_lit(s, p) {
                Ok((q, t)) => Ok((q, ExprV::Str(t))),
                Err(Stop::Abort) => Err(Stop::Abort),
                Err(Stop::Fail) => match array_p(s, p, dec) {
                    Err(Stop::Fail) => match object_p(s, p, dec) {
                        Err(Stop::Fail) => match keyword_p(s, p) {
                            Err(Stop::Fail) => pat_p(s, p, dec),
                            r => r,
                        },
                        r => r,
                    },
                    r => r,
                },
            },
        }
    }
}

/// An array: `[`, transformers separated by `,`, `]`.
pub open spec fn array_p(s: Seq<char>, p: int, dec: spec_fn(Seq<char>) -> Option<u64>) -> Result<
    (int, ExprV),
    Stop,
>
    decreases s.len() - p, 3nat,
{
    if !(0 <= p <= s.len()) {
        Err(Stop::Fail)
    } else {
        let q = skip_ws(s, p);
        proof {
            lemma_skip_ws(s, p);
        }
        if !char_at(s, q, '[') {
            Err(Stop::Fail)
        } else {
            let q1 = skip_ws(s, q + 1);
            proof {
                lemma_skip_ws(s, q + 1);
            }
            match items_first_p(s, q1, dec) {
                Err(e) => Err(e),
                Ok((l, items)) => if !advanced(s, q1, l) {
                    Err(Stop::Fail)
                } else {
                    let l1 = skip_ws(s, l);
                    if char_at(s, l1, ']') {
                        Ok((skip_ws(s, l1 + 1), ExprV::Array(items)))
                    } else {
                        Err(Stop::Fail)
                    }
                },
            }
        }
    }
}

/// The elements of a list: none, or a first one followed by more.
pub open spec fn items_first_p(s: Seq<char>, p: int, dec: spec_fn(Seq<char>) -> Option<u64>) -> Result<
    (int, Seq<ExprV>),
    Stop,
>
    decreases s.len() - p, 6nat,
{
    if !(0 <= p <= s.len()) {
        Err(Stop::Fail)
    } else {
        match expr_p(s, p, dec) {
            Err(Stop::Fail) => Ok((p, Seq::empty())),
            Err(Stop::Abort) => Err(Stop::Abort),
            Ok((e, x)) => if p < e <= s.len() {
                items_rest_p(s, e, seq![x], dec)
            } else {
                Err(Stop::Fail)
            },
        }
    }
}

/// More elements, each after a `,`; the list ends before a `,` that is not
/// followed by an element.
pub open spec fn items_rest_p(
    s: Seq<char>,
    p: int,
    acc: Seq<ExprV>,
    dec: spec_fn(Seq<char>) -> Option<u64>,
) -> Result<(int, Seq<ExprV>), Stop>
    decreases s.len() - p, 6nat,
{
    if !(0 <= p <= s.len()) || !char_at(s, p, ',') {
        Ok((p, acc))
    } else {
        match expr_p(s, p + 1, dec) {
            Err(Stop::Fail) => Ok((p, acc)),
            Err(Stop::Abort) => Err(Stop::Abort),
            Ok((e, x)) => if p + 1 < e <= s.len() {
                items_rest_p(s, e, acc.push(x), dec)
            } else {
                Ok((p, acc))
            },
        }
    }
}

/// An object: `{`, entries separated by `,`, `}`.
pub open spec fn object_p(s: Seq<char>, p: int, dec: spec_fn(Seq<char>) -> Option<u64>) -> Result<
    (int, ExprV),
    Stop,
>
    decreases s.len() - p, 3nat,
{
    if !(0 <= p <= s.len()) {
        Err(Stop::Fail)
    } else {
        let q = skip_ws(s, p);
        proof {
            lemma_skip_ws(s, p);
        }
        if !char_at(s, q, '{') {
            Err(Stop::Fail)
        } else {
            match entries_first_p(s, q + 1, dec) {
                Err(e) => Err(e),
                Ok((l, entries)) => if char_at(s, l, '}') {
                    Ok((skip_ws(s, l + 1), ExprV::Object(entries)))
                } else {
                    Err(Stop::Fail)
                },
            }
        }
    }
}

/// An entry: a key, `:`, a transformer, with whitespace around each.
pub open spec fn key_val_p(s: Seq<char>, p: int, dec: spec_fn(Seq<char>) -> Option<u64>) -> Result<
    (int, (Seq<char>, ExprV)),
    Stop,
>
    decreases s.len() - p, 5nat,
{
    if !(0 <= p <= s.len()) {
        Err(Stop::Fail)
    } else {
        let q = skip_ws(s, p);
        proof {
            lemma_skip_ws(s, p);
        }
        match string_lit(s, q) {
            Err(e) => Err(e),
            Ok((q1, k)) => if !(q < q1 <= s.len()) {
                Err(Stop::Fail)
            } else {
                let q2 = skip_ws(s, q1);
                proof {
                    lemma_skip_ws(s, q1);
                }
                if !char_at(s, q2, ':') {
                    Err(Stop::Fail)
                } else {
                    match expr_p(s, q2 + 1, dec) {
                        Err(e) => Err(e),
                        Ok((e, v)) => Ok((skip_ws(s, e), (k, v))),
                    }
                }
            },
        }
    }
}

/// The entries of an object: none, or a first one followed by more.
pub open spec fn entries_first_p(s: Seq<char>, p: int, dec: spec_fn(Seq<char>) -> Option<u64>) -> Result<
    (int, Seq<(Seq<char>, ExprV)>),
    Stop,
>
    decreases s.len() - p, 6nat,
{
    if !(0 <= p <= s.len()) {
        Err(Stop::Fail)
    } else {
        match key_val_p(s, p, dec) {
            Err(Stop::Fail) => Ok((p, Seq::empty())),
            Err(Stop::Abort) => Err(Stop::Abort),
            Ok((e, kv)) => if p < e <= s.len() {
                entries_rest_p(s, e, seq![kv], dec)
            } else {
                Err(Stop::Fail)
            },
        }
    }
}

/// More entries, each after a `,`.
pub open spec fn entries_rest_p(
    s: Seq<char>,
    p: int,
    acc: Seq<(Seq<char>, ExprV)>,
    dec: spec_fn(Seq<char>) -> Option<u64>,
) -> Result<(int, Seq<(Seq<char>, ExprV)>), Stop>
    decreases s.len() - p, 6nat,
{
    if !(0 <= p <= s.len()) || !char_at(s, p, ',') {
        Ok((p, acc))
    } else {
        match key_val_p(s, p + 1, dec) {
            Err(Stop::Fail) => Ok((p, acc)),
            Err(Stop::Abort) => Err(Stop::Abort),
            Ok((e, kv)) => if p + 1 < e <= s.len() {
                entries_rest_p(s, e, acc.push(kv), dec)
            } else {
                Ok((p, acc))
            },
        }
    }
}

/// A pattern: `$in` and its steps.  Each step is put in front of the path
/// before it, so the last step written is the outermost.
pub open spec fn pat_p(s: Seq<char>, p: int, dec: spec_fn(Seq<char>) -> Option<u64>) -> Result<
    (int, ExprV),
    Stop,
>
    decreases s.len() - p, 3nat,
{
    if !(0 <= p <= s.len()) || !has_lit(s, p, "$in"@) {
        Err(Stop::Fail)
    } else {
        proof {
            reveal_strlit("$in");
        }
        match steps_p(s, p + 3, PatV::Empty, dec) {
            Ok((q, pat)) => Ok((q, ExprV::Pat(pat))),
            Err(e) => Err(e),
        }
    }
}

/// The steps of a pattern, as many as there are.
pub open spec fn steps_p(s: Seq<char>, p: int, acc: PatV, dec: spec_fn(Seq<char>) -> Option<u64>) -> Result<
    (int, PatV),
    Stop,
>
    decreases s.len() - p, 6nat,
{
    if !(0 <= p <= s.len()) {
        Err(Stop::Fail)
    } else {
        match step_p(s, p, dec) {
            Err(Stop::Fail) => Ok((p, acc)),
            Err(Stop::Abort) => Err(Stop::Abort),
            Ok((q, a)) => if p < q <= s.len() {
                steps_p(s, q, PatV::Pat(a, Box::new(acc)), dec)
            } else if p == s.len() {
                Ok((p, acc))
            } else {
                Err(Stop::Fail)
            },
        }
    }
}

/// One step of a pattern.
pub open spec fn step_p(s: Seq<char>, p: int, dec: spec_fn(Seq<char>) -> Option<u64>) -> Result<
    (int, PatAtomV),
    Stop,
>
    decreases s.len() - p, 2nat,
{
    if !(0 <= p <= s.len()) {
        Err(Stop::Fail)
    } else if char_at(s, p, '[') {
        match bracketed_p(s, p + 1) {
            Ok((q, a)) => if char_at(s, q, ']') {
                Ok((q + 1, a))
            } else {
                Err(Stop::Fail)
            },
            Err(e) => Err(e),
        }
    } else if char_at(s, p, '.') {
        match map_p(s, p + 1, dec) {
            Err(Stop::Fail) => match ident(s, p + 1) {
                Some((q, name)) => Ok((q, PatAtomV::Select(name))),
                None => Err(Stop::Fail),
            },
            r => r,
        }
    } else {
        Err(Stop::Fail)
    }
}

/// `map(` transformer `)`.
pub open spec fn map_p(s: Seq<char>, p: int, dec: spec_fn(Seq<char>) -> Option<u64>) -> Result<
    (int, PatAtomV),
    Stop,
>
    decreases s.len() - p, 1nat,
{
    if !(0 <= p <= s.len()) || !has_lit(s, p, "map("@) {
        Err(Stop::Fail)
    } else {
        proof {
            reveal_strlit("map(");
        }
        match expr_p(s, p + 4, dec) {
            Ok((q, e)) => if char_at(s, q, ')') {
                Ok((q + 1, PatAtomV::MapEach(Box::new(e))))
            } else {
                Err(Stop::Fail)
            },
            Err(e) => Err(e),
        }
    }
}

/// A parse result, read mathematically.
pub open spec fn expr_res(r: Result<(usize, Expr), Stop>) -> Result<(int, ExprV), Stop> {
    match r {
        Ok((q, e)) => Ok((q as int, e@)),
        Err(x) => Err(x),
    }
}

fn number_exec<F: Fn(&str) -> Option<u64>>(
    s: &Vec<char>,
    p: usize,
    decode: &F,
    Ghost(dec): Ghost<spec_fn(Seq<char>) -> Option<u64>>,
) -> (r: Result<(usize, Expr), Stop>)
    requires
        p <= s.len(),
        decodes(*decode, dec),
    ensures
        expr_res(r) == number_p(s@, p as int, dec),
        r matches Ok((q, _)) ==> p < q <= s.len(),
{
    match float_end_exec(s, p) {
        Some(q) => {
            proof {
                lemma_float_end(s@, p as int);
            }
            let lexeme = string_of(s, p, q);
            let t = lexeme.as_str();
            let bits = decode(t);
            match bits {
                Some(b) => match Number::float_from_bits(b) {
                    Some(n) => Ok((q, Expr::Number(n))),
                    None => Err(Stop::Fail),
                },
                None => Err(Stop::Fail),
            }
        },
        None => Err(Stop::Fail),
    }
}

fn keyword_exec(s: &Vec<char>, p: usize) -> (r: Result<(usize, Expr), Stop>)
    requires
        p <= s.len(),
    ensures
        expr_res(r) == keyword_p(s@, p as int),
        r matches Ok((q, _)) ==> p < q <= s.len(),
{
    proof {
        reveal_strlit("true");
        reveal_strlit("false");
        reveal_strlit("null");
    }
    if lit_at(s, p, "true") {
        Ok((p + 4, Expr::Bool(true)))
    } else if lit_at(s, p, "false") {
        Ok((p + 5, Expr::Bool(false)))
    } else if lit_at(s, p, "null") {
        Ok((p + 4, Expr::Null))
    } else {
        Err(Stop::Fail)
    }
}

fn op_exec(s: &Vec<char>, p: usize) -> (r: Option<(usize, Op)>)
    requires
        p <= s.len(),
    ensures
        match r {
            Some((q, op)) => op_p(s@, p as int) == Some((q as int, op)) && p < q <= s.len(),
            None => op_p(s@, p as int) is None,
        },
{
    proof {
        reveal_strlit("==");
        reveal_strlit("!=");
        reveal_strlit(">=");
        reveal_strlit("<=");
    }
    if lit_at(s, p, "==") {
        Some((p + 2, Op::Eq))
    } else if lit_at(s, p, "!=") {
        Some((p + 2, Op::NotEq))
    } else if lit_at(s, p, ">=") {
        Some((p + 2, Op::GreaterEq))
    } else if lit_at(s, p, "<=") {
        Some((p + 2, Op::LessEq))
    } else if char_at_exec(s, p, '>') {
        Some((p + 1, Op::Greater))
    } else if char_at_exec(s, p, '<') {
        Some((p + 1, Op::Less))
    } else {
        None
    }
}

fn bracketed_exec(s: &Vec<char>, p: usize) -> (r: Result<(usize, PatAtom), Stop>)
    requires
        p <= s.len(),
    ensures
        match r {
            Ok((q, a)) => bracketed_p(s@, p as int) == Ok::<(int, PatAtomV), Stop>(
                (q as int, pat_atom_view(a)),
            ) && p < q <= s.len(),
            Err(e) => bracketed_p(s@, p as int) == Err::<(int, PatAtomV), Stop>(e),
        },
{
    match string_lit_exec(s, p) {
        Ok((q, k)) => Ok((q, PatAtom::Select(k))),
        Err(Stop::Abort) => Err(Stop::Abort),
        Err(Stop::Fail) => match index_exec(s, p) {
            Ok((q, i)) => {
                proof {
                    crate::lexer::lemma_digits_end(s@, p as int);
                }
                Ok((q, PatAtom::Index(i)))
            },
            Err(e) => Err(e),
        },
    }
}

/// Parses a transformer at position `p`, with the whitespace around it.
pub(crate) fn expr_exec<F: Fn(&str) -> Option<u64>>(
    s: &Vec<char>,
    p: usize,
    decode: &F,
    Ghost(dec): Ghost<spec_fn(Seq<char>) -> Option<u64>>,
) -> (r: Result<(usize, Expr), Stop>)
    requires
        p <= s.len(),
        decodes(*decode, dec),
    ensures
        expr_res(r) == expr_p(s@, p as int, dec),
        r matches Ok((q, _)) ==> q <= s.len(),
    decreases s.len() - p, 5nat,
{
    let q = skip_ws_exec(s, p);
    match operand_exec(s, q, decode, Ghost(dec)) {
        Err(e) => Err(e),
        Ok((q1, l)) => {
            if q1 < q || q1 > s.len() {
                return Err(Stop::Fail);
            }
            let q2 = skip_ws_exec(s, q1);
            match op_exec(s, q2) {
                None => Ok((q2, l)),
                Some((q3, op)) => {
                    let q4 = skip_ws_exec(s, q3);
                    match operand_exec(s, q4, decode, Ghost(dec)) {
                        Ok((q5, r)) => {
                            if q5 < q4 || q5 > s.len() {
                                return Err(Stop::Fail);
                            }
                            let q6 = skip_ws_exec(s, q5);
                            Ok((q6, Expr::BinOp(op, Box::new(l), Box::new(r))))
                        },
                        Err(Stop::Fail) => Ok((q2, l)),
                        Err(Stop::Abort) => Err(Stop::Abort),
                    }
                },
            }
        },
    }
}

fn operand_exec<F: Fn(&str) -> Option<u64>>(
    s: &Vec<char>,
    p: usize,
    decode: &F,
    Ghost(dec): Ghost<spec_fn(Seq<char>) -> Option<u64>>,
) -> (r: Result<(usize, Expr), Stop>)
    requires
        p <= s.len(),
        decodes(*decode, dec),
    ensures
        expr_res(r) == operand_p(s@, p as int, dec),
        r matches Ok((q, _)) ==> q <= s.len(),
    decreases s.len() - p, 4nat,
{
    match number_exec(s, p, decode, Ghost(dec)) {
        Ok(r) => return Ok(r),
        Err(_) => {},
    }
    match string_lit_exec(s, p) {
        Ok((q, t)) => return Ok((q, Expr::String(t))),
        Err(Stop::Abort) => return Err(Stop::Abort),
        Err(Stop::Fail) => {},
    }
    match array_exec(s, p, decode, Ghost(dec)) {
        Err(Stop::Fail) => {},
        r => return r,
    }
    match object_exec(s, p, decode, Ghost(dec)) {
        Err(Stop::Fail) => {},
        r => return r,
    }
    match keyword_exec(s, p) {
        Err(Stop::Fail) => {},
        r => return r,
    }
    pat_exec(s, p, decode, Ghost(dec))
}

fn array_exec<F: Fn(&str) -> Option<u64>>(
    s: &Vec<char>,
    p: usize,
    decode: &F,
    Ghost(dec): Ghost<spec_fn(Seq<char>) -> Option<u64>>,
) -> (r: Result<(usize, Expr), Stop>)
    requires
        p <= s.len(),
        decodes(*decode, dec),
    ensures
        expr_res(r) == array_p(s@, p as int, dec),
        r matches Ok((q, _)) ==> q <= s.len(),
    decreases s.len() - p, 3nat,
{
    let q = skip_ws_exec(s, p);
    if !char_at_exec(s, q, '[') {
        return Err(Stop::Fail);
    }
    let q1 = skip_ws_exec(s, q + 1);
    match items_first_exec(s, q1, decode, Ghost(dec)) {
        Err(e) => Err(e),
        Ok((l, items)) => {
            if l < q1 || l > s.len() {
                return Err(Stop::Fail);
            }
            let l1 = skip_ws_exec(s, l);
            if char_at_exec(s, l1, ']') {
                let end = skip_ws_exec(s, l1 + 1);
                Ok((end, Expr::Array(items)))
            } else {
                Err(Stop::Fail)
            }
        },
    }
}

fn items_first_exec<F: Fn(&str) -> Option<u64>>(
    s: &Vec<char>,
    p: usize,
    decode: &F,
    Ghost(dec): Ghost<spec_fn(Seq<char>) -> Option<u64>>,
) -> (r: Result<(usize, Vec<Expr>), Stop>)
    requires
        p <= s.len(),
        decodes(*decode, dec),
    ensures
        match r {
            Ok((q, v)) => items_first_p(s@, p as int, dec) == Ok::<(int, Seq<ExprV>), Stop>(
                (q as int, expr_seq_view(v@)),
            ),
            Err(e) => items_first_p(s@, p as int, dec) == Err::<(int, Seq<ExprV>), Stop>(e),
        },
    decreases s.len() - p, 6nat,
{
    match expr_exec(s, p, decode, Ghost(dec)) {
        Err(Stop::Fail) => Ok((p, Vec::new())),
        Err(Stop::Abort) => Err(Stop::Abort),
        Ok((e, x)) => {
            if e <= p || e > s.len() {
                return Err(Stop::Fail);
            }
            let mut items: Vec<Expr> = Vec::new();
            items.push(x);
            proof {
                super::syntax::lemma_expr_seq_view(items@);
                assert(expr_seq_view(items@) =~= seq![expr_view(items@[0])]);
            }
            items_rest_exec(s, e, items, decode, Ghost(dec))
        },
    }
}

fn items_rest_exec<F: Fn(&str) -> Option<u64>>(
    s: &Vec<char>,
    p: usize,
    acc: Vec<Expr>,
    decode: &F,
    Ghost(dec): Ghost<spec_fn(Seq<char>) -> Option<u64>>,
) -> (r: Result<(usize, Vec<Expr>), Stop>)
    requires
        p <= s.len(),
        decodes(*decode, dec),
    ensures
        match r {
            Ok((q, v)) => items_rest_p(s@, p as int, expr_seq_view(acc@), dec) == Ok::<
                (int, Seq<ExprV>),
                Stop,
            >((q as int, expr_seq_view(v@))),
            Err(e) => items_rest_p(s@, p as int, expr_seq_view(acc@), dec) == Err::<
                (int, Seq<ExprV>),
                Stop,
            >(e),
        },
    decreases s.len() - p, 6nat,
{
    if !char_at_exec(s, p, ',') {
        return Ok((p, acc));
    }
    match expr_exec(s, p + 1, decode, Ghost(dec)) {
        Err(Stop::Fail) => Ok((p, acc)),
        Err(Stop::Abort) => Err(Stop::Abort),
        Ok((e, x)) => {
            if e <= p + 1 || e > s.len() {
                return Ok((p, acc));
            }
            let mut acc = acc;
            let ghost prev = acc@;
            acc.push(x);
            proof {
                assert(acc@.drop_last() =~= prev);
            }
            items_rest_exec(s, e, acc, decode, Ghost(dec))
        },
    }
}

fn object_exec<F: Fn(&str) -> Option<u64>>(
    s: &Vec<char>,
    p: usize,
    decode: &F,
    Ghost(dec): Ghost<spec_fn(Seq<char>) -> Option<u64>>,
) -> (r: Result<(usize, Expr), Stop>)
    requires
        p <= s.len(),
        decodes(*decode, dec),
    ensures
        expr_res(r) == object_p(s@, p as int, dec),
        r matches Ok((q, _)) ==> q <= s.len(),
    decreases s.len() - p, 3nat,
{
    let q = skip_ws_exec(s, p);
    if !char_at_exec(s, q, '{') {
        return Err(Stop::Fail);
    }
    match entries_first_exec(s, q + 1, decode, Ghost(dec)) {
        Err(e) => Err(e),
        Ok((l, entries)) => {
            if char_at_exec(s, l, '}') {
                let end = skip_ws_exec(s, l + 1);
                Ok((end, Expr::Object(entries)))
            } else {
                Err(Stop::Fail)
            }
        },
    }
}

fn key_val_exec<F: Fn(&str) -> Option<u64>>(
    s: &Vec<char>,
    p: usize,
    decode: &F,
    Ghost(dec): Ghost<spec_fn(Seq<char>) -> Option<u64>>,
) -> (r: Result<(usize, (String, Expr)), Stop>)
    requires
        p <= s.len(),
        decodes(*decode, dec),
    ensures
        match r {
            Ok((q, kv)) => key_val_p(s@, p as int, dec) == Ok::<(int, (Seq<char>, ExprV)), Stop>(
                (q as int, (kv.0@, kv.1@)),
            ) && q <= s.len(),
            Err(e) => key_val_p(s@, p as int, dec) == Err::<(int, (Seq<char>, ExprV)), Stop>(e),
        },
    decreases s.len() - p, 5nat,
{
    let q = skip_ws_exec(s, p);
    match string_lit_exec(s, q) {
        Err(e) => Err(e),
        Ok((q1, k)) => {
            let q2 = skip_ws_exec(s, q1);
            if !char_at_exec(s, q2, ':') {
                return Err(Stop::Fail);
            }
            match expr_exec(s, q2 + 1, decode, Ghost(dec)) {
                Err(e) => Err(e),
                Ok((e, v)) => {
                    let end = skip_ws_exec(s, e);
                    Ok((end, (k, v)))
                },
            }
        },
    }
}

fn entries_first_exec<F: Fn(&str) -> Option<u64>>(
    s: &Vec<char>,
    p: usize,
    decode: &F,
    Ghost(dec): Ghost<spec_fn(Seq<char>) -> Option<u64>>,
) -> (r: Result<(usize, Vec<(String, Expr)>), Stop>)
    requires
        p <= s.len(),
        decodes(*decode, dec),
    ensures
        match r {
            Ok((q, v)) => entries_first_p(s@, p as int, dec) == Ok::<
                (int, Seq<(Seq<char>, ExprV)>),
                Stop,
            >((q as int, expr_entries_view(v@))) && q <= s.len(),
            Err(e) => entries_first_p(s@, p as int, dec) == Err::<
                (int, Seq<(Seq<char>, ExprV)>),
                Stop,
            >(e),
        },
    decreases s.len() - p, 6nat,
{
    match key_val_exec(s, p, decode, Ghost(dec)) {
        Err(Stop::Fail) => Ok((p, Vec::new())),
        Err(Stop::Abort) => Err(Stop::Abort),
        Ok((e, kv)) => {
            if e <= p || e > s.len() {
                return Err(Stop::Fail);
            }
            let mut entries: Vec<(String, Expr)> = Vec::new();
            entries.push(kv);
            proof {
                super::syntax::lemma_expr_entries_view(entries@);
                assert(expr_entries_view(entries@) =~= seq![
                    (entries@[0].0@, expr_view(entries@[0].1)),
                ]);
            }
            entries_rest_exec(s, e, entries, decode, Ghost(dec))
        },
    }
}

fn entries_rest_exec<F: Fn(&str) -> Option<u64>>(
    s: &Vec<char>,
    p: usize,
    acc: Vec<(String, Expr)>,
    decode: &F,
    Ghost(dec): Ghost<spec_fn(Seq<char>) -> Option<u64>>,
) -> (r: Result<(usize, Vec<(String, Expr)>), Stop>)
    requires
        p <= s.len(),
        decodes(*decode, dec),
    ensures
        match r {
            Ok((q, v)) => entries_rest_p(s@, p as int, expr_entries_view(acc@), dec) == Ok::<
                (int, Seq<(Seq<char>, ExprV)>),
                Stop,
            >((q as int, expr_entries_view(v@))) && q <= s.len(),
            Err(e) => entries_rest_p(s@, p as int, expr_entries_view(acc@), dec) == Err::<
                (int, Seq<(Seq<char>, ExprV)>),
                Stop,
            >(e),
        },
    decreases s.len() - p, 6nat,
{
    if !char_at_exec(s, p, ',') {
        return Ok((p, acc));
    }
    match key_val_exec(s, p + 1, decode, Ghost(dec)) {
        Err(Stop::Fail) => Ok((p, acc)),
        Err(Stop::Abort) => Err(Stop::Abort),
        Ok((e, kv)) => {
            if e <= p + 1 || e > s.len() {
                return Ok((p, acc));
            }
            let mut acc = acc;
            let ghost prev = acc@;
            acc.push(kv);
            proof {
                assert(acc@.drop_last() =~= prev);
            }
            entries_rest_exec(s, e, acc, decode, Ghost(dec))
        },
    }
}

fn pat_exec<F: Fn(&str) -> Option<u64>>(
    s: &Vec<char>,
    p: usize,
    decode: &F,
    Ghost(dec): Ghost<spec_fn(Seq<char>) -> Option<u64>>,
) -> (r: Result<(usize, Expr), Stop>)
    requires
        p <= s.len(),
        decodes(*decode, dec),
    ensures
        expr_res(r) == pat_p(s@, p as int, dec),
        r matches Ok((q, _)) ==> q <= s.len(),
    decreases s.len() - p, 3nat,
{
    proof {
        reveal_strlit("$in");
    }
    if !lit_at(s, p, "$in") {
        return Err(Stop::Fail);
    }
    match steps_exec(s, p + 3, Pat::Empty, decode, Ghost(dec)) {
        Ok((q, pat)) => Ok((q, Expr::Pat(pat))),
        Err(e) => Err(e),
    }
}

fn steps_exec<F: Fn(&str) -> Option<u64>>(
    s: &Vec<char>,
    p: usize,
    acc: Pat,
    decode: &F,
    Ghost(dec): Ghost<spec_fn(Seq<char>) -> Option<u64>>,
) -> (r: Result<(usize, Pat), Stop>)
    requires
        p <= s.len(),
        decodes(*decode, dec),
    ensures
        match r {
            Ok((q, pat)) => steps_p(s@, p as int, acc@, dec) == Ok::<(int, PatV), Stop>(
                (q as int, pat@),
            ) && q <= s.len(),
            Err(e) => steps_p(s@, p as int, acc@, dec) == Err::<(int, PatV), Stop>(e),
        },
    decreases s.len() - p, 6nat,
{
    match step_exec(s, p, decode, Ghost(dec)) {
        Err(Stop::Fail) => Ok((p, acc)),
        Err(Stop::Abort) => Err(Stop::Abort),
        Ok((q, a)) => {
            if p < q && q <= s.len() {
                steps_exec(s, q, Pat::Pat(a, Box::new(acc)), decode, Ghost(dec))
            } else if p == s.len() {
                Ok((p, acc))
            } else {
                Err(Stop::Fail)
            }
        },
    }
}

fn step_exec<F: Fn(&str) -> Option<u64>>(
    s: &Vec<char>,
    p: usize,
    decode: &F,
    Ghost(dec): Ghost<spec_fn(Seq<char>) -> Option<u64>>,
) -> (r: Result<(usize, PatAtom), Stop>)
    requires
        p <= s.len(),
        decodes(*decode, dec),
    ensures
        match r {
            Ok((q, a)) => step_p(s@, p as int, dec) == Ok::<(int, PatAtomV), Stop>(
                (q as int, pat_atom_view(a)),
            ),
            Err(e) => step_p(s@, p as int, dec) == Err::<(int, PatAtomV), Stop>(e),
        },
    decreases s.len() - p, 2nat,
{
    if char_at_exec(s, p, '[') {
        match bracketed_exec(s, p + 1) {
            Ok((q, a)) => if char_at_exec(s, q, ']') {
                Ok((q + 1, a))
            } else {
                Err(Stop::Fail)
            },
            Err(e) => Err(e),
        }
    } else if char_at_exec(s, p, '.') {
        match map_exec(s, p + 1, decode, Ghost(dec)) {
            Err(Stop::Fail) => match ident_exec(s, p + 1) {
                Some((q, name)) => Ok((q, PatAtom::Select(name))),
                None => Err(Stop::Fail),
            },
            r => r,
        }
    } else {
        Err(Stop::Fail)
    }
}

fn map_exec<F: Fn(&str) -> Option<u64>>(
    s: &Vec<char>,
    p: usize,
    decode: &F,
    Ghost(dec): Ghost<spec_fn(Seq<char>) -> Option<u64>>,
) -> (r: Result<(usize, PatAtom), Stop>)
    requires
        p <= s.len(),
        decodes(*decode, dec),
    ensures
        match r {
            Ok((q, a)) => map_p(s@, p as int, dec) == Ok::<(int, PatAtomV), Stop>(
                (q as int, pat_atom_view(a)),
            ),
            Err(e) => map_p(s@, p as int, dec) == Err::<(int, PatAtomV), Stop>(e),
        },
    decreases s.len() - p, 1nat,
{
    proof {
        reveal_strlit("map(");
    }
    if !lit_at(s, p, "map(") {
        return Err(Stop::Fail);
    }
    match expr_exec(s, p + 4, decode, Ghost(dec)) {
        Ok((q, e)) => if char_at_exec(s, q, ')') {
            Ok((q + 1, PatAtom::MapEach(Box::new(e))))
        } else {
            Err(Stop::Fail)
        },
        Err(e) => Err(e),
    }
}

/// The input is not a transformer.
pub struct ParseError;

/// The function on decimal text that `decode` computes.
pub open spec fn decoder_of<F: Fn(&str) -> Option<u64>>(decode: F) -> spec_fn(Seq<char>) -> Option<
    u64,
> {
    choose|dec: spec_fn(Seq<char>) -> Option<u64>| decodes(decode, dec)
}

/// Parses a transformer at the start of `input`, with the whitespace around
/// it, and gives it with the text that follows.  `decode` reads decimal
/// text as the bits of a double (`None` where it is not one).
pub fn parse<F: Fn(&str) -> Option<u64>>(input: &str, decode: &F) -> (r: Result<
    (String, Expr),
    ParseError,
>)
    requires
        exists|dec: spec_fn(Seq<char>) -> Option<u64>| decodes(*decode, dec),
        expr_p(input@, 0, decoder_of(*decode)) != Err::<(int, ExprV), Stop>(Stop::Abort),
    ensures
        match r {
            Ok((rest, e)) => expr_p(input@, 0, decoder_of(*decode)) matches Ok((q, v)) && v == e@
                && rest@ == input@.subrange(q, input@.len() as int),
            Err(_) => expr_p(input@, 0, decoder_of(*decode)) == Err::<(int, ExprV), Stop>(
                Stop::Fail,
            ),
        },
{
    let chars = chars_of(input);
    let ghost dec = decoder_of(*decode);
    match expr_exec(&chars, 0, decode, Ghost(dec)) {
        Ok((q, e)) => {
            let rest = string_of(&chars, q, chars.len());
            Ok((rest, e))
        },
        Err(_) => Err(ParseError),
    }
}

/// The text of a comparison operator.
pub open spec fn op_symbol(op: Op) -> Seq<char> {
    match op {
        Op::Eq => "=="@,
        Op::NotEq => "!="@,
        Op::Greater => ">"@,
        Op::Less => "<"@,
        Op::GreaterEq => ">="@,
        Op::LessEq => "<="@,
    }
}

/// Reading an operator reads the comparison whose symbol is written there,
/// the longest one where two fit (`>=` is `GreaterEq`, not `>` followed by
/// `=`), and nothing where no symbol is written.
pub proof fn law_op_symbols(s: Seq<char>, p: int)
    ensures
        op_p(s, p) matches Some((q, op)) ==> q == p + op_symbol(op).len() && has_lit(
            s,
            p,
            op_symbol(op),
        ) && forall|o: Op| #[trigger] has_lit(s, p, op_symbol(o)) ==> op_symbol(o).len() <= q - p,
        op_p(s, p) is None ==> forall|o: Op| !(#[trigger] has_lit(s, p, op_symbol(o))),
{
    reveal_strlit("==");
    reveal_strlit("!=");
    reveal_strlit(">=");
    reveal_strlit("<=");
    reveal_strlit(">");
    reveal_strlit("<");
    assert("=="@ =~= seq!['=', '=']);
    assert("!="@ =~= seq!['!', '=']);
    assert(">="@ =~= seq!['>', '=']);
    assert("<="@ =~= seq!['<', '=']);
    assert(">"@ =~= seq!['>']);
    assert("<"@ =~= seq!['<']);
    if 0 <= p < s.len() {
        assert(s.subrange(p, p + 1) =~= seq![s[p]]);
    }
    if 0 <= p && p + 2 <= s.len() {
        assert(s.subrange(p, p + 2) =~= seq![s[p], s[p + 1]]);
    }
    assert forall|o: Op| #[trigger] has_lit(s, p, op_symbol(o)) implies (match op_p(s, p) {
        Some((q, op)) => op_symbol(o).len() <= q - p,
        None => false,
    }) by {
        match o {
            Op::Eq | Op::NotEq | Op::GreaterEq | Op::LessEq => {
                assert(s.subrange(p, p + 2) =~= seq![s[p], s[p + 1]]);
                assert(op_symbol(o).len() == 2);
                assert(s[p] == op_symbol(o)[0] && s[p + 1] == op_symbol(o)[1]);
            },
            Op::Greater | Op::Less => {
                assert(s.subrange(p, p + 1) =~= seq![s[p]]);
                assert(op_symbol(o).len() == 1);
                assert(s[p] == op_symbol(o)[0]);
                assert(char_at(s, p, '>') || char_at(s, p, '<'));
            },
        }
    }
}

} // verus!
