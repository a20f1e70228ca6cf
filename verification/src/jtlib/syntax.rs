//! Syntax and evaluation of the first form of JSON transformers.
use vstd::prelude::*;
use crate::json::{
    Json, JsonV, Number, NumberV, build_object, entries_get, entries_insert, entries_view,
    entry_lookup, json_seq_view, last_value, law_build_object_lookup,
};
use crate::json_transformers::eval::opt_view;

verus! {

/// A pattern: `Dot(key, rest)` takes entry `key` of an object, then applies
/// `rest` to it.
#[derive(Debug, PartialEq)]
pub enum Pat {
    Empty,
    Dot(String, Box<Pat>),
}

/// A transformer: builds a JSON value from its input.
#[derive(Debug, PartialEq)]
pub enum Expr {
    Pat(Pat),
    Null,
    Bool(bool),
    Number(Number),
    String(String),
    Array(Vec<Expr>),
    Object(Vec<(String, Expr)>),
}

/// The mathematical form of a pattern.
pub enum PatV {
    Empty,
    Dot(Seq<char>, Box<PatV>),
}

/// The mathematical form of a transformer.
pub enum ExprV {
    Pat(PatV),
    Null,
    Bool(bool),
    Number(NumberV),
    Str(Seq<char>),
    Array(Seq<ExprV>),
    Object(Seq<(Seq<char>, ExprV)>),
}

/// The mathematical form of a pattern.
pub open spec fn pat_view(p: Pat) -> PatV
    decreases p,
{
    match p {
        Pat::Empty => PatV::Empty,
        Pat::Dot(k, rest) => PatV::Dot(k@, Box::new(pat_view(*rest))),
    }
}

/// The mathematical form of a transformer.
pub open spec fn expr_view(e: Expr) -> ExprV
    decreases e,
{
    match e {
        Expr::Pat(p) => ExprV::Pat(pat_view(p)),
        Expr::Null => ExprV::Null,
        Expr::Bool(b) => ExprV::Bool(b),
        Expr::Number(n) => ExprV::Number(n@),
        Expr::String(s) => ExprV::Str(s@),
        Expr::Array(v) => ExprV::Array(expr_seq_view(v@)),
        Expr::Object(v) => ExprV::Object(expr_entries_view(v@)),
    }
}

/// The mathematical forms of a sequence of transformers.
pub open spec fn expr_seq_view(s: Seq<Expr>) -> Seq<ExprV>
    decreases s,
{
    if s.len() == 0 {
        Seq::empty()
    } else {
        expr_seq_view(s.drop_last()).push(expr_view(s.last()))
    }
}

/// The mathematical forms of the entries of an object transformer.
pub open spec fn expr_entries_view(s: Seq<(String, Expr)>) -> Seq<(Seq<char>, ExprV)>
    decreases s,
{
    if s.len() == 0 {
        Seq::empty()
    } else {
        expr_entries_view(s.drop_last()).push((s.last().0@, expr_view(s.last().1)))
    }
}

impl View for Pat {
    type V = PatV;

    open spec fn view(&self) -> PatV {
        pat_view(*self)
    }
}

impl View for Expr {
    type V = ExprV;

    open spec fn view(&self) -> ExprV {
        expr_view(*self)
    }
}

proof fn lemma_expr_seq_view(s: Seq<Expr>)
    ensures
        expr_seq_view(s).len() == s.len(),
        forall|i: int| 0 <= i < s.len() ==> #[trigger] expr_seq_view(s)[i] == expr_view(s[i]),
    decreases s.len(),
{
    if s.len() > 0 {
        lemma_expr_seq_view(s.drop_last());
    }
}

proof fn lemma_expr_entries_view(s: Seq<(String, Expr)>)
    ensures
        expr_entries_view(s).len() == s.len(),
        forall|i: int|
            0 <= i < s.len() ==> #[trigger] expr_entries_view(s)[i] == (s[i].0@, expr_view(s[i].1)),
    decreases s.len(),
{
    if s.len() > 0 {
        lemma_expr_entries_view(s.drop_last());
    }
}

/// What pattern `p` selects from `v`: `None` where a key is missing or the
/// value it is looked up in is not an object.
pub open spec fn eval_pat_spec(p: PatV, v: JsonV) -> Option<JsonV>
    decreases p,
{
    match p {
        PatV::Empty => Some(v),
        PatV::Dot(k, rest) => match v {
            JsonV::Object(es) => match entry_lookup(es, k) {
                Some(x) => eval_pat_spec(*rest, x),
                None => None,
            },
            _ => None,
        },
    }
}

/// What transformer `e` gives on input `v`: `None` when a pattern in it
/// selects nothing.
pub open spec fn eval_spec(e: ExprV, v: JsonV) -> Option<JsonV>
    decreases e, 0nat,
{
    match e {
        ExprV::Pat(p) => eval_pat_spec(p, v),
        ExprV::Null => Some(JsonV::Null),
        ExprV::Bool(b) => Some(JsonV::Bool(b)),
        ExprV::Number(n) => Some(JsonV::Number(n)),
        ExprV::Str(s) => Some(JsonV::Str(s)),
        ExprV::Array(es) => match eval_list_spec(es, v) {
            Some(vs) => Some(JsonV::Array(vs)),
            None => None,
        },
        ExprV::Object(kes) => match eval_entries_spec(kes, v) {
            Some(pairs) => Some(JsonV::Object(build_object(pairs))),
            None => None,
        },
    }
}

/// The values of the transformers `es` on `v`, if each has one.
pub open spec fn eval_list_spec(es: Seq<ExprV>, v: JsonV) -> Option<Seq<JsonV>>
    decreases es, 0nat,
{
    if es.len() == 0 {
        Some(Seq::empty())
    } else {
        match (eval_list_spec(es.drop_last(), v), eval_spec(es.last(), v)) {
            (Some(xs), Some(x)) => Some(xs.push(x)),
            _ => None,
        }
    }
}

/// The keys of `kes` paired with the values of their transformers on `v`,
/// if each has one.
pub open spec fn eval_entries_spec(kes: Seq<(Seq<char>, ExprV)>, v: JsonV) -> Option<
    Seq<(Seq<char>, JsonV)>,
>
    decreases kes, 0nat,
{
    if kes.len() == 0 {
        Some(Seq::empty())
    } else {
        match (eval_entries_spec(kes.drop_last(), v), eval_spec(kes.last().1, v)) {
            (Some(xs), Some(x)) => Some(xs.push((kes.last().0, x))),
            _ => None,
        }
    }
}

proof fn lemma_eval_list_prefix(es: Seq<ExprV>, v: JsonV, i: int)
    requires
        0 <= i <= es.len(),
        eval_list_spec(es.take(i), v) is None,
    ensures
        eval_list_spec(es, v) is None,
    decreases es.len() - i,
{
    if i < es.len() {
        assert(es.take(i + 1).drop_last() =~= es.take(i));
        lemma_eval_list_prefix(es, v, i + 1);
    } else {
        assert(es.take(i) =~= es);
    }
}

proof fn lemma_eval_entries_prefix(kes: Seq<(Seq<char>, ExprV)>, v: JsonV, i: int)
    requires
        0 <= i <= kes.len(),
        eval_entries_spec(kes.take(i), v) is None,
    ensures
        eval_entries_spec(kes, v) is None,
    decreases kes.len() - i,
{
    if i < kes.len() {
        assert(kes.take(i + 1).drop_last() =~= kes.take(i));
        lemma_eval_entries_prefix(kes, v, i + 1);
    } else {
        assert(kes.take(i) =~= kes);
    }
}

fn eval_pat(pat: &Pat, value: &Json) -> (r: Option<Json>)
    ensures
        opt_view(r) == eval_pat_spec(pat@, value@),
    decreases pat,
{
    match pat {
        Pat::Empty => Some(value.copy()),
        Pat::Dot(key, rest) => match value {
            Json::Object(entries) => match entries_get(entries, key.as_str()) {
                Some(x) => eval_pat(rest, x),
                None => None,
            },
            _ => None,
        },
    }
}

/// What transformer `expr` gives on input `value`: `None` when a pattern
/// in it selects nothing.
#[verifier::loop_isolation(false)]
pub fn eval(expr: &Expr, value: &Json) -> (r: Option<Json>)
    ensures
        opt_view(r) == eval_spec(expr@, value@),
    decreases expr,
{
    match expr {
        Expr::Pat(p) => eval_pat(p, value),
        Expr::Null => Some(Json::Null),
        Expr::Bool(b) => Some(Json::Bool(*b)),
        Expr::Number(n) => Some(Json::Number(n.copy())),
        Expr::String(s) => Some(Json::String(s.clone())),
        Expr::Array(es) => {
            let ghost ev = expr_seq_view(es@);
            proof {
                lemma_expr_seq_view(es@);
                assert(ev.take(0) =~= Seq::<ExprV>::empty());
            }
            let mut out: Vec<Json> = Vec::new();
            let mut i: usize = 0;
            while i < es.len()
                invariant
                    i <= es.len(),
                    eval_list_spec(ev.take(i as int), value@) == Some(json_seq_view(out@)),
                decreases es.len() - i,
            {
                let x = eval(&es[i], value);
                proof {
                    assert(ev.take(i + 1).drop_last() =~= ev.take(i as int));
                    assert(ev.take(i + 1).last() == ev[i as int]);
                }
                match x {
                    Some(y) => {
                        let ghost prev = out@;
                        out.push(y);
                        proof {
                            assert(out@.drop_last() =~= prev);
                        }
                    },
                    None => {
                        proof {
                            lemma_eval_list_prefix(ev, value@, i + 1);
                        }
                        return None;
                    },
                }
                i = i + 1;
            }
            proof {
                assert(ev.take(es.len() as int) =~= ev);
            }
            Some(Json::Array(out))
        },
        Expr::Object(kes) => {
            let ghost kv = expr_entries_view(kes@);
            proof {
                lemma_expr_entries_view(kes@);
                assert(kv.take(0) =~= Seq::<(Seq<char>, ExprV)>::empty());
            }
            let mut out: Vec<(String, Json)> = Vec::new();
            let ghost pairs: Seq<(Seq<char>, JsonV)> = Seq::empty();
            let mut i: usize = 0;
            while i < kes.len()
                invariant
                    i <= kes.len(),
                    eval_entries_spec(kv.take(i as int), value@) == Some(pairs),
                    entries_view(out@) == build_object(pairs),
                decreases kes.len() - i,
            {
                let x = eval(&kes[i].1, value);
                proof {
                    assert(kv.take(i + 1).drop_last() =~= kv.take(i as int));
                    assert(kv.take(i + 1).last() == kv[i as int]);
                }
                match x {
                    Some(y) => {
                        let ghost yv = y@;
                        let k = kes[i].0.clone();
                        entries_insert(&mut out, k, y);
                        proof {
                            let prev = pairs;
                            pairs = pairs.push((kv[i as int].0, yv));
                            assert(pairs.drop_last() =~= prev);
                        }
                    },
                    None => {
                        proof {
                            lemma_eval_entries_prefix(kv, value@, i + 1);
                        }
                        return None;
                    },
                }
                i = i + 1;
            }
            proof {
                assert(kv.take(kes.len() as int) =~= kv);
            }
            Some(Json::Object(out))
        },
    }
}

proof fn lemma_list_elementwise(es: Seq<ExprV>, v: JsonV)
    ensures
        eval_list_spec(es, v) matches Some(ws) ==> ws.len() == es.len() && forall|i: int|
            0 <= i < es.len() ==> eval_spec(#[trigger] es[i], v) == Some(ws[i]),
        eval_list_spec(es, v) is None ==> exists|i: int|
            0 <= i < es.len() && (#[trigger] eval_spec(es[i], v)) is None,
    decreases es.len(),
{
    if es.len() > 0 {
        let init = es.drop_last();
        lemma_list_elementwise(init, v);
        assert(es.last() == es[es.len() - 1]);
        if let Some(ws) = eval_list_spec(init, v) {
            assert forall|i: int| 0 <= i < init.len() implies eval_spec(#[trigger] es[i], v) == Some(
                ws[i],
            ) by {
                assert(init[i] == es[i]);
            }
        } else {
            let i = choose|i: int| 0 <= i < init.len() && (#[trigger] eval_spec(init[i], v)) is None;
            assert(init[i] == es[i]);
        }
    }
}

/// An array transformer has a value exactly when each element has one,
/// and then the value of element `i` is at position `i`.
pub proof fn law_array_elementwise(es: Seq<ExprV>, v: JsonV)
    ensures
        eval_spec(ExprV::Array(es), v) matches Some(JsonV::Array(ws)) ==> ws.len() == es.len()
            && forall|i: int| 0 <= i < es.len() ==> eval_spec(#[trigger] es[i], v) == Some(ws[i]),
        eval_spec(ExprV::Array(es), v) is None <==> exists|i: int|
            0 <= i < es.len() && (#[trigger] eval_spec(es[i], v)) is None,
{
    lemma_list_elementwise(es, v);
    if let Some(ws) = eval_list_spec(es, v) {
        assert forall|i: int| 0 <= i < es.len() implies (#[trigger] eval_spec(es[i], v)) is Some by {
            assert(eval_spec(es[i], v) == Some(ws[i]));
        }
    }
}

proof fn lemma_entries_elementwise(kes: Seq<(Seq<char>, ExprV)>, v: JsonV)
    ensures
        eval_entries_spec(kes, v) matches Some(ps) ==> ps.len() == kes.len() && forall|i: int|
            0 <= i < kes.len() ==> (#[trigger] ps[i]).0 == kes[i].0 && eval_spec(kes[i].1, v)
                == Some(ps[i].1),
        eval_entries_spec(kes, v) is None ==> exists|i: int|
            0 <= i < kes.len() && (#[trigger] eval_spec(kes[i].1, v)) is None,
    decreases kes.len(),
{
    if kes.len() > 0 {
        let init = kes.drop_last();
        lemma_entries_elementwise(init, v);
        assert(kes.last() == kes[kes.len() - 1]);
        if eval_spec(kes.last().1, v) is None {
            assert(eval_spec(kes[kes.len() - 1].1, v) is None);
        }
        if let Some(ps) = eval_entries_spec(init, v) {
            assert forall|i: int| 0 <= i < init.len() implies init[i] == kes[i] by {}
        } else {
            let i = choose|i: int| 0 <= i < init.len() && (#[trigger] eval_spec(init[i].1, v)) is None;
            assert(init[i] == kes[i]);
        }
    }
}

/// An object transformer has a value exactly when each entry's
/// transformer has one; then its entries, in order, carry the keys and
/// the values of the entries of the transformer, and each key of the
/// object holds the value of the last entry with that key.
pub proof fn law_object_elementwise(kes: Seq<(Seq<char>, ExprV)>, v: JsonV)
    ensures
        eval_spec(ExprV::Object(kes), v) is None <==> exists|i: int|
            0 <= i < kes.len() && (#[trigger] eval_spec(kes[i].1, v)) is None,
        eval_entries_spec(kes, v) matches Some(ps) ==> ps.len() == kes.len() && (forall|i: int|
            0 <= i < kes.len() ==> (#[trigger] ps[i]).0 == kes[i].0 && eval_spec(kes[i].1, v)
                == Some(ps[i].1)) && eval_spec(ExprV::Object(kes), v) == Some(
            JsonV::Object(build_object(ps)),
        ) && forall|k: Seq<char>| #[trigger]
            entry_lookup(build_object(ps), k) == last_value(ps, k),
{
    lemma_entries_elementwise(kes, v);
    if let Some(ps) = eval_entries_spec(kes, v) {
        assert forall|i: int| 0 <= i < kes.len() implies (#[trigger] eval_spec(kes[i].1, v)) is Some by {
            assert(ps[i].0 == kes[i].0);
        }
        assert forall|k: Seq<char>| #[trigger]
            entry_lookup(build_object(ps), k) == last_value(ps, k) by {
            law_build_object_lookup(ps, k);
        }
    }
}

/// `Dot(k, rest)` takes entry `k` first and applies `rest` to it: on
/// `{a: {b: w}}` the pattern `Dot(a, Dot(b, Empty))` gives `w`.
pub proof fn law_dot_takes_key_first(a: Seq<char>, b: Seq<char>, w: JsonV)
    ensures
        eval_pat_spec(
            PatV::Dot(a, Box::new(PatV::Dot(b, Box::new(PatV::Empty)))),
            JsonV::Object(build_object(seq![(a, JsonV::Object(build_object(seq![(b, w)])))])),
        ) == Some(w),
{
    let inner = JsonV::Object(build_object(seq![(b, w)]));
    law_build_object_lookup(seq![(a, inner)], a);
    law_build_object_lookup(seq![(b, w)], b);
    assert(seq![(a, inner)].drop_last() =~= Seq::<(Seq<char>, JsonV)>::empty());
    assert(seq![(b, w)].drop_last() =~= Seq::<(Seq<char>, JsonV)>::empty());
    assert(last_value(seq![(a, inner)], a) == Some(inner));
    assert(last_value(seq![(b, w)], b) == Some(w));
    assert(entry_lookup(build_object(seq![(b, w)]), b) == Some(w));
    assert(entry_lookup(build_object(seq![(a, inner)]), a) == Some(inner));
    assert(eval_pat_spec(PatV::Empty, w) == Some(w));
    assert(eval_pat_spec(PatV::Dot(b, Box::new(PatV::Empty)), inner) == Some(w));
}

} // verus!
