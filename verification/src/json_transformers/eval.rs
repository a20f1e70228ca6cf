//! Evaluation of JSON transformers.
use vstd::prelude::*;
use crate::json::{
    Json, JsonV, Number, NumberV, entries_get, entries_insert, entries_view, entry_insert,
    entry_lookup, build_object, float_key, float_key_of, json_eq, lemma_json_eq_refl, json_seq_view,
    json_view, last_value, law_build_object_lookup, float_bits_finite, float_value, law_float_key_order,
    zero_free, law_json_eq_is_equality,
    lemma_entries_view, lemma_json_seq_view,
};
use super::syntax::{
    Expr, ExprV, Op, Pat, PatAtom, PatAtomV, PatV, expr_entries_view, expr_seq_view, expr_view,
    lemma_expr_entries_view, lemma_expr_seq_view, pat_view, pat_atom_view,
};

verus! {

/// The two sides of an ordering comparison, when both are non-negative
/// integers or both are doubles; otherwise the comparison has no result.
pub open spec fn order_operands(l: Option<JsonV>, r: Option<JsonV>) -> Option<(int, int)> {
    match (l, r) {
        (Some(JsonV::Number(NumberV::PosInt(a))), Some(JsonV::Number(NumberV::PosInt(b)))) => Some(
            (a as int, b as int),
        ),
        (Some(JsonV::Number(NumberV::Float(a))), Some(JsonV::Number(NumberV::Float(b)))) => Some(
            (float_key(a), float_key(b)),
        ),
        _ => None,
    }
}

/// Two sides have equal values, or neither has one.
pub open spec fn opt_json_eq(l: Option<JsonV>, r: Option<JsonV>) -> bool {
    match (l, r) {
        (Some(x), Some(y)) => json_eq(x, y),
        (None, None) => true,
        _ => false,
    }
}

/// The value of a comparison of the values `l` and `r` of its two sides
/// (`None` where a side has no value).
pub open spec fn binop_spec(op: Op, l: Option<JsonV>, r: Option<JsonV>) -> Option<JsonV> {
    match op {
        Op::Eq => Some(JsonV::Bool(opt_json_eq(l, r))),
        Op::NotEq => Some(JsonV::Bool(!opt_json_eq(l, r))),
        Op::Greater => match order_operands(l, r) {
            Some((a, b)) => Some(JsonV::Bool(a > b)),
            None => None,
        },
        Op::Less => match order_operands(l, r) {
            Some((a, b)) => Some(JsonV::Bool(a < b)),
            None => None,
        },
        Op::GreaterEq => match order_operands(l, r) {
            Some((a, b)) => Some(JsonV::Bool(a >= b)),
            None => None,
        },
        Op::LessEq => match order_operands(l, r) {
            Some((a, b)) => Some(JsonV::Bool(a <= b)),
            None => None,
        },
    }
}

/// What transformer `e` gives on input `v`, or `None` when a pattern does
/// not match or a comparison cannot be made.
pub open spec fn eval_spec(e: ExprV, v: JsonV) -> Option<JsonV>
    decreases e, 0nat,
{
    match e {
        ExprV::Pat(p) => eval_pat_spec(p, v),
        ExprV::Null => Some(JsonV::Null),
        ExprV::Bool(b) => Some(JsonV::Bool(b)),
        ExprV::Number(n) => Some(JsonV::Number(n)),
        ExprV::Str(s) => Some(JsonV::Str(s)),
        ExprV::Array(es) => match eval_list_spec(es, v) {
            Some(vs) => Some(JsonV::Array(vs)),
            None => None,
        },
        ExprV::Object(kes) => match eval_entries_spec(kes, v) {
            Some(pairs) => Some(JsonV::Object(build_object(pairs))),
            None => None,
        },
        ExprV::BinOp(op, l, r) => binop_spec(op, eval_spec(*l, v), eval_spec(*r, v)),
    }
}

/// The values of the transformers `es` on input `v`, if each has one.
pub open spec fn eval_list_spec(es: Seq<ExprV>, v: JsonV) -> Option<Seq<JsonV>>
    decreases es, 0nat,
{
    if es.len() == 0 {
        Some(Seq::empty())
    } else {
        match (eval_list_spec(es.drop_last(), v), eval_spec(es.last(), v)) {
            (Some(xs), Some(x)) => Some(xs.push(x)),
            _ => None,
        }
    }
}

/// The keys of `kes` paired with the values of their transformers on `v`,
/// if each has one.
pub open spec fn eval_entries_spec(kes: Seq<(Seq<char>, ExprV)>, v: JsonV) -> Option<
    Seq<(Seq<char>, JsonV)>,
>
    decreases kes, 0nat,
{
    if kes.len() == 0 {
        Some(Seq::empty())
    } else {
        match (eval_entries_spec(kes.drop_last(), v), eval_spec(kes.last().1, v)) {
            (Some(xs), Some(x)) => Some(xs.push((kes.last().0, x))),
            _ => None,
        }
    }
}

/// The values of transformer `f` on each of `s`, if each has one.
pub open spec fn eval_each_spec(f: ExprV, s: Seq<JsonV>) -> Option<Seq<JsonV>>
    decreases f, s.len(),
{
    if s.len() == 0 {
        Some(Seq::empty())
    } else {
        match (eval_each_spec(f, s.drop_last()), eval_spec(f, s.last())) {
            (Some(xs), Some(x)) => Some(xs.push(x)),
            _ => None,
        }
    }
}

/// What one pattern step selects from `v`: the entry of a key of an
/// object, the element at a position of an array, or the array of the
/// values of a transformer on each element.
pub open spec fn eval_atom_spec(a: PatAtomV, v: JsonV) -> Option<JsonV>
    decreases a, 0nat,
{
    match a {
        PatAtomV::Select(k) => match v {
            JsonV::Object(es) => entry_lookup(es, k),
            _ => None,
        },
        PatAtomV::Index(i) => match v {
            JsonV::Array(s) => if i < s.len() {
                Some(s[i as int])
            } else {
                None
            },
            _ => None,
        },
        PatAtomV::MapEach(f) => match v {
            JsonV::Array(s) => match eval_each_spec(*f, s) {
                Some(s2) => Some(JsonV::Array(s2)),
                None => None,
            },
            _ => None,
        },
    }
}

/// What pattern `p` selects from `v`.  `Pat(atom, rest)` is the path
/// `rest` followed by the step `atom`: the step selects from what `rest`
/// selects, so `$in.x.y` reads entry `y` of entry `x`.
pub open spec fn eval_pat_spec(p: PatV, v: JsonV) -> Option<JsonV>
    decreases p, 0nat,
{
    match p {
        PatV::Empty => Some(v),
        PatV::Pat(a, rest) => match eval_pat_spec(*rest, v) {
            Some(x) => eval_atom_spec(a, x),
            None => None,
        },
    }
}

/// The value of an optional JSON value.
pub open spec fn opt_view(o: Option<Json>) -> Option<JsonV> {
    match o {
        Some(j) => Some(j@),
        None => None,
    }
}

proof fn lemma_eval_list_prefix(es: Seq<ExprV>, v: JsonV, i: int)
    requires
        0 <= i <= es.len(),
        eval_list_spec(es.take(i), v) is None,
    ensures
        eval_list_spec(es, v) is None,
    decreases es.len() - i,
{
    if i < es.len() {
        assert(es.take(i + 1).drop_last() =~= es.take(i));
        lemma_eval_list_prefix(es, v, i + 1);
    } else {
        assert(es.take(i) =~= es);
    }
}

proof fn lemma_eval_entries_prefix(kes: Seq<(Seq<char>, ExprV)>, v: JsonV, i: int)
    requires
        0 <= i <= kes.len(),
        eval_entries_spec(kes.take(i), v) is None,
    ensures
        eval_entries_spec(kes, v) is None,
    decreases kes.len() - i,
{
    if i < kes.len() {
        assert(kes.take(i + 1).drop_last() =~= kes.take(i));
        lemma_eval_entries_prefix(kes, v, i + 1);
    } else {
        assert(kes.take(i) =~= kes);
    }
}

proof fn lemma_eval_each_prefix(f: ExprV, s: Seq<JsonV>, i: int)
    requires
        0 <= i <= s.len(),
        eval_each_spec(f, s.take(i)) is None,
    ensures
        eval_each_spec(f, s) is None,
    decreases s.len() - i,
{
    if i < s.len() {
        assert(s.take(i + 1).drop_last() =~= s.take(i));
        lemma_eval_each_prefix(f, s, i + 1);
    } else {
        assert(s.take(i) =~= s);
    }
}

/// The two sides of an ordering comparison as integers: the integers
/// themselves, or the keys of two doubles.
fn order_pair(l: &Option<Json>, r: &Option<Json>) -> (o: Option<(i128, i128)>)
    ensures
        match o {
            Some((a, b)) => order_operands(opt_view(*l), opt_view(*r)) == Some((a as int, b as int)),
            None => order_operands(opt_view(*l), opt_view(*r)) is None,
        },
{
    match (l, r) {
        (Some(Json::Number(Number::PosInt(a))), Some(Json::Number(Number::PosInt(b)))) => Some(
            (*a as i128, *b as i128),
        ),
        (Some(Json::Number(Number::Float(a))), Some(Json::Number(Number::Float(b)))) => Some(
            (float_key_of(*a) as i128, float_key_of(*b) as i128),
        ),
        _ => None,
    }
}

fn option_equals(l: &Option<Json>, r: &Option<Json>) -> (b: bool)
    ensures
        b == opt_json_eq(opt_view(*l), opt_view(*r)),
{
    match (l, r) {
        (Some(a), Some(b)) => a.equals(b),
        (None, None) => true,
        _ => false,
    }
}

/// A comparison of the values of its two sides.
pub fn eval_binop(op: &Op, lv: Option<Json>, rv: Option<Json>) -> (r: Option<Json>)
    ensures
        opt_view(r) == binop_spec(*op, opt_view(lv), opt_view(rv)),
{
    match op {
        Op::Eq => Some(Json::Bool(option_equals(&lv, &rv))),
        Op::NotEq => Some(Json::Bool(!option_equals(&lv, &rv))),
        Op::Greater => match order_pair(&lv, &rv) {
            Some((a, b)) => Some(Json::Bool(a > b)),
            None => None,
        },
        Op::Less => match order_pair(&lv, &rv) {
            Some((a, b)) => Some(Json::Bool(a < b)),
            None => None,
        },
        Op::GreaterEq => match order_pair(&lv, &rv) {
            Some((a, b)) => Some(Json::Bool(a >= b)),
            None => None,
        },
        Op::LessEq => match order_pair(&lv, &rv) {
            Some((a, b)) => Some(Json::Bool(a <= b)),
            None => None,
        },
    }
}

/// What one pattern step selects from `value`.
#[verifier::loop_isolation(false)]
pub fn eval_atom(atom: &PatAtom, value: &Json) -> (r: Option<Json>)
    ensures
        opt_view(r) == eval_atom_spec(pat_atom_view(*atom), value@),
    decreases atom, 0nat,
{
    match atom {
        PatAtom::Select(key) => match value {
            Json::Object(entries) => match entries_get(entries, key.as_str()) {
                Some(x) => Some(x.copy()),
                None => None,
            },
            _ => None,
        },
        PatAtom::Index(idx) => match value {
            Json::Array(arr) => {
                proof {
                    lemma_json_seq_view(arr@);
                }
                if *idx < arr.len() {
                    Some(arr[*idx].copy())
                } else {
                    None
                }
            },
            _ => None,
        },
        PatAtom::MapEach(f) => match value {
            Json::Array(arr) => {
                let ghost s = json_seq_view(arr@);
                proof {
                    lemma_json_seq_view(arr@);
                    assert(s.take(0) =~= Seq::<JsonV>::empty());
                }
                let mut out: Vec<Json> = Vec::new();
                let mut i: usize = 0;
                while i < arr.len()
                    invariant
                        i <= arr.len(),
                        eval_each_spec(expr_view(**f), s.take(i as int)) == Some(
                            json_seq_view(out@),
                        ),
                    decreases arr.len() - i,
                {
                    let x = eval(f, &arr[i]);
                    proof {
                        assert(s.take(i + 1).drop_last() =~= s.take(i as int));
                        assert(s.take(i + 1).last() == s[i as int]);
                    }
                    match x {
                        Some(y) => {
                            let ghost prev = out@;
                            out.push(y);
                            proof {
                                assert(out@.drop_last() =~= prev);
                            }
                        },
                        None => {
                            proof {
                                lemma_eval_each_prefix(expr_view(**f), s, i + 1);
                            }
                            return None;
                        },
                    }
                    i = i + 1;
                }
                proof {
                    assert(s.take(arr.len() as int) =~= s);
                }
                Some(Json::Array(out))
            },
            _ => None,
        },
    }
}

/// What pattern `pat` selects from `value`: the path before the last step
/// first, then the last step on what it selects.
pub fn eval_pat(pat: &Pat, value: &Json) -> (r: Option<Json>)
    ensures
        opt_view(r) == eval_pat_spec(pat@, value@),
    decreases pat, 0nat,
{
    match pat {
        Pat::Empty => Some(value.copy()),
        Pat::Pat(atom, rest) => match eval_pat(rest, value) {
            Some(x) => eval_atom(atom, &x),
            None => None,
        },
    }
}

/// What transformer `expr` gives on input `value`: `None` when a pattern
/// does not match or a comparison cannot be made.
#[verifier::loop_isolation(false)]
pub fn eval(expr: &Expr, value: &Json) -> (r: Option<Json>)
    ensures
        opt_view(r) == eval_spec(expr@, value@),
    decreases expr, 0nat,
{
    match expr {
        Expr::Pat(p) => eval_pat(p, value),
        Expr::Null => Some(Json::Null),
        Expr::Bool(b) => Some(Json::Bool(*b)),
        Expr::Number(n) => Some(Json::Number(n.copy())),
        Expr::String(s) => Some(Json::String(s.clone())),
        Expr::Array(es) => {
            let ghost ev = expr_seq_view(es@);
            proof {
                lemma_expr_seq_view(es@);
                assert(ev.take(0) =~= Seq::<ExprV>::empty());
            }
            let mut out: Vec<Json> = Vec::new();
            let mut i: usize = 0;
            while i < es.len()
                invariant
                    i <= es.len(),
                    eval_list_spec(ev.take(i as int), value@) == Some(json_seq_view(out@)),
                decreases es.len() - i,
            {
                let x = eval(&es[i], value);
                proof {
                    assert(ev.take(i + 1).drop_last() =~= ev.take(i as int));
                    assert(ev.take(i + 1).last() == ev[i as int]);
                }
                match x {
                    Some(y) => {
                        let ghost prev = out@;
                        out.push(y);
                        proof {
                            assert(out@.drop_last() =~= prev);
                        }
                    },
                    None => {
                        proof {
                            lemma_eval_list_prefix(ev, value@, i + 1);
                        }
                        return None;
                    },
                }
                i = i + 1;
            }
            proof {
                assert(ev.take(es.len() as int) =~= ev);
            }
            Some(Json::Array(out))
        },
        Expr::Object(kes) => {
            let ghost kv = expr_entries_view(kes@);
            proof {
                lemma_expr_entries_view(kes@);
                assert(kv.take(0) =~= Seq::<(Seq<char>, ExprV)>::empty());
            }
            let mut out: Vec<(String, Json)> = Vec::new();
            let ghost pairs: Seq<(Seq<char>, JsonV)> = Seq::empty();
            let mut i: usize = 0;
            while i < kes.len()
                invariant
                    i <= kes.len(),
                    eval_entries_spec(kv.take(i as int), value@) == Some(pairs),
                    entries_view(out@) == build_object(pairs),
                decreases kes.len() - i,
            {
                let x = eval(&kes[i].1, value);
                proof {
                    assert(kv.take(i + 1).drop_last() =~= kv.take(i as int));
                    assert(kv.take(i + 1).last() == kv[i as int]);
                }
                match x {
                    Some(y) => {
                        let ghost yv = y@;
                        let k = kes[i].0.clone();
                        entries_insert(&mut out, k, y);
                        proof {
                            let prev = pairs;
                            pairs = pairs.push((kv[i as int].0, yv));
                            assert(pairs.drop_last() =~= prev);
                        }
                    },
                    None => {
                        proof {
                            lemma_eval_entries_prefix(kv, value@, i + 1);
                        }
                        return None;
                    },
                }
                i = i + 1;
            }
            proof {
                assert(kv.take(kes.len() as int) =~= kv);
            }
            Some(Json::Object(out))
        },
        Expr::BinOp(op, l, r) => {
            let lv = eval(l, value);
            let rv = eval(r, value);
            eval_binop(op, lv, rv)
        },
    }
}

proof fn lemma_lookup_wf(es: Seq<(Seq<char>, JsonV)>, k: Seq<char>)
    requires
        forall|i: int| 0 <= i < es.len() ==> (#[trigger] es[i]).1.wf(),
    ensures
        entry_lookup(es, k) matches Some(x) ==> x.wf(),
    decreases es.len(),
{
    if es.len() > 0 && es[0].0 != k {
        let rest = es.drop_first();
        assert forall|i: int| 0 <= i < rest.len() implies (#[trigger] rest[i]).1.wf() by {
            assert(rest[i] == es[i + 1]);
        }
        lemma_lookup_wf(rest, k);
    }
}

/// A well-formed transformer gives well-formed values on well-formed input:
/// numbers it produces are ones JSON can hold, and objects it builds are
/// sorted by key, each key once.
pub proof fn lemma_eval_wf(e: ExprV, v: JsonV)
    requires
        e.wf(),
        v.wf(),
    ensures
        eval_spec(e, v) matches Some(r) ==> r.wf(),
    decreases e, 0nat,
{
    match e {
        ExprV::Pat(p) => lemma_eval_pat_wf(p, v),
        ExprV::Array(es) => lemma_eval_list_wf(es, v),
        ExprV::Object(kes) => {
            lemma_eval_entries_wf(kes, v);
            if let Some(pairs) = eval_entries_spec(kes, v) {
                crate::json::law_build_object_wf(pairs);
            }
        },
        _ => {},
    }
}

proof fn lemma_eval_list_wf(es: Seq<ExprV>, v: JsonV)
    requires
        forall|i: int| 0 <= i < es.len() ==> (#[trigger] es[i]).wf(),
        v.wf(),
    ensures
        eval_list_spec(es, v) matches Some(rs) ==> forall|i: int|
            0 <= i < rs.len() ==> (#[trigger] rs[i]).wf(),
    decreases es, 0nat,
{
    if es.len() > 0 {
        let init = es.drop_last();
        assert forall|i: int| 0 <= i < init.len() implies (#[trigger] init[i]).wf() by {
            assert(init[i] == es[i]);
        }
        lemma_eval_list_wf(init, v);
        lemma_eval_wf(es.last(), v);
    }
}

proof fn lemma_eval_entries_wf(kes: Seq<(Seq<char>, ExprV)>, v: JsonV)
    requires
        forall|i: int| 0 <= i < kes.len() ==> (#[trigger] kes[i]).1.wf(),
        v.wf(),
    ensures
        eval_entries_spec(kes, v) matches Some(rs) ==> forall|i: int|
            0 <= i < rs.len() ==> (#[trigger] rs[i]).1.wf(),
    decreases kes, 0nat,
{
    if kes.len() > 0 {
        let init = kes.drop_last();
        assert forall|i: int| 0 <= i < init.len() implies (#[trigger] init[i]).1.wf() by {
            assert(init[i] == kes[i]);
        }
        lemma_eval_entries_wf(init, v);
        lemma_eval_wf(kes.last().1, v);
    }
}

proof fn lemma_eval_each_wf(f: ExprV, s: Seq<JsonV>)
    requires
        f.wf(),
        forall|i: int| 0 <= i < s.len() ==> (#[trigger] s[i]).wf(),
    ensures
        eval_each_spec(f, s) matches Some(rs) ==> forall|i: int|
            0 <= i < rs.len() ==> (#[trigger] rs[i]).wf(),
    decreases f, s.len(),
{
    if s.len() > 0 {
        let init = s.drop_last();
        assert forall|i: int| 0 <= i < init.len() implies (#[trigger] init[i]).wf() by {
            assert(init[i] == s[i]);
        }
        lemma_eval_each_wf(f, init);
        lemma_eval_wf(f, s.last());
    }
}

proof fn lemma_eval_atom_wf(a: PatAtomV, v: JsonV)
    requires
        match a {
            PatAtomV::MapEach(f) => f.wf(),
            _ => true,
        },
        v.wf(),
    ensures
        eval_atom_spec(a, v) matches Some(r) ==> r.wf(),
    decreases a, 0nat,
{
    match a {
        PatAtomV::Select(k) => {
            if let JsonV::Object(es) = v {
                lemma_lookup_wf(es, k);
            }
        },
        PatAtomV::Index(i) => {},
        PatAtomV::MapEach(f) => {
            if let JsonV::Array(s) = v {
                lemma_eval_each_wf(*f, s);
            }
        },
    }
}

proof fn lemma_eval_pat_wf(p: PatV, v: JsonV)
    requires
        p.wf(),
        v.wf(),
    ensures
        eval_pat_spec(p, v) matches Some(r) ==> r.wf(),
    decreases p, 0nat,
{
    if let PatV::Pat(a, rest) = p {
        lemma_eval_pat_wf(*rest, v);
        if let Some(x) = eval_pat_spec(*rest, v) {
            lemma_eval_atom_wf(a, x);
        }
    }
}

/// The comparisons agree with each other on every input: `!=` is the
/// negation of `==`, `==` holds between a transformer and itself, `>` and
/// `>=` are `<` and `<=` with the sides swapped, and where `>` has a value
/// `<=` has the opposite one (and neither has one otherwise).
pub proof fn law_comparisons(a: ExprV, b: ExprV, v: JsonV)
    ensures
        eval_spec(ExprV::BinOp(Op::Eq, Box::new(a), Box::new(b)), v) matches Some(JsonV::Bool(x))
            && eval_spec(ExprV::BinOp(Op::NotEq, Box::new(a), Box::new(b)), v) == Some(
            JsonV::Bool(!x),
        ),
        eval_spec(ExprV::BinOp(Op::Eq, Box::new(a), Box::new(a)), v) == Some(JsonV::Bool(true)),
        eval_spec(ExprV::BinOp(Op::Greater, Box::new(a), Box::new(b)), v) == eval_spec(
            ExprV::BinOp(Op::Less, Box::new(b), Box::new(a)),
            v,
        ),
        eval_spec(ExprV::BinOp(Op::GreaterEq, Box::new(a), Box::new(b)), v) == eval_spec(
            ExprV::BinOp(Op::LessEq, Box::new(b), Box::new(a)),
            v,
        ),
        match eval_spec(ExprV::BinOp(Op::Greater, Box::new(a), Box::new(b)), v) {
            Some(JsonV::Bool(x)) => eval_spec(ExprV::BinOp(Op::LessEq, Box::new(a), Box::new(b)), v)
                == Some(JsonV::Bool(!x)),
            _ => eval_spec(ExprV::BinOp(Op::LessEq, Box::new(a), Box::new(b)), v) is None,
        },
{
    if let Some(x) = eval_spec(a, v) {
        lemma_json_eq_refl(x);
    }
}

proof fn lemma_list_elementwise(es: Seq<ExprV>, v: JsonV)
    ensures
        eval_list_spec(es, v) matches Some(ws) ==> ws.len() == es.len() && forall|i: int|
            0 <= i < es.len() ==> eval_spec(#[trigger] es[i], v) == Some(ws[i]),
        eval_list_spec(es, v) is None ==> exists|i: int|
            0 <= i < es.len() && (#[trigger] eval_spec(es[i], v)) is None,
    decreases es.len(),
{
    if es.len() > 0 {
        let init = es.drop_last();
        lemma_list_elementwise(init, v);
        if let Some(ws) = eval_list_spec(init, v) {
            assert forall|i: int| 0 <= i < init.len() implies eval_spec(#[trigger] es[i], v) == Some(
                ws[i],
            ) by {
                assert(init[i] == es[i]);
            }
        } else {
            let i = choose|i: int| 0 <= i < init.len() && (#[trigger] eval_spec(init[i], v)) is None;
            assert(init[i] == es[i]);
        }
    }
}

/// An array transformer evaluates its elements one by one, in order: it has
/// a value exactly when each element has one, and then the value of
/// element `i` is at position `i`.
pub proof fn law_array_elementwise(es: Seq<ExprV>, v: JsonV)
    ensures
        eval_spec(ExprV::Array(es), v) matches Some(JsonV::Array(ws)) ==> ws.len() == es.len()
            && forall|i: int| 0 <= i < es.len() ==> eval_spec(#[trigger] es[i], v) == Some(ws[i]),
        eval_spec(ExprV::Array(es), v) is None <==> exists|i: int|
            0 <= i < es.len() && (#[trigger] eval_spec(es[i], v)) is None,
{
    lemma_list_elementwise(es, v);
}

proof fn lemma_entries_elementwise(kes: Seq<(Seq<char>, ExprV)>, v: JsonV)
    ensures
        eval_entries_spec(kes, v) matches Some(ps) ==> ps.len() == kes.len() && forall|i: int|
            0 <= i < kes.len() ==> (#[trigger] ps[i]).0 == kes[i].0 && eval_spec(kes[i].1, v)
                == Some(ps[i].1),
        eval_entries_spec(kes, v) is None ==> exists|i: int|
            0 <= i < kes.len() && (#[trigger] eval_spec(kes[i].1, v)) is None,
    decreases kes.len(),
{
    if kes.len() > 0 {
        let init = kes.drop_last();
        lemma_entries_elementwise(init, v);
        if let Some(ps) = eval_entries_spec(init, v) {
            assert forall|i: int| 0 <= i < init.len() implies init[i] == kes[i] by {}
            assert(kes.last() == kes[kes.len() - 1]);
            if eval_spec(kes.last().1, v) is None {
                assert(eval_spec(kes[kes.len() - 1].1, v) is None);
            }
        } else {
            let i = choose|i: int| 0 <= i < init.len() && (#[trigger] eval_spec(init[i].1, v)) is None;
            assert(init[i] == kes[i]);
        }
    }
}

/// An object transformer evaluates its entries one by one, in order: it has
/// a value exactly when each entry's transformer has one, and then each key
/// holds the value of the last entry with that key, and a key no entry has
/// holds nothing.
pub proof fn law_object_elementwise(kes: Seq<(Seq<char>, ExprV)>, v: JsonV)
    ensures
        eval_spec(ExprV::Object(kes), v) is None <==> exists|i: int|
            0 <= i < kes.len() && (#[trigger] eval_spec(kes[i].1, v)) is None,
        eval_entries_spec(kes, v) matches Some(ps) ==> ps.len() == kes.len() && (forall|i: int|
            0 <= i < kes.len() ==> (#[trigger] ps[i]).0 == kes[i].0 && eval_spec(kes[i].1, v)
                == Some(ps[i].1)) && eval_spec(ExprV::Object(kes), v) == Some(
            JsonV::Object(build_object(ps)),
        ) && forall|k: Seq<char>| #[trigger]
            entry_lookup(build_object(ps), k) == last_value(ps, k),
{
    lemma_entries_elementwise(kes, v);
    if let Some(ps) = eval_entries_spec(kes, v) {
        assert forall|i: int| 0 <= i < kes.len() implies (#[trigger] eval_spec(kes[i].1, v)) is Some by {
            assert(ps[i].0 == kes[i].0);
        }
        assert forall|k: Seq<char>| #[trigger]
            entry_lookup(build_object(ps), k) == last_value(ps, k) by {
            law_build_object_lookup(ps, k);
        }
    }
}

proof fn lemma_each_elementwise(f: ExprV, s: Seq<JsonV>)
    ensures
        eval_each_spec(f, s) matches Some(ws) ==> ws.len() == s.len() && forall|i: int|
            0 <= i < s.len() ==> eval_spec(f, #[trigger] s[i]) == Some(ws[i]),
        eval_each_spec(f, s) is None ==> exists|i: int|
            0 <= i < s.len() && (#[trigger] eval_spec(f, s[i])) is None,
    decreases s.len(),
{
    if s.len() > 0 {
        let init = s.drop_last();
        lemma_each_elementwise(f, init);
        if let Some(ws) = eval_each_spec(f, init) {
            assert forall|i: int| 0 <= i < init.len() implies eval_spec(f, #[trigger] s[i]) == Some(
                ws[i],
            ) by {
                assert(init[i] == s[i]);
            }
        } else {
            let i = choose|i: int| 0 <= i < init.len() && (#[trigger] eval_spec(f, init[i])) is None;
            assert(init[i] == s[i]);
        }
    }
}

/// The step `.map(f)` applies `f` to each element of an array, in order:
/// it has a value exactly when the value is an array and `f` has a value on
/// each element, and then the value on element `i` is at position `i`.
pub proof fn law_map_elementwise(f: ExprV, v: JsonV)
    ensures
        eval_atom_spec(PatAtomV::MapEach(Box::new(f)), v) matches Some(w) ==> v is Array
            && w is Array && w->Array_0.len() == v->Array_0.len() && forall|i: int|
            0 <= i < v->Array_0.len() ==> eval_spec(f, #[trigger] v->Array_0[i]) == Some(
                w->Array_0[i],
            ),
        eval_atom_spec(PatAtomV::MapEach(Box::new(f)), v) is None <==> !(v is Array) || exists|i: int|
            0 <= i < v->Array_0.len() && (#[trigger] eval_spec(f, v->Array_0[i])) is None,
        eval_pat_spec(PatV::Pat(PatAtomV::MapEach(Box::new(f)), Box::new(PatV::Empty)), v)
            == eval_atom_spec(PatAtomV::MapEach(Box::new(f)), v),
{
    assert(eval_pat_spec(PatV::Empty, v) == Some(v));
    if let JsonV::Array(s) = v {
        lemma_each_elementwise(f, s);
        if let Some(ws) = eval_each_spec(f, s) {
            assert forall|i: int| 0 <= i < s.len() implies (#[trigger] eval_spec(f, s[i])) is Some by {
                assert(eval_spec(f, s[i]) == Some(ws[i]));
            }
        }
    }
}

/// Whether `a op b` holds of two numbers `a` and `b`.
pub open spec fn compares(op: Op, a: int, b: int) -> bool {
    match op {
        Op::Eq => a == b,
        Op::NotEq => a != b,
        Op::Greater => a > b,
        Op::Less => a < b,
        Op::GreaterEq => a >= b,
        Op::LessEq => a <= b,
    }
}

/// A comparison of two finite doubles compares the real values they denote
/// (`float_value`): `-2.5 < 1.5` holds, and `0.0 == -0.0`.
pub proof fn law_compare_doubles(op: Op, a: ExprV, b: ExprV, v: JsonV, x: u64, y: u64)
    requires
        eval_spec(a, v) == Some(JsonV::Number(NumberV::Float(x))),
        eval_spec(b, v) == Some(JsonV::Number(NumberV::Float(y))),
        float_bits_finite(x),
        float_bits_finite(y),
    ensures
        eval_spec(ExprV::BinOp(op, Box::new(a), Box::new(b)), v) == Some(
            JsonV::Bool(compares(op, float_value(x), float_value(y))),
        ),
{
    law_float_key_order(x, y);
    law_float_key_order(y, x);
}

/// A comparison of two non-negative integers compares their values.
pub proof fn law_compare_integers(op: Op, a: ExprV, b: ExprV, v: JsonV, x: u64, y: u64)
    requires
        eval_spec(a, v) == Some(JsonV::Number(NumberV::PosInt(x))),
        eval_spec(b, v) == Some(JsonV::Number(NumberV::PosInt(y))),
    ensures
        eval_spec(ExprV::BinOp(op, Box::new(a), Box::new(b)), v) == Some(
            JsonV::Bool(compares(op, x as int, y as int)),
        ),
{
}

/// An ordering comparison (`>`, `<`, `>=`, `<=`) has a value only between
/// two non-negative integers or two doubles; between any other values, or
/// where a side has no value, it has none.
pub proof fn law_order_needs_like_numbers(op: Op, a: ExprV, b: ExprV, v: JsonV)
    requires
        !(op is Eq || op is NotEq),
        !(eval_spec(a, v) matches Some(JsonV::Number(NumberV::PosInt(_))) && eval_spec(b, v) matches Some(
            JsonV::Number(NumberV::PosInt(_)),
        )),
        !(eval_spec(a, v) matches Some(JsonV::Number(NumberV::Float(_))) && eval_spec(b, v) matches Some(
            JsonV::Number(NumberV::Float(_)),
        )),
    ensures
        eval_spec(ExprV::BinOp(op, Box::new(a), Box::new(b)), v) is None,
{
}

/// `==` and `!=` compare the values of the two sides as values: where no
/// double in them is zero, `==` holds exactly when the two sides give the
/// same value, or both give none, and `!=` is its negation.
pub proof fn law_equality_of_values(a: ExprV, b: ExprV, v: JsonV)
    requires
        eval_spec(a, v) matches Some(x) ==> zero_free(x),
        eval_spec(b, v) matches Some(y) ==> zero_free(y),
    ensures
        eval_spec(ExprV::BinOp(Op::Eq, Box::new(a), Box::new(b)), v) == Some(
            JsonV::Bool(eval_spec(a, v) == eval_spec(b, v)),
        ),
        eval_spec(ExprV::BinOp(Op::NotEq, Box::new(a), Box::new(b)), v) == Some(
            JsonV::Bool(eval_spec(a, v) != eval_spec(b, v)),
        ),
{
    if let (Some(x), Some(y)) = (eval_spec(a, v), eval_spec(b, v)) {
        law_json_eq_is_equality(x, y);
    }
}

/// `$in[i]` on the array that transformers `es` build gives the value of
/// element `i`, and nothing past the end.
pub proof fn law_index_of_built_array(es: Seq<ExprV>, v: JsonV, i: nat, w: Seq<JsonV>)
    requires
        eval_spec(ExprV::Array(es), v) == Some(JsonV::Array(w)),
    ensures
        eval_pat_spec(PatV::Pat(PatAtomV::Index(i), Box::new(PatV::Empty)), JsonV::Array(w)) == (
        if i < es.len() {
            eval_spec(es[i as int], v)
        } else {
            None
        }),
{
    law_array_elementwise(es, v);
    let p = PatV::Pat(PatAtomV::Index(i), Box::new(PatV::Empty));
    assert(eval_pat_spec(PatV::Empty, JsonV::Array(w)) == Some(JsonV::Array(w)));
    assert(eval_pat_spec(p, JsonV::Array(w)) == eval_atom_spec(PatAtomV::Index(i), JsonV::Array(w)));
    if i < es.len() {
        assert(eval_spec(es[i as int], v) == Some(w[i as int]));
    }
}

/// `$in.k` on the object that the entries `kes` build gives the value of
/// the last entry with key `k`, and nothing where no entry has it.
pub proof fn law_select_of_built_object(
    kes: Seq<(Seq<char>, ExprV)>,
    v: JsonV,
    k: Seq<char>,
    ps: Seq<(Seq<char>, JsonV)>,
)
    requires
        eval_entries_spec(kes, v) == Some(ps),
    ensures
        eval_spec(ExprV::Object(kes), v) matches Some(o) && eval_pat_spec(
            PatV::Pat(PatAtomV::Select(k), Box::new(PatV::Empty)),
            o,
        ) == last_value(ps, k),
        last_value(ps, k) matches Some(x) ==> exists|i: int|
            0 <= i < kes.len() && kes[i].0 == k && eval_spec(#[trigger] kes[i].1, v) == Some(x),
        last_value(ps, k) is None ==> forall|i: int| 0 <= i < kes.len() ==> (#[trigger] kes[i]).0 != k,
{
    law_object_elementwise(kes, v);
    let o = JsonV::Object(build_object(ps));
    assert(eval_pat_spec(PatV::Empty, o) == Some(o));
    law_build_object_lookup(ps, k);
    assert(eval_pat_spec(PatV::Pat(PatAtomV::Select(k), Box::new(PatV::Empty)), o) == eval_atom_spec(
        PatAtomV::Select(k),
        o,
    ));
    lemma_last_value(ps, k);
    if let Some(x) = last_value(ps, k) {
        let i = choose|i: int| 0 <= i < ps.len() && ps[i].0 == k && ps[i].1 == x;
        assert(kes[i].0 == k && eval_spec(kes[i].1, v) == Some(x));
    } else {
        assert forall|i: int| 0 <= i < kes.len() implies (#[trigger] kes[i]).0 != k by {
            assert(ps[i].0 == kes[i].0);
        }
    }
}

proof fn lemma_last_value(ps: Seq<(Seq<char>, JsonV)>, k: Seq<char>)
    ensures
        last_value(ps, k) matches Some(x) ==> exists|i: int|
            0 <= i < ps.len() && ps[i].0 == k && ps[i].1 == x,
        last_value(ps, k) is None ==> forall|i: int| 0 <= i < ps.len() ==> ps[i].0 != k,
    decreases ps.len(),
{
    if ps.len() > 0 {
        let init = ps.drop_last();
        lemma_last_value(init, k);
        if ps.last().0 == k {
            assert(ps[ps.len() - 1] == ps.last());
        } else if let Some(x) = last_value(init, k) {
            let i = choose|i: int| 0 <= i < init.len() && init[i].0 == k && init[i].1 == x;
            assert(ps[i] == init[i]);
        } else {
            assert forall|i: int| 0 <= i < ps.len() implies ps[i].0 != k by {
                if i < init.len() {
                    assert(ps[i] == init[i]);
                }
            }
        }
    }
}

/// A path reads its steps in the order they are written: `$in.a.b`
/// selects entry `b` of entry `a`; on `{a: {b: w}}` it gives `w`.
pub proof fn law_path_reads_left_to_right(a: Seq<char>, b: Seq<char>, w: JsonV)
    ensures
        eval_pat_spec(
            PatV::Pat(
                PatAtomV::Select(b),
                Box::new(PatV::Pat(PatAtomV::Select(a), Box::new(PatV::Empty))),
            ),
            JsonV::Object(build_object(
                seq![(a, JsonV::Object(build_object(seq![(b, w)])))],
            )),
        ) == Some(w),
{
    let inner = JsonV::Object(build_object(seq![(b, w)]));
    let outer = JsonV::Object(build_object(seq![(a, inner)]));
    law_build_object_lookup(seq![(a, inner)], a);
    law_build_object_lookup(seq![(b, w)], b);
    assert(seq![(a, inner)].drop_last() =~= Seq::<(Seq<char>, JsonV)>::empty());
    assert(seq![(b, w)].drop_last() =~= Seq::<(Seq<char>, JsonV)>::empty());
    assert(eval_pat_spec(PatV::Empty, outer) == Some(outer));
    assert(last_value(seq![(a, inner)], a) == Some(inner));
    assert(last_value(seq![(b, w)], b) == Some(w));
    let rest = PatV::Pat(PatAtomV::Select(a), Box::new(PatV::Empty));
    assert(eval_pat_spec(rest, outer) == eval_atom_spec(PatAtomV::Select(a), outer));
    assert(eval_atom_spec(PatAtomV::Select(a), outer) == Some(inner));
    assert(eval_atom_spec(PatAtomV::Select(b), inner) == Some(w));
}

} // verus!
