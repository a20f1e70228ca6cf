//! Running programs.
//!
//! A program asks for outside work as it runs: a serverless function to
//! invoke, an object to fetch from storage, a URL to download, or bytes to be
//! read as JSON.  Evaluation here is a function of the program, its input
//! and the answers that this work gave so far, in the order it was asked
//! for: it gives the program's result, or the next piece of work to do.  The
//! caller does that work, adds its answer to the list and evaluates again.
use vstd::prelude::*;
use crate::json::{
    Json, JsonV, build_object, entries_get, entries_view, entry_insert, entry_lookup,
    lemma_entry_insert_lookup,
};
use crate::json_transformers::eval::{eval as eval_transformer, eval_spec as transformer_spec};
use crate::json_transformers::syntax::{Expr as Transformer, ExprV as TransformerV};
use super::error::{Error, ErrorV};
use super::syntax::{Expr, ExprV, Payload, PayloadV};

verus! {

/// Outside work that a program asks for.
#[derive(Debug)]
pub enum Request {
    /// Invoke the serverless function of this name on this input.
    Invoke(String, Payload),
    /// Read the object at this path of the storage.
    Fetch(String),
    /// Download this URL.
    Download(String),
    /// Read these bytes as JSON text: the answer is the JSON as a payload,
    /// or `Error::Json`.
    DecodeJson(Vec<u8>),
}

/// The mathematical form of a request.
pub enum RequestV {
    Invoke(Seq<char>, PayloadV),
    Fetch(Seq<char>),
    Download(Seq<char>),
    DecodeJson(Seq<u8>),
}

impl View for Request {
    type V = RequestV;

    open spec fn view(&self) -> RequestV {
        match self {
            Request::Invoke(n, p) => RequestV::Invoke(n@, p@),
            Request::Fetch(p) => RequestV::Fetch(p@),
            Request::Download(u) => RequestV::Download(u@),
            Request::DecodeJson(b) => RequestV::DecodeJson(b@),
        }
    }
}

/// Where evaluation stands: the program's result, or the work to do next.
#[derive(Debug)]
pub enum Step {
    Done(Result<Payload, Error>),
    Perform(Request),
}

/// The mathematical form of a step.
pub enum StepV {
    Done(Result<PayloadV, ErrorV>),
    Perform(RequestV),
}

/// The mathematical form of a result.
pub open spec fn result_view(r: Result<Payload, Error>) -> Result<PayloadV, ErrorV> {
    match r {
        Ok(p) => Ok(p@),
        Err(e) => Err(e@),
    }
}

/// The mathematical forms of the answers, in order.
pub open spec fn answers_view(a: Seq<Result<Payload, Error>>) -> Seq<Result<PayloadV, ErrorV>> {
    a.map_values(|r: Result<Payload, Error>| result_view(r))
}

impl View for Step {
    type V = StepV;

    open spec fn view(&self) -> StepV {
        match self {
            Step::Done(r) => StepV::Done(result_view(*r)),
            Step::Perform(q) => StepV::Perform(q@),
        }
    }
}

/// A run that used the answers up to a position.
pub enum Run {
    /// The result, and the position of the first answer not used.
    Done(Result<PayloadV, ErrorV>, int),
    /// The answers ran out: this work is to be done next.
    Need(RequestV),
}

/// Getting the JSON of a payload.
pub enum JsonRun {
    Have(JsonV, int),
    Failed(ErrorV, int),
    Need(RequestV),
}

/// The JSON of payload `p`: a JSON payload is its JSON; a chunk is read as
/// JSON text by the outside work, whose answer is then taken in turn.
pub open spec fn need_json(p: PayloadV, ans: Seq<Result<PayloadV, ErrorV>>, pos: int) -> JsonRun
    decreases ans.len() - pos,
{
    match p {
        PayloadV::Json(j) => JsonRun::Have(j, pos),
        PayloadV::Chunk(b) => if 0 <= pos < ans.len() {
            match ans[pos] {
                Ok(q) => need_json(q, ans, pos + 1),
                Err(e) => JsonRun::Failed(e, pos + 1),
            }
        } else {
            JsonRun::Need(RequestV::DecodeJson(b))
        },
    }
}

/// The parts `x` and `y` of the input of `split`.
pub open spec fn split_parts(j: JsonV) -> Option<(JsonV, JsonV)> {
    match j {
        JsonV::Object(es) => match (entry_lookup(es, "x"@), entry_lookup(es, "y"@)) {
            (Some(x), Some(y)) => Some((x, y)),
            _ => None,
        },
        _ => None,
    }
}

/// The object `{"x": x, "y": y}`.
pub open spec fn split_join(x: JsonV, y: JsonV) -> JsonV {
    JsonV::Object(build_object(seq![("x"@, x), ("y"@, y)]))
}

/// The run of the answer at `pos`, or the request for it.
pub open spec fn answer_at(ans: Seq<Result<PayloadV, ErrorV>>, pos: int, q: RequestV) -> Run {
    if 0 <= pos < ans.len() {
        Run::Done(ans[pos], pos + 1)
    } else {
        Run::Need(q)
    }
}

/// Program `e` on `input`, given the answers `ans` from position `pos` on.
pub open spec fn run_spec(e: ExprV, input: PayloadV, ans: Seq<Result<PayloadV, ErrorV>>, pos: int) -> Run
    decreases e,
{
    match e {
        ExprV::Pure(n) => answer_at(ans, pos, RequestV::Invoke(n, input)),
        ExprV::Fetch(path) => answer_at(ans, pos, RequestV::Fetch(path)),
        ExprV::Download(u) => match need_json(input, ans, pos) {
            JsonRun::Have(j, p1) => match transformer_spec(u, j) {
                Some(JsonV::Str(url)) => answer_at(ans, p1, RequestV::Download(url)),
                _ => Run::Done(Err(ErrorV::JsonEval), p1),
            },
            JsonRun::Failed(err, p1) => Run::Done(Err(err), p1),
            JsonRun::Need(q) => Run::Need(q),
        },
        ExprV::Sequence(e1, e2) => match run_spec(*e1, input, ans, pos) {
            Run::Done(Ok(r), p1) => run_spec(*e2, r, ans, p1),
            other => other,
        },
        ExprV::Project(t) => match need_json(input, ans, pos) {
            JsonRun::Have(j, p1) => match transformer_spec(t, j) {
                Some(v) => Run::Done(Ok(PayloadV::Json(v)), p1),
                None => Run::Done(Err(ErrorV::JsonEval), p1),
            },
            JsonRun::Failed(err, p1) => Run::Done(Err(err), p1),
            JsonRun::Need(q) => Run::Need(q),
        },
        ExprV::Split(e1) => match need_json(input, ans, pos) {
            JsonRun::Have(j, p1) => match split_parts(j) {
                Some((x, y)) => match run_spec(*e1, PayloadV::Json(x), ans, p1) {
                    Run::Done(Ok(z), p2) => match need_json(z, ans, p2) {
                        JsonRun::Have(zj, p3) => Run::Done(
                            Ok(PayloadV::Json(split_join(zj, y))),
                            p3,
                        ),
                        JsonRun::Failed(err, p3) => Run::Done(Err(err), p3),
                        JsonRun::Need(q) => Run::Need(q),
                    },
                    other => other,
                },
                None => Run::Done(Err(ErrorV::JsonEval), p1),
            },
            JsonRun::Failed(err, p1) => Run::Done(Err(err), p1),
            JsonRun::Need(q) => Run::Need(q),
        },
        ExprV::If(c, t, f) => match need_json(input, ans, pos) {
            JsonRun::Have(j, p1) => match run_spec(*c, PayloadV::Json(j), ans, p1) {
                Run::Done(Ok(r), p2) => match need_json(r, ans, p2) {
                    JsonRun::Have(JsonV::Bool(true), p3) => run_spec(*t, PayloadV::Json(j), ans, p3),
                    JsonRun::Have(JsonV::Bool(false), p3) => run_spec(*f, PayloadV::Json(j), ans, p3),
                    JsonRun::Have(_, p3) => Run::Done(Err(ErrorV::JsonEval), p3),
                    JsonRun::Failed(err, p3) => Run::Done(Err(err), p3),
                    JsonRun::Need(q) => Run::Need(q),
                },
                other => other,
            },
            JsonRun::Failed(err, p1) => Run::Done(Err(err), p1),
            JsonRun::Need(q) => Run::Need(q),
        },
    }
}

/// Where evaluation of `e` on `input` stands, given answers `ans`.
pub open spec fn eval_step(e: ExprV, input: PayloadV, ans: Seq<Result<PayloadV, ErrorV>>) -> StepV {
    match run_spec(e, input, ans, 0) {
        Run::Done(r, _) => StepV::Done(r),
        Run::Need(q) => StepV::Perform(q),
    }
}

/// The executable form of `Run`.
enum RunOut {
    Done(Result<Payload, Error>, usize),
    Need(Request),
}

spec fn run_out_view(r: RunOut) -> Run {
    match r {
        RunOut::Done(x, p) => Run::Done(result_view(x), p as int),
        RunOut::Need(q) => Run::Need(q@),
    }
}

/// The executable form of `JsonRun`.
enum JsonOut {
    Have(Json, usize),
    Failed(Error, usize),
    Need(Request),
}

spec fn json_out_view(r: JsonOut) -> JsonRun {
    match r {
        JsonOut::Have(j, p) => JsonRun::Have(j@, p as int),
        JsonOut::Failed(e, p) => JsonRun::Failed(e@, p as int),
        JsonOut::Need(q) => JsonRun::Need(q@),
    }
}

fn copy_answer(a: &Result<Payload, Error>) -> (r: Result<Payload, Error>)
    ensures
        result_view(r) == result_view(*a),
{
    match a {
        Ok(p) => Ok(p.copy()),
        Err(e) => Err(e.copy()),
    }
}

fn answer_at_exec(ans: &Vec<Result<Payload, Error>>, pos: usize, q: Request) -> (r: RunOut)
    requires
        pos <= ans.len(),
    ensures
        run_out_view(r) == answer_at(answers_view(ans@), pos as int, q@),
        r matches RunOut::Done(_, p) ==> pos <= p <= ans.len(),
{
    if pos < ans.len() {
        RunOut::Done(copy_answer(&ans[pos]), pos + 1)
    } else {
        RunOut::Need(q)
    }
}

#[verifier::loop_isolation(false)]
fn need_json_exec(p: Payload, ans: &Vec<Result<Payload, Error>>, pos: usize) -> (r: JsonOut)
    requires
        pos <= ans.len(),
    ensures
        json_out_view(r) == need_json(p@, answers_view(ans@), pos as int),
        r matches JsonOut::Have(_, q) ==> pos <= q <= ans.len(),
        r matches JsonOut::Failed(_, q) ==> pos <= q <= ans.len(),
{
    let ghost av = answers_view(ans@);
    let mut cur = p;
    let mut i = pos;
    loop
        invariant
            pos <= i <= ans.len(),
            need_json(p@, av, pos as int) == need_json(cur@, av, i as int),
        decreases ans.len() - i,
    {
        match cur {
            Payload::Json(j) => {
                return JsonOut::Have(j, i);
            },
            Payload::Chunk(b) => {
                if i < ans.len() {
                    match &ans[i] {
                        Ok(q) => {
                            cur = q.copy();
                            i = i + 1;
                        },
                        Err(e) => {
                            return JsonOut::Failed(e.copy(), i + 1);
                        },
                    }
                } else {
                    return JsonOut::Need(Request::DecodeJson(b));
                }
            },
        }
    }
}

fn split_parts_exec(j: &Json) -> (r: Option<(Json, Json)>)
    ensures
        match r {
            Some((x, y)) => split_parts(j@) == Some((x@, y@)),
            None => split_parts(j@) is None,
        },
{
    match j {
        Json::Object(es) => match (entries_get(es, "x"), entries_get(es, "y")) {
            (Some(x), Some(y)) => Some((x.copy(), y.copy())),
            _ => None,
        },
        _ => None,
    }
}

fn split_join_exec(x: Json, y: Json) -> (r: Json)
    ensures
        r@ == split_join(x@, y@),
{
    let pairs: Vec<(String, Json)> = vec![("x".to_owned(), x), ("y".to_owned(), y)];
    proof {
        let ps = pairs@;
        assert(ps.len() == 2);
        assert(ps[0].0@ == "x"@ && ps[0].1 == x);
        assert(ps.drop_last().drop_last() =~= Seq::<(String, Json)>::empty());
        assert(ps.drop_last().last() == ps[0]);
        reveal_with_fuel(entries_view, 3);
        assert(entries_view(ps.drop_last()) =~= seq![("x"@, x@)]);
        assert(entries_view(ps) =~= seq![("x"@, x@), ("y"@, y@)]);
    }
    Json::from_entries(pairs)
}

/// What `project t` gives on an input whose JSON is `json` (as `to_json`
/// gives it): an error in getting the JSON is passed on; otherwise the
/// transformer's value, or `JsonEval` where it has none.
pub fn eval_json(t: &Transformer, json: Result<Json, Error>) -> (r: Result<Payload, Error>)
    ensures
        match json {
            Err(e) => r matches Err(x) && x@ == e@,
            Ok(v) => match transformer_spec(t@, v@) {
                Some(w) => r matches Ok(p) && p@ == PayloadV::Json(w),
                None => r matches Err(x) && x@ == ErrorV::JsonEval,
            },
        },
{
    match json {
        Err(e) => Err(e),
        Ok(v) => match eval_transformer(t, &v) {
            Some(w) => Ok(Payload::Json(w)),
            None => Err(Error::JsonEval),
        },
    }
}

/// The parts `x` and `y` of the input of `split`, whose JSON is `json` (as
/// `to_json` gives it): an error in getting the JSON is passed on; an
/// object with entries `"x"` and `"y"` gives their values; any other JSON
/// gives `JsonEval`.
pub fn extract_split(json: Result<Json, Error>) -> (r: Result<(Json, Json), Error>)
    ensures
        match json {
            Err(e) => r matches Err(x) && x@ == e@,
            Ok(v) => match split_parts(v@) {
                Some((x, y)) => r matches Ok((a, b)) && a@ == x && b@ == y,
                None => r matches Err(x) && x@ == ErrorV::JsonEval,
            },
        },
{
    match json {
        Err(e) => Err(e),
        Ok(v) => match split_parts_exec(&v) {
            Some(parts) => Ok(parts),
            None => Err(Error::JsonEval),
        },
    }
}

fn run(e: &Expr, input: Payload, ans: &Vec<Result<Payload, Error>>, pos: usize) -> (r: RunOut)
    requires
        pos <= ans.len(),
    ensures
        run_out_view(r) == run_spec(e@, input@, answers_view(ans@), pos as int),
        r matches RunOut::Done(_, p) ==> pos <= p <= ans.len(),
    decreases e,
{
    match e {
        Expr::Pure(n) => answer_at_exec(ans, pos, Request::Invoke(n.clone(), input)),
        Expr::Fetch(path) => answer_at_exec(ans, pos, Request::Fetch(path.clone())),
        Expr::Download(u) => match need_json_exec(input, ans, pos) {
            JsonOut::Have(j, p1) => match eval_transformer(u, &j) {
                Some(Json::String(url)) => answer_at_exec(ans, p1, Request::Download(url)),
                _ => RunOut::Done(Err(Error::JsonEval), p1),
            },
            JsonOut::Failed(err, p1) => RunOut::Done(Err(err), p1),
            JsonOut::Need(q) => RunOut::Need(q),
        },
        Expr::Sequence(e1, e2) => match run(e1, input, ans, pos) {
            RunOut::Done(Ok(r), p1) => run(e2, r, ans, p1),
            other => other,
        },
        Expr::Project(t) => match need_json_exec(input, ans, pos) {
            JsonOut::Have(j, p1) => RunOut::Done(eval_json(t, Ok(j)), p1),
            JsonOut::Failed(err, p1) => RunOut::Done(eval_json(t, Err(err)), p1),
            JsonOut::Need(q) => RunOut::Need(q),
        },
        Expr::Split(e1) => {
            let (parts, p1) = match need_json_exec(input, ans, pos) {
                JsonOut::Have(j, p1) => (extract_split(Ok(j)), p1),
                JsonOut::Failed(err, p1) => (extract_split(Err(err)), p1),
                JsonOut::Need(q) => {
                    return RunOut::Need(q);
                },
            };
            match parts {
                Ok((x, y)) => match run(e1, Payload::Json(x), ans, p1) {
                    RunOut::Done(Ok(z), p2) => match need_json_exec(z, ans, p2) {
                        JsonOut::Have(zj, p3) => RunOut::Done(
                            Ok(Payload::Json(split_join_exec(zj, y))),
                            p3,
                        ),
                        JsonOut::Failed(err, p3) => RunOut::Done(Err(err), p3),
                        JsonOut::Need(q) => RunOut::Need(q),
                    },
                    other => other,
                },
                Err(err) => RunOut::Done(Err(err), p1),
            }
        },
        Expr::If(c, t, f) => match need_json_exec(input, ans, pos) {
            JsonOut::Have(j, p1) => match run(c, Payload::Json(j.copy()), ans, p1) {
                RunOut::Done(Ok(r), p2) => match need_json_exec(r, ans, p2) {
                    JsonOut::Have(Json::Bool(true), p3) => run(t, Payload::Json(j), ans, p3),
                    JsonOut::Have(Json::Bool(false), p3) => run(f, Payload::Json(j), ans, p3),
                    JsonOut::Have(_, p3) => RunOut::Done(Err(Error::JsonEval), p3),
                    JsonOut::Failed(err, p3) => RunOut::Done(Err(err), p3),
                    JsonOut::Need(q) => RunOut::Need(q),
                },
                other => other,
            },
            JsonOut::Failed(err, p1) => RunOut::Done(Err(err), p1),
            JsonOut::Need(q) => RunOut::Need(q),
        },
    }
}

/// Evaluates program `expr` on `input`, given the answers to the work it
/// asked for so far, in order: the program's result, or the work to do
/// next.  The caller does that work, appends its answer (for `DecodeJson`,
/// the JSON as a payload, or `Error::Json`) and evaluates again.
pub fn eval(input: &Payload, expr: &Expr, answers: &Vec<Result<Payload, Error>>) -> (s: Step)
    ensures
        s@ == eval_step(expr@, input@, answers_view(answers@)),
{
    match run(expr, input.copy(), answers, 0) {
        RunOut::Done(r, _) => Step::Done(r),
        RunOut::Need(q) => Step::Perform(q),
    }
}

/// Reading JSON from a payload uses answers only up to the position it
/// reports, and answers added after the ones given leave it unchanged.
proof fn lemma_need_json_extend(
    p: PayloadV,
    ans: Seq<Result<PayloadV, ErrorV>>,
    more: Seq<Result<PayloadV, ErrorV>>,
    pos: int,
)
    requires
        0 <= pos <= ans.len(),
    ensures
        need_json(p, ans, pos) matches JsonRun::Have(_, q) ==> pos <= q <= ans.len() && need_json(
            p,
            ans + more,
            pos,
        ) == need_json(p, ans, pos),
        need_json(p, ans, pos) matches JsonRun::Failed(_, q) ==> pos <= q <= ans.len() && need_json(
            p,
            ans + more,
            pos,
        ) == need_json(p, ans, pos),
    decreases ans.len() - pos,
{
    match p {
        PayloadV::Json(_) => {},
        PayloadV::Chunk(_) => {
            if pos < ans.len() {
                assert((ans + more)[pos] == ans[pos]);
                match ans[pos] {
                    Ok(q) => lemma_need_json_extend(q, ans, more, pos + 1),
                    Err(_) => {},
                }
            }
        },
    }
}

/// A run that is done used answers only up to the position it reports, and
/// answers added after the ones given leave it unchanged.
proof fn lemma_run_extend(
    e: ExprV,
    input: PayloadV,
    ans: Seq<Result<PayloadV, ErrorV>>,
    more: Seq<Result<PayloadV, ErrorV>>,
    pos: int,
)
    requires
        0 <= pos <= ans.len(),
    ensures
        run_spec(e, input, ans, pos) matches Run::Done(_, q) ==> pos <= q <= ans.len() && run_spec(
            e,
            input,
            ans + more,
            pos,
        ) == run_spec(e, input, ans, pos),
    decreases e,
{
    let all = ans + more;
    if pos < ans.len() {
        assert(all[pos] == ans[pos]);
    }
    match e {
        ExprV::Pure(_) => {},
        ExprV::Fetch(_) => {},
        ExprV::Download(u) => {
            lemma_need_json_extend(input, ans, more, pos);
            if let JsonRun::Have(j, p1) = need_json(input, ans, pos) {
                if p1 < ans.len() {
                    assert(all[p1] == ans[p1]);
                }
            }
        },
        ExprV::Sequence(e1, e2) => {
            lemma_run_extend(*e1, input, ans, more, pos);
            if let Run::Done(Ok(r), p1) = run_spec(*e1, input, ans, pos) {
                lemma_run_extend(*e2, r, ans, more, p1);
            }
        },
        ExprV::Project(_) => {
            lemma_need_json_extend(input, ans, more, pos);
        },
        ExprV::Split(e1) => {
            lemma_need_json_extend(input, ans, more, pos);
            if let JsonRun::Have(j, p1) = need_json(input, ans, pos) {
                if let Some((x, y)) = split_parts(j) {
                    lemma_run_extend(*e1, PayloadV::Json(x), ans, more, p1);
                    if let Run::Done(Ok(z), p2) = run_spec(*e1, PayloadV::Json(x), ans, p1) {
                        lemma_need_json_extend(z, ans, more, p2);
                    }
                }
            }
        },
        ExprV::If(c, t, f) => {
            lemma_need_json_extend(input, ans, more, pos);
            if let JsonRun::Have(j, p1) = need_json(input, ans, pos) {
                lemma_run_extend(*c, PayloadV::Json(j), ans, more, p1);
                if let Run::Done(Ok(r), p2) = run_spec(*c, PayloadV::Json(j), ans, p1) {
                    lemma_need_json_extend(r, ans, more, p2);
                    if let JsonRun::Have(b, p3) = need_json(r, ans, p2) {
                        lemma_run_extend(*t, PayloadV::Json(j), ans, more, p3);
                        lemma_run_extend(*f, PayloadV::Json(j), ans, more, p3);
                    }
                }
            }
        },
    }
}

/// Once a program's result is known, answers given after it do not change
/// it: evaluation only ever asks for more work while the result is open.
pub proof fn law_result_stable(
    e: ExprV,
    input: PayloadV,
    ans: Seq<Result<PayloadV, ErrorV>>,
    more: Seq<Result<PayloadV, ErrorV>>,
)
    requires
        eval_step(e, input, ans) is Done,
    ensures
        eval_step(e, input, ans + more) == eval_step(e, input, ans),
{
    lemma_run_extend(e, input, ans, more, 0);
}

/// Sequencing is associative: `(a ; b) ; c` and `a ; (b ; c)` evaluate
/// alike on every input and every list of answers.
pub proof fn law_sequence_assoc(
    a: ExprV,
    b: ExprV,
    c: ExprV,
    input: PayloadV,
    ans: Seq<Result<PayloadV, ErrorV>>,
)
    ensures
        eval_step(
            ExprV::Sequence(Box::new(ExprV::Sequence(Box::new(a), Box::new(b))), Box::new(c)),
            input,
            ans,
        ) == eval_step(
            ExprV::Sequence(Box::new(a), Box::new(ExprV::Sequence(Box::new(b), Box::new(c)))),
            input,
            ans,
        ),
{
    let left = ExprV::Sequence(Box::new(ExprV::Sequence(Box::new(a), Box::new(b))), Box::new(c));
    let right = ExprV::Sequence(Box::new(a), Box::new(ExprV::Sequence(Box::new(b), Box::new(c))));
    match run_spec(a, input, ans, 0) {
        Run::Done(Ok(r1), p1) => {
            assert(run_spec(ExprV::Sequence(Box::new(a), Box::new(b)), input, ans, 0) == run_spec(
                b,
                r1,
                ans,
                p1,
            ));
            assert(run_spec(right, input, ans, 0) == run_spec(
                ExprV::Sequence(Box::new(b), Box::new(c)),
                r1,
                ans,
                p1,
            ));
        },
        other => {
            assert(run_spec(ExprV::Sequence(Box::new(a), Box::new(b)), input, ans, 0) == other);
            assert(run_spec(left, input, ans, 0) == other);
            assert(run_spec(right, input, ans, 0) == other);
        },
    }
}

/// `pure f` passes its input as it is to the function `f`, and the
/// function's answer is the result.
pub proof fn law_pure(n: Seq<char>, input: PayloadV, ans: Seq<Result<PayloadV, ErrorV>>)
    ensures
        eval_step(ExprV::Pure(n), input, ans) == (if ans.len() == 0 {
            StepV::Perform(RequestV::Invoke(n, input))
        } else {
            StepV::Done(ans[0])
        }),
{
}

/// `project t` on JSON gives what transformer `t` gives on it, and fails
/// with `JsonEval` where the transformer has no value.
pub proof fn law_project(t: TransformerV, j: JsonV, ans: Seq<Result<PayloadV, ErrorV>>)
    ensures
        eval_step(ExprV::Project(t), PayloadV::Json(j), ans) == StepV::Done(
            match transformer_spec(t, j) {
                Some(v) => Ok(PayloadV::Json(v)),
                None => Err(ErrorV::JsonEval),
            },
        ),
{
}

/// `split e` on `{"x": a, "y": s}` runs `e` on `a`; when that gives JSON
/// `z`, the result is an object whose `"x"` is `z` and whose `"y"` is still
/// `s`.  An input without both fields fails with `JsonEval`.
pub proof fn law_split(e: ExprV, j: JsonV, z: JsonV, ans: Seq<Result<PayloadV, ErrorV>>)
    ensures
        split_parts(j) is None ==> eval_step(ExprV::Split(Box::new(e)), PayloadV::Json(j), ans)
            == StepV::Done(Err(ErrorV::JsonEval)),
        split_parts(j) matches Some((x, s)) ==> (eval_step(e, PayloadV::Json(x), ans) == StepV::Done(
            Ok(PayloadV::Json(z)),
        ) ==> eval_step(ExprV::Split(Box::new(e)), PayloadV::Json(j), ans) == StepV::Done(
            Ok(PayloadV::Json(split_join(z, s))),
        ) && split_parts(split_join(z, s)) == Some((z, s))),
{
    if let Some((x, s)) = split_parts(j) {
        lemma_split_join(z, s);
    }
}

/// The object `{"x": z, "y": s}` has `z` at `"x"` and `s` at `"y"`.
proof fn lemma_split_join(z: JsonV, s: JsonV)
    ensures
        split_parts(split_join(z, s)) == Some((z, s)),
{
    reveal_strlit("x");
    reveal_strlit("y");
    let pairs = seq![("x"@, z), ("y"@, s)];
    assert(pairs.drop_last() =~= seq![("x"@, z)]);
    assert(pairs.drop_last().drop_last() =~= Seq::<(Seq<char>, JsonV)>::empty());
    assert(seq![("x"@, z)].drop_last() =~= Seq::<(Seq<char>, JsonV)>::empty());
    let one = build_object(seq![("x"@, z)]);
    assert(build_object(Seq::<(Seq<char>, JsonV)>::empty()) == Seq::<(Seq<char>, JsonV)>::empty());
    assert(one == entry_insert(Seq::empty(), "x"@, z));
    lemma_entry_insert_lookup(Seq::empty(), "x"@, z, "x"@);
    lemma_entry_insert_lookup(Seq::empty(), "x"@, z, "y"@);
    lemma_entry_insert_lookup(one, "y"@, s, "x"@);
    lemma_entry_insert_lookup(one, "y"@, s, "y"@);
    assert("x"@ != "y"@) by {
        assert("x"@[0] != "y"@[0]);
    }
}

/// `if (c) { t } else { f }` runs `c` on the input; when `c` gives `true`
/// it continues with `t` on the same input, when `false` with `f`; when
/// `c` gives JSON that is neither, it fails with `JsonEval`.
pub proof fn law_if(
    c: ExprV,
    t: ExprV,
    f: ExprV,
    j: JsonV,
    ans: Seq<Result<PayloadV, ErrorV>>,
    v: JsonV,
    p: int,
)
    requires
        run_spec(c, PayloadV::Json(j), ans, 0) == Run::Done(Ok(PayloadV::Json(v)), p),
    ensures
        run_spec(ExprV::If(Box::new(c), Box::new(t), Box::new(f)), PayloadV::Json(j), ans, 0)
            == (match v {
            JsonV::Bool(true) => run_spec(t, PayloadV::Json(j), ans, p),
            JsonV::Bool(false) => run_spec(f, PayloadV::Json(j), ans, p),
            _ => Run::Done(Err(ErrorV::JsonEval), p),
        }),
{
}

/// `project` and `split` read their input as JSON: bytes are first handed
/// out to be read as JSON text; an error in reading is the result; and
/// `project` on bytes read as JSON `j` gives what it gives on `j`.
pub proof fn law_read_json(
    t: TransformerV,
    e: ExprV,
    b: Seq<u8>,
    ans: Seq<Result<PayloadV, ErrorV>>,
)
    ensures
        ans.len() == 0 ==> eval_step(ExprV::Project(t), PayloadV::Chunk(b), ans) == StepV::Perform(
            RequestV::DecodeJson(b),
        ) && eval_step(ExprV::Split(Box::new(e)), PayloadV::Chunk(b), ans) == StepV::Perform(
            RequestV::DecodeJson(b),
        ),
        ans.len() > 0 && ans[0] is Err ==> eval_step(ExprV::Project(t), PayloadV::Chunk(b), ans)
            == StepV::Done(ans[0]) && eval_step(ExprV::Split(Box::new(e)), PayloadV::Chunk(b), ans)
            == StepV::Done(ans[0]),
        ans.len() > 0 ==> (ans[0] matches Ok(PayloadV::Json(j)) ==> eval_step(
            ExprV::Project(t),
            PayloadV::Chunk(b),
            ans,
        ) == eval_step(ExprV::Project(t), PayloadV::Json(j), ans)),
{
    if ans.len() > 0 {
        if let Ok(PayloadV::Json(j)) = ans[0] {
            assert(need_json(PayloadV::Json(j), ans, 1) == JsonRun::Have(j, 1));
        }
    }
}

/// `download u` on JSON `j` downloads the URL that `u` gives on `j`, and
/// the downloaded answer, as it is, is the result; where `u` gives no
/// string it fails with `JsonEval` and downloads nothing.
pub proof fn law_download(u: TransformerV, j: JsonV, ans: Seq<Result<PayloadV, ErrorV>>)
    ensures
        transformer_spec(u, j) matches Some(JsonV::Str(url)) ==> eval_step(
            ExprV::Download(u),
            PayloadV::Json(j),
            ans,
        ) == (if ans.len() == 0 {
            StepV::Perform(RequestV::Download(url))
        } else {
            StepV::Done(ans[0])
        }),
        !(transformer_spec(u, j) matches Some(JsonV::Str(_))) ==> eval_step(
            ExprV::Download(u),
            PayloadV::Json(j),
            ans,
        ) == StepV::Done(Err(ErrorV::JsonEval)),
{
}

/// `fetch path` asks for the object at `path` of the storage, whatever
/// the input, and that answer, as it is, is the result.
pub proof fn law_fetch(path: Seq<char>, input: PayloadV, ans: Seq<Result<PayloadV, ErrorV>>)
    ensures
        eval_step(ExprV::Fetch(path), input, ans) == (if ans.len() == 0 {
            StepV::Perform(RequestV::Fetch(path))
        } else {
            StepV::Done(ans[0])
        }),
{
}

/// The names of the functions of a program made of `pure` and `;` only,
/// read left to right; `None` for a program with any other part.
pub open spec fn pure_chain(e: ExprV) -> Option<Seq<Seq<char>>>
    decreases e,
{
    match e {
        ExprV::Pure(n) => Some(seq![n]),
        ExprV::Sequence(a, b) => match (pure_chain(*a), pure_chain(*b)) {
            (Some(x), Some(y)) => Some(x + y),
            _ => None,
        },
        _ => None,
    }
}

/// The functions `names` invoked in order from answer `pos` on, the first
/// on `input` and each later one on the answer of the one before; the
/// first error ends the run.
pub open spec fn invoke_chain(
    names: Seq<Seq<char>>,
    input: PayloadV,
    ans: Seq<Result<PayloadV, ErrorV>>,
    pos: int,
) -> Run
    decreases names.len(),
{
    if names.len() == 0 {
        Run::Done(Ok(input), pos)
    } else if 0 <= pos < ans.len() {
        match ans[pos] {
            Ok(r) => invoke_chain(names.drop_first(), r, ans, pos + 1),
            Err(x) => Run::Done(Err(x), pos + 1),
        }
    } else {
        Run::Need(RequestV::Invoke(names[0], input))
    }
}

proof fn lemma_invoke_chain_append(
    a: Seq<Seq<char>>,
    b: Seq<Seq<char>>,
    input: PayloadV,
    ans: Seq<Result<PayloadV, ErrorV>>,
    pos: int,
)
    ensures
        invoke_chain(a + b, input, ans, pos) == match invoke_chain(a, input, ans, pos) {
            Run::Done(Ok(r), p) => invoke_chain(b, r, ans, p),
            other => other,
        },
    decreases a.len(),
{
    if a.len() == 0 {
        assert(a + b =~= b);
    } else {
        assert((a + b).drop_first() =~= a.drop_first() + b);
        assert((a + b)[0] == a[0]);
        if 0 <= pos < ans.len() {
            if let Ok(r) = ans[pos] {
                lemma_invoke_chain_append(a.drop_first(), b, r, ans, pos + 1);
            }
        }
    }
}

proof fn lemma_run_invoke_chain(
    e: ExprV,
    input: PayloadV,
    ans: Seq<Result<PayloadV, ErrorV>>,
    pos: int,
)
    requires
        pure_chain(e) is Some,
    ensures
        run_spec(e, input, ans, pos) == invoke_chain(pure_chain(e)->0, input, ans, pos),
    decreases e,
{
    match e {
        ExprV::Pure(n) => {
            let l = seq![n];
            assert(l.drop_first() =~= Seq::<Seq<char>>::empty());
            if 0 <= pos < ans.len() {
                if let Ok(r) = ans[pos] {
                    assert(invoke_chain(l.drop_first(), r, ans, pos + 1) == Run::Done(Ok(r), pos + 1));
                }
            }
        },
        ExprV::Sequence(a, b) => {
            lemma_run_invoke_chain(*a, input, ans, pos);
            lemma_invoke_chain_append(pure_chain(*a)->0, pure_chain(*b)->0, input, ans, pos);
            if let Run::Done(Ok(r), p) = run_spec(*a, input, ans, pos) {
                lemma_run_invoke_chain(*b, r, ans, p);
            }
        },
        _ => {},
    }
}

/// A program of `pure` steps joined by `;` invokes its functions in order,
/// left to right, each once: the first on the input and each later one on
/// the answer of the one before.  The first failed answer is the result
/// and no function is invoked after it; otherwise the result is the answer
/// of the last function.
pub proof fn law_pure_chain(e: ExprV, input: PayloadV, ans: Seq<Result<PayloadV, ErrorV>>)
    requires
        pure_chain(e) is Some,
    ensures
        eval_step(e, input, ans) == match invoke_chain(pure_chain(e)->0, input, ans, 0) {
            Run::Done(r, _) => StepV::Done(r),
            Run::Need(q) => StepV::Perform(q),
        },
{
    lemma_run_invoke_chain(e, input, ans, 0);
}

} // verus!
