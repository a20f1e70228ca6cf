//! The smallest language of serverless programs: functions run one after
//! another, each on what the one before gave.
//!
//! Evaluation is a function of the program, its input and the answers of
//! the functions invoked so far, in order: it gives the result, or the next
//! function to invoke.  The caller invokes it, adds the answer to the list
//! and evaluates again.
use vstd::prelude::*;
use vstd::string::*;
use vstd::utf8::{decode_utf8, valid_utf8};
use crate::llspl::syntax::str_from_utf8;

verus! {

/// The input or output of a program: bytes.
#[derive(Debug)]
pub enum Payload {
    Chunk(Vec<u8>),
}

impl View for Payload {
    type V = Seq<u8>;

    open spec fn view(&self) -> Seq<u8> {
        match self {
            Payload::Chunk(b) => b@,
        }
    }
}

impl Payload {
    /// The payload of the bytes of a text.
    pub fn from(a_str: &'static str) -> (p: Payload)
        ensures
            p@ == a_str.spec_bytes(),
    {
        Payload::Chunk(a_str.as_bytes_vec())
    }

    /// A copy of the payload.
    pub fn copy(&self) -> (p: Payload)
        ensures
            p@ == self@,
    {
        match self {
            Payload::Chunk(b) => Payload::Chunk(b.clone()),
        }
    }
}

/// The text of a payload of UTF-8 bytes.
pub fn inspect(payload: &Payload) -> (s: &str)
    requires
        valid_utf8(payload@),
    ensures
        s@ == decode_utf8(payload@),
{
    match payload {
        Payload::Chunk(chunk) => {
            let t = str_from_utf8(chunk.as_slice());
            t.unwrap()
        },
    }
}

/// A program.
#[derive(Debug, PartialEq)]
pub enum Expr {
    /// Invokes the serverless function of this name on the input.
    Pure(String),
    /// Runs the first program, then the second on its output.
    Sequence(Box<Expr>, Box<Expr>),
}

/// The mathematical form of a program.
pub enum ExprV {
    Pure(Seq<char>),
    Sequence(Box<ExprV>, Box<ExprV>),
}

/// The mathematical form of a program.
pub open spec fn expr_view(e: Expr) -> ExprV
    decreases e,
{
    match e {
        Expr::Pure(n) => ExprV::Pure(n@),
        Expr::Sequence(a, b) => ExprV::Sequence(Box::new(expr_view(*a)), Box::new(expr_view(*b))),
    }
}

impl View for Expr {
    type V = ExprV;

    open spec fn view(&self) -> ExprV {
        expr_view(*self)
    }
}

/// Where evaluation stands: the result (a failed invocation fails the
/// program), or the function to invoke next and its input.
#[derive(Debug)]
pub enum Step {
    Done(Result<Payload, ()>),
    Invoke(String, Payload),
}

/// The mathematical form of a step.
pub enum StepV {
    Done(Result<Seq<u8>, ()>),
    Invoke(Seq<char>, Seq<u8>),
}

/// The mathematical form of a result.
pub open spec fn result_view(r: Result<Payload, ()>) -> Result<Seq<u8>, ()> {
    match r {
        Ok(p) => Ok(p@),
        Err(_) => Err(()),
    }
}

/// The mathematical forms of the answers, in order.
pub open spec fn answers_view(a: Seq<Result<Payload, ()>>) -> Seq<Result<Seq<u8>, ()>> {
    a.map_values(|r: Result<Payload, ()>| result_view(r))
}

impl View for Step {
    type V = StepV;

    open spec fn view(&self) -> StepV {
        match self {
            Step::Done(r) => StepV::Done(result_view(*r)),
            Step::Invoke(n, p) => StepV::Invoke(n@, p@),
        }
    }
}

/// A run that used the answers up to a position.
pub enum Run {
    /// The result, and the position of the first answer not used.
    Done(Result<Seq<u8>, ()>, int),
    /// The answers ran out: this function is to be invoked on this input.
    Need(Seq<char>, Seq<u8>),
}

/// Program `e` on `input`, given the answers `ans` from position `pos` on.
pub open spec fn run_spec(e: ExprV, input: Seq<u8>, ans: Seq<Result<Seq<u8>, ()>>, pos: int) -> Run
    decreases e,
{
    match e {
        ExprV::Pure(n) => if 0 <= pos < ans.len() {
            Run::Done(ans[pos], pos + 1)
        } else {
            Run::Need(n, input)
        },
        ExprV::Sequence(e1, e2) => match run_spec(*e1, input, ans, pos) {
            Run::Done(Ok(r), p1) => run_spec(*e2, r, ans, p1),
            other => other,
        },
    }
}

/// Where evaluation of `e` on `input` stands, given answers `ans`.
pub open spec fn eval_step(e: ExprV, input: Seq<u8>, ans: Seq<Result<Seq<u8>, ()>>) -> StepV {
    match run_spec(e, input, ans, 0) {
        Run::Done(r, _) => StepV::Done(r),
        Run::Need(n, p) => StepV::Invoke(n, p),
    }
}

enum RunOut {
    Done(Result<Payload, ()>, usize),
    Need(String, Payload),
}

spec fn run_out_view(r: RunOut) -> Run {
    match r {
        RunOut::Done(x, p) => Run::Done(result_view(x), p as int),
        RunOut::Need(n, q) => Run::Need(n@, q@),
    }
}

fn run(e: &Expr, input: Payload, ans: &Vec<Result<Payload, ()>>, pos: usize) -> (r: RunOut)
    requires
        pos <= ans.len(),
    ensures
        run_out_view(r) == run_spec(e@, input@, answers_view(ans@), pos as int),
        r matches RunOut::Done(_, p) ==> pos <= p <= ans.len(),
    decreases e,
{
    match e {
        Expr::Pure(n) => {
            if pos < ans.len() {
                let a = match &ans[pos] {
                    Ok(p) => Ok(p.copy()),
                    Err(_) => Err(()),
                };
                RunOut::Done(a, pos + 1)
            } else {
                RunOut::Need(n.clone(), input)
            }
        },
        Expr::Sequence(e1, e2) => match run(e1, input, ans, pos) {
            RunOut::Done(Ok(r), p1) => run(e2, r, ans, p1),
            other => other,
        },
    }
}

/// Evaluates program `expr` on `input`, given the answers of the functions
/// invoked so far, in order: the result, or the function to invoke next.
pub fn eval(input: &Payload, expr: &Expr, answers: &Vec<Result<Payload, ()>>) -> (s: Step)
    ensures
        s@ == eval_step(expr@, input@, answers_view(answers@)),
{
    match run(expr, input.copy(), answers, 0) {
        RunOut::Done(r, _) => Step::Done(r),
        RunOut::Need(n, p) => Step::Invoke(n, p),
    }
}

proof fn lemma_run_extend(
    e: ExprV,
    input: Seq<u8>,
    ans: Seq<Result<Seq<u8>, ()>>,
    more: Seq<Result<Seq<u8>, ()>>,
    pos: int,
)
    requires
        0 <= pos <= ans.len(),
    ensures
        run_spec(e, input, ans, pos) matches Run::Done(_, q) ==> pos <= q <= ans.len() && run_spec(
            e,
            input,
            ans + more,
            pos,
        ) == run_spec(e, input, ans, pos),
    decreases e,
{
    if pos < ans.len() {
        assert((ans + more)[pos] == ans[pos]);
    }
    if let ExprV::Sequence(e1, e2) = e {
        lemma_run_extend(*e1, input, ans, more, pos);
        if let Run::Done(Ok(r), p1) = run_spec(*e1, input, ans, pos) {
            lemma_run_extend(*e2, r, ans, more, p1);
        }
    }
}

/// Once a program's result is known, answers given after it do not change
/// it.
pub proof fn law_result_stable(
    e: ExprV,
    input: Seq<u8>,
    ans: Seq<Result<Seq<u8>, ()>>,
    more: Seq<Result<Seq<u8>, ()>>,
)
    requires
        eval_step(e, input, ans) is Done,
    ensures
        eval_step(e, input, ans + more) == eval_step(e, input, ans),
{
    lemma_run_extend(e, input, ans, more, 0);
}

/// Sequencing is associative.
pub proof fn law_sequence_assoc(
    a: ExprV,
    b: ExprV,
    c: ExprV,
    input: Seq<u8>,
    ans: Seq<Result<Seq<u8>, ()>>,
)
    ensures
        eval_step(
            ExprV::Sequence(Box::new(ExprV::Sequence(Box::new(a), Box::new(b))), Box::new(c)),
            input,
            ans,
        ) == eval_step(
            ExprV::Sequence(Box::new(a), Box::new(ExprV::Sequence(Box::new(b), Box::new(c)))),
            input,
            ans,
        ),
{
    let ab = ExprV::Sequence(Box::new(a), Box::new(b));
    let bc = ExprV::Sequence(Box::new(b), Box::new(c));
    let left = ExprV::Sequence(Box::new(ab), Box::new(c));
    let right = ExprV::Sequence(Box::new(a), Box::new(bc));
    match run_spec(a, input, ans, 0) {
        Run::Done(Ok(r1), p1) => {
            assert(run_spec(ab, input, ans, 0) == run_spec(b, r1, ans, p1));
            assert(run_spec(right, input, ans, 0) == run_spec(bc, r1, ans, p1));
        },
        other => {
            assert(run_spec(ab, input, ans, 0) == other);
            assert(run_spec(left, input, ans, 0) == other);
            assert(run_spec(right, input, ans, 0) == other);
        },
    }
}

/// `pure f` invokes `f` on the input as it is, and the answer of `f` is the
/// result.
pub proof fn law_pure(n: Seq<char>, input: Seq<u8>, ans: Seq<Result<Seq<u8>, ()>>)
    ensures
        eval_step(ExprV::Pure(n), input, ans) == (if ans.len() == 0 {
            StepV::Invoke(n, input)
        } else {
            StepV::Done(ans[0])
        }),
{
}

/// The names of the functions of a program, read left to right.
pub open spec fn leaves(e: ExprV) -> Seq<Seq<char>>
    decreases e,
{
    match e {
        ExprV::Pure(n) => seq![n],
        ExprV::Sequence(a, b) => leaves(*a) + leaves(*b),
    }
}

/// The functions `names` invoked in order from answer `pos` on, the first
/// on `input` and each later one on the answer of the one before: the
/// first failed answer ends the run, and where the answers run out the
/// next function is to be invoked.
pub open spec fn chain(names: Seq<Seq<char>>, input: Seq<u8>, ans: Seq<Result<Seq<u8>, ()>>, pos: int) -> Run
    decreases names.len(),
{
    if names.len() == 0 {
        Run::Done(Ok(input), pos)
    } else if 0 <= pos < ans.len() {
        match ans[pos] {
            Ok(r) => chain(names.drop_first(), r, ans, pos + 1),
            Err(x) => Run::Done(Err(x), pos + 1),
        }
    } else {
        Run::Need(names[0], input)
    }
}

proof fn lemma_chain_append(
    a: Seq<Seq<char>>,
    b: Seq<Seq<char>>,
    input: Seq<u8>,
    ans: Seq<Result<Seq<u8>, ()>>,
    pos: int,
)
    ensures
        chain(a + b, input, ans, pos) == match chain(a, input, ans, pos) {
            Run::Done(Ok(r), p) => chain(b, r, ans, p),
            other => other,
        },
    decreases a.len(),
{
    if a.len() == 0 {
        assert(a + b =~= b);
    } else {
        assert((a + b).drop_first() =~= a.drop_first() + b);
        assert((a + b)[0] == a[0]);
        if 0 <= pos < ans.len() {
            if let Ok(r) = ans[pos] {
                lemma_chain_append(a.drop_first(), b, r, ans, pos + 1);
            }
        }
    }
}

proof fn lemma_run_chain(e: ExprV, input: Seq<u8>, ans: Seq<Result<Seq<u8>, ()>>, pos: int)
    ensures
        run_spec(e, input, ans, pos) == chain(leaves(e), input, ans, pos),
    decreases e,
{
    match e {
        ExprV::Pure(n) => {
            let l = seq![n];
            assert(l.drop_first() =~= Seq::<Seq<char>>::empty());
            if 0 <= pos < ans.len() {
                if let Ok(r) = ans[pos] {
                    assert(chain(l.drop_first(), r, ans, pos + 1) == Run::Done(Ok(r), pos + 1));
                }
            }
        },
        ExprV::Sequence(a, b) => {
            lemma_run_chain(*a, input, ans, pos);
            lemma_chain_append(leaves(*a), leaves(*b), input, ans, pos);
            if let Run::Done(Ok(r), p) = run_spec(*a, input, ans, pos) {
                lemma_run_chain(*b, r, ans, p);
            }
        },
    }
}

/// A program invokes its functions in order, left to right, each once: the
/// first on the input and each later one on the answer of the one before.
/// The first failed answer fails the program, no function is invoked after
/// it, and the result is the answer of the last function.
pub proof fn law_chain(e: ExprV, input: Seq<u8>, ans: Seq<Result<Seq<u8>, ()>>)
    ensures
        eval_step(e, input, ans) == match chain(leaves(e), input, ans, 0) {
            Run::Done(r, _) => StepV::Done(r),
            Run::Need(n, p) => StepV::Invoke(n, p),
        },
{
    lemma_run_chain(e, input, ans, 0);
}

} // verus!
