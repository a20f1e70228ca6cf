//! Syntax of JSON transformers.
use vstd::prelude::*;
use crate::json::{Number, NumberV};

verus! {

/// One step of a pattern.
#[derive(Debug, PartialEq)]
pub enum PatAtom {
    /// The entry with this key of an object.
    Select(String),
    /// The element at this position of an array.
    Index(usize),
    /// The transformer applied to each element of an array.
    MapEach(Box<Expr>),
}

/// A pattern: `$in` followed by steps.  `Pat(atom, rest)` is the path
/// `rest` followed by the step `atom`, which selects from what `rest`
/// selects.
#[derive(Debug, PartialEq)]
pub enum Pat {
    Empty,
    Pat(PatAtom, Box<Pat>),
}

/// A comparison.
#[derive(Debug, PartialEq)]
pub enum Op {
    Eq,
    NotEq,
    Greater,
    Less,
    GreaterEq,
    LessEq,
}

/// A JSON transformer: builds a JSON value from its input.
#[derive(Debug, PartialEq)]
pub enum Expr {
    Pat(Pat),
    Null,
    Bool(bool),
    Number(Number),
    String(String),
    Array(Vec<Expr>),
    Object(Vec<(String, Expr)>),
    BinOp(Op, Box<Expr>, Box<Expr>),
}

/// The mathematical form of a pattern step.
pub enum PatAtomV {
    Select(Seq<char>),
    Index(nat),
    MapEach(Box<ExprV>),
}

/// The mathematical form of a pattern.
pub enum PatV {
    Empty,
    Pat(PatAtomV, Box<PatV>),
}

/// The mathematical form of a transformer.
pub enum ExprV {
    Pat(PatV),
    Null,
    Bool(bool),
    Number(NumberV),
    Str(Seq<char>),
    Array(Seq<ExprV>),
    Object(Seq<(Seq<char>, ExprV)>),
    BinOp(Op, Box<ExprV>, Box<ExprV>),
}

/// The mathematical form of a pattern step.
pub open spec fn pat_atom_view(a: PatAtom) -> PatAtomV
    decreases a,
{
    match a {
        PatAtom::Select(s) => PatAtomV::Select(s@),
        PatAtom::Index(i) => PatAtomV::Index(i as nat),
        PatAtom::MapEach(e) => PatAtomV::MapEach(Box::new(expr_view(*e))),
    }
}

/// The mathematical form of a pattern.
pub open spec fn pat_view(p: Pat) -> PatV
    decreases p,
{
    match p {
        Pat::Empty => PatV::Empty,
        Pat::Pat(a, rest) => PatV::Pat(pat_atom_view(a), Box::new(pat_view(*rest))),
    }
}

/// The mathematical form of a transformer.
pub open spec fn expr_view(e: Expr) -> ExprV
    decreases e,
{
    match e {
        Expr::Pat(p) => ExprV::Pat(pat_view(p)),
        Expr::Null => ExprV::Null,
        Expr::Bool(b) => ExprV::Bool(b),
        Expr::Number(n) => ExprV::Number(n@),
        Expr::String(s) => ExprV::Str(s@),
        Expr::Array(v) => ExprV::Array(expr_seq_view(v@)),
        Expr::Object(v) => ExprV::Object(expr_entries_view(v@)),
        Expr::BinOp(op, l, r) => ExprV::BinOp(op, Box::new(expr_view(*l)), Box::new(expr_view(*r))),
    }
}

/// The mathematical forms of a sequence of transformers.
pub open spec fn expr_seq_view(s: Seq<Expr>) -> Seq<ExprV>
    decreases s,
{
    if s.len() == 0 {
        Seq::empty()
    } else {
        expr_seq_view(s.drop_last()).push(expr_view(s.last()))
    }
}

/// The mathematical forms of the entries of an object transformer.
pub open spec fn expr_entries_view(s: Seq<(String, Expr)>) -> Seq<(Seq<char>, ExprV)>
    decreases s,
{
    if s.len() == 0 {
        Seq::empty()
    } else {
        expr_entries_view(s.drop_last()).push((s.last().0@, expr_view(s.last().1)))
    }
}

impl View for Expr {
    type V = ExprV;

    open spec fn view(&self) -> ExprV {
        expr_view(*self)
    }
}

impl View for Pat {
    type V = PatV;

    open spec fn view(&self) -> PatV {
        pat_view(*self)
    }
}

/// The view of a sequence of transformers has their views, position by position.
pub proof fn lemma_expr_seq_view(s: Seq<Expr>)
    ensures
        expr_seq_view(s).len() == s.len(),
        forall|i: int| 0 <= i < s.len() ==> #[trigger] expr_seq_view(s)[i] == expr_view(s[i]),
    decreases s.len(),
{
    if s.len() > 0 {
        lemma_expr_seq_view(s.drop_last());
    }
}

/// The view of a sequence of entries has their views, position by position.
pub proof fn lemma_expr_entries_view(s: Seq<(String, Expr)>)
    ensures
        expr_entries_view(s).len() == s.len(),
        forall|i: int|
            0 <= i < s.len() ==> #[trigger] expr_entries_view(s)[i] == (s[i].0@, expr_view(s[i].1)),
    decreases s.len(),
{
    if s.len() > 0 {
        lemma_expr_entries_view(s.drop_last());
    }
}

impl ExprV {
    /// Every number written in the transformer is one JSON can hold.
    pub open spec fn wf(self) -> bool
        decreases self,
    {
        match self {
            ExprV::Pat(p) => p.wf(),
            ExprV::Number(n) => n.wf(),
            ExprV::Array(s) => forall|i: int| 0 <= i < s.len() ==> (#[trigger] s[i]).wf(),
            ExprV::Object(s) => forall|i: int| 0 <= i < s.len() ==> (#[trigger] s[i]).1.wf(),
            ExprV::BinOp(_, l, r) => l.wf() && r.wf(),
            _ => true,
        }
    }
}

impl PatV {
    pub open spec fn wf(self) -> bool
        decreases self,
    {
        match self {
            PatV::Empty => true,
            PatV::Pat(a, rest) => match a {
                PatAtomV::MapEach(f) => f.wf() && rest.wf(),
                _ => rest.wf(),
            },
        }
    }
}

} // verus!
