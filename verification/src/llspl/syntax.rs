//! Programs and the payloads they pass along.
use vstd::prelude::*;
use vstd::string::*;
use vstd::utf8::{decode_utf8, valid_utf8};
use crate::json::{Json, JsonV, json_eq};
use super::error::{Error, ErrorV};
use crate::json_transformers::syntax::{Expr as Transformer, ExprV as TransformerV};

verus! {

/// The input or output of a program or of a serverless function: bytes as
/// they came, or JSON.
#[derive(Debug)]
pub enum Payload {
    Chunk(Vec<u8>),
    Json(Json),
}

/// The mathematical form of a payload.
pub enum PayloadV {
    Chunk(Seq<u8>),
    Json(JsonV),
}

impl View for Payload {
    type V = PayloadV;

    open spec fn view(&self) -> PayloadV {
        match self {
            Payload::Chunk(b) => PayloadV::Chunk(b@),
            Payload::Json(j) => PayloadV::Json(j@),
        }
    }
}

/// The text that UTF-8 bytes encode, with `std::str::from_utf8`: `Some`
/// exactly when the bytes are UTF-8.
#[verifier::external_body]
pub(crate) fn str_from_utf8(b: &[u8]) -> (r: Option<&str>)
    ensures
        r is Some <==> valid_utf8(b@),
        r matches Some(s) ==> s@ == decode_utf8(b@),
{
    std::str::from_utf8(b).ok()
}

impl Payload {
    /// The JSON of a payload: the value of a JSON payload; for a chunk of
    /// bytes, `read`, what reading those bytes as JSON text gave (the value,
    /// or the message of the reader's error, which becomes `Error::Json`).
    /// `read` is not looked at for a JSON payload.
    pub fn to_json(self, read: Result<Json, String>) -> (r: Result<Json, Error>)
        ensures
            match self@ {
                PayloadV::Json(j) => r matches Ok(k) && k@ == j,
                PayloadV::Chunk(_) => match read {
                    Ok(v) => r matches Ok(k) && k@ == v@,
                    Err(m) => r matches Err(e) && e@ == ErrorV::Json(m@),
                },
            },
    {
        match self {
            Payload::Json(j) => Ok(j),
            Payload::Chunk(_) => match read {
                Ok(v) => Ok(v),
                Err(m) => Err(Error::Json(m)),
            },
        }
    }

    /// The payload of the bytes of a text.
    pub fn from(a_str: &'static str) -> (p: Payload)
        ensures
            p@ == PayloadV::Chunk(a_str.spec_bytes()),
    {
        Payload::Chunk(a_str.as_bytes_vec())
    }

    /// The payload of some bytes.
    pub fn from_vec(vec: Vec<u8>) -> (p: Payload)
        ensures
            p@ == PayloadV::Chunk(vec@),
    {
        Payload::Chunk(vec)
    }

    /// A copy of the payload.
    pub fn copy(&self) -> (p: Payload)
        ensures
            p@ == self@,
    {
        match self {
            Payload::Chunk(b) => Payload::Chunk(b.clone()),
            Payload::Json(j) => Payload::Json(j.copy()),
        }
    }

    /// Payloads are equal when both are JSON and the JSON is equal; chunks
    /// of bytes are never equal to anything.
    pub fn equals(&self, other: &Payload) -> (b: bool)
        ensures
            b == payload_eq(self@, other@),
    {
        match (self, other) {
            (Payload::Json(x), Payload::Json(y)) => x.equals(y),
            _ => false,
        }
    }
}

/// Equality of payloads: both JSON and equal.
pub open spec fn payload_eq(a: PayloadV, b: PayloadV) -> bool {
    match (a, b) {
        (PayloadV::Json(x), PayloadV::Json(y)) => json_eq(x, y),
        _ => false,
    }
}

impl PartialEq for Payload {
    fn eq(&self, other: &Payload) -> (r: bool) {
        self.equals(other)
    }
}

impl vstd::std_specs::cmp::PartialEqSpecImpl for Payload {
    open spec fn obeys_eq_spec() -> bool {
        true
    }

    open spec fn eq_spec(&self, other: &Payload) -> bool {
        payload_eq(self@, other@)
    }
}

/// A program.
#[derive(Debug, PartialEq)]
pub enum Expr {
    /// Runs the serverless function of this name on the input.
    Pure(String),
    /// Downloads the URL that the transformer gives on the input.
    Download(Transformer),
    /// Runs the first program, then the second on its output.
    Sequence(Box<Expr>, Box<Expr>),
    /// Gives what the transformer gives on the input.
    Project(Transformer),
    /// Reads the object at this path of the storage.
    Fetch(String),
    /// On input `{"x": a, "y": b}`, runs the program on `a` and gives
    /// `{"x": its output, "y": b}`.
    Split(Box<Expr>),
    /// Runs the first program on the input; when it gives `true` runs the
    /// second on the same input, when `false` the third.
    If(Box<Expr>, Box<Expr>, Box<Expr>),
}

/// The mathematical form of a program.
pub enum ExprV {
    Pure(Seq<char>),
    Download(TransformerV),
    Sequence(Box<ExprV>, Box<ExprV>),
    Project(TransformerV),
    Fetch(Seq<char>),
    Split(Box<ExprV>),
    If(Box<ExprV>, Box<ExprV>, Box<ExprV>),
}

/// The mathematical form of a program.
pub open spec fn expr_view(e: Expr) -> ExprV
    decreases e,
{
    match e {
        Expr::Pure(n) => ExprV::Pure(n@),
        Expr::Download(t) => ExprV::Download(t@),
        Expr::Sequence(a, b) => ExprV::Sequence(Box::new(expr_view(*a)), Box::new(expr_view(*b))),
        Expr::Project(t) => ExprV::Project(t@),
        Expr::Fetch(p) => ExprV::Fetch(p@),
        Expr::Split(a) => ExprV::Split(Box::new(expr_view(*a))),
        Expr::If(a, b, c) => ExprV::If(
            Box::new(expr_view(*a)),
            Box::new(expr_view(*b)),
            Box::new(expr_view(*c)),
        ),
    }
}

impl View for Expr {
    type V = ExprV;

    open spec fn view(&self) -> ExprV {
        expr_view(*self)
    }
}

/// The text of a payload, for looking at it: the text of a chunk of UTF-8
/// bytes, or the string a JSON payload holds.
pub fn inspect(payload: &Payload) -> (s: &str)
    requires
        match payload@ {
            PayloadV::Chunk(b) => valid_utf8(b),
            PayloadV::Json(j) => j is Str,
        },
    ensures
        match payload@ {
            PayloadV::Chunk(b) => s@ == decode_utf8(b),
            PayloadV::Json(j) => j == JsonV::Str(s@),
        },
{
    match payload {
        Payload::Chunk(chunk) => {
            let t = str_from_utf8(chunk.as_slice());
            t.unwrap()
        },
        Payload::Json(json) => match json {
            Json::String(s) => s.as_str(),
            _ => {
                assert(false);
                ""
            },
        },
    }
}

} // verus!
