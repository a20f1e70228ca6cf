use spl_lib::json::{Json, Number};
use spl_lib::jtlib::parser::{parse, ParseError};
use spl_lib::jtlib::syntax::{eval, Expr, Pat};

fn num(n: u64) -> Json {
    Json::Number(Number::from_u64(n))
}

fn obj(pairs: Vec<(&str, Json)>) -> Json {
    Json::from_entries(pairs.into_iter().map(|(k, v)| (k.to_string(), v)).collect())
}

#[test]
fn it_works() {
    assert_eq!(2 + 2, 4);
}

#[test]
fn parse_in_pattern() {
    assert!(parse(b"$in.x") == Ok(Expr::Pat(Pat::Empty)));
    assert!(parse(b"  $in  x") == Ok(Expr::Pat(Pat::Empty)));
}

#[test]
fn parse_incomplete() {
    assert!(parse(b"") == Err(ParseError::Incomplete(1)));
    assert!(parse(b" \n\t") == Err(ParseError::Incomplete(1)));
    assert!(parse(b"$i") == Err(ParseError::Incomplete(3)));
    assert!(parse(b" $") == Err(ParseError::Incomplete(3)));
    assert!(parse(b"$in") == Err(ParseError::Incomplete(1)));
    assert!(parse(b"$in  ") == Err(ParseError::Incomplete(1)));
}

#[test]
fn eval_pattern_keys() {
    let v = obj(vec![("a", obj(vec![("b", num(3))]))]);
    let p = Expr::Pat(Pat::Dot("b".to_string(), Box::new(Pat::Dot("a".to_string(), Box::new(Pat::Empty)))));
    assert!(eval(&p, &v) == None);
    let q = Expr::Pat(Pat::Dot("a".to_string(), Box::new(Pat::Dot("b".to_string(), Box::new(Pat::Empty)))));
    assert!(eval(&q, &v) == Some(num(3)));
    assert!(eval(&Expr::Pat(Pat::Empty), &v) == Some(obj(vec![("a", obj(vec![("b", num(3))]))])));
}

#[test]
fn eval_builds_values() {
    let v = obj(vec![("x", num(1))]);
    let e = Expr::Object(vec![
        ("k".to_string(), Expr::Array(vec![Expr::Null, Expr::Bool(true), Expr::String("s".to_string())])),
        ("x".to_string(), Expr::Pat(Pat::Dot("x".to_string(), Box::new(Pat::Empty)))),
        ("k".to_string(), Expr::Number(Number::from_u64(5))),
    ]);
    assert!(eval(&e, &v) == Some(obj(vec![("k", num(5)), ("x", num(1))])));
    let missing = Expr::Array(vec![Expr::Null, Expr::Pat(Pat::Dot("y".to_string(), Box::new(Pat::Empty)))]);
    assert!(eval(&missing, &v) == None);
}

#[test]
fn jtlib_object_value() {
    let e = Expr::Object(vec![
        ("x".to_string(), Expr::Number(Number::from_u64(20))),
        ("in".to_string(), Expr::Pat(Pat::Empty)),
    ]);
    let v = Json::Bool(true);
    assert!(eval(&e, &v) == Some(obj(vec![("x", num(20)), ("in", Json::Bool(true))])));
}
