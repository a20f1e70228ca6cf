use spl_lib::json::{Json, Number};
use spl_lib::json_transformers::parser::parse;
use spl_lib::json_transformers::syntax::{Expr, Pat, PatAtom};
use spl_lib::json_transformers::eval::eval;

fn decode(t: &str) -> Option<u64> {
    t.parse::<f64>().ok().map(|x| x.to_bits())
}

fn parse_string(input: &str) -> Expr {
    parse(input, &decode).ok().unwrap().1
}

fn s(x: &str) -> String {
    x.to_string()
}

fn num(n: u64) -> Json {
    Json::Number(Number::from_u64(n))
}

fn obj(pairs: Vec<(&str, Json)>) -> Json {
    Json::from_entries(pairs.into_iter().map(|(k, v)| (k.to_string(), v)).collect())
}

#[test]
fn test_parse_num() {
    let e = parse_string("1234");
    assert!(e == Expr::Number(Number::float_from_bits(1234.0f64.to_bits()).unwrap()));
}

#[test]
fn test_parse_string() {
    let e = parse_string("\"Hello\"");
    assert!(e == Expr::String("Hello".to_string()));
}

#[test]
fn parser_test_parse_object() {
    let e = parse_string("{ \"x\": \"HI\" }");
    println!("HIHI: {:?}", e);
}

#[test]
fn test_parse_pattern1() {
    let e = parse_string("$in.x");
    println!("e = {:?}", e);
    assert!(e == Expr::Pat(Pat::Pat(PatAtom::Select(s("x")), Box::new(Pat::Empty))));
}

#[test]
fn test_parse_pattern2() {
    let e = parse_string("$in.x.y");
    println!("e = {:?}", e);
    assert!(e == Expr::Pat(Pat::Pat(
        PatAtom::Select(s("y")),
        Box::new(Pat::Pat(PatAtom::Select(s("x")), Box::new(Pat::Empty)))
    )));
}

#[test]
fn test_parse_map() {
    let e = parse_string("$in.map($in.x)");
    assert!(e == Expr::Pat(Pat::Pat(
        PatAtom::MapEach(Box::new(Expr::Pat(Pat::Pat(
            PatAtom::Select(s("x")),
            Box::new(Pat::Empty)
        )))),
        Box::new(Pat::Empty)
    )))
}

#[test]
fn test_parse_bracket() {
    let e = parse_string("$in[\"x y\"]");
    println!("e = {:?}", e);
    assert!(e == Expr::Pat(Pat::Pat(PatAtom::Select(s("x y")), Box::new(Pat::Empty))));
}

#[test]
fn test_parse_bracket_escaped() {
    let e = parse_string("$in[\"x \\ny\"]");
    println!("e = {:?}", e);
    assert!(e == Expr::Pat(Pat::Pat(PatAtom::Select(s("x \ny")), Box::new(Pat::Empty))));
}

#[test]
fn test_binop_eq_true() {
    let exp = parse_string("$in.x == $in.y");
    let result = eval(&exp, &obj(vec![("x", num(10)), ("y", num(10))]));
    assert!(result.unwrap() == Json::Bool(true));
}

#[test]
fn test_binop_eq_false() {
    let exp = parse_string("$in.x == $in.y");
    let result = eval(&exp, &obj(vec![("x", num(10)), ("y", num(1))]));
    assert!(result.unwrap() == Json::Bool(false));
}

#[test]
fn test_binop_eq_strings() {
    let exp = parse_string("$in.x == $in.y");
    let result = eval(&exp, &obj(vec![("x", Json::String(s("abcde"))), ("y", Json::String(s("abcde")))]));
    assert!(result.unwrap() == Json::Bool(true));
}

#[test]
fn test_binop_eq_objects() {
    let exp = parse_string("$in.x == $in.y");
    let result = eval(&exp, &obj(vec![("x", obj(vec![("i", num(100))])), ("y", obj(vec![("i", num(100))]))]));
    assert!(result.unwrap() == Json::Bool(true));
}

#[test]
fn test_binop_neq_true() {
    let exp = parse_string("$in.x != $in.y");
    let result = eval(&exp, &obj(vec![("x", num(10)), ("y", num(1))]));
    assert!(result.unwrap() == Json::Bool(true));
}

#[test]
fn test_binop_neq_false() {
    let exp = parse_string("$in.x != $in.y");
    let result = eval(&exp, &obj(vec![("x", num(10)), ("y", num(10))]));
    assert!(result.unwrap() == Json::Bool(false));
}

#[test]
fn test_binop_neq_different_types() {
    let exp = parse_string("$in.x != $in.y");
    let result = eval(&exp, &obj(vec![("x", num(10)), ("y", Json::String(s("10")))]));
    assert!(result.unwrap() == Json::Bool(true));
}

#[test]
fn test_binop_gt_true() {
    let exp = parse_string("$in.x > $in.y");
    let result = eval(&exp, &obj(vec![("x", num(10)), ("y", num(5))]));
    assert!(result.unwrap() == Json::Bool(true));
}

#[test]
fn test_binop_gt_false() {
    let exp = parse_string("$in.x > $in.y");
    let result = eval(&exp, &obj(vec![("x", num(1)), ("y", num(1))]));
    assert!(result.unwrap() == Json::Bool(false));
}

#[test]
fn test_binop_gt_different_types() {
    let exp = parse_string("$in.x > $in.y");
    let result = eval(&exp, &obj(vec![("x", num(10)), ("y", Json::String(s("1")))]));
    assert!(result.is_none());
}

#[test]
fn parse_names_with_letters_of_any_script() {
    assert!(parse_string("$in.é1") == Expr::Pat(Pat::Pat(PatAtom::Select(s("é1")), Box::new(Pat::Empty))));
    assert!(parse_string("$in.x2y") == Expr::Pat(Pat::Pat(PatAtom::Select(s("x2y")), Box::new(Pat::Empty))));
    assert!(parse("$in.1", &decode).ok().unwrap().0 == ".1");
}

#[test]
fn parse_index_and_rest() {
    let (rest, e) = parse("$in[2] tail", &decode).ok().unwrap();
    assert_eq!(rest, "tail");
    assert!(e == Expr::Pat(Pat::Pat(PatAtom::Index(2), Box::new(Pat::Empty))));
    assert!(parse("", &decode).is_err());
}

#[test]
fn comparisons_agree() {
    let v = obj(vec![("x", num(3)), ("y", num(5))]);
    for (a, b) in [("$in.x > $in.y", "$in.y < $in.x"), ("$in.x >= $in.y", "$in.y <= $in.x")] {
        assert!(eval(&parse_string(a), &v) == eval(&parse_string(b), &v));
    }
    assert!(eval(&parse_string("$in.x > $in.y"), &v).unwrap() == Json::Bool(false));
    assert!(eval(&parse_string("$in.x <= $in.y"), &v).unwrap() == Json::Bool(true));
    assert!(eval(&parse_string("$in.x == $in.x"), &v).unwrap() == Json::Bool(true));
    assert!(eval(&parse_string("$in.x <= \"a\""), &v).is_none());
}

#[test]
fn eval_builds_and_selects() {
    let v = obj(vec![("a", Json::Array(vec![num(1), num(2)]))]);
    let e = parse_string("{ \"first\": $in.a[0], \"all\": $in.a, \"n\": null, \"t\": [true, 1.5] }");
    let expected = obj(vec![
        ("first", num(1)),
        ("all", Json::Array(vec![num(1), num(2)])),
        ("n", Json::Null),
        ("t", Json::Array(vec![Json::Bool(true), Json::Number(Number::float_from_bits(1.5f64.to_bits()).unwrap())])),
    ]);
    assert!(eval(&e, &v).unwrap() == expected);
    assert!(eval(&parse_string("$in[0].a"), &v).is_none());
    assert!(eval(&parse_string("$in.a[5]"), &v).is_none());
    assert!(eval(&parse_string("$in.a.map($in.x)"), &v).is_none());
}

#[test]
fn eval_path_steps_in_written_order() {
    let v = obj(vec![("x", obj(vec![("y", num(5))])), ("y", obj(vec![("x", num(7))]))]);
    assert!(eval(&parse_string("$in.x.y"), &v).unwrap() == num(5));
    assert!(eval(&parse_string("$in.y.x"), &v).unwrap() == num(7));
    assert!(eval(&parse_string("$in.x.x"), &v).is_none());
    let w = obj(vec![("rows", Json::Array(vec![obj(vec![("a", num(1))]), obj(vec![("a", num(2))])]))]);
    assert!(eval(&parse_string("$in.rows.map($in.a)[1]"), &w).unwrap() == num(2));
    assert!(eval(&parse_string("$in.rows[0].a"), &w).unwrap() == num(1));
}

#[test]
fn eval_keeps_sign_of_zero() {
    let e = parse_string("[-0.0, $in]");
    let v = Json::Number(Number::float_from_bits((-0.0f64).to_bits()).unwrap());
    match eval(&e, &v).unwrap() {
        Json::Array(items) => {
            for item in items {
                match item {
                    Json::Number(Number::Float(b)) => assert_eq!(b, (-0.0f64).to_bits()),
                    _ => assert!(false),
                }
            }
        },
        _ => assert!(false),
    }
    assert!(eval(&parse_string("-0.0 == 0.0"), &v).unwrap() == Json::Bool(true));
}
