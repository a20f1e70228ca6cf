use spl_lib::json::{Json, Number};
use spl_lib::json_transformers::parser::parse as parse_transformer;
use spl_lib::json_transformers::syntax::Expr as Transformer;
use spl_lib::llspl::error::Error;
use spl_lib::llspl::eval::{eval, eval_json, extract_split, Request, Step};
use spl_lib::llspl::gcf::{function_url, get_content_type, status_error, uri_base};
use spl_lib::llspl::parser::{parse, parse_overflows};
use spl_lib::llspl::programs::{load_programs, route, Route};
use spl_lib::llspl::syntax::{inspect, Expr, Payload};

fn decode(t: &str) -> Option<u64> {
    t.parse::<f64>().ok().map(|x| x.to_bits())
}

fn parse_string(input: &str) -> Expr {
    let r = parse(input, &decode);
    r.ok().unwrap().1
}

fn transformer(input: &str) -> Transformer {
    parse_transformer(input, &decode).ok().unwrap().1
}

fn s(x: &str) -> String {
    x.to_string()
}

fn num(n: u64) -> Json {
    Json::Number(Number::from_u64(n))
}

fn obj(pairs: Vec<(&str, Json)>) -> Json {
    Json::from_entries(pairs.into_iter().map(|(k, v)| (k.to_string(), v)).collect())
}

fn pure(n: &str) -> Box<Expr> {
    Box::new(Expr::Pure(s(n)))
}

/// Reads bytes as JSON text, as far as these tests need: only `{}` is JSON.
fn read_json(bytes: &[u8]) -> Result<Json, String> {
    if bytes == b"{}" {
        Ok(obj(vec![]))
    } else {
        Err(s("expected value"))
    }
}

fn read_payload(p: &Payload) -> Result<Json, String> {
    match p {
        Payload::Chunk(b) => read_json(b),
        Payload::Json(_) => Err(s("not read")),
    }
}

/// A stand-in for the outside world: the function `f` wraps the JSON of its
/// input as `{"input": .., "receiver": "f"}`, every other function fails,
/// storage holds `{}` everywhere, and bytes are read by `read_json`.
fn answer(q: Request) -> Result<Payload, Error> {
    match q {
        Request::Invoke(name, input) => {
            let read = read_payload(&input);
            match (name.as_str(), input.to_json(read)) {
                ("f", Ok(j)) => Ok(Payload::Json(obj(vec![("input", j), ("receiver", Json::String(s("f")))]))),
                ("f", Err(e)) => Err(e),
                _ => Err(Error::InvokeError(s("unknown function"))),
            }
        },
        Request::Fetch(_) => Ok(Payload::Json(obj(vec![]))),
        Request::Download(url) => Ok(Payload::from_vec(url.into_bytes())),
        Request::DecodeJson(bytes) => {
            let read = read_json(&bytes);
            Payload::from_vec(bytes).to_json(read).map(Payload::Json)
        },
    }
}

fn run(input: Payload, e: &Expr) -> (Result<Payload, Error>, usize) {
    let mut answers: Vec<Result<Payload, Error>> = Vec::new();
    loop {
        match eval(&input, e, &answers) {
            Step::Done(r) => return (r, answers.len()),
            Step::Perform(q) => answers.push(answer(q)),
        }
    }
}

#[test]
fn test_pure() {
    assert!(parse_string("pure \"foo-bar\"") == Expr::Pure(s("foo-bar")));
}

#[test]
fn test_download() {
    assert!(parse_string("download \"http://foo.bar\"") == Expr::Download(transformer("\"http://foo.bar\"")));
}

#[test]
fn test_project() {
    match parse_string("project $in.x") {
        Expr::Project(_transformer) => assert!(true),
        _ => assert!(false),
    }
}

#[test]
fn test_split() {
    assert!(parse_string("split (pure \"foo\")") == Expr::Split(pure("foo")));
}

#[test]
fn test_if() {
    assert!(
        parse_string("if (pure \"foo\") { pure \"bar\" } else { pure \"baz\" }")
            == Expr::If(pure("foo"), pure("bar"), pure("baz"))
    );
}

#[test]
fn test_project_seq_pure() {
    match parse_string("project $in.x; pure \"f\"") {
        Expr::Sequence(_e1, _e2) => assert!(true),
        _ => assert!(false),
    }
}

#[test]
fn parser_test_seq() {
    assert!(parse_string("pure \"f\"; pure \"g\"") == Expr::Sequence(pure("f"), pure("g")));
}

#[test]
fn test_seq_download() {
    assert!(
        parse_string("download \"f\"; download \"g\"")
            == Expr::Sequence(
                Box::new(Expr::Download(transformer("\"f\""))),
                Box::new(Expr::Download(transformer("\"g\"")))
            )
    );
}

#[test]
fn test_parens() {
    assert!(
        parse_string("(pure \"f\"; pure \"g\"); pure \"h\"")
            == Expr::Sequence(Box::new(Expr::Sequence(pure("f"), pure("g"))), pure("h"))
    );
}

#[test]
fn test_pure_in_parens() {
    assert!(parse_string("(pure \"foo\")") == Expr::Pure(s("foo")));
}

#[test]
fn test_download_in_parens() {
    assert!(parse_string("(download \"http://foo.bar\")") == Expr::Download(transformer("\"http://foo.bar\"")));
}

#[test]
fn test_download_json() {
    match parse_string("download $in.url") {
        Expr::Download(_json) => assert!(true),
        _ => assert!(false),
    }
}

#[test]
fn eval_test_seq() {
    let exp = parse_string("pure f ; pure f");
    let (result, _) = run(Payload::Json(obj(vec![("x", num(10))])), &exp);
    assert!(
        result.unwrap()
            == Payload::Json(obj(vec![
                ("input", obj(vec![("input", obj(vec![("x", num(10))])), ("receiver", Json::String(s("f")))])),
                ("receiver", Json::String(s("f"))),
            ]))
    );
}

#[test]
fn test_seq_proj() {
    let exp = parse_string("pure f ; project $in.receiver ; pure f");
    let (result, _) = run(Payload::Json(obj(vec![("x", num(10))])), &exp);
    assert!(
        result.unwrap()
            == Payload::Json(obj(vec![("input", Json::String(s("f"))), ("receiver", Json::String(s("f")))]))
    );
}

#[test]
fn test_map_proj() {
    let exp = parse_string("project $in.map({ \"y\": $in.x })");
    let input = Json::Array(vec![obj(vec![("x", num(10))]), obj(vec![("x", num(20))])]);
    let output = Json::Array(vec![obj(vec![("y", num(10))]), obj(vec![("y", num(20))])]);
    let (result, _) = run(Payload::Json(input), &exp);
    assert!(result.unwrap() == Payload::Json(output));
}

#[test]
fn parse_rejects_trailing_text() {
    assert!(parse("pure f pure g", &decode).is_err());
    assert!(parse("", &decode).is_err());
    assert!(parse("split pure f", &decode).is_err());
}

#[test]
fn parse_gives_empty_rest() {
    let (rest, e) = parse("  pure f ;pure g  ", &decode).ok().unwrap();
    assert_eq!(rest, "");
    assert!(e == Expr::Sequence(pure("f"), pure("g")));
}

#[test]
fn eval_first_step_invokes_on_input() {
    let exp = parse_string("pure f");
    match eval(&Payload::from("lol"), &exp, &Vec::new()) {
        Step::Perform(Request::Invoke(name, input)) => {
            assert_eq!(name, "f");
            assert_eq!(inspect(&input), "lol");
        },
        _ => assert!(false),
    }
}

#[test]
fn eval_unknown_function_fails() {
    let exp = parse_string("pure g ; pure f");
    let (result, used) = run(Payload::Json(obj(vec![])), &exp);
    match result {
        Err(Error::InvokeError(m)) => assert_eq!(m, "unknown function"),
        _ => assert!(false),
    }
    assert_eq!(used, 1);
}

#[test]
fn eval_result_stable_under_more_answers() {
    let exp = parse_string("pure f");
    let input = Payload::Json(num(1));
    let answers = vec![Ok(Payload::Json(num(7))), Ok(Payload::Json(num(8)))];
    match eval(&input, &exp, &answers) {
        Step::Done(Ok(p)) => assert!(p == Payload::Json(num(7))),
        _ => assert!(false),
    }
}

#[test]
fn eval_split_keeps_state() {
    let exp = parse_string("split (project $in.a)");
    let input = obj(vec![("x", obj(vec![("a", num(1))])), ("y", Json::String(s("state")))]);
    let (result, used) = run(Payload::Json(input), &exp);
    assert!(result.unwrap() == Payload::Json(obj(vec![("x", num(1)), ("y", Json::String(s("state")))])));
    assert_eq!(used, 0);
}

#[test]
fn eval_split_without_fields_fails() {
    let exp = parse_string("split (pure f)");
    let (result, _) = run(Payload::Json(obj(vec![("x", num(1))])), &exp);
    match result {
        Err(Error::JsonEval) => {},
        _ => assert!(false),
    }
}

#[test]
fn eval_if_picks_branch_on_same_input() {
    let exp = parse_string("if (project $in.c) { project $in.t } else { project $in.e }");
    let yes = obj(vec![("c", Json::Bool(true)), ("t", num(1)), ("e", num(2))]);
    let no = obj(vec![("c", Json::Bool(false)), ("t", num(1)), ("e", num(2))]);
    let other = obj(vec![("c", num(0)), ("t", num(1)), ("e", num(2))]);
    assert!(run(Payload::Json(yes), &exp).0.unwrap() == Payload::Json(num(1)));
    assert!(run(Payload::Json(no), &exp).0.unwrap() == Payload::Json(num(2)));
    match run(Payload::Json(other), &exp).0 {
        Err(Error::JsonEval) => {},
        _ => assert!(false),
    }
}

#[test]
fn eval_project_missing_key_fails() {
    let exp = parse_string("project $in.nothing");
    match run(Payload::Json(obj(vec![])), &exp).0 {
        Err(Error::JsonEval) => {},
        _ => assert!(false),
    }
}

#[test]
fn eval_chunk_input_is_read_as_json() {
    let exp = parse_string("project $in");
    let (result, used) = run(Payload::from("{}"), &exp);
    assert!(result.unwrap() == Payload::Json(obj(vec![])));
    assert_eq!(used, 1);
    match run(Payload::from("nope"), &exp).0 {
        Err(Error::Json(m)) => assert_eq!(m, "expected value"),
        _ => assert!(false),
    }
}

#[test]
fn eval_download_takes_url_from_transformer() {
    let exp = parse_string("download $in.url");
    let input = obj(vec![("url", Json::String(s("http://foo.bar")))]);
    let answers: Vec<Result<Payload, Error>> = Vec::new();
    match eval(&Payload::Json(input), &exp, &answers) {
        Step::Perform(Request::Download(u)) => assert_eq!(u, "http://foo.bar"),
        _ => assert!(false),
    }
    match run(Payload::Json(obj(vec![("url", num(3))])), &exp).0 {
        Err(Error::JsonEval) => {},
        _ => assert!(false),
    }
}

#[test]
fn eval_fetch_asks_storage() {
    let exp = Expr::Fetch(s("a/b"));
    let answers: Vec<Result<Payload, Error>> = Vec::new();
    match eval(&Payload::Json(Json::Null), &exp, &answers) {
        Step::Perform(Request::Fetch(p)) => assert_eq!(p, "a/b"),
        _ => assert!(false),
    }
    assert!(run(Payload::Json(Json::Null), &exp).0.unwrap() == Payload::Json(obj(vec![])));
}

#[test]
fn payload_chunks_are_never_equal() {
    assert!(Payload::from("a") != Payload::from("a"));
    assert!(Payload::Json(num(1)) == Payload::Json(num(1)));
    assert!(Payload::Json(num(1)) != Payload::Json(num(2)));
}

#[test]
fn payload_inspect() {
    assert_eq!(inspect(&Payload::from_vec(b"hi".to_vec())), "hi");
    assert_eq!(inspect(&Payload::Json(Json::String(s("text")))), "text");
}

#[test]
fn error_description() {
    assert_eq!(Error::JsonEval.description(), "JsonEval");
    assert_eq!(Error::InvokeError(s("boom")).description(), "boom");
    assert_eq!(Error::Storage(s("no bucket")).description(), "no bucket");
}

#[test]
fn programs_route_by_path() {
    let sources = vec![
        (s("double"), s("pure f; pure f")),
        (s("one"), s("pure g")),
        (s("double"), s("pure h")),
    ];
    let programs = load_programs(sources, &decode).ok().unwrap();
    match route(&programs, "/double") {
        Route::Run(e) => assert!(*e == Expr::Pure(s("h"))),
        _ => assert!(false),
    }
    match route(&programs, "/one") {
        Route::Run(e) => assert!(*e == Expr::Pure(s("g"))),
        _ => assert!(false),
    }
    match route(&programs, "/none") {
        Route::NotFound(m) => assert_eq!(m, "none is not a known LLSPL program"),
        _ => assert!(false),
    }
    match route(&programs, "/") {
        Route::NotFound(m) => assert_eq!(m, " is not a known LLSPL program"),
        _ => assert!(false),
    }
}

#[test]
fn programs_load_names_first_bad_source() {
    let sources = vec![(s("a"), s("pure f")), (s("b"), s("nonsense")), (s("c"), s("pure"))];
    match load_programs(sources, &decode) {
        Err(n) => assert_eq!(n, "b"),
        Ok(_) => assert!(false),
    }
}

#[test]
fn gcf_addresses_and_types() {
    let base = uri_base("umass-plasma", "us-east1");
    assert_eq!(base, "https://us-east1-umass-plasma.cloudfunctions.net/");
    assert_eq!(function_url(&base, "f"), "https://us-east1-umass-plasma.cloudfunctions.net/f/");
    assert_eq!(get_content_type(&Payload::from("x")), "text/plain");
    assert_eq!(get_content_type(&Payload::Json(Json::Null)), "application/json");
}

#[test]
fn parse_overflow_is_reported() {
    assert!(parse_overflows("project $in[99999999999999999999999999]", &decode));
    assert!(!parse_overflows("project $in[1]", &decode));
    assert!(!parse_overflows("pure", &decode));
}

#[test]
fn eval_sequence_groups_alike() {
    let left = parse_string("(pure f; project $in.input); pure f");
    let right = parse_string("pure f; (project $in.input; pure f)");
    let input = obj(vec![("x", num(1))]);
    let a = run(Payload::Json(input.copy()), &left);
    let b = run(Payload::Json(input), &right);
    assert!(a.0.unwrap() == b.0.unwrap());
    assert_eq!(a.1, b.1);
}

#[test]
fn parse_function_names_of_any_script() {
    assert!(parse_string("pure héllo_2-x") == Expr::Pure(s("héllo_2-x")));
}

#[test]
fn gcf_status_errors() {
    assert!(status_error(200, "200 OK", "u").is_none());
    assert!(status_error(299, "299 <unknown status code>", "u").is_none());
    match status_error(404, "404 Not Found", "https://x/f/") {
        Some(Error::InvokeError(m)) => assert_eq!(m, "404 Not Found from  https://x/f/"),
        _ => assert!(false),
    }
    assert!(status_error(199, "199", "u").is_some());
    assert!(status_error(300, "300 Multiple Choices", "u").is_some());
}

#[test]
fn payload_to_json() {
    let j = Payload::Json(num(3)).to_json(Err(s("ignored")));
    assert!(j.unwrap() == num(3));
    let c = Payload::from("{}");
    let read = read_payload(&c);
    assert!(c.to_json(read).unwrap() == obj(vec![]));
    let bad = Payload::from("{");
    let read = read_payload(&bad);
    match bad.to_json(read) {
        Err(Error::Json(m)) => assert_eq!(m, "expected value"),
        _ => assert!(false),
    }
}

#[test]
fn eval_json_and_extract_split() {
    let t = transformer("$in.a");
    assert!(eval_json(&t, Ok(obj(vec![("a", num(1))]))).unwrap() == Payload::Json(num(1)));
    assert!(matches!(eval_json(&t, Ok(obj(vec![]))), Err(Error::JsonEval)));
    assert!(matches!(eval_json(&t, Err(Error::Json(s("bad")))), Err(Error::Json(_))));
    let (x, y) = extract_split(Ok(obj(vec![("x", num(1)), ("y", num(2)), ("z", num(3))]))).ok().unwrap();
    assert!(x == num(1) && y == num(2));
    assert!(matches!(extract_split(Ok(obj(vec![("x", num(1))]))), Err(Error::JsonEval)));
    assert!(matches!(extract_split(Ok(Json::Array(vec![]))), Err(Error::JsonEval)));
    assert!(matches!(extract_split(Err(Error::Storage(s("gone")))), Err(Error::Storage(_))));
}
