use spl_lib::simple::{eval, inspect, Expr, Payload, Step};

/// The function `f` answers `fromF`; every other function answers
/// `unknown`.
fn invoke(name: &str, _input: Payload) -> Result<Payload, ()> {
    match name {
        "f" => Ok(Payload::from("fromF")),
        _ => Ok(Payload::from("unknown")),
    }
}

fn run(input: Payload, e: &Expr) -> Result<Payload, ()> {
    let mut answers: Vec<Result<Payload, ()>> = Vec::new();
    loop {
        match eval(&input, e, &answers) {
            Step::Done(r) => return r,
            Step::Invoke(name, p) => answers.push(invoke(&name, p)),
        }
    }
}

#[test]
fn trivial() {
    let input = Payload::Chunk(b"lol".to_vec());
    let expr = Expr::Pure(String::from("f"));
    let r = run(input, &expr);
    assert_eq!(r.as_ref().map(|x| inspect(x)), Result::Ok("fromF"));
}

#[test]
fn sequence_passes_output_on() {
    let expr = Expr::Sequence(Box::new(Expr::Pure(String::from("g"))), Box::new(Expr::Pure(String::from("f"))));
    let answers = vec![Ok(Payload::from("mid"))];
    match eval(&Payload::from("in"), &expr, &answers) {
        Step::Invoke(name, p) => {
            assert_eq!(name, "f");
            assert_eq!(inspect(&p), "mid");
        },
        _ => assert!(false),
    }
    assert_eq!(run(Payload::from("in"), &expr).as_ref().map(|x| inspect(x)), Ok("fromF"));
}

#[test]
fn failed_invocation_fails_program() {
    let expr = Expr::Sequence(Box::new(Expr::Pure(String::from("g"))), Box::new(Expr::Pure(String::from("f"))));
    let answers = vec![Err(())];
    match eval(&Payload::from("in"), &expr, &answers) {
        Step::Done(r) => assert!(r.is_err()),
        _ => assert!(false),
    }
}

#[test]
fn sequence_groups_alike() {
    let f = || Box::new(Expr::Pure(String::from("f")));
    let g = || Box::new(Expr::Pure(String::from("g")));
    let left = Expr::Sequence(Box::new(Expr::Sequence(g(), f())), g());
    let right = Expr::Sequence(g(), Box::new(Expr::Sequence(f(), g())));
    let l = run(Payload::from("in"), &left);
    let r = run(Payload::from("in"), &right);
    assert_eq!(l.as_ref().map(|x| inspect(x)), Ok("unknown"));
    assert_eq!(r.as_ref().map(|x| inspect(x)), Ok("unknown"));
}

#[test]
fn functions_invoked_left_to_right() {
    let p = |n: &str| Box::new(Expr::Pure(String::from(n)));
    let expr = Expr::Sequence(Box::new(Expr::Sequence(p("a"), p("b"))), Box::new(Expr::Sequence(p("c"), p("d"))));
    let mut answers: Vec<Result<Payload, ()>> = Vec::new();
    let mut seen: Vec<(String, String)> = Vec::new();
    let result = loop {
        match eval(&Payload::from("x"), &expr, &answers) {
            Step::Done(r) => break r,
            Step::Invoke(name, input) => {
                seen.push((name.clone(), inspect(&input).to_string()));
                answers.push(Ok(Payload::Chunk(format!("{}({})", name, inspect(&input)).into_bytes())));
            },
        }
    };
    let names: Vec<&str> = seen.iter().map(|(n, _)| n.as_str()).collect();
    assert_eq!(names, vec!["a", "b", "c", "d"]);
    assert_eq!(seen[0].1, "x");
    assert_eq!(seen[3].1, "c(b(a(x)))");
    assert_eq!(result.as_ref().map(|x| inspect(x)), Ok("d(c(b(a(x))))"));
}
