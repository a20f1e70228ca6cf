use spl_lib::json::{entries_get, float_key_of, key_order, str_equal, Json, KeyOrder, Number};

fn num(n: u64) -> Json {
    Json::Number(Number::from_u64(n))
}

fn float(x: f64) -> Json {
    Json::Number(Number::float_from_bits(x.to_bits()).unwrap())
}

fn obj(pairs: Vec<(&str, Json)>) -> Json {
    Json::from_entries(pairs.into_iter().map(|(k, v)| (k.to_string(), v)).collect())
}

#[test]
fn object_later_entry_wins_and_keys_sorted() {
    let o = obj(vec![("b", num(1)), ("a", num(2)), ("b", num(3))]);
    match &o {
        Json::Object(entries) => {
            assert_eq!(entries.len(), 2);
            assert_eq!(entries[0].0, "a");
            assert_eq!(entries[1].0, "b");
            assert!(entries_get(entries, "b") == Some(&num(3)));
            assert!(entries_get(entries, "a") == Some(&num(2)));
            assert!(entries_get(entries, "c").is_none());
        },
        _ => assert!(false),
    }
    assert!(o == obj(vec![("a", num(2)), ("b", num(3))]));
}

#[test]
fn numbers_compare_by_kind_and_value() {
    assert!(num(1) == num(1));
    assert!(num(1) != float(1.0));
    assert!(float(0.0) == float(-0.0));
    assert!(Json::Number(Number::from_i64(-3)) == Json::Number(Number::NegInt(-3)));
    assert!(Number::from_i64(4) == Number::from_u64(4));
    assert!(Number::float_from_bits(f64::INFINITY.to_bits()).is_none());
    assert!(Number::float_from_bits(f64::NAN.to_bits()).is_none());
    assert!(Number::from_u64(4).is_u64());
    assert!(Number::float_from_bits(2.5f64.to_bits()).unwrap().is_f64());
}

#[test]
fn float_keys_follow_the_order_of_doubles() {
    assert_eq!(float_key_of(0.0f64.to_bits()), 0);
    assert_eq!(float_key_of((-0.0f64).to_bits()), 0);
    assert!(float_key_of(1.0f64.to_bits()) > float_key_of(0.5f64.to_bits()));
    assert!(float_key_of((-1.0f64).to_bits()) < float_key_of((-0.5f64).to_bits()));
    assert!(float_key_of((-1.0f64).to_bits()) < float_key_of(1e-300f64.to_bits()));
}

#[test]
fn keys_order_by_characters() {
    assert!(matches!(key_order("a", "b"), KeyOrder::Less));
    assert!(matches!(key_order("ab", "a"), KeyOrder::Greater));
    assert!(matches!(key_order("x", "x"), KeyOrder::Equal));
    assert!(matches!(key_order("", "a"), KeyOrder::Less));
    assert!(str_equal("é", "é"));
    assert!(!str_equal("e", "é"));
}

#[test]
fn copies_are_equal() {
    let v = obj(vec![("a", Json::Array(vec![Json::Null, Json::Bool(true), float(2.5)])), ("s", Json::String("t".to_string()))]);
    assert!(v.copy() == v);
    assert!(v != obj(vec![]));
}
