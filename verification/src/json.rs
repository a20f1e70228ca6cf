//! The JSON values that programs read and produce.
//!
//! Numbers keep the three shapes a JSON number can take: a non-negative
//! integer, a negative integer, or a finite double.  A double is held as its
//! IEEE 754 bit pattern, so that it can be stored and compared without
//! floating-point arithmetic.  Objects are kept sorted by key, each key
//! occurring once, so that two objects with the same entries are the same
//! value.
use vstd::prelude::*;
use vstd::string::*;
use vstd::arithmetic::power2::{
    lemma2_to64, lemma_pow2_pos, lemma_pow2_strictly_increases, lemma_pow2_unfold, pow2,
};
use vstd::arithmetic::mul::{lemma_mul_inequality, lemma_mul_strict_inequality};

verus! {

/// A JSON number.
#[derive(Debug)]
pub enum Number {
    /// An integer that is zero or more.
    PosInt(u64),
    /// An integer below zero.
    NegInt(i64),
    /// A finite double, given by its IEEE 754 bit pattern.
    Float(u64),
}

/// The mathematical value of a number.  A double keeps its bits, so the
/// sign of a zero is kept; `number_eq` compares doubles by value.
pub enum NumberV {
    PosInt(u64),
    NegInt(i64),
    Float(u64),
}

/// Equality of numbers: integers of the same kind with the same value, or
/// doubles with the same real value (`0.0` and `-0.0` are equal).
pub open spec fn number_eq(a: NumberV, b: NumberV) -> bool {
    match (a, b) {
        (NumberV::PosInt(x), NumberV::PosInt(y)) => x == y,
        (NumberV::NegInt(x), NumberV::NegInt(y)) => x == y,
        (NumberV::Float(x), NumberV::Float(y)) => float_key(x) == float_key(y),
        _ => false,
    }
}

/// 2 to the power 52: one unit of the exponent field of a double.
pub open spec fn two_pow_52() -> int {
    0x10_0000_0000_0000
}

/// 2 to the power 63: the sign bit of a double.
pub open spec fn two_pow_63() -> int {
    0x8000_0000_0000_0000
}

/// The exponent field of a double: the eleven bits after the sign.
pub open spec fn float_exponent(bits: u64) -> int {
    (bits as int / two_pow_52()) % 2048
}

/// A bit pattern denotes a finite double when its exponent is not all ones.
pub open spec fn float_bits_finite(bits: u64) -> bool {
    float_exponent(bits) != 2047
}

/// The bits below the sign bit.
pub open spec fn float_magnitude(bits: u64) -> int {
    bits as int % two_pow_63()
}

/// The sign bit of a double is set.
pub open spec fn float_negative(bits: u64) -> bool {
    bits as int >= two_pow_63()
}

/// An integer that orders finite doubles as their real values are ordered:
/// doubles are stored sign and magnitude, and for one sign a larger magnitude
/// field is a larger absolute value.  Both zeros have key 0.
pub open spec fn float_key(bits: u64) -> int {
    if float_negative(bits) {
        -float_magnitude(bits)
    } else {
        float_magnitude(bits)
    }
}

/// The fraction field of a double: its low 52 bits.
pub open spec fn float_fraction(bits: u64) -> int {
    bits as int % two_pow_52()
}

/// The magnitude of a double with exponent field `e` and fraction field
/// `f`, counted in units of the smallest positive double, `2^-1074`: a
/// subnormal double (`e == 0`) is `f` units, a normal one is
/// `(2^52 + f) * 2^(e - 1)` units.
pub open spec fn float_units_of(e: int, f: int) -> int {
    if e <= 0 {
        f
    } else {
        (f + two_pow_52()) * pow2((e - 1) as nat)
    }
}

/// The real value of a finite double, counted in units of `2^-1074`, so
/// that it is an integer: the double denotes `float_value(bits) * 2^-1074`.
pub open spec fn float_value(bits: u64) -> int {
    if float_negative(bits) {
        -float_units_of(float_exponent(bits), float_fraction(bits))
    } else {
        float_units_of(float_exponent(bits), float_fraction(bits))
    }
}

proof fn lemma_float_fields(bits: u64)
    ensures
        float_magnitude(bits) == float_exponent(bits) * two_pow_52() + float_fraction(bits),
        0 <= float_exponent(bits) < 2048,
        0 <= float_fraction(bits) < two_pow_52(),
        bits as int == (if float_negative(bits) {
            two_pow_63()
        } else {
            0
        }) + float_magnitude(bits),
{
    assert(bits % 0x8000_0000_0000_0000 == ((bits / 0x10_0000_0000_0000) % 2048) * 0x10_0000_0000_0000
        + bits % 0x10_0000_0000_0000) by (bit_vector);
    assert(bits == (if bits >= 0x8000_0000_0000_0000u64 {
        0x8000_0000_0000_0000u64
    } else {
        0u64
    }) + bits % 0x8000_0000_0000_0000) by (bit_vector);
}

proof fn lemma_units_nonneg(e: int, f: int)
    requires
        0 <= f,
    ensures
        float_units_of(e, f) >= 0,
        float_units_of(e, f) == 0 <==> e <= 0 && f == 0,
{
    if e > 0 {
        let p: int = pow2((e - 1) as nat) as int;
        lemma_pow2_pos((e - 1) as nat);
        lemma_mul_strict_inequality(0, f + two_pow_52(), p);
    }
}

/// The units of a double grow strictly with its exponent and fraction
/// fields read together as one number.
proof fn lemma_units_increase(e1: int, f1: int, e2: int, f2: int)
    requires
        0 <= e1 < 2048,
        0 <= e2 < 2048,
        0 <= f1 < two_pow_52(),
        0 <= f2 < two_pow_52(),
        e1 * two_pow_52() + f1 < e2 * two_pow_52() + f2,
    ensures
        float_units_of(e1, f1) < float_units_of(e2, f2),
{
    let b = two_pow_52();
    if e1 == e2 {
        if e1 > 0 {
            lemma_pow2_pos((e1 - 1) as nat);
            lemma_mul_strict_inequality(f1 + b, f2 + b, pow2((e1 - 1) as nat) as int);
        }
    } else {
        assert(e1 < e2);
        let p2: int = pow2((e2 - 1) as nat) as int;
        lemma_pow2_pos((e2 - 1) as nat);
        // The units of (e2, f2) are at least b * 2^(e2 - 1).
        lemma_mul_inequality(b, f2 + b, p2);
        assert(float_units_of(e2, f2) >= b * p2);
        // The units of (e1, f1) are below b * 2^e1, which is at most b * 2^(e2 - 1).
        if e1 == 0 {
            lemma2_to64();
            assert(pow2(0) == 1);
            if e2 - 1 > 0 {
                lemma_pow2_strictly_increases(0, (e2 - 1) as nat);
            }
            lemma_mul_inequality(1, p2, b);
            assert(b * p2 == p2 * b) by (nonlinear_arith);
            assert(float_units_of(e1, f1) == f1);
        } else {
            let p1: int = pow2((e1 - 1) as nat) as int;
            lemma_pow2_unfold(e1 as nat);
            lemma_pow2_pos((e1 - 1) as nat);
            lemma_mul_strict_inequality(f1 + b, 2 * b, p1);
            assert((2 * b) * p1 == b * (2 * p1)) by (nonlinear_arith);
            if e1 < e2 - 1 {
                lemma_pow2_strictly_increases(e1 as nat, (e2 - 1) as nat);
            }
            lemma_mul_inequality(pow2(e1 as nat) as int, p2, b);
            assert(pow2(e1 as nat) * b == b * pow2(e1 as nat)) by (nonlinear_arith);
            assert(p2 * b == b * p2) by (nonlinear_arith);
        }
    }
}

/// Keys compare doubles as the real values they denote: of two finite
/// doubles, the key of the first is below that of the second exactly when
/// its value is below, and the keys are equal exactly when the values are
/// (so `0.0` and `-0.0` have equal keys).
pub proof fn law_float_key_order(x: u64, y: u64)
    requires
        float_bits_finite(x),
        float_bits_finite(y),
    ensures
        (float_key(x) < float_key(y)) == (float_value(x) < float_value(y)),
        (float_key(x) == float_key(y)) == (float_value(x) == float_value(y)),
{
    lemma_float_fields(x);
    lemma_float_fields(y);
    let (ex, fx) = (float_exponent(x), float_fraction(x));
    let (ey, fy) = (float_exponent(y), float_fraction(y));
    lemma_units_nonneg(ex, fx);
    lemma_units_nonneg(ey, fy);
    if float_magnitude(x) < float_magnitude(y) {
        lemma_units_increase(ex, fx, ey, fy);
    } else if float_magnitude(y) < float_magnitude(x) {
        lemma_units_increase(ey, fy, ex, fx);
    } else {
        assert(ex == ey && fx == fy) by (nonlinear_arith)
            requires
                ex * two_pow_52() + fx == ey * two_pow_52() + fy,
                0 <= fx < two_pow_52(),
                0 <= fy < two_pow_52(),
                two_pow_52() == 0x10_0000_0000_0000,
        ;
    }
}

/// Two doubles have the same key only when they are the same double or
/// the two zeros.
pub proof fn law_float_key_injective(x: u64, y: u64)
    requires
        float_key(x) == float_key(y),
        float_key(x) != 0,
    ensures
        x == y,
{
    lemma_float_fields(x);
    lemma_float_fields(y);
}

impl View for Number {
    type V = NumberV;

    open spec fn view(&self) -> NumberV {
        match *self {
            Number::PosInt(u) => NumberV::PosInt(u),
            Number::NegInt(i) => NumberV::NegInt(i),
            Number::Float(b) => NumberV::Float(b),
        }
    }
}

impl Number {
    /// A negative integer is below zero and a double is finite, as the JSON
    /// library that reads and writes these values keeps them.
    pub open spec fn wf(self) -> bool {
        match self {
            Number::PosInt(_) => true,
            Number::NegInt(i) => i < 0,
            Number::Float(b) => float_bits_finite(b),
        }
    }

    /// The number of a non-negative integer.
    pub fn from_u64(u: u64) -> (n: Number)
        ensures
            n == Number::PosInt(u),
            n.wf(),
    {
        Number::PosInt(u)
    }

    /// The number of a signed integer: non-negative ones are kept as `PosInt`.
    pub fn from_i64(i: i64) -> (n: Number)
        ensures
            n.wf(),
            i >= 0 ==> n == Number::PosInt(i as u64),
            i < 0 ==> n == Number::NegInt(i),
    {
        if i >= 0 {
            Number::PosInt(i as u64)
        } else {
            Number::NegInt(i)
        }
    }

    /// The number of a double given by its bits, or `None` when the bits
    /// denote an infinity or a NaN, which JSON cannot hold.
    pub fn float_from_bits(bits: u64) -> (n: Option<Number>)
        ensures
            n == (if float_bits_finite(bits) {
                Some(Number::Float(bits))
            } else {
                None::<Number>
            }),
    {
        if (bits / 0x10_0000_0000_0000) % 2048 != 2047 {
            Some(Number::Float(bits))
        } else {
            None
        }
    }

    /// Whether the number is a non-negative integer.
    pub fn is_u64(&self) -> (b: bool)
        ensures
            b == (*self is PosInt),
    {
        match self {
            Number::PosInt(_) => true,
            _ => false,
        }
    }

    /// Whether the number is a double.
    pub fn is_f64(&self) -> (b: bool)
        ensures
            b == (*self is Float),
    {
        match self {
            Number::Float(_) => true,
            _ => false,
        }
    }

    /// A copy of the number.
    pub fn copy(&self) -> (n: Number)
        ensures
            n == *self,
    {
        match self {
            Number::PosInt(u) => Number::PosInt(*u),
            Number::NegInt(i) => Number::NegInt(*i),
            Number::Float(b) => Number::Float(*b),
        }
    }

    /// Equality of numbers: integers of the same kind with the same value,
    /// or doubles with the same real value.
    pub fn equals(&self, other: &Number) -> (b: bool)
        ensures
            b == number_eq(self@, other@),
    {
        match (self, other) {
            (Number::PosInt(a), Number::PosInt(b)) => *a == *b,
            (Number::NegInt(a), Number::NegInt(b)) => *a == *b,
            (Number::Float(a), Number::Float(b)) => float_key_of(*a) == float_key_of(*b),
            _ => false,
        }
    }
}

/// The key of a double, computed (see `float_key`).
pub fn float_key_of(bits: u64) -> (k: i64)
    ensures
        k as int == float_key(bits),
{
    let mag: u64 = bits % 0x8000_0000_0000_0000;
    assert(mag < 0x8000_0000_0000_0000);
    if bits >= 0x8000_0000_0000_0000 {
        -(mag as i64)
    } else {
        mag as i64
    }
}

/// A JSON value.
#[derive(Debug)]
pub enum Json {
    Null,
    Bool(bool),
    Number(Number),
    String(String),
    Array(Vec<Json>),
    /// Entries sorted by key, each key once (see `Json::wf`).
    Object(Vec<(String, Json)>),
}

/// The mathematical value of a JSON value.
pub enum JsonV {
    Null,
    Bool(bool),
    Number(NumberV),
    Str(Seq<char>),
    Array(Seq<JsonV>),
    Object(Seq<(Seq<char>, JsonV)>),
}

/// The value of a JSON value.
pub open spec fn json_view(j: Json) -> JsonV
    decreases j,
{
    match j {
        Json::Null => JsonV::Null,
        Json::Bool(b) => JsonV::Bool(b),
        Json::Number(n) => JsonV::Number(n@),
        Json::String(s) => JsonV::Str(s@),
        Json::Array(v) => JsonV::Array(json_seq_view(v@)),
        Json::Object(v) => JsonV::Object(entries_view(v@)),
    }
}

/// The values of a sequence of JSON values, element by element.
pub open spec fn json_seq_view(s: Seq<Json>) -> Seq<JsonV>
    decreases s,
{
    if s.len() == 0 {
        Seq::empty()
    } else {
        json_seq_view(s.drop_last()).push(json_view(s.last()))
    }
}

/// The values of a sequence of object entries, entry by entry.
pub open spec fn entries_view(s: Seq<(String, Json)>) -> Seq<(Seq<char>, JsonV)>
    decreases s,
{
    if s.len() == 0 {
        Seq::empty()
    } else {
        entries_view(s.drop_last()).push((s.last().0@, json_view(s.last().1)))
    }
}

impl View for Json {
    type V = JsonV;

    open spec fn view(&self) -> JsonV {
        json_view(*self)
    }
}

impl NumberV {
    /// Negative integers are below zero; doubles are finite.
    pub open spec fn wf(self) -> bool {
        match self {
            NumberV::PosInt(_) => true,
            NumberV::NegInt(i) => i < 0,
            NumberV::Float(b) => float_bits_finite(b),
        }
    }
}

/// Equality of JSON values: numbers by `number_eq`, strings by their
/// characters, arrays element by element, objects entry by entry.
pub open spec fn json_eq(a: JsonV, b: JsonV) -> bool
    decreases a,
{
    match (a, b) {
        (JsonV::Null, JsonV::Null) => true,
        (JsonV::Bool(x), JsonV::Bool(y)) => x == y,
        (JsonV::Number(x), JsonV::Number(y)) => number_eq(x, y),
        (JsonV::Str(x), JsonV::Str(y)) => x == y,
        (JsonV::Array(xs), JsonV::Array(ys)) => xs.len() == ys.len() && forall|i: int|
            0 <= i < xs.len() ==> json_eq(#[trigger] xs[i], ys[i]),
        (JsonV::Object(xs), JsonV::Object(ys)) => xs.len() == ys.len() && forall|i: int|
            0 <= i < xs.len() ==> (#[trigger] xs[i]).0 == ys[i].0 && json_eq(xs[i].1, ys[i].1),
        _ => false,
    }
}

/// Every value equals itself.
pub proof fn lemma_json_eq_refl(a: JsonV)
    ensures
        json_eq(a, a),
    decreases a,
{
    match a {
        JsonV::Array(xs) => {
            assert forall|i: int| 0 <= i < xs.len() implies json_eq(#[trigger] xs[i], xs[i]) by {
                lemma_json_eq_refl(xs[i]);
            }
        },
        JsonV::Object(xs) => {
            assert forall|i: int| 0 <= i < xs.len() implies json_eq(
                (#[trigger] xs[i]).1,
                xs[i].1,
            ) by {
                lemma_json_eq_refl(xs[i].1);
            }
        },
        _ => {},
    }
}

/// No double in the value is zero.
pub open spec fn zero_free(a: JsonV) -> bool
    decreases a,
{
    match a {
        JsonV::Number(NumberV::Float(b)) => float_key(b) != 0,
        JsonV::Array(xs) => forall|i: int| 0 <= i < xs.len() ==> zero_free(#[trigger] xs[i]),
        JsonV::Object(xs) => forall|i: int| 0 <= i < xs.len() ==> zero_free((#[trigger] xs[i]).1),
        _ => true,
    }
}

/// Equality of JSON values is plain equality of the values where no double
/// in them is zero: numbers, strings, and arrays and objects position by
/// position.  (The zeros `0.0` and `-0.0` are equal values with different
/// bits.)
pub proof fn law_json_eq_is_equality(a: JsonV, b: JsonV)
    requires
        zero_free(a),
        zero_free(b),
    ensures
        json_eq(a, b) <==> a == b,
    decreases a,
{
    lemma_json_eq_refl(a);
    if json_eq(a, b) {
        match (a, b) {
            (JsonV::Number(NumberV::Float(x)), JsonV::Number(NumberV::Float(y))) => {
                law_float_key_injective(x, y);
            },
            (JsonV::Array(xs), JsonV::Array(ys)) => {
                assert forall|i: int| 0 <= i < xs.len() implies xs[i] == ys[i] by {
                    assert(zero_free(xs[i]) && zero_free(ys[i]));
                    law_json_eq_is_equality(xs[i], ys[i]);
                }
                assert(xs =~= ys);
            },
            (JsonV::Object(xs), JsonV::Object(ys)) => {
                assert forall|i: int| 0 <= i < xs.len() implies xs[i] == ys[i] by {
                    assert(zero_free(xs[i].1) && zero_free(ys[i].1));
                    law_json_eq_is_equality(xs[i].1, ys[i].1);
                }
                assert(xs =~= ys);
            },
            _ => {},
        }
    }
}

/// Lexicographic order on keys, character by character (for UTF-8 text this
/// is also the order of the bytes).
pub open spec fn key_lt(a: Seq<char>, b: Seq<char>) -> bool
    decreases a.len(),
{
    if a.len() == 0 {
        b.len() > 0
    } else if b.len() == 0 {
        false
    } else if a[0] != b[0] {
        (a[0] as int) < (b[0] as int)
    } else {
        key_lt(a.drop_first(), b.drop_first())
    }
}

/// Keys strictly increase along the entries: sorted, each key once.
pub open spec fn keys_sorted(s: Seq<(Seq<char>, JsonV)>) -> bool {
    forall|i: int, j: int| 0 <= i < j < s.len() ==> key_lt(#[trigger] s[i].0, #[trigger] s[j].0)
}

impl JsonV {
    pub open spec fn wf(self) -> bool
        decreases self,
    {
        match self {
            JsonV::Number(n) => n.wf(),
            JsonV::Array(s) => forall|i: int| 0 <= i < s.len() ==> (#[trigger] s[i]).wf(),
            JsonV::Object(s) => keys_sorted(s) && forall|i: int|
                0 <= i < s.len() ==> (#[trigger] s[i]).1.wf(),
            _ => true,
        }
    }
}

impl Json {
    /// Numbers are as `Number::wf` says and objects are sorted by key, each
    /// key once.
    pub open spec fn wf(&self) -> bool {
        self@.wf()
    }
}

/// The value of entry `k` among `entries`, if it has one.
pub open spec fn entry_lookup(entries: Seq<(Seq<char>, JsonV)>, k: Seq<char>) -> Option<JsonV>
    decreases entries.len(),
{
    if entries.len() == 0 {
        None
    } else if entries[0].0 == k {
        Some(entries[0].1)
    } else {
        entry_lookup(entries.drop_first(), k)
    }
}

/// Sorted entries with `(k, v)` added: in place of an entry with key `k`, or
/// where `k` falls in the order.
pub open spec fn entry_insert(entries: Seq<(Seq<char>, JsonV)>, k: Seq<char>, v: JsonV) -> Seq<
    (Seq<char>, JsonV),
>
    decreases entries.len(),
{
    if entries.len() == 0 {
        seq![(k, v)]
    } else if entries[0].0 == k {
        seq![(k, v)] + entries.drop_first()
    } else if key_lt(k, entries[0].0) {
        seq![(k, v)] + entries
    } else {
        seq![entries[0]] + entry_insert(entries.drop_first(), k, v)
    }
}

/// The view of a sequence of values has their views, position by position.
pub proof fn lemma_json_seq_view(s: Seq<Json>)
    ensures
        json_seq_view(s).len() == s.len(),
        forall|i: int| 0 <= i < s.len() ==> #[trigger] json_seq_view(s)[i] == json_view(s[i]),
    decreases s.len(),
{
    if s.len() > 0 {
        lemma_json_seq_view(s.drop_last());
    }
}

/// The view of a sequence of entries has their views, position by position.
pub proof fn lemma_entries_view(s: Seq<(String, Json)>)
    ensures
        entries_view(s).len() == s.len(),
        forall|i: int|
            0 <= i < s.len() ==> #[trigger] entries_view(s)[i] == (s[i].0@, json_view(s[i].1)),
    decreases s.len(),
{
    if s.len() > 0 {
        lemma_entries_view(s.drop_last());
    }
}

/// No key is below itself.
pub proof fn lemma_key_lt_irreflexive(a: Seq<char>)
    ensures
        !key_lt(a, a),
    decreases a.len(),
{
    if a.len() > 0 {
        lemma_key_lt_irreflexive(a.drop_first());
    }
}

/// The order of keys is transitive.
pub proof fn lemma_key_lt_transitive(a: Seq<char>, b: Seq<char>, c: Seq<char>)
    requires
        key_lt(a, b),
        key_lt(b, c),
    ensures
        key_lt(a, c),
    decreases a.len(),
{
    if a.len() > 0 && b.len() > 0 && c.len() > 0 && a[0] == b[0] && b[0] == c[0] {
        lemma_key_lt_transitive(a.drop_first(), b.drop_first(), c.drop_first());
    }
}

/// Of two different keys exactly one is below the other.
pub proof fn lemma_key_lt_total(a: Seq<char>, b: Seq<char>)
    ensures
        a == b || key_lt(a, b) || key_lt(b, a),
        !(key_lt(a, b) && key_lt(b, a)),
    decreases a.len(),
{
    if a.len() > 0 && b.len() > 0 {
        lemma_key_lt_total(a.drop_first(), b.drop_first());
        if a[0] == b[0] && a.drop_first() == b.drop_first() {
            assert(a == seq![a[0]] + a.drop_first());
            assert(b == seq![b[0]] + b.drop_first());
        }
    }
}

/// The characters of a string, one by one.
pub fn chars_of(s: &str) -> (v: Vec<char>)
    ensures
        v@ == s@,
{
    let n = s.unicode_len();
    let mut v: Vec<char> = Vec::new();
    let mut i: usize = 0;
    while i < n
        invariant
            n == s@.len(),
            i <= n,
            v@ == s@.take(i as int),
        decreases n - i,
    {
        let c = s.get_char(i);
        v.push(c);
        i = i + 1;
        assert(v@ =~= s@.take(i as int));
    }
    assert(s@.take(n as int) =~= s@);
    v
}

/// How two keys compare.
pub enum KeyOrder {
    Less,
    Equal,
    Greater,
}

proof fn lemma_key_lt_common_prefix(a: Seq<char>, b: Seq<char>, i: int)
    requires
        0 <= i <= a.len(),
        i <= b.len(),
        a.take(i) == b.take(i),
    ensures
        key_lt(a, b) == key_lt(a.skip(i), b.skip(i)),
    decreases i,
{
    if i > 0 {
        assert(a[0] == a.take(i)[0]);
        assert(b[0] == b.take(i)[0]);
        assert(a.drop_first().take(i - 1) =~= a.take(i).drop_first());
        assert(b.drop_first().take(i - 1) =~= b.take(i).drop_first());
        lemma_key_lt_common_prefix(a.drop_first(), b.drop_first(), i - 1);
        assert(a.drop_first().skip(i - 1) =~= a.skip(i));
        assert(b.drop_first().skip(i - 1) =~= b.skip(i));
    } else {
        assert(a.skip(0) =~= a);
        assert(b.skip(0) =~= b);
    }
}

/// Compares two keys in the order of `key_lt`.
pub fn key_order(a: &str, b: &str) -> (o: KeyOrder)
    ensures
        (o is Less) == key_lt(a@, b@),
        (o is Equal) == (a@ == b@),
        (o is Greater) == key_lt(b@, a@),
{
    let av = chars_of(a);
    let bv = chars_of(b);
    let mut i: usize = 0;
    proof {
        lemma_key_lt_total(a@, b@);
    }
    while i < av.len() && i < bv.len()
        invariant
            av@ == a@,
            bv@ == b@,
            i <= av.len(),
            i <= bv.len(),
            a@.take(i as int) == b@.take(i as int),
        decreases av.len() - i,
    {
        if av[i] != bv[i] {
            proof {
                lemma_key_lt_common_prefix(a@, b@, i as int);
                lemma_key_lt_common_prefix(b@, a@, i as int);
                assert(a@.skip(i as int)[0] == av[i as int]);
                assert(b@.skip(i as int)[0] == bv[i as int]);
                assert(a@[i as int] != b@[i as int]);
            }
            if av[i] < bv[i] {
                assert(key_lt(a@.skip(i as int), b@.skip(i as int)));
                return KeyOrder::Less;
            } else {
                assert(key_lt(b@.skip(i as int), a@.skip(i as int)));
                return KeyOrder::Greater;
            }
        }
        i = i + 1;
        assert(a@.take(i as int) =~= a@.take(i - 1).push(a@[i - 1]));
        assert(b@.take(i as int) =~= b@.take(i - 1).push(b@[i - 1]));
    }
    proof {
        lemma_key_lt_common_prefix(a@, b@, i as int);
        lemma_key_lt_common_prefix(b@, a@, i as int);
    }
    if av.len() == bv.len() {
        assert(a@ =~= a@.take(i as int));
        assert(b@ =~= b@.take(i as int));
        KeyOrder::Equal
    } else if av.len() < bv.len() {
        assert(a@ != b@);
        KeyOrder::Less
    } else {
        assert(a@ != b@);
        KeyOrder::Greater
    }
}

/// Two sequences of JSON values with the same values element by element
/// have the same value.
pub proof fn lemma_json_seq_view_eq(s1: Seq<Json>, s2: Seq<Json>)
    ensures
        (json_seq_view(s1) == json_seq_view(s2)) == (s1.len() == s2.len() && forall|i: int|
            0 <= i < s1.len() ==> json_view(#[trigger] s1[i]) == json_view(s2[i])),
{
    lemma_json_seq_view(s1);
    lemma_json_seq_view(s2);
    if s1.len() == s2.len() && forall|i: int|
        0 <= i < s1.len() ==> json_view(#[trigger] s1[i]) == json_view(s2[i]) {
        assert(json_seq_view(s1) =~= json_seq_view(s2));
    }
    if json_seq_view(s1) == json_seq_view(s2) {
        assert forall|i: int| 0 <= i < s1.len() implies json_view(#[trigger] s1[i]) == json_view(
            s2[i],
        ) by {
            assert(json_seq_view(s1)[i] == json_seq_view(s2)[i]);
        }
    }
}

/// The same for object entries.
pub proof fn lemma_entries_view_eq(s1: Seq<(String, Json)>, s2: Seq<(String, Json)>)
    ensures
        (entries_view(s1) == entries_view(s2)) == (s1.len() == s2.len() && forall|i: int|
            0 <= i < s1.len() ==> (#[trigger] s1[i]).0@ == s2[i].0@ && json_view(s1[i].1)
                == json_view(s2[i].1)),
{
    lemma_entries_view(s1);
    lemma_entries_view(s2);
    if s1.len() == s2.len() && forall|i: int|
        0 <= i < s1.len() ==> (#[trigger] s1[i]).0@ == s2[i].0@ && json_view(s1[i].1) == json_view(
            s2[i].1,
        ) {
        assert(entries_view(s1) =~= entries_view(s2));
    }
    if entries_view(s1) == entries_view(s2) {
        assert forall|i: int| 0 <= i < s1.len() implies (#[trigger] s1[i]).0@ == s2[i].0@
            && json_view(s1[i].1) == json_view(s2[i].1) by {
            assert(entries_view(s1)[i] == entries_view(s2)[i]);
        }
    }
}

impl Json {
    /// A copy of the value.
    #[verifier::loop_isolation(false)]
    pub fn copy(&self) -> (r: Json)
        ensures
            r@ == self@,
        decreases self,
    {
        match self {
            Json::Null => Json::Null,
            Json::Bool(b) => Json::Bool(*b),
            Json::Number(n) => Json::Number(n.copy()),
            Json::String(s) => Json::String(s.clone()),
            Json::Array(v) => {
                let mut out: Vec<Json> = Vec::new();
                let mut i: usize = 0;
                while i < v.len()
                    invariant
                        i <= v.len(),
                        out@.len() == i,
                        forall|j: int| 0 <= j < i ==> json_view(#[trigger] out@[j]) == json_view(v@[j]),
                    decreases v.len() - i,
                {
                    let c = v[i].copy();
                    out.push(c);
                    i = i + 1;
                }
                proof {
                    lemma_json_seq_view_eq(out@, v@);
                }
                Json::Array(out)
            },
            Json::Object(v) => {
                let mut out: Vec<(String, Json)> = Vec::new();
                let mut i: usize = 0;
                while i < v.len()
                    invariant
                        i <= v.len(),
                        out@.len() == i,
                        forall|j: int|
                            0 <= j < i ==> (#[trigger] out@[j]).0@ == v@[j].0@ && json_view(out@[j].1)
                                == json_view(v@[j].1),
                    decreases v.len() - i,
                {
                    let k = v[i].0.clone();
                    let c = v[i].1.copy();
                    out.push((k, c));
                    i = i + 1;
                }
                proof {
                    lemma_entries_view_eq(out@, v@);
                }
                Json::Object(out)
            },
        }
    }

    /// Equality of JSON values, as `json_eq` says.
    #[verifier::loop_isolation(false)]
    pub fn equals(&self, other: &Json) -> (b: bool)
        ensures
            b == json_eq(self@, other@),
        decreases self,
    {
        match (self, other) {
            (Json::Null, Json::Null) => true,
            (Json::Bool(x), Json::Bool(y)) => *x == *y,
            (Json::Number(x), Json::Number(y)) => x.equals(y),
            (Json::String(x), Json::String(y)) => *x == *y,
            (Json::Array(x), Json::Array(y)) => {
                proof {
                    lemma_json_seq_view(x@);
                    lemma_json_seq_view(y@);
                }
                let ghost xs = json_seq_view(x@);
                let ghost ys = json_seq_view(y@);
                if x.len() != y.len() {
                    return false;
                }
                let mut i: usize = 0;
                while i < x.len()
                    invariant
                        i <= x.len(),
                        x.len() == y.len(),
                        forall|j: int| 0 <= j < i ==> json_eq(#[trigger] xs[j], ys[j]),
                    decreases x.len() - i,
                {
                    if !x[i].equals(&y[i]) {
                        assert(!json_eq(xs[i as int], ys[i as int]));
                        return false;
                    }
                    i = i + 1;
                }
                true
            },
            (Json::Object(x), Json::Object(y)) => {
                proof {
                    lemma_entries_view(x@);
                    lemma_entries_view(y@);
                }
                let ghost xs = entries_view(x@);
                let ghost ys = entries_view(y@);
                if x.len() != y.len() {
                    return false;
                }
                let mut i: usize = 0;
                while i < x.len()
                    invariant
                        i <= x.len(),
                        x.len() == y.len(),
                        forall|j: int|
                            0 <= j < i ==> (#[trigger] xs[j]).0 == ys[j].0 && json_eq(xs[j].1, ys[j].1),
                    decreases x.len() - i,
                {
                    if x[i].0 != y[i].0 {
                        assert(xs[i as int].0 != ys[i as int].0);
                        return false;
                    }
                    if !x[i].1.equals(&y[i].1) {
                        assert(!json_eq(xs[i as int].1, ys[i as int].1));
                        return false;
                    }
                    i = i + 1;
                }
                true
            },
            _ => false,
        }
    }
}

/// Whether two strings have the same characters.
pub fn str_equal(a: &str, b: &str) -> (r: bool)
    ensures
        r == (a@ == b@),
{
    match key_order(a, b) {
        KeyOrder::Equal => true,
        _ => false,
    }
}

/// Finds the value of entry `key`, as a map lookup.
#[verifier::loop_isolation(false)]
pub fn entries_get<'a>(entries: &'a Vec<(String, Json)>, key: &str) -> (r: Option<&'a Json>)
    ensures
        match r {
            Some(j) => entry_lookup(entries_view(entries@), key@) == Some(j@),
            None => entry_lookup(entries_view(entries@), key@) is None,
        },
{
    let ghost ev = entries_view(entries@);
    proof {
        lemma_entries_view(entries@);
        assert(ev.skip(0) =~= ev);
    }
    let mut i: usize = 0;
    while i < entries.len()
        invariant
            i <= entries.len(),
            entry_lookup(ev, key@) == entry_lookup(ev.skip(i as int), key@),
        decreases entries.len() - i,
    {
        assert(ev.skip(i as int)[0] == ev[i as int]);
        if str_equal(entries[i].0.as_str(), key) {
            return Some(&entries[i].1);
        }
        assert(ev.skip(i as int).drop_first() =~= ev.skip(i + 1));
        i = i + 1;
    }
    None
}

proof fn lemma_entry_insert_at(
    ev: Seq<(Seq<char>, JsonV)>,
    k: Seq<char>,
    v: JsonV,
    i: int,
)
    requires
        0 <= i <= ev.len(),
        forall|j: int| 0 <= j < i ==> key_lt(#[trigger] ev[j].0, k),
        i < ev.len() ==> !key_lt(ev[i].0, k),
    ensures
        i < ev.len() && ev[i].0 == k ==> entry_insert(ev, k, v) == ev.take(i) + seq![(k, v)]
            + ev.skip(i + 1),
        !(i < ev.len() && ev[i].0 == k) ==> entry_insert(ev, k, v) == ev.take(i) + seq![(k, v)]
            + ev.skip(i),
    decreases i,
{
    if i == 0 {
        assert(ev.take(0) =~= Seq::<(Seq<char>, JsonV)>::empty());
        assert(ev.skip(0) =~= ev);
        if ev.len() > 0 {
            assert(ev.skip(1) =~= ev.drop_first());
            lemma_key_lt_total(ev[0].0, k);
        }
        assert(seq![(k, v)] + ev =~= ev.take(0) + seq![(k, v)] + ev.skip(0));
        assert(ev.len() > 0 ==> seq![(k, v)] + ev.drop_first() =~= ev.take(0) + seq![(k, v)]
            + ev.skip(1));
    } else {
        lemma_key_lt_total(ev[0].0, k);
        lemma_key_lt_irreflexive(k);
        assert(ev[0].0 != k);
        assert(!key_lt(k, ev[0].0));
        let rest = ev.drop_first();
        assert forall|j: int| 0 <= j < i - 1 implies key_lt(#[trigger] rest[j].0, k) by {
            assert(rest[j] == ev[j + 1]);
        }
        lemma_entry_insert_at(rest, k, v, i - 1);
        assert(rest.take(i - 1) =~= ev.take(i).drop_first());
        if i < ev.len() {
            assert(rest.skip(i) =~= ev.skip(i + 1));
        }
        assert(rest.skip(i - 1) =~= ev.skip(i));
        assert(seq![ev[0]] + ev.take(i).drop_first() =~= ev.take(i));
        if i < ev.len() {
            assert(seq![ev[0]] + (rest.take(i - 1) + seq![(k, v)] + rest.skip(i)) =~= ev.take(i)
                + seq![(k, v)] + ev.skip(i + 1));
        }
        assert(seq![ev[0]] + (rest.take(i - 1) + seq![(k, v)] + rest.skip(i - 1)) =~= ev.take(i)
            + seq![(k, v)] + ev.skip(i));
    }
}

/// Adds entry `(k, v)` to sorted entries, replacing an entry with key `k`.
#[verifier::loop_isolation(false)]
pub fn entries_insert(entries: &mut Vec<(String, Json)>, k: String, v: Json)
    ensures
        entries_view(final(entries)@) == entry_insert(entries_view(old(entries)@), k@, v@),
{
    let ghost ev = entries_view(entries@);
    proof {
        lemma_entries_view(entries@);
    }
    let mut i: usize = 0;
    let mut found = false;
    while i < entries.len() && !found
        invariant
            i <= entries.len(),
            entries@ == old(entries)@,
            forall|j: int| 0 <= j < i ==> key_lt(#[trigger] ev[j].0, k@),
            found ==> i < entries.len() && !key_lt(ev[i as int].0, k@),
        decreases entries.len() - i + (if found { 0int } else { 1int }),
    {
        match key_order(entries[i].0.as_str(), k.as_str()) {
            KeyOrder::Less => {
                i = i + 1;
            },
            _ => {
                found = true;
            },
        }
    }
    proof {
        lemma_entry_insert_at(ev, k@, v@, i as int);
    }
    let ghost kv = k@;
    let ghost vv = v@;
    if found && entries[i].0 == k {
        entries.set(i, (k, v));
        proof {
            lemma_entries_view(entries@);
            assert(entries_view(entries@) =~= ev.take(i as int) + seq![(kv, vv)] + ev.skip(i + 1));
        }
    } else {
        entries.insert(i, (k, v));
        proof {
            lemma_entries_view(entries@);
            assert(entries_view(entries@) =~= ev.take(i as int) + seq![(kv, vv)] + ev.skip(
                i as int,
            ));
        }
    }
}

/// A key below `k` and below every key of `ev` is below every key after
/// inserting `k`; values stay well formed.
proof fn lemma_entry_insert_bounds(ev: Seq<(Seq<char>, JsonV)>, k: Seq<char>, v: JsonV, b: Seq<char>)
    requires
        key_lt(b, k),
        forall|j: int| 0 <= j < ev.len() ==> key_lt(b, #[trigger] ev[j].0),
    ensures
        forall|j: int| 0 <= j < entry_insert(ev, k, v).len() ==> key_lt(b, #[trigger] entry_insert(ev, k, v)[j].0),
    decreases ev.len(),
{
    let r = entry_insert(ev, k, v);
    if ev.len() > 0 && ev[0].0 != k && !key_lt(k, ev[0].0) {
        let rest = ev.drop_first();
        assert forall|j: int| 0 <= j < rest.len() implies key_lt(b, #[trigger] rest[j].0) by {
            assert(rest[j] == ev[j + 1]);
        }
        lemma_entry_insert_bounds(rest, k, v, b);
        assert forall|j: int| 0 <= j < r.len() implies key_lt(b, #[trigger] r[j].0) by {
            if j > 0 {
                assert(r[j] == entry_insert(rest, k, v)[j - 1]);
            }
        }
    } else if ev.len() > 0 {
        assert forall|j: int| 0 <= j < r.len() implies key_lt(b, #[trigger] r[j].0) by {
            if j > 0 && ev[0].0 == k {
                assert(r[j] == ev[j]);
            } else if j > 0 {
                assert(r[j] == ev[j - 1]);
            }
        }
    }
}

/// Inserting into sorted entries keeps them sorted, and keeps the values well
/// formed when the new one is.
pub proof fn lemma_entry_insert_wf(ev: Seq<(Seq<char>, JsonV)>, k: Seq<char>, v: JsonV)
    requires
        keys_sorted(ev),
        forall|j: int| 0 <= j < ev.len() ==> (#[trigger] ev[j]).1.wf(),
        v.wf(),
    ensures
        keys_sorted(entry_insert(ev, k, v)),
        forall|j: int| 0 <= j < entry_insert(ev, k, v).len() ==> (#[trigger] entry_insert(ev, k, v)[j]).1.wf(),
    decreases ev.len(),
{
    let r = entry_insert(ev, k, v);
    if ev.len() == 0 {
    } else if ev[0].0 == k {
        assert forall|i: int, j: int| 0 <= i < j < r.len() implies key_lt(#[trigger] r[i].0, #[trigger] r[j].0) by {
            assert(r[j] == ev[j]);
            if i > 0 {
                assert(r[i] == ev[i]);
            }
        }
        assert forall|j: int| 0 <= j < r.len() implies (#[trigger] r[j]).1.wf() by {
            if j > 0 {
                assert(r[j] == ev[j]);
            }
        }
    } else if key_lt(k, ev[0].0) {
        assert forall|i: int, j: int| 0 <= i < j < r.len() implies key_lt(#[trigger] r[i].0, #[trigger] r[j].0) by {
            assert(r[j] == ev[j - 1]);
            if i > 0 {
                assert(r[i] == ev[i - 1]);
            } else if j - 1 > 0 {
                lemma_key_lt_transitive(k, ev[0].0, ev[j - 1].0);
            }
        }
        assert forall|j: int| 0 <= j < r.len() implies (#[trigger] r[j]).1.wf() by {
            if j > 0 {
                assert(r[j] == ev[j - 1]);
            }
        }
    } else {
        lemma_key_lt_total(ev[0].0, k);
        let rest = ev.drop_first();
        assert forall|i: int, j: int| 0 <= i < j < rest.len() implies key_lt(#[trigger] rest[i].0, #[trigger] rest[j].0) by {
            assert(rest[i] == ev[i + 1]);
            assert(rest[j] == ev[j + 1]);
        }
        assert forall|j: int| 0 <= j < rest.len() implies (#[trigger] rest[j]).1.wf() by {
            assert(rest[j] == ev[j + 1]);
        }
        assert forall|j: int| 0 <= j < rest.len() implies key_lt(ev[0].0, #[trigger] rest[j].0) by {
            assert(rest[j] == ev[j + 1]);
        }
        lemma_entry_insert_wf(rest, k, v);
        lemma_entry_insert_bounds(rest, k, v, ev[0].0);
        let ri = entry_insert(rest, k, v);
        assert forall|i: int, j: int| 0 <= i < j < r.len() implies key_lt(#[trigger] r[i].0, #[trigger] r[j].0) by {
            assert(r[j] == ri[j - 1]);
            if i > 0 {
                assert(r[i] == ri[i - 1]);
            }
        }
        assert forall|j: int| 0 <= j < r.len() implies (#[trigger] r[j]).1.wf() by {
            if j > 0 {
                assert(r[j] == ri[j - 1]);
            }
        }
    }
}

/// After inserting `(k, v)`, key `k` gives `v` and every other key gives what
/// it gave before.
#[verifier::spinoff_prover]
pub proof fn lemma_entry_insert_lookup(ev: Seq<(Seq<char>, JsonV)>, k: Seq<char>, v: JsonV, k2: Seq<char>)
    ensures
        entry_lookup(entry_insert(ev, k, v), k2) == (if k2 == k {
            Some(v)
        } else {
            entry_lookup(ev, k2)
        }),
    decreases ev.len(),
{
    let r = entry_insert(ev, k, v);
    if ev.len() == 0 {
        assert(r[0] == (k, v));
        assert(r.drop_first() =~= Seq::<(Seq<char>, JsonV)>::empty());
        assert(entry_lookup(r.drop_first(), k2) is None);
        assert(entry_lookup(ev, k2) is None);
    } else if ev[0].0 == k {
        assert(r[0] == (k, v));
        assert(r.drop_first() =~= ev.drop_first());
        if k2 != k {
            assert(entry_lookup(r, k2) == entry_lookup(ev.drop_first(), k2));
            assert(entry_lookup(ev, k2) == entry_lookup(ev.drop_first(), k2));
        }
    } else if key_lt(k, ev[0].0) {
        assert(r[0] == (k, v));
        assert(r.drop_first() =~= ev);
        if k2 != k {
            assert(entry_lookup(r, k2) == entry_lookup(ev, k2));
        }
    } else {
        lemma_entry_insert_lookup(ev.drop_first(), k, v, k2);
        assert(r[0] == ev[0]);
        assert(r.drop_first() =~= entry_insert(ev.drop_first(), k, v));
        if k2 == ev[0].0 {
            assert(entry_lookup(r, k2) == Some(ev[0].1));
            assert(entry_lookup(ev, k2) == Some(ev[0].1));
        } else {
            assert(entry_lookup(r, k2) == entry_lookup(entry_insert(ev.drop_first(), k, v), k2));
            assert(entry_lookup(ev, k2) == entry_lookup(ev.drop_first(), k2));
        }
    }
}

/// The entries of an object built from `pairs` in order: a later entry with
/// the same key replaces an earlier one.
pub open spec fn build_object(pairs: Seq<(Seq<char>, JsonV)>) -> Seq<(Seq<char>, JsonV)>
    decreases pairs.len(),
{
    if pairs.len() == 0 {
        Seq::empty()
    } else {
        entry_insert(build_object(pairs.drop_last()), pairs.last().0, pairs.last().1)
    }
}

/// The value of the last of `pairs` with key `k`, if one has it.
pub open spec fn last_value(pairs: Seq<(Seq<char>, JsonV)>, k: Seq<char>) -> Option<JsonV>
    decreases pairs.len(),
{
    if pairs.len() == 0 {
        None
    } else if pairs.last().0 == k {
        Some(pairs.last().1)
    } else {
        last_value(pairs.drop_last(), k)
    }
}

/// An object built from entries in order gives, at each key, the value of
/// the last entry with that key, and nothing at a key no entry has.
pub proof fn law_build_object_lookup(pairs: Seq<(Seq<char>, JsonV)>, k: Seq<char>)
    ensures
        entry_lookup(build_object(pairs), k) == last_value(pairs, k),
    decreases pairs.len(),
{
    if pairs.len() > 0 {
        law_build_object_lookup(pairs.drop_last(), k);
        lemma_entry_insert_lookup(build_object(pairs.drop_last()), pairs.last().0, pairs.last().1, k);
    }
}

/// An object built from well-formed values is well formed: its keys are
/// sorted, each once.
pub proof fn law_build_object_wf(pairs: Seq<(Seq<char>, JsonV)>)
    requires
        forall|i: int| 0 <= i < pairs.len() ==> (#[trigger] pairs[i]).1.wf(),
    ensures
        JsonV::Object(build_object(pairs)).wf(),
    decreases pairs.len(),
{
    if pairs.len() > 0 {
        let init = pairs.drop_last();
        assert forall|i: int| 0 <= i < init.len() implies (#[trigger] init[i]).1.wf() by {
            assert(init[i] == pairs[i]);
        }
        law_build_object_wf(init);
        lemma_entry_insert_wf(build_object(init), pairs.last().0, pairs.last().1);
    }
}

impl Json {
    /// The object with the given entries in order: a later entry with the
    /// same key replaces an earlier one.
    pub fn from_entries(pairs: Vec<(String, Json)>) -> (j: Json)
        ensures
            j@ == JsonV::Object(build_object(entries_view(pairs@))),
    {
        let mut out: Vec<(String, Json)> = Vec::new();
        let ghost pv = entries_view(pairs@);
        proof {
            lemma_entries_view(pairs@);
            lemma_entries_view(out@);
            assert(pv.take(0) =~= Seq::<(Seq<char>, JsonV)>::empty());
        }
        let mut pairs = pairs;
        let ghost all = pairs@;
        let mut rev: Vec<(String, Json)> = Vec::new();
        while pairs.len() > 0
            invariant
                rev@.len() + pairs@.len() == all.len(),
                forall|i: int| 0 <= i < pairs@.len() ==> #[trigger] pairs@[i] == all[i],
                forall|i: int| 0 <= i < rev@.len() ==> #[trigger] rev@[i] == all[all.len() - 1 - i],
            decreases pairs.len(),
        {
            let x = pairs.pop().unwrap();
            rev.push(x);
        }
        let mut i: usize = 0;
        let n = rev.len();
        while rev.len() > 0
            invariant
                rev@.len() + i == n,
                n == all.len(),
                pv == entries_view(all),
                forall|k: int| 0 <= k < rev@.len() ==> #[trigger] rev@[k] == all[n - 1 - k],
                entries_view(out@) == build_object(pv.take(i as int)),
            decreases rev.len(),
        {
            let (k, v) = rev.pop().unwrap();
            proof {
                lemma_entries_view(all);
                assert(pv[i as int] == (k@, v@));
                assert(pv.take(i + 1).drop_last() =~= pv.take(i as int));
            }
            entries_insert(&mut out, k, v);
            i = i + 1;
        }
        proof {
            assert(pv.take(n as int) =~= pv);
        }
        Json::Object(out)
    }
}

impl PartialEq for Number {
    fn eq(&self, other: &Number) -> (r: bool) {
        self.equals(other)
    }
}

impl vstd::std_specs::cmp::PartialEqSpecImpl for Number {
    open spec fn obeys_eq_spec() -> bool {
        true
    }

    open spec fn eq_spec(&self, other: &Number) -> bool {
        number_eq(self@, other@)
    }
}

impl PartialEq for Json {
    fn eq(&self, other: &Json) -> (r: bool) {
        self.equals(other)
    }
}

impl vstd::std_specs::cmp::PartialEqSpecImpl for Json {
    open spec fn obeys_eq_spec() -> bool {
        true
    }

    open spec fn eq_spec(&self, other: &Json) -> bool {
        json_eq(self@, other@)
    }
}

} // verus!
