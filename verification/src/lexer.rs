//! Characters, whitespace, literals, digits and names: the pieces the
//! grammars of both languages are made of.  A parser reads a sequence of
//! characters at a position and either stops at a later position with a
//! value, fails (and another alternative may be tried), or aborts the whole
//! parse.
use vstd::prelude::*;
use crate::json::chars_of;

verus! {

/// How a parser stops without a value.
pub enum Stop {
    /// No parse here; an alternative may be tried.
    Fail,
    /// The whole parse is given up.
    Abort,
}

/// Space, tab, carriage return and line feed.
pub open spec fn is_space(c: char) -> bool {
    c == ' ' || c == '\t' || c == '\r' || c == '\n'
}

/// The first position at or after `p` that does not hold whitespace.
pub open spec fn skip_ws(s: Seq<char>, p: int) -> int
    decreases s.len() - p,
{
    if 0 <= p < s.len() && is_space(s[p]) {
        skip_ws(s, p + 1)
    } else {
        p
    }
}

/// Skipping whitespace moves forward, within the text, over whitespace only.
pub proof fn lemma_skip_ws(s: Seq<char>, p: int)
    requires
        0 <= p <= s.len(),
    ensures
        p <= skip_ws(s, p) <= s.len(),
    decreases s.len() - p,
{
    if p < s.len() && is_space(s[p]) {
        lemma_skip_ws(s, p + 1);
    }
}

/// Skips whitespace.
pub fn skip_ws_exec(s: &Vec<char>, p: usize) -> (q: usize)
    requires
        p <= s.len(),
    ensures
        q as int == skip_ws(s@, p as int),
        p <= q <= s.len(),
{
    let mut q = p;
    while q < s.len() && (s[q] == ' ' || s[q] == '\t' || s[q] == '\r' || s[q] == '\n')
        invariant
            p <= q <= s.len(),
            skip_ws(s@, p as int) == skip_ws(s@, q as int),
        decreases s.len() - q,
    {
        q = q + 1;
    }
    q
}

/// `t` is written at position `p` of `s`.
pub open spec fn has_lit(s: Seq<char>, p: int, t: Seq<char>) -> bool {
    0 <= p && p + t.len() <= s.len() && s.subrange(p, p + t.len()) == t
}

/// Whether `t` is written at position `p`.
pub fn lit_at(s: &Vec<char>, p: usize, t: &str) -> (r: bool)
    requires
        p <= s.len(),
    ensures
        r == has_lit(s@, p as int, t@),
{
    let tv = chars_of(t);
    if tv.len() > s.len() - p {
        return false;
    }
    let mut i: usize = 0;
    while i < tv.len()
        invariant
            p + tv.len() <= s.len(),
            i <= tv.len(),
            tv@ == t@,
            forall|j: int| 0 <= j < i ==> s@[p + j] == tv@[j],
        decreases tv.len() - i,
    {
        if s[p + i] != tv[i] {
            assert(s@.subrange(p as int, p + tv.len())[i as int] != t@[i as int]);
            return false;
        }
        i = i + 1;
    }
    assert(s@.subrange(p as int, p + tv.len()) =~= t@);
    true
}

/// The character `c` is at position `p`.
pub open spec fn char_at(s: Seq<char>, p: int, c: char) -> bool {
    0 <= p < s.len() && s[p] == c
}

/// Whether character `c` is at position `p`.
pub fn char_at_exec(s: &Vec<char>, p: usize, c: char) -> (r: bool)
    ensures
        r == char_at(s@, p as int, c),
{
    p < s.len() && s[p] == c
}

/// A decimal digit `0` to `9`.
pub open spec fn is_digit(c: char) -> bool {
    '0' <= c <= '9'
}

/// The end of the run of digits that starts at `p`.
pub open spec fn digits_end(s: Seq<char>, p: int) -> int
    decreases s.len() - p,
{
    if 0 <= p < s.len() && is_digit(s[p]) {
        digits_end(s, p + 1)
    } else {
        p
    }
}

/// A run of digits lies within the text and holds digits only.
pub proof fn lemma_digits_end(s: Seq<char>, p: int)
    requires
        0 <= p <= s.len(),
    ensures
        p <= digits_end(s, p) <= s.len(),
        p < s.len() && is_digit(s[p]) ==> p < digits_end(s, p),
        forall|i: int| p <= i < digits_end(s, p) ==> is_digit(#[trigger] s[i]),
    decreases s.len() - p,
{
    if p < s.len() && is_digit(s[p]) {
        lemma_digits_end(s, p + 1);
    }
}

/// The end of the run of digits that starts at `p`.
pub fn digits_end_exec(s: &Vec<char>, p: usize) -> (q: usize)
    requires
        p <= s.len(),
    ensures
        q as int == digits_end(s@, p as int),
        p <= q <= s.len(),
{
    let mut q = p;
    while q < s.len() && '0' <= s[q] && s[q] <= '9'
        invariant
            p <= q <= s.len(),
            digits_end(s@, p as int) == digits_end(s@, q as int),
        decreases s.len() - q,
    {
        q = q + 1;
    }
    q
}

/// Whether `c` has the Unicode `Alphabetic` property, as the standard
/// library's `char::is_alphabetic` decides it.
pub uninterp spec fn unicode_alphabetic(c: char) -> bool;

/// Tests a character for the Unicode `Alphabetic` property with
/// `char::is_alphabetic`; the result is named `unicode_alphabetic`, whose
/// tables the standard library holds.
#[verifier::external_body]
pub(crate) fn is_alphabetic(c: char) -> (r: bool)
    ensures
        r == unicode_alphabetic(c),
{
    c.is_alphabetic()
}

/// A letter or a decimal digit.
pub open spec fn is_alphanumeric(c: char) -> bool {
    unicode_alphabetic(c) || is_digit(c)
}

/// The end of the run of letters and digits that starts at `p`.
pub open spec fn alnum_end(s: Seq<char>, p: int) -> int
    decreases s.len() - p,
{
    if 0 <= p < s.len() && is_alphanumeric(s[p]) {
        alnum_end(s, p + 1)
    } else {
        p
    }
}

/// A run of letters and digits lies within the text.
pub proof fn lemma_alnum_end(s: Seq<char>, p: int)
    requires
        0 <= p <= s.len(),
    ensures
        p <= alnum_end(s, p) <= s.len(),
    decreases s.len() - p,
{
    if p < s.len() && is_alphanumeric(s[p]) {
        lemma_alnum_end(s, p + 1);
    }
}

/// A name: a letter, then letters and digits.
pub open spec fn ident(s: Seq<char>, p: int) -> Option<(int, Seq<char>)> {
    if 0 <= p < s.len() && unicode_alphabetic(s[p]) {
        Some((alnum_end(s, p + 1), s.subrange(p, alnum_end(s, p + 1))))
    } else {
        None
    }
}

/// Appends a character to a string with `String::push`.
#[verifier::external_body]
pub(crate) fn push_char(s: &mut String, c: char)
    ensures
        final(s)@ == old(s)@.push(c),
{
    s.push(c)
}

/// The string of the characters from `p` to `q`.
pub fn string_of(s: &Vec<char>, p: usize, q: usize) -> (r: String)
    requires
        p <= q <= s.len(),
    ensures
        r@ == s@.subrange(p as int, q as int),
{
    let mut r = String::new();
    let mut i = p;
    while i < q
        invariant
            p <= i <= q <= s.len(),
            r@ == s@.subrange(p as int, i as int),
        decreases q - i,
    {
        push_char(&mut r, s[i]);
        i = i + 1;
        assert(r@ =~= s@.subrange(p as int, i as int));
    }
    r
}

/// Reads a name.
pub fn ident_exec(s: &Vec<char>, p: usize) -> (r: Option<(usize, String)>)
    requires
        p <= s.len(),
    ensures
        match r {
            Some((q, name)) => ident(s@, p as int) == Some((q as int, name@)) && q <= s.len(),
            None => ident(s@, p as int) is None,
        },
{
    if p < s.len() && is_alphabetic(s[p]) {
        let mut q = p + 1;
        while q < s.len() && (is_alphabetic(s[q]) || ('0' <= s[q] && s[q] <= '9'))
            invariant
                p < q <= s.len(),
                alnum_end(s@, p + 1) == alnum_end(s@, q as int),
            decreases s.len() - q,
        {
            q = q + 1;
        }
        let name = string_of(s, p, q);
        Some((q, name))
    } else {
        None
    }
}

/// The number written by decimal digits.
pub open spec fn digits_value(d: Seq<char>) -> nat
    decreases d.len(),
{
    if d.len() == 0 {
        0
    } else {
        digits_value(d.drop_last()) * 10 + (d.last() as nat - '0' as nat) as nat
    }
}

/// An array position written in digits: fails without digits, and gives up
/// the whole parse when the number does not fit a `usize`.
pub open spec fn index_lit(s: Seq<char>, p: int) -> Result<(int, nat), Stop> {
    let d = digits_end(s, p);
    if d == p {
        Err(Stop::Fail)
    } else if digits_value(s.subrange(p, d)) > usize::MAX {
        Err(Stop::Abort)
    } else {
        Ok((d, digits_value(s.subrange(p, d))))
    }
}

/// Reads an array position written in digits.
pub fn index_exec(s: &Vec<char>, p: usize) -> (r: Result<(usize, usize), Stop>)
    requires
        p <= s.len(),
    ensures
        match r {
            Ok((q, v)) => index_lit(s@, p as int) == Ok::<(int, nat), Stop>((q as int, v as nat))
                && q <= s.len(),
            Err(e) => index_lit(s@, p as int) == Err::<(int, nat), Stop>(e),
        },
{
    let d = digits_end_exec(s, p);
    proof {
        lemma_digits_end(s@, p as int);
    }
    if d == p {
        return Err(Stop::Fail);
    }
    let ghost ds = s@.subrange(p as int, d as int);
    let mut v: usize = 0;
    let mut i = p;
    let mut over = false;
    while i < d
        invariant
            p <= i <= d <= s.len(),
            ds == s@.subrange(p as int, d as int),
            forall|j: int| p <= j < d ==> is_digit(#[trigger] s@[j]),
            !over ==> v as nat == digits_value(ds.take(i - p)),
            over ==> digits_value(ds.take(i - p)) > usize::MAX,
        decreases d - i,
    {
        assert(ds.take(i + 1 - p).drop_last() =~= ds.take(i - p));
        assert(ds.take(i + 1 - p).last() == s@[i as int]);
        assert(digits_value(ds.take(i + 1 - p)) == digits_value(ds.take(i - p)) * 10 + (
        s@[i as int] as nat - '0' as nat) as nat);
        let digit = (s[i] as u32 - '0' as u32) as usize;
        assert(is_digit(s@[i as int]));
        if !over {
            match v.checked_mul(10) {
                Some(v10) => match v10.checked_add(digit) {
                    Some(w) => {
                        v = w;
                    },
                    None => {
                        over = true;
                    },
                },
                None => {
                    over = true;
                },
            }
        }
        i = i + 1;
    }
    assert(ds.take(d - p) =~= ds);
    if over {
        Err(Stop::Abort)
    } else {
        Ok((d, v))
    }
}

/// After an optional `+` or `-`.
pub open spec fn sign_end(s: Seq<char>, p: int) -> int {
    if char_at(s, p, '+') || char_at(s, p, '-') {
        p + 1
    } else {
        p
    }
}

/// The end of a decimal number written at `p`: an optional sign, then
/// digits with an optional `.` and optional digits after it, or a `.` and
/// digits; then optionally `e` or `E`, an optional sign and digits.
pub open spec fn float_end(s: Seq<char>, p: int) -> Option<int> {
    let p1 = sign_end(s, p);
    let m = if 0 <= p1 < s.len() && is_digit(s[p1]) {
        let d = digits_end(s, p1);
        if char_at(s, d, '.') {
            Some(digits_end(s, d + 1))
        } else {
            Some(d)
        }
    } else if char_at(s, p1, '.') && 0 <= p1 + 1 < s.len() && is_digit(s[p1 + 1]) {
        Some(digits_end(s, p1 + 1))
    } else {
        None
    };
    match m {
        None => None,
        Some(m) => if char_at(s, m, 'e') || char_at(s, m, 'E') {
            let e2 = sign_end(s, m + 1);
            if 0 <= e2 < s.len() && is_digit(s[e2]) {
                Some(digits_end(s, e2))
            } else {
                Some(m)
            }
        } else {
            Some(m)
        },
    }
}

/// A number literal lies within the text.
pub proof fn lemma_float_end(s: Seq<char>, p: int)
    requires
        0 <= p <= s.len(),
    ensures
        float_end(s, p) matches Some(q) ==> p < q <= s.len(),
{
    let p1 = sign_end(s, p);
    lemma_digits_end(s, p1);
    let d = digits_end(s, p1);
    if 0 <= d + 1 <= s.len() {
        lemma_digits_end(s, d + 1);
    }
    if 0 <= p1 + 1 <= s.len() {
        lemma_digits_end(s, p1 + 1);
    }
    let m = if 0 <= p1 < s.len() && is_digit(s[p1]) {
        if char_at(s, d, '.') {
            digits_end(s, d + 1)
        } else {
            d
        }
    } else {
        digits_end(s, p1 + 1)
    };
    if 0 <= m + 1 <= s.len() {
        let e2 = sign_end(s, m + 1);
        if 0 <= e2 <= s.len() {
            lemma_digits_end(s, e2);
        }
    }
}

fn sign_end_exec(s: &Vec<char>, p: usize) -> (q: usize)
    requires
        p <= s.len(),
    ensures
        q as int == sign_end(s@, p as int),
        q <= s.len(),
{
    if char_at_exec(s, p, '+') || char_at_exec(s, p, '-') {
        p + 1
    } else {
        p
    }
}

/// Finds the end of a decimal number.
pub fn float_end_exec(s: &Vec<char>, p: usize) -> (r: Option<usize>)
    requires
        p <= s.len(),
    ensures
        match r {
            Some(q) => float_end(s@, p as int) == Some(q as int),
            None => float_end(s@, p as int) is None,
        },
{
    let p1 = sign_end_exec(s, p);
    let m = if p1 < s.len() && '0' <= s[p1] && s[p1] <= '9' {
        let d = digits_end_exec(s, p1);
        if char_at_exec(s, d, '.') {
            digits_end_exec(s, d + 1)
        } else {
            d
        }
    } else if char_at_exec(s, p1, '.') && p1 + 1 < s.len() && '0' <= s[p1 + 1] && s[p1 + 1] <= '9' {
        digits_end_exec(s, p1 + 1)
    } else {
        return None;
    };
    if char_at_exec(s, m, 'e') || char_at_exec(s, m, 'E') {
        let e2 = sign_end_exec(s, m + 1);
        if e2 < s.len() && '0' <= s[e2] && s[e2] <= '9' {
            Some(digits_end_exec(s, e2))
        } else {
            Some(m)
        }
    } else {
        Some(m)
    }
}

/// The text of a string literal from position `i` on, with `\n` and
/// `\\` read as a line feed and a backslash, added to `acc`; it ends before
/// a double quote, a line feed or the end of the input.  Any other escape
/// fails.
pub open spec fn escaped(s: Seq<char>, i: int, acc: Seq<char>) -> Result<(int, Seq<char>), Stop>
    decreases s.len() - i,
{
    if !(0 <= i < s.len()) {
        Ok((i, acc))
    } else if s[i] != '\\' && s[i] != '"' && s[i] != '\n' {
        escaped(s, i + 1, acc.push(s[i]))
    } else if s[i] == '\\' {
        if i + 1 >= s.len() {
            Err(Stop::Fail)
        } else if s[i + 1] == 'n' {
            escaped(s, i + 2, acc.push('\n'))
        } else if s[i + 1] == '\\' {
            escaped(s, i + 2, acc.push('\\'))
        } else {
            Err(Stop::Fail)
        }
    } else {
        Ok((i, acc))
    }
}

/// A string literal between double quotes.
pub open spec fn string_lit(s: Seq<char>, p: int) -> Result<(int, Seq<char>), Stop> {
    if char_at(s, p, '"') {
        match escaped(s, p + 1, Seq::empty()) {
            Ok((e, c)) => if char_at(s, e, '"') {
                Ok((e + 1, c))
            } else {
                Err(Stop::Fail)
            },
            Err(x) => Err(x),
        }
    } else {
        Err(Stop::Fail)
    }
}

/// Reads a string literal.
pub fn string_lit_exec(s: &Vec<char>, p: usize) -> (r: Result<(usize, String), Stop>)
    requires
        p <= s.len(),
    ensures
        match r {
            Ok((q, t)) => string_lit(s@, p as int) == Ok::<(int, Seq<char>), Stop>((q as int, t@))
                && p < q <= s.len(),
            Err(e) => string_lit(s@, p as int) == Err::<(int, Seq<char>), Stop>(e),
        },
{
    if !char_at_exec(s, p, '"') {
        return Err(Stop::Fail);
    }
    let mut i = p + 1;
    let mut acc = String::new();
    while i < s.len() && s[i] != '"' && s[i] != '\n'
        invariant
            p < i <= s.len(),
            escaped(s@, p + 1, Seq::empty()) == escaped(s@, i as int, acc@),
        decreases s.len() - i,
    {
        if s[i] == '\\' {
            if i + 1 >= s.len() {
                return Err(Stop::Fail);
            } else if s[i + 1] == 'n' {
                push_char(&mut acc, '\n');
                i = i + 2;
            } else if s[i + 1] == '\\' {
                push_char(&mut acc, '\\');
                i = i + 2;
            } else {
                return Err(Stop::Fail);
            }
        } else {
            push_char(&mut acc, s[i]);
            i = i + 1;
        }
    }
    if char_at_exec(s, i, '"') {
        Ok((i + 1, acc))
    } else {
        Err(Stop::Fail)
    }
}

} // verus!
