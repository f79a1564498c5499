use vstd::prelude::*;
use crate::model::{Scalar, TypedValue};

verus! {

broadcast use {
    vstd::seq::group_seq_axioms,
    vstd::std_specs::vec::group_vec_axioms,
};

pub open spec fn is_digit(c: char) -> bool {
    '0' <= c && c <= '9'
}

pub open spec fn all_digits(s: Seq<char>) -> bool {
    forall|i: int| 0 <= i < s.len() ==> is_digit(#[trigger] s[i])
}

/// The value of a string of decimal digits, most significant first.
pub open spec fn digits_value(s: Seq<char>) -> int
    decreases s.len(),
{
    if s.len() == 0 {
        0
    } else {
        digits_value(s.drop_last()) * 10 + (s.last() as u32 - '0' as u32)
    }
}

pub open spec fn has_sign(s: Seq<char>) -> bool {
    s.len() > 0 && (s[0] == '+' || s[0] == '-')
}

/// `s` without its leading sign, if it has one.
pub open spec fn unsigned_part(s: Seq<char>) -> Seq<char> {
    if has_sign(s) {
        s.drop_first()
    } else {
        s
    }
}

/// An optional sign, then one or more decimal digits.
pub open spec fn is_decimal_int(s: Seq<char>) -> bool {
    unsigned_part(s).len() > 0 && all_digits(unsigned_part(s))
}

/// The value of a text for which `is_decimal_int` holds.
pub open spec fn decimal_value(s: Seq<char>) -> int {
    if has_sign(s) && s[0] == '-' {
        -digits_value(unsigned_part(s))
    } else {
        digits_value(unsigned_part(s))
    }
}

/// A base-10 integer that fits in an `i64`.
pub open spec fn parses_as_i64(s: Seq<char>) -> bool {
    is_decimal_int(s) && i64::MIN <= decimal_value(s) <= i64::MAX
}

/// The first index at or after `i` that holds `a` or `b`, or `s.len()`.
pub open spec fn first_of(s: Seq<char>, i: int, a: char, b: char) -> int
    decreases s.len() - i,
{
    if i < 0 || i >= s.len() {
        s.len() as int
    } else if s[i] == a || s[i] == b {
        i
    } else {
        first_of(s, i + 1, a, b)
    }
}

/// `c` is the lower-case letter `w`, in either case.
pub open spec fn same_letter(c: char, w: char) -> bool {
    c == w || ('a' <= w && w <= 'z' && c as u32 == w as u32 - 32)
}

/// `s` spells the lower-case word `w`, ignoring ASCII case.
pub open spec fn spells(s: Seq<char>, w: Seq<char>) -> bool {
    s.len() == w.len() && forall|i: int| 0 <= i < s.len() ==> same_letter(#[trigger] s[i], w[i])
}

/// Digits with at most one `.` among them, and at least one digit.
pub open spec fn is_mantissa(m: Seq<char>) -> bool {
    let d = first_of(m, 0, '.', '.');
    if d == m.len() {
        m.len() > 0 && all_digits(m)
    } else {
        m.len() > 1 && all_digits(m.subrange(0, d)) && all_digits(m.subrange(d + 1, m.len() as int))
    }
}

/// A mantissa, then optionally `e` or `E` and a signed integer exponent.
pub open spec fn is_float_number(b: Seq<char>) -> bool {
    let e = first_of(b, 0, 'e', 'E');
    is_mantissa(b.subrange(0, e)) && (e == b.len() || is_decimal_int(
        b.subrange(e + 1, b.len() as int),
    ))
}

/// What reads as a floating-point number: an optional sign, then `inf`,
/// `infinity` or `nan` in any case, or a decimal number with an optional
/// exponent.
pub open spec fn is_float_text(s: Seq<char>) -> bool {
    let b = unsigned_part(s);
    spells(b, seq!['i', 'n', 'f']) || spells(b, seq!['i', 'n', 'f', 'i', 'n', 'i', 't', 'y'])
        || spells(b, seq!['n', 'a', 'n']) || is_float_number(b)
}

/// The scalar that a raw text reads as: an integer where it is a base-10
/// `i64`, else a float where it reads as one, else the text itself.
pub open spec fn infer_spec(s: Seq<char>) -> Scalar {
    if parses_as_i64(s) {
        Scalar::Int(decimal_value(s))
    } else if is_float_text(s) {
        Scalar::Float(s)
    } else {
        Scalar::Text(s)
    }
}

/// Relies on `i64::from_str_radix` with radix 10: it accepts an optional `+`
/// or `-` followed by one or more ASCII digits whose value fits in `i64`, and
/// returns that value.
#[verifier::external_body]
fn parse_i64(s: &str) -> (r: Option<i64>)
    ensures
        r is Some <==> parses_as_i64(s@),
        r is Some ==> r->0 as int == decimal_value(s@),
{
    i64::from_str_radix(s, 10).ok()
}

/// The characters of `s`.
fn chars_of(s: &str) -> (r: Vec<char>)
    ensures
        r@ == s@,
{
    let n = s.unicode_len();
    let mut v: Vec<char> = Vec::new();
    let mut i: usize = 0;
    while i < n
        invariant
            n == s@.len(),
            i <= n,
            v@ == s@.subrange(0, i as int),
        decreases n - i,
    {
        v.push(s.get_char(i));
        i = i + 1;
        assert(v@ =~= s@.subrange(0, i as int));
    }
    assert(s@.subrange(0, n as int) =~= s@);
    v
}

fn first_index(v: &Vec<char>, lo: usize, hi: usize, a: char, b: char) -> (r: usize)
    requires
        lo <= hi <= v@.len(),
    ensures
        r as int == lo + first_of(v@.subrange(lo as int, hi as int), 0, a, b),
        lo <= r <= hi,
{
    let ghost s = v@.subrange(lo as int, hi as int);
    let mut i: usize = lo;
    while i < hi
        invariant
            lo <= i <= hi <= v@.len(),
            s == v@.subrange(lo as int, hi as int),
            first_of(s, 0, a, b) == first_of(s, i - lo, a, b),
        decreases hi - i,
    {
        if v[i] == a || v[i] == b {
            return i;
        }
        i = i + 1;
    }
    i
}

fn digits_only(v: &Vec<char>, lo: usize, hi: usize) -> (r: bool)
    requires
        lo <= hi <= v@.len(),
    ensures
        r == all_digits(v@.subrange(lo as int, hi as int)),
{
    let mut i: usize = lo;
    while i < hi
        invariant
            lo <= i <= hi <= v@.len(),
            all_digits(v@.subrange(lo as int, i as int)),
        decreases hi - i,
    {
        if !('0' <= v[i] && v[i] <= '9') {
            assert(!is_digit(v@.subrange(lo as int, hi as int)[i - lo]));
            return false;
        }
        i = i + 1;
        assert forall|j: int| 0 <= j < i - lo implies is_digit(
            #[trigger] v@.subrange(lo as int, i as int)[j],
        ) by {
            if j < i - 1 - lo {
                assert(v@.subrange(lo as int, i - 1)[j] == v@.subrange(lo as int, i as int)[j]);
            }
        }
    }
    true
}

fn is_int_text(v: &Vec<char>, lo: usize, hi: usize) -> (r: bool)
    requires
        lo <= hi <= v@.len(),
    ensures
        r == is_decimal_int(v@.subrange(lo as int, hi as int)),
{
    let ghost s = v@.subrange(lo as int, hi as int);
    let start = if lo < hi && (v[lo] == '+' || v[lo] == '-') {
        lo + 1
    } else {
        lo
    };
    assert(unsigned_part(s) =~= v@.subrange(start as int, hi as int));
    start < hi && digits_only(v, start, hi)
}

fn spells_word(v: &Vec<char>, lo: usize, hi: usize, w: &str) -> (r: bool)
    requires
        lo <= hi <= v@.len(),
    ensures
        r == spells(v@.subrange(lo as int, hi as int), w@),
{
    let ghost s = v@.subrange(lo as int, hi as int);
    let n = w.unicode_len();
    if hi - lo != n {
        return false;
    }
    let mut i: usize = 0;
    while i < n
        invariant
            n == w@.len(),
            n == hi - lo,
            lo <= hi <= v@.len(),
            s == v@.subrange(lo as int, hi as int),
            i <= n,
            forall|j: int| 0 <= j < i ==> same_letter(#[trigger] s[j], w@[j]),
        decreases n - i,
    {
        let c = v[lo + i];
        let l = w.get_char(i);
        let same = c == l || ('a' <= l && l <= 'z' && c as u32 == l as u32 - 32);
        if !same {
            assert(!same_letter(s[i as int], w@[i as int]));
            return false;
        }
        i = i + 1;
    }
    true
}

fn is_float_chars(v: &Vec<char>) -> (r: bool)
    ensures
        r == is_float_text(v@),
{
    let n = v.len();
    let lo = if n > 0 && (v[0] == '+' || v[0] == '-') {
        1
    } else {
        0
    };
    let ghost b = v@.subrange(lo as int, n as int);
    assert(unsigned_part(v@) =~= b);
    proof {
        reveal_strlit("inf");
        reveal_strlit("infinity");
        reveal_strlit("nan");
    }
    if spells_word(v, lo, n, "inf") || spells_word(v, lo, n, "infinity") || spells_word(
        v,
        lo,
        n,
        "nan",
    ) {
        return true;
    }
    let e = first_index(v, lo, n, 'e', 'E');
    let ghost m = b.subrange(0, e - lo);
    assert(m =~= v@.subrange(lo as int, e as int));
    let d = first_index(v, lo, e, '.', '.');
    let mantissa = if d == e {
        e > lo && digits_only(v, lo, e)
    } else {
        proof {
            assert(m.subrange(0, d - lo) =~= v@.subrange(lo as int, d as int));
            assert(m.subrange(d - lo + 1, m.len() as int) =~= v@.subrange(d + 1, e as int));
        }
        e - lo > 1 && digits_only(v, lo, d) && digits_only(v, d + 1, e)
    };
    if !mantissa {
        return false;
    }
    if e == n {
        true
    } else {
        assert(b.subrange(e - lo + 1, b.len() as int) =~= v@.subrange(e + 1, n as int));
        is_int_text(v, e + 1, n)
    }
}

/// Reads a raw text as a typed scalar: a base-10 `i64` becomes an integer,
/// else a text that reads as a floating-point number becomes a float, else it
/// stays a string. Total and deterministic.
pub fn infer_scalar(s: &str) -> (r: TypedValue)
    ensures
        r@ == infer_spec(s@),
{
    match parse_i64(s) {
        Some(i) => TypedValue::Integer(i),
        None => {
            let v = chars_of(s);
            if is_float_chars(&v) {
                TypedValue::Float(String::from_str(s))
            } else {
                TypedValue::String(String::from_str(s))
            }
        },
    }
}

} // verus!
