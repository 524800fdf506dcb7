//! Numeric literals: digit runs, their values, and the shapes of integer,
//! rational, float and complex lexemes.

use vstd::prelude::*;
use crate::lex::{
    is_digit, run_end, scan_run, ByteClass, DIGIT_0, DIGIT_9, DOT, LOWER_A, LOWER_B, LOWER_E,
    LOWER_F, LOWER_O, LOWER_X, MINUS, PLUS, SLASH, UNDERSCORE, UPPER_A, UPPER_B, UPPER_E, UPPER_F,
    UPPER_O, UPPER_X,
};

verus! {

/// Largest magnitude of a negative signed 64-bit integer.
pub const MAX_MAGNITUDE: u64 = 0x8000_0000_0000_0000;

/// The value of a digit in bases up to sixteen; 16 for any other byte.
pub open spec fn digit_value(b: u8) -> int {
    if is_digit(b) {
        b - DIGIT_0
    } else if LOWER_A <= b <= LOWER_F {
        b - LOWER_A + 10
    } else if UPPER_A <= b <= UPPER_F {
        b - UPPER_A + 10
    } else {
        16
    }
}

/// `[a, b)` is a digit run in `base`: not empty, it starts and ends with a
/// digit, and holds only digits and `_` separators.
pub open spec fn digit_run(s: Seq<u8>, a: int, b: int, base: int) -> bool {
    &&& 0 <= a < b <= s.len()
    &&& digit_value(s[a]) < base
    &&& digit_value(s[b - 1]) < base
    &&& forall|k: int| a <= k < b ==> digit_value(#[trigger] s[k]) < base || s[k] == UNDERSCORE
}

/// The number that the digits of `[a, b)` spell in `base`; separators are
/// skipped.
pub open spec fn run_value(s: Seq<u8>, a: int, b: int, base: int) -> int
    decreases b - a,
{
    if b <= a || b > s.len() || a < 0 {
        0
    } else if s[b - 1] == UNDERSCORE {
        run_value(s, a, b - 1, base)
    } else {
        run_value(s, a, b - 1, base) * base + digit_value(s[b - 1])
    }
}

/// Computes the value of a digit; 16 for any other byte.
pub fn byte_digit_value(b: u8) -> (v: u8)
    ensures
        v == digit_value(b),
{
    if DIGIT_0 <= b && b <= DIGIT_9 {
        b - DIGIT_0
    } else if LOWER_A <= b && b <= LOWER_F {
        b - LOWER_A + 10
    } else if UPPER_A <= b && b <= UPPER_F {
        b - UPPER_A + 10
    } else {
        16
    }
}

/// Decides whether `[a, b)` is a digit run in `base`.
pub fn is_digit_run(input: &[u8], a: usize, b: usize, base: u8) -> (r: bool)
    requires
        a <= b <= input@.len(),
        2 <= base <= 16,
    ensures
        r == digit_run(input@, a as int, b as int, base as int),
{
    if a >= b {
        return false;
    }
    if byte_digit_value(input[a]) >= base || byte_digit_value(input[b - 1]) >= base {
        return false;
    }
    let mut k: usize = a;
    while k < b
        invariant
            a <= k <= b <= input@.len(),
            forall|j: int|
                a <= j < k ==> digit_value(#[trigger] input@[j]) < base || input@[j]
                    == UNDERSCORE,
        decreases b - k,
    {
        let c = input[k];
        if byte_digit_value(c) >= base && c != UNDERSCORE {
            return false;
        }
        k = k + 1;
    }
    true
}

/// Computes the value of a digit run, or `None` when it exceeds `limit`.
pub fn digits_value(input: &[u8], a: usize, b: usize, base: u8, limit: u64) -> (r: Option<u64>)
    requires
        digit_run(input@, a as int, b as int, base as int),
        2 <= base <= 16,
    ensures
        r is Some <==> run_value(input@, a as int, b as int, base as int) <= limit,
        r matches Some(v) ==> v == run_value(input@, a as int, b as int, base as int),
{
    let mut acc: u64 = 0;
    let mut over: bool = false;
    let mut k: usize = a;
    assert(run_value(input@, a as int, a as int, base as int) == 0);
    while k < b
        invariant
            a <= k <= b <= input@.len(),
            2 <= base <= 16,
            digit_run(input@, a as int, b as int, base as int),
            !over ==> acc == run_value(input@, a as int, k as int, base as int) && acc <= limit,
            over ==> run_value(input@, a as int, k as int, base as int) > limit,
            run_value(input@, a as int, k as int, base as int) >= 0,
        decreases b - k,
    {
        let c = input[k];
        let ghost before = run_value(input@, a as int, k as int, base as int);
        if c != UNDERSCORE {
            let d = byte_digit_value(c);
            assert(before * base + d >= before) by (nonlinear_arith)
                requires
                    before >= 0,
                    base >= 2,
                    d >= 0,
            ;
            if !over {
                assert(acc * base <= 0xffff_ffff_ffff_ffff * 16) by (nonlinear_arith)
                    requires
                        0 <= acc <= 0xffff_ffff_ffff_ffff,
                        0 <= base <= 16,
                ;
                let wide: u128 = (acc as u128) * (base as u128) + (d as u128);
                if wide > limit as u128 {
                    over = true;
                } else {
                    acc = wide as u64;
                }
            }
        }
        k = k + 1;
    }
    if over {
        None
    } else {
        Some(acc)
    }
}

/// Whether a byte equal to `b` occurs in `[i, t)`.
pub open spec fn has_byte(s: Seq<u8>, i: int, t: int, b: u8) -> bool {
    exists|k: int| i <= k < t && 0 <= k < s.len() && #[trigger] s[k] == b
}

/// Decides whether a byte occurs in `[i, t)`.
pub fn contains_byte(input: &[u8], i: usize, t: usize, b: u8) -> (r: bool)
    requires
        i <= t <= input@.len(),
    ensures
        r == has_byte(input@, i as int, t as int, b),
{
    let mut k: usize = i;
    while k < t
        invariant
            i <= k <= t <= input@.len(),
            forall|j: int| i <= j < k ==> #[trigger] input@[j] != b,
        decreases t - k,
    {
        if input[k] == b {
            return true;
        }
        k = k + 1;
    }
    false
}

/// Offset of the first digit: one past a leading `-`, if there is one.
pub open spec fn after_sign(s: Seq<u8>, i: int, t: int) -> int {
    if 0 <= i < t && i < s.len() && s[i] == MINUS {
        i + 1
    } else {
        i
    }
}

/// The token starts like a number: a digit, or `-` and a digit.
pub open spec fn starts_number(s: Seq<u8>, i: int, t: int) -> bool {
    let a = after_sign(s, i, t);
    0 <= a < t && a < s.len() && is_digit(s[a])
}

/// Base announced by a radix letter: `x` 16, `o` 8, `b` 2; 0 for any other
/// byte.
pub open spec fn radix_of(b: u8) -> int {
    if b == LOWER_X || b == UPPER_X {
        16
    } else if b == LOWER_O || b == UPPER_O {
        8
    } else if b == LOWER_B || b == UPPER_B {
        2
    } else {
        0
    }
}

/// The token starts with `0x`, `0o` or `0b`.
pub open spec fn has_radix_prefix(s: Seq<u8>, i: int, t: int) -> bool {
    0 <= i && i + 2 <= t <= s.len() && s[i] == DIGIT_0 && radix_of(s[i + 1]) != 0
}

/// An exponent `e`/`E`, an optional sign and a digit run fill `[f, t)`.
pub open spec fn exponent_ok(s: Seq<u8>, f: int, t: int) -> bool {
    &&& 0 <= f < t <= s.len()
    &&& (s[f] == LOWER_E || s[f] == UPPER_E)
    &&& digit_run(
        s,
        if f + 1 < t && (s[f + 1] == PLUS || s[f + 1] == MINUS) {
            f + 2
        } else {
            f + 1
        },
        t,
        10,
    )
}

/// `[i, t)` is a float literal: `-?D.D`, `-?D.DeX` or `-?DeX`, where `D` is
/// a digit run and `X` a signed digit run.
pub open spec fn float_ok(s: Seq<u8>, i: int, t: int) -> bool {
    let a = after_sign(s, i, t);
    let m = run_end(s, a, t, ByteClass::Digits);
    &&& 0 <= i <= t <= s.len()
    &&& digit_run(s, a, m, 10)
    &&& m < t
    &&& if s[m] == DOT {
        let f = run_end(s, m + 1, t, ByteClass::Digits);
        digit_run(s, m + 1, f, 10) && (f == t || exponent_ok(s, f, t))
    } else {
        exponent_ok(s, m, t)
    }
}

/// End of the decimal number (`D` or `D.D`) that starts at `a`, or `a` when
/// none starts there.
pub open spec fn decimal_end(s: Seq<u8>, a: int, e: int) -> int {
    let m = run_end(s, a, e, ByteClass::Digits);
    if !digit_run(s, a, m, 10) {
        a
    } else if m < e && s[m] == DOT {
        let f = run_end(s, m + 1, e, ByteClass::Digits);
        if digit_run(s, m + 1, f, 10) {
            f
        } else {
            m
        }
    } else {
        m
    }
}

/// Where the imaginary part of the complex literal `[i, t)` starts: `i`
/// when there is no real part, the sign between the parts otherwise, and -1
/// when `[i, t)` is no complex literal. The literal's last byte is its `i`.
pub open spec fn complex_split(s: Seq<u8>, i: int, t: int) -> int {
    let a = after_sign(s, i, t);
    let d = decimal_end(s, a, t - 1);
    if !(0 <= i < t <= s.len()) || d <= a {
        -1
    } else if d == t - 1 {
        i
    } else if (s[d] == PLUS || s[d] == MINUS) && decimal_end(s, d + 1, t - 1) == t - 1 && d + 1 < t
        - 1 {
        d
    } else {
        -1
    }
}

/// Where the `/` of the rational literal `[i, t)` stands, or -1 when
/// `[i, t)` is no rational literal. The literal's last byte is its `r`.
pub open spec fn rational_split(s: Seq<u8>, i: int, t: int) -> int {
    let a = after_sign(s, i, t);
    let m = run_end(s, a, t, ByteClass::Digits);
    if 0 <= i < t <= s.len() && digit_run(s, a, m, 10) && m < t && s[m] == SLASH && digit_run(
        s,
        m + 1,
        t - 1,
        10,
    ) {
        m
    } else {
        -1
    }
}

/// Skips a leading `-`.
pub fn skip_sign(input: &[u8], i: usize, t: usize) -> (a: usize)
    requires
        i <= t <= input@.len(),
    ensures
        a == after_sign(input@, i as int, t as int),
        i <= a <= t,
{
    if i < t && input[i] == MINUS {
        i + 1
    } else {
        i
    }
}

/// Computes the base that a radix letter announces; 0 for any other byte.
pub fn byte_radix(b: u8) -> (r: u8)
    ensures
        r == radix_of(b),
{
    if b == LOWER_X || b == UPPER_X {
        16
    } else if b == LOWER_O || b == UPPER_O {
        8
    } else if b == LOWER_B || b == UPPER_B {
        2
    } else {
        0
    }
}

/// Decides whether an exponent fills `[f, t)`.
pub fn check_exponent(input: &[u8], f: usize, t: usize) -> (r: bool)
    requires
        f <= t <= input@.len(),
    ensures
        r == exponent_ok(input@, f as int, t as int),
{
    if f >= t {
        return false;
    }
    let c = input[f];
    if c != LOWER_E && c != UPPER_E {
        return false;
    }
    let x = if t - f > 1 && (input[f + 1] == PLUS || input[f + 1] == MINUS) {
        f + 2
    } else {
        f + 1
    };
    is_digit_run(input, x, t, 10)
}

/// Decides whether `[i, t)` is a float literal.
pub fn check_float(input: &[u8], i: usize, t: usize) -> (r: bool)
    requires
        i <= t <= input@.len(),
    ensures
        r == float_ok(input@, i as int, t as int),
{
    let a = skip_sign(input, i, t);
    let m = scan_run(input, a, t, ByteClass::Digits);
    if !is_digit_run(input, a, m, 10) || m >= t {
        return false;
    }
    if input[m] == DOT {
        let f = scan_run(input, m + 1, t, ByteClass::Digits);
        is_digit_run(input, m + 1, f, 10) && (f == t || check_exponent(input, f, t))
    } else {
        check_exponent(input, m, t)
    }
}

/// Finds the end of the decimal number that starts at `a`.
pub fn scan_decimal(input: &[u8], a: usize, e: usize) -> (d: usize)
    requires
        a <= e <= input@.len(),
    ensures
        d == decimal_end(input@, a as int, e as int),
        a <= d <= e,
{
    let m = scan_run(input, a, e, ByteClass::Digits);
    if !is_digit_run(input, a, m, 10) {
        a
    } else if m < e && input[m] == DOT {
        let f = scan_run(input, m + 1, e, ByteClass::Digits);
        if is_digit_run(input, m + 1, f, 10) {
            f
        } else {
            m
        }
    } else {
        m
    }
}

/// Splits a complex literal; `None` when `[i, t)` is none.
pub fn split_complex(input: &[u8], i: usize, t: usize) -> (r: Option<usize>)
    requires
        i < t <= input@.len(),
    ensures
        r is None <==> complex_split(input@, i as int, t as int) == -1,
        r matches Some(d) ==> d == complex_split(input@, i as int, t as int) && i <= d < t,
{
    let a = skip_sign(input, i, t);
    if a > t - 1 {
        return None;
    }
    let d = scan_decimal(input, a, t - 1);
    if d <= a {
        None
    } else if d == t - 1 {
        Some(i)
    } else if (input[d] == PLUS || input[d] == MINUS) && d + 1 < t - 1 && scan_decimal(
        input,
        d + 1,
        t - 1,
    ) == t - 1 {
        Some(d)
    } else {
        None
    }
}

/// Splits a rational literal; `None` when `[i, t)` is none.
pub fn split_rational(input: &[u8], i: usize, t: usize) -> (r: Option<usize>)
    requires
        i < t <= input@.len(),
    ensures
        r is None <==> rational_split(input@, i as int, t as int) == -1,
        r matches Some(m) ==> m == rational_split(input@, i as int, t as int) && i <= m < t - 1,
{
    let a = skip_sign(input, i, t);
    let m = scan_run(input, a, t, ByteClass::Digits);
    if is_digit_run(input, a, m, 10) && m < t - 1 && input[m] == SLASH && is_digit_run(
        input,
        m + 1,
        t - 1,
        10,
    ) {
        Some(m)
    } else {
        None
    }
}

/// The signed 64-bit integer with the given sign and magnitude, when there
/// is one.
pub open spec fn signed(negative: bool, magnitude: int) -> Option<i64> {
    if negative {
        if magnitude <= MAX_MAGNITUDE {
            Some((-magnitude) as i64)
        } else {
            None
        }
    } else {
        if magnitude < MAX_MAGNITUDE {
            Some(magnitude as i64)
        } else {
            None
        }
    }
}

/// The signed integer that the digit run `[a, b)` spells in `base`, negated
/// when `negative`; `None` when it is outside the signed 64-bit range.
pub open spec fn integer_of(s: Seq<u8>, a: int, b: int, base: int, negative: bool) -> Option<i64> {
    signed(negative, run_value(s, a, b, base))
}

/// Converts a digit run to a signed 64-bit integer.
pub fn parse_integer(input: &[u8], a: usize, b: usize, base: u8, negative: bool) -> (r: Option<i64>)
    requires
        digit_run(input@, a as int, b as int, base as int),
        2 <= base <= 16,
    ensures
        r == integer_of(input@, a as int, b as int, base as int, negative),
{
    let limit: u64 = if negative {
        MAX_MAGNITUDE
    } else {
        MAX_MAGNITUDE - 1
    };
    match digits_value(input, a, b, base, limit) {
        None => None,
        Some(m) => {
            if negative {
                if m == MAX_MAGNITUDE {
                    Some(i64::MIN)
                } else {
                    Some(-(m as i64))
                }
            } else {
                Some(m as i64)
            }
        },
    }
}

} // verus!
