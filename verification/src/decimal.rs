//! Doubles as whole numbers and as decimal text.

use vstd::arithmetic::div_mod::*;
use vstd::arithmetic::mul::*;
use vstd::arithmetic::power2::*;
use vstd::prelude::*;

use crate::double::Double;
use crate::rounding::{
    divide_half_even, half_even, lemma_half_even_cancel, lemma_magnitude_parts,
    lemma_small_quotient, power_of_two, scale, significand, units, HIDDEN_BIT, INFINITE,
};
use crate::text::{digit, digit_char, nat_text, unsigned};

verus! {

/// The whole number nearest to `n / d`; halfway between two, the larger.
pub open spec fn half_up(n: nat, d: nat) -> nat {
    (2 * n + d) / (2 * d)
}

/// `n`, but no more than fits in 64 bits.
pub open spec fn capped(n: nat) -> nat {
    if n <= u64::MAX {
        n
    } else {
        u64::MAX as nat
    }
}

/// The digits of `n` with a point before the last of them.
pub open spec fn tenths_text(n: nat) -> Seq<char> {
    nat_text(n / 10) + "."@ + seq![digit(n % 10)]
}

/// The digits of `n` with a point before the last two of them.
pub open spec fn hundredths_text(n: nat) -> Seq<char> {
    nat_text(n / 100) + "."@ + seq![digit((n % 100) / 10)] + seq![digit(n % 10)]
}

/// What a number that is not finite is called; nothing for the others.
pub open spec fn special_text(x: Double) -> Option<Seq<char>> {
    if x.nan() {
        Some("NaN"@)
    } else if x.infinite() {
        if x.negative() {
            Some("-inf"@)
        } else {
            Some("inf"@)
        }
    } else {
        None
    }
}

/// The minus sign that stands before a number with the sign bit.
pub open spec fn sign_text(x: Double) -> Seq<char> {
    if x.negative() {
        "-"@
    } else {
        ""@
    }
}

/// `x` with one decimal, rounded to nearest, ties to even.
pub open spec fn one_decimal_text(x: Double) -> Seq<char> {
    match special_text(x) {
        Some(t) => t,
        None => sign_text(x) + tenths_text(half_even(units(x.magnitude()) * 10, pow2(1074))),
    }
}

/// `x` with two decimals, rounded to nearest, ties to even.
pub open spec fn two_decimals_text(x: Double) -> Seq<char> {
    match special_text(x) {
        Some(t) => t,
        None => sign_text(x) + hundredths_text(half_even(units(x.magnitude()) * 100, pow2(1074))),
    }
}

/// Numerator and denominator share the power of two that the units carry.
proof fn lemma_shared_power(m: nat, e: nat, f: nat)
    ensures
        e <= 1074 ==> half_even((m * pow2(e)) * f, pow2(1074)) == half_even(
            m * f,
            pow2((1074 - e) as nat),
        ),
        e <= 1074 ==> (m * pow2(e)) / pow2(1074) == m / pow2((1074 - e) as nat),
        e >= 1074 ==> half_even((m * pow2(e)) * f, pow2(1074)) == (m * pow2((e - 1074) as nat)) * f,
        e >= 1074 ==> (m * pow2(e)) / pow2(1074) == m * pow2((e - 1074) as nat),
{
    lemma_pow2_pos(e);
    lemma_pow2_pos(1074);
    if e <= 1074 {
        let d = pow2((1074 - e) as nat);
        lemma_pow2_pos((1074 - e) as nat);
        lemma_pow2_adds((1074 - e) as nat, e);
        assert((m * pow2(e)) * f == (m * f) * pow2(e)) by (nonlinear_arith);
        lemma_half_even_cancel(m * f, d, pow2(e));
        lemma_half_even_cancel(m, d, pow2(e));
    }
    if e >= 1074 {
        let w = m * pow2((e - 1074) as nat);
        lemma_pow2_adds((e - 1074) as nat, 1074);
        assert(m * (pow2((e - 1074) as nat) * pow2(1074)) == w * pow2(1074)) by (nonlinear_arith)
            requires
                w == m * pow2((e - 1074) as nat),
        ;
        assert((w * pow2(1074)) * f == (w * f) * pow2(1074)) by (nonlinear_arith);
        crate::rounding::lemma_half_even_exact(w * f, pow2(1074));
        crate::rounding::lemma_half_even_exact(w, pow2(1074));
    }
}

/// `m * 2^k`, but no more than fits in 64 bits.
fn shift_capped(m: u64, k: u32) -> (r: u64)
    ensures
        r == capped(m as nat * pow2(k as nat)),
{
    let mut r: u64 = m;
    let mut i: u32 = 0;
    proof {
        lemma2_to64();
        assert(m as nat * pow2(0) == m) by (nonlinear_arith)
            requires
                pow2(0) == 1,
        ;
    }
    while i < k
        invariant
            i <= k,
            r == m as nat * pow2(i as nat),
        decreases k - i,
    {
        proof {
            lemma_pow2_unfold((i + 1) as nat);
            assert(m as nat * (2 * pow2(i as nat)) == 2 * (m as nat * pow2(i as nat)))
                by (nonlinear_arith);
            if i + 1 < k {
                lemma_pow2_strictly_increases((i + 1) as nat, k as nat);
            }
            assert(m as nat * pow2((i + 1) as nat) <= m as nat * pow2(k as nat))
                by (nonlinear_arith)
                requires
                    pow2((i + 1) as nat) <= pow2(k as nat),
            ;
        }
        if r > 0x7fff_ffff_ffff_ffff {
            return u64::MAX;
        }
        r = r * 2;
        i += 1;
    }
    r
}

/// A finite magnitude without its fraction, capped at 64 bits.
pub fn whole_part(x: Double) -> (r: u64)
    requires
        x.finite(),
    ensures
        r == capped(units(x.magnitude()) / pow2(1074)),
{
    let (m, e) = Double::parts(x.get_magnitude());
    proof {
        lemma_shared_power(m as nat, e as nat, 1);
        lemma_magnitude_parts(x.magnitude());
    }
    if e >= 1074 {
        return shift_capped(m, (e - 1074) as u32);
    }
    let k: u32 = (1074 - e) as u32;
    proof {
        lemma_pow2_pos(k as nat);
        lemma_fundamental_div_mod(m as int, pow2(k as nat) as int);
        assert(m as nat / pow2(k as nat) <= m) by (nonlinear_arith)
            requires
                m == pow2(k as nat) * (m as nat / pow2(k as nat)) + m as nat % pow2(k as nat),
                0 <= m as nat % pow2(k as nat),
                pow2(k as nat) >= 1,
                0 <= m as nat / pow2(k as nat),
        ;
    }
    if k > 100 {
        proof {
            lemma_pow2_strictly_increases(64, k as nat);
            lemma2_to64();
            lemma_fundamental_div_mod_converse(m as int, pow2(k as nat) as int, 0, m as int);
        }
        return 0;
    }
    (m as u128 / power_of_two(k)) as u64
}

/// The whole number nearest to a finite magnitude, halves rounded up,
/// capped at 64 bits.
pub fn nearest_whole(x: Double) -> (r: u64)
    requires
        x.finite(),
    ensures
        r == capped(half_up(units(x.magnitude()), pow2(1074))),
{
    let (m, e) = Double::parts(x.get_magnitude());
    proof {
        lemma_magnitude_parts(x.magnitude());
        lemma_half_up_parts(m as nat, e as nat);
    }
    if e >= 1074 {
        return shift_capped(m, (e - 1074) as u32);
    }
    let k: u32 = (1074 - e) as u32;
    proof {
        lemma_pow2_pos(k as nat);
    }
    if k > 100 {
        proof {
            lemma_pow2_strictly_increases(64, k as nat);
            lemma2_to64();
            lemma_fundamental_div_mod_converse(
                2 * m + pow2(k as nat),
                2 * pow2(k as nat) as int,
                0,
                2 * m + pow2(k as nat),
            );
        }
        return 0;
    }
    proof {
        lemma_pow2_strictly_increases(k as nat, 101);
        lemma_pow2_adds(64, 37);
        lemma2_to64();
        lemma2_to64_rest();
        let n = 2 * m as int + pow2(k as nat);
        let d = 2 * pow2(k as nat) as int;
        lemma_fundamental_div_mod(n, d);
        assert(n / d <= m + 1) by (nonlinear_arith)
            requires
                n == d * (n / d) + n % d,
                0 <= n % d,
                n == 2 * m + pow2(k as nat),
                d == 2 * pow2(k as nat),
                pow2(k as nat) >= 1,
                m >= 0,
        ;
    }
    let d: u128 = power_of_two(k);
    ((2 * m as u128 + d) / (2 * d)) as u64
}

proof fn lemma_half_up_parts(m: nat, e: nat)
    ensures
        e <= 1074 ==> half_up(m * pow2(e), pow2(1074)) == half_up(m, pow2((1074 - e) as nat)),
        e >= 1074 ==> half_up(m * pow2(e), pow2(1074)) == m * pow2((e - 1074) as nat),
{
    lemma_pow2_pos(e);
    lemma_pow2_pos(1074);
    if e <= 1074 {
        let c = pow2(e);
        let d = pow2((1074 - e) as nat);
        lemma_pow2_pos((1074 - e) as nat);
        lemma_pow2_adds((1074 - e) as nat, e);
        assert(2 * (m * c) + d * c == (2 * m + d) * c) by (nonlinear_arith);
        assert(2 * (d * c) == (2 * d) * c) by (nonlinear_arith);
        lemma_half_even_cancel(2 * m + d, 2 * d, c);
    }
    if e >= 1074 {
        let c = pow2(1074);
        let w = m * pow2((e - 1074) as nat);
        lemma_pow2_adds((e - 1074) as nat, 1074);
        assert(m * (pow2((e - 1074) as nat) * c) == w * c) by (nonlinear_arith)
            requires
                w == m * pow2((e - 1074) as nat),
        ;
        assert(2 * (w * c) + c == w * (2 * c) + c) by (nonlinear_arith);
        lemma_fundamental_div_mod_converse(
            (2 * (w * c) + c) as int,
            (2 * c) as int,
            w as int,
            c as int,
        );
    }
}

/// The number whose decimal digits, lowest first, are `s`.
pub open spec fn digits_value(s: Seq<u64>) -> nat
    decreases s.len(),
{
    if s.len() == 0 {
        0
    } else {
        s[0] as nat + 10 * digits_value(s.drop_first())
    }
}

/// `10^n`.
pub open spec fn tens(n: nat) -> nat
    decreases n,
{
    if n == 0 {
        1
    } else {
        10 * tens((n - 1) as nat)
    }
}

proof fn lemma_digits_push(s: Seq<u64>, d: u64)
    ensures
        digits_value(s.push(d)) == digits_value(s) + d * tens(s.len()),
    decreases s.len(),
{
    reveal_with_fuel(digits_value, 2);
    if s.len() == 0 {
        assert(s.push(d).drop_first() =~= s);
        assert(tens(0) == 1);
    } else {
        lemma_digits_push(s.drop_first(), d);
        assert(s.push(d).drop_first() =~= s.drop_first().push(d));
        assert(10 * (d * tens((s.len() - 1) as nat)) == d * (10 * tens((s.len() - 1) as nat)))
            by (nonlinear_arith);
    }
}

/// Digits, lowest first, with no zero at the top.
spec fn plain_digits(s: Seq<u64>) -> bool {
    &&& s.len() > 0
    &&& s.last() != 0
    &&& forall|i: int| 0 <= i < s.len() ==> #[trigger] s[i] < 10
}

/// The digits of twice the number.
fn doubled(s: &Vec<u64>) -> (out: Vec<u64>)
    requires
        plain_digits(s@),
    ensures
        plain_digits(out@),
        digits_value(out@) == 2 * digits_value(s@),
{
    let n: usize = s.len();
    let mut out: Vec<u64> = Vec::new();
    let mut carry: u64 = 0;
    let mut i: usize = 0;
    assert(s@.skip(0) =~= s@);
    assert(tens(0) == 1);
    while i < n
        invariant
            n == s@.len(),
            i <= n,
            carry <= 1,
            plain_digits(s@),
            out@.len() == i,
            forall|j: int| 0 <= j < i ==> #[trigger] out@[j] < 10,
            i == n ==> carry == 1 || out@.last() != 0,
            digits_value(out@) + tens(i as nat) * (carry + 2 * digits_value(s@.skip(i as int)))
                == 2 * digits_value(s@),
        decreases n - i,
    {
        let d: u64 = 2 * s[i] + carry;
        proof {
            lemma_digits_push(out@, d % 10);
            let rest = s@.skip(i as int);
            assert(rest.drop_first() =~= s@.skip(i + 1));
            assert(rest[0] == s@[i as int]);
            let t = tens(i as nat);
            let v = digits_value(s@.skip(i + 1));
            assert(d == 10 * (d / 10) + d % 10);
            assert(t * (carry + 2 * (s@[i as int] + 10 * v)) == (d % 10) * t + (10 * t) * (d / 10
                + 2 * v)) by (nonlinear_arith)
                requires
                    2 * s@[i as int] + carry == 10 * (d / 10) + d % 10,
            ;
            if i + 1 == n {
                assert(s@[i as int] == s@.last());
            }
        }
        out.push(d % 10);
        carry = d / 10;
        i += 1;
    }
    proof {
        assert(s@.skip(n as int) =~= Seq::<u64>::empty());
        assert(digits_value(Seq::<u64>::empty()) == 0);
        lemma_digits_push(out@, carry);
        assert(tens(n as nat) * (carry + 0) == carry * tens(n as nat)) by (nonlinear_arith);
        if carry == 0 {
            assert(carry * tens(n as nat) == 0) by (nonlinear_arith)
                requires
                    carry == 0,
            ;
        }
    }
    if carry > 0 {
        out.push(carry);
    }
    out
}

/// The digits of a positive number.
fn digits_of(m: u64) -> (out: Vec<u64>)
    requires
        m > 0,
    ensures
        plain_digits(out@),
        digits_value(out@) == m,
{
    let mut out: Vec<u64> = Vec::new();
    let mut rest: u64 = m;
    proof {
        assert(tens(0) == 1);
        assert(tens(0) * rest == rest) by (nonlinear_arith)
            requires
                tens(0) == 1,
        ;
    }
    while rest > 0
        invariant
            m > 0,
            forall|j: int| 0 <= j < out@.len() ==> #[trigger] out@[j] < 10,
            rest == 0 ==> plain_digits(out@),
            digits_value(out@) + tens(out@.len()) * rest == m,
        decreases rest,
    {
        proof {
            lemma_digits_push(out@, rest % 10);
            let t = tens(out@.len());
            assert(rest == 10 * (rest / 10) + rest % 10);
            assert(t * rest == (rest % 10) * t + (10 * t) * (rest / 10)) by (nonlinear_arith)
                requires
                    rest == 10 * (rest / 10) + rest % 10,
            ;
        }
        out.push(rest % 10);
        rest = rest / 10;
    }
    proof {
        assert(tens(out@.len()) * 0 == 0);
    }
    out
}

/// The digits written highest first.
spec fn digits_text(s: Seq<u64>) -> Seq<char>
    decreases s.len(),
{
    if s.len() == 0 {
        Seq::empty()
    } else {
        digits_text(s.drop_first()).push(digit(s[0] as nat))
    }
}

proof fn lemma_digits_text(s: Seq<u64>)
    requires
        plain_digits(s),
    ensures
        digits_text(s) == nat_text(digits_value(s)),
        digits_value(s) > 0,
    decreases s.len(),
{
    reveal_with_fuel(digits_value, 2);
    reveal_with_fuel(digits_text, 2);
    let rest = s.drop_first();
    if s.len() == 1 {
        assert(rest =~= Seq::<u64>::empty());
        assert(Seq::<char>::empty().push(digit(s[0] as nat)) =~= seq![digit(s[0] as nat)]);
    } else {
        assert(rest.last() == s.last());
        lemma_digits_text(rest);
        let v = digits_value(s);
        assert(s[0] < 10);
        assert(v / 10 == digits_value(rest) && v % 10 == s[0]);
    }
}

/// `m * 2^k` in decimal.
fn shifted_text(m: u64, k: u32) -> (out: String)
    requires
        m > 0,
    ensures
        out@ == nat_text(m as nat * pow2(k as nat)),
{
    let mut digits: Vec<u64> = digits_of(m);
    let mut i: u32 = 0;
    proof {
        lemma2_to64();
        assert(m as nat * pow2(0) == m) by (nonlinear_arith)
            requires
                pow2(0) == 1,
        ;
    }
    while i < k
        invariant
            i <= k,
            plain_digits(digits@),
            digits_value(digits@) == m as nat * pow2(i as nat),
        decreases k - i,
    {
        proof {
            lemma_pow2_unfold((i + 1) as nat);
            assert(m as nat * (2 * pow2(i as nat)) == 2 * (m as nat * pow2(i as nat)))
                by (nonlinear_arith);
        }
        digits = doubled(&digits);
        i += 1;
    }
    proof {
        lemma_digits_text(digits@);
    }
    let mut out: String = String::new();
    let mut j: usize = digits.len();
    assert(digits@.skip(digits@.len() as int) =~= Seq::<u64>::empty());
    assert(digits_text(Seq::<u64>::empty()) =~= Seq::<char>::empty());
    while j > 0
        invariant
            j <= digits@.len(),
            plain_digits(digits@),
            out@ == digits_text(digits@.skip(j as int)),
        decreases j,
    {
        j -= 1;
        proof {
            let s = digits@.skip(j as int);
            assert(s.drop_first() =~= digits@.skip(j + 1));
            assert(s[0] == digits@[j as int]);
        }
        out.push(digit_char(digits[j]));
    }
    assert(digits@.skip(0) =~= digits@);
    out
}

/// The nearest whole number to `m * f / 2^k`, ties to even.
fn scaled_half_even(m: u64, f: u64, k: u32) -> (r: u64)
    requires
        m < 2 * HIDDEN_BIT,
        f <= 100,
    ensures
        r == half_even(m as nat * f as nat, pow2(k as nat)),
{
    proof {
        assert(m * f <= 0x20_0000_0000_0000 * 100) by (nonlinear_arith)
            requires
                m < 0x20_0000_0000_0000,
                f <= 100,
        ;
        lemma_pow2_pos(k as nat);
    }
    let n: u64 = m * f;
    if k > 100 {
        proof {
            lemma_pow2_strictly_increases(64, k as nat);
            lemma2_to64();
            lemma_small_quotient(n as nat, pow2(k as nat));
        }
        return 0;
    }
    proof {
        lemma_pow2_strictly_increases(k as nat, 101);
        lemma_pow2_adds(64, 37);
        lemma2_to64();
        lemma2_to64_rest();
        lemma_fundamental_div_mod(n as int, pow2(k as nat) as int);
        let q = n as nat / pow2(k as nat);
        let r = n as nat % pow2(k as nat);
        assert(q <= n) by (nonlinear_arith)
            requires
                n == pow2(k as nat) * q + r,
                0 <= r,
                pow2(k as nat) >= 1,
        ;
    }
    divide_half_even(n as u128, power_of_two(k)) as u64
}

fn special(x: Double) -> (r: Option<String>)
    ensures
        r is Some == special_text(x) is Some,
        r matches Some(t) ==> Some(t@) == special_text(x),
{
    let m: u64 = x.get_magnitude();
    if m > INFINITE {
        Some("NaN".to_string())
    } else if m == INFINITE {
        if x.is_negative() {
            Some("-inf".to_string())
        } else {
            Some("inf".to_string())
        }
    } else {
        None
    }
}

fn sign(x: Double) -> (r: String)
    ensures
        r@ == sign_text(x),
{
    if x.is_negative() {
        "-".to_string()
    } else {
        "".to_string()
    }
}

/// `x` with one decimal.
pub fn one_decimal(x: Double) -> (out: String)
    ensures
        out@ == one_decimal_text(x),
{
    if let Some(t) = special(x) {
        return t;
    }
    let (m, e) = Double::parts(x.get_magnitude());
    proof {
        lemma_shared_power(m as nat, e as nat, 10);
        lemma_magnitude_parts(x.magnitude());
    }
    let mut body: String;
    if e >= 1074 {
        proof {
            let w = m as nat * pow2((e - 1074) as nat);
            assert((w * 10) / 10 == w && (w * 10) % 10 == 0);
        }
        body = shifted_text(m, (e - 1074) as u32).concat(".");
        body.push('0');
    } else {
        let n: u64 = scaled_half_even(m, 10, (1074 - e) as u32);
        body = unsigned(n / 10).concat(".");
        body.push(digit_char(n % 10));
    }
    proof {
        let n = half_even(units(x.magnitude()) * 10, pow2(1074));
        assert(body@ =~= tenths_text(n));
    }
    sign(x).concat(body.as_str())
}

/// `x` with two decimals.
pub fn two_decimals(x: Double) -> (out: String)
    ensures
        out@ == two_decimals_text(x),
{
    if let Some(t) = special(x) {
        return t;
    }
    let (m, e) = Double::parts(x.get_magnitude());
    proof {
        lemma_shared_power(m as nat, e as nat, 100);
        lemma_magnitude_parts(x.magnitude());
    }
    let mut body: String;
    if e >= 1074 {
        proof {
            let w = m as nat * pow2((e - 1074) as nat);
            assert((w * 100) / 100 == w && (w * 100) % 100 == 0 && (w * 100) % 10 == 0);
        }
        body = shifted_text(m, (e - 1074) as u32).concat(".");
        body.push('0');
        body.push('0');
    } else {
        let n: u64 = scaled_half_even(m, 100, (1074 - e) as u32);
        body = unsigned(n / 100).concat(".");
        body.push(digit_char((n % 100) / 10));
        body.push(digit_char(n % 10));
    }
    proof {
        let n = half_even(units(x.magnitude()) * 100, pow2(1074));
        assert(body@ =~= hundredths_text(n));
    }
    sign(x).concat(body.as_str())
}

/// `x` cut off to a count: 0 below zero and for what is not a number, and no
/// more than fits in 64 bits.
pub open spec fn count_of(x: Double) -> nat {
    if x.nan() || x.negative() {
        0
    } else if x.infinite() {
        u64::MAX as nat
    } else {
        capped(units(x.magnitude()) / pow2(1074))
    }
}

/// `x` cut off to a count.
pub fn to_count(x: Double) -> (r: u64)
    ensures
        r == count_of(x),
{
    let m: u64 = x.get_magnitude();
    if m > INFINITE || x.is_negative() {
        0
    } else if m == INFINITE {
        u64::MAX
    } else {
        whole_part(x)
    }
}

/// The magnitude of `x` rounded to a whole number, halves away from zero, and
/// no more than fits in 64 bits; 0 for what is not a number.
pub open spec fn rounded_magnitude(x: Double) -> nat {
    if x.nan() {
        0
    } else if x.infinite() {
        u64::MAX as nat
    } else {
        capped(half_up(units(x.magnitude()), pow2(1074)))
    }
}

/// The magnitude of `x` rounded to a whole number.
pub fn to_rounded_magnitude(x: Double) -> (r: u64)
    ensures
        r == rounded_magnitude(x),
{
    let m: u64 = x.get_magnitude();
    if m > INFINITE {
        0
    } else if m == INFINITE {
        u64::MAX
    } else {
        nearest_whole(x)
    }
}

/// `x` rounded to a whole number, halves away from zero, as far as it fits in
/// 64 bits with a sign.
pub open spec fn rounded_whole(x: Double) -> int {
    let m = rounded_magnitude(x);
    if x.negative() {
        if m > 0x8000_0000_0000_0000 {
            i64::MIN as int
        } else {
            -m
        }
    } else if m > i64::MAX {
        i64::MAX as int
    } else {
        m as int
    }
}

/// `x` rounded to a whole number.
pub fn to_rounded_whole(x: Double) -> (r: i64)
    ensures
        r == rounded_whole(x),
{
    let m: u64 = to_rounded_magnitude(x);
    if x.is_negative() {
        if m >= 0x8000_0000_0000_0000 {
            i64::MIN
        } else {
            -(m as i64)
        }
    } else if m > 0x7fff_ffff_ffff_ffff {
        i64::MAX
    } else {
        m as i64
    }
}

/// A number below `10^k` has at most `k` digits.
pub proof fn lemma_digit_count(n: nat, k: nat)
    requires
        n < tens(k),
        k > 0,
    ensures
        nat_text(n).len() <= k,
    decreases k,
{
    if n >= 10 {
        assert(k > 1) by {
            if k == 1 {
                assert(tens(0) == 1);
                assert(tens(1) == 10);
            }
        }
        lemma_digit_count(n / 10, (k - 1) as nat);
    }
}

/// A number of 64 bits has at most 20 digits.
pub proof fn lemma_digit_count_64(n: nat)
    requires
        n <= u64::MAX,
    ensures
        nat_text(n).len() <= 20,
{
    reveal_with_fuel(tens, 21);
    assert(tens(20) == 100_000_000_000_000_000_000);
    lemma_digit_count(n, 20);
}

/// Larger magnitudes are more units.
pub proof fn lemma_units_grow(a: nat, b: nat)
    requires
        a <= b < INFINITE,
    ensures
        units(a) <= units(b),
{
    lemma_magnitude_parts(a);
    lemma_magnitude_parts(b);
    let h = HIDDEN_BIT as int;
    let ea = scale(a);
    let eb = scale(b);
    lemma_pow2_pos(ea);
    lemma_pow2_pos(eb);
    lemma_div_is_ordered(a as int, b as int, h);
    assert(ea <= eb);
    if ea == eb {
        assert(significand(a) <= significand(b)) by {
            lemma_fundamental_div_mod(a as int, h);
            lemma_fundamental_div_mod(b as int, h);
        }
        assert(significand(a) * pow2(ea) <= significand(b) * pow2(ea)) by (nonlinear_arith)
            requires
                significand(a) <= significand(b),
        ;
    } else {
        lemma_pow2_unfold((ea + 1) as nat);
        if ea + 1 < eb {
            lemma_pow2_strictly_increases((ea + 1) as nat, eb);
        }
        assert(significand(a) * pow2(ea) <= significand(b) * pow2(eb)) by (nonlinear_arith)
            requires
                significand(a) < 2 * h,
                significand(b) >= h,
                2 * pow2(ea) <= pow2(eb),
                pow2(ea) > 0,
                h > 0,
        ;
    }
}

/// One hundred as a double.
pub proof fn lemma_hundred()
    ensures
        Double::of_int(100).magnitude() == 0x4059_0000_0000_0000,
        !Double::of_int(100).negative(),
        units(0x4059_0000_0000_0000) == 100 * pow2(1074),
{
    let m: nat = 0x4059_0000_0000_0000;
    let h = HIDDEN_BIT as nat;
    assert(m / h == 1029 && m % h == 0x9_0000_0000_0000);
    lemma_pow2_adds(46, 1028);
    assert(pow2(46) == 0x4000_0000_0000) by {
        lemma2_to64_rest();
    }
    assert(significand(m) == 100 * pow2(46));
    assert(units(m) == 100 * pow2(1074)) by (nonlinear_arith)
        requires
            units(m) == significand(m) * pow2(1028),
            significand(m) == 100 * pow2(46),
            pow2(1074) == pow2(46) * pow2(1028),
    ;
    crate::rounding::lemma_rounded_exact(m);
}

/// Below one hundred two decimals take at most six characters.
pub proof fn lemma_two_decimals_below_hundred(x: Double)
    requires
        x.finite(),
        !x.negative(),
        x.magnitude() < 0x4059_0000_0000_0000,
    ensures
        two_decimals_text(x).len() <= 6,
{
    lemma_hundred();
    lemma_units_grow(x.magnitude(), 0x4059_0000_0000_0000);
    let d = pow2(1074);
    lemma_pow2_pos(1074);
    let n = units(x.magnitude()) * 100;
    let q = n / d;
    lemma_fundamental_div_mod(n as int, d as int);
    assert(n <= 10_000 * d);
    assert(q <= 10_000) by (nonlinear_arith)
        requires
            n == d * q + n % d,
            0 <= n % d,
            n <= 10_000 * d,
            d > 0,
    ;
    let r = half_even(n, d);
    assert(r <= 10_001);
    assert(r / 100 < 1000);
    reveal_with_fuel(tens, 4);
    assert(tens(3) == 1000);
    lemma_digit_count(r / 100, 3);
    reveal_strlit(".");
    reveal_strlit("");
    assert(special_text(x) is None);
}

} // verus!
