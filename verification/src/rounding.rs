//! Rounding of exact quotients to the nearest double-precision number.
//!
//! A finite double is a whole number of *units*, one unit being the smallest
//! positive double. Its magnitude, the bit pattern without the sign, grows
//! with the number of units.

use vstd::arithmetic::div_mod::*;
use vstd::arithmetic::mul::*;
use vstd::arithmetic::power2::*;
use vstd::prelude::*;

verus! {

/// Magnitude of the infinities.
pub const INFINITE: u64 = 0x7ff0_0000_0000_0000;

/// One step of the exponent field, which is also the hidden bit.
pub const HIDDEN_BIT: u64 = 0x10_0000_0000_0000;

/// The number of units of the finite double with magnitude `mag`.
pub open spec fn units(mag: nat) -> nat {
    significand(mag) * pow2(scale(mag))
}

/// The significand of the double with magnitude `mag`, hidden bit included.
pub open spec fn significand(mag: nat) -> nat {
    if mag / (HIDDEN_BIT as nat) == 0 {
        mag
    } else {
        mag % (HIDDEN_BIT as nat) + HIDDEN_BIT as nat
    }
}

/// The power of two that scales the significand.
pub open spec fn scale(mag: nat) -> nat {
    if mag / (HIDDEN_BIT as nat) == 0 {
        0
    } else {
        (mag / (HIDDEN_BIT as nat) - 1) as nat
    }
}

/// The whole number nearest to `n / d`; halfway between two, the even one.
pub open spec fn half_even(n: nat, d: nat) -> nat {
    let q = n / d;
    let r = n % d;
    if 2 * r > d || (2 * r == d && q % 2 == 1) {
        q + 1
    } else {
        q
    }
}

/// The number of binary digits of `n`.
pub open spec fn bit_length(n: nat) -> nat
    decreases n,
{
    if n == 0 {
        0
    } else {
        1 + bit_length(n / 2)
    }
}

/// How many low binary digits a significand of 53 digits leaves out.
pub open spec fn dropped_bits(whole: nat) -> nat {
    if bit_length(whole) <= 53 {
        0
    } else {
        (bit_length(whole) - 53) as nat
    }
}

/// The magnitude of the double nearest to `n / d` units; halfway between two,
/// the one with the even significand; infinite where it is too large.
pub open spec fn rounded(n: nat, d: nat) -> nat {
    let s = dropped_bits(n / d);
    let mag = s * (HIDDEN_BIT as nat) + half_even(n, d * pow2(s));
    if mag < INFINITE {
        mag
    } else {
        INFINITE as nat
    }
}

pub proof fn lemma_half_even_cancel(n: nat, d: nat, c: nat)
    requires
        d > 0,
        c > 0,
    ensures
        d * c > 0,
        (n * c) / (d * c) == n / d,
        half_even(n * c, d * c) == half_even(n, d),
{
    let q = n / d;
    let r = n % d;
    lemma_fundamental_div_mod(n as int, d as int);
    assert(0 <= r < d);
    assert(n * c == q * (d * c) + r * c) by (nonlinear_arith)
        requires
            n == d * q + r,
    ;
    assert(0 <= r * c < d * c) by (nonlinear_arith)
        requires
            0 <= r < d,
            c > 0,
    ;
    lemma_fundamental_div_mod_converse((n * c) as int, (d * c) as int, q as int, (r * c) as int);
    assert((2 * (r * c) > d * c) == (2 * r > d)) by (nonlinear_arith)
        requires
            c > 0,
    ;
    assert((2 * (r * c) == d * c) == (2 * r == d)) by (nonlinear_arith)
        requires
            c > 0,
    ;
}

pub proof fn lemma_half_even_exact(n: nat, d: nat)
    requires
        d > 0,
    ensures
        half_even(n * d, d) == n,
        (n * d) / d == n,
{
    lemma_fundamental_div_mod_converse((n * d) as int, d as int, n as int, 0);
}

pub proof fn lemma_rounded_cancel(n: nat, d: nat, c: nat)
    requires
        d > 0,
        c > 0,
    ensures
        rounded(n * c, d * c) == rounded(n, d),
{
    lemma_half_even_cancel(n, d, c);
    let s = dropped_bits(n / d);
    lemma_pow2_pos(s);
    assert(d * pow2(s) > 0) by (nonlinear_arith)
        requires
            d > 0,
            pow2(s) > 0,
    ;
    lemma_half_even_cancel(n, d * pow2(s), c);
    assert((d * pow2(s)) * c == (d * c) * pow2(s)) by (nonlinear_arith);
}

pub proof fn lemma_rounded_zero(d: nat)
    requires
        d > 0,
    ensures
        rounded(0, d) == 0,
{
    lemma_fundamental_div_mod_converse(0, d as int, 0, 0);
    assert(bit_length(0) == 0);
    assert(pow2(0) == 1) by {
        lemma2_to64();
    }
    assert(d * pow2(0) == d) by (nonlinear_arith)
        requires
            pow2(0) == 1,
    ;
    assert(half_even(0, d) == 0);
}

pub proof fn lemma_bit_length_bounds(n: nat)
    requires
        n > 0,
    ensures
        bit_length(n) > 0,
        pow2((bit_length(n) - 1) as nat) <= n < pow2(bit_length(n)),
    decreases n,
{
    if n == 1 {
        assert(bit_length(0) == 0);
        lemma2_to64();
    } else {
        lemma_bit_length_bounds(n / 2);
        let l = bit_length(n / 2);
        lemma_pow2_unfold(l);
        lemma_pow2_unfold((l + 1) as nat);
    }
}

pub proof fn lemma_bit_length_unique(n: nat, l: nat)
    requires
        l > 0,
        pow2((l - 1) as nat) <= n < pow2(l),
    ensures
        bit_length(n) == l,
{
    lemma_pow2_pos((l - 1) as nat);
    lemma_bit_length_bounds(n);
    let b = bit_length(n);
    if b < l {
        if b < l - 1 {
            lemma_pow2_strictly_increases(b, (l - 1) as nat);
        }
    } else if b > l {
        if l < b - 1 {
            lemma_pow2_strictly_increases(l, (b - 1) as nat);
        }
    }
}

pub proof fn lemma_bit_length_below(n: nat, l: nat)
    requires
        n < pow2(l),
    ensures
        bit_length(n) <= l,
{
    if n > 0 {
        lemma_bit_length_bounds(n);
        if bit_length(n) > l {
            if bit_length(n) - 1 > l {
                lemma_pow2_strictly_increases(l, (bit_length(n) - 1) as nat);
            }
        }
    }
}

/// `2^k`.
pub(crate) fn power_of_two(k: u32) -> (r: u128)
    requires
        k <= 127,
    ensures
        r == pow2(k as nat),
{
    let mut r: u128 = 1;
    let mut i: u32 = 0;
    proof {
        lemma2_to64();
    }
    while i < k
        invariant
            i <= k <= 127,
            r == pow2(i as nat),
        decreases k - i,
    {
        proof {
            lemma_pow2_unfold((i + 1) as nat);
            if i + 1 < 127 {
                lemma_pow2_strictly_increases((i + 1) as nat, 127);
            }
            assert(pow2(127) == 0x8000_0000_0000_0000_0000_0000_0000_0000) by {
                lemma_pow2_adds(64, 63);
                lemma2_to64();
                lemma2_to64_rest();
            }
        }
        r = r * 2;
        i += 1;
    }
    r
}

/// The number of binary digits of `n`.
fn bits_of(n: u128) -> (r: u32)
    ensures
        r == bit_length(n as nat),
        r <= 128,
{
    let mut rest: u128 = n;
    let mut r: u32 = 0;
    proof {
        assert(pow2(128) == 0x1_0000_0000_0000_0000_0000_0000_0000_0000) by {
            lemma_pow2_adds(64, 64);
            lemma2_to64();
            lemma2_to64_rest();
        }
        lemma_bit_length_below(n as nat, 128);
    }
    while rest > 0
        invariant
            r + bit_length(rest as nat) == bit_length(n as nat),
            bit_length(n as nat) <= 128,
        decreases rest,
    {
        rest = rest / 2;
        r += 1;
    }
    r
}

/// The whole number nearest to `n / d`; halfway between two, the even one.
pub(crate) fn divide_half_even(n: u128, d: u128) -> (r: u128)
    requires
        0 < d,
        d <= 0x8000_0000_0000_0000_0000_0000_0000_0000,
        n < 0x8000_0000_0000_0000_0000_0000_0000_0000,
    ensures
        r == half_even(n as nat, d as nat),
{
    let q: u128 = n / d;
    let rem: u128 = n % d;
    proof {
        lemma_fundamental_div_mod(n as int, d as int);
        assert(q <= n) by (nonlinear_arith)
            requires
                n == d * q + rem,
                d > 0,
                rem >= 0,
        ;
    }
    let other: u128 = d - rem;
    if rem > other || (rem == other && q % 2 == 1) {
        q + 1
    } else {
        q
    }
}

/// A product or quotient by a power of two has as many binary digits as the
/// exponents say.
proof fn lemma_whole_bits(p: nat, x: int)
    requires
        p > 0,
    ensures
        dropped_bits((p * pow2(up(x))) / pow2(up(-x))) == up(bit_length(p) + x - 53),
{
    lemma_bit_length_bounds(p);
    let len = bit_length(p);
    let lo = pow2((len - 1) as nat);
    lemma2_to64();
    if x >= 0 {
        let c = pow2(x as nat);
        lemma_pow2_pos(x as nat);
        lemma_pow2_adds((len - 1) as nat, x as nat);
        lemma_pow2_adds(len, x as nat);
        assert(lo * c <= p * c < pow2(len) * c) by (nonlinear_arith)
            requires
                lo <= p < pow2(len),
                c > 0,
        ;
        lemma_bit_length_unique(p * c, (len + x) as nat);
        assert(up(-x) == 0);
    } else {
        let k = (-x) as nat;
        let c = pow2(k);
        lemma_pow2_pos(k);
        assert(up(x) == 0);
        assert(p * pow2(0) == p);
        let q = p / c;
        lemma_fundamental_div_mod(p as int, c as int);
        if len > k {
            let a = pow2((len - 1 - k) as nat);
            let b = pow2((len - k) as nat);
            lemma_pow2_adds((len - 1 - k) as nat, k);
            lemma_pow2_adds((len - k) as nat, k);
            assert(a <= q < b) by (nonlinear_arith)
                requires
                    p == c * q + p % c,
                    0 <= p % c < c,
                    a * c <= p < b * c,
            ;
            lemma_bit_length_unique(q, (len - k) as nat);
        } else {
            if len < k {
                lemma_pow2_strictly_increases(len, k);
            }
            assert(q == 0) by (nonlinear_arith)
                requires
                    p == c * q + p % c,
                    0 <= p % c < c,
                    p < c,
                    q >= 0,
            ;
            assert(bit_length(0) == 0);
        }
    }
}

proof fn lemma_shift_left(p: nat, len: nat, j: nat)
    requires
        p < pow2(len),
        len + j <= 53,
    ensures
        p * pow2(j) < pow2(53),
{
    lemma_pow2_pos(j);
    lemma_pow2_adds(len, j);
    assert(p * pow2(j) < pow2(len) * pow2(j)) by (nonlinear_arith)
        requires
            p < pow2(len),
            pow2(j) > 0,
    ;
    if len + j < 53 {
        lemma_pow2_strictly_increases(len + j, 53);
    }
}

proof fn lemma_drop_to_53(p: nat, len: nat, k: nat)
    requires
        p < pow2(len),
        len <= k + 53,
    ensures
        half_even(p, pow2(k)) <= pow2(53),
{
    lemma_pow2_pos(k);
    if len < k + 53 {
        lemma_pow2_strictly_increases(len, k + 53);
    }
    lemma_pow2_adds(53, k);
    let c = pow2(k);
    let q = p / c;
    lemma_fundamental_div_mod(p as int, c as int);
    assert(q < pow2(53)) by (nonlinear_arith)
        requires
            p == c * q + p % c,
            0 <= p % c < c,
            p < pow2(53) * c,
    ;
}

pub proof fn lemma_small_quotient(p: nat, d: nat)
    requires
        2 * p < d,
    ensures
        half_even(p, d) == 0,
{
    lemma_fundamental_div_mod_converse(p as int, d as int, 0, p as int);
}

/// `x` where it is positive, and 0 elsewhere.
pub open spec fn up(x: int) -> nat {
    if x > 0 {
        x as nat
    } else {
        0
    }
}

/// The magnitude of the double nearest to `p * 2^x` units.
pub fn round_scaled(p: u128, x: i32) -> (mag: u64)
    requires
        p < 0x100_0000_0000_0000_0000_0000_0000_0000,
        -8192 <= x <= 8192,
    ensures
        mag == rounded(p as nat * pow2(up(x as int)), pow2(up(-x))),
        mag <= INFINITE,
{
    let ghost a = up(x as int);
    let ghost b = up(-x);
    let ghost n = p as nat * pow2(a);
    let ghost d = pow2(b);
    proof {
        lemma_pow2_pos(a);
        lemma_pow2_pos(b);
    }
    if p == 0 {
        proof {
            assert(n == 0);
            assert(bit_length(0) == 0);
            lemma2_to64();
            assert(d * pow2(0) == d);
        }
        return 0;
    }
    let len: i32 = bits_of(p) as i32;
    let total: i32 = len + x;
    let s: i32 = if total > 53 {
        total - 53
    } else {
        0
    };
    proof {
        lemma_whole_bits(p as nat, x as int);
        assert(dropped_bits(n / d) == s);
        lemma_pow2_pos(s as nat);
        lemma_pow2_adds(b, s as nat);
    }
    if s >= 2047 {
        return INFINITE;
    }
    proof {
        assert(pow2(53) == 0x20_0000_0000_0000) by {
            lemma2_to64_rest();
        }
    }
    let k: i32 = s - x;
    let m: u128;
    if k <= 0 {
        proof {
            lemma_bit_length_bounds(p as nat);
            lemma_shift_left(p as nat, len as nat, (-k) as nat);
            assert(a == (-k) as nat + (b + s as nat));
            lemma_pow2_adds((-k) as nat, (b + s as nat) as nat);
            assert(p as nat * (pow2((-k) as nat) * pow2((b + s) as nat)) == (p as nat * pow2(
                (-k) as nat,
            )) * pow2((b + s) as nat)) by (nonlinear_arith);
            lemma_pow2_pos((b + s) as nat);
            lemma_half_even_exact(p as nat * pow2((-k) as nat), pow2((b + s) as nat));
        }
        m = p * power_of_two((-k) as u32);
    } else {
        proof {
            assert(b + s as nat == k as nat + a);
            lemma_pow2_adds(k as nat, a);
            lemma_pow2_pos(k as nat);
            lemma_half_even_cancel(p as nat, pow2(k as nat), pow2(a));
            assert(pow2(127) == 0x8000_0000_0000_0000_0000_0000_0000_0000) by {
                lemma_pow2_adds(64, 63);
                lemma2_to64();
                lemma2_to64_rest();
            }
        }
        if k > 127 {
            proof {
                lemma_pow2_strictly_increases(127, k as nat);
                lemma_small_quotient(p as nat, pow2(k as nat));
            }
            m = 0;
        } else {
            proof {
                if k < 127 {
                    lemma_pow2_strictly_increases(k as nat, 127);
                }
            }
            m = divide_half_even(p, power_of_two(k as u32));
            proof {
                lemma_bit_length_bounds(p as nat);
                lemma_drop_to_53(p as nat, len as nat, k as nat);
            }
        }
    }
    let mag: u64 = (s as u64) * HIDDEN_BIT + (m as u64);
    if mag < INFINITE {
        mag
    } else {
        INFINITE
    }
}

/// Only the difference of the exponents matters.
pub proof fn lemma_rounded_exponents(p: nat, q: nat, i: nat, j: nat)
    requires
        q > 0,
    ensures
        rounded(p * pow2(i), q * pow2(j)) == rounded(p * pow2(up(i - j)), q * pow2(up(j - i))),
{
    let c = if i <= j {
        i
    } else {
        j
    };
    let a = up(i - j);
    let b = up(j - i);
    lemma_pow2_pos(c);
    lemma_pow2_pos(b);
    lemma_pow2_adds(a, c);
    lemma_pow2_adds(b, c);
    assert(a + c == i && b + c == j);
    assert(p * (pow2(a) * pow2(c)) == (p * pow2(a)) * pow2(c)) by (nonlinear_arith);
    assert(q * (pow2(b) * pow2(c)) == (q * pow2(b)) * pow2(c)) by (nonlinear_arith);
    assert(q * pow2(b) > 0) by (nonlinear_arith)
        requires
            q > 0,
            pow2(b) > 0,
    ;
    lemma_rounded_cancel(p * pow2(a), q * pow2(b), pow2(c));
}

/// The decomposition of a magnitude puts it back together.
pub proof fn lemma_magnitude_parts(mag: nat)
    ensures
        significand(mag) < 2 * HIDDEN_BIT,
        mag >= HIDDEN_BIT ==> significand(mag) >= HIDDEN_BIT && mag == scale(mag) * HIDDEN_BIT
            + significand(mag),
        mag < HIDDEN_BIT ==> significand(mag) == mag && scale(mag) == 0,
        mag < INFINITE ==> scale(mag) <= 2045,
{
    let h = HIDDEN_BIT as int;
    lemma_fundamental_div_mod(mag as int, h);
    if mag >= HIDDEN_BIT {
        assert(mag / (HIDDEN_BIT as nat) >= 1) by {
            lemma_div_is_ordered(h, mag as int, h);
        }
    } else {
        lemma_fundamental_div_mod_converse(mag as int, h, 0, mag as int);
    }
    if mag < INFINITE {
        assert(mag / (HIDDEN_BIT as nat) <= 2046);
    }
}

/// Next to a large number, one that is far smaller changes nothing.
pub proof fn lemma_absorbed(a: nat, e: nat, t: nat)
    requires
        HIDDEN_BIT <= a < 2 * HIDDEN_BIT,
        e >= 2,
        t < pow2((e - 2) as nat),
    ensures
        a * pow2(e) >= t,
        rounded(a * pow2(e) + t, 1) == rounded(a * pow2(e), 1),
        rounded((a * pow2(e) - t) as nat, 1) == rounded(a * pow2(e), 1),
        e * HIDDEN_BIT + a < INFINITE ==> rounded(a * pow2(e), 1) == e * HIDDEN_BIT + a,
        e * HIDDEN_BIT + a >= INFINITE ==> rounded(a * pow2(e), 1) == INFINITE,
{
    let c = pow2(e);
    let h = HIDDEN_BIT as nat;
    assert(pow2(52) == h && pow2(53) == 2 * h) by {
        lemma2_to64_rest();
    }
    lemma_pow2_pos((e - 2) as nat);
    lemma_pow2_unfold(e);
    lemma_pow2_unfold((e - 1) as nat);
    assert(4 * t < c);
    lemma_pow2_adds(52, e);
    lemma_pow2_adds(53, e);
    assert(h * c <= a * c && a * c + c <= 2 * h * c) by (nonlinear_arith)
        requires
            h <= a,
            a + 1 <= 2 * h,
            c > 0,
    ;
    assert(h * c >= c) by (nonlinear_arith)
        requires
            h >= 1,
            c > 0,
    ;
    lemma_absorbed_above(a, e, 0);
    lemma_absorbed_above(a, e, t);
    assert(a * c + 0 == a * c);
    if t > 0 {
        let n = (a * c - t) as nat;
        if a > h {
            assert((a - 1) * c >= h * c) by (nonlinear_arith)
                requires
                    a - 1 >= h,
                    c > 0,
            ;
            assert((a - 1) * c == a * c - c) by (nonlinear_arith);
            lemma_bit_length_unique(n, 53 + e);
            lemma_fundamental_div_mod_converse(n as int, c as int, a - 1, c - t);
        } else {
            let b = pow2((e - 1) as nat);
            lemma_pow2_adds(52, (e - 1) as nat);
            assert(a * c == 2 * h * b) by (nonlinear_arith)
                requires
                    a == h,
                    c == 2 * b,
            ;
            assert(h * b >= b && h * b >= 1) by (nonlinear_arith)
                requires
                    h >= 1,
                    b >= 1,
            ;
            assert((2 * h - 1) * b == 2 * h * b - b) by (nonlinear_arith);
            lemma_bit_length_unique(n, 52 + e);
            lemma_fundamental_div_mod_converse(n as int, b as int, 2 * h - 1, b - t);
            assert(dropped_bits(n) == e - 1);
            assert(half_even(n, b) == 2 * h);
            assert(1 * b == b);
            assert((e - 1) * h + 2 * h == e * h + h) by (nonlinear_arith);
        }
        assert(n / 1 == n);
        assert(1 * c == c);
    }
}

proof fn lemma_absorbed_above(a: nat, e: nat, t: nat)
    requires
        HIDDEN_BIT <= a < 2 * HIDDEN_BIT,
        2 * t < pow2(e),
    ensures
        e * HIDDEN_BIT + a < INFINITE ==> rounded(a * pow2(e) + t, 1) == e * HIDDEN_BIT + a,
        e * HIDDEN_BIT + a >= INFINITE ==> rounded(a * pow2(e) + t, 1) == INFINITE,
{
    let c = pow2(e);
    let h = HIDDEN_BIT as nat;
    assert(pow2(52) == h && pow2(53) == 2 * h) by {
        lemma2_to64_rest();
    }
    lemma_pow2_adds(52, e);
    lemma_pow2_adds(53, e);
    assert(h * c <= a * c && a * c + c <= 2 * h * c) by (nonlinear_arith)
        requires
            h <= a,
            a + 1 <= 2 * h,
            c > 0,
    ;
    let n = a * c + t;
    lemma_bit_length_unique(n, 53 + e);
    lemma_fundamental_div_mod_converse(n as int, c as int, a as int, t as int);
    assert(n / 1 == n);
    assert(1 * c == c);
}

/// A whole number of 64 bits is finite as a double, and zero is zero.
pub proof fn lemma_whole_numbers_are_finite(n: nat)
    requires
        n <= u64::MAX,
    ensures
        rounded(n * pow2(1074), 1) < INFINITE,
        n == 0 ==> rounded(n * pow2(1074), 1) == 0,
{
    lemma2_to64();
    lemma2_to64_rest();
    if n == 0 {
        assert(0 * pow2(1074) == 0) by (nonlinear_arith);
        lemma_rounded_zero(1);
    } else {
        let p = n * pow2(1074);
        lemma_bit_length_bounds(n);
        lemma_bit_length_below(n, 64);
        let len = bit_length(n);
        lemma_whole_bits(n, 1074);
        let s = dropped_bits(p);
        assert(up(-1074) == 0 && up(1074) == 1074);
        assert(p / 1 == p);
        assert(s == up(len + 1074 - 53));
        lemma_pow2_pos(1074);
        lemma_pow2_adds(len, 1074);
        assert(p < pow2(len + 1074)) by (nonlinear_arith)
            requires
                p == n * pow2(1074),
                n < pow2(len),
                pow2(1074) > 0,
                pow2(len + 1074) == pow2(len) * pow2(1074),
        ;
        lemma_drop_to_53(p, len + 1074, s);
        assert(1 * pow2(s) == pow2(s));
    }
}

/// The units of a magnitude, from its exponent and a significand that may have
/// been rounded up to the next power of two.
proof fn lemma_units_of_parts(s: nat, m: nat)
    requires
        m <= 2 * HIDDEN_BIT,
        s > 0 ==> m >= HIDDEN_BIT,
    ensures
        units((s * HIDDEN_BIT + m) as nat) == m * pow2(s),
{
    let h = HIDDEN_BIT as int;
    let mag = (s * HIDDEN_BIT + m) as nat;
    assert(pow2(0) == 1) by {
        lemma2_to64();
    }
    if m < HIDDEN_BIT {
        lemma_fundamental_div_mod_converse(mag as int, h, 0, mag as int);
    } else if m < 2 * HIDDEN_BIT {
        lemma_fundamental_div_mod_converse(mag as int, h, (s + 1) as int, m - h);
    } else {
        lemma_fundamental_div_mod_converse(mag as int, h, (s + 2) as int, 0);
        lemma_pow2_unfold(s + 1);
        assert(h * (2 * pow2(s)) == (2 * h) * pow2(s)) by (nonlinear_arith);
    }
}

/// A number of units and the double nearest to it differ by at most one part
/// in `2^53` of the latter.
pub proof fn lemma_rounded_near(n: nat)
    requires
        rounded(n, 1) < INFINITE,
    ensures
        (units(rounded(n, 1)) - n) * (2 * HIDDEN_BIT) <= units(rounded(n, 1)),
        (n - units(rounded(n, 1))) * (2 * HIDDEN_BIT) <= units(rounded(n, 1)),
{
    let s = dropped_bits(n);
    let c = pow2(s);
    let m = half_even(n, c);
    let h = HIDDEN_BIT as nat;
    assert(n / 1 == n);
    assert(1 * c == c);
    assert(pow2(0) == 1 && pow2(52) == h && pow2(53) == 2 * h) by {
        lemma2_to64();
        lemma2_to64_rest();
    }
    lemma_pow2_pos(s);
    lemma_fundamental_div_mod(n as int, c as int);
    let q = n / c;
    let r = n % c;
    let u = units(rounded(n, 1));
    assert(rounded(n, 1) == s * h + m);
    if n > 0 {
        lemma_bit_length_bounds(n);
    }
    if s == 0 {
        assert(m == n);
        if n > 0 && bit_length(n) < 53 {
            lemma_pow2_strictly_increases(bit_length(n), 53);
        }
        lemma_units_of_parts(0, m);
        assert(m * pow2(0) == m);
        assert(u == n);
    } else {
        lemma_pow2_adds(52, s);
        lemma_pow2_adds(53, s);
        assert(h * c <= n < (2 * h) * c);
        assert(h <= q < 2 * h) by (nonlinear_arith)
            requires
                h * c <= n < (2 * h) * c,
                n == c * q + r,
                0 <= r < c,
        ;
        lemma_units_of_parts(s, m);
        assert(u == m * c);
        assert(m * c - n == if m == q { -r } else { c - r }) by (nonlinear_arith)
            requires
                n == c * q + r,
                m == q || m == q + 1,
        ;
        assert(-c <= 2 * (m * c - n) <= c);
        assert(h * c <= m * c) by (nonlinear_arith)
            requires
                h <= m,
        ;
        assert((u - n) * (2 * h) <= h * c && (n - u) * (2 * h) <= h * c) by (nonlinear_arith)
            requires
                -c <= 2 * (u - n) <= c,
        ;
    }
}

/// A quotient and the double nearest to it differ by at most one part in `2^53`
/// of the latter, or by half a unit.
pub proof fn lemma_rounded_quotient_near(n: nat, d: nat)
    requires
        d > 0,
        rounded(n, d) < INFINITE,
    ensures
        (units(rounded(n, d)) * d - n) * (2 * HIDDEN_BIT) <= (units(rounded(n, d)) + HIDDEN_BIT) * d,
        (n - units(rounded(n, d)) * d) * (2 * HIDDEN_BIT) <= (units(rounded(n, d)) + HIDDEN_BIT) * d,
{
    let w = n / d;
    let s = dropped_bits(w);
    let p = pow2(s);
    let c = d * p;
    let m = half_even(n, c);
    let h = HIDDEN_BIT as nat;
    assert(pow2(0) == 1 && pow2(52) == h && pow2(53) == 2 * h) by {
        lemma2_to64();
        lemma2_to64_rest();
    }
    lemma_pow2_pos(s);
    assert(c > 0) by (nonlinear_arith)
        requires
            d > 0,
            p > 0,
            c == d * p,
    ;
    lemma_fundamental_div_mod(n as int, c as int);
    lemma_fundamental_div_mod(n as int, d as int);
    let q = n / c;
    let r = n % c;
    let u = units(rounded(n, d));
    if w > 0 {
        lemma_bit_length_bounds(w);
    }
    if s == 0 {
        if w > 0 && bit_length(w) < 53 {
            lemma_pow2_strictly_increases(bit_length(w), 53);
        }
        assert(w < 2 * h);
        assert(c == d) by (nonlinear_arith)
            requires
                c == d * p,
                p == 1,
        ;
    } else {
        lemma_pow2_adds(52, s);
        lemma_pow2_adds(53, s);
        assert(h * p <= w < (2 * h) * p);
        assert(h <= q < 2 * h) by (nonlinear_arith)
            requires
                h * p <= w < (2 * h) * p,
                n == d * w + n % d,
                0 <= n % d < d,
                n == c * q + r,
                0 <= r < c,
                c == d * p,
                p > 0,
                d > 0,
        ;
    }
    assert(q < 2 * h);
    lemma_units_of_parts(s, m);
    assert(u == m * p);
    assert(u * d == m * c) by (nonlinear_arith)
        requires
            u == m * p,
            c == d * p,
    ;
    assert(m * c - n == if m == q { -r } else { c - r }) by (nonlinear_arith)
        requires
            n == c * q + r,
            m == q || m == q + 1,
    ;
    assert(-c <= 2 * (u * d - n) <= c);
    assert(h * c <= (u + h) * d) by (nonlinear_arith)
        requires
            u * d == m * c,
            c > 0,
            d > 0,
            c == d || h <= m,
            h > 0,
    ;
    assert((u * d - n) * (2 * h) <= h * c && (n - u * d) * (2 * h) <= h * c) by (nonlinear_arith)
        requires
            -c <= 2 * (u * d - n) <= c,
    ;
}

/// What lies below a multiple of a power of two, by less than one part in
/// `2^54`, is rounded to that multiple.
pub proof fn lemma_rounded_to_a_multiple(x: nat, w: nat, k: nat)
    requires
        x > 0,
        x <= w * pow2(k),
        (w * pow2(k) - x) * (4 * HIDDEN_BIT) < x,
        w < 2 * HIDDEN_BIT,
        rounded(x, 1) < INFINITE,
    ensures
        units(rounded(x, 1)) == w * pow2(k),
{
    let y = w * pow2(k);
    let s = dropped_bits(x);
    let c = pow2(s);
    let h = HIDDEN_BIT as nat;
    let m = half_even(x, c);
    assert(pow2(0) == 1 && pow2(52) == h && pow2(53) == 2 * h) by {
        lemma2_to64();
        lemma2_to64_rest();
    }
    assert(x / 1 == x);
    assert(1 * c == c);
    lemma_pow2_pos(s);
    lemma_pow2_pos(k);
    lemma_bit_length_bounds(x);
    lemma_pow2_adds(53, k);
    assert(x < pow2(53 + k)) by (nonlinear_arith)
        requires
            x <= w * pow2(k),
            w < 2 * h,
            pow2(k) > 0,
            pow2(53 + k) == (2 * h) * pow2(k),
    ;
    lemma_bit_length_below(x, 53 + k);
    assert(s <= k);
    lemma_pow2_adds((k - s) as nat, s);
    let z = w * pow2((k - s) as nat);
    assert(y == z * c) by (nonlinear_arith)
        requires
            y == w * pow2(k),
            pow2(k) == pow2((k - s) as nat) * c,
            z == w * pow2((k - s) as nat),
    ;
    lemma_pow2_adds(53, s);
    if bit_length(x) < 53 + s {
        lemma_pow2_strictly_increases(bit_length(x), 53 + s);
    }
    assert(x < (2 * h) * c);
    let t = y - x;
    assert(2 * t < c) by (nonlinear_arith)
        requires
            t * (4 * h) < x,
            x < (2 * h) * c,
            h > 0,
    ;
    if t == 0 {
        lemma_half_even_exact(z, c);
    } else {
        assert(x == (z - 1) * c + (c - t)) by (nonlinear_arith)
            requires
                x == z * c - t,
        ;
        assert(z >= 1) by (nonlinear_arith)
            requires
                x == z * c - t,
                x > 0,
                t > 0,
                c > 0,
        ;
        lemma_fundamental_div_mod_converse(x as int, c as int, z - 1, c - t);
    }
    assert(m == z);
    if s > 0 {
        lemma_pow2_adds(52, s);
        assert(h * c <= x);
        assert(h <= z <= 2 * h) by (nonlinear_arith)
            requires
                h * c <= x,
                x == z * c - t,
                x < (2 * h) * c,
                0 <= t,
                2 * t < c,
        ;
    } else {
        assert(z <= 2 * h) by (nonlinear_arith)
            requires
                x == z * c - t,
                x < (2 * h) * c,
                0 <= t,
                2 * t < c,
        ;
    }
    lemma_units_of_parts(s, m);
}

/// A multiple of a power of two is exact where its significand fits.
pub proof fn lemma_rounded_whole(w: nat, k: nat)
    requires
        w < 2 * HIDDEN_BIT,
        rounded(w * pow2(k), 1) < INFINITE,
    ensures
        units(rounded(w * pow2(k), 1)) == w * pow2(k),
{
    if w == 0 {
        assert(0 * pow2(k) == 0) by (nonlinear_arith);
        lemma_rounded_zero(1);
        lemma_magnitude_parts(0);
        assert(units(0) == 0) by (nonlinear_arith)
            requires
                units(0) == significand(0) * pow2(scale(0)),
                significand(0) == 0,
        ;
    } else {
        lemma_pow2_pos(k);
        assert(w * pow2(k) > 0) by (nonlinear_arith)
            requires
                w > 0,
                pow2(k) > 0,
        ;
        lemma_rounded_to_a_multiple(w * pow2(k), w, k);
    }
}

/// A finite double is its own rounding.
pub proof fn lemma_rounded_exact(mag: nat)
    requires
        mag < INFINITE,
    ensures
        rounded(units(mag), 1) == mag,
{
    lemma_magnitude_parts(mag);
    lemma2_to64();
    lemma2_to64_rest();
    let m = significand(mag);
    let e = scale(mag);
    if mag < HIDDEN_BIT {
        assert(units(mag) == mag);
        lemma_bit_length_below(mag, 53);
        assert(dropped_bits(mag) == 0);
        lemma_half_even_exact(mag, 1);
        assert(mag * 1 == mag);
    } else {
        lemma_pow2_pos(e);
        lemma_absorbed_above(m, e, 0);
        assert(m * pow2(e) + 0 == m * pow2(e));
    }
}

/// Everything below the last kept digit counts only by being there or not.
proof fn lemma_half_even_sticky(n: nat, d: nat, k: nat)
    requires
        d > 0,
        k > 0,
    ensures
        ({
            let sticky: nat = if n % d == 0 {
                0
            } else {
                1
            };
            half_even(n, d * pow2(k)) == half_even(2 * (n / d) + sticky, 2 * pow2(k))
        }),
{
    let q = n / d;
    let r = n % d;
    let j: nat = if r == 0 {
        0
    } else {
        1
    };
    let c = pow2(k);
    let half = pow2((k - 1) as nat);
    lemma_pow2_pos((k - 1) as nat);
    lemma_pow2_unfold(k);
    assert(c == 2 * half);
    lemma_fundamental_div_mod(n as int, d as int);
    let big = q / c;
    let rest = q % c;
    lemma_fundamental_div_mod(q as int, c as int);
    assert(n == big * (d * c) + (d * rest + r)) by (nonlinear_arith)
        requires
            n == d * q + r,
            q == c * big + rest,
    ;
    assert(0 <= d * rest + r < d * c) by (nonlinear_arith)
        requires
            0 <= r < d,
            0 <= rest,
            rest + 1 <= c,
    ;
    lemma_fundamental_div_mod_converse(n as int, (d * c) as int, big as int, (d * rest + r) as int);
    assert(2 * q + j == big * (2 * c) + (2 * rest + j)) by (nonlinear_arith)
        requires
            q == c * big + rest,
    ;
    lemma_fundamental_div_mod_converse(
        (2 * q + j) as int,
        (2 * c) as int,
        big as int,
        (2 * rest + j) as int,
    );
    if rest > half {
        assert(d * rest > d * half) by (nonlinear_arith)
            requires
                rest > half,
                d > 0,
        ;
    } else if rest < half {
        assert(d * rest + d <= d * half) by (nonlinear_arith)
            requires
                rest + 1 <= half,
                d > 0,
        ;
    }
    assert(d * c == 2 * (d * half)) by (nonlinear_arith)
        requires
            c == 2 * half,
    ;
}

/// A quotient with enough digits may be cut off there, as long as it is
/// marked whether something was left.
pub proof fn lemma_rounded_sticky(a: nat, b: nat, i: nat, j: nat)
    requires
        b > 0,
        bit_length(a / b) >= 54,
        i == 0 || j == 0,
    ensures
        ({
            let sticky: nat = if a % b == 0 {
                0
            } else {
                1
            };
            rounded(a * pow2(i), b * pow2(j)) == rounded(
                (2 * (a / b) + sticky) * pow2(i),
                2 * pow2(j),
            )
        }),
{
    let q = a / b;
    let r = a % b;
    let t: nat = if r == 0 {
        0
    } else {
        1
    };
    let p = 2 * q + t;
    let ci = pow2(i);
    let cj = pow2(j);
    lemma2_to64();
    lemma_pow2_pos(i);
    lemma_pow2_pos(j);
    lemma_fundamental_div_mod(a as int, b as int);
    let len = bit_length(q);
    assert(q > 0) by {
        if q == 0 {
            assert(bit_length(0) == 0);
        }
    }
    lemma_bit_length_bounds(q);
    assert(b * cj > 0) by (nonlinear_arith)
        requires
            b > 0,
            cj > 0,
    ;
    let w1 = (a * ci) / (b * cj);
    let w2 = (p * ci) / (2 * cj);
    lemma_fundamental_div_mod((a * ci) as int, (b * cj) as int);
    lemma_fundamental_div_mod((p * ci) as int, (2 * cj) as int);
    if j == 0 {
        assert(cj == 1);
        assert(b * cj == b && 2 * cj == 2);
        lemma_pow2_adds(len, i);
        lemma_pow2_adds((len - 1) as nat, i);
        lemma_between(a, b, q, r, ci, w1);
        lemma_between(p, 2, q, t, ci, w2);
        assert(pow2((len - 1) as nat) * ci <= q * ci && (q + 1) * ci <= pow2(len) * ci)
            by (nonlinear_arith)
            requires
                pow2((len - 1) as nat) <= q,
                q + 1 <= pow2(len),
                ci > 0,
        ;
        lemma_bit_length_unique(w1, len + i);
        lemma_bit_length_unique(w2, len + i);
    } else {
        assert(ci == 1);
        assert(a * ci == a && p * ci == p);
        lemma_div_denominator(a as int, b as int, cj as int);
        lemma_div_denominator(p as int, 2, cj as int);
        assert(p / 2 == q);
        assert(w1 == q / cj && w2 == q / cj);
        lemma_whole_bits(q, -(j as int));
        assert(q * pow2(0) == q);
    }
    let s = dropped_bits(w1);
    assert(s == dropped_bits(w2));
    assert(s >= len + i - j - 53);
    let k = (s + j - i) as nat;
    assert(k >= 1);
    lemma_pow2_pos(s);
    lemma_pow2_pos(k);
    lemma_pow2_adds(j, s);
    lemma_pow2_adds(k, i);
    assert((b * cj) * pow2(s) == (b * pow2(k)) * ci) by (nonlinear_arith)
        requires
            cj * pow2(s) == pow2(k) * ci,
    ;
    assert((2 * cj) * pow2(s) == (2 * pow2(k)) * ci) by (nonlinear_arith)
        requires
            cj * pow2(s) == pow2(k) * ci,
    ;
    assert(b * pow2(k) > 0) by (nonlinear_arith)
        requires
            b > 0,
            pow2(k) > 0,
    ;
    lemma_half_even_cancel(a, b * pow2(k), ci);
    lemma_half_even_cancel(p, 2 * pow2(k), ci);
    lemma_half_even_sticky(a, b, k);
}

/// Scaling a quotient before it is cut off keeps it in its interval.
proof fn lemma_between(n: nat, d: nat, q: nat, r: nat, c: nat, w: nat)
    requires
        d > 0,
        c > 0,
        n == d * q + r,
        r < d,
        w == (n * c) / d,
    ensures
        q * c <= w < (q + 1) * c,
{
    lemma_fundamental_div_mod((n * c) as int, d as int);
    let m = (n * c) % d;
    assert(q * c <= w) by (nonlinear_arith)
        requires
            n * c == d * w + m,
            0 <= m < d,
            n == d * q + r,
            r >= 0,
            c > 0,
            d > 0,
    ;
    assert(w < (q + 1) * c) by (nonlinear_arith)
        requires
            n * c == d * w + m,
            0 <= m < d,
            n == d * q + r,
            r < d,
            c > 0,
            d > 0,
    ;
}

} // verus!
