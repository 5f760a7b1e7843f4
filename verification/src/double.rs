//! Double-precision numbers, held by their IEEE 754 bit pattern.
//!
//! The arithmetic rounds to nearest, ties to even. Each operation states its
//! result as the rounding of the exact result.

use vstd::arithmetic::div_mod::*;
use vstd::arithmetic::mul::*;
use vstd::arithmetic::power2::*;
use vstd::prelude::*;

use crate::rounding::{
    bit_length, lemma_absorbed, lemma_bit_length_bounds, lemma_magnitude_parts,
    lemma_rounded_exact, lemma_rounded_exponents, lemma_rounded_near, lemma_rounded_quotient_near,
    lemma_rounded_sticky, lemma_rounded_whole, lemma_rounded_zero, lemma_whole_numbers_are_finite,
    power_of_two, round_scaled, rounded, scale, significand, units, up, HIDDEN_BIT, INFINITE,
};

verus! {

/// The sign bit.
pub const SIGN_BIT: u64 = 0x8000_0000_0000_0000;

/// Bit pattern of the value that an operation without a numeric result gives.
pub const NOT_A_NUMBER: u64 = 0x7ff8_0000_0000_0000;

/// A double, by its bit pattern. Equality is equality of the patterns.
#[derive(Clone, Copy, Debug, PartialEq, Eq, Structural)]
pub struct Double {
    pub bits: u64,
}

/// Bit pattern with the given sign and magnitude.
pub open spec fn signed(negative: bool, mag: nat) -> Double {
    Double { bits: (if negative { mag + SIGN_BIT } else { mag as int }) as u64 }
}

impl Double {
    /// Whether the sign bit is set.
    pub open spec fn negative(self) -> bool {
        self.bits >= SIGN_BIT
    }

    /// The bit pattern without the sign.
    pub open spec fn magnitude(self) -> nat {
        if self.bits >= SIGN_BIT {
            (self.bits - SIGN_BIT) as nat
        } else {
            self.bits as nat
        }
    }

    pub open spec fn nan(self) -> bool {
        self.magnitude() > INFINITE
    }

    pub open spec fn infinite(self) -> bool {
        self.magnitude() == INFINITE
    }

    pub open spec fn finite(self) -> bool {
        self.magnitude() < INFINITE
    }

    pub open spec fn zero(self) -> bool {
        self.magnitude() == 0
    }

    /// Position on the number line; the two zeros share theirs.
    pub open spec fn rank(self) -> int {
        if self.negative() {
            -self.magnitude()
        } else {
            self.magnitude() as int
        }
    }

    /// Position in the total order of all bit patterns.
    pub open spec fn total_rank(self) -> int {
        if self.negative() {
            -self.magnitude() - 1
        } else {
            self.magnitude() as int
        }
    }

    /// The exact value, in units of the smallest positive double.
    pub open spec fn value(self) -> int {
        if self.negative() {
            -(units(self.magnitude()) as int)
        } else {
            units(self.magnitude()) as int
        }
    }

    pub open spec fn less(self, other: Double) -> bool {
        !self.nan() && !other.nan() && self.rank() < other.rank()
    }

    pub open spec fn at_most(self, other: Double) -> bool {
        !self.nan() && !other.nan() && self.rank() <= other.rank()
    }

    /// The nearest double to an integer.
    pub open spec fn of_int(n: int) -> Double {
        signed(
            n < 0,
            rounded(
                (if n < 0 {
                    -n
                } else {
                    n
                }) as nat * pow2(1074),
                1,
            ),
        )
    }

    pub open spec fn product(self, other: Double) -> Double {
        let negative = self.negative() != other.negative();
        if self.nan() || other.nan() {
            Double { bits: NOT_A_NUMBER }
        } else if self.infinite() || other.infinite() {
            if self.zero() || other.zero() {
                Double { bits: NOT_A_NUMBER }
            } else {
                signed(negative, INFINITE as nat)
            }
        } else {
            signed(
                negative,
                rounded(units(self.magnitude()) * units(other.magnitude()), pow2(1074)),
            )
        }
    }

    pub open spec fn quotient(self, other: Double) -> Double {
        let negative = self.negative() != other.negative();
        if self.nan() || other.nan() || (self.infinite() && other.infinite()) || (self.zero()
            && other.zero()) {
            Double { bits: NOT_A_NUMBER }
        } else if self.infinite() || other.zero() {
            signed(negative, INFINITE as nat)
        } else if other.infinite() {
            signed(negative, 0)
        } else {
            signed(
                negative,
                rounded(units(self.magnitude()) * pow2(1074), units(other.magnitude())),
            )
        }
    }

    pub open spec fn sum(self, other: Double) -> Double {
        if self.nan() || other.nan() || (self.infinite() && other.infinite() && self.negative()
            != other.negative()) {
            Double { bits: NOT_A_NUMBER }
        } else if self.infinite() {
            self
        } else if other.infinite() {
            other
        } else {
            let exact = self.value() + other.value();
            if exact == 0 {
                signed(self.negative() && other.negative(), 0)
            } else if exact < 0 {
                signed(true, rounded((-exact) as nat, 1))
            } else {
                signed(false, rounded(exact as nat, 1))
            }
        }
    }

    /// The value without its sign.
    pub open spec fn absolute(self) -> Double {
        signed(false, self.magnitude())
    }

    pub fn is_negative(self) -> (r: bool)
        ensures
            r == self.negative(),
    {
        self.bits >= SIGN_BIT
    }

    pub fn get_magnitude(self) -> (r: u64)
        ensures
            r == self.magnitude(),
            r < SIGN_BIT,
    {
        if self.bits >= SIGN_BIT {
            self.bits - SIGN_BIT
        } else {
            self.bits
        }
    }

    pub fn is_finite(self) -> (r: bool)
        ensures
            r == self.finite(),
    {
        self.get_magnitude() < INFINITE
    }

    /// Whether `self < other` on the number line; false beside a NaN.
    pub fn lt(self, other: Double) -> (r: bool)
        ensures
            r == self.less(other),
    {
        let a: u64 = self.get_magnitude();
        let b: u64 = other.get_magnitude();
        if a > INFINITE || b > INFINITE {
            return false;
        }
        if self.is_negative() {
            if other.is_negative() {
                b < a
            } else {
                a > 0 || b > 0
            }
        } else {
            !other.is_negative() && a < b
        }
    }

    /// Whether `self <= other` on the number line; false beside a NaN.
    pub fn le(self, other: Double) -> (r: bool)
        ensures
            r == self.at_most(other),
    {
        let a: u64 = self.get_magnitude();
        let b: u64 = other.get_magnitude();
        if a > INFINITE || b > INFINITE {
            return false;
        }
        !other.lt(self)
    }

    /// Whether `self` comes before `other` in the total order.
    pub fn total_lt(self, other: Double) -> (r: bool)
        ensures
            r == (self.total_rank() < other.total_rank()),
    {
        let a: u64 = self.get_magnitude();
        let b: u64 = other.get_magnitude();
        if self.is_negative() {
            !other.is_negative() || b < a
        } else {
            !other.is_negative() && a < b
        }
    }

    pub fn abs(self) -> (r: Double)
        ensures
            r == self.absolute(),
    {
        Double { bits: self.get_magnitude() }
    }

    fn with_sign(negative: bool, mag: u64) -> (r: Double)
        requires
            mag < SIGN_BIT,
        ensures
            r == signed(negative, mag as nat),
    {
        if negative {
            Double { bits: mag + SIGN_BIT }
        } else {
            Double { bits: mag }
        }
    }

    /// The nearest double to `n`.
    pub fn from_i64(n: i64) -> (r: Double)
        ensures
            r == Double::of_int(n as int),
    {
        let p: u64 = crate::text::magnitude(n);
        proof {
            lemma2_to64();
        }
        Double::with_sign(n < 0, round_scaled(p as u128, 1074))
    }

    /// The nearest double to `n`.
    pub fn from_u64(n: u64) -> (r: Double)
        ensures
            r == Double::of_int(n as int),
    {
        proof {
            lemma2_to64();
        }
        Double::with_sign(false, round_scaled(n as u128, 1074))
    }

    /// Significand and exponent of a finite magnitude.
    pub(crate) fn parts(mag: u64) -> (r: (u64, i32))
        requires
            mag < INFINITE,
        ensures
            r.0 == significand(mag as nat),
            r.1 == scale(mag as nat),
            0 <= r.1 <= 2045,
            r.0 < 2 * HIDDEN_BIT,
    {
        proof {
            lemma_magnitude_parts(mag as nat);
        }
        if mag < HIDDEN_BIT {
            (mag, 0)
        } else {
            (mag % HIDDEN_BIT + HIDDEN_BIT, (mag / HIDDEN_BIT) as i32 - 1)
        }
    }

    /// `self * other`.
    pub fn times(self, other: Double) -> (r: Double)
        ensures
            r == self.product(other),
    {
        let negative = self.is_negative() != other.is_negative();
        let a: u64 = self.get_magnitude();
        let b: u64 = other.get_magnitude();
        if a > INFINITE || b > INFINITE {
            return Double { bits: NOT_A_NUMBER };
        }
        if a == INFINITE || b == INFINITE {
            if a == 0 || b == 0 {
                return Double { bits: NOT_A_NUMBER };
            }
            return Double::with_sign(negative, INFINITE);
        }
        let (ma, ea) = Double::parts(a);
        let (mb, eb) = Double::parts(b);
        proof {
            assert(ma * mb < 0x100_0000_0000_0000_0000_0000_0000_0000) by (nonlinear_arith)
                requires
                    ma < 0x20_0000_0000_0000,
                    mb < 0x20_0000_0000_0000,
            ;
            let p = (ma * mb) as nat;
            lemma_pow2_adds(ea as nat, eb as nat);
            assert((ma * pow2(ea as nat)) * (mb * pow2(eb as nat)) == (ma * mb) * (pow2(ea as nat)
                * pow2(eb as nat))) by (nonlinear_arith);
            lemma_rounded_exponents(p, 1, (ea + eb) as nat, 1074);
            assert(1 * pow2(1074) == pow2(1074));
            let y = ea + eb - 1074;
            assert(1 * pow2(up(-y)) == pow2(up(-y)));
        }
        Double::with_sign(negative, round_scaled(ma as u128 * mb as u128, ea + eb - 1074))
    }

    /// Significand of full length and exponent of a positive finite magnitude.
    fn normal_parts(mag: u64) -> (r: (u64, i32))
        requires
            0 < mag < INFINITE,
        ensures
            HIDDEN_BIT <= r.0 < 2 * HIDDEN_BIT,
            -52 <= r.1 <= 2045,
            units(mag as nat) * pow2(up(-r.1)) == r.0 * pow2(up(r.1 as int)),
    {
        let (m0, e0) = Double::parts(mag);
        let mut m: u64 = m0;
        let mut e: i32 = e0;
        proof {
            lemma_magnitude_parts(mag as nat);
            lemma2_to64();
            lemma2_to64_rest();
            assert(m0 * pow2(e0 as nat) * 1 == m0 * pow2(e0 as nat));
        }
        while m < HIDDEN_BIT
            invariant
                0 < m < 2 * HIDDEN_BIT,
                m < HIDDEN_BIT ==> e <= 0,
                e <= 2045,
                e < 0 ==> m >= pow2(up(-e)),
                -52 <= e,
                units(mag as nat) * pow2(up(-e)) == m * pow2(up(e as int)),
            decreases 2 * HIDDEN_BIT - m,
        {
            proof {
                lemma2_to64();
                lemma2_to64_rest();
                lemma_pow2_unfold(up(-e) + 1);
                assert(up(1 - e) == up(-e) + 1);
                assert(up(e as int) == 0 && up(e - 1) == 0);
                assert(units(mag as nat) * (2 * pow2(up(-e))) == 2 * (units(mag as nat) * pow2(
                    up(-e),
                ))) by (nonlinear_arith);
                assert(m * pow2(0) == m && (2 * m) * pow2(0) == 2 * m) by (nonlinear_arith)
                    requires
                        pow2(0) == 1,
                ;
            }
            m = m * 2;
            e = e - 1;
        }
        (m, e)
    }

    /// `self / other`.
    pub fn over(self, other: Double) -> (r: Double)
        ensures
            r == self.quotient(other),
    {
        let negative = self.is_negative() != other.is_negative();
        let a: u64 = self.get_magnitude();
        let b: u64 = other.get_magnitude();
        if a > INFINITE || b > INFINITE || (a == INFINITE && b == INFINITE) || (a == 0 && b == 0) {
            return Double { bits: NOT_A_NUMBER };
        }
        if a == INFINITE || b == 0 {
            return Double::with_sign(negative, INFINITE);
        }
        if b == INFINITE {
            return Double::with_sign(negative, 0);
        }
        if a == 0 {
            proof {
                lemma_magnitude_parts(0);
                lemma_magnitude_parts(b as nat);
                lemma_pow2_pos(scale(b as nat));
                assert(units(0) * pow2(1074) == 0) by (nonlinear_arith)
                    requires
                        units(0) == significand(0) * pow2(scale(0)),
                        significand(0) == 0,
                ;
                assert(units(b as nat) > 0) by (nonlinear_arith)
                    requires
                        units(b as nat) == significand(b as nat) * pow2(scale(b as nat)),
                        significand(b as nat) > 0,
                        pow2(scale(b as nat)) > 0,
                ;
                lemma_rounded_zero(units(b as nat));
            }
            return Double::with_sign(negative, 0);
        }
        let (ma, ea) = Double::normal_parts(a);
        let (mb, eb) = Double::normal_parts(b);
        let n: u128 = ma as u128 * 0x100_0000_0000_0000;
        let q: u128 = n / mb as u128;
        let rem: u128 = n % mb as u128;
        proof {
            lemma_fundamental_div_mod(n as int, mb as int);
            assert(0x40_0000_0000_0000 <= q <= n) by (nonlinear_arith)
                requires
                    n == mb * q + rem,
                    0 <= rem < mb,
                    mb < 0x20_0000_0000_0000,
                    mb > 0,
                    n >= 0x1000_0000_0000_0000_0000_0000_0000,
                    q >= 0,
            ;
        }
        let p: u128 = if rem == 0 {
            2 * q
        } else {
            2 * q + 1
        };
        let x: i32 = ea - eb + 1074 - 57;
        proof {
            lemma_quotient_scaled(a as nat, b as nat, ma as nat, ea as int, mb as nat, eb as int);
        }
        Double::with_sign(negative, round_scaled(p, x))
    }

    /// `self + other`.
    pub fn plus(self, other: Double) -> (r: Double)
        ensures
            r == self.sum(other),
    {
        let a: u64 = self.get_magnitude();
        let b: u64 = other.get_magnitude();
        if a > INFINITE || b > INFINITE || (a == INFINITE && b == INFINITE && self.is_negative()
            != other.is_negative()) {
            return Double { bits: NOT_A_NUMBER };
        }
        if a == INFINITE {
            return self;
        }
        if b == INFINITE {
            return other;
        }
        let (ma, ea) = Double::parts(a);
        let (mb, eb) = Double::parts(b);
        if ea >= eb {
            add_ordered(self, other, ma, ea, mb, eb)
        } else {
            add_ordered(other, self, mb, eb, ma, ea)
        }
    }
}

/// The sum of two finite doubles, the first with the larger exponent.
fn add_ordered(hi: Double, lo: Double, mh: u64, eh: i32, ml: u64, el: i32) -> (r: Double)
    requires
        hi.finite(),
        lo.finite(),
        mh == significand(hi.magnitude()),
        eh == scale(hi.magnitude()),
        ml == significand(lo.magnitude()),
        el == scale(lo.magnitude()),
        0 <= el <= eh <= 2045,
    ensures
        r == hi.sum(lo),
{
    let ghost uh = units(hi.magnitude());
    let ghost ul = units(lo.magnitude());
    proof {
        lemma_magnitude_parts(hi.magnitude());
        lemma_magnitude_parts(lo.magnitude());
    }
    let diff: i32 = eh - el;
    if diff > 64 {
        proof {
            let t = ul;
            lemma_pow2_pos(el as nat);
            lemma_pow2_adds(53, el as nat);
            lemma2_to64_rest();
            assert(t < pow2(53) * pow2(el as nat)) by (nonlinear_arith)
                requires
                    t == ml * pow2(el as nat),
                    ml < pow2(53),
                    pow2(el as nat) > 0,
            ;
            lemma_pow2_strictly_increases((53 + el) as nat, (eh - 2) as nat);
            lemma_absorbed(mh as nat, eh as nat, t);
            lemma_pow2_strictly_increases((eh - 2) as nat, eh as nat);
            assert(uh >= pow2(eh as nat)) by (nonlinear_arith)
                requires
                    uh == mh * pow2(eh as nat),
                    mh >= 1,
                    pow2(eh as nat) > 0,
            ;
        }
        return hi;
    }
    proof {
        lemma2_to64();
        lemma2_to64_rest();
        if diff < 64 {
            lemma_pow2_strictly_increases(diff as nat, 64);
        }
        lemma_pow2_pos(diff as nat);
        assert(mh * pow2(diff as nat) <= 0x20_0000_0000_0000 * 0x1_0000_0000_0000_0000)
            by (nonlinear_arith)
            requires
                mh < 0x20_0000_0000_0000,
                0 < pow2(diff as nat) <= 0x1_0000_0000_0000_0000,
        ;
    }
    let big: u128 = mh as u128 * power_of_two(diff as u32);
    let small: u128 = ml as u128;
    proof {
        lemma_pow2_adds(diff as nat, el as nat);
        assert(uh == big * pow2(el as nat)) by (nonlinear_arith)
            requires
                uh == mh * (pow2(diff as nat) * pow2(el as nat)),
                big == mh * pow2(diff as nat),
        ;
    }
    let total: u128;
    let negative: bool;
    if hi.is_negative() == lo.is_negative() {
        total = big + small;
        negative = hi.is_negative();
    } else if big >= small {
        total = big - small;
        negative = hi.is_negative();
    } else {
        total = small - big;
        negative = lo.is_negative();
    }
    proof {
        let c = pow2(el as nat);
        lemma_pow2_pos(el as nat);
        assert((big + small) * c == big * c + small * c) by (nonlinear_arith);
        assert((big - small) * c == big * c - small * c) by (nonlinear_arith);
        assert((small - big) * c == small * c - big * c) by (nonlinear_arith);
        let exact = hi.value() + lo.value();
        assert(exact == (if negative {
            -(total * c)
        } else {
            total * c
        }));
        assert((total * c == 0) == (total == 0)) by (nonlinear_arith)
            requires
                c > 0,
                total >= 0,
        ;
        assert(total * c >= 0) by (nonlinear_arith)
            requires
                c > 0,
                total >= 0,
        ;
        if total != 0 {
            assert(total * c > 0);
        }
    }
    if total == 0 {
        return Double::with_sign(hi.is_negative() && lo.is_negative(), 0);
    }
    Double::with_sign(negative, round_scaled(total, el))
}

/// The quotient of two significands, long enough, rounds as the exact
/// quotient does.
proof fn lemma_quotient_scaled(a: nat, b: nat, ma: nat, ea: int, mb: nat, eb: int)
    requires
        units(a) * pow2(up(-ea)) == ma * pow2(up(ea)),
        units(b) * pow2(up(-eb)) == mb * pow2(up(eb)),
        HIDDEN_BIT <= ma < 2 * HIDDEN_BIT,
        HIDDEN_BIT <= mb < 2 * HIDDEN_BIT,
    ensures
        ({
            let n = ma * 0x100_0000_0000_0000;
            let p = 2 * (n / mb) + if n % mb == 0 {
                0nat
            } else {
                1nat
            };
            let x = ea - eb + 1017;
            rounded(p * pow2(up(x)), pow2(up(-x))) == rounded(units(a) * pow2(1074), units(b))
        }),
{
    let n = ma * 0x100_0000_0000_0000;
    let sticky: nat = if n % mb == 0 {
        0
    } else {
        1
    };
    let q = n / mb;
    let p = 2 * q + sticky;
    let x = ea - eb + 1017;
    lemma2_to64();
    lemma2_to64_rest();
    assert(pow2(56) == 0x100_0000_0000_0000);
    // The quotient has more than 53 digits.
    lemma_fundamental_div_mod(n as int, mb as int);
    assert(q >= 0x40_0000_0000_0000) by (nonlinear_arith)
        requires
            n == mb * q + n % mb,
            0 <= n % mb < mb,
            0 < mb < 0x20_0000_0000_0000,
            n >= 0x1000_0000_0000_0000_0000_0000_0000,
    ;
    lemma_bit_length_bounds(q);
    if bit_length(q) < 54 {
        lemma_pow2_strictly_increases(bit_length(q), 54);
    }
    // Scale numerator and denominator alike.
    let ua = units(a);
    let ub = units(b);
    let c1 = pow2(up(-ea));
    let c2 = pow2(up(-eb));
    lemma_pow2_pos(up(-ea));
    lemma_pow2_pos(up(-eb));
    lemma_pow2_pos(up(eb));
    lemma_pow2_pos(1074);
    assert(ub > 0) by (nonlinear_arith)
        requires
            ub * c2 == mb * pow2(up(eb)),
            mb > 0,
            pow2(up(eb)) > 0,
            c2 > 0,
            ub >= 0,
    ;
    let c = (c1 * c2) * pow2(56);
    assert(c > 0) by (nonlinear_arith)
        requires
            c == (c1 * c2) * pow2(56),
            c1 > 0,
            c2 > 0,
            pow2(56) > 0,
    ;
    crate::rounding::lemma_rounded_cancel(ua * pow2(1074), ub, c);
    let i = up(ea) + up(-eb) + 1074;
    let j = up(eb) + up(-ea) + 56;
    lemma_pow2_adds(up(ea), up(-eb));
    lemma_pow2_adds(up(ea) + up(-eb), 1074);
    lemma_pow2_adds(up(eb), up(-ea));
    lemma_pow2_adds(up(eb) + up(-ea), 56);
    assert((ua * pow2(1074)) * c == n * pow2(i)) by (nonlinear_arith)
        requires
            c == (c1 * c2) * pow2(56),
            ua * c1 == ma * pow2(up(ea)),
            n == ma * pow2(56),
            pow2(i) == (pow2(up(ea)) * c2) * pow2(1074),
    ;
    assert(ub * c == mb * pow2(j)) by (nonlinear_arith)
        requires
            c == (c1 * c2) * pow2(56),
            ub * c2 == mb * pow2(up(eb)),
            pow2(j) == (pow2(up(eb)) * c1) * pow2(56),
    ;
    lemma_rounded_exponents(n, mb, i, j);
    let i1 = up(x + 1);
    let j1 = up(-(x + 1));
    assert(up(i - j) == i1 && up(j - i) == j1);
    lemma_rounded_sticky(n, mb, i1, j1);
    lemma_pow2_unfold(j1 + 1);
    lemma_rounded_exponents(p, 1, i1, j1 + 1);
    assert(1 * pow2(j1 + 1) == 2 * pow2(j1));
    assert(up(i1 - (j1 + 1)) == up(x) && up((j1 + 1) - i1) == up(-x));
    assert(1 * pow2(up(-x)) == pow2(up(-x)));
}

/// Whether two numbers differ by at most one part in `2^53` of `slack`.
pub open spec fn near(a: int, b: int, slack: int) -> bool {
    &&& (a - b) * (2 * HIDDEN_BIT) <= slack
    &&& (b - a) * (2 * HIDDEN_BIT) <= slack
}

/// A number is near itself, and being near adds up.
pub proof fn lemma_near_chain(a: int, b: int, c: int, s: int, t: int)
    ensures
        near(a, a, 0),
        near(a, b, s) && near(b, c, t) ==> near(a, c, s + t),
{
    assert((a - a) * (2 * HIDDEN_BIT) == 0);
    assert((a - c) * (2 * HIDDEN_BIT) == (a - b) * (2 * HIDDEN_BIT) + (b - c) * (2 * HIDDEN_BIT))
        by (nonlinear_arith);
    assert((c - a) * (2 * HIDDEN_BIT) == (c - b) * (2 * HIDDEN_BIT) + (b - a) * (2 * HIDDEN_BIT))
        by (nonlinear_arith);
}

/// A sum that is finite is that of finite numbers, and differs from the exact
/// sum by at most one part in `2^53` of itself.
pub proof fn sums_are_near(a: Double, b: Double)
    requires
        a.sum(b).finite(),
    ensures
        a.finite(),
        b.finite(),
        near(a.sum(b).value(), a.value() + b.value(), units(a.sum(b).magnitude()) as int),
{
    let exact = a.value() + b.value();
    let size = (if exact < 0 {
        -exact
    } else {
        exact
    }) as nat;
    if exact == 0 {
        lemma_magnitude_parts(0);
        assert(units(0) == 0) by (nonlinear_arith)
            requires
                units(0) == significand(0) * pow2(scale(0)),
                significand(0) == 0,
        ;
    } else {
        lemma_rounded_near(size);
        let r = units(rounded(size, 1)) as int;
        assert((-r - (-size)) * (2 * HIDDEN_BIT) == (size - r) * (2 * HIDDEN_BIT));
    }
}

/// Zero plus a number is that number.
pub proof fn zero_adds_nothing(x: Double)
    requires
        !x.nan(),
    ensures
        Double::of_int(0).sum(x).rank() == x.rank(),
        Double::of_int(0) == (Double { bits: 0 }),
        Double::of_int(0).value() == 0,
{
    lemma_whole_numbers_are_finite(0);
    lemma_magnitude_parts(0);
    assert(units(0) == 0) by (nonlinear_arith)
        requires
            units(0) == significand(0) * pow2(scale(0)),
            significand(0) == 0,
    ;
    if x.finite() {
        lemma_rounded_exact(x.magnitude());
        lemma_rounded_zero(1);
        if units(x.magnitude()) == 0 {
            assert(x.magnitude() == 0);
        }
    }
}

/// Zero times a whole number is zero.
pub proof fn zero_times_a_whole_number(n: nat)
    requires
        n <= u64::MAX,
    ensures
        Double::of_int(0).product(Double::of_int(n as int)) == Double::of_int(0),
{
    lemma_whole_numbers_are_finite(0);
    lemma_whole_numbers_are_finite(n);
    lemma_magnitude_parts(0);
    let m = units(Double::of_int(n as int).magnitude());
    assert(units(0) * m == 0) by (nonlinear_arith)
        requires
            units(0) == significand(0) * pow2(scale(0)),
            significand(0) == 0,
    ;
    lemma_pow2_pos(1074);
    lemma_rounded_zero(pow2(1074));
}

/// A whole number of at most 53 binary digits is exact as a double.
pub proof fn whole_numbers_are_exact(n: int)
    requires
        -0x20_0000_0000_0000 < n < 0x20_0000_0000_0000,
    ensures
        Double::of_int(n).finite(),
        Double::of_int(n).value() == n * pow2(1074),
        Double::of_int(n).negative() == (n < 0),
        units(Double::of_int(n).magnitude()) == (if n < 0 {
            -n
        } else {
            n
        }) * pow2(1074),
        Double::of_int(n).zero() == (n == 0),
{
    let w = (if n < 0 {
        -n
    } else {
        n
    }) as nat;
    lemma_whole_numbers_are_finite(w);
    lemma_rounded_whole(w, 1074);
    lemma_pow2_pos(1074);
    assert(n < 0 ==> -(w * pow2(1074)) == n * pow2(1074)) by (nonlinear_arith)
        requires
            n < 0 ==> w == -n,
    ;
    if n != 0 {
        assert(w * pow2(1074) > 0) by (nonlinear_arith)
            requires
                w > 0,
                pow2(1074) > 0,
        ;
        lemma_units_of_zero();
    }
}

proof fn lemma_units_of_zero()
    ensures
        units(0) == 0,
{
    lemma_magnitude_parts(0);
    assert(units(0) == 0) by (nonlinear_arith)
        requires
            units(0) == significand(0) * pow2(scale(0)),
            significand(0) == 0,
    ;
}

/// A product that is finite is that of finite numbers, and differs from the
/// exact product by at most one part in `2^53` of itself, or by half a unit.
pub proof fn products_are_near(a: Double, b: Double)
    requires
        a.product(b).finite(),
    ensures
        a.finite(),
        b.finite(),
        near(
            a.product(b).value() * pow2(1074),
            a.value() * b.value(),
            (units(a.product(b).magnitude()) + HIDDEN_BIT) * pow2(1074),
        ),
{
    let d = pow2(1074);
    lemma_pow2_pos(1074);
    let x = units(a.magnitude());
    let y = units(b.magnitude());
    let p = a.product(b);
    let u = units(p.magnitude());
    lemma_rounded_quotient_near(x * y, d);
    assert(a.value() * b.value() == if a.negative() != b.negative() {
        -(x * y)
    } else {
        (x * y) as int
    }) by (nonlinear_arith)
        requires
            a.value() == if a.negative() {
                -x
            } else {
                x as int
            },
            b.value() == if b.negative() {
                -y
            } else {
                y as int
            },
    ;
    assert(p.value() * d == if p.negative() {
        -(u * d)
    } else {
        (u * d) as int
    }) by (nonlinear_arith)
        requires
            p.value() == if p.negative() {
                -u
            } else {
                u as int
            },
    ;
}

/// A quotient that is finite, by a finite number other than zero, differs from
/// the exact quotient by at most one part in `2^53` of itself, or by half a
/// unit.
pub proof fn quotients_are_near(a: Double, b: Double)
    requires
        a.quotient(b).finite(),
        b.finite(),
        !b.zero(),
    ensures
        a.finite(),
        near(
            a.quotient(b).value() * b.value(),
            a.value() * pow2(1074),
            (units(a.quotient(b).magnitude()) + HIDDEN_BIT) * units(b.magnitude()),
        ),
{
    let x = units(a.magnitude());
    let y = units(b.magnitude());
    let q = a.quotient(b);
    let u = units(q.magnitude());
    let d = pow2(1074);
    lemma_rounded_exact(b.magnitude());
    lemma_rounded_zero(1);
    assert(y > 0);
    lemma_rounded_quotient_near(x * d, y);
    assert(q.value() * b.value() == if a.negative() {
        -(u * y)
    } else {
        (u * y) as int
    }) by (nonlinear_arith)
        requires
            q.value() == if a.negative() != b.negative() {
                -u
            } else {
                u as int
            },
            b.value() == if b.negative() {
                -y
            } else {
                y as int
            },
    ;
    assert(a.value() * d == if a.negative() {
        -(x * d)
    } else {
        (x * d) as int
    }) by (nonlinear_arith)
        requires
            a.value() == if a.negative() {
                -x
            } else {
                x as int
            },
    ;
}

/// Finite numbers compare by their values.
pub proof fn numbers_compare_by_value(a: Double, b: Double)
    requires
        a.finite(),
        b.finite(),
    ensures
        a.less(b) <==> a.value() < b.value(),
        a.at_most(b) <==> a.value() <= b.value(),
{
    let x = a.magnitude();
    let y = b.magnitude();
    lemma_units_of_zero();
    lemma_rounded_exact(x);
    lemma_rounded_exact(y);
    lemma_rounded_exact(0);
    if x <= y {
        crate::decimal::lemma_units_grow(x, y);
    } else {
        crate::decimal::lemma_units_grow(y, x);
    }
}

} // verus!
