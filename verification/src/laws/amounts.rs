//! How numbers, amounts and dates are written.

use vstd::arithmetic::div_mod::*;
use vstd::arithmetic::power2::*;
use vstd::prelude::*;

use crate::decimal::{one_decimal_text, two_decimals_text};
use crate::double::Double;
use crate::format::{dollars_option_text, thousands_text, usd_cents_text, usd_compact_text};
use crate::rounding::{half_even, units};
use crate::text::{digit, int_text, nat_text};
use crate::timestamp::{balanced, date_of, first_bytes};

verus! {

/// The number that a row of decimal digits stands for.
pub open spec fn value_of(s: Seq<char>) -> int
    decreases s.len(),
{
    if s.len() == 0 {
        0
    } else {
        10 * value_of(s.drop_last()) + (s.last() as int - '0' as int)
    }
}

/// A whole number in decimal stands for itself: nothing but digits, without a
/// leading zero.
pub proof fn numbers_are_written_in_digits(n: nat)
    ensures
        value_of(nat_text(n)) == n,
        nat_text(n).len() > 0,
        forall|i: int| 0 <= i < nat_text(n).len() ==> '0' <= #[trigger] nat_text(n)[i] <= '9',
        n > 0 ==> nat_text(n)[0] != '0',
        int_text(n as int) == nat_text(n),
        n > 0 ==> int_text(-n) == "-"@ + nat_text(n),
    decreases n,
{
    reveal_with_fuel(value_of, 2);
    let t = nat_text(n);
    if n < 10 {
        assert(t.drop_last() =~= Seq::<char>::empty());
    } else {
        numbers_are_written_in_digits(n / 10);
        let front = nat_text(n / 10);
        assert(t.drop_last() =~= front);
        assert forall|i: int| 0 <= i < t.len() implies '0' <= #[trigger] t[i] <= '9' by {
            if i < front.len() {
                assert(t[i] == front[i]);
            }
        }
        assert(t[0] == front[0]);
    }
}

proof fn lemma_nearest(n: nat, d: nat)
    requires
        d > 0,
    ensures
        2 * (half_even(n, d) * d - n) <= d,
        2 * (n - half_even(n, d) * d) <= d,
{
    lemma_fundamental_div_mod(n as int, d as int);
    let q = n / d;
    let r = n % d;
    let m = half_even(n, d);
    assert(m * d - n == if m == q { -r } else { d - r }) by (nonlinear_arith)
        requires
            n == d * q + r,
            m == q || m == q + 1,
    ;
}

/// One decimal tells a number to the nearest tenth.
pub proof fn one_decimal_is_the_nearest_tenth(x: Double)
    requires
        x.finite(),
    ensures
        exists|n: nat|
            one_decimal_text(x) == (if x.negative() {
                "-"@
            } else {
                ""@
            }) + (#[trigger] nat_text(n / 10) + "."@ + seq![digit(n % 10)]) && 2 * (n * pow2(1074)
                - 10 * units(x.magnitude())) <= pow2(1074) && 2 * (10 * units(x.magnitude()) - n
                * pow2(1074)) <= pow2(1074),
{
    let d = pow2(1074);
    lemma_pow2_pos(1074);
    let u = units(x.magnitude());
    let n = half_even(u * 10, d);
    lemma_nearest(u * 10, d);
    assert(one_decimal_text(x) == (if x.negative() {
        "-"@
    } else {
        ""@
    }) + (nat_text(n / 10) + "."@ + seq![digit(n % 10)]));
}

/// Two decimals tell a number to the nearest hundredth.
pub proof fn two_decimals_are_the_nearest_hundredth(x: Double)
    requires
        x.finite(),
    ensures
        exists|n: nat|
            two_decimals_text(x) == (if x.negative() {
                "-"@
            } else {
                ""@
            }) + (#[trigger] nat_text(n / 100) + "."@ + seq![digit((n % 100) / 10)] + seq![
                digit(n % 10),
            ]) && 2 * (n * pow2(1074) - 100 * units(x.magnitude())) <= pow2(1074) && 2 * (100
                * units(x.magnitude()) - n * pow2(1074)) <= pow2(1074),
{
    let d = pow2(1074);
    lemma_pow2_pos(1074);
    let u = units(x.magnitude());
    let n = half_even(u * 100, d);
    lemma_nearest(u * 100, d);
    assert(two_decimals_text(x) == (if x.negative() {
        "-"@
    } else {
        ""@
    }) + (nat_text(n / 100) + "."@ + seq![digit((n % 100) / 10)] + seq![digit(n % 10)]));
}

/// Commas stand before every third digit, counted from the right, and nowhere
/// else; what is left without them is the number.
pub proof fn commas_part_the_thousands(n: nat)
    ensures
        forall|j: int|
            0 <= j < thousands_text(n).len() ==> (#[trigger] thousands_text(n)[thousands_text(
                n,
            ).len() - 1 - j] == ',' <==> j % 4 == 3),
        thousands_text(n).len() > 0,
        thousands_text(n)[0] != ',',
    decreases n,
{
    let t = thousands_text(n);
    reveal_strlit(",");
    if n < 1000 {
        numbers_are_written_in_digits(n);
        reveal_with_fuel(crate::decimal::tens, 4);
        crate::decimal::lemma_digit_count(n, 3);
    } else {
        let front = thousands_text(n / 1000);
        commas_part_the_thousands(n / 1000);
        assert(t.len() == front.len() + 4);
        assert forall|j: int| 0 <= j < t.len() implies (#[trigger] t[t.len() - 1 - j] == ',' <==> j
            % 4 == 3) by {
            if j >= 4 {
                assert(t[t.len() - 1 - j] == front[front.len() - 1 - (j - 4)]);
            }
        }
        assert(t[0] == front[0]);
    }
}

proof fn lemma_half_up(n: nat, d: nat)
    requires
        d > 0,
    ensures
        2 * (crate::decimal::half_up(n, d) * d - n) <= d,
        2 * (n - crate::decimal::half_up(n, d) * d) <= d,
{
    let m = crate::decimal::half_up(n, d);
    lemma_fundamental_div_mod((2 * n + d) as int, (2 * d) as int);
    let r = (2 * n + d) % (2 * d);
    assert(2 * (m * d) == 2 * n + d - r) by (nonlinear_arith)
        requires
            2 * n + d == (2 * d) * m + r,
    ;
}

/// An amount of at least a hundred dollars is told in whole dollars, the
/// nearest; a smaller one with its cents; the sign stands before the dollar.
pub proof fn amounts_are_told_to_the_dollar_or_the_cent(x: Double)
    requires
        x.finite(),
        units(x.magnitude()) < 0x7fff_ffff_ffff_ffff * pow2(1074),
    ensures
        ({
            let u = units(x.magnitude());
            let d = pow2(1074);
            let sign = if x.negative() && u > 0 {
                "-$"@
            } else {
                "$"@
            };
            &&& u >= 100 * d ==> exists|n: nat|
                usd_compact_text(x) == sign + #[trigger] thousands_text(n) && 2 * (n * d - u) <= d
                    && 2 * (u - n * d) <= d
            &&& u < 100 * d ==> usd_compact_text(x) == sign + two_decimals_text(x.absolute())
        }),
{
    let d = pow2(1074);
    let u = units(x.magnitude());
    lemma_pow2_pos(1074);
    crate::decimal::lemma_hundred();
    crate::double::zero_adds_nothing(Double { bits: 0 });
    crate::rounding::lemma_rounded_exact(x.magnitude());
    crate::rounding::lemma_rounded_zero(1);
    let y = x.absolute();
    let h: nat = 0x4059_0000_0000_0000;
    assert(y.magnitude() == x.magnitude() && !y.negative());
    if x.magnitude() >= h {
        crate::decimal::lemma_units_grow(h, x.magnitude());
        let n = crate::decimal::half_up(u, d);
        lemma_half_up(u, d);
        assert(n <= u64::MAX) by (nonlinear_arith)
            requires
                2 * (n * d - u) <= d,
                u < 0x7fff_ffff_ffff_ffff * d,
                d > 0,
        ;
        assert(u >= 100 * d);
        assert(crate::decimal::rounded_magnitude(y) == n);
        let sign = if x.negative() && u > 0 {
            "-$"@
        } else {
            "$"@
        };
        assert(usd_compact_text(x) == sign + thousands_text(n));
    } else {
        crate::decimal::lemma_units_grow(x.magnitude(), h);
        if u == 100 * d {
            assert(units(h) == u);
            crate::rounding::lemma_rounded_exact(h);
        }
        if u == 0 {
            assert(x.magnitude() == 0);
            assert(units(0) == 0);
        } else if x.magnitude() == 0 {
            crate::rounding::lemma_magnitude_parts(0);
            assert(units(0) == 0) by (nonlinear_arith)
                requires
                    units(0) == crate::rounding::significand(0) * pow2(crate::rounding::scale(0)),
                    crate::rounding::significand(0) == 0,
            ;
        }
    }
}

/// An amount that is not known, or not a finite number, is told as a dash.
pub proof fn unknown_amounts_are_dashes(x: Double)
    requires
        !x.finite(),
    ensures
        dollars_option_text(None) == "$—"@,
        dollars_option_text(Some(x)) == "$—"@,
        usd_cents_text(x) == "-"@,
{
}

/// The date of an instant is what its text begins with: ten characters, where
/// these are plain.
pub proof fn dates_are_ten_characters(text: Seq<char>)
    requires
        text.len() >= 10,
        forall|i: int| 0 <= i < 10 ==> (#[trigger] text[i] as int) < 0x80,
    ensures
        date_of(text) == text.take(10),
{
    lemma_first_bytes(text, 10);
}

proof fn lemma_first_bytes(s: Seq<char>, n: nat)
    requires
        s.len() >= n,
        forall|i: int| 0 <= i < n ==> (#[trigger] s[i] as int) < 0x80,
    ensures
        first_bytes(s, n) == Some(s.take(n as int)),
    decreases n,
{
    if n == 0 {
        assert(s.take(0) =~= Seq::<char>::empty());
    } else {
        let rest = s.drop_first();
        assert forall|i: int| 0 <= i < n - 1 implies (#[trigger] rest[i] as int) < 0x80 by {
            assert(rest[i] == s[i + 1]);
        }
        lemma_first_bytes(rest, (n - 1) as nat);
        assert((s[0] as int) < 0x80);
        assert(s.take(n as int) =~= seq![s[0]] + rest.take(n - 1));
    }
}

/// Seconds and nanoseconds that are brought to one sign are the same instant.
pub proof fn balancing_keeps_the_instant(second: int, nanosecond: int)
    requires
        -1_000_000_000 < nanosecond < 1_000_000_000,
    ensures
        ({
            let (s, n) = balanced(second, nanosecond);
            &&& s * 1_000_000_000 + n == second * 1_000_000_000 + nanosecond
            &&& -1_000_000_000 < n < 1_000_000_000
            &&& s > 0 ==> n >= 0
            &&& s < 0 ==> n <= 0
        }),
{
}

/// What is no finite number is written as a word, with any number of decimals.
pub proof fn what_is_no_number_is_named(x: Double)
    ensures
        one_decimal_text(x) == "NaN"@ <==> x.nan(),
        one_decimal_text(x) == "inf"@ <==> x.infinite() && !x.negative(),
        one_decimal_text(x) == "-inf"@ <==> x.infinite() && x.negative(),
        !x.finite() ==> two_decimals_text(x) == one_decimal_text(x),
{
    reveal_strlit("NaN");
    reveal_strlit("inf");
    reveal_strlit("-inf");
    reveal_strlit("-");
    reveal_strlit("");
    reveal_strlit(".");
    assert("NaN"@.len() == 3 && "NaN"@[0] == 'N' && "inf"@.len() == 3 && "inf"@[0] == 'i');
    assert("-inf"@.len() == 4 && "-inf"@[1] == 'i');
    if x.finite() {
        let n = half_even(units(x.magnitude()) * 10, pow2(1074));
        let t = one_decimal_text(x);
        let sign = if x.negative() {
            "-"@
        } else {
            ""@
        };
        assert(t == sign + (nat_text(n / 10) + "."@ + seq![digit(n % 10)]));
        assert(t[t.len() - 2] == '.');
        assert("NaN"@[1] == 'a' && "inf"@[1] == 'n' && "-inf"@[2] == 'n');
    }
}

} // verus!
