//! What a CPU summary tells of the samples, and where the samples come from.

use vstd::arithmetic::div_mod::*;
use vstd::arithmetic::power2::*;
use vstd::prelude::*;

use crate::aws::cloudwatch::{
    absorbed, absorbed_all, asks_for, batch_count, batch_of, digits_number, first_active, largest,
    no_slots, percentile_index, query_id, query_ids_lead_back, query_of, split_at_underscore,
    summarizes, summary_for, summary_of, total, Ascending, MetricQuery, MetricResult, QueryKind,
    SlotView, ACTIVE_THRESHOLD_BITS, EMPTY_SUM_BITS, PERCENTILE_BITS,
};
use crate::aws::{convertible, SdkInstant};
use crate::double::{
    lemma_near_chain, near, quotients_are_near, sums_are_near, whole_numbers_are_exact, Double,
};
use crate::laws::amounts::value_of;
use crate::model::{option_text, CpuSummary};
use crate::order::{inserted, sorted, sorting_keeps_elements};
use crate::rounding::{
    lemma_magnitude_parts, lemma_rounded_cancel, lemma_rounded_exact, lemma_rounded_near,
    lemma_rounded_to_a_multiple, rounded, scale, significand, units, HIDDEN_BIT, INFINITE,
};
use crate::timestamp::Timestamp;

verus! {

/// The units of 0.95.
proof fn lemma_share_units()
    ensures
        units(PERCENTILE_BITS as nat) == 0x1e_6666_6666_6666 * pow2(1021),
        pow2(1074) == 0x20_0000_0000_0000 * pow2(1021),
        pow2(1021) > 0,
{
    let h = HIDDEN_BIT as int;
    lemma_fundamental_div_mod_converse(
        PERCENTILE_BITS as int,
        h,
        0x3fe,
        0xe_6666_6666_6666,
    );
    lemma2_to64_rest();
    lemma_pow2_adds(53, 1021);
    lemma_pow2_pos(1021);
}

/// The product stays far below what is infinite.
proof fn lemma_product_is_finite(n: nat)
    requires
        1 <= n <= 0x1_0000_0000_0000,
    ensures
        rounded((n * 0x1e_6666_6666_6666) * pow2(1021), 1) < INFINITE,
{
    let x = (n * 0x1e_6666_6666_6666) * pow2(1021);
    let w = n * 0x1e_6666_6666_6666;
    lemma_pow2_pos(1021);
    lemma2_to64_rest();
    lemma_pow2_adds(48, 53);
    lemma_pow2_adds(101, 1021);
    assert(x < pow2(1122)) by (nonlinear_arith)
        requires
            x == w * pow2(1021),
            w < pow2(101),
            pow2(1021) > 0,
            pow2(1122) == pow2(101) * pow2(1021),
    ;
    crate::rounding::lemma_bit_length_below(x, 1122);
    let s = crate::rounding::dropped_bits(x);
    assert(x / 1 == x);
    assert(1 * pow2(s) == pow2(s));
    lemma_pow2_pos(s);
    crate::rounding::lemma_bit_length_below(x, 1122);
    let q = x / pow2(s);
    lemma_pow2_adds(53, s);
    if x > 0 {
        crate::rounding::lemma_bit_length_bounds(x);
        if crate::rounding::bit_length(x) < 53 + s {
            lemma_pow2_strictly_increases(crate::rounding::bit_length(x), 53 + s);
        }
    }
    lemma_pow2_pos(53 + s);
    lemma_fundamental_div_mod(x as int, pow2(s) as int);
    assert(q < pow2(53)) by (nonlinear_arith)
        requires
            x < pow2(53) * pow2(s),
            x == pow2(s) * q + x % pow2(s),
            0 <= x % pow2(s),
            pow2(s) > 0,
    ;
    assert(s <= 1069);
}

/// The arithmetic of the position: `u` is near `n * 0.95` in units of `p / 2^53`.
proof fn lemma_position(n: nat, k: nat, u: nat, x: nat, p: nat)
    requires
        1 <= n <= 0x1_0000_0000_0000,
        p > 0,
        x == (n * 0x1e_6666_6666_6666) * p,
        (u - x) * 0x20_0000_0000_0000 <= u,
        (x - u) * 0x20_0000_0000_0000 <= u,
        n % 20 == 0 ==> u == (19 * (n / 20)) * (0x20_0000_0000_0000 * p),
        k * (0x20_0000_0000_0000 * p) <= u < (k + 1) * (0x20_0000_0000_0000 * p),
    ensures
        100 * k <= 95 * n < 100 * (k + 1),
{
    let t: int = 0x20_0000_0000_0000;
    let d = t * p;
    assert(20 * x == (19 * n) * d - (8 * n) * p) by (nonlinear_arith)
        requires
            x == (n * 0x1e_6666_6666_6666) * p,
            d == 0x20_0000_0000_0000 * p,
    ;
    if n % 20 == 0 {
        let j = n / 20;
        assert(k == 19 * j) by (nonlinear_arith)
            requires
                k * d <= (19 * j) * d,
                (19 * j) * d < (k + 1) * d,
                d > 0,
        ;
    } else {
        if 20 * k > 19 * n {
            assert(false) by (nonlinear_arith)
                requires
                    20 * k >= 19 * n + 1,
                    k * d <= u,
                    d == t * p,
                    (u - x) * t <= u,
                    20 * x == (19 * n) * d - (8 * n) * p,
                    t == 0x20_0000_0000_0000,
                    1 <= n <= 0x1_0000_0000_0000,
                    p > 0,
            {
                assert(20 * u >= (19 * n + 1) * d);
                assert(20 * u * (t - 1) <= 20 * x * t);
                assert((19 * n + 1) * d * (t - 1) <= 20 * u * (t - 1));
                assert((19 * n + 1) * d * (t - 1) <= ((19 * n) * d - (8 * n) * p) * t);
                assert((19 * n + 1) * (t * p) * (t - 1) == ((19 * n + 1) * (t - 1)) * (t * p));
                assert(((19 * n) * (t * p) - (8 * n) * p) * t == ((19 * n) * t - 8 * n) * (t * p));
                assert((19 * n + 1) * (t - 1) <= (19 * n) * t - 8 * n);
                assert((19 * n + 1) * (t - 1) == (19 * n) * t + t - 19 * n - 1);
            }
        }
        if 19 * n >= 20 * (k + 1) {
            assert(19 * n >= 20 * (k + 1) + 1);
            assert(false) by (nonlinear_arith)
                requires
                    19 * n >= 20 * (k + 1) + 1,
                    u < (k + 1) * d,
                    d == t * p,
                    (x - u) * t <= u,
                    20 * x == (19 * n) * d - (8 * n) * p,
                    t == 0x20_0000_0000_0000,
                    1 <= n <= 0x1_0000_0000_0000,
                    p > 0,
            {
                assert(20 * u < (20 * (k + 1)) * d);
                assert((20 * (k + 1)) * d <= (19 * n - 1) * d);
                assert(20 * x * t <= 20 * u * (t + 1));
                assert(20 * u * (t + 1) < (19 * n - 1) * d * (t + 1));
                assert((19 * n - 1) * (t * p) * (t + 1) == ((19 * n - 1) * (t + 1)) * (t * p));
                assert(((19 * n) * (t * p) - (8 * n) * p) * t == ((19 * n) * t - 8 * n) * (t * p));
                assert((19 * n) * t - 8 * n < (19 * n - 1) * (t + 1));
                assert((19 * n - 1) * (t + 1) == (19 * n) * t + 19 * n - t - 1);
            }
        }
    }
}

/// The 95th percentile of `n` samples stands at the position below which 95 of
/// 100 samples lie: `k` is 95 hundredths of `n`, rounded down.
pub proof fn the_percentile_position(n: nat)
    requires
        1 <= n <= 0x1_0000_0000_0000,
    ensures
        0 <= percentile_index(n) < n,
        100 * percentile_index(n) <= 95 * n < 100 * (percentile_index(n) + 1),
{
    let share = Double { bits: PERCENTILE_BITS };
    let len = Double::of_int(n as int);
    let p = pow2(1021);
    let d = pow2(1074);
    lemma_share_units();
    whole_numbers_are_exact(n as int);
    lemma_product_is_finite(n);
    lemma_pow2_pos(1074);
    let x = (n * 0x1e_6666_6666_6666) * p;
    assert((n * d) * (0x1e_6666_6666_6666 * p) == x * d) by (nonlinear_arith)
        requires
            x == (n * 0x1e_6666_6666_6666) * p,
    ;
    lemma_rounded_cancel(x, 1, d);
    assert(1 * d == d);
    let product = len.product(share);
    assert(product.magnitude() == rounded(x, 1));
    let u = units(rounded(x, 1));
    lemma_rounded_near(x);
    if n % 20 == 0 {
        let j = n / 20;
        let w = 19 * j;
        assert(x > 0) by (nonlinear_arith)
            requires
                x == (n * 0x1e_6666_6666_6666) * p,
                n >= 1,
                p > 0,
        ;
        assert(w * d - x == (8 * j) * p) by (nonlinear_arith)
            requires
                x == (n * 0x1e_6666_6666_6666) * p,
                n == 20 * j,
                w == 19 * j,
                d == 0x20_0000_0000_0000 * p,
        ;
        assert((8 * j) * p >= 0) by (nonlinear_arith)
            requires
                p > 0,
        ;
        assert(((8 * j) * p) * (4 * HIDDEN_BIT) < x) by (nonlinear_arith)
            requires
                x == (n * 0x1e_6666_6666_6666) * p,
                n == 20 * j,
                n >= 1,
                p > 0,
                HIDDEN_BIT == 0x10_0000_0000_0000,
        ;
        lemma_rounded_to_a_multiple(x, w, 1074);
    }
    let k = u / d;
    lemma_fundamental_div_mod(u as int, d as int);
    assert(k * d <= u < (k + 1) * d) by (nonlinear_arith)
        requires
            u == d * k + u % d,
            0 <= u % d < d,
    ;
    lemma_position(n, k, u, x, p);
}

proof fn lemma_inserted_ascending(x: Double, s: Seq<Double>)
    requires
        !x.nan(),
        forall|i: int| 0 <= i < s.len() ==> !(#[trigger] s[i]).nan(),
        forall|i: int, j: int| 0 <= i < j < s.len() ==> (#[trigger] s[i]).at_most(#[trigger] s[j]),
    ensures
        ({
            let t = inserted::<Double, Ascending>(x, s);
            &&& t.len() == s.len() + 1
            &&& forall|i: int| 0 <= i < t.len() ==> !(#[trigger] t[i]).nan()
            &&& forall|i: int, j: int|
                0 <= i < j < t.len() ==> (#[trigger] t[i]).at_most(#[trigger] t[j])
            &&& t[0] == x || (s.len() > 0 && t[0] == s[0])
        }),
    decreases s.len(),
{
    let t = inserted::<Double, Ascending>(x, s);
    if s.len() > 0 && s[0].less(x) {
        let rest = s.drop_first();
        let u = inserted::<Double, Ascending>(x, rest);
        lemma_inserted_ascending(x, rest);
        assert(t =~= seq![s[0]] + u);
        assert forall|j: int| 0 <= j < u.len() implies s[0].at_most(#[trigger] u[j]) by {
            assert(s[0].at_most(u[0])) by {
                if rest.len() > 0 && u[0] == rest[0] {
                    assert(s[0].at_most(s[1]));
                }
            }
            if j > 0 {
                assert(u[0].at_most(u[j]));
            }
        }
        assert forall|i: int, j: int| 0 <= i < j < t.len() implies (#[trigger] t[i]).at_most(
            #[trigger] t[j],
        ) by {
            assert(t[j] == u[j - 1]);
            if i > 0 {
                assert(t[i] == u[i - 1]);
            }
        }
        assert forall|i: int| 0 <= i < t.len() implies !(#[trigger] t[i]).nan() by {
            if i > 0 {
                assert(t[i] == u[i - 1]);
            }
        }
    } else {
        assert(t =~= seq![x] + s);
        assert forall|i: int, j: int| 0 <= i < j < t.len() implies (#[trigger] t[i]).at_most(
            #[trigger] t[j],
        ) by {
            assert(t[j] == s[j - 1]);
            if i > 0 {
                assert(t[i] == s[i - 1]);
            } else if j > 1 {
                assert(s[0].at_most(s[j - 1]));
            }
        }
        assert forall|i: int| 0 <= i < t.len() implies !(#[trigger] t[i]).nan() by {
            if i > 0 {
                assert(t[i] == s[i - 1]);
            }
        }
    }
}

proof fn lemma_sorted_ascending(s: Seq<Double>)
    requires
        forall|i: int| 0 <= i < s.len() ==> !(#[trigger] s[i]).nan(),
    ensures
        ({
            let t = sorted::<Double, Ascending>(s);
            &&& t.len() == s.len()
            &&& forall|i: int| 0 <= i < t.len() ==> !(#[trigger] t[i]).nan()
            &&& forall|i: int, j: int|
                0 <= i < j < t.len() ==> (#[trigger] t[i]).at_most(#[trigger] t[j])
        }),
    decreases s.len(),
{
    if s.len() > 0 {
        let rest = s.drop_first();
        assert forall|i: int| 0 <= i < rest.len() implies !(#[trigger] rest[i]).nan() by {
            assert(rest[i] == s[i + 1]);
        }
        lemma_sorted_ascending(rest);
        lemma_inserted_ascending(s[0], sorted::<Double, Ascending>(rest));
    }
}

/// Whether `s` holds the samples, from the lowest to the highest.
pub open spec fn ascending_order_of(s: Seq<Double>, samples: Seq<Double>) -> bool {
    &&& s.len() == samples.len()
    &&& s.to_multiset() == samples.to_multiset()
    &&& forall|i: int, j: int| 0 <= i < j < s.len() ==> (#[trigger] s[i]).at_most(#[trigger] s[j])
}

/// The percentile of a summary is the sample that stands, in ascending order,
/// at 95 hundredths of their number.
pub proof fn the_percentile_is_a_sample(
    averages: Seq<Double>,
    maximums: Seq<Double>,
    last_active_at: Option<Timestamp>,
    window_secs: i64,
)
    requires
        1 <= averages.len() <= 0x1_0000_0000_0000,
        forall|i: int| 0 <= i < averages.len() ==> !(#[trigger] averages[i]).nan(),
    ensures
        exists|s: Seq<Double>, k: int|
            #![trigger s[k]]
            ascending_order_of(s, averages) && 0 <= k < s.len() && 100 * k <= 95 * averages.len()
                && 95 * averages.len() < 100 * (k + 1) && summary_of(
                averages,
                maximums,
                last_active_at,
                window_secs,
            ).p95_pct == Some(s[k]),
{
    let s = sorted::<Double, Ascending>(averages);
    let k = percentile_index(averages.len());
    the_percentile_position(averages.len());
    sorting_keeps_elements::<Double, Ascending>(averages);
    lemma_sorted_ascending(averages);
    assert(ascending_order_of(s, averages));
    assert(s[k] == s[k]);
}

/// A summary counts the samples and carries window and last activity along.
/// Without samples it tells nothing else; with samples it has a mean and a
/// percentile.
pub proof fn a_summary_counts_the_samples(
    averages: Seq<Double>,
    maximums: Seq<Double>,
    last_active_at: Option<Timestamp>,
    window_secs: i64,
)
    requires
        averages.len() <= usize::MAX,
    ensures
        ({
            let c = summary_of(averages, maximums, last_active_at, window_secs);
            &&& c.samples == averages.len()
            &&& c.window_secs == window_secs
            &&& c.last_active_at == last_active_at
            &&& c.avg_pct is Some <==> averages.len() > 0
            &&& c.p95_pct is Some <==> averages.len() > 0
            &&& averages.len() == 0 ==> c.max_pct is None
        }),
{
}

/// The exact sum of some numbers, in units of the smallest positive double.
pub open spec fn exact_total(values: Seq<Double>) -> int
    decreases values.len(),
{
    if values.len() == 0 {
        0
    } else {
        exact_total(values.drop_last()) + values.last().value()
    }
}

/// The sizes of all the subtotals on the way to the sum, added up.
pub open spec fn running_totals(values: Seq<Double>) -> int
    decreases values.len(),
{
    if values.len() == 0 {
        0
    } else {
        running_totals(values.drop_last()) + units(total(values).magnitude())
    }
}

/// A sum that is finite differs from the exact sum of all the numbers by
/// rounding alone.
pub proof fn the_total_is_near_the_exact_sum(values: Seq<Double>)
    requires
        total(values).finite(),
    ensures
        near(total(values).value(), exact_total(values), running_totals(values)),
    decreases values.len(),
{
    if values.len() == 0 {
        lemma_magnitude_parts(0);
        assert(units(0) == 0) by (nonlinear_arith)
            requires
                units(0) == significand(0) * pow2(scale(0)),
                significand(0) == 0,
        ;
        assert(total(values) == (Double { bits: EMPTY_SUM_BITS }));
        lemma_near_chain(0, 0, 0, 0, 0);
    } else {
        let front = values.drop_last();
        let last = values.last();
        sums_are_near(total(front), last);
        the_total_is_near_the_exact_sum(front);
        let before = total(front).value();
        let exact = exact_total(front);
        assert(before + last.value() - (exact + last.value()) == before - exact);
        assert(near(before + last.value(), exact + last.value(), running_totals(front)));
        lemma_near_chain(
            total(values).value(),
            before + last.value(),
            exact + last.value(),
            units(total(values).magnitude()) as int,
            running_totals(front),
        );
    }
}

/// The mean times the number of samples is their sum, but for rounding.
pub proof fn the_mean_times_the_count_is_the_sum(
    averages: Seq<Double>,
    maximums: Seq<Double>,
    last_active_at: Option<Timestamp>,
    window_secs: i64,
)
    requires
        1 <= averages.len() < 0x20_0000_0000_0000,
        summary_of(averages, maximums, last_active_at, window_secs).avg_pct->0.finite(),
    ensures
        ({
            let mean = summary_of(averages, maximums, last_active_at, window_secs).avg_pct->0;
            let n = averages.len();
            near(
                (mean.value() * n) * pow2(1074),
                exact_total(averages) * pow2(1074),
                ((units(mean.magnitude()) + HIDDEN_BIT) * n + running_totals(averages)) * pow2(1074),
            )
        }),
{
    let sum = total(averages);
    let n = averages.len() as int;
    let count = Double::of_int(n);
    let mean = sum.quotient(count);
    let d = pow2(1074) as int;
    whole_numbers_are_exact(n);
    quotients_are_near(sum, count);
    the_total_is_near_the_exact_sum(averages);
    let m = mean.value();
    let size = (units(mean.magnitude()) + HIDDEN_BIT) as int;
    let exact = exact_total(averages);
    let slack = running_totals(averages);
    assert(m * (n * d) == (m * n) * d) by (nonlinear_arith);
    assert(size * (n * d) == (size * n) * d) by (nonlinear_arith);
    assert(near(sum.value() * d, exact * d, slack * d)) by {
        let a = sum.value();
        assert((a * d - exact * d) * (2 * HIDDEN_BIT) <= slack * d && (exact * d - a * d) * (2
            * HIDDEN_BIT) <= slack * d) by (nonlinear_arith)
            requires
                (a - exact) * (2 * HIDDEN_BIT) <= slack,
                (exact - a) * (2 * HIDDEN_BIT) <= slack,
                d >= 0,
        ;
    }
    lemma_near_chain((m * n) * d, sum.value() * d, exact * d, (size * n) * d, slack * d);
    assert((size * n) * d + slack * d == (size * n + slack) * d) by (nonlinear_arith);
}

/// The highest of some numbers: one of them, and none is higher.
pub proof fn the_largest_is_the_maximum(values: Seq<Double>)
    requires
        values.len() > 0,
        forall|i: int| 0 <= i < values.len() ==> (#[trigger] values[i]).finite(),
    ensures
        values.contains(largest(values)),
        forall|i: int| 0 <= i < values.len() ==> (#[trigger] values[i]).at_most(largest(values)),
    decreases values.len(),
{
    let front = values.drop_last();
    let last = values[values.len() - 1];
    assert(values.last() == last);
    reveal_with_fuel(largest, 2);
    if front.len() > 0 {
        assert forall|i: int| 0 <= i < front.len() implies (#[trigger] front[i]).finite() by {
            assert(front[i] == values[i]);
        }
        the_largest_is_the_maximum(front);
        assert forall|i: int| 0 <= i < values.len() implies (#[trigger] values[i]).at_most(
            largest(values),
        ) by {
            if i < front.len() {
                assert(front[i] == values[i]);
                assert(front[i].at_most(largest(front)));
            }
        }
        if largest(values) == largest(front) {
            let k = choose|k: int| 0 <= k < front.len() && front[k] == largest(front);
            assert(values[k] == front[k]);
        }
    } else {
        assert(front =~= Seq::<Double>::empty());
    }
}

/// A summary tells the highest of the hourly maximums: one of them, and none is
/// higher. Neither averages nor percentile have a part in it.
pub proof fn a_summary_tells_the_highest_maximum(
    averages: Seq<Double>,
    maximums: Seq<Double>,
    last_active_at: Option<Timestamp>,
    window_secs: i64,
)
    requires
        averages.len() > 0,
        forall|i: int| 0 <= i < maximums.len() ==> (#[trigger] maximums[i]).finite(),
    ensures
        ({
            let c = summary_of(averages, maximums, last_active_at, window_secs);
            &&& c.max_pct is Some <==> maximums.len() > 0
            &&& c.max_pct is Some ==> maximums.contains(c.max_pct->0)
            &&& forall|i: int|
                0 <= i < maximums.len() ==> (#[trigger] maximums[i]).at_most(c.max_pct->0)
        }),
{
    if maximums.len() > 0 {
        the_largest_is_the_maximum(maximums);
        let k = choose|k: int| 0 <= k < maximums.len() && maximums[k] == largest(maximums);
        assert(maximums[k].finite());
    }
}

/// The activity threshold is five percent.
proof fn lemma_threshold_is_five()
    ensures
        (Double { bits: ACTIVE_THRESHOLD_BITS }) == Double::of_int(5),
{
    let m = ACTIVE_THRESHOLD_BITS as nat;
    lemma_fundamental_div_mod_converse(m as int, HIDDEN_BIT as int, 0x401, 0x4_0000_0000_0000);
    lemma_rounded_exact(m);
    lemma2_to64_rest();
    lemma_pow2_adds(50, 1024);
    let a = pow2(1024);
    assert(0x14_0000_0000_0000 * a == 5 * (0x4_0000_0000_0000 * a)) by (nonlinear_arith);
}

/// The last activity is the first hour in the answer that reached five percent,
/// the newest coming first. Below five percent nothing counts as active.
pub proof fn activity_starts_at_five_percent(values: Seq<Double>, timestamps: Seq<SdkInstant>)
    ensures
        first_active(values, timestamps) is Some ==> exists|i: int|
            0 <= i < values.len() && i < timestamps.len() && Double::of_int(5).at_most(
                #[trigger] values[i],
            ) && convertible(timestamps[i]) && (timestamps[i].secs >= 0 ==> first_active(
                values,
                timestamps,
            ) == Some((timestamps[i].secs, timestamps[i].subsec_nanos as i32))) && forall|j: int|
                0 <= j < i ==> !Double::of_int(5).at_most(#[trigger] values[j]),
        (forall|i: int|
            0 <= i < values.len() && i < timestamps.len() ==> !Double::of_int(5).at_most(
                #[trigger] values[i],
            )) ==> first_active(values, timestamps) is None,
        values.len() > 0 && timestamps.len() > 0 && Double::of_int(5).at_most(values[0])
            && convertible(timestamps[0]) ==> first_active(values, timestamps) is Some,
        values.len() > 0 && timestamps.len() > 0 && !Double::of_int(5).at_most(values[0])
            ==> first_active(values, timestamps) == first_active(
            values.drop_first(),
            timestamps.drop_first(),
        ),
    decreases values.len(),
{
    lemma_threshold_is_five();
    if values.len() > 0 && timestamps.len() > 0 {
        let v = values.drop_first();
        let t = timestamps.drop_first();
        if Double::of_int(5).at_most(values[0]) {
            assert(values[0] == values[0]);
        } else {
            activity_starts_at_five_percent(v, t);
            if first_active(values, timestamps) is Some {
                let i = choose|i: int|
                    0 <= i < v.len() && i < t.len() && Double::of_int(5).at_most(#[trigger] v[i])
                        && convertible(t[i]) && (t[i].secs >= 0 ==> first_active(v, t) == Some(
                        (t[i].secs, t[i].subsec_nanos as i32),
                    )) && forall|j: int|
                        0 <= j < i ==> !Double::of_int(5).at_most(#[trigger] v[j]);
                assert(values[i + 1] == v[i]);
                assert(timestamps[i + 1] == t[i]);
                assert forall|j: int| 0 <= j < i + 1 implies !Double::of_int(5).at_most(
                    #[trigger] values[j],
                ) by {
                    if j > 0 {
                        assert(values[j] == v[j - 1]);
                    }
                }
            } else if forall|i: int|
                0 <= i < values.len() && i < timestamps.len() ==> !Double::of_int(5).at_most(
                    #[trigger] values[i],
                ) {
                assert forall|i: int| 0 <= i < v.len() && i < t.len() implies !Double::of_int(
                    5,
                ).at_most(#[trigger] v[i]) by {
                    assert(values[i + 1] == v[i]);
                }
            }
        }
    }
}

/// The answer to a query goes to the instance that was asked about and to the
/// statistic that was asked for; nothing else changes. An answer for no
/// instance of the batch changes nothing at all.
pub proof fn an_answer_goes_where_it_belongs(
    slots: Seq<SlotView>,
    kind: QueryKind,
    idx: nat,
    values: Seq<Double>,
    timestamps: Seq<SdkInstant>,
)
    requires
        idx <= usize::MAX,
    ensures
        ({
            let after = absorbed(slots, Some(query_id(kind, idx)), values, timestamps);
            &&& after.len() == slots.len()
            &&& idx >= slots.len() ==> after == slots
            &&& forall|j: int| 0 <= j < slots.len() && j != idx ==> #[trigger] after[j] == slots[j]
            &&& idx < slots.len() && kind == QueryKind::Avg ==> {
                &&& after[idx as int].averages == slots[idx as int].averages + values
                &&& after[idx as int].maximums == slots[idx as int].maximums
                &&& after[idx as int].last_active == slots[idx as int].last_active
            }
            &&& idx < slots.len() && kind == QueryKind::Max ==> {
                &&& after[idx as int].averages == slots[idx as int].averages
                &&& after[idx as int].maximums == slots[idx as int].maximums + values
                &&& slots[idx as int].last_active is Some ==> after[idx as int].last_active
                    == slots[idx as int].last_active
                &&& slots[idx as int].last_active is None ==> after[idx as int].last_active
                    == first_active(values, timestamps)
            }
        }),
{
    query_ids_lead_back(kind, idx);
}

/// What all answers to one query bring, one after another.
pub open spec fn answers(results: Seq<MetricResult>, kind: QueryKind, idx: nat) -> Seq<Double>
    decreases results.len(),
{
    if results.len() == 0 {
        Seq::empty()
    } else {
        let front = answers(results.drop_last(), kind, idx);
        let last = results.last();
        if last.id is Some && query_of(last.id->0@) == Some((kind, idx)) {
            front + last.values@
        } else {
            front
        }
    }
}

/// Nothing that was received is lost or mixed up: after all results an instance
/// has the values of all answers to its own two queries, in their order.
pub proof fn answers_are_kept(slots: Seq<SlotView>, results: Seq<MetricResult>, i: int)
    requires
        0 <= i < slots.len(),
    ensures
        absorbed_all(slots, results).len() == slots.len(),
        absorbed_all(slots, results)[i].averages == slots[i].averages + answers(
            results,
            QueryKind::Avg,
            i as nat,
        ),
        absorbed_all(slots, results)[i].maximums == slots[i].maximums + answers(
            results,
            QueryKind::Max,
            i as nat,
        ),
        slots[i].last_active is Some ==> absorbed_all(slots, results)[i].last_active
            == slots[i].last_active,
    decreases results.len(),
{
    if results.len() == 0 {
        assert(slots[i].averages + Seq::<Double>::empty() =~= slots[i].averages);
        assert(slots[i].maximums + Seq::<Double>::empty() =~= slots[i].maximums);
    } else {
        let front = results.drop_last();
        answers_are_kept(slots, front, i);
        let before = absorbed_all(slots, front);
        let last = results.last();
        assert(option_text(last.id) is Some == last.id is Some);
        let a = answers(front, QueryKind::Avg, i as nat);
        let m = answers(front, QueryKind::Max, i as nat);
        assert((slots[i].averages + a) + last.values@ =~= slots[i].averages + (a + last.values@));
        assert((slots[i].maximums + m) + last.values@ =~= slots[i].maximums + (m + last.values@));
    }
}

/// The samples of an instance are those that were received for it, and nothing
/// else.
pub proof fn samples_are_what_was_received(n: nat, results: Seq<MetricResult>, i: int)
    requires
        0 <= i < n,
    ensures
        absorbed_all(no_slots(n), results).len() == n,
        absorbed_all(no_slots(n), results)[i].averages == answers(
            results,
            QueryKind::Avg,
            i as nat,
        ),
        absorbed_all(no_slots(n), results)[i].maximums == answers(
            results,
            QueryKind::Max,
            i as nat,
        ),
{
    answers_are_kept(no_slots(n), results, i);
    let none = Seq::<Double>::empty();
    let a = answers(results, QueryKind::Avg, i as nat);
    let m = answers(results, QueryKind::Max, i as nat);
    assert(none + a =~= a);
    assert(none + m =~= m);
}

/// The summary of an instance of a batch counts the averages that were received
/// for it, whatever was received for others.
pub proof fn a_summary_counts_what_was_received(
    c: CpuSummary,
    n: nat,
    results: Seq<MetricResult>,
    i: int,
    window_secs: i64,
)
    requires
        0 <= i < n,
        summarizes(c, absorbed_all(no_slots(n), results)[i], window_secs),
        answers(results, QueryKind::Avg, i as nat).len() <= usize::MAX,
    ensures
        c.samples == answers(results, QueryKind::Avg, i as nat).len(),
        c.window_secs == window_secs,
{
    samples_are_what_was_received(n, results, i);
}

/// A batch asks at most 500 queries, the most that one call takes, and every
/// batch but the last is full.
pub proof fn a_batch_fits_in_one_call(ids: Seq<String>, k: int)
    requires
        0 <= k,
        250 * k < ids.len(),
    ensures
        0 < 2 * batch_of(ids, k).len() <= 500,
        250 * (k + 1) <= ids.len() ==> 2 * batch_of(ids, k).len() == 500,
        forall|j: int|
            0 <= j < batch_of(ids, k).len() ==> #[trigger] batch_of(ids, k)[j] == ids[250 * k + j],
{
}

/// A query asks CloudWatch for the hourly average or maximum of the CPU load
/// of one instance.
pub proof fn queries_ask_for_hourly_cpu(q: MetricQuery, kind: QueryKind, idx: nat, id: Seq<char>)
    requires
        asks_for(q, kind, idx, id),
    ensures
        q.namespace@ == "AWS/EC2"@,
        q.metric_name@ == "CPUUtilization"@,
        q.dimension_name@ == "InstanceId"@,
        q.dimension_value@ == id,
        q.period == 60 * 60,
        q.stat@ == if kind == QueryKind::Avg {
            "Average"@
        } else {
            "Maximum"@
        },
        q.return_data,
        idx <= usize::MAX ==> query_of(q.id@) == Some((kind, idx)),
{
    if idx <= usize::MAX {
        query_ids_lead_back(kind, idx);
    }
}

/// An instance gets the summary that carries its id, the last where there are
/// several, and none where there is none.
pub proof fn summaries_go_by_id(summaries: Seq<(String, CpuSummary)>, id: Seq<char>)
    ensures
        summary_for(summaries, id) is Some <==> exists|i: int|
            0 <= i < summaries.len() && (#[trigger] summaries[i]).0@ == id,
        summary_for(summaries, id) is Some ==> exists|i: int|
            0 <= i < summaries.len() && (#[trigger] summaries[i]).0@ == id && summary_for(
                summaries,
                id,
            ) == Some(summaries[i].1) && forall|j: int|
                i < j < summaries.len() ==> (#[trigger] summaries[j]).0@ != id,
    decreases summaries.len(),
{
    if summaries.len() > 0 {
        let front = summaries.drop_last();
        let n = summaries.len() - 1;
        summaries_go_by_id(front, id);
        if summaries[n].0@ == id {
            assert(summary_for(summaries, id) == Some(summaries[n].1));
        } else {
            if summary_for(front, id) is Some {
                let i = choose|i: int|
                    0 <= i < front.len() && (#[trigger] front[i]).0@ == id && summary_for(front, id)
                        == Some(front[i].1) && forall|j: int|
                        i < j < front.len() ==> (#[trigger] front[j]).0@ != id;
                assert(summaries[i] == front[i]);
                assert forall|j: int| i < j < summaries.len() implies (#[trigger] summaries[j]).0@
                    != id by {
                    if j < n {
                        assert(front[j] == summaries[j]);
                    }
                }
            } else {
                assert forall|i: int| 0 <= i < summaries.len() implies (#[trigger] summaries[i]).0@
                    != id by {
                    if i < n {
                        assert(front[i] == summaries[i]);
                    }
                }
            }
        }
    }
}

proof fn lemma_split(s: Seq<char>)
    ensures
        split_at_underscore(s) is Some ==> s == (split_at_underscore(s)->0).0 + seq!['_'] + (
        split_at_underscore(s)->0).1,
    decreases s.len(),
{
    if s.len() > 0 {
        let rest = s.drop_first();
        lemma_split(rest);
        if let Some((a, b)) = split_at_underscore(s) {
            if s[0] == '_' {
                assert(s =~= a + seq!['_'] + b);
            } else {
                let (c, d) = split_at_underscore(rest)->0;
                assert(s =~= seq![s[0]] + rest);
                assert(s =~= a + seq!['_'] + b);
            }
        }
    }
}

/// Whether a text writes an index in decimal, with or without a plus sign.
pub open spec fn writes_index(text: Seq<char>, idx: nat) -> bool {
    text.len() > 0 && (value_of(text) == idx || (text[0] == '+' && value_of(text.drop_first())
        == idx))
}

/// Only ids that begin with `avg_` or `max_` belong to a query, the first to
/// that for the average, the others to that for the maximum; what follows is the
/// index in decimal, which a plus sign may precede.
pub proof fn only_known_prefixes_belong_to_a_query(id: Seq<char>, kind: QueryKind, idx: nat)
    requires
        query_of(id) == Some((kind, idx)),
    ensures
        kind == QueryKind::Avg ==> exists|rest: Seq<char>|
            #[trigger] writes_index(rest, idx) && id == "avg_"@ + rest,
        kind == QueryKind::Max ==> exists|rest: Seq<char>|
            #[trigger] writes_index(rest, idx) && id == "max_"@ + rest,
{
    let (prefix, rest) = split_at_underscore(id)->0;
    lemma_split(id);
    reveal_strlit("avg");
    reveal_strlit("max");
    reveal_strlit("avg_");
    reveal_strlit("max_");
    assert("avg_"@ =~= "avg"@ + seq!['_']);
    assert("max_"@ =~= "max"@ + seq!['_']);
    assert(id =~= prefix + seq!['_'] + rest);
    let body = if rest.len() > 0 && rest[0] == '+' {
        rest.drop_first()
    } else {
        rest
    };
    lemma_digits_value(body);
    assert(writes_index(rest, idx));
    assert(kind == QueryKind::Avg ==> id =~= "avg_"@ + rest);
    assert(kind == QueryKind::Max ==> id =~= "max_"@ + rest);
}

proof fn lemma_digits_value(s: Seq<char>)
    ensures
        digits_number(s) is Some ==> digits_number(s)->0 == value_of(s),
    decreases s.len(),
{
    if s.len() > 0 {
        lemma_digits_value(s.drop_last());
    }
}

/// There are as many batches as it takes, and none is empty.
pub proof fn no_batch_is_empty(n: int)
    requires
        0 <= n,
    ensures
        250 * (batch_count(n) - 1) < n <= 250 * batch_count(n),
{
}

} // verus!
