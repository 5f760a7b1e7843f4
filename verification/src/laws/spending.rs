//! What volumes, instances and fleets cost, but for rounding.
//!
//! Numbers are compared by their exact values, in units of the smallest
//! positive double: `near(a, b, slack)` says that they differ by at most one
//! part in `2^53` of `slack`. One dollar is `pow2(1074)` units.

use vstd::arithmetic::power2::*;
use vstd::prelude::*;

use crate::costs::{
    attached_to, breaks_down, charged_volumes, estimated_cost, exclusion, has_breakdown,
    hourly_cost, is_cost_of, monthly_cost, monthly_total, occurrences, storage_total,
    volume_charges,
};
use crate::double::{
    lemma_near_chain, near, products_are_near, quotients_are_near, sums_are_near,
    whole_numbers_are_exact, zero_adds_nothing, Double,
};
use crate::model::{BurnRate, CostBreakdown, InstanceRecord, InstanceState, VolumeCost, VolumeInfo};
use crate::pricing::{capacity_cost, iops_cost, months_of, throughput_cost, PriceTable};
use crate::rounding::{lemma_rounded_cancel, units, HIDDEN_BIT};
use crate::text::strings;
use crate::timestamp::Timestamp;

verus! {

/// Being near is kept when both numbers are multiplied.
proof fn lemma_near_scaled(a: int, b: int, s: int, k: int)
    requires
        near(a, b, s),
    ensures
        near(a * k, b * k, s * (if k < 0 {
            -k
        } else {
            k
        })),
{
    let t = if k < 0 {
        -k
    } else {
        k
    };
    assert((a * k - b * k) * (2 * HIDDEN_BIT) <= s * t && (b * k - a * k) * (2 * HIDDEN_BIT) <= s
        * t) by (nonlinear_arith)
        requires
            (a - b) * (2 * HIDDEN_BIT) <= s,
            (b - a) * (2 * HIDDEN_BIT) <= s,
            t == if k < 0 {
                -k
            } else {
                k
            },
    ;
}

/// A common factor may be left out.
proof fn lemma_near_unscaled(a: int, b: int, s: int, k: int)
    requires
        k > 0,
        near(a * k, b * k, s * k),
    ensures
        near(a, b, s),
{
    assert((a - b) * (2 * HIDDEN_BIT) <= s && (b - a) * (2 * HIDDEN_BIT) <= s)
        by (nonlinear_arith)
        requires
            (a * k - b * k) * (2 * HIDDEN_BIT) <= s * k,
            (b * k - a * k) * (2 * HIDDEN_BIT) <= s * k,
            k > 0,
    ;
}

/// Sums of near numbers are near.
proof fn lemma_near_added(a: int, b: int, s: int, c: int, d: int, t: int)
    requires
        near(a, b, s),
        near(c, d, t),
    ensures
        near(a + c, b + d, s + t),
{
    assert(((a + c) - (b + d)) * (2 * HIDDEN_BIT) == (a - b) * (2 * HIDDEN_BIT) + (c - d) * (2
        * HIDDEN_BIT)) by (nonlinear_arith);
    assert(((b + d) - (a + c)) * (2 * HIDDEN_BIT) == (b - a) * (2 * HIDDEN_BIT) + (d - c) * (2
        * HIDDEN_BIT)) by (nonlinear_arith);
}

/// The total of a volume is capacity, IOPS and throughput together, but for
/// rounding.
pub proof fn a_volume_costs_the_sum_of_its_charges(
    c: VolumeCost,
    table: PriceTable,
    v: VolumeInfo,
    now: Timestamp,
)
    requires
        is_cost_of(c, table, v, now),
        c.total_usd.finite(),
    ensures
        c.capacity_usd.finite(),
        c.iops_usd.finite(),
        c.throughput_usd.finite(),
        near(
            c.total_usd.value(),
            c.capacity_usd.value() + c.iops_usd.value() + c.throughput_usd.value(),
            (units(c.total_usd.magnitude()) + units(
                c.capacity_usd.sum(c.iops_usd).magnitude(),
            )) as int,
        ),
{
    let two = c.capacity_usd.sum(c.iops_usd);
    sums_are_near(two, c.throughput_usd);
    sums_are_near(c.capacity_usd, c.iops_usd);
    let exact = c.capacity_usd.value() + c.iops_usd.value();
    let t = c.throughput_usd.value();
    lemma_near_chain(t, t, t, 0, 0);
    lemma_near_added(two.value(), exact, units(two.magnitude()) as int, t, t, 0);
    lemma_near_chain(
        c.total_usd.value(),
        two.value() + t,
        exact + t,
        units(c.total_usd.magnitude()) as int,
        units(two.magnitude()) as int,
    );
}

/// The monthly run rate of a volume is that of capacity, IOPS and throughput
/// together, but for rounding.
pub proof fn a_run_rate_is_the_sum_of_its_charges(table: PriceTable, v: VolumeInfo)
    requires
        monthly_cost(table, v).finite(),
    ensures
        ({
            let (a, b, c) = volume_charges(table, v, Double::of_int(1));
            &&& a.finite() && b.finite() && c.finite()
            &&& near(
                monthly_cost(table, v).value(),
                a.value() + b.value() + c.value(),
                (units(monthly_cost(table, v).magnitude()) + units(
                    a.sum(b).magnitude(),
                )) as int,
            )
        }),
{
    let (a, b, c) = volume_charges(table, v, Double::of_int(1));
    sums_are_near(a.sum(b), c);
    sums_are_near(a, b);
    let x = a.value() + b.value();
    let t = c.value();
    let two = a.sum(b);
    lemma_near_chain(t, t, t, 0, 0);
    lemma_near_added(two.value(), x, units(two.magnitude()) as int, t, t, 0);
    lemma_near_chain(
        monthly_cost(table, v).value(),
        two.value() + t,
        x + t,
        units(monthly_cost(table, v).magnitude()) as int,
        units(two.magnitude()) as int,
    );
}

/// A month has 730 hours: that many seconds are one month exactly.
pub proof fn a_month_has_730_hours()
    ensures
        months_of(730 * 60 * 60int) == Double::of_int(1),
{
    let n: int = 2_628_000;
    whole_numbers_are_exact(n);
    whole_numbers_are_exact(1);
    let u = units(Double::of_int(n).magnitude());
    let d = pow2(1074);
    lemma_pow2_pos(1074);
    assert(u > 0) by (nonlinear_arith)
        requires
            u == n * d,
            n > 0,
            d > 0,
    ;
    lemma_rounded_cancel(d, 1, u);
    assert(d * u == u * d) by (nonlinear_arith);
    assert(1 * u == u);
    assert(1 * d == d);
}

/// The months in a duration times the seconds of a month are the duration, but
/// for rounding.
pub proof fn months_measure_the_duration(secs: int)
    requires
        0 <= secs < 0x20_0000_0000_0000,
        months_of(secs).finite(),
    ensures
        near(
            months_of(secs).value() * (730 * 60 * 60),
            secs * pow2(1074),
            (units(months_of(secs).magnitude()) + HIDDEN_BIT) * (730 * 60 * 60),
        ),
{
    let n: int = 2_628_000;
    let d = pow2(1074) as int;
    let a = Double::of_int(secs);
    let b = Double::of_int(n);
    let m = months_of(secs);
    whole_numbers_are_exact(secs);
    whole_numbers_are_exact(n);
    quotients_are_near(a, b);
    lemma_pow2_pos(1074);
    let size = (units(m.magnitude()) + HIDDEN_BIT) as int;
    assert(m.value() * (n * d) == (m.value() * n) * d) by (nonlinear_arith);
    assert(size * (n * d) == (size * n) * d) by (nonlinear_arith);
    lemma_near_unscaled(m.value() * n, secs * d, size * n, d);
}

/// A volume that is one 730-hour month old has cost its monthly run rate.
pub proof fn after_a_month_a_volume_has_cost_its_run_rate(
    c: VolumeCost,
    table: PriceTable,
    v: VolumeInfo,
    now: Timestamp,
)
    requires
        is_cost_of(c, table, v, now),
        now.seconds() == v.create_time.seconds() + 730 * 60 * 60,
    ensures
        c.total_usd == monthly_cost(table, v),
        c.age_secs == 730 * 60 * 60,
{
    a_month_has_730_hours();
}

/// The cost of a volume tells its age, never below zero, and everything that
/// was provisioned, and charges each part of it for the months of that age.
pub proof fn a_volume_cost_describes_the_volume(
    c: VolumeCost,
    table: PriceTable,
    v: VolumeInfo,
    now: Timestamp,
)
    requires
        is_cost_of(c, table, v, now),
    ensures
        c.volume_id@ == v.volume_id@,
        c.volume_type@ == v.volume_type@,
        c.size_gib == v.size_gib,
        c.iops == v.iops,
        c.throughput_mibps == v.throughput_mibps,
        now.seconds() <= v.create_time.seconds() ==> c.age_secs == 0,
        now.seconds() > v.create_time.seconds() && now.seconds() - v.create_time.seconds()
            <= i64::MAX ==> v.create_time.seconds() + c.age_secs == now.seconds(),
        c.excluded_reason is None <==> v.volume_type@ != "standard"@
            && table.ebs_per_gb_month@.contains_key(v.volume_type@),
        c.capacity_usd == capacity_cost(
            table,
            v.volume_type@,
            v.size_gib as int,
            months_of(c.age_secs as int),
        ),
        v.iops is Some ==> c.iops_usd == iops_cost(
            table,
            v.volume_type@,
            v.iops->0 as int,
            months_of(c.age_secs as int),
        ),
        v.iops is None ==> c.iops_usd == Double::of_int(0),
        v.throughput_mibps is Some ==> c.throughput_usd == throughput_cost(
            table,
            v.volume_type@,
            v.throughput_mibps->0 as int,
            months_of(c.age_secs as int),
        ),
        v.throughput_mibps is None ==> c.throughput_usd == Double::of_int(0),
{
}

/// What is missing from a cost is told: per-IO charges of `standard` volumes,
/// and everything of a volume type without a rate.
pub proof fn exclusions_say_what_is_missing(table: PriceTable, volume_type: Seq<char>)
    ensures
        volume_type == "standard"@ <==> exclusion(table, volume_type) == Some(
            "standard: per-IO charges not modeled (capacity counted)"@,
        ),
        exclusion(table, volume_type) == Some("no EBS rate in price table for this volume type"@)
            <==> volume_type != "standard"@ && !table.ebs_per_gb_month@.contains_key(volume_type),
{
    reveal_strlit("standard: per-IO charges not modeled (capacity counted)");
    reveal_strlit("no EBS rate in price table for this volume type");
    assert("standard: per-IO charges not modeled (capacity counted)"@[0] == 's');
    assert("no EBS rate in price table for this volume type"@[0] == 'n');
}

/// A charge is amount times rate times months, but for rounding.
proof fn lemma_charge_is_near(amount: int, rate: Double, months: Double)
    requires
        0 <= amount < 0x20_0000_0000_0000,
        Double::of_int(amount).product(rate).product(months).finite(),
    ensures
        near(
            Double::of_int(amount).product(rate).product(months).value() * pow2(1074),
            amount * rate.value() * months.value(),
            (units(Double::of_int(amount).product(rate).product(months).magnitude()) + HIDDEN_BIT)
                * pow2(1074) + (units(Double::of_int(amount).product(rate).magnitude())
                + HIDDEN_BIT) * units(months.magnitude()),
        ),
{
    let d = pow2(1074) as int;
    let n = Double::of_int(amount);
    let p = n.product(rate);
    let c = p.product(months);
    whole_numbers_are_exact(amount);
    products_are_near(p, months);
    products_are_near(n, rate);
    lemma_pow2_pos(1074);
    let r = rate.value();
    let size = (units(p.magnitude()) + HIDDEN_BIT) as int;
    assert((amount * d) * r == (amount * r) * d) by (nonlinear_arith);
    lemma_near_unscaled(p.value(), amount * r, size, d);
    let m = months.value();
    lemma_near_scaled(p.value(), amount * r, size, m);
    lemma_near_chain(
        c.value() * d,
        p.value() * m,
        (amount * r) * m,
        (units(c.magnitude()) + HIDDEN_BIT) * d,
        size * units(months.magnitude()),
    );
}

/// How far rounding may take the charge for an amount at a rate.
pub open spec fn charge_slack(amount: int, rate: Double, months: Double, cost: Double) -> int {
    (units(cost.magnitude()) + HIDDEN_BIT) * pow2(1074) + (units(
        Double::of_int(amount).product(rate).magnitude(),
    ) + HIDDEN_BIT) * units(months.magnitude())
}

/// Capacity costs size times rate times months, but for rounding. A size below
/// zero counts as zero, and a volume type without a rate costs nothing.
pub proof fn capacity_is_size_times_rate(
    table: PriceTable,
    volume_type: Seq<char>,
    size_gib: i32,
    months: Double,
)
    requires
        capacity_cost(table, volume_type, size_gib as int, months).finite(),
    ensures
        ({
            let cost = capacity_cost(table, volume_type, size_gib as int, months);
            let rates = table.ebs_per_gb_month@;
            let size: int = if size_gib < 0 {
                0
            } else {
                size_gib as int
            };
            &&& !rates.contains_key(volume_type) ==> cost.value() == 0
            &&& rates.contains_key(volume_type) ==> near(
                cost.value() * pow2(1074),
                size * rates[volume_type].value() * months.value(),
                charge_slack(size, rates[volume_type], months, cost),
            )
        }),
{
    zero_adds_nothing(Double { bits: 0 });
    let size: int = if size_gib < 0 {
        0
    } else {
        size_gib as int
    };
    if table.ebs_per_gb_month@.contains_key(volume_type) {
        lemma_charge_is_near(size, table.ebs_per_gb_month@[volume_type], months);
    }
}

/// IOPS cost what is provisioned times rate times months, but for rounding; the
/// first 3000 of a `gp3` volume are free.
pub proof fn iops_beyond_the_free_ones_are_billed(
    table: PriceTable,
    volume_type: Seq<char>,
    iops: i32,
    months: Double,
)
    requires
        iops_cost(table, volume_type, iops as int, months).finite(),
    ensures
        ({
            let cost = iops_cost(table, volume_type, iops as int, months);
            let rates = table.ebs_per_iops_month@;
            let free: int = if volume_type == "gp3"@ {
                3000
            } else {
                0
            };
            let billed: int = if iops < free {
                0
            } else {
                iops - free
            };
            &&& !rates.contains_key(volume_type) ==> cost.value() == 0
            &&& rates.contains_key(volume_type) ==> near(
                cost.value() * pow2(1074),
                billed * rates[volume_type].value() * months.value(),
                charge_slack(billed, rates[volume_type], months, cost),
            )
        }),
{
    zero_adds_nothing(Double { bits: 0 });
    let free: int = if volume_type == "gp3"@ {
        3000
    } else {
        0
    };
    let billed: int = if iops < free {
        0
    } else {
        iops - free
    };
    if table.ebs_per_iops_month@.contains_key(volume_type) {
        lemma_charge_is_near(billed, table.ebs_per_iops_month@[volume_type], months);
    }
}

/// Throughput of a `gp3` volume costs what is provisioned beyond 125 MiB/s
/// times rate times months, but for rounding. No other volume type pays for it.
pub proof fn throughput_beyond_the_free_part_is_billed(
    table: PriceTable,
    volume_type: Seq<char>,
    mibps: i32,
    months: Double,
)
    requires
        throughput_cost(table, volume_type, mibps as int, months).finite(),
    ensures
        ({
            let cost = throughput_cost(table, volume_type, mibps as int, months);
            let rates = table.ebs_per_mibps_month@;
            let billed: int = if mibps < 125 {
                0
            } else {
                mibps - 125
            };
            &&& volume_type != "gp3"@ || !rates.contains_key(volume_type) ==> cost.value() == 0
            &&& volume_type == "gp3"@ && rates.contains_key(volume_type) ==> near(
                cost.value() * pow2(1074),
                billed * rates[volume_type].value() * months.value(),
                charge_slack(billed, rates[volume_type], months, cost),
            )
        }),
{
    zero_adds_nothing(Double { bits: 0 });
    let billed: int = if mibps < 125 {
        0
    } else {
        mibps - 125
    };
    if volume_type == "gp3"@ && table.ebs_per_mibps_month@.contains_key(volume_type) {
        lemma_charge_is_near(billed, table.ebs_per_mibps_month@[volume_type], months);
    }
}

/// The charges of a volume are those for its own size, IOPS and throughput.
pub proof fn a_volume_is_charged_for_what_it_has(table: PriceTable, v: VolumeInfo, months: Double)
    ensures
        ({
            let (capacity, iops, throughput) = volume_charges(table, v, months);
            &&& capacity == capacity_cost(table, v.volume_type@, v.size_gib as int, months)
            &&& v.iops is Some ==> iops == iops_cost(
                table,
                v.volume_type@,
                v.iops->0 as int,
                months,
            )
            &&& v.iops is None ==> iops.value() == 0
            &&& v.throughput_mibps is Some ==> throughput == throughput_cost(
                table,
                v.volume_type@,
                v.throughput_mibps->0 as int,
                months,
            )
            &&& v.throughput_mibps is None ==> throughput.value() == 0
        }),
{
    zero_adds_nothing(Double { bits: 0 });
}

/// An uptime has a compute cost exactly where it is not below zero and the
/// instance type has a rate. Sixty times that cost is the uptime in seconds
/// times the rate per minute, but for rounding.
pub proof fn compute_costs_minutes_times_rate(
    table: PriceTable,
    instance_type: Seq<char>,
    uptime_seconds: int,
)
    requires
        -0x20_0000_0000_0000 < uptime_seconds < 0x20_0000_0000_0000,
    ensures
        estimated_cost(table, instance_type, uptime_seconds) is Some <==> uptime_seconds >= 0
            && table.prices_per_minute@.contains_key(instance_type),
        estimated_cost(table, instance_type, uptime_seconds) is Some && estimated_cost(
            table,
            instance_type,
            uptime_seconds,
        )->0.finite() && Double::of_int(uptime_seconds).quotient(Double::of_int(60)).finite() ==> {
            let cost = estimated_cost(table, instance_type, uptime_seconds)->0;
            let rate = table.prices_per_minute@[instance_type];
            let minutes = Double::of_int(uptime_seconds).quotient(Double::of_int(60));
            near(
                (cost.value() * 60) * pow2(1074),
                (uptime_seconds * pow2(1074)) * rate.value(),
                ((units(cost.magnitude()) + HIDDEN_BIT) * pow2(1074)) * 60 + ((units(
                    minutes.magnitude(),
                ) + HIDDEN_BIT) * 60) * units(rate.magnitude()),
            )
        },
{
    let d = pow2(1074) as int;
    let a = Double::of_int(uptime_seconds);
    let sixty = Double::of_int(60);
    let minutes = a.quotient(sixty);
    whole_numbers_are_exact(uptime_seconds);
    whole_numbers_are_exact(60);
    lemma_pow2_pos(1074);
    if estimated_cost(table, instance_type, uptime_seconds) is Some && estimated_cost(
        table,
        instance_type,
        uptime_seconds,
    )->0.finite() && minutes.finite() {
        let rate = table.prices_per_minute@[instance_type];
        let cost = minutes.product(rate);
        let m = minutes.value();
        let r = rate.value();
        let size = (units(minutes.magnitude()) + HIDDEN_BIT) as int;
        quotients_are_near(a, sixty);
        products_are_near(minutes, rate);
        assert(m * (60 * d) == (m * 60) * d) by (nonlinear_arith);
        assert(size * (60 * d) == (size * 60) * d) by (nonlinear_arith);
        lemma_near_unscaled(m * 60, uptime_seconds * d, size * 60, d);
        lemma_near_scaled(m * 60, uptime_seconds * d, size * 60, r);
        let slack = (units(cost.magnitude()) + HIDDEN_BIT) * d;
        lemma_near_scaled(cost.value() * d, m * r, slack, 60);
        assert((cost.value() * d) * 60 == (cost.value() * 60) * d) by (nonlinear_arith);
        assert((m * r) * 60 == (m * 60) * r) by (nonlinear_arith);
        lemma_near_chain(
            (cost.value() * 60) * d,
            (m * 60) * r,
            (uptime_seconds * d) * r,
            slack * 60,
            (size * 60) * units(rate.magnitude()),
        );
    }
}

/// The exact sum of the totals of some volumes.
pub open spec fn exact_storage(costs: Seq<VolumeCost>) -> int
    decreases costs.len(),
{
    if costs.len() == 0 {
        0
    } else {
        exact_storage(costs.drop_last()) + costs.last().total_usd.value()
    }
}

/// The sizes of all the subtotals on the way to the storage cost, added up.
pub open spec fn storage_subtotals(costs: Seq<VolumeCost>) -> int
    decreases costs.len(),
{
    if costs.len() == 0 {
        0
    } else {
        storage_subtotals(costs.drop_last()) + units(storage_total(costs).magnitude())
    }
}

/// The storage cost is that of all volumes together, but for rounding.
pub proof fn storage_adds_up(costs: Seq<VolumeCost>)
    requires
        storage_total(costs).finite(),
    ensures
        near(storage_total(costs).value(), exact_storage(costs), storage_subtotals(costs)),
    decreases costs.len(),
{
    if costs.len() == 0 {
        zero_adds_nothing(Double { bits: 0 });
        lemma_near_chain(0, 0, 0, 0, 0);
    } else {
        let front = costs.drop_last();
        let last = costs.last().total_usd;
        sums_are_near(storage_total(front), last);
        storage_adds_up(front);
        lemma_near_chain(last.value(), last.value(), last.value(), 0, 0);
        lemma_near_added(
            storage_total(front).value(),
            exact_storage(front),
            storage_subtotals(front),
            last.value(),
            last.value(),
            0,
        );
        lemma_near_chain(
            storage_total(costs).value(),
            storage_total(front).value() + last.value(),
            exact_storage(costs),
            units(storage_total(costs).magnitude()) as int,
            storage_subtotals(front),
        );
    }
}

/// The exact sum of the monthly costs of some volumes.
pub open spec fn exact_monthly(table: PriceTable, volumes: Seq<VolumeInfo>) -> int
    decreases volumes.len(),
{
    if volumes.len() == 0 {
        0
    } else {
        exact_monthly(table, volumes.drop_last()) + monthly_cost(table, volumes.last()).value()
    }
}

/// The sizes of all the subtotals on the way to the run rate, added up.
pub open spec fn monthly_subtotals(table: PriceTable, volumes: Seq<VolumeInfo>) -> int
    decreases volumes.len(),
{
    if volumes.len() == 0 {
        0
    } else {
        monthly_subtotals(table, volumes.drop_last()) + units(
            monthly_total(table, volumes).magnitude(),
        )
    }
}

/// The run rate of some volumes is that of all of them together, but for
/// rounding.
pub proof fn run_rates_add_up(table: PriceTable, volumes: Seq<VolumeInfo>)
    requires
        monthly_total(table, volumes).finite(),
    ensures
        near(
            monthly_total(table, volumes).value(),
            exact_monthly(table, volumes),
            monthly_subtotals(table, volumes),
        ),
    decreases volumes.len(),
{
    if volumes.len() == 0 {
        zero_adds_nothing(Double { bits: 0 });
        lemma_near_chain(0, 0, 0, 0, 0);
    } else {
        let front = volumes.drop_last();
        let last = monthly_cost(table, volumes.last());
        sums_are_near(monthly_total(table, front), last);
        run_rates_add_up(table, front);
        lemma_near_chain(last.value(), last.value(), last.value(), 0, 0);
        lemma_near_added(
            monthly_total(table, front).value(),
            exact_monthly(table, front),
            monthly_subtotals(table, front),
            last.value(),
            last.value(),
            0,
        );
        lemma_near_chain(
            monthly_total(table, volumes).value(),
            monthly_total(table, front).value() + last.value(),
            exact_monthly(table, volumes),
            units(monthly_total(table, volumes).magnitude()) as int,
            monthly_subtotals(table, front),
        );
    }
}

/// A breakdown lists each volume once with its cost, and its storage figures
/// are those of the listed volumes together.
pub proof fn a_breakdown_adds_up(
    bd: CostBreakdown,
    table: PriceTable,
    compute_usd: Double,
    volumes: Seq<VolumeInfo>,
    now: Timestamp,
)
    requires
        breaks_down(bd, table, compute_usd, volumes, now),
    ensures
        bd.compute_usd == compute_usd,
        bd.volumes@.len() == volumes.len(),
        forall|i: int|
            0 <= i < volumes.len() ==> (#[trigger] bd.volumes@[i]).volume_id@
                == volumes[i].volume_id@ && is_cost_of(bd.volumes@[i], table, volumes[i], now),
        bd.storage_usd.finite() ==> near(
            bd.storage_usd.value(),
            exact_storage(bd.volumes@),
            storage_subtotals(bd.volumes@),
        ),
        bd.storage_run_rate_usd_per_month.finite() ==> near(
            bd.storage_run_rate_usd_per_month.value(),
            exact_monthly(table, volumes),
            monthly_subtotals(table, volumes),
        ),
{
    if bd.storage_usd.finite() {
        storage_adds_up(bd.volumes@);
    }
    if bd.storage_run_rate_usd_per_month.finite() {
        run_rates_add_up(table, volumes);
    }
    assert forall|i: int| 0 <= i < volumes.len() implies (#[trigger] bd.volumes@[i]).volume_id@
        == volumes[i].volume_id@ by {
        assert(is_cost_of(bd.volumes@[i], table, volumes[i], now));
    }
}

/// With its volumes known an instance costs compute and storage together, but
/// for rounding; compute that is not known counts as nothing. Nothing else of
/// the record changes.
pub proof fn storage_is_added_to_compute(
    out: InstanceRecord,
    r: InstanceRecord,
    table: PriceTable,
    volumes: Seq<VolumeInfo>,
    now: Timestamp,
)
    requires
        has_breakdown(out, r, table, volumes, now),
    ensures
        out.estimated_cost_usd is Some,
        out.cost_breakdown is Some,
        r.estimated_cost_usd is Some ==> out.cost_breakdown->0.compute_usd
            == r.estimated_cost_usd->0,
        r.estimated_cost_usd is None ==> out.cost_breakdown->0.compute_usd.value() == 0,
        out.estimated_cost_usd->0.finite() ==> near(
            out.estimated_cost_usd->0.value(),
            out.cost_breakdown->0.compute_usd.value() + out.cost_breakdown->0.storage_usd.value(),
            units(out.estimated_cost_usd->0.magnitude()) as int,
        ),
        out.instance_id == r.instance_id,
        out.instance_type == r.instance_type,
        out.state == r.state,
        out.tags == r.tags,
        out.cpu == r.cpu,
        out.launch_time == r.launch_time,
        out.created_at == r.created_at,
        out.last_uptime_seconds == r.last_uptime_seconds,
        out.total_age_seconds == r.total_age_seconds,
{
    zero_adds_nothing(Double { bits: 0 });
    let bd = out.cost_breakdown->0;
    if out.estimated_cost_usd->0.finite() {
        sums_are_near(bd.compute_usd, bd.storage_usd);
    }
}

proof fn lemma_occurs(ids: Seq<Seq<char>>, id: Seq<char>)
    ensures
        occurrences(ids, id) > 0 <==> ids.contains(id),
    decreases ids.len(),
{
    if ids.len() > 0 {
        let front = ids.drop_last();
        lemma_occurs(front, id);
        let n = ids.len() - 1;
        assert(ids[n] == ids.last());
        if front.contains(id) {
            let k = choose|k: int| 0 <= k < front.len() && front[k] == id;
            assert(ids[k] == id);
        }
        if ids.contains(id) && ids[n] != id {
            let k = choose|k: int| 0 <= k < ids.len() && ids[k] == id;
            assert(front[k] == id);
        }
    }
}

/// A volume counts for an instance exactly where it is attached to it.
pub proof fn volumes_count_where_they_are_attached(
    volumes: Seq<VolumeInfo>,
    id: Seq<char>,
    v: VolumeInfo,
)
    ensures
        attached_to(volumes, id).contains(v) <==> exists|i: int|
            0 <= i < volumes.len() && #[trigger] volumes[i] == v && strings(
                v.attached_instance_ids@,
            ).contains(id),
    decreases volumes.len(),
{
    let all = attached_to(volumes, id);
    if volumes.len() > 0 {
        let front = volumes.drop_last();
        let n = volumes.len() - 1;
        let last = volumes[n];
        assert(volumes.last() == last);
        let some = attached_to(front, id);
        volumes_count_where_they_are_attached(front, id, v);
        lemma_occurs(strings(last.attached_instance_ids@), id);
        if all.contains(v) {
            let k = choose|k: int| 0 <= k < all.len() && all[k] == v;
            if k < some.len() {
                assert(some[k] == v);
                assert(some.contains(v));
                let i = choose|i: int|
                    0 <= i < front.len() && #[trigger] front[i] == v && strings(
                        v.attached_instance_ids@,
                    ).contains(id);
                assert(volumes[i] == v);
            } else {
                assert(volumes[n] == v);
            }
        }
        if exists|i: int|
            0 <= i < volumes.len() && #[trigger] volumes[i] == v && strings(
                v.attached_instance_ids@,
            ).contains(id) {
            let i = choose|i: int|
                0 <= i < volumes.len() && #[trigger] volumes[i] == v && strings(
                    v.attached_instance_ids@,
                ).contains(id);
            if i < n {
                assert(front[i] == v);
                assert(some.contains(v));
                let k = choose|k: int| 0 <= k < some.len() && some[k] == v;
                assert(all[k] == v);
            } else {
                assert(all[some.len() as int] == v);
            }
        }
    }
}

/// How many entries of a list of ids are this one.
pub open spec fn times(ids: Seq<String>, id: Seq<char>) -> nat
    decreases ids.len(),
{
    if ids.len() == 0 {
        0
    } else {
        times(ids.drop_first(), id) + if ids[0]@ == id {
            1nat
        } else {
            0nat
        }
    }
}

proof fn lemma_times_push(ids: Seq<String>, last: String, id: Seq<char>)
    ensures
        times(ids.push(last), id) == times(ids, id) + if last@ == id {
            1nat
        } else {
            0nat
        },
    decreases ids.len(),
{
    let all = ids.push(last);
    if ids.len() == 0 {
        reveal_with_fuel(times, 2);
        assert(all.drop_first() =~= Seq::<String>::empty());
    } else {
        assert(all.drop_first() =~= ids.drop_first().push(last));
        lemma_times_push(ids.drop_first(), last, id);
    }
}

proof fn lemma_times(ids: Seq<String>, id: Seq<char>)
    ensures
        times(ids, id) == occurrences(strings(ids), id),
    decreases ids.len(),
{
    if ids.len() > 0 {
        let front = ids.drop_last();
        lemma_times(front, id);
        lemma_times_push(front, ids.last(), id);
        assert(ids =~= front.push(ids.last()));
        assert(strings(ids).drop_last() =~= strings(front));
        assert(strings(ids).last() == ids.last()@);
    } else {
        assert(strings(ids) =~= Seq::<Seq<char>>::empty());
    }
}

/// A volume counts once for each of its attachments to the instance, behind the
/// volumes before it; one that is not attached to it changes nothing.
pub proof fn a_volume_counts_once_per_attachment(
    volumes: Seq<VolumeInfo>,
    v: VolumeInfo,
    id: Seq<char>,
)
    ensures
        ({
            let before = attached_to(volumes, id);
            let after = attached_to(volumes.push(v), id);
            &&& after.len() == before.len() + times(v.attached_instance_ids@, id)
            &&& after.take(before.len() as int) == before
            &&& forall|k: int| before.len() <= k < after.len() ==> #[trigger] after[k] == v
        }),
{
    lemma_times(v.attached_instance_ids@, id);
    assert(volumes.push(v).drop_last() =~= volumes);
    assert(volumes.push(v).last() == v);
    assert(attached_to(volumes.push(v), id).take(attached_to(volumes, id).len() as int)
        =~= attached_to(volumes, id));
}

/// A record is charged for the volumes attached to its instance, except that a
/// second record of the same instance is charged for none.
pub proof fn each_instance_is_charged_once(
    records: Seq<InstanceRecord>,
    k: int,
    volumes: Seq<VolumeInfo>,
)
    requires
        0 <= k < records.len(),
    ensures
        (forall|j: int| 0 <= j < k ==> (#[trigger] records[j]).instance_id@ != records[k].instance_id@)
            ==> charged_volumes(records, k, volumes) == attached_to(
            volumes,
            records[k].instance_id@,
        ),
        forall|j: int|
            0 <= j < k && (#[trigger] records[j]).instance_id@ == records[k].instance_id@
                ==> charged_volumes(records, k, volumes).len() == 0,
{
}

/// What an instance costs by the hour: sixty times its rate per minute while it
/// runs, and a 730th of the monthly run rate of its storage where that is known,
/// both but for rounding.
pub proof fn an_hour_costs_compute_and_storage(table: PriceTable, r: InstanceRecord)
    requires
        hourly_cost(table, r).finite(),
    ensures
        exists|compute: Double, storage: Double|
            #![trigger compute.sum(storage)]
            {
                let runs = r.state == InstanceState::Running
                    && table.prices_per_minute@.contains_key(r.instance_type@);
                &&& near(
                    hourly_cost(table, r).value(),
                    compute.value() + storage.value(),
                    units(hourly_cost(table, r).magnitude()) as int,
                )
                &&& !runs ==> compute.value() == 0
                &&& runs ==> near(
                    compute.value(),
                    table.prices_per_minute@[r.instance_type@].value() * 60,
                    (units(compute.magnitude()) + HIDDEN_BIT) as int,
                )
                &&& r.cost_breakdown is None ==> storage.value() == 0
                &&& r.cost_breakdown is Some ==> near(
                    storage.value() * 730,
                    r.cost_breakdown->0.storage_run_rate_usd_per_month.value(),
                    (units(storage.magnitude()) + HIDDEN_BIT) * 730,
                )
            },
{
    let zero = Double::of_int(0);
    zero_adds_nothing(Double { bits: 0 });
    whole_numbers_are_exact(60);
    whole_numbers_are_exact(730);
    lemma_pow2_pos(1074);
    let d = pow2(1074) as int;
    let runs = r.state == InstanceState::Running && table.prices_per_minute@.contains_key(
        r.instance_type@,
    );
    let rate = table.prices_per_minute@[r.instance_type@];
    let compute = if runs {
        rate.product(Double::of_int(60))
    } else {
        zero
    };
    let storage = match r.cost_breakdown {
        Some(bd) => bd.storage_run_rate_usd_per_month.quotient(Double::of_int(730)),
        None => zero,
    };
    assert(hourly_cost(table, r) == compute.sum(storage));
    sums_are_near(compute, storage);
    if runs {
        products_are_near(rate, Double::of_int(60));
        assert(rate.value() * (60 * d) == (rate.value() * 60) * d) by (nonlinear_arith);
        lemma_near_unscaled(
            compute.value(),
            rate.value() * 60,
            (units(compute.magnitude()) + HIDDEN_BIT) as int,
            d,
        );
    }
    if let Some(bd) = r.cost_breakdown {
        let monthly = bd.storage_run_rate_usd_per_month;
        quotients_are_near(monthly, Double::of_int(730));
        let s = storage.value();
        let size = (units(storage.magnitude()) + HIDDEN_BIT) as int;
        assert(s * (730 * d) == (s * 730) * d) by (nonlinear_arith);
        assert(size * (730 * d) == (size * 730) * d) by (nonlinear_arith);
        lemma_near_unscaled(s * 730, monthly.value(), size * 730, d);
    }
    assert(compute.sum(storage) == hourly_cost(table, r));
}

/// A day burns 24 hours, a week 7 days, a month 730 hours and a year 365 days,
/// but for rounding.
pub proof fn longer_times_burn_more(hour: Double)
    requires
        BurnRate::of_hourly(hour).year.finite(),
        BurnRate::of_hourly(hour).month.finite(),
        BurnRate::of_hourly(hour).week.finite(),
        BurnRate::of_hourly(hour).day.finite(),
    ensures
        ({
            let b = BurnRate::of_hourly(hour);
            &&& b.hour == hour
            &&& near(b.day.value(), hour.value() * 24, (units(b.day.magnitude()) + HIDDEN_BIT) as int)
            &&& near(
                b.week.value(),
                hour.value() * (24 * 7),
                (units(b.week.magnitude()) + HIDDEN_BIT) as int,
            )
            &&& near(
                b.month.value(),
                hour.value() * 730,
                (units(b.month.magnitude()) + HIDDEN_BIT) as int,
            )
            &&& near(
                b.year.value(),
                hour.value() * (24 * 365),
                (units(b.year.magnitude()) + HIDDEN_BIT) as int,
            )
        }),
{
    lemma_times_whole(hour, 24);
    lemma_times_whole(hour, 168);
    lemma_times_whole(hour, 730);
    lemma_times_whole(hour, 8760);
}

proof fn lemma_times_whole(x: Double, n: int)
    requires
        0 <= n < 0x20_0000_0000_0000,
        x.product(Double::of_int(n)).finite(),
    ensures
        near(
            x.product(Double::of_int(n)).value(),
            x.value() * n,
            (units(x.product(Double::of_int(n)).magnitude()) + HIDDEN_BIT) as int,
        ),
{
    let d = pow2(1074) as int;
    let p = x.product(Double::of_int(n));
    whole_numbers_are_exact(n);
    products_are_near(x, Double::of_int(n));
    lemma_pow2_pos(1074);
    assert(x.value() * (n * d) == (x.value() * n) * d) by (nonlinear_arith);
    lemma_near_unscaled(
        p.value(),
        x.value() * n,
        (units(p.magnitude()) + HIDDEN_BIT) as int,
        d,
    );
}

} // verus!
