//! What instances and their volumes cost.

use vstd::prelude::*;

use crate::aws::{clamp, clamped};
use crate::double::{
    lemma_near_chain, near, sums_are_near, zero_adds_nothing, zero_times_a_whole_number, Double,
};
use crate::model::{
    BurnRate, CostBreakdown, InstanceRecord, InstanceState, VolumeCost, VolumeInfo,
};
use crate::pricing::{
    capacity_cost, ebs_capacity_cost_usd, ebs_iops_cost_usd, ebs_throughput_cost_usd, iops_cost,
    lookup_ebs_per_gb_month, lookup_price_per_minute, months_of, not_below_zero, rate_of,
    seconds_to_months, throughput_cost, PriceTable,
};
use crate::rounding::units;
use crate::text::{same, strings};
use crate::timestamp::Timestamp;

verus! {

/// The compute cost of an uptime: minutes at the rate of the instance type.
/// Nothing for a type without a rate, nor for an uptime below zero.
pub open spec fn estimated_cost(
    table: PriceTable,
    instance_type: Seq<char>,
    uptime_seconds: int,
) -> Option<Double> {
    let minutes = Double::of_int(uptime_seconds).quotient(Double::of_int(60));
    if minutes.negative() {
        None
    } else {
        match rate_of(table.prices_per_minute@, instance_type) {
            Some(rate) => Some(minutes.product(rate)),
            None => None,
        }
    }
}

/// A record with its compute cost.
pub fn with_estimated_cost(table: &PriceTable, r: InstanceRecord) -> (out: InstanceRecord)
    ensures
        out == (InstanceRecord {
            estimated_cost_usd: estimated_cost(
                *table,
                r.instance_type@,
                r.last_uptime_seconds as int,
            ),
            ..r
        }),
{
    let minutes: Double = Double::from_i64(r.last_uptime_seconds).over(Double::from_i64(60));
    let estimated_cost_usd: Option<Double> = if minutes.is_negative() {
        None
    } else {
        match lookup_price_per_minute(table, r.instance_type.as_str()) {
            Some(rate) => Some(minutes.times(rate)),
            None => None,
        }
    };
    InstanceRecord { estimated_cost_usd, ..r }
}

/// Populate `estimated_cost_usd` on each record using the price table.
/// Upper-bound best-effort figure: on-demand Linux rate times
/// `last_uptime_seconds`. Unknown types stay `None`.
pub fn populate_estimated_cost(table: &PriceTable, records: Vec<InstanceRecord>) -> (out: Vec<
    InstanceRecord,
>)
    ensures
        out@ == records@.map_values(
            |r: InstanceRecord|
                InstanceRecord {
                    estimated_cost_usd: estimated_cost(
                        *table,
                        r.instance_type@,
                        r.last_uptime_seconds as int,
                    ),
                    ..r
                },
        ),
{
    let ghost all = records@;
    let ghost f = |r: InstanceRecord|
        InstanceRecord {
            estimated_cost_usd: estimated_cost(
                *table,
                r.instance_type@,
                r.last_uptime_seconds as int,
            ),
            ..r
        };
    let mut rest: Vec<InstanceRecord> = records;
    let mut out: Vec<InstanceRecord> = Vec::new();
    assert(all.skip(0) =~= all);
    while rest.len() > 0
        invariant
            out@.len() + rest@.len() == all.len(),
            rest@ == all.skip(out@.len() as int),
            out@ == all.take(out@.len() as int).map_values(f),
            f == (|r: InstanceRecord|
                InstanceRecord {
                    estimated_cost_usd: estimated_cost(
                        *table,
                        r.instance_type@,
                        r.last_uptime_seconds as int,
                    ),
                    ..r
                }),
        decreases rest@.len(),
    {
        let ghost k = out@.len() as int;
        let r: InstanceRecord = rest.remove(0);
        out.push(with_estimated_cost(table, r));
        proof {
            assert(r == all[k]);
            assert(rest@ =~= all.skip(k + 1));
            assert(out@ =~= all.take(k + 1).map_values(f));
        }
    }
    assert(all.take(out@.len() as int) =~= all);
    out
}

/// How long a volume has existed.
pub open spec fn volume_age(v: VolumeInfo, now: Timestamp) -> int {
    not_below_zero(clamped(now.seconds() - v.create_time.seconds()))
}

/// Capacity, IOPS and throughput cost of a volume for some months.
pub open spec fn volume_charges(table: PriceTable, v: VolumeInfo, months: Double) -> (
    Double,
    Double,
    Double,
) {
    (
        capacity_cost(table, v.volume_type@, v.size_gib as int, months),
        match v.iops {
            Some(i) => iops_cost(table, v.volume_type@, i as int, months),
            None => Double::of_int(0),
        },
        match v.throughput_mibps {
            Some(t) => throughput_cost(table, v.volume_type@, t as int, months),
            None => Double::of_int(0),
        },
    )
}

/// Why the cost of a volume is known to be incomplete.
pub open spec fn exclusion(table: PriceTable, volume_type: Seq<char>) -> Option<Seq<char>> {
    if volume_type == "standard"@ {
        Some("standard: per-IO charges not modeled (capacity counted)"@)
    } else if rate_of(table.ebs_per_gb_month@, volume_type) is None {
        Some("no EBS rate in price table for this volume type"@)
    } else {
        None
    }
}

/// Whether `c` is the cost of the volume `v`.
pub open spec fn is_cost_of(
    c: VolumeCost,
    table: PriceTable,
    v: VolumeInfo,
    now: Timestamp,
) -> bool {
    let charges = volume_charges(table, v, months_of(volume_age(v, now)));
    &&& c.volume_id@ == v.volume_id@
    &&& c.volume_type@ == v.volume_type@
    &&& c.size_gib == v.size_gib
    &&& c.iops == v.iops
    &&& c.throughput_mibps == v.throughput_mibps
    &&& c.age_secs == volume_age(v, now)
    &&& c.capacity_usd == charges.0
    &&& c.iops_usd == charges.1
    &&& c.throughput_usd == charges.2
    &&& c.total_usd == charges.0.sum(charges.1).sum(charges.2)
    &&& crate::model::option_slice(c.excluded_reason) == exclusion(table, v.volume_type@)
}

fn charges_of(table: &PriceTable, v: &VolumeInfo, months: Double) -> (r: (Double, Double, Double))
    ensures
        r == volume_charges(*table, *v, months),
{
    let capacity: Double = ebs_capacity_cost_usd(
        table,
        v.volume_type.as_str(),
        v.size_gib,
        months,
    );
    let iops: Double = match v.iops {
        Some(i) => ebs_iops_cost_usd(table, v.volume_type.as_str(), i, months),
        None => Double::from_i64(0),
    };
    let throughput: Double = match v.throughput_mibps {
        Some(t) => ebs_throughput_cost_usd(table, v.volume_type.as_str(), t, months),
        None => Double::from_i64(0),
    };
    (capacity, iops, throughput)
}

/// What a volume has cost since it was created.
pub fn compute_volume_cost(table: &PriceTable, v: &VolumeInfo, now: Timestamp) -> (r: VolumeCost)
    ensures
        is_cost_of(r, *table, *v, now),
{
    let since: i64 = clamp(now.as_second() as i128 - v.create_time.as_second() as i128);
    let age_secs: i64 = if since > 0 {
        since
    } else {
        0
    };
    let months: Double = seconds_to_months(age_secs);
    let (capacity_usd, iops_usd, throughput_usd) = charges_of(table, v, months);
    // Flag cost components that are known-unmodeled so the explain output
    // doesn't look like a fully-attributed figure.
    let excluded_reason: Option<&'static str> = if same(v.volume_type.as_str(), "standard") {
        Some("standard: per-IO charges not modeled (capacity counted)")
    } else if lookup_ebs_per_gb_month(table, v.volume_type.as_str()).is_none() {
        Some("no EBS rate in price table for this volume type")
    } else {
        None
    };
    VolumeCost {
        volume_id: v.volume_id.clone(),
        volume_type: v.volume_type.clone(),
        size_gib: v.size_gib,
        iops: v.iops,
        throughput_mibps: v.throughput_mibps,
        age_secs,
        capacity_usd,
        iops_usd,
        throughput_usd,
        total_usd: capacity_usd.plus(iops_usd).plus(throughput_usd),
        excluded_reason,
    }
}

/// Projected monthly cost of a volume.
pub open spec fn monthly_cost(table: PriceTable, v: VolumeInfo) -> Double {
    let charges = volume_charges(table, v, Double::of_int(1));
    charges.0.sum(charges.1).sum(charges.2)
}

/// Projected monthly storage cost at the current provisioning. Same formulas
/// as [`compute_volume_cost`] with `months = 1`.
pub fn compute_volume_run_rate_usd_per_month(table: &PriceTable, v: &VolumeInfo) -> (r: Double)
    ensures
        r == monthly_cost(*table, *v),
{
    let (capacity, iops, throughput) = charges_of(table, v, Double::from_i64(1));
    capacity.plus(iops).plus(throughput)
}

/// `n` times `v`.
pub open spec fn repeated(v: VolumeInfo, n: nat) -> Seq<VolumeInfo> {
    Seq::new(n, |i: int| v)
}

/// How often `id` occurs in a list.
pub open spec fn occurrences(ids: Seq<Seq<char>>, id: Seq<char>) -> nat
    decreases ids.len(),
{
    if ids.len() == 0 {
        0
    } else if ids.last() == id {
        occurrences(ids.drop_last(), id) + 1
    } else {
        occurrences(ids.drop_last(), id)
    }
}

/// The volumes attached to an instance, once for each attachment. A volume
/// attached to several instances counts in full for each of them.
pub open spec fn attached_to(volumes: Seq<VolumeInfo>, id: Seq<char>) -> Seq<VolumeInfo>
    decreases volumes.len(),
{
    if volumes.len() == 0 {
        Seq::empty()
    } else {
        attached_to(volumes.drop_last(), id) + repeated(
            volumes.last(),
            occurrences(strings(volumes.last().attached_instance_ids@), id),
        )
    }
}

/// The sum of the totals, from zero.
pub open spec fn storage_total(costs: Seq<VolumeCost>) -> Double
    decreases costs.len(),
{
    if costs.len() == 0 {
        Double::of_int(0)
    } else {
        storage_total(costs.drop_last()).sum(costs.last().total_usd)
    }
}

/// The sum of the monthly costs, from zero.
pub open spec fn monthly_total(table: PriceTable, volumes: Seq<VolumeInfo>) -> Double
    decreases volumes.len(),
{
    if volumes.len() == 0 {
        Double::of_int(0)
    } else {
        monthly_total(table, volumes.drop_last()).sum(monthly_cost(table, volumes.last()))
    }
}

/// Whether the costs are those of the volumes, one by one.
pub open spec fn are_costs_of(
    costs: Seq<VolumeCost>,
    table: PriceTable,
    volumes: Seq<VolumeInfo>,
    now: Timestamp,
) -> bool {
    &&& costs.len() == volumes.len()
    &&& forall|i: int|
        0 <= i < costs.len() ==> is_cost_of(#[trigger] costs[i], table, volumes[i], now)
}

/// Whether `bd` breaks down the cost of an instance with these volumes.
pub open spec fn breaks_down(
    bd: CostBreakdown,
    table: PriceTable,
    compute_usd: Double,
    volumes: Seq<VolumeInfo>,
    now: Timestamp,
) -> bool {
    &&& bd.compute_usd == compute_usd
    &&& are_costs_of(bd.volumes@, table, volumes, now)
    &&& bd.storage_usd == storage_total(bd.volumes@)
    &&& bd.storage_run_rate_usd_per_month == monthly_total(table, volumes)
}

/// A cost that may be unknown, as zero where it is.
pub open spec fn known_cost(cost: Option<Double>) -> Double {
    match cost {
        Some(c) => c,
        None => Double::of_int(0),
    }
}

fn count_occurrences(ids: &Vec<String>, id: &str) -> (r: usize)
    ensures
        r == occurrences(strings(ids@), id@),
{
    let n: usize = ids.len();
    let mut r: usize = 0;
    let mut i: usize = 0;
    let ghost all = strings(ids@);
    while i < n
        invariant
            n == ids@.len(),
            i <= n,
            r <= i,
            all == strings(ids@),
            r == occurrences(all.take(i as int), id@),
        decreases n - i,
    {
        proof {
            assert(all.take(i + 1).drop_last() =~= all.take(i as int));
            assert(all.take(i + 1).last() == ids@[i as int]@);
        }
        if same(ids[i].as_str(), id) {
            r += 1;
        }
        i += 1;
    }
    assert(all.take(n as int) =~= all);
    r
}

/// The cost of an instance broken down over its volumes.
fn break_down(
    table: &PriceTable,
    compute_usd: Double,
    volumes: &Vec<VolumeInfo>,
    id: &str,
    now: Timestamp,
) -> (r: CostBreakdown)
    ensures
        breaks_down(r, *table, compute_usd, attached_to(volumes@, id@), now),
{
    let n: usize = volumes.len();
    let mut storage_usd: Double = Double::from_i64(0);
    let mut run_rate: Double = Double::from_i64(0);
    let mut costs: Vec<VolumeCost> = Vec::new();
    let mut i: usize = 0;
    while i < n
        invariant
            n == volumes@.len(),
            i <= n,
            are_costs_of(costs@, *table, attached_to(volumes@.take(i as int), id@), now),
            storage_usd == storage_total(costs@),
            run_rate == monthly_total(*table, attached_to(volumes@.take(i as int), id@)),
        decreases n - i,
    {
        let v: &VolumeInfo = &volumes[i];
        let times: usize = count_occurrences(&v.attached_instance_ids, id);
        let ghost first = attached_to(volumes@.take(i as int), id@);
        let mut k: usize = 0;
        assert(first + repeated(*v, 0) =~= first);
        while k < times
            invariant
                k <= times,
                are_costs_of(costs@, *table, first + repeated(*v, k as nat), now),
                storage_usd == storage_total(costs@),
                run_rate == monthly_total(*table, first + repeated(*v, k as nat)),
            decreases times - k,
        {
            let cost: VolumeCost = compute_volume_cost(table, v, now);
            let ghost before = costs@;
            let ghost list = first + repeated(*v, k as nat);
            let ghost longer = first + repeated(*v, (k + 1) as nat);
            storage_usd = storage_usd.plus(cost.total_usd);
            run_rate = run_rate.plus(compute_volume_run_rate_usd_per_month(table, v));
            costs.push(cost);
            proof {
                assert(longer =~= list.push(*v));
                assert(costs@.drop_last() =~= before);
                assert(longer.drop_last() =~= list);
                assert forall|j: int| 0 <= j < costs@.len() implies is_cost_of(
                    #[trigger] costs@[j],
                    *table,
                    longer[j],
                    now,
                ) by {
                    if j < before.len() {
                        assert(costs@[j] == before[j]);
                    }
                }
            }
            k += 1;
        }
        proof {
            assert(volumes@.take(i + 1).drop_last() =~= volumes@.take(i as int));
            assert(volumes@.take(i + 1).last() == volumes@[i as int]);
        }
        i += 1;
    }
    assert(volumes@.take(n as int) =~= volumes@);
    CostBreakdown {
        compute_usd,
        storage_usd,
        storage_run_rate_usd_per_month: run_rate,
        volumes: costs,
    }
}

/// The volumes that a record is charged for: those of its instance, unless a
/// record before it had the same id.
pub open spec fn charged_volumes(
    records: Seq<InstanceRecord>,
    k: int,
    volumes: Seq<VolumeInfo>,
) -> Seq<VolumeInfo> {
    if exists|j: int|
        0 <= j < k && (#[trigger] records[j]).instance_id@ == records[k].instance_id@ {
        Seq::empty()
    } else {
        attached_to(volumes, records[k].instance_id@)
    }
}

/// Whether `out` is the record `r` with its cost broken down over `volumes`,
/// and with storage folded into the total.
pub open spec fn has_breakdown(
    out: InstanceRecord,
    r: InstanceRecord,
    table: PriceTable,
    volumes: Seq<VolumeInfo>,
    now: Timestamp,
) -> bool {
    &&& out.cost_breakdown is Some
    &&& breaks_down(
        out.cost_breakdown->0,
        table,
        known_cost(r.estimated_cost_usd),
        volumes,
        now,
    )
    &&& out == (InstanceRecord {
        cost_breakdown: out.cost_breakdown,
        estimated_cost_usd: Some(
            known_cost(r.estimated_cost_usd).sum(out.cost_breakdown->0.storage_usd),
        ),
        ..r
    })
}

/// Whether some record before `k` in `records` has the id.
fn seen_before(out: &Vec<InstanceRecord>, id: &str) -> (r: bool)
    ensures
        r == exists|j: int| 0 <= j < out@.len() && (#[trigger] out@[j]).instance_id@ == id@,
{
    let n: usize = out.len();
    let mut i: usize = 0;
    while i < n
        invariant
            n == out@.len(),
            i <= n,
            forall|j: int| 0 <= j < i ==> (#[trigger] out@[j]).instance_id@ != id@,
        decreases n - i,
    {
        if same(out[i].instance_id.as_str(), id) {
            return true;
        }
        i += 1;
    }
    false
}

/// Populate `cost_breakdown` per record and fold storage into
/// `estimated_cost_usd`. Call after [`populate_estimated_cost`] so the compute
/// figure is already present.
pub fn populate_cost_breakdown(
    table: &PriceTable,
    records: Vec<InstanceRecord>,
    volumes: &Vec<VolumeInfo>,
    now: Timestamp,
) -> (out: Vec<InstanceRecord>)
    ensures
        out@.len() == records@.len(),
        forall|k: int|
            0 <= k < records@.len() ==> has_breakdown(
                #[trigger] out@[k],
                records@[k],
                *table,
                charged_volumes(records@, k, volumes@),
                now,
            ),
{
    let ghost all = records@;
    let none: Vec<VolumeInfo> = Vec::new();
    let mut rest: Vec<InstanceRecord> = records;
    let mut out: Vec<InstanceRecord> = Vec::new();
    assert(all.skip(0) =~= all);
    while rest.len() > 0
        invariant
            none@.len() == 0,
            out@.len() + rest@.len() == all.len(),
            rest@ == all.skip(out@.len() as int),
            forall|k: int|
                0 <= k < out@.len() ==> has_breakdown(
                    #[trigger] out@[k],
                    all[k],
                    *table,
                    charged_volumes(all, k, volumes@),
                    now,
                ),
        decreases rest@.len(),
    {
        let ghost k = out@.len() as int;
        let ghost made = out@;
        let r: InstanceRecord = rest.remove(0);
        proof {
            assert(r == all[k]);
            assert(rest@ =~= all.skip(k + 1));
        }
        let seen: bool = seen_before(&out, r.instance_id.as_str());
        proof {
            if seen {
                let j = choose|j: int|
                    0 <= j < out@.len() && (#[trigger] out@[j]).instance_id@ == r.instance_id@;
                assert(all[j].instance_id@ == r.instance_id@);
            } else {
                assert forall|j: int| 0 <= j < k implies (#[trigger] all[j]).instance_id@
                    != r.instance_id@ by {
                    assert(out@[j].instance_id == all[j].instance_id);
                }
            }
        }
        let compute_usd: Double = match r.estimated_cost_usd {
            Some(c) => c,
            None => Double::from_i64(0),
        };
        let bd: CostBreakdown = if seen {
            break_down(table, compute_usd, &none, r.instance_id.as_str(), now)
        } else {
            break_down(table, compute_usd, volumes, r.instance_id.as_str(), now)
        };
        let total: Double = compute_usd.plus(bd.storage_usd);
        let filled = InstanceRecord {
            cost_breakdown: Some(bd),
            estimated_cost_usd: Some(total),
            ..r
        };
        proof {
            assert(attached_to(none@, r.instance_id@) =~= Seq::<VolumeInfo>::empty());
            assert(has_breakdown(filled, all[k], *table, charged_volumes(all, k, volumes@), now));
        }
        out.push(filled);
        proof {
            assert forall|i: int| 0 <= i < out@.len() implies has_breakdown(
                #[trigger] out@[i],
                all[i],
                *table,
                charged_volumes(all, i, volumes@),
                now,
            ) by {
                if i < made.len() {
                    assert(out@[i] == made[i]);
                }
            }
        }
    }
    out
}

/// Projected hourly cost of an instance: compute while it runs, storage
/// whenever the volumes are known, since EBS bills regardless of power state.
pub open spec fn hourly_cost(table: PriceTable, r: InstanceRecord) -> Double {
    let compute = if r.state == InstanceState::Running {
        match rate_of(table.prices_per_minute@, r.instance_type@) {
            Some(rate) => rate.product(Double::of_int(60)),
            None => Double::of_int(0),
        }
    } else {
        Double::of_int(0)
    };
    let storage = match r.cost_breakdown {
        Some(bd) => bd.storage_run_rate_usd_per_month.quotient(Double::of_int(730)),
        None => Double::of_int(0),
    };
    compute.sum(storage)
}

/// Projected hourly cost of all instances, from zero.
pub open spec fn fleet_hourly(table: PriceTable, records: Seq<&InstanceRecord>) -> Double
    decreases records.len(),
{
    if records.len() == 0 {
        Double::of_int(0)
    } else {
        fleet_hourly(table, records.drop_last()).sum(hourly_cost(table, *records.last()))
    }
}

fn compute_hourly_cost(table: &PriceTable, r: &InstanceRecord) -> (out: Double)
    ensures
        out == hourly_cost(*table, *r),
{
    let compute: Double = if r.state == InstanceState::Running {
        match lookup_price_per_minute(table, r.instance_type.as_str()) {
            Some(rate) => rate.times(Double::from_i64(60)),
            None => Double::from_i64(0),
        }
    } else {
        Double::from_i64(0)
    };
    let storage: Double = match &r.cost_breakdown {
        Some(bd) => bd.storage_run_rate_usd_per_month.over(Double::from_i64(730)),
        None => Double::from_i64(0),
    };
    compute.plus(storage)
}

/// Sum projected spend across records, returning the rate in five time units.
/// Compute is counted only for instances in `Running` state (stopped boxes
/// don't accrue compute charges); storage is counted whenever
/// `cost_breakdown` is present.
pub fn compute_fleet_burn_rate(table: &PriceTable, records: &Vec<&InstanceRecord>) -> (r: BurnRate)
    ensures
        r == BurnRate::of_hourly(fleet_hourly(*table, records@)),
{
    let n: usize = records.len();
    let mut hourly: Double = Double::from_i64(0);
    let mut i: usize = 0;
    while i < n
        invariant
            n == records@.len(),
            i <= n,
            hourly == fleet_hourly(*table, records@.take(i as int)),
        decreases n - i,
    {
        assert(records@.take(i + 1).drop_last() =~= records@.take(i as int));
        hourly = hourly.plus(compute_hourly_cost(table, records[i]));
        i += 1;
    }
    assert(records@.take(n as int) =~= records@);
    BurnRate::from_hourly(hourly)
}

/// An instance that does not run counts with its storage alone: a month of it
/// spread over 730 hours, or nothing where its volumes are not known.
pub proof fn stopped_instances_cost_storage_only(table: PriceTable, r: InstanceRecord)
    requires
        r.state != InstanceState::Running,
        r.cost_breakdown matches Some(bd) ==> !bd.storage_run_rate_usd_per_month.quotient(
            Double::of_int(730),
        ).nan(),
    ensures
        hourly_cost(table, r).rank() == (match r.cost_breakdown {
            Some(bd) => bd.storage_run_rate_usd_per_month.quotient(Double::of_int(730)).rank(),
            None => 0,
        }),
{
    let zero = Double::of_int(0);
    zero_adds_nothing(Double { bits: 0 });
    match r.cost_breakdown {
        Some(bd) => zero_adds_nothing(
            bd.storage_run_rate_usd_per_month.quotient(Double::of_int(730)),
        ),
        None => zero_adds_nothing(zero),
    }
}

/// No instances burn nothing, in every unit of time.
pub proof fn an_empty_fleet_burns_nothing(table: PriceTable)
    ensures
        ({
            let zero = Double { bits: 0 };
            BurnRate::of_hourly(fleet_hourly(table, Seq::empty())) == (BurnRate {
                hour: zero,
                day: zero,
                week: zero,
                month: zero,
                year: zero,
            })
        }),
{
    zero_adds_nothing(Double { bits: 0 });
    zero_times_a_whole_number(24);
    zero_times_a_whole_number(168);
    zero_times_a_whole_number(730);
    zero_times_a_whole_number(8760);
}

/// A fleet of one burns what its instance costs.
pub proof fn a_fleet_of_one_burns_its_cost(table: PriceTable, r: &InstanceRecord)
    requires
        !hourly_cost(table, *r).nan(),
    ensures
        fleet_hourly(table, seq![r]).rank() == hourly_cost(table, *r).rank(),
{
    reveal_with_fuel(fleet_hourly, 2);
    assert(seq![r].drop_last() =~= Seq::<&InstanceRecord>::empty());
    zero_adds_nothing(hourly_cost(table, *r));
}

/// `start` plus the hourly costs, one after another.
pub open spec fn burned_after(
    table: PriceTable,
    start: Double,
    records: Seq<&InstanceRecord>,
) -> Double
    decreases records.len(),
{
    if records.len() == 0 {
        start
    } else {
        burned_after(table, start, records.drop_last()).sum(hourly_cost(table, *records.last()))
    }
}

/// The rate of two fleets together is that of the first, with the costs of the
/// second added to it.
pub proof fn joined_fleets_continue(
    table: PriceTable,
    a: Seq<&InstanceRecord>,
    b: Seq<&InstanceRecord>,
)
    ensures
        fleet_hourly(table, a + b) == burned_after(table, fleet_hourly(table, a), b),
    decreases b.len(),
{
    if b.len() == 0 {
        assert(a + b =~= a);
    } else {
        assert((a + b).drop_last() =~= a + b.drop_last());
        assert((a + b).last() == b.last());
        joined_fleets_continue(table, a, b.drop_last());
    }
}

/// The exact sum of the hourly costs, in units of the smallest positive double.
pub open spec fn exact_hourly(table: PriceTable, records: Seq<&InstanceRecord>) -> int
    decreases records.len(),
{
    if records.len() == 0 {
        0
    } else {
        exact_hourly(table, records.drop_last()) + hourly_cost(table, *records.last()).value()
    }
}

/// The sizes of all the subtotals on the way to the rate, added up.
pub open spec fn subtotals(table: PriceTable, records: Seq<&InstanceRecord>) -> int
    decreases records.len(),
{
    if records.len() == 0 {
        0
    } else {
        subtotals(table, records.drop_last()) + units(fleet_hourly(table, records).magnitude())
    }
}

/// A rate that is finite differs from the exact sum of the costs by rounding
/// alone: by at most one part in `2^53` of each subtotal.
pub proof fn the_rate_is_near_the_exact_sum(table: PriceTable, records: Seq<&InstanceRecord>)
    requires
        fleet_hourly(table, records).finite(),
    ensures
        near(
            fleet_hourly(table, records).value(),
            exact_hourly(table, records),
            subtotals(table, records),
        ),
    decreases records.len(),
{
    if records.len() == 0 {
        zero_adds_nothing(Double { bits: 0 });
        lemma_near_chain(0, 0, 0, 0, 0);
    } else {
        let front = records.drop_last();
        let last = hourly_cost(table, *records.last());
        sums_are_near(fleet_hourly(table, front), last);
        the_rate_is_near_the_exact_sum(table, front);
        let before = fleet_hourly(table, front).value();
        let exact = exact_hourly(table, front);
        assert(before + last.value() - (exact + last.value()) == before - exact);
        assert(near(before + last.value(), exact + last.value(), subtotals(table, front)));
        lemma_near_chain(
            fleet_hourly(table, records).value(),
            before + last.value(),
            exact + last.value(),
            units(fleet_hourly(table, records).magnitude()) as int,
            subtotals(table, front),
        );
    }
}

/// Rates that are finite add up, but for rounding: the rate of two fleets
/// together and the sum of their rates differ by at most one part in `2^53` of
/// each subtotal on the way to the three.
pub proof fn joined_fleets_add_up(
    table: PriceTable,
    a: Seq<&InstanceRecord>,
    b: Seq<&InstanceRecord>,
)
    requires
        fleet_hourly(table, a + b).finite(),
        fleet_hourly(table, b).finite(),
    ensures
        fleet_hourly(table, a).finite(),
        near(
            fleet_hourly(table, a + b).value(),
            fleet_hourly(table, a).value() + fleet_hourly(table, b).value(),
            subtotals(table, a + b) + subtotals(table, a) + subtotals(table, b),
        ),
{
    lemma_first_is_finite(table, a, b);
    lemma_exact_adds_up(table, a, b);
    the_rate_is_near_the_exact_sum(table, a + b);
    the_rate_is_near_the_exact_sum(table, a);
    the_rate_is_near_the_exact_sum(table, b);
}

proof fn lemma_first_is_finite(
    table: PriceTable,
    a: Seq<&InstanceRecord>,
    b: Seq<&InstanceRecord>,
)
    requires
        fleet_hourly(table, a + b).finite(),
    ensures
        fleet_hourly(table, a).finite(),
    decreases b.len(),
{
    if b.len() == 0 {
        assert(a + b =~= a);
    } else {
        assert((a + b).drop_last() =~= a + b.drop_last());
        sums_are_near(
            fleet_hourly(table, a + b.drop_last()),
            hourly_cost(table, *(a + b).last()),
        );
        lemma_first_is_finite(table, a, b.drop_last());
    }
}

proof fn lemma_exact_adds_up(table: PriceTable, a: Seq<&InstanceRecord>, b: Seq<&InstanceRecord>)
    ensures
        exact_hourly(table, a + b) == exact_hourly(table, a) + exact_hourly(table, b),
    decreases b.len(),
{
    if b.len() == 0 {
        assert(a + b =~= a);
    } else {
        assert((a + b).drop_last() =~= a + b.drop_last());
        assert((a + b).last() == b.last());
        lemma_exact_adds_up(table, a, b.drop_last());
    }
}

} // verus!
