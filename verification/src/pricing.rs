//! On-demand pricing lookups for EC2 compute and attached EBS volumes.
//!
//! A price table maps:
//! - instance type → per-minute USD compute rate,
//! - EBS volume type → per-GB-month USD capacity rate,
//! - EBS volume type → per-IOPS-month USD rate (`gp3`, `io1`, `io2` base tier),
//! - EBS volume type → per-MiBps-month USD throughput rate (`gp3` only).
//!
//! How a table is made of the public offer is in [`offer`].

use vstd::prelude::*;

use crate::double::Double;
use crate::text::same;

pub mod offer;

verus! {

/// The value that stands with `key`.
pub open spec fn rate_at(entries: Seq<(String, Double)>, key: Seq<char>) -> Option<Double>
    decreases entries.len(),
{
    if entries.len() == 0 {
        None
    } else if entries[0].0@ == key {
        Some(entries[0].1)
    } else {
        rate_at(entries.drop_first(), key)
    }
}

/// Whether no key occurs twice.
pub open spec fn keys_differ(entries: Seq<(String, Double)>) -> bool {
    forall|i: int, j: int|
        0 <= i < j < entries.len() ==> (#[trigger] entries[i]).0@ != (#[trigger] entries[j]).0@
}

/// Rates by key.
#[derive(Debug)]
pub struct Rates {
    entries: Vec<(String, Double)>,
}

impl View for Rates {
    type V = Map<Seq<char>, Double>;

    open spec fn view(&self) -> Map<Seq<char>, Double> {
        Map::new(
            |k: Seq<char>| rate_at(self.list(), k) is Some,
            |k: Seq<char>| rate_at(self.list(), k)->0,
        )
    }
}

proof fn lemma_rate_none(entries: Seq<(String, Double)>, key: Seq<char>)
    requires
        forall|i: int| 0 <= i < entries.len() ==> (#[trigger] entries[i]).0@ != key,
    ensures
        rate_at(entries, key) is None,
    decreases entries.len(),
{
    if entries.len() > 0 {
        let rest = entries.drop_first();
        assert forall|i: int| 0 <= i < rest.len() implies (#[trigger] rest[i]).0@ != key by {
            assert(rest[i] == entries[i + 1]);
        }
        lemma_rate_none(rest, key);
    }
}

proof fn lemma_rate_here(entries: Seq<(String, Double)>, k: int)
    requires
        keys_differ(entries),
        0 <= k < entries.len(),
    ensures
        rate_at(entries, entries[k].0@) == Some(entries[k].1),
    decreases entries.len(),
{
    if k > 0 {
        let rest = entries.drop_first();
        assert(entries[0].0@ != entries[k].0@);
        assert forall|i: int, j: int| 0 <= i < j < rest.len() implies (#[trigger] rest[i]).0@ != (
        #[trigger] rest[j]).0@ by {
            assert(rest[i] == entries[i + 1] && rest[j] == entries[j + 1]);
        }
        assert(rest[k - 1] == entries[k]);
        lemma_rate_here(rest, k - 1);
    }
}

proof fn lemma_rate_elsewhere(a: Seq<(String, Double)>, b: Seq<(String, Double)>, q: Seq<char>)
    requires
        keys_differ(a),
        keys_differ(b),
        forall|i: int|
            0 <= i < a.len() && (#[trigger] a[i]).0@ == q ==> i < b.len() && b[i] == a[i],
        forall|i: int|
            0 <= i < b.len() && (#[trigger] b[i]).0@ == q ==> i < a.len() && a[i] == b[i],
    ensures
        rate_at(a, q) == rate_at(b, q),
{
    if exists|i: int| 0 <= i < a.len() && (#[trigger] a[i]).0@ == q {
        let i = choose|i: int| 0 <= i < a.len() && (#[trigger] a[i]).0@ == q;
        lemma_rate_here(a, i);
        lemma_rate_here(b, i);
    } else {
        lemma_rate_none(a, q);
        assert forall|i: int| 0 <= i < b.len() implies (#[trigger] b[i]).0@ != q by {
            if b[i].0@ == q {
                assert(a[i].0@ == q);
            }
        }
        lemma_rate_none(b, q);
    }
}

impl Rates {
    #[verifier::type_invariant]
    closed spec fn valid(self) -> bool {
        keys_differ(self.entries@)
    }

    /// Keys and rates, in the order in which the keys came.
    pub closed spec fn list(self) -> Seq<(String, Double)> {
        self.entries@
    }

    /// No rates.
    pub fn new() -> (r: Rates)
        ensures
            r.list().len() == 0,
            r@ == Map::<Seq<char>, Double>::empty(),
    {
        let r = Rates { entries: Vec::new() };
        assert(r@ =~= Map::<Seq<char>, Double>::empty());
        r
    }

    /// The position of a key.
    fn position(&self, key: &str) -> (r: Option<usize>)
        ensures
            match r {
                Some(i) => i < self.entries@.len() && self.entries@[i as int].0@ == key@,
                None => forall|i: int|
                    0 <= i < self.entries@.len() ==> (#[trigger] self.entries@[i]).0@ != key@,
            },
    {
        let n: usize = self.entries.len();
        let mut i: usize = 0;
        while i < n
            invariant
                n == self.entries@.len(),
                i <= n,
                forall|j: int| 0 <= j < i ==> (#[trigger] self.entries@[j]).0@ != key@,
            decreases n - i,
        {
            if same(self.entries[i].0.as_str(), key) {
                return Some(i);
            }
            i += 1;
        }
        None
    }

    /// The rate at `key`.
    pub fn get(&self, key: &str) -> (r: Option<Double>)
        ensures
            r is Some == self@.contains_key(key@),
            r matches Some(v) ==> v == self@[key@],
            r == rate_at(self.list(), key@),
    {
        proof {
            use_type_invariant(self);
        }
        match self.position(key) {
            Some(i) => {
                proof {
                    lemma_rate_here(self.entries@, i as int);
                }
                Some(self.entries[i].1)
            },
            None => {
                proof {
                    lemma_rate_none(self.entries@, key@);
                }
                None
            },
        }
    }

    /// The rates with `value` at `key`, in place of what stood there.
    pub fn with(self, key: &str, value: Double) -> (r: Rates)
        ensures
            r@ == self@.insert(key@, value),
    {
        proof {
            use_type_invariant(&self);
        }
        let at: Option<usize> = self.position(key);
        let ghost before = self.entries@;
        let mut entries: Vec<(String, Double)> = self.entries;
        match at {
            Some(i) => {
                entries.set(i, (key.to_string(), value));
                proof {
                    assert(entries@[i as int].0@ == before[i as int].0@);
                    assert(keys_differ(entries@));
                    lemma_rate_here(entries@, i as int);
                }
            },
            None => {
                entries.push((key.to_string(), value));
                proof {
                    assert forall|i: int, j: int| 0 <= i < j < entries@.len() implies (
                    #[trigger] entries@[i]).0@ != (#[trigger] entries@[j]).0@ by {
                        assert(entries@[i] == before[i]);
                        if j < before.len() {
                            assert(entries@[j] == before[j]);
                        }
                    }
                    lemma_rate_here(entries@, before.len() as int);
                }
            },
        }
        let r = Rates { entries };
        proof {
            assert forall|q: Seq<char>| #[trigger] rate_at(r.list(), q) == (if q == key@ {
                Some(value)
            } else {
                rate_at(before, q)
            }) by {
                if q != key@ {
                    lemma_rate_elsewhere(before, r.list(), q);
                }
            }
            assert(r@ =~= self@.insert(key@, value));
        }
        r
    }

    /// Insert `value` at `key` if absent, or lower the existing rate if
    /// `value` is smaller. Used so multiple products for the same volume type
    /// collapse to the cheapest rate.
    pub fn upsert_min(self, key: &str, value: Double) -> (r: Rates)
        ensures
            r@ == lowered(self@, key@, value),
    {
        if let Some(existing) = self.get(key) {
            if !value.lt(existing) {
                return self;
            }
        }
        self.with(key, value)
    }

    /// The number of rates.
    pub fn len(&self) -> (r: usize)
        ensures
            r == self.list().len(),
            keys_differ(self.list()),
    {
        proof {
            use_type_invariant(self);
        }
        self.entries.len()
    }

    /// Key and rate at a position.
    pub fn entry(&self, i: usize) -> (r: (&str, Double))
        requires
            i < self.list().len(),
        ensures
            r.0@ == self.list()[i as int].0@,
            r.1 == self.list()[i as int].1,
    {
        (self.entries[i].0.as_str(), self.entries[i].1)
    }
}

/// The rates with that at `key` lowered to `value`.
pub open spec fn lowered(
    rates: Map<Seq<char>, Double>,
    key: Seq<char>,
    value: Double,
) -> Map<Seq<char>, Double> {
    if rates.contains_key(key) && !value.less(rates[key]) {
        rates
    } else {
        rates.insert(key, value)
    }
}

/// Lowering never raises a rate, and touches no other key.
pub proof fn lowering_keeps_the_cheapest(
    rates: Map<Seq<char>, Double>,
    key: Seq<char>,
    value: Double,
    other: Seq<char>,
)
    ensures
        lowered(rates, key, value).contains_key(key),
        rates.contains_key(key) ==> !rates[key].less(lowered(rates, key, value)[key]),
        !value.less(lowered(rates, key, value)[key]),
        other != key ==> lowered(rates, key, value).contains_key(other) == rates.contains_key(other)
            && (rates.contains_key(other) ==> lowered(rates, key, value)[other] == rates[other]),
{
}

/// All rates.
#[derive(Debug)]
pub struct PriceTable {
    pub comment: String,
    pub prices_per_minute: Rates,
    pub ebs_per_gb_month: Rates,
    pub ebs_per_iops_month: Rates,
    pub ebs_per_mibps_month: Rates,
}

impl Default for PriceTable {
    fn default() -> (r: PriceTable)
        ensures
            r.comment@ == ""@,
            r.prices_per_minute@ == Map::<Seq<char>, Double>::empty(),
            r.ebs_per_gb_month@ == Map::<Seq<char>, Double>::empty(),
            r.ebs_per_iops_month@ == Map::<Seq<char>, Double>::empty(),
            r.ebs_per_mibps_month@ == Map::<Seq<char>, Double>::empty(),
    {
        PriceTable {
            comment: "".to_string(),
            prices_per_minute: Rates::new(),
            ebs_per_gb_month: Rates::new(),
            ebs_per_iops_month: Rates::new(),
            ebs_per_mibps_month: Rates::new(),
        }
    }
}

/// The rate at a key of a map.
pub open spec fn rate_of(rates: Map<Seq<char>, Double>, key: Seq<char>) -> Option<Double> {
    if rates.contains_key(key) {
        Some(rates[key])
    } else {
        None
    }
}

/// Per-minute USD compute rate for the given instance type.
pub fn lookup_price_per_minute(table: &PriceTable, instance_type: &str) -> (r: Option<Double>)
    ensures
        r == rate_of(table.prices_per_minute@, instance_type@),
{
    table.prices_per_minute.get(instance_type)
}

/// Per-GB-month USD rate for the given volume type (e.g. "gp3").
pub fn lookup_ebs_per_gb_month(table: &PriceTable, volume_type: &str) -> (r: Option<Double>)
    ensures
        r == rate_of(table.ebs_per_gb_month@, volume_type@),
{
    table.ebs_per_gb_month.get(volume_type)
}

/// Per-IOPS-month USD rate. Populated for `gp3` / `io1` / `io2` base tier.
/// io2 volumes above 32,000 IOPS are actually billed at lower tiered rates;
/// using the base tier slightly overestimates cost for those, which is the
/// honest direction.
pub fn lookup_ebs_per_iops_month(table: &PriceTable, volume_type: &str) -> (r: Option<Double>)
    ensures
        r == rate_of(table.ebs_per_iops_month@, volume_type@),
{
    table.ebs_per_iops_month.get(volume_type)
}

/// Per-MiBps-month USD rate for provisioned throughput. Only `gp3` today.
pub fn lookup_ebs_per_mibps_month(table: &PriceTable, volume_type: &str) -> (r: Option<Double>)
    ensures
        r == rate_of(table.ebs_per_mibps_month@, volume_type@),
{
    table.ebs_per_mibps_month.get(volume_type)
}

/// `n` where it is positive, and 0 elsewhere.
pub open spec fn not_below_zero(n: int) -> int {
    if n > 0 {
        n
    } else {
        0
    }
}

/// The number of 730-hour months, of 2,628,000 seconds each, in a duration.
pub open spec fn months_of(secs: int) -> Double {
    Double::of_int(not_below_zero(secs)).quotient(Double::of_int(2_628_000))
}

/// AWS bills storage in "730-hour months". Convert a wall-clock duration in
/// seconds to that same unit so capacity/IOPS/throughput rates apply cleanly.
pub fn seconds_to_months(secs: i64) -> (r: Double)
    ensures
        r == months_of(secs as int),
{
    let s: i64 = if secs > 0 {
        secs
    } else {
        0
    };
    Double::from_i64(s).over(Double::from_i64(730 * 3600))
}

/// gp3's first 3000 provisioned IOPS are included in the capacity rate.
/// io1/io2 bill every provisioned IOPS; gp2/st1/sc1/standard have no
/// provisioned-IOPS model.
pub const GP3_FREE_IOPS_BASELINE: i32 = 3000;

/// gp3's first 125 MiB/s of provisioned throughput is included in the
/// capacity rate.
pub const GP3_FREE_THROUGHPUT_MIBPS: i32 = 125;

/// `amount` at `rate` for some months.
pub open spec fn charge(amount: int, rate: Double, months: Double) -> Double {
    Double::of_int(amount).product(rate).product(months)
}

/// Capacity cost: every GiB; nothing for a volume type without a rate.
pub open spec fn capacity_cost(
    table: PriceTable,
    volume_type: Seq<char>,
    size_gib: int,
    months: Double,
) -> Double {
    match rate_of(table.ebs_per_gb_month@, volume_type) {
        Some(rate) => charge(not_below_zero(size_gib), rate, months),
        None => Double::of_int(0),
    }
}

/// The provisioned IOPS that are billed.
pub open spec fn billable_iops(volume_type: Seq<char>, provisioned: int) -> int {
    if volume_type == "gp3"@ {
        not_below_zero(provisioned - GP3_FREE_IOPS_BASELINE)
    } else {
        not_below_zero(provisioned)
    }
}

/// Provisioned-IOPS cost.
pub open spec fn iops_cost(
    table: PriceTable,
    volume_type: Seq<char>,
    provisioned_iops: int,
    months: Double,
) -> Double {
    match rate_of(table.ebs_per_iops_month@, volume_type) {
        Some(rate) => charge(billable_iops(volume_type, provisioned_iops), rate, months),
        None => Double::of_int(0),
    }
}

/// Provisioned-throughput cost: only for `gp3`, beyond what is free.
pub open spec fn throughput_cost(
    table: PriceTable,
    volume_type: Seq<char>,
    provisioned_mibps: int,
    months: Double,
) -> Double {
    if volume_type != "gp3"@ {
        Double::of_int(0)
    } else {
        match rate_of(table.ebs_per_mibps_month@, volume_type) {
            Some(rate) => charge(
                not_below_zero(provisioned_mibps - GP3_FREE_THROUGHPUT_MIBPS),
                rate,
                months,
            ),
            None => Double::of_int(0),
        }
    }
}

/// Capacity cost for the given time window. Zero when the volume type is not
/// in the rate table.
pub fn ebs_capacity_cost_usd(
    table: &PriceTable,
    volume_type: &str,
    size_gib: i32,
    months: Double,
) -> (r: Double)
    ensures
        r == capacity_cost(*table, volume_type@, size_gib as int, months),
{
    match lookup_ebs_per_gb_month(table, volume_type) {
        Some(rate) => {
            let size: i32 = if size_gib > 0 {
                size_gib
            } else {
                0
            };
            Double::from_i64(size as i64).times(rate).times(months)
        },
        None => Double::from_i64(0),
    }
}

/// Provisioned-IOPS cost for the given time window. Applies the gp3 free
/// baseline; io1/io2 bill from IOPS 0. Volume types without a rate cost
/// nothing.
pub fn ebs_iops_cost_usd(
    table: &PriceTable,
    volume_type: &str,
    provisioned_iops: i32,
    months: Double,
) -> (r: Double)
    ensures
        r == iops_cost(*table, volume_type@, provisioned_iops as int, months),
{
    let rate: Double = match lookup_ebs_per_iops_month(table, volume_type) {
        Some(rate) => rate,
        None => return Double::from_i64(0),
    };
    let base: i32 = if same(volume_type, "gp3") {
        GP3_FREE_IOPS_BASELINE
    } else {
        0
    };
    let billable: i32 = if provisioned_iops > base {
        provisioned_iops - base
    } else {
        0
    };
    Double::from_i64(billable as i64).times(rate).times(months)
}

/// Provisioned-throughput cost for the given time window. Only `gp3` has a
/// provisioned-throughput tier, and its first 125 MiB/s is free.
pub fn ebs_throughput_cost_usd(
    table: &PriceTable,
    volume_type: &str,
    provisioned_mibps: i32,
    months: Double,
) -> (r: Double)
    ensures
        r == throughput_cost(*table, volume_type@, provisioned_mibps as int, months),
{
    if !same(volume_type, "gp3") {
        return Double::from_i64(0);
    }
    let rate: Double = match lookup_ebs_per_mibps_month(table, volume_type) {
        Some(rate) => rate,
        None => return Double::from_i64(0),
    };
    let billable: i32 = if provisioned_mibps > GP3_FREE_THROUGHPUT_MIBPS {
        provisioned_mibps - GP3_FREE_THROUGHPUT_MIBPS
    } else {
        0
    };
    Double::from_i64(billable as i64).times(rate).times(months)
}

/// What gp3 includes is not billed.
pub proof fn baseline_is_free(iops: int, mibps: int)
    requires
        iops <= GP3_FREE_IOPS_BASELINE,
        mibps <= GP3_FREE_THROUGHPUT_MIBPS,
    ensures
        billable_iops("gp3"@, iops) == 0,
        not_below_zero(mibps - GP3_FREE_THROUGHPUT_MIBPS) == 0,
{
}

} // verus!
