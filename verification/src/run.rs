//! What the subcommands decide: thresholds, order of the rows, exit code,
//! regions.

use vstd::prelude::*;

use crate::aws::{clamp, clamped};
use crate::config::FileConfig;
use crate::contract::{declared_expiry, instant_parts, ContractView};
use crate::double::Double;
use crate::error::Error;
use crate::model::{InstanceRecord, InstanceState};
use crate::order::{sorted, stable_sort, Order, WeakOrder};
use crate::staleness::{
    evaluate, verdict_views, verdicts_of, worse, worse_of, worst, worst_severity, Config, Severity,
    Verdict, SECS_PER_DAY, SECS_PER_HOUR,
};
use crate::text::{before, precedes, same, strings};
use crate::timestamp::Timestamp;

verus! {

/// A record with its contract and its verdicts.
pub type Evaluated = (InstanceRecord, ContractView, Vec<Verdict>);

/// The cost that an unknown cost counts as when rows are ordered: -1, as a
/// double.
pub const UNKNOWN_COST_BITS: u64 = 0xbff0_0000_0000_0000;

/// The states that `list` and `stale` look at.
pub fn running_state() -> (r: Vec<InstanceState>)
    ensures
        r@ == seq![InstanceState::Running],
{
    let mut r: Vec<InstanceState> = Vec::new();
    r.push(InstanceState::Running);
    assert(r@ =~= seq![InstanceState::Running]);
    r
}

/// All non-terminal states (`explain` works on stopped instances too).
pub fn all_states() -> (r: Vec<InstanceState>)
    ensures
        r@ == seq![
            InstanceState::Pending,
            InstanceState::Running,
            InstanceState::ShuttingDown,
            InstanceState::Stopping,
            InstanceState::Stopped,
            InstanceState::Other,
        ],
        !r@.contains(InstanceState::Terminated),
{
    let mut r: Vec<InstanceState> = Vec::new();
    r.push(InstanceState::Pending);
    r.push(InstanceState::Running);
    r.push(InstanceState::ShuttingDown);
    r.push(InstanceState::Stopping);
    r.push(InstanceState::Stopped);
    r.push(InstanceState::Other);
    r
}

/// A number of units of time in seconds, as far as it fits.
pub open spec fn in_seconds(v: Option<i64>, unit: int) -> Option<int> {
    match v {
        Some(n) => Some(clamped(n * unit)),
        None => None,
    }
}

/// An optional number of seconds.
pub open spec fn option_secs(v: Option<i64>) -> Option<int> {
    match v {
        Some(n) => Some(n as int),
        None => None,
    }
}

fn to_seconds(v: Option<i64>, unit: i64) -> (r: Option<i64>)
    requires
        0 <= unit <= SECS_PER_DAY,
    ensures
        option_secs(r) == in_seconds(v, unit as int),
{
    match v {
        Some(n) => {
            assert(-0x8000_0000_0000_0000 * 86_400 <= n * unit <= 0x7fff_ffff_ffff_ffff * 86_400)
                by (nonlinear_arith)
                requires
                    0 <= unit <= 86_400,
                    -0x8000_0000_0000_0000 <= n <= 0x7fff_ffff_ffff_ffff,
            ;
            Some(clamp(n as i128 * unit as i128))
        },
        None => None,
    }
}

/// Layer file config over code defaults to build the final config. The
/// migration deadline comes from the command line.
pub fn build_stale_config(
    file_cfg: &FileConfig,
    now: Timestamp,
    migration_deadline: Option<Timestamp>,
) -> (cfg: Config)
    ensures
        cfg.now == now,
        cfg.migration_deadline == migration_deadline,
        cfg.p95_idle_threshold == Double::of_int(10),
        cfg.idle_lookback_secs == 14 * SECS_PER_DAY,
        option_secs(cfg.inactive_low_secs) == in_seconds(
            file_cfg.inactive.low_days,
            SECS_PER_DAY as int,
        ),
        option_secs(cfg.inactive_medium_secs) == in_seconds(
            file_cfg.inactive.medium_days,
            SECS_PER_DAY as int,
        ),
        option_secs(cfg.inactive_high_secs) == in_seconds(
            file_cfg.inactive.high_days,
            SECS_PER_DAY as int,
        ),
        option_secs(cfg.long_lived_age_secs) == in_seconds(
            file_cfg.long_lived.age_days,
            SECS_PER_DAY as int,
        ),
        cfg.p95_underutilized_threshold == file_cfg.underutilized.p95_threshold_pct,
        cfg.min_cpu_samples == (match file_cfg.inactive.min_samples {
            Some(n) => n,
            None => 168,
        }),
        cfg.warn_window_secs == (match in_seconds(file_cfg.warn.window_hours, SECS_PER_HOUR as int) {
            Some(secs) => secs,
            None => 72 * SECS_PER_HOUR,
        }),
{
    let mut cfg: Config = Config::defaults(now);
    cfg.migration_deadline = migration_deadline;
    cfg.inactive_low_secs = to_seconds(file_cfg.inactive.low_days, SECS_PER_DAY);
    cfg.inactive_medium_secs = to_seconds(file_cfg.inactive.medium_days, SECS_PER_DAY);
    cfg.inactive_high_secs = to_seconds(file_cfg.inactive.high_days, SECS_PER_DAY);
    if let Some(v) = file_cfg.inactive.min_samples {
        cfg.min_cpu_samples = v;
    }
    cfg.long_lived_age_secs = to_seconds(file_cfg.long_lived.age_days, SECS_PER_DAY);
    cfg.p95_underutilized_threshold = file_cfg.underutilized.p95_threshold_pct;
    if let Some(secs) = to_seconds(file_cfg.warn.window_hours, SECS_PER_HOUR) {
        cfg.warn_window_secs = secs;
    }
    cfg
}

/// The position of a record when rows are ordered by cost.
pub open spec fn cost_rank(r: InstanceRecord) -> int {
    match r.estimated_cost_usd {
        Some(c) => c.total_rank(),
        None => (Double { bits: UNKNOWN_COST_BITS }).total_rank(),
    }
}

/// Whether `a` costs more than `b`.
pub fn costs_more(a: &InstanceRecord, b: &InstanceRecord) -> (r: bool)
    ensures
        r == (cost_rank(*a) > cost_rank(*b)),
{
    let x: Double = match a.estimated_cost_usd {
        Some(c) => c,
        None => Double { bits: UNKNOWN_COST_BITS },
    };
    let y: Double = match b.estimated_cost_usd {
        Some(c) => c,
        None => Double { bits: UNKNOWN_COST_BITS },
    };
    y.total_lt(x)
}

/// Whether `a` is older than `b`, or as old with a lower id.
pub open spec fn elder(a: InstanceRecord, b: InstanceRecord) -> bool {
    a.total_age_seconds > b.total_age_seconds || (a.total_age_seconds == b.total_age_seconds
        && precedes(a.instance_id@, b.instance_id@))
}

fn is_elder(a: &InstanceRecord, b: &InstanceRecord) -> (r: bool)
    ensures
        r == elder(*a, *b),
{
    a.total_age_seconds > b.total_age_seconds || (a.total_age_seconds == b.total_age_seconds
        && before(a.instance_id.as_str(), b.instance_id.as_str()))
}

proof fn lemma_elder(a: InstanceRecord, b: InstanceRecord, c: InstanceRecord)
    ensures
        elder(a, b) ==> !elder(b, a),
        !elder(b, a) && !elder(c, b) ==> !elder(c, a),
{
    if elder(a, b) && a.total_age_seconds == b.total_age_seconds {
        crate::text::lemma_precedes_asymmetric(a.instance_id@, b.instance_id@);
    }
    if !elder(b, a) && !elder(c, b) && a.total_age_seconds == b.total_age_seconds
        && b.total_age_seconds == c.total_age_seconds {
        crate::text::lemma_follows_transitive(a.instance_id@, b.instance_id@, c.instance_id@);
    }
}

/// Records from the most to the least expensive; of one cost the oldest
/// first, of one age by their ids.
pub struct CostliestFirst;

impl Order<InstanceRecord> for CostliestFirst {
    open spec fn before(a: InstanceRecord, b: InstanceRecord) -> bool {
        cost_rank(a) > cost_rank(b) || (cost_rank(a) == cost_rank(b) && elder(a, b))
    }

    fn less(a: &InstanceRecord, b: &InstanceRecord) -> (r: bool) {
        costs_more(a, b) || (!costs_more(b, a) && is_elder(a, b))
    }
}

impl WeakOrder<InstanceRecord> for CostliestFirst {
    proof fn asymmetric(a: InstanceRecord, b: InstanceRecord) {
        lemma_elder(a, b, a);
    }

    proof fn transitive(a: InstanceRecord, b: InstanceRecord, c: InstanceRecord) {
        lemma_elder(a, b, c);
    }
}

/// The rows of `list`, the most expensive first.
pub fn order_by_cost(records: Vec<InstanceRecord>) -> (out: Vec<InstanceRecord>)
    ensures
        out@ == sorted::<InstanceRecord, CostliestFirst>(records@),
{
    stable_sort::<InstanceRecord, CostliestFirst>(records)
}

/// The position of a row by its worst verdict; one without a verdict stands
/// below all others.
pub open spec fn urgency(e: Evaluated) -> int {
    match worst(verdict_views(e.2@)) {
        Some(s) => s.rank(),
        None => -1,
    }
}

fn get_urgency(e: &Evaluated) -> (r: i32)
    ensures
        r == urgency(*e),
{
    match worst_severity(e.2.as_slice()) {
        Some(s) => s.level(),
        None => -1,
    }
}

/// Rows from the most to the least urgent; of one urgency the oldest first,
/// of one age by their ids.
pub struct WorstFirst;

impl Order<Evaluated> for WorstFirst {
    open spec fn before(a: Evaluated, b: Evaluated) -> bool {
        urgency(a) > urgency(b) || (urgency(a) == urgency(b) && elder(a.0, b.0))
    }

    fn less(a: &Evaluated, b: &Evaluated) -> (r: bool) {
        let x: i32 = get_urgency(a);
        let y: i32 = get_urgency(b);
        x > y || (x == y && is_elder(&a.0, &b.0))
    }
}

impl WeakOrder<Evaluated> for WorstFirst {
    proof fn asymmetric(a: Evaluated, b: Evaluated) {
        lemma_elder(a.0, b.0, a.0);
    }

    proof fn transitive(a: Evaluated, b: Evaluated, c: Evaluated) {
        lemma_elder(a.0, b.0, c.0);
    }
}

/// Whether `e` is the record `r` with its contract and its verdicts.
pub open spec fn is_evaluation(e: Evaluated, r: InstanceRecord, cfg: Config) -> bool {
    &&& e.0 == r
    &&& e.1.reads(r.tags@)
    &&& instant_parts(e.1.expires_at) == declared_expiry(r.tags@)
    &&& verdict_views(e.2@) == verdicts_of(r, e.1, cfg)
}

/// Whether these are the evaluations of the records, one by one.
pub open spec fn are_evaluations(
    list: Seq<Evaluated>,
    records: Seq<InstanceRecord>,
    cfg: Config,
) -> bool {
    &&& list.len() == records.len()
    &&& forall|i: int| 0 <= i < list.len() ==> is_evaluation(#[trigger] list[i], records[i], cfg)
}

/// The rows of `stale`: every record with its contract and its verdicts, the
/// most urgent first.
pub fn evaluate_all(records: Vec<InstanceRecord>, cfg: &Config) -> (out: Vec<Evaluated>)
    ensures
        exists|list: Seq<Evaluated>|
            #[trigger] are_evaluations(list, records@, *cfg) && out@ == sorted::<
                Evaluated,
                WorstFirst,
            >(list),
{
    let ghost all = records@;
    let mut rest: Vec<InstanceRecord> = records;
    let mut list: Vec<Evaluated> = Vec::new();
    assert(all.skip(0) =~= all);
    while rest.len() > 0
        invariant
            list@.len() + rest@.len() == all.len(),
            rest@ == all.skip(list@.len() as int),
            forall|i: int|
                0 <= i < list@.len() ==> is_evaluation(#[trigger] list@[i], all[i], *cfg),
        decreases rest@.len(),
    {
        let ghost k = list@.len() as int;
        let ghost made = list@;
        let r: InstanceRecord = rest.remove(0);
        proof {
            assert(r == all[k]);
            assert(rest@ =~= all.skip(k + 1));
        }
        let c: ContractView = ContractView::from_tags(&r.tags);
        let verdicts: Vec<Verdict> = evaluate(&r, &c, cfg);
        list.push((r, c, verdicts));
        proof {
            assert forall|i: int| 0 <= i < list@.len() implies is_evaluation(
                #[trigger] list@[i],
                all[i],
                *cfg,
            ) by {
                if i < made.len() {
                    assert(list@[i] == made[i]);
                }
            }
        }
    }
    let ghost made = list@;
    assert(are_evaluations(made, all, *cfg));
    stable_sort::<Evaluated, WorstFirst>(list)
}

/// The worst severity over all rows.
pub open spec fn overall_worst(rows: Seq<Evaluated>) -> Option<Severity>
    decreases rows.len(),
{
    if rows.len() == 0 {
        None
    } else {
        let front = overall_worst(rows.drop_last());
        match worst(verdict_views(rows.last().2@)) {
            Some(s) => Some(worse(front, s)),
            None => front,
        }
    }
}

/// The worst severity over all rows.
pub fn worst_of_all(rows: &[Evaluated]) -> (r: Option<Severity>)
    ensures
        r == overall_worst(rows@),
{
    let n: usize = rows.len();
    let mut r: Option<Severity> = None;
    let mut i: usize = 0;
    while i < n
        invariant
            n == rows@.len(),
            i <= n,
            r == overall_worst(rows@.take(i as int)),
        decreases n - i,
    {
        proof {
            assert(rows@.take(i + 1).drop_last() =~= rows@.take(i as int));
            assert(rows@.take(i + 1).last() == rows@[i as int]);
        }
        if let Some(s) = worst_severity(rows[i].2.as_slice()) {
            r = Some(worse_of(r, s));
        }
        i += 1;
    }
    assert(rows@.take(n as int) =~= rows@);
    r
}

/// The exit code of `stale`.
pub fn stale_exit_code(rows: &[Evaluated]) -> (r: i32)
    ensures
        r == (match overall_worst(rows@) {
            Some(s) => s.code(),
            None => 0,
        }),
{
    match worst_of_all(rows) {
        Some(s) => s.exit_code(),
        None => Severity::Info.exit_code(),
    }
}

/// The worst severity over all rows is at least as bad as that of each, and
/// is that of one of them.
pub proof fn overall_worst_is_the_maximum(rows: Seq<Evaluated>)
    ensures
        forall|i: int|
            0 <= i < rows.len() ==> urgency(#[trigger] rows[i]) <= (match overall_worst(rows) {
                Some(s) => s.rank(),
                None => -1,
            }),
        overall_worst(rows) matches Some(s) ==> exists|i: int|
            0 <= i < rows.len() && urgency(#[trigger] rows[i]) == s.rank(),
    decreases rows.len(),
{
    if rows.len() > 0 {
        let front = rows.drop_last();
        overall_worst_is_the_maximum(front);
        assert forall|i: int| 0 <= i < rows.len() implies urgency(#[trigger] rows[i]) <= (
        match overall_worst(rows) {
            Some(s) => s.rank(),
            None => -1,
        }) by {
            if i < front.len() {
                assert(front[i] == rows[i]);
            }
        }
        if let Some(s) = overall_worst(rows) {
            if urgency(rows[rows.len() - 1]) == s.rank() {
            } else {
                let t = overall_worst(front)->0;
                let k = choose|i: int| 0 <= i < front.len() && urgency(#[trigger] front[i])
                    == t.rank();
                assert(rows[k] == front[k]);
            }
        }
    }
}

/// The position of the first record with the id.
pub fn find_record(records: &[InstanceRecord], id: &str) -> (r: Option<usize>)
    ensures
        match r {
            Some(i) => i < records@.len() && records@[i as int].instance_id@ == id@ && forall|j: int|
                0 <= j < i ==> (#[trigger] records@[j]).instance_id@ != id@,
            None => forall|j: int|
                0 <= j < records@.len() ==> (#[trigger] records@[j]).instance_id@ != id@,
        },
{
    let n: usize = records.len();
    let mut i: usize = 0;
    while i < n
        invariant
            n == records@.len(),
            i <= n,
            forall|j: int| 0 <= j < i ==> (#[trigger] records@[j]).instance_id@ != id@,
        decreases n - i,
    {
        if same(records[i].instance_id.as_str(), id) {
            return Some(i);
        }
        i += 1;
    }
    None
}

/// The error for an instance that no region has.
pub fn not_found(id: &str, regions: &Vec<String>) -> (r: Error)
    ensures
        r matches Error::InstanceNotFound { id: i, region } && i@ == id@ && region@
            == crate::text::joined(strings(regions@), ", "@),
{
    Error::InstanceNotFound { id: id.to_string(), region: crate::text::join(regions, ", ") }
}

/// The one region to query, where there is one configured.
pub fn single_region(configured: Option<String>) -> (r: Result<String, Error>)
    ensures
        match configured {
            Some(name) => r == Ok::<String, Error>(name),
            None => r matches Err(Error::RegionNotConfigured),
        },
{
    match configured {
        Some(name) => Ok(name),
        None => Err(Error::RegionNotConfigured),
    }
}

/// The region in which the others are asked for: the configured one; without
/// it one that is universally available.
pub fn discovery_region(configured: Option<String>) -> (r: String)
    ensures
        r@ == (match configured {
            Some(name) => name@,
            None => "us-east-1"@,
        }),
{
    match configured {
        Some(name) => name,
        None => "us-east-1".to_string(),
    }
}

/// Names in dictionary order.
pub struct ByName;

impl Order<String> for ByName {
    open spec fn before(a: String, b: String) -> bool {
        precedes(a@, b@)
    }

    fn less(a: &String, b: &String) -> (r: bool) {
        before(a.as_str(), b.as_str())
    }
}

impl WeakOrder<String> for ByName {
    proof fn asymmetric(a: String, b: String) {
        crate::text::lemma_precedes_asymmetric(a@, b@);
    }

    proof fn transitive(a: String, b: String, c: String) {
        crate::text::lemma_follows_transitive(a@, b@, c@);
    }
}

/// The names that are there.
pub open spec fn present(names: Seq<Option<String>>) -> Seq<String>
    decreases names.len(),
{
    if names.len() == 0 {
        Seq::empty()
    } else {
        match names.last() {
            Some(name) => present(names.drop_last()).push(name),
            None => present(names.drop_last()),
        }
    }
}

/// The regions to query, in dictionary order, where all that are enabled are
/// asked for. None at all is an error.
pub fn enabled_regions(names: &Vec<Option<String>>) -> (r: Result<Vec<String>, String>)
    ensures
        r is Ok == (present(names@).len() > 0),
        r matches Ok(list) ==> list@ == sorted::<String, ByName>(present(names@)),
        r matches Err(m) ==> m@ == "ec2:DescribeRegions returned no enabled regions"@,
{
    let n: usize = names.len();
    let mut list: Vec<String> = Vec::new();
    let mut i: usize = 0;
    while i < n
        invariant
            n == names@.len(),
            i <= n,
            list@ == present(names@.take(i as int)),
        decreases n - i,
    {
        proof {
            assert(names@.take(i + 1).drop_last() =~= names@.take(i as int));
            assert(names@.take(i + 1).last() == names@[i as int]);
        }
        if let Some(name) = &names[i] {
            list.push(name.clone());
        }
        i += 1;
    }
    assert(names@.take(n as int) =~= names@);
    if list.len() == 0 {
        return Err("ec2:DescribeRegions returned no enabled regions".to_string());
    }
    Ok(stable_sort::<String, ByName>(list))
}

/// The rows of `stale` come with the most urgent first; of one urgency the
/// oldest first.
pub proof fn rows_come_worst_first(list: Seq<Evaluated>, i: int, j: int)
    requires
        0 <= i < j < sorted::<Evaluated, WorstFirst>(list).len(),
    ensures
        ({
            let rows = sorted::<Evaluated, WorstFirst>(list);
            urgency(rows[i]) >= urgency(rows[j]) && (urgency(rows[i]) == urgency(rows[j])
                ==> rows[i].0.total_age_seconds >= rows[j].0.total_age_seconds)
        }),
{
    crate::order::sorting_orders::<Evaluated, WorstFirst>(list);
    let rows = sorted::<Evaluated, WorstFirst>(list);
    assert(!WorstFirst::before(rows[j], rows[i]));
}

/// The rows of `list` come with the most expensive first.
pub proof fn rows_come_costliest_first(list: Seq<InstanceRecord>, i: int, j: int)
    requires
        0 <= i < j < sorted::<InstanceRecord, CostliestFirst>(list).len(),
    ensures
        cost_rank(sorted::<InstanceRecord, CostliestFirst>(list)[i]) >= cost_rank(
            sorted::<InstanceRecord, CostliestFirst>(list)[j],
        ),
{
    crate::order::sorting_orders::<InstanceRecord, CostliestFirst>(list);
    let rows = sorted::<InstanceRecord, CostliestFirst>(list);
    assert(!CostliestFirst::before(rows[j], rows[i]));
}

/// Enabled regions come in dictionary order.
pub proof fn regions_come_in_order(names: Seq<String>, i: int, j: int)
    requires
        0 <= i < j < sorted::<String, ByName>(names).len(),
    ensures
        !precedes(sorted::<String, ByName>(names)[j]@, sorted::<String, ByName>(names)[i]@),
{
    crate::order::sorting_orders::<String, ByName>(names);
    let rows = sorted::<String, ByName>(names);
    assert(!ByName::before(rows[j], rows[i]));
}

} // verus!
