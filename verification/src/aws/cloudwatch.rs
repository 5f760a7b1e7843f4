//! CPU metrics: the queries for a batch of instances, what is kept of the
//! answers, and the summary of each instance.

use vstd::prelude::*;

use crate::aws::{clamp, clamped, convert_instant, convertible, SdkInstant};
use crate::contract::instant_parts;
use crate::decimal::{count_of, to_count};
use crate::double::Double;
use crate::model::{CpuSummary, InstanceRecord};
use crate::order::{sorted, stable_sort, Order};
use crate::staleness::SECS_PER_DAY;
use crate::text::{count, nat_text, same};
use crate::timestamp::{balanced, Timestamp};

verus! {

/// GetMetricData accepts up to 500 MetricDataQuery entries per call. There are
/// two queries (avg, max) per instance, so at most 250 instances per batch.
pub const INSTANCES_PER_BATCH: usize = 250;

pub const PERIOD_SECS: i32 = 3_600;

/// Threshold (hourly Maximum CPU %) from which an hour is considered "active":
/// 5, as a double. Tuned for "something real happened" rather than the
/// stricter idle threshold used for the `idle` rule.
pub const ACTIVE_THRESHOLD_BITS: u64 = 0x4014_0000_0000_0000;

/// The share of the samples below the 95th percentile: 0.95, as a double.
pub const PERCENTILE_BITS: u64 = 0x3fee_6666_6666_6666;

/// Minus infinity, as a double.
pub const LOWEST_BITS: u64 = 0xfff0_0000_0000_0000;

/// Minus zero, as a double: the sum of nothing.
pub const EMPTY_SUM_BITS: u64 = 0x8000_0000_0000_0000;

/// The second at which the window of metrics starts.
pub fn window_start(now_secs: i64, lookback_days: i64) -> (r: i64)
    ensures
        r == clamped(now_secs - clamped(lookback_days * SECS_PER_DAY)),
{
    proof {
        assert(-0x8000_0000_0000_0000 * 86_400 <= lookback_days * 86_400 <= 0x7fff_ffff_ffff_ffff
            * 86_400);
    }
    let lookback_secs: i64 = clamp(lookback_days as i128 * SECS_PER_DAY as i128);
    clamp(now_secs as i128 - lookback_secs as i128)
}

/// The smaller of two lengths.
pub open spec fn at_most(a: int, b: int) -> int {
    if a <= b {
        a
    } else {
        b
    }
}

/// The instances of batch `k`.
pub open spec fn batch_of(ids: Seq<String>, k: int) -> Seq<String> {
    ids.subrange(
        INSTANCES_PER_BATCH * k,
        at_most(INSTANCES_PER_BATCH * (k + 1), ids.len() as int),
    )
}

/// The number of batches that hold `n` instances.
pub open spec fn batch_count(n: int) -> int {
    (n + INSTANCES_PER_BATCH - 1) / (INSTANCES_PER_BATCH as int)
}

/// The instances in batches: each full but the last, in the order of the list.
pub fn batches(ids: &Vec<String>) -> (out: Vec<Vec<String>>)
    ensures
        out@.len() == batch_count(ids@.len() as int),
        forall|k: int| 0 <= k < out@.len() ==> (#[trigger] out@[k])@ == batch_of(ids@, k),
{
    let n: usize = ids.len();
    let mut out: Vec<Vec<String>> = Vec::new();
    let mut i: usize = 0;
    while i < n
        invariant
            n == ids@.len(),
            i == at_most(INSTANCES_PER_BATCH * out@.len(), n as int),
            out@.len() <= n,
            i == n ==> out@.len() == batch_count(n as int),
            forall|k: int| 0 <= k < out@.len() ==> (#[trigger] out@[k])@ == batch_of(ids@, k),
        decreases n - i,
    {
        let end: usize = if n - i > INSTANCES_PER_BATCH {
            i + INSTANCES_PER_BATCH
        } else {
            n
        };
        let mut batch: Vec<String> = Vec::new();
        let mut j: usize = i;
        while j < end
            invariant
                n == ids@.len(),
                i <= j <= end <= n,
                batch@ == ids@.subrange(i as int, j as int),
            decreases end - j,
        {
            batch.push(ids[j].clone());
            assert(ids@.subrange(i as int, j + 1) =~= ids@.subrange(i as int, j as int).push(
                ids@[j as int],
            ));
            j += 1;
        }
        out.push(batch);
        i = end;
    }
    out
}

/// Which statistic a query asks for.
#[derive(Clone, Copy, Debug, PartialEq, Eq, Structural)]
pub enum QueryKind {
    Avg,
    Max,
}

impl QueryKind {
    /// The statistic, as CloudWatch calls it.
    pub open spec fn stat(self) -> Seq<char> {
        match self {
            QueryKind::Avg => "Average"@,
            QueryKind::Max => "Maximum"@,
        }
    }

    /// The first part of the id of such a query.
    pub open spec fn prefix(self) -> Seq<char> {
        match self {
            QueryKind::Avg => "avg"@,
            QueryKind::Max => "max"@,
        }
    }
}

/// One metric query.
#[derive(Debug)]
pub struct MetricQuery {
    pub id: String,
    pub namespace: &'static str,
    pub metric_name: &'static str,
    pub dimension_name: &'static str,
    pub dimension_value: String,
    pub period: i32,
    pub stat: &'static str,
    pub return_data: bool,
}

/// The id of the query for the instance at `idx` of a batch.
pub open spec fn query_id(kind: QueryKind, idx: nat) -> Seq<char> {
    kind.prefix() + "_"@ + nat_text(idx)
}

/// Whether `q` asks for the hourly CPU load of the instance at `idx`.
pub open spec fn asks_for(q: MetricQuery, kind: QueryKind, idx: nat, instance_id: Seq<char>) -> bool {
    &&& q.id@ == query_id(kind, idx)
    &&& q.namespace@ == "AWS/EC2"@
    &&& q.metric_name@ == "CPUUtilization"@
    &&& q.dimension_name@ == "InstanceId"@
    &&& q.dimension_value@ == instance_id
    &&& q.period == PERIOD_SECS
    &&& q.stat@ == kind.stat()
    &&& q.return_data
}

fn metric_query(kind: QueryKind, idx: usize, instance_id: &str) -> (q: MetricQuery)
    ensures
        asks_for(q, kind, idx as nat, instance_id@),
{
    let stat: &'static str = match kind {
        QueryKind::Avg => "Average",
        QueryKind::Max => "Maximum",
    };
    let prefix: &'static str = match kind {
        QueryKind::Avg => "avg",
        QueryKind::Max => "max",
    };
    MetricQuery {
        id: prefix.to_string().concat("_").concat(count(idx).as_str()),
        namespace: "AWS/EC2",
        metric_name: "CPUUtilization",
        dimension_name: "InstanceId",
        dimension_value: instance_id.to_string(),
        period: PERIOD_SECS,
        stat,
        return_data: true,
    }
}

/// The queries for a batch: average and maximum of each instance in turn.
pub fn build_queries(batch: &Vec<String>) -> (out: Vec<MetricQuery>)
    ensures
        out@.len() == 2 * batch@.len(),
        forall|i: int|
            0 <= i < batch@.len() ==> asks_for(
                out@[2 * i],
                QueryKind::Avg,
                i as nat,
                (#[trigger] batch@[i])@,
            ) && asks_for(out@[2 * i + 1], QueryKind::Max, i as nat, batch@[i]@),
{
    let n: usize = batch.len();
    let mut out: Vec<MetricQuery> = Vec::new();
    let mut idx: usize = 0;
    while idx < n
        invariant
            n == batch@.len(),
            idx <= n,
            out@.len() == 2 * idx,
            forall|i: int|
                0 <= i < idx ==> asks_for(
                    out@[2 * i],
                    QueryKind::Avg,
                    i as nat,
                    (#[trigger] batch@[i])@,
                ) && asks_for(out@[2 * i + 1], QueryKind::Max, i as nat, batch@[i]@),
        decreases n - idx,
    {
        out.push(metric_query(QueryKind::Avg, idx, batch[idx].as_str()));
        out.push(metric_query(QueryKind::Max, idx, batch[idx].as_str()));
        idx += 1;
    }
    out
}

/// What stands before and after the first underscore.
pub open spec fn split_at_underscore(s: Seq<char>) -> Option<(Seq<char>, Seq<char>)>
    decreases s.len(),
{
    if s.len() == 0 {
        None
    } else if s[0] == '_' {
        Some((Seq::empty(), s.drop_first()))
    } else {
        match split_at_underscore(s.drop_first()) {
            Some((a, b)) => Some((seq![s[0]] + a, b)),
            None => None,
        }
    }
}

/// The number that a row of decimal digits stands for.
pub open spec fn digits_number(s: Seq<char>) -> Option<nat>
    decreases s.len(),
{
    if s.len() == 0 {
        Some(0)
    } else {
        match digits_number(s.drop_last()) {
            Some(n) => if '0' <= s.last() <= '9' {
                Some(10 * n + (s.last() as int - '0' as int) as nat)
            } else {
                None
            },
            None => None,
        }
    }
}

/// The index that a text stands for: decimal digits, at least one, after an
/// optional plus sign, with a value that an index can have.
pub open spec fn index_number(s: Seq<char>) -> Option<nat> {
    let body = if s.len() > 0 && s[0] == '+' {
        s.drop_first()
    } else {
        s
    };
    match digits_number(body) {
        Some(n) => if body.len() > 0 && n <= usize::MAX {
            Some(n)
        } else {
            None
        },
        None => None,
    }
}

/// Kind and index that a query id stands for.
pub open spec fn query_of(id: Seq<char>) -> Option<(QueryKind, nat)> {
    match split_at_underscore(id) {
        None => None,
        Some((prefix, rest)) => match index_number(rest) {
            None => None,
            Some(idx) => if prefix == "avg"@ {
                Some((QueryKind::Avg, idx))
            } else if prefix == "max"@ {
                Some((QueryKind::Max, idx))
            } else {
                None
            },
        },
    }
}

proof fn lemma_digits_stop(s: Seq<char>, k: int)
    requires
        0 <= k <= s.len(),
    ensures
        digits_number(s.take(k)) is None ==> digits_number(s) is None,
        digits_number(s.take(k)) is Some && digits_number(s) is Some ==> digits_number(s.take(k))->0
            <= digits_number(s)->0,
    decreases s.len() - k,
{
    if k == s.len() {
        assert(s.take(k) =~= s);
    } else {
        lemma_digits_stop(s, k + 1);
        assert(s.take(k + 1).drop_last() =~= s.take(k));
    }
}

/// The value of a decimal digit.
fn digit_value(c: char) -> (r: Option<u64>)
    ensures
        r is Some == ('0' <= c <= '9'),
        r matches Some(d) ==> d == c as int - '0' as int && d < 10,
{
    if '0' <= c && c <= '9' {
        Some((c as u32 - 48) as u64)
    } else {
        None
    }
}

fn parse_index(chars: &Vec<char>, from: usize) -> (r: Option<usize>)
    requires
        from <= chars@.len(),
    ensures
        r is Some == index_number(chars@.skip(from as int)) is Some,
        r matches Some(n) ==> index_number(chars@.skip(from as int)) == Some(n as nat),
{
    let n: usize = chars.len();
    let ghost text = chars@.skip(from as int);
    let start: usize = if from < n && chars[from] == '+' {
        from + 1
    } else {
        from
    };
    let ghost body = chars@.skip(start as int);
    proof {
        if start > from {
            assert(text[0] == chars@[from as int]);
            assert(text.drop_first() =~= body);
        } else if text.len() > 0 {
            assert(text[0] == chars@[from as int]);
        }
    }
    if start == n {
        return None;
    }
    let mut value: usize = 0;
    let mut i: usize = start;
    assert(body.take(0) =~= Seq::<char>::empty());
    while i < n
        invariant
            n == chars@.len(),
            start <= i <= n,
            body == chars@.skip(start as int),
            index_number(text) == (match digits_number(body) {
                Some(v) => if body.len() > 0 && v <= usize::MAX {
                    Some(v)
                } else {
                    None
                },
                None => None,
            }),
            text == chars@.skip(from as int),
            digits_number(body.take(i - start)) == Some(value as nat),
        decreases n - i,
    {
        let ghost front = body.take(i - start + 1);
        proof {
            assert(front.drop_last() =~= body.take(i - start));
            assert(front.last() == chars@[i as int]);
            lemma_digits_stop(body, i - start + 1);
        }
        let d: usize = match digit_value(chars[i]) {
            Some(d) => d as usize,
            None => return None,
        };
        match value.checked_mul(10) {
            None => return None,
            Some(tens) => match tens.checked_add(d) {
                None => return None,
                Some(sum) => {
                    value = sum;
                },
            },
        }
        i += 1;
    }
    assert(body.take(n - start) =~= body);
    Some(value)
}

/// Kind and index that a query id stands for.
pub fn parse_query_id(id: &str) -> (r: Option<(QueryKind, usize)>)
    ensures
        r is Some == query_of(id@) is Some,
        r matches Some((kind, idx)) ==> query_of(id@) == Some((kind, idx as nat)),
{
    let chars: Vec<char> = crate::text::chars_of(id);
    let n: usize = chars.len();
    let mut k: usize = 0;
    assert(chars@.skip(0) =~= chars@);
    proof {
        if let Some((a, b)) = split_at_underscore(id@) {
            assert(chars@.take(0) + a =~= a);
        }
    }
    while k < n && chars[k] != '_'
        invariant
            n == chars@.len(),
            chars@ == id@,
            k <= n,
            split_at_underscore(id@) == (match split_at_underscore(chars@.skip(k as int)) {
                Some((a, b)) => Some((chars@.take(k as int) + a, b)),
                None => None,
            }),
        decreases n - k,
    {
        proof {
            let rest = chars@.skip(k as int);
            assert(rest[0] == chars@[k as int]);
            assert(rest.drop_first() =~= chars@.skip(k + 1));
            if let Some((a, b)) = split_at_underscore(chars@.skip(k + 1)) {
                assert(chars@.take(k as int) + (seq![chars@[k as int]] + a) =~= chars@.take(k + 1)
                    + a);
            }
        }
        k += 1;
    }
    if k == n {
        assert(chars@.skip(k as int) =~= Seq::<char>::empty());
        return None;
    }
    proof {
        let rest = chars@.skip(k as int);
        assert(rest[0] == '_');
        assert(rest.drop_first() =~= chars@.skip(k + 1));
        assert(chars@.take(k as int) + Seq::<char>::empty() =~= chars@.subrange(0, k as int));
    }
    let idx: usize = match parse_index(&chars, k + 1) {
        Some(idx) => idx,
        None => return None,
    };
    let prefix: String = crate::text::text_of(&chars, 0, k);
    if same(prefix.as_str(), "avg") {
        Some((QueryKind::Avg, idx))
    } else if same(prefix.as_str(), "max") {
        Some((QueryKind::Max, idx))
    } else {
        None
    }
}

proof fn lemma_digits_of_nat(n: nat)
    ensures
        digits_number(nat_text(n)) == Some(n),
        nat_text(n).len() > 0,
        '0' <= nat_text(n)[0] <= '9',
    decreases n,
{
    reveal_with_fuel(digits_number, 2);
    let t = nat_text(n);
    if n < 10 {
        assert(t.drop_last() =~= Seq::<char>::empty());
        assert(t.last() == crate::text::digit(n));
    } else {
        lemma_digits_of_nat(n / 10);
        assert(t.drop_last() =~= nat_text(n / 10));
        assert(t[0] == nat_text(n / 10)[0]);
    }
}

/// The id of a query leads back to its kind and index.
pub proof fn query_ids_lead_back(kind: QueryKind, idx: nat)
    requires
        idx <= usize::MAX,
    ensures
        query_of(query_id(kind, idx)) == Some((kind, idx)),
{
    reveal_strlit("avg");
    reveal_strlit("max");
    reveal_strlit("_");
    lemma_digits_of_nat(idx);
    let digits = nat_text(idx);
    let id = query_id(kind, idx);
    let p = kind.prefix();
    assert(p.len() == 3 && p[0] != '_' && p[1] != '_' && p[2] != '_');
    reveal_with_fuel(split_at_underscore, 5);
    let t1 = id.drop_first();
    let t2 = t1.drop_first();
    let t3 = t2.drop_first();
    assert(id[0] == p[0] && t1[0] == p[1] && t2[0] == p[2] && t3[0] == '_');
    assert(t3.drop_first() =~= digits);
    assert(split_at_underscore(t3) == Some((Seq::<char>::empty(), digits)));
    assert(split_at_underscore(id) == Some(
        (seq![p[0]] + (seq![p[1]] + (seq![p[2]] + Seq::<char>::empty())), digits),
    ));
    assert(seq![p[0]] + (seq![p[1]] + (seq![p[2]] + Seq::<char>::empty())) =~= p);
    assert("avg"@[0] == 'a' && "max"@[0] == 'm');
}

/// What has been received for one instance.
#[derive(Debug)]
pub struct Slot {
    pub averages: Vec<Double>,
    pub maximums: Vec<Double>,
    /// Most recent hour whose maximum reached the activity threshold.
    pub last_active: Option<Timestamp>,
}

/// What a slot holds.
pub ghost struct SlotView {
    pub averages: Seq<Double>,
    pub maximums: Seq<Double>,
    pub last_active: Option<(i64, i32)>,
}

impl View for Slot {
    type V = SlotView;

    open spec fn view(&self) -> SlotView {
        SlotView {
            averages: self.averages@,
            maximums: self.maximums@,
            last_active: instant_parts(self.last_active),
        }
    }
}

/// What the slots hold.
pub open spec fn slot_views(slots: Seq<Slot>) -> Seq<SlotView> {
    slots.map_values(|s: Slot| s@)
}

/// One result of a metric call.
#[derive(Debug)]
pub struct MetricResult {
    pub id: Option<String>,
    pub values: Vec<Double>,
    pub timestamps: Vec<SdkInstant>,
}

/// The first hour whose value reaches the activity threshold; nothing where
/// its instant cannot be converted.
pub open spec fn first_active(values: Seq<Double>, timestamps: Seq<SdkInstant>) -> Option<
    (i64, i32),
>
    decreases values.len(),
{
    if values.len() == 0 || timestamps.len() == 0 {
        None
    } else if (Double { bits: ACTIVE_THRESHOLD_BITS }).at_most(values[0]) {
        if convertible(timestamps[0]) {
            let b = balanced(timestamps[0].secs as int, timestamps[0].subsec_nanos as int);
            Some((b.0 as i64, b.1 as i32))
        } else {
            None
        }
    } else {
        first_active(values.drop_first(), timestamps.drop_first())
    }
}

fn find_active(values: &Vec<Double>, timestamps: &Vec<SdkInstant>) -> (r: Option<Timestamp>)
    ensures
        instant_parts(r) == first_active(values@, timestamps@),
{
    let threshold: Double = Double { bits: ACTIVE_THRESHOLD_BITS };
    let mut i: usize = 0;
    assert(values@.skip(0) =~= values@);
    assert(timestamps@.skip(0) =~= timestamps@);
    while i < values.len() && i < timestamps.len()
        invariant
            threshold.bits == ACTIVE_THRESHOLD_BITS,
            i <= values@.len(),
            i <= timestamps@.len(),
            first_active(values@, timestamps@) == first_active(
                values@.skip(i as int),
                timestamps@.skip(i as int),
            ),
        decreases values@.len() - i,
    {
        proof {
            let v = values@.skip(i as int);
            let t = timestamps@.skip(i as int);
            assert(v[0] == values@[i as int] && t[0] == timestamps@[i as int]);
            assert(v.drop_first() =~= values@.skip(i + 1));
            assert(t.drop_first() =~= timestamps@.skip(i + 1));
        }
        if threshold.le(values[i]) {
            return match convert_instant(timestamps[i]) {
                Ok(t) => Some(t),
                Err(_) => None,
            };
        }
        i += 1;
    }
    None
}

/// The slots after one more result. Results come newest first, so the first
/// active hour that is seen stays. A result that belongs to no slot changes
/// nothing.
pub open spec fn absorbed(
    slots: Seq<SlotView>,
    id: Option<Seq<char>>,
    values: Seq<Double>,
    timestamps: Seq<SdkInstant>,
) -> Seq<SlotView> {
    match (match id {
        Some(id) => query_of(id),
        None => None,
    }) {
        None => slots,
        Some((kind, idx)) => if idx >= slots.len() {
            slots
        } else {
            let slot = slots[idx as int];
            match kind {
                QueryKind::Avg => slots.update(
                    idx as int,
                    SlotView { averages: slot.averages + values, ..slot },
                ),
                QueryKind::Max => slots.update(
                    idx as int,
                    SlotView {
                        averages: slot.averages,
                        maximums: slot.maximums + values,
                        last_active: if slot.last_active is None {
                            first_active(values, timestamps)
                        } else {
                            slot.last_active
                        },
                    },
                ),
            }
        },
    }
}

/// `a` followed by `b`.
fn appended(a: Vec<Double>, b: &Vec<Double>) -> (r: Vec<Double>)
    ensures
        r@ == a@ + b@,
{
    let mut r: Vec<Double> = a;
    let n: usize = b.len();
    let ghost first = r@;
    let mut i: usize = 0;
    assert(first + b@.take(0) =~= first);
    while i < n
        invariant
            n == b@.len(),
            i <= n,
            r@ == first + b@.take(i as int),
        decreases n - i,
    {
        r.push(b[i]);
        assert(first + b@.take(i + 1) =~= (first + b@.take(i as int)).push(b@[i as int]));
        i += 1;
    }
    assert(b@.take(n as int) =~= b@);
    r
}

/// An empty slot for each of `n` instances.
pub open spec fn no_slots(n: nat) -> Seq<SlotView> {
    Seq::new(
        n,
        |i: int| SlotView { averages: Seq::empty(), maximums: Seq::empty(), last_active: None },
    )
}

/// An empty slot for each of `n` instances.
pub fn empty_slots(n: usize) -> (out: Vec<Slot>)
    ensures
        slot_views(out@) == no_slots(n as nat),
{
    let mut out: Vec<Slot> = Vec::new();
    let mut i: usize = 0;
    while i < n
        invariant
            i <= n,
            out@.len() == i,
            forall|j: int|
                0 <= j < i ==> (#[trigger] out@[j])@ == (SlotView {
                    averages: Seq::empty(),
                    maximums: Seq::empty(),
                    last_active: None,
                }),
        decreases n - i,
    {
        out.push(Slot { averages: Vec::new(), maximums: Vec::new(), last_active: None });
        i += 1;
    }
    assert(slot_views(out@) =~= no_slots(n as nat));
    out
}

/// Take in one result.
pub fn absorb(slots: Vec<Slot>, result: &MetricResult) -> (out: Vec<Slot>)
    ensures
        slot_views(out@) == absorbed(
            slot_views(slots@),
            crate::model::option_text(result.id),
            result.values@,
            result.timestamps@,
        ),
{
    let mut slots: Vec<Slot> = slots;
    let ghost before = slot_views(slots@);
    let id: &String = match &result.id {
        Some(id) => id,
        None => return slots,
    };
    let (kind, idx) = match parse_query_id(id.as_str()) {
        Some(q) => q,
        None => return slots,
    };
    if idx >= slots.len() {
        return slots;
    }
    let ghost old_list = slots@;
    let slot: Slot = slots.remove(idx);
    let fresh: Slot = match kind {
        QueryKind::Avg => Slot {
            averages: appended(slot.averages, &result.values),
            maximums: slot.maximums,
            last_active: slot.last_active,
        },
        QueryKind::Max => {
            let last_active: Option<Timestamp> = match slot.last_active {
                Some(t) => Some(t),
                None => find_active(&result.values, &result.timestamps),
            };
            Slot {
                averages: slot.averages,
                maximums: appended(slot.maximums, &result.values),
                last_active,
            }
        },
    };
    slots.insert(idx, fresh);
    proof {
        assert(slots@ =~= old_list.update(idx as int, fresh));
        assert(before[idx as int] == slot@);
        assert(slot_views(slots@) =~= before.update(idx as int, fresh@));
    }
    slots
}

/// Numbers from the lowest to the highest.
pub struct Ascending;

impl Order<Double> for Ascending {
    open spec fn before(a: Double, b: Double) -> bool {
        a.less(b)
    }

    fn less(a: &Double, b: &Double) -> (r: bool) {
        a.lt(*b)
    }
}

/// The sum, from the first to the last.
pub open spec fn total(values: Seq<Double>) -> Double
    decreases values.len(),
{
    if values.len() == 0 {
        Double { bits: EMPTY_SUM_BITS }
    } else {
        total(values.drop_last()).sum(values.last())
    }
}

/// The larger of two numbers; beside what is not a number, the other.
pub open spec fn larger(a: Double, b: Double) -> Double {
    if b.nan() {
        a
    } else if a.nan() || a.less(b) {
        b
    } else {
        a
    }
}

/// The largest number.
pub open spec fn largest(values: Seq<Double>) -> Double
    decreases values.len(),
{
    if values.len() == 0 {
        Double { bits: LOWEST_BITS }
    } else {
        larger(largest(values.drop_last()), values.last())
    }
}

/// The position of the 95th percentile among `n` sorted samples.
pub open spec fn percentile_index(n: nat) -> int {
    at_most(
        count_of(Double::of_int(n as int).product(Double { bits: PERCENTILE_BITS })) as int,
        n - 1,
    )
}

/// The sum, from the first to the last.
pub(crate) fn sum_of(values: &Vec<Double>) -> (r: Double)
    ensures
        r == total(values@),
{
    let n: usize = values.len();
    let mut r: Double = Double { bits: EMPTY_SUM_BITS };
    let mut i: usize = 0;
    while i < n
        invariant
            n == values@.len(),
            i <= n,
            r == total(values@.take(i as int)),
        decreases n - i,
    {
        assert(values@.take(i + 1).drop_last() =~= values@.take(i as int));
        r = r.plus(values[i]);
        i += 1;
    }
    assert(values@.take(n as int) =~= values@);
    r
}

fn largest_of(values: &Vec<Double>) -> (r: Double)
    ensures
        r == largest(values@),
{
    let n: usize = values.len();
    let mut r: Double = Double { bits: LOWEST_BITS };
    let mut i: usize = 0;
    while i < n
        invariant
            n == values@.len(),
            i <= n,
            r == largest(values@.take(i as int)),
        decreases n - i,
    {
        assert(values@.take(i + 1).drop_last() =~= values@.take(i as int));
        let v: Double = values[i];
        if v.get_magnitude() <= crate::rounding::INFINITE {
            if r.get_magnitude() > crate::rounding::INFINITE || r.lt(v) {
                r = v;
            }
        }
        i += 1;
    }
    assert(values@.take(n as int) =~= values@);
    r
}

/// The summary of the hourly averages and maximums of an instance.
pub open spec fn summary_of(
    averages: Seq<Double>,
    maximums: Seq<Double>,
    last_active_at: Option<Timestamp>,
    window_secs: i64,
) -> CpuSummary {
    if averages.len() == 0 {
        CpuSummary {
            avg_pct: None,
            p95_pct: None,
            max_pct: None,
            samples: 0,
            last_active_at,
            window_secs,
        }
    } else {
        CpuSummary {
            avg_pct: Some(total(averages).quotient(Double::of_int(averages.len() as int))),
            p95_pct: Some(
                sorted::<Double, Ascending>(averages)[percentile_index(averages.len())],
            ),
            max_pct: if largest(maximums).finite() {
                Some(largest(maximums))
            } else {
                None
            },
            samples: averages.len() as usize,
            last_active_at,
            window_secs,
        }
    }
}

pub fn summarize(
    averages: &Vec<Double>,
    maximums: &Vec<Double>,
    last_active_at: Option<Timestamp>,
    window_secs: i64,
) -> (r: CpuSummary)
    ensures
        r == summary_of(averages@, maximums@, last_active_at, window_secs),
{
    let n: usize = averages.len();
    if n == 0 {
        return CpuSummary {
            avg_pct: None,
            p95_pct: None,
            max_pct: None,
            samples: 0,
            last_active_at,
            window_secs,
        };
    }
    let len: Double = Double::from_u64(n as u64);
    let mean: Double = sum_of(averages).over(len);
    let copy: Vec<Double> = appended(Vec::new(), averages);
    assert(copy@ =~= averages@);
    let in_order: Vec<Double> = stable_sort::<Double, Ascending>(copy);
    proof {
        crate::order::sorting_keeps_elements::<Double, Ascending>(averages@);
    }
    let position: u64 = to_count(len.times(Double { bits: PERCENTILE_BITS }));
    let index: usize = if position > (n - 1) as u64 {
        n - 1
    } else {
        position as usize
    };
    let max: Double = largest_of(maximums);
    CpuSummary {
        avg_pct: Some(mean),
        p95_pct: Some(in_order[index]),
        max_pct: if max.is_finite() {
            Some(max)
        } else {
            None
        },
        samples: n,
        last_active_at,
        window_secs,
    }
}

/// The summaries of a batch.
pub fn finish(batch: &Vec<String>, slots: &Vec<Slot>, window_secs: i64) -> (out: Vec<
    (String, CpuSummary),
>)
    requires
        batch@.len() == slots@.len(),
    ensures
        out@.len() == batch@.len(),
        forall|i: int|
            0 <= i < batch@.len() ==> (#[trigger] out@[i]).0 == batch@[i] && out@[i].1
                == summary_of(
                slots@[i].averages@,
                slots@[i].maximums@,
                slots@[i].last_active,
                window_secs,
            ),
{
    let n: usize = batch.len();
    let mut out: Vec<(String, CpuSummary)> = Vec::new();
    let mut i: usize = 0;
    while i < n
        invariant
            n == batch@.len() == slots@.len(),
            i <= n,
            out@.len() == i,
            forall|j: int|
                0 <= j < i ==> (#[trigger] out@[j]).0 == batch@[j] && out@[j].1 == summary_of(
                    slots@[j].averages@,
                    slots@[j].maximums@,
                    slots@[j].last_active,
                    window_secs,
                ),
        decreases n - i,
    {
        let slot: &Slot = &slots[i];
        let summary: CpuSummary = summarize(
            &slot.averages,
            &slot.maximums,
            slot.last_active,
            window_secs,
        );
        out.push((batch[i].clone(), summary));
        i += 1;
    }
    out
}

/// The slots after all of the results, in the order in which they came.
pub open spec fn absorbed_all(slots: Seq<SlotView>, results: Seq<MetricResult>) -> Seq<SlotView>
    decreases results.len(),
{
    if results.len() == 0 {
        slots
    } else {
        let last = results.last();
        absorbed(
            absorbed_all(slots, results.drop_last()),
            crate::model::option_text(last.id),
            last.values@,
            last.timestamps@,
        )
    }
}

/// Whether `c` summarizes what a slot holds.
pub open spec fn summarizes(c: CpuSummary, slot: SlotView, window_secs: i64) -> bool {
    &&& c == summary_of(slot.averages, slot.maximums, c.last_active_at, window_secs)
    &&& instant_parts(c.last_active_at) == slot.last_active
}

/// The summaries of a batch, from all the results that came for it.
pub fn summarize_batch(batch: &Vec<String>, results: &Vec<MetricResult>, window_secs: i64) -> (out:
    Vec<(String, CpuSummary)>)
    ensures
        out@.len() == batch@.len(),
        forall|i: int|
            0 <= i < batch@.len() ==> (#[trigger] out@[i]).0 == batch@[i] && summarizes(
                out@[i].1,
                absorbed_all(no_slots(batch@.len()), results@)[i],
                window_secs,
            ),
{
    let n: usize = results.len();
    let mut slots: Vec<Slot> = empty_slots(batch.len());
    assert(slot_views(slots@).len() == batch@.len());
    let mut i: usize = 0;
    while i < n
        invariant
            n == results@.len(),
            i <= n,
            slots@.len() == batch@.len(),
            slot_views(slots@) == absorbed_all(no_slots(batch@.len()), results@.take(i as int)),
        decreases n - i,
    {
        proof {
            assert(results@.take(i + 1).drop_last() =~= results@.take(i as int));
            assert(results@.take(i + 1).last() == results@[i as int]);
        }
        let ghost before = slot_views(slots@);
        slots = absorb(slots, &results[i]);
        assert(slot_views(slots@).len() == before.len());
        i += 1;
    }
    assert(results@.take(n as int) =~= results@);
    let out: Vec<(String, CpuSummary)> = finish(batch, &slots, window_secs);
    proof {
        let ends = absorbed_all(no_slots(batch@.len()), results@);
        assert forall|i: int| 0 <= i < batch@.len() implies (#[trigger] out@[i]).0 == batch@[i]
            && summarizes(out@[i].1, ends[i], window_secs) by {
            assert(ends[i] == slots@[i]@);
        }
    }
    out
}

/// The summary of an instance: the last of those with its id.
pub open spec fn summary_for(summaries: Seq<(String, CpuSummary)>, id: Seq<char>) -> Option<
    CpuSummary,
>
    decreases summaries.len(),
{
    if summaries.len() == 0 {
        None
    } else if summaries.last().0@ == id {
        Some(summaries.last().1)
    } else {
        summary_for(summaries.drop_last(), id)
    }
}

/// The summary of an instance.
pub fn find_summary(summaries: &Vec<(String, CpuSummary)>, id: &str) -> (r: Option<CpuSummary>)
    ensures
        r == summary_for(summaries@, id@),
{
    let mut i: usize = summaries.len();
    assert(summaries@.take(summaries@.len() as int) =~= summaries@);
    while i > 0
        invariant
            i <= summaries@.len(),
            summary_for(summaries@, id@) == summary_for(summaries@.take(i as int), id@),
        decreases i,
    {
        assert(summaries@.take(i as int).last() == summaries@[i - 1]);
        assert(summaries@.take(i as int).drop_last() =~= summaries@.take(i - 1));
        if same(summaries[i - 1].0.as_str(), id) {
            return Some(summaries[i - 1].1);
        }
        i -= 1;
    }
    None
}

/// Give a record the CPU summary of its instance, or none.
pub fn attach_cpu(record: InstanceRecord, summaries: &Vec<(String, CpuSummary)>) -> (r:
    InstanceRecord)
    ensures
        r == (InstanceRecord { cpu: summary_for(summaries@, record.instance_id@), ..record }),
{
    let cpu: Option<CpuSummary> = find_summary(summaries, record.instance_id.as_str());
    InstanceRecord { cpu, ..record }
}

/// Every instance stands in exactly the batch, and at the place in it, that
/// its position says.
pub proof fn batches_cover_every_instance(ids: Seq<String>, i: int)
    requires
        0 <= i < ids.len(),
    ensures
        0 <= i / (INSTANCES_PER_BATCH as int) < batch_count(ids.len() as int),
        i % (INSTANCES_PER_BATCH as int) < batch_of(ids, i / (INSTANCES_PER_BATCH as int)).len(),
        batch_of(ids, i / (INSTANCES_PER_BATCH as int))[i % (INSTANCES_PER_BATCH as int)] == ids[i],
        batch_of(ids, i / (INSTANCES_PER_BATCH as int)).len() <= INSTANCES_PER_BATCH,
{
}

} // verus!
