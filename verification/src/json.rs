//! JSON output for `list`, `stale`, and `explain`.
//!
//! Each command has its own envelope type optimized for downstream consumers
//! (Slack reporters, cron `jq` pipelines). A rule trace is adapted into a
//! tagged [`TraceEntry`] so that both outcomes of a rule have a clean wire
//! shape.

use vstd::prelude::*;

use crate::contract::ContractView;
use crate::double::Double;
use crate::model::{
    option_text, CostBreakdown, CpuSummary, InstanceRecord, LaunchedBySource, VolumeCost,
};
use crate::run::{overall_worst, Evaluated};
use crate::staleness::{
    flagged, is_flagged, verdict_views, RuleTrace, Severity, SkipReason, Verdict, VerdictView,
};
use crate::tags::Tags;
use crate::text::{int_text, nat_text, slices};
use crate::timestamp::Timestamp;
use crate::value::{item_views, Json, JsonView, Members};

verus! {

/// A text value, or null.
pub open spec fn text_or_null(t: Option<Seq<char>>) -> JsonView {
    match t {
        Some(s) => JsonView::Text(s),
        None => JsonView::Null,
    }
}

/// An instant as text, or null.
pub open spec fn instant_or_null(t: Option<Timestamp>) -> JsonView {
    match t {
        Some(t) => JsonView::Text(t.shown()),
        None => JsonView::Null,
    }
}

/// A computed number, or null.
pub open spec fn double_or_null(d: Option<Double>) -> JsonView {
    match d {
        Some(x) => JsonView::Double(x),
        None => JsonView::Null,
    }
}

/// A whole number.
pub open spec fn whole(n: int) -> JsonView {
    JsonView::Number(int_text(n))
}

/// A whole number, or null.
pub open spec fn whole_or_null(n: Option<i32>) -> JsonView {
    match n {
        Some(i) => whole(i as int),
        None => JsonView::Null,
    }
}

fn instant_json(t: Option<Timestamp>) -> (r: Json)
    ensures
        r@ == instant_or_null(t),
{
    match t {
        Some(t) => Json::of_string(t.to_text()),
        None => Json::Null,
    }
}

fn whole_json(n: Option<i32>) -> (r: Json)
    ensures
        r@ == whole_or_null(n),
{
    match n {
        Some(i) => Json::of_signed(i as i64),
        None => Json::Null,
    }
}

/// The name of a source on the wire.
pub open spec fn source_wire(s: LaunchedBySource) -> Seq<char> {
    match s {
        LaunchedBySource::Tag => "tag"@,
        LaunchedBySource::IamRole => "iam_role"@,
        LaunchedBySource::KeyName => "key_name"@,
        LaunchedBySource::Unknown => "unknown"@,
    }
}

fn source_name(s: LaunchedBySource) -> (r: &'static str)
    ensures
        r@ == source_wire(s),
{
    match s {
        LaunchedBySource::Tag => "tag",
        LaunchedBySource::IamRole => "iam_role",
        LaunchedBySource::KeyName => "key_name",
        LaunchedBySource::Unknown => "unknown",
    }
}

/// The name of a severity on the wire.
pub open spec fn severity_wire(s: Severity) -> Seq<char> {
    match s {
        Severity::Info => "info"@,
        Severity::Low => "low"@,
        Severity::Medium => "medium"@,
        Severity::High => "high"@,
    }
}

fn severity_name(s: Severity) -> (r: &'static str)
    ensures
        r@ == severity_wire(s),
{
    match s {
        Severity::Info => "info",
        Severity::Low => "low",
        Severity::Medium => "medium",
        Severity::High => "high",
    }
}

/// A CPU summary on the wire.
pub open spec fn cpu_view(c: CpuSummary) -> JsonView {
    JsonView::Object(
        Seq::empty()
            .push(("avg_pct"@, double_or_null(c.avg_pct)))
            .push(("p95_pct"@, double_or_null(c.p95_pct)))
            .push(("max_pct"@, double_or_null(c.max_pct)))
            .push(("samples"@, JsonView::Number(nat_text(c.samples as nat))))
            .push(("last_active_at"@, instant_or_null(c.last_active_at)))
            .push(("window_secs"@, whole(c.window_secs as int))),
    )
}

pub fn cpu_json(c: &CpuSummary) -> (r: Json)
    ensures
        r@ == cpu_view(*c),
{
    Members::new().with("avg_pct", Json::of_double(c.avg_pct)).with(
        "p95_pct",
        Json::of_double(c.p95_pct),
    ).with("max_pct", Json::of_double(c.max_pct)).with("samples", Json::of_count(c.samples)).with(
        "last_active_at",
        instant_json(c.last_active_at),
    ).with("window_secs", Json::of_signed(c.window_secs)).done()
}

/// The cost of a volume on the wire.
pub open spec fn volume_view(v: VolumeCost) -> JsonView {
    JsonView::Object(
        Seq::empty()
            .push(("volume_id"@, JsonView::Text(v.volume_id@)))
            .push(("volume_type"@, JsonView::Text(v.volume_type@)))
            .push(("size_gib"@, whole(v.size_gib as int)))
            .push(("iops"@, whole_or_null(v.iops)))
            .push(("throughput_mibps"@, whole_or_null(v.throughput_mibps)))
            .push(("age_secs"@, whole(v.age_secs as int)))
            .push(("capacity_usd"@, JsonView::Double(v.capacity_usd)))
            .push(("iops_usd"@, JsonView::Double(v.iops_usd)))
            .push(("throughput_usd"@, JsonView::Double(v.throughput_usd)))
            .push(("total_usd"@, JsonView::Double(v.total_usd)))
            .push((
                "excluded_reason"@,
                match v.excluded_reason {
                    Some(reason) => JsonView::Text(reason@),
                    None => JsonView::Null,
                },
            )),
    )
}

fn volume_json(v: &VolumeCost) -> (r: Json)
    ensures
        r@ == volume_view(*v),
{
    let reason: Json = match v.excluded_reason {
        Some(reason) => Json::of_text(reason),
        None => Json::Null,
    };
    Members::new().text("volume_id", v.volume_id.as_str()).text(
        "volume_type",
        v.volume_type.as_str(),
    ).with("size_gib", Json::of_signed(v.size_gib as i64)).with("iops", whole_json(v.iops)).with(
        "throughput_mibps",
        whole_json(v.throughput_mibps),
    ).with("age_secs", Json::of_signed(v.age_secs)).with(
        "capacity_usd",
        Json::Double(v.capacity_usd),
    ).with("iops_usd", Json::Double(v.iops_usd)).with(
        "throughput_usd",
        Json::Double(v.throughput_usd),
    ).with("total_usd", Json::Double(v.total_usd)).with("excluded_reason", reason).done()
}

/// A cost breakdown on the wire.
pub open spec fn breakdown_view(bd: CostBreakdown) -> JsonView {
    JsonView::Object(
        Seq::empty()
            .push(("compute_usd"@, JsonView::Double(bd.compute_usd)))
            .push(("storage_usd"@, JsonView::Double(bd.storage_usd)))
            .push((
                "storage_run_rate_usd_per_month"@,
                JsonView::Double(bd.storage_run_rate_usd_per_month),
            ))
            .push((
                "volumes"@,
                JsonView::List(bd.volumes@.map_values(|v: VolumeCost| volume_view(v))),
            )),
    )
}

fn breakdown_json(bd: &CostBreakdown) -> (r: Json)
    ensures
        r@ == breakdown_view(*bd),
{
    let n: usize = bd.volumes.len();
    let mut items: Vec<Json> = Vec::new();
    let mut i: usize = 0;
    while i < n
        invariant
            n == bd.volumes@.len(),
            i <= n,
            items@.len() == i,
            forall|k: int| 0 <= k < i ==> (#[trigger] items@[k])@ == volume_view(bd.volumes@[k]),
        decreases n - i,
    {
        items.push(volume_json(&bd.volumes[i]));
        i += 1;
    }
    assert(item_views(items@) =~= bd.volumes@.map_values(|v: VolumeCost| volume_view(v)));
    Members::new().with("compute_usd", Json::Double(bd.compute_usd)).with(
        "storage_usd",
        Json::Double(bd.storage_usd),
    ).with("storage_run_rate_usd_per_month", Json::Double(bd.storage_run_rate_usd_per_month)).with(
        "volumes",
        Json::of_list(items),
    ).done()
}

/// Tags on the wire.
pub open spec fn tags_view(pairs: Seq<(Seq<char>, Seq<char>)>) -> JsonView {
    JsonView::Object(
        pairs.map_values(|p: (Seq<char>, Seq<char>)| (p.0, JsonView::Text(p.1))),
    )
}

fn tags_json(tags: &Tags) -> (r: Json)
    ensures
        r@ == tags_view(tags.pairs()),
{
    let n: usize = tags.len();
    let ghost pairs = tags.pairs();
    let ghost f = |p: (Seq<char>, Seq<char>)| (p.0, JsonView::Text(p.1));
    let mut members: Members = Members::new();
    let mut i: usize = 0;
    assert(pairs.take(0).map_values(f) =~= Seq::<(Seq<char>, JsonView)>::empty());
    while i < n
        invariant
            n == tags.pairs().len(),
            pairs == tags.pairs(),
            i <= n,
            f == (|p: (Seq<char>, Seq<char>)| (p.0, JsonView::Text(p.1))),
            members@ == pairs.take(i as int).map_values(f),
        decreases n - i,
    {
        let (k, v) = tags.entry(i);
        members = members.text(k, v);
        assert(pairs.take(i + 1).map_values(f) =~= pairs.take(i as int).map_values(f).push(
            f(pairs[i as int]),
        ));
        i += 1;
    }
    assert(pairs.take(n as int) =~= pairs);
    members.done()
}

/// A record on the wire.
pub open spec fn record_view(r: InstanceRecord) -> JsonView {
    let base = Seq::empty()
        .push(("instance_id"@, JsonView::Text(r.instance_id@)))
        .push(("launched_by"@, text_or_null(option_text(r.launched_by))))
        .push(("launched_by_source"@, JsonView::Text(source_wire(r.launched_by_source))))
        .push(("launch_time"@, JsonView::Text(r.launch_time.shown())))
        .push(("created_at"@, JsonView::Text(r.created_at.shown())))
        .push(("last_uptime_seconds"@, whole(r.last_uptime_seconds as int)))
        .push(("total_age_seconds"@, whole(r.total_age_seconds as int)))
        .push(("instance_type"@, JsonView::Text(r.instance_type@)))
        .push(("state"@, JsonView::Text(r.state.name())))
        .push(("region"@, JsonView::Text(r.region@)))
        .push(("az"@, text_or_null(option_text(r.az))))
        .push(("iam_instance_profile"@, text_or_null(option_text(r.iam_instance_profile))))
        .push(("key_name"@, text_or_null(option_text(r.key_name))))
        .push(("tags"@, tags_view(r.tags.pairs())))
        .push(("estimated_cost_usd"@, double_or_null(r.estimated_cost_usd)))
        .push((
            "cost_breakdown"@,
            match r.cost_breakdown {
                Some(bd) => breakdown_view(bd),
                None => JsonView::Null,
            },
        ));
    match r.cpu {
        Some(cpu) => JsonView::Object(base.push(("cpu"@, cpu_view(cpu)))),
        None => JsonView::Object(base),
    }
}

pub fn record_json(r: &InstanceRecord) -> (out: Json)
    ensures
        out@ == record_view(*r),
{
    let breakdown: Json = match &r.cost_breakdown {
        Some(bd) => breakdown_json(bd),
        None => Json::Null,
    };
    let members: Members = Members::new().text("instance_id", r.instance_id.as_str()).with(
        "launched_by",
        Json::of_option(&r.launched_by),
    ).text("launched_by_source", source_name(r.launched_by_source)).with(
        "launch_time",
        Json::of_string(r.launch_time.to_text()),
    ).with("created_at", Json::of_string(r.created_at.to_text())).with(
        "last_uptime_seconds",
        Json::of_signed(r.last_uptime_seconds),
    ).with("total_age_seconds", Json::of_signed(r.total_age_seconds)).text(
        "instance_type",
        r.instance_type.as_str(),
    ).text("state", r.state.as_str()).text("region", r.region.as_str()).with(
        "az",
        Json::of_option(&r.az),
    ).with("iam_instance_profile", Json::of_option(&r.iam_instance_profile)).with(
        "key_name",
        Json::of_option(&r.key_name),
    ).with("tags", tags_json(&r.tags)).with(
        "estimated_cost_usd",
        Json::of_double(r.estimated_cost_usd),
    ).with("cost_breakdown", breakdown);
    match &r.cpu {
        Some(cpu) => members.with("cpu", cpu_json(cpu)).done(),
        None => members.done(),
    }
}

/// A contract on the wire.
pub open spec fn contract_view(c: ContractView) -> JsonView {
    JsonView::Object(
        Seq::empty()
            .push(("managed_by_gasleak"@, JsonView::Bool(c.managed_by_gasleak)))
            .push(("owner"@, text_or_null(option_text(c.owner))))
            .push(("owner_slack"@, text_or_null(option_text(c.owner_slack))))
            .push(("expires_at"@, instant_or_null(c.expires_at))),
    )
}

pub fn contract_json(c: &ContractView) -> (r: Json)
    ensures
        r@ == contract_view(*c),
{
    Members::new().with("managed_by_gasleak", Json::Bool(c.managed_by_gasleak)).with(
        "owner",
        Json::of_option(&c.owner),
    ).with("owner_slack", Json::of_option(&c.owner_slack)).with(
        "expires_at",
        instant_json(c.expires_at),
    ).done()
}

/// A list of texts on the wire.
pub open spec fn texts_view(texts: Seq<Seq<char>>) -> JsonView {
    JsonView::List(texts.map_values(|t: Seq<char>| JsonView::Text(t)))
}

fn texts_json(texts: &[&str]) -> (r: Json)
    ensures
        r@ == texts_view(slices(texts@)),
{
    let n: usize = texts.len();
    let mut items: Vec<Json> = Vec::new();
    let mut i: usize = 0;
    while i < n
        invariant
            n == texts@.len(),
            i <= n,
            items@.len() == i,
            forall|k: int| 0 <= k < i ==> (#[trigger] items@[k])@ == JsonView::Text(texts@[k]@),
        decreases n - i,
    {
        items.push(Json::of_text(texts[i]));
        i += 1;
    }
    assert(item_views(items@) =~= slices(texts@).map_values(|t: Seq<char>| JsonView::Text(t)));
    Json::of_list(items)
}

/// A verdict on the wire: its kind, and what belongs to the kind.
pub open spec fn verdict_view(v: VerdictView) -> JsonView {
    let kind = seq![("kind"@, JsonView::Text(v.kind()))];
    JsonView::Object(
        match v {
            VerdictView::Managed { controller } => kind.push(
                ("controller"@, JsonView::Text(controller)),
            ),
            VerdictView::Expired { at, overdue_secs } => kind.push(
                ("at"@, JsonView::Text(at.shown())),
            ).push(("overdue_secs"@, whole(overdue_secs))),
            VerdictView::ExpiringSoon { at, within_secs } => kind.push(
                ("at"@, JsonView::Text(at.shown())),
            ).push(("within_secs"@, whole(within_secs))),
            VerdictView::Idle { p95_pct, samples, window_secs } => kind.push(
                ("p95_pct"@, JsonView::Double(p95_pct)),
            ).push(("samples"@, JsonView::Number(nat_text(samples)))).push(
                ("window_secs"@, whole(window_secs)),
            ),
            VerdictView::Inactive { idle_for_secs, samples, window_secs, severity } => kind.push(
                (
                    "idle_for_secs"@,
                    match idle_for_secs {
                        Some(s) => whole(s as int),
                        None => JsonView::Null,
                    },
                ),
            ).push(("samples"@, JsonView::Number(nat_text(samples)))).push(
                ("window_secs"@, whole(window_secs)),
            ).push(("severity"@, JsonView::Text(severity_wire(severity)))),
            VerdictView::LongLived { age_secs } => kind.push(("age_secs"@, whole(age_secs))),
            VerdictView::Underutilized { p95_pct, samples, window_secs } => kind.push(
                ("p95_pct"@, JsonView::Double(p95_pct)),
            ).push(("samples"@, JsonView::Number(nat_text(samples)))).push(
                ("window_secs"@, whole(window_secs)),
            ),
            VerdictView::NonCompliant { missing, tampered, past_deadline } => kind.push(
                ("missing"@, texts_view(missing)),
            ).push(("tampered"@, JsonView::Bool(tampered))).push(
                ("past_deadline"@, JsonView::Bool(past_deadline)),
            ),
        },
    )
}

pub fn verdict_json(v: &Verdict) -> (r: Json)
    ensures
        r@ == verdict_view(v@),
{
    let kind: Members = Members::new().text("kind", v.kind_label());
    match v {
        Verdict::Managed { controller } => kind.text("controller", controller).done(),
        Verdict::Expired { at, overdue_secs } => kind.with(
            "at",
            Json::of_string(at.to_text()),
        ).with("overdue_secs", Json::of_signed(*overdue_secs)).done(),
        Verdict::ExpiringSoon { at, within_secs } => kind.with(
            "at",
            Json::of_string(at.to_text()),
        ).with("within_secs", Json::of_signed(*within_secs)).done(),
        Verdict::Idle { p95_pct, samples, window_secs } => kind.with(
            "p95_pct",
            Json::Double(*p95_pct),
        ).with("samples", Json::of_count(*samples)).with(
            "window_secs",
            Json::of_signed(*window_secs),
        ).done(),
        Verdict::Inactive { idle_for_secs, samples, window_secs, severity } => {
            let idle: Json = match idle_for_secs {
                Some(s) => Json::of_signed(*s),
                None => Json::Null,
            };
            kind.with("idle_for_secs", idle).with("samples", Json::of_count(*samples)).with(
                "window_secs",
                Json::of_signed(*window_secs),
            ).text("severity", severity_name(*severity)).done()
        },
        Verdict::LongLived { age_secs } => kind.with("age_secs", Json::of_signed(*age_secs)).done(),
        Verdict::Underutilized { p95_pct, samples, window_secs } => kind.with(
            "p95_pct",
            Json::Double(*p95_pct),
        ).with("samples", Json::of_count(*samples)).with(
            "window_secs",
            Json::of_signed(*window_secs),
        ).done(),
        Verdict::NonCompliant { missing, tampered, past_deadline } => kind.with(
            "missing",
            texts_json(missing.as_slice()),
        ).with("tampered", Json::Bool(*tampered)).with(
            "past_deadline",
            Json::Bool(*past_deadline),
        ).done(),
    }
}

/// The output of `list`.
pub struct ListOutput<'a> {
    /// Regions that were scanned. Always a list so consumers can treat
    /// single-region and `--all-regions` runs uniformly.
    pub regions: &'a [&'a str],
    pub rows: &'a [InstanceRecord],
}

impl<'a> ListOutput<'a> {
    pub fn new(regions: &'a [&'a str], rows: &'a [InstanceRecord]) -> (r: ListOutput<'a>)
        ensures
            r.regions@ == regions@,
            r.rows@ == rows@,
    {
        ListOutput { regions, rows }
    }

    pub fn to_json(&self) -> (r: Json)
        ensures
            r@ == JsonView::Object(
                Seq::empty()
                    .push(("regions"@, texts_view(slices(self.regions@))))
                    .push((
                        "rows"@,
                        JsonView::List(
                            self.rows@.map_values(|r: InstanceRecord| record_view(r)),
                        ),
                    )),
            ),
    {
        let n: usize = self.rows.len();
        let mut items: Vec<Json> = Vec::new();
        let mut i: usize = 0;
        while i < n
            invariant
                n == self.rows@.len(),
                i <= n,
                items@.len() == i,
                forall|k: int| 0 <= k < i ==> (#[trigger] items@[k])@ == record_view(self.rows@[k]),
            decreases n - i,
        {
            items.push(record_json(&self.rows[i]));
            i += 1;
        }
        assert(item_views(items@) =~= self.rows@.map_values(|r: InstanceRecord| record_view(r)));
        Members::new().with("regions", texts_json(self.regions)).with(
            "rows",
            Json::of_list(items),
        ).done()
    }
}

/// What was scanned, and what came of it.
#[derive(Clone, Copy, Debug)]
pub struct StaleSummary {
    pub scanned: usize,
    pub flagged: usize,
    pub worst_severity: Option<Severity>,
}

/// One flagged row.
pub struct StaleRow<'a> {
    pub instance: &'a InstanceRecord,
    pub contract: &'a ContractView,
    pub verdicts: &'a [Verdict],
}

/// The output of `stale`.
pub struct StaleOutput<'a> {
    pub regions: &'a [&'a str],
    pub summary: StaleSummary,
    pub rows: Vec<StaleRow<'a>>,
}

/// The flagged rows among all that were evaluated.
pub open spec fn flagged_rows(rows: Seq<Evaluated>) -> Seq<Evaluated>
    decreases rows.len(),
{
    if rows.len() == 0 {
        Seq::empty()
    } else if flagged(verdict_views(rows.last().2@)) {
        flagged_rows(rows.drop_last()).push(rows.last())
    } else {
        flagged_rows(rows.drop_last())
    }
}

/// Whether a row shows an evaluation.
pub open spec fn shows(row: StaleRow<'_>, e: Evaluated) -> bool {
    &&& *row.instance == e.0
    &&& *row.contract == e.1
    &&& row.verdicts@ == e.2@
}

/// A row on the wire.
pub open spec fn row_view(row: StaleRow<'_>) -> JsonView {
    JsonView::Object(
        Seq::empty()
            .push(("instance"@, record_view(*row.instance)))
            .push(("contract"@, contract_view(*row.contract)))
            .push((
                "verdicts"@,
                JsonView::List(row.verdicts@.map_values(|v: Verdict| verdict_view(v@))),
            )),
    )
}

fn row_json(row: &StaleRow<'_>) -> (r: Json)
    ensures
        r@ == row_view(*row),
{
    let n: usize = row.verdicts.len();
    let mut items: Vec<Json> = Vec::new();
    let mut i: usize = 0;
    while i < n
        invariant
            n == row.verdicts@.len(),
            i <= n,
            items@.len() == i,
            forall|k: int|
                0 <= k < i ==> (#[trigger] items@[k])@ == verdict_view(row.verdicts@[k]@),
        decreases n - i,
    {
        items.push(verdict_json(&row.verdicts[i]));
        i += 1;
    }
    assert(item_views(items@) =~= row.verdicts@.map_values(|v: Verdict| verdict_view(v@)));
    Members::new().with("instance", record_json(row.instance)).with(
        "contract",
        contract_json(row.contract),
    ).with("verdicts", Json::of_list(items)).done()
}

impl<'a> StaleOutput<'a> {
    /// Build from the same rows the table renderer consumes. Applies the same
    /// filter so JSON rows match what the table shows.
    pub fn from_evaluated(regions: &'a [&'a str], evaluated: &'a [Evaluated]) -> (r: StaleOutput<
        'a,
    >)
        ensures
            r.regions@ == regions@,
            r.summary.scanned == evaluated@.len(),
            r.summary.flagged == flagged_rows(evaluated@).len(),
            r.summary.worst_severity == overall_worst(evaluated@),
            r.rows@.len() == flagged_rows(evaluated@).len(),
            forall|k: int|
                0 <= k < r.rows@.len() ==> shows(
                    #[trigger] r.rows@[k],
                    flagged_rows(evaluated@)[k],
                ),
    {
        let n: usize = evaluated.len();
        let mut rows: Vec<StaleRow<'a>> = Vec::new();
        let mut worst_seen: Option<Severity> = None;
        let mut i: usize = 0;
        while i < n
            invariant
                n == evaluated@.len(),
                i <= n,
                worst_seen == overall_worst(evaluated@.take(i as int)),
                rows@.len() == flagged_rows(evaluated@.take(i as int)).len(),
                forall|k: int|
                    0 <= k < rows@.len() ==> shows(
                        #[trigger] rows@[k],
                        flagged_rows(evaluated@.take(i as int))[k],
                    ),
            decreases n - i,
        {
            let ghost before = rows@;
            proof {
                assert(evaluated@.take(i + 1).drop_last() =~= evaluated@.take(i as int));
                assert(evaluated@.take(i + 1).last() == evaluated@[i as int]);
            }
            let e: &'a Evaluated = &evaluated[i];
            if let Some(s) = crate::staleness::worst_severity(e.2.as_slice()) {
                worst_seen = Some(crate::staleness::worse_of(worst_seen, s));
            }
            if is_flagged(e.2.as_slice()) {
                rows.push(StaleRow { instance: &e.0, contract: &e.1, verdicts: e.2.as_slice() });
                proof {
                    let list = flagged_rows(evaluated@.take(i + 1));
                    assert forall|k: int| 0 <= k < rows@.len() implies shows(
                        #[trigger] rows@[k],
                        list[k],
                    ) by {
                        if k < before.len() {
                            assert(rows@[k] == before[k]);
                        }
                    }
                }
            }
            i += 1;
        }
        assert(evaluated@.take(n as int) =~= evaluated@);
        let summary = StaleSummary {
            scanned: n,
            flagged: rows.len(),
            worst_severity: worst_seen,
        };
        StaleOutput { regions, summary, rows }
    }

    pub fn to_json(&self) -> (r: Json)
        ensures
            r@ == JsonView::Object(
                Seq::empty()
                    .push(("regions"@, texts_view(slices(self.regions@))))
                    .push((
                        "summary"@,
                        JsonView::Object(
                            Seq::empty()
                                .push((
                                    "scanned"@,
                                    JsonView::Number(nat_text(self.summary.scanned as nat)),
                                ))
                                .push((
                                    "flagged"@,
                                    JsonView::Number(nat_text(self.summary.flagged as nat)),
                                ))
                                .push((
                                    "worst_severity"@,
                                    match self.summary.worst_severity {
                                        Some(s) => JsonView::Text(severity_wire(s)),
                                        None => JsonView::Null,
                                    },
                                )),
                        ),
                    ))
                    .push((
                        "rows"@,
                        JsonView::List(self.rows@.map_values(|row: StaleRow<'a>| row_view(row))),
                    )),
            ),
    {
        let n: usize = self.rows.len();
        let mut items: Vec<Json> = Vec::new();
        let mut i: usize = 0;
        while i < n
            invariant
                n == self.rows@.len(),
                i <= n,
                items@.len() == i,
                forall|k: int| 0 <= k < i ==> (#[trigger] items@[k])@ == row_view(self.rows@[k]),
            decreases n - i,
        {
            items.push(row_json(&self.rows[i]));
            i += 1;
        }
        assert(item_views(items@) =~= self.rows@.map_values(|row: StaleRow<'a>| row_view(row)));
        let worst: Json = match self.summary.worst_severity {
            Some(s) => Json::of_text(severity_name(s)),
            None => Json::Null,
        };
        let summary: Json = Members::new().with(
            "scanned",
            Json::of_count(self.summary.scanned),
        ).with("flagged", Json::of_count(self.summary.flagged)).with(
            "worst_severity",
            worst,
        ).done();
        Members::new().with("regions", texts_json(self.regions)).with("summary", summary).with(
            "rows",
            Json::of_list(items),
        ).done()
    }
}

/// Public-facing shape of one rule evaluation. Both outcomes (a verdict fired,
/// or a typed skip reason) land on the wire as `{ "status": "...", ... }`.
pub enum TraceEntry<'a> {
    Fired { rule: &'a str, verdict: &'a Verdict },
    Skipped { rule: &'a str, reason: SkipReason },
}

/// A trace entry on the wire.
pub open spec fn entry_view(entry: (Seq<char>, Result<VerdictView, SkipReason>)) -> JsonView {
    match entry.1 {
        Ok(v) => JsonView::Object(
            Seq::empty()
                .push(("status"@, JsonView::Text("fired"@)))
                .push(("rule"@, JsonView::Text(entry.0)))
                .push(("verdict"@, verdict_view(v))),
        ),
        Err(reason) => JsonView::Object(
            Seq::empty()
                .push(("status"@, JsonView::Text("skipped"@)))
                .push(("rule"@, JsonView::Text(entry.0)))
                .push(("reason"@, JsonView::Text(reason.name()))),
        ),
    }
}

impl<'a> TraceEntry<'a> {
    /// The rule and what came of it.
    pub open spec fn said(self) -> (Seq<char>, Result<VerdictView, SkipReason>) {
        match self {
            TraceEntry::Fired { rule, verdict } => (rule@, Ok(verdict@)),
            TraceEntry::Skipped { rule, reason } => (rule@, Err(reason)),
        }
    }

    pub fn from_rule_trace(t: &'a RuleTrace) -> (r: TraceEntry<'a>)
        ensures
            r.said() == t@,
    {
        match &t.result {
            Ok(v) => TraceEntry::Fired { rule: t.rule, verdict: v },
            Err(reason) => TraceEntry::Skipped { rule: t.rule, reason: *reason },
        }
    }

    pub fn to_json(&self) -> (r: Json)
        ensures
            r@ == entry_view(self.said()),
    {
        match self {
            TraceEntry::Fired { rule, verdict } => Members::new().text("status", "fired").text(
                "rule",
                rule,
            ).with("verdict", verdict_json(verdict)).done(),
            TraceEntry::Skipped { rule, reason } => Members::new().text("status", "skipped").text(
                "rule",
                rule,
            ).text("reason", reason.as_str()).done(),
        }
    }
}

/// The output of `explain`.
pub struct ExplainOutput<'a> {
    pub instance: &'a InstanceRecord,
    pub contract: &'a ContractView,
    pub trace: Vec<TraceEntry<'a>>,
}

impl<'a> ExplainOutput<'a> {
    pub fn from_parts(
        instance: &'a InstanceRecord,
        contract: &'a ContractView,
        trace: &'a [RuleTrace],
    ) -> (r: ExplainOutput<'a>)
        ensures
            *r.instance == *instance,
            *r.contract == *contract,
            r.trace@.len() == trace@.len(),
            forall|k: int| 0 <= k < trace@.len() ==> (#[trigger] r.trace@[k]).said() == trace@[k]@,
    {
        let n: usize = trace.len();
        let mut entries: Vec<TraceEntry<'a>> = Vec::new();
        let mut i: usize = 0;
        while i < n
            invariant
                n == trace@.len(),
                i <= n,
                entries@.len() == i,
                forall|k: int| 0 <= k < i ==> (#[trigger] entries@[k]).said() == trace@[k]@,
            decreases n - i,
        {
            entries.push(TraceEntry::from_rule_trace(&trace[i]));
            i += 1;
        }
        ExplainOutput { instance, contract, trace: entries }
    }

    pub fn to_json(&self) -> (r: Json)
        ensures
            r@ == JsonView::Object(
                Seq::empty()
                    .push(("instance"@, record_view(*self.instance)))
                    .push(("contract"@, contract_view(*self.contract)))
                    .push((
                        "trace"@,
                        JsonView::List(
                            self.trace@.map_values(|t: TraceEntry<'a>| entry_view(t.said())),
                        ),
                    )),
            ),
    {
        let n: usize = self.trace.len();
        let mut items: Vec<Json> = Vec::new();
        let mut i: usize = 0;
        while i < n
            invariant
                n == self.trace@.len(),
                i <= n,
                items@.len() == i,
                forall|k: int|
                    0 <= k < i ==> (#[trigger] items@[k])@ == entry_view(self.trace@[k].said()),
            decreases n - i,
        {
            items.push(self.trace[i].to_json());
            i += 1;
        }
        assert(item_views(items@) =~= self.trace@.map_values(
            |t: TraceEntry<'a>| entry_view(t.said()),
        ));
        Members::new().with("instance", record_json(self.instance)).with(
            "contract",
            contract_json(self.contract),
        ).with("trace", Json::of_list(items)).done()
    }
}

} // verus!
