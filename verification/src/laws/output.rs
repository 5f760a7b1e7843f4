//! What the JSON output says of records, verdicts and rows.

use vstd::prelude::*;

use crate::contract::ContractView;
use crate::json::{
    breakdown_view, contract_view, cpu_view, entry_view, record_view, row_view, tags_view,
    texts_view, verdict_view, volume_view, StaleRow,
};
use crate::model::{CostBreakdown, CpuSummary, InstanceRecord, LaunchedBySource, VolumeCost};
use crate::staleness::{Severity, SkipReason, Verdict, VerdictView};
use crate::text::{int_text, nat_text};
use crate::value::JsonView;

verus! {

/// Whether an object has this member.
pub open spec fn has(v: JsonView, key: Seq<char>, value: JsonView) -> bool {
    v matches JsonView::Object(members) && exists|k: int|
        0 <= k < members.len() && #[trigger] members[k] == (key, value)
}

/// How many members an object has.
pub open spec fn size(v: JsonView) -> nat {
    match v {
        JsonView::Object(members) => members.len(),
        _ => 0,
    }
}

/// A whole number.
pub open spec fn number(n: int) -> JsonView {
    JsonView::Number(int_text(n))
}

/// A CPU summary on the wire carries all its figures under their own names.
pub proof fn cpu_figures_are_all_there(c: CpuSummary)
    ensures
        ({
            let v = cpu_view(c);
            &&& size(v) == 6
            &&& c.avg_pct is Some ==> has(v, "avg_pct"@, JsonView::Double(c.avg_pct->0))
            &&& c.p95_pct is Some ==> has(v, "p95_pct"@, JsonView::Double(c.p95_pct->0))
            &&& c.max_pct is Some ==> has(v, "max_pct"@, JsonView::Double(c.max_pct->0))
            &&& c.avg_pct is None ==> has(v, "avg_pct"@, JsonView::Null)
            &&& c.p95_pct is None ==> has(v, "p95_pct"@, JsonView::Null)
            &&& c.max_pct is None ==> has(v, "max_pct"@, JsonView::Null)
            &&& has(v, "samples"@, JsonView::Number(nat_text(c.samples as nat)))
            &&& has(v, "window_secs"@, number(c.window_secs as int))
            &&& c.last_active_at is Some ==> has(
                v,
                "last_active_at"@,
                JsonView::Text(c.last_active_at->0.shown()),
            )
            &&& c.last_active_at is None ==> has(v, "last_active_at"@, JsonView::Null)
        }),
{
    let m = cpu_view(c)->Object_0;
    assert(m[0].0 == "avg_pct"@ && m[1].0 == "p95_pct"@ && m[2].0 == "max_pct"@);
    assert(m[3].0 == "samples"@ && m[4].0 == "last_active_at"@ && m[5].0 == "window_secs"@);
}

/// The cost of a volume on the wire carries all its figures under their own
/// names.
pub proof fn volume_figures_are_all_there(c: VolumeCost)
    ensures
        ({
            let v = volume_view(c);
            &&& size(v) == 11
            &&& has(v, "volume_id"@, JsonView::Text(c.volume_id@))
            &&& has(v, "volume_type"@, JsonView::Text(c.volume_type@))
            &&& has(v, "size_gib"@, number(c.size_gib as int))
            &&& c.iops is Some ==> has(v, "iops"@, number(c.iops->0 as int))
            &&& c.iops is None ==> has(v, "iops"@, JsonView::Null)
            &&& c.throughput_mibps is Some ==> has(
                v,
                "throughput_mibps"@,
                number(c.throughput_mibps->0 as int),
            )
            &&& c.throughput_mibps is None ==> has(v, "throughput_mibps"@, JsonView::Null)
            &&& has(v, "age_secs"@, number(c.age_secs as int))
            &&& has(v, "capacity_usd"@, JsonView::Double(c.capacity_usd))
            &&& has(v, "iops_usd"@, JsonView::Double(c.iops_usd))
            &&& has(v, "throughput_usd"@, JsonView::Double(c.throughput_usd))
            &&& has(v, "total_usd"@, JsonView::Double(c.total_usd))
            &&& c.excluded_reason is Some ==> has(
                v,
                "excluded_reason"@,
                JsonView::Text(c.excluded_reason->0@),
            )
            &&& c.excluded_reason is None ==> has(v, "excluded_reason"@, JsonView::Null)
        }),
{
    let m = volume_view(c)->Object_0;
    assert(m[0].0 == "volume_id"@ && m[1].0 == "volume_type"@ && m[2].0 == "size_gib"@);
    assert(m[3].0 == "iops"@ && m[4].0 == "throughput_mibps"@ && m[5].0 == "age_secs"@);
    assert(m[6].0 == "capacity_usd"@ && m[7].0 == "iops_usd"@ && m[8].0 == "throughput_usd"@);
    assert(m[9].0 == "total_usd"@ && m[10].0 == "excluded_reason"@);
}

/// A breakdown on the wire carries its sums, and every volume in its order.
pub proof fn a_breakdown_lists_every_volume(bd: CostBreakdown)
    ensures
        ({
            let v = breakdown_view(bd);
            &&& size(v) == 4
            &&& has(v, "compute_usd"@, JsonView::Double(bd.compute_usd))
            &&& has(v, "storage_usd"@, JsonView::Double(bd.storage_usd))
            &&& has(
                v,
                "storage_run_rate_usd_per_month"@,
                JsonView::Double(bd.storage_run_rate_usd_per_month),
            )
            &&& exists|list: Seq<JsonView>|
                #[trigger] has(v, "volumes"@, JsonView::List(list)) && list.len() == bd.volumes@.len()
                    && forall|i: int|
                    0 <= i < list.len() ==> #[trigger] list[i] == volume_view(bd.volumes@[i])
        }),
{
    let m = breakdown_view(bd)->Object_0;
    let list = bd.volumes@.map_values(|v: VolumeCost| volume_view(v));
    assert(m[0].0 == "compute_usd"@ && m[1].0 == "storage_usd"@ && m[2].0
        == "storage_run_rate_usd_per_month"@);
    assert(m[3] == ("volumes"@, JsonView::List(list)));
    assert(has(breakdown_view(bd), "volumes"@, JsonView::List(list)));
}

/// A record on the wire carries every field of the record under its own name;
/// CPU load only where it was looked at.
#[verifier::rlimit(40)]
pub proof fn record_fields_are_all_there(r: InstanceRecord)
    ensures
        ({
            let v = record_view(r);
            &&& size(v) == (if r.cpu is Some {
                17int
            } else {
                16
            })
            &&& has(v, "instance_id"@, JsonView::Text(r.instance_id@))
            &&& r.launched_by is Some ==> has(v, "launched_by"@, JsonView::Text(r.launched_by->0@))
            &&& r.launched_by is None ==> has(v, "launched_by"@, JsonView::Null)
            &&& has(
                v,
                "launched_by_source"@,
                JsonView::Text(
                    match r.launched_by_source {
                        LaunchedBySource::Tag => "tag"@,
                        LaunchedBySource::IamRole => "iam_role"@,
                        LaunchedBySource::KeyName => "key_name"@,
                        LaunchedBySource::Unknown => "unknown"@,
                    },
                ),
            )
            &&& has(v, "launch_time"@, JsonView::Text(r.launch_time.shown()))
            &&& has(v, "created_at"@, JsonView::Text(r.created_at.shown()))
            &&& has(v, "last_uptime_seconds"@, number(r.last_uptime_seconds as int))
            &&& has(v, "total_age_seconds"@, number(r.total_age_seconds as int))
            &&& has(v, "instance_type"@, JsonView::Text(r.instance_type@))
            &&& has(v, "state"@, JsonView::Text(r.state.name()))
            &&& has(v, "region"@, JsonView::Text(r.region@))
            &&& r.az is Some ==> has(v, "az"@, JsonView::Text(r.az->0@))
            &&& r.az is None ==> has(v, "az"@, JsonView::Null)
            &&& r.iam_instance_profile is Some ==> has(
                v,
                "iam_instance_profile"@,
                JsonView::Text(r.iam_instance_profile->0@),
            )
            &&& r.iam_instance_profile is None ==> has(v, "iam_instance_profile"@, JsonView::Null)
            &&& r.key_name is Some ==> has(v, "key_name"@, JsonView::Text(r.key_name->0@))
            &&& r.key_name is None ==> has(v, "key_name"@, JsonView::Null)
            &&& has(v, "tags"@, tags_view(r.tags.pairs()))
            &&& r.estimated_cost_usd is Some ==> has(
                v,
                "estimated_cost_usd"@,
                JsonView::Double(r.estimated_cost_usd->0),
            )
            &&& r.estimated_cost_usd is None ==> has(v, "estimated_cost_usd"@, JsonView::Null)
            &&& r.cost_breakdown is Some ==> has(
                v,
                "cost_breakdown"@,
                breakdown_view(r.cost_breakdown->0),
            )
            &&& r.cost_breakdown is None ==> has(v, "cost_breakdown"@, JsonView::Null)
            &&& r.cpu is Some ==> has(v, "cpu"@, cpu_view(r.cpu->0))
        }),
{
    let m = record_view(r)->Object_0;
    assert(m[0].0 == "instance_id"@ && m[1].0 == "launched_by"@ && m[2].0 == "launched_by_source"@);
    assert(m[3].0 == "launch_time"@ && m[4].0 == "created_at"@ && m[5].0 == "last_uptime_seconds"@);
    assert(m[6].0 == "total_age_seconds"@ && m[7].0 == "instance_type"@ && m[8].0 == "state"@);
    assert(m[9].0 == "region"@ && m[10].0 == "az"@ && m[11].0 == "iam_instance_profile"@);
    assert(m[12].0 == "key_name"@ && m[13].0 == "tags"@ && m[14].0 == "estimated_cost_usd"@);
    assert(m[15].0 == "cost_breakdown"@);
    if r.cpu is Some {
        assert(m[16].0 == "cpu"@);
    }
}

/// Tags on the wire are those of the instance, each with its value.
pub proof fn tags_are_all_there(pairs: Seq<(Seq<char>, Seq<char>)>, i: int)
    requires
        0 <= i < pairs.len(),
    ensures
        size(tags_view(pairs)) == pairs.len(),
        has(tags_view(pairs), pairs[i].0, JsonView::Text(pairs[i].1)),
{
    let f = |p: (Seq<char>, Seq<char>)| (p.0, JsonView::Text(p.1));
    let m = pairs.map_values(f);
    assert(m[i] == (pairs[i].0, JsonView::Text(pairs[i].1)));
}

/// A contract on the wire carries marker, owner, channel and deadline.
pub proof fn contract_fields_are_all_there(c: ContractView)
    ensures
        ({
            let v = contract_view(c);
            &&& size(v) == 4
            &&& has(v, "managed_by_gasleak"@, JsonView::Bool(c.managed_by_gasleak))
            &&& c.owner is Some ==> has(v, "owner"@, JsonView::Text(c.owner->0@))
            &&& c.owner is None ==> has(v, "owner"@, JsonView::Null)
            &&& c.owner_slack is Some ==> has(v, "owner_slack"@, JsonView::Text(c.owner_slack->0@))
            &&& c.owner_slack is None ==> has(v, "owner_slack"@, JsonView::Null)
            &&& c.expires_at is Some ==> has(
                v,
                "expires_at"@,
                JsonView::Text(c.expires_at->0.shown()),
            )
            &&& c.expires_at is None ==> has(v, "expires_at"@, JsonView::Null)
        }),
{
    let m = contract_view(c)->Object_0;
    assert(m[0].0 == "managed_by_gasleak"@ && m[1].0 == "owner"@ && m[2].0 == "owner_slack"@);
    assert(m[3].0 == "expires_at"@);
}

/// A verdict on the wire names its kind and carries what belongs to it.
#[verifier::rlimit(40)]
pub proof fn verdict_fields_are_all_there(v: VerdictView)
    ensures
        ({
            let w = verdict_view(v);
            match v {
                VerdictView::Managed { controller } => has(w, "kind"@, JsonView::Text("managed"@))
                    && has(w, "controller"@, JsonView::Text(controller)),
                VerdictView::Expired { at, overdue_secs } => has(
                    w,
                    "kind"@,
                    JsonView::Text("expired"@),
                ) && has(w, "at"@, JsonView::Text(at.shown())) && has(
                    w,
                    "overdue_secs"@,
                    number(overdue_secs),
                ),
                VerdictView::ExpiringSoon { at, within_secs } => has(
                    w,
                    "kind"@,
                    JsonView::Text("expiring_soon"@),
                ) && has(w, "at"@, JsonView::Text(at.shown())) && has(
                    w,
                    "within_secs"@,
                    number(within_secs),
                ),
                VerdictView::Idle { p95_pct, samples, window_secs } => has(
                    w,
                    "kind"@,
                    JsonView::Text("idle"@),
                ) && has(w, "p95_pct"@, JsonView::Double(p95_pct)) && has(
                    w,
                    "samples"@,
                    JsonView::Number(nat_text(samples)),
                ) && has(w, "window_secs"@, number(window_secs)),
                VerdictView::Inactive { idle_for_secs, samples, window_secs, severity } => has(
                    w,
                    "kind"@,
                    JsonView::Text("inactive"@),
                ) && has(w, "samples"@, JsonView::Number(nat_text(samples))) && has(
                    w,
                    "window_secs"@,
                    number(window_secs),
                ) && (idle_for_secs is Some ==> has(
                    w,
                    "idle_for_secs"@,
                    number(idle_for_secs->0 as int),
                )) && (idle_for_secs is None ==> has(w, "idle_for_secs"@, JsonView::Null)) && has(
                    w,
                    "severity"@,
                    JsonView::Text(
                        match severity {
                            Severity::Info => "info"@,
                            Severity::Low => "low"@,
                            Severity::Medium => "medium"@,
                            Severity::High => "high"@,
                        },
                    ),
                ),
                VerdictView::LongLived { age_secs } => has(
                    w,
                    "kind"@,
                    JsonView::Text("long_lived"@),
                ) && has(w, "age_secs"@, number(age_secs)),
                VerdictView::Underutilized { p95_pct, samples, window_secs } => has(
                    w,
                    "kind"@,
                    JsonView::Text("underutilized"@),
                ) && has(w, "p95_pct"@, JsonView::Double(p95_pct)) && has(
                    w,
                    "samples"@,
                    JsonView::Number(nat_text(samples)),
                ) && has(w, "window_secs"@, number(window_secs)),
                VerdictView::NonCompliant { missing, tampered, past_deadline } => has(
                    w,
                    "kind"@,
                    JsonView::Text("non_compliant"@),
                ) && has(w, "missing"@, texts_view(missing)) && has(
                    w,
                    "tampered"@,
                    JsonView::Bool(tampered),
                ) && has(w, "past_deadline"@, JsonView::Bool(past_deadline)),
            }
        }),
{
    let m = verdict_view(v)->Object_0;
    assert(m[0].0 == "kind"@);
    match v {
        VerdictView::Managed { .. } => {
            assert(m[1].0 == "controller"@);
        },
        VerdictView::Expired { .. } => {
            assert(m[1].0 == "at"@ && m[2].0 == "overdue_secs"@);
        },
        VerdictView::ExpiringSoon { .. } => {
            assert(m[1].0 == "at"@ && m[2].0 == "within_secs"@);
        },
        VerdictView::Idle { .. } => {
            assert(m[1].0 == "p95_pct"@ && m[2].0 == "samples"@ && m[3].0 == "window_secs"@);
        },
        VerdictView::Inactive { .. } => {
            assert(m[1].0 == "idle_for_secs"@ && m[2].0 == "samples"@ && m[3].0 == "window_secs"@);
            assert(m[4].0 == "severity"@);
        },
        VerdictView::LongLived { .. } => {
            assert(m[1].0 == "age_secs"@);
        },
        VerdictView::Underutilized { .. } => {
            assert(m[1].0 == "p95_pct"@ && m[2].0 == "samples"@ && m[3].0 == "window_secs"@);
        },
        VerdictView::NonCompliant { .. } => {
            assert(m[1].0 == "missing"@ && m[2].0 == "tampered"@ && m[3].0 == "past_deadline"@);
        },
    }
}

/// A list of texts on the wire holds each of them, in their order.
pub proof fn texts_are_all_there(texts: Seq<Seq<char>>)
    ensures
        texts_view(texts) is List,
        texts_view(texts)->List_0.len() == texts.len(),
        forall|i: int|
            0 <= i < texts.len() ==> #[trigger] texts_view(texts)->List_0[i] == JsonView::Text(
                texts[i],
            ),
{
    let f = |t: Seq<char>| JsonView::Text(t);
    assert forall|i: int| 0 <= i < texts.len() implies #[trigger] texts_view(texts)->List_0[i]
        == JsonView::Text(texts[i]) by {
        assert(texts.map_values(f)[i] == f(texts[i]));
    }
}

/// A row on the wire carries the record, its contract, and every verdict in
/// their order.
pub proof fn a_row_lists_every_verdict(row: StaleRow<'_>)
    ensures
        ({
            let v = row_view(row);
            &&& size(v) == 3
            &&& has(v, "instance"@, record_view(*row.instance))
            &&& has(v, "contract"@, contract_view(*row.contract))
            &&& exists|list: Seq<JsonView>|
                #[trigger] has(v, "verdicts"@, JsonView::List(list)) && list.len() == row.verdicts@.len()
                    && forall|i: int|
                    0 <= i < list.len() ==> #[trigger] list[i] == verdict_view(row.verdicts@[i]@)
        }),
{
    let m = row_view(row)->Object_0;
    let list = row.verdicts@.map_values(|v: Verdict| verdict_view(v@));
    assert(m[0].0 == "instance"@ && m[1].0 == "contract"@);
    assert(m[2] == ("verdicts"@, JsonView::List(list)));
    assert(has(row_view(row), "verdicts"@, JsonView::List(list)));
}

/// An entry of a trace on the wire says whether its rule fired, with the
/// verdict, or was skipped, with the reason.
pub proof fn an_entry_tells_the_outcome(rule: Seq<char>, v: VerdictView, reason: SkipReason)
    ensures
        has(entry_view((rule, Ok(v))), "status"@, JsonView::Text("fired"@)),
        has(entry_view((rule, Ok(v))), "rule"@, JsonView::Text(rule)),
        has(entry_view((rule, Ok(v))), "verdict"@, verdict_view(v)),
        has(entry_view((rule, Err(reason))), "status"@, JsonView::Text("skipped"@)),
        has(entry_view((rule, Err(reason))), "rule"@, JsonView::Text(rule)),
        has(entry_view((rule, Err(reason))), "reason"@, JsonView::Text(reason.name())),
{
    let a = entry_view((rule, Ok(v)))->Object_0;
    let b = entry_view((rule, Err(reason)))->Object_0;
    assert(a[0].0 == "status"@ && a[1].0 == "rule"@ && a[2].0 == "verdict"@);
    assert(b[0].0 == "status"@ && b[1].0 == "rule"@ && b[2].0 == "reason"@);
}

} // verus!
