//! Human-readable renderers for `list`, `stale`, and `explain`.
//!
//! Each returns the lines to print. Tables size their columns by content; see
//! [`crate::json`] for the machine-readable counterpart.

use vstd::prelude::*;

use crate::aws::{clamp, clamped};
use crate::contract::{tag_value, ContractView};
use crate::decimal::{one_decimal, one_decimal_text, two_decimals, two_decimals_text};
use crate::double::Double;
use crate::model::{
    format_uptime, uptime_text, CostBreakdown, CpuSummary, InstanceRecord, VolumeCost,
};
use crate::run::{overall_worst, worst_of_all, Evaluated};
use crate::staleness::{
    fired_in, fired_verdicts, flagged, is_flagged, trace_views, verdict_views, worse_of, worst,
    worst_severity, RuleTrace, Severity, SkipReason, Verdict, VerdictView,
};
use crate::table::{
    byte_length, column_widths, count_bytes, measure, pad, padded, row_text, row_views,
    separator_text, table_text, wider, width_views, write_headings, write_row, write_separator,
    write_table, Lines,
};
use crate::text::{
    blank, count, int_text, is_blank, join, join_slices, joined, magnitude, nat_text, signed,
    slices, strings, unsigned,
};
use crate::timestamp::{date_of, format_date, Timestamp};

verus! {

/// A number of whole days, cut off towards zero.
pub open spec fn whole_days(secs: int) -> int {
    if secs < 0 {
        -((-secs) / 86_400)
    } else {
        secs / 86_400
    }
}

/// A number of whole days, cut off towards zero.
pub fn count_days(secs: i64) -> (r: i64)
    ensures
        r == whole_days(secs as int),
{
    let days: u64 = magnitude(secs) / 86_400;
    if secs < 0 {
        -(days as i64)
    } else {
        days as i64
    }
}

/// When an instance was last active. Without an active hour the answer is
/// bounded by the window that was looked at.
pub open spec fn last_active_text(cpu: CpuSummary, now: Timestamp) -> Seq<char> {
    if cpu.samples == 0 {
        "no data"@
    } else {
        match cpu.last_active_at {
            Some(ts) => {
                let delta = clamped(now.seconds() - ts.seconds());
                if delta < 0 {
                    "-"@
                } else {
                    uptime_text(delta) + " ago"@
                }
            },
            None => ">"@ + int_text(whole_days(cpu.window_secs as int)) + "d ago"@,
        }
    }
}

pub fn format_last_active(cpu: &CpuSummary, now: Timestamp) -> (r: String)
    ensures
        r@ == last_active_text(*cpu, now),
{
    if cpu.samples == 0 {
        return "no data".to_string();
    }
    match cpu.last_active_at {
        Some(ts) => {
            let delta: i64 = clamp(now.as_second() as i128 - ts.as_second() as i128);
            if delta < 0 {
                "-".to_string()
            } else {
                format_uptime(delta).concat(" ago")
            }
        },
        None => ">".to_string().concat(signed(count_days(cpu.window_secs)).as_str()).concat(
            "d ago",
        ),
    }
}

/// A percentage with one decimal.
pub open spec fn pct_text(pct: Option<Double>) -> Seq<char> {
    match pct {
        Some(v) => one_decimal_text(v) + "%"@,
        None => "-"@,
    }
}

pub fn format_pct(pct: Option<Double>) -> (r: String)
    ensures
        r@ == pct_text(pct),
{
    match pct {
        Some(v) => one_decimal(v).concat("%"),
        None => "-".to_string(),
    }
}

/// An amount with two decimals.
pub open spec fn usd_text(v: Option<Double>) -> Seq<char> {
    match v {
        Some(cost) => if cost.finite() {
            "$"@ + two_decimals_text(cost)
        } else {
            "-"@
        },
        None => "-"@,
    }
}

pub fn format_usd(v: Option<Double>) -> (r: String)
    ensures
        r@ == usd_text(v),
{
    match v {
        Some(cost) => if cost.is_finite() {
            "$".to_string().concat(two_decimals(cost).as_str())
        } else {
            "-".to_string()
        },
        None => "-".to_string(),
    }
}

/// A duration, whatever its sign, in its two largest units.
pub open spec fn duration_text(seconds: int) -> Seq<char> {
    let abs = (if seconds < 0 {
        -seconds
    } else {
        seconds
    }) as nat;
    let d = abs / 86_400;
    let h = (abs % 86_400) / 3_600;
    let m = (abs % 3_600) / 60;
    if d > 0 {
        nat_text(d) + "d"@ + nat_text(h) + "h"@
    } else if h > 0 {
        nat_text(h) + "h"@ + nat_text(m) + "m"@
    } else {
        nat_text(m) + "m"@
    }
}

pub fn format_duration(seconds: i64) -> (r: String)
    ensures
        r@ == duration_text(seconds as int),
{
    let abs: u64 = magnitude(seconds);
    let d: u64 = abs / 86_400;
    let h: u64 = (abs % 86_400) / 3_600;
    let m: u64 = (abs % 3_600) / 60;
    if d > 0 {
        unsigned(d).concat("d").concat(unsigned(h).as_str()).concat("h")
    } else if h > 0 {
        unsigned(h).concat("h").concat(unsigned(m).as_str()).concat("m")
    } else {
        unsigned(m).concat("m")
    }
}

/// A verdict in one phrase.
pub open spec fn verdict_text(v: VerdictView) -> Seq<char> {
    match v {
        VerdictView::Managed { controller } => "managed("@ + controller + ")"@,
        VerdictView::Expired { overdue_secs, .. } => "expired("@ + duration_text(overdue_secs)
            + " ago)"@,
        VerdictView::ExpiringSoon { within_secs, .. } => "expiring_soon(in "@ + duration_text(
            within_secs,
        ) + ")"@,
        VerdictView::Idle { p95_pct, samples, .. } => "idle(p95="@ + one_decimal_text(p95_pct)
            + "%, n="@ + nat_text(samples) + ")"@,
        VerdictView::Inactive { idle_for_secs, samples, .. } => {
            let last = match idle_for_secs {
                Some(s) => duration_text(s as int) + " ago"@,
                None => "no active hour in window"@,
            };
            "inactive(last="@ + last + ", n="@ + nat_text(samples) + ")"@
        },
        VerdictView::LongLived { age_secs } => "long_lived(age="@ + duration_text(age_secs) + ")"@,
        VerdictView::Underutilized { p95_pct, samples, .. } => "underutilized(p95="@
            + one_decimal_text(p95_pct) + "%, n="@ + nat_text(samples) + ")"@,
        VerdictView::NonCompliant { missing, tampered, .. } => {
            let tail = if tampered {
                ", tampered)"@
            } else {
                ")"@
            };
            "non_compliant(missing="@ + joined(missing, ","@) + tail
        },
    }
}

pub fn format_verdict(v: &Verdict) -> (r: String)
    ensures
        r@ == verdict_text(v@),
{
    match v {
        Verdict::Managed { controller } => "managed(".to_string().concat(controller).concat(")"),
        Verdict::Expired { overdue_secs, .. } => "expired(".to_string().concat(
            format_duration(*overdue_secs).as_str(),
        ).concat(" ago)"),
        Verdict::ExpiringSoon { within_secs, .. } => "expiring_soon(in ".to_string().concat(
            format_duration(*within_secs).as_str(),
        ).concat(")"),
        Verdict::Idle { p95_pct, samples, .. } => "idle(p95=".to_string().concat(
            one_decimal(*p95_pct).as_str(),
        ).concat("%, n=").concat(count(*samples).as_str()).concat(")"),
        Verdict::Inactive { idle_for_secs, samples, .. } => {
            let last: String = match idle_for_secs {
                Some(s) => format_duration(*s).concat(" ago"),
                None => "no active hour in window".to_string(),
            };
            "inactive(last=".to_string().concat(last.as_str()).concat(", n=").concat(
                count(*samples).as_str(),
            ).concat(")")
        },
        Verdict::LongLived { age_secs } => "long_lived(age=".to_string().concat(
            format_duration(*age_secs).as_str(),
        ).concat(")"),
        Verdict::Underutilized { p95_pct, samples, .. } => "underutilized(p95=".to_string().concat(
            one_decimal(*p95_pct).as_str(),
        ).concat("%, n=").concat(count(*samples).as_str()).concat(")"),
        Verdict::NonCompliant { missing, tampered, .. } => {
            let tail: &str = if *tampered {
                ", tampered)"
            } else {
                ")"
            };
            "non_compliant(missing=".to_string().concat(
                join_slices(missing.as_slice(), ",").as_str(),
            ).concat(tail)
        },
    }
}

/// Whether an optional text says anything.
pub open spec fn says_something(t: Option<Seq<char>>) -> bool {
    t matches Some(s) && !is_blank(s)
}

/// What an instance with an unknown launcher is called: its key pair, else
/// its name, stand in.
pub open spec fn guess_text(key_name: Option<Seq<char>>, tags: Map<Seq<char>, Seq<char>>) -> Seq<
    char,
> {
    let name = tag_value(tags, "Name"@);
    if says_something(key_name) {
        "unknown("@ + key_name->0 + ")"@
    } else if says_something(name) {
        "unknown("@ + name->0 + ")"@
    } else {
        "unknown"@
    }
}

pub fn unknown_guess(r: &InstanceRecord) -> (out: String)
    ensures
        out@ == guess_text(crate::model::option_text(r.key_name), r.tags@),
{
    if let Some(key) = &r.key_name {
        if !blank(key.as_str()) {
            return "unknown(".to_string().concat(key.as_str()).concat(")");
        }
    }
    if let Some(name) = r.tags.get("Name") {
        if !blank(name.as_str()) {
            return "unknown(".to_string().concat(name.as_str()).concat(")");
        }
    }
    "unknown".to_string()
}

/// Who launched an instance, or what stands in.
pub open spec fn launcher_text(r: InstanceRecord) -> Seq<char> {
    match r.launched_by {
        Some(who) => who@,
        None => guess_text(crate::model::option_text(r.key_name), r.tags@),
    }
}

fn launcher_of(r: &InstanceRecord) -> (out: String)
    ensures
        out@ == launcher_text(*r),
{
    match &r.launched_by {
        Some(who) => who.clone(),
        None => unknown_guess(r),
    }
}

/// The last activity of an instance.
pub open spec fn activity_cell(cpu: Option<CpuSummary>, now: Timestamp) -> Seq<char> {
    match cpu {
        Some(c) => last_active_text(c, now),
        None => "-"@,
    }
}

fn activity_of(cpu: &Option<CpuSummary>, now: Timestamp) -> (r: String)
    ensures
        r@ == activity_cell(*cpu, now),
{
    match cpu {
        Some(c) => format_last_active(c, now),
        None => "-".to_string(),
    }
}

/// Average, p95 and maximum CPU load of an instance.
pub open spec fn load_cells(cpu: Option<CpuSummary>) -> (Seq<char>, Seq<char>, Seq<char>) {
    match cpu {
        Some(c) => (pct_text(c.avg_pct), pct_text(c.p95_pct), pct_text(c.max_pct)),
        None => ("-"@, "-"@, "-"@),
    }
}

fn load_of(cpu: &Option<CpuSummary>) -> (r: (String, String, String))
    ensures
        (r.0@, r.1@, r.2@) == load_cells(*cpu),
{
    match cpu {
        Some(c) => (format_pct(c.avg_pct), format_pct(c.p95_pct), format_pct(c.max_pct)),
        None => ("-".to_string(), "-".to_string(), "-".to_string()),
    }
}

/// The headings of `list`.
pub open spec fn list_headings() -> Seq<Seq<char>> {
    seq![
        "instance_id"@,
        "state"@,
        "type"@,
        "cost_usd"@,
        "created"@,
        "total_age"@,
        "last_uptime"@,
        "launched_by"@,
        "src"@,
        "region"@,
        "avg_cpu"@,
        "p95_cpu"@,
        "max_cpu"@,
        "last_active"@,
    ]
}

/// The cells of a row of `list`.
pub open spec fn list_cells(r: InstanceRecord, now: Timestamp) -> Seq<Seq<char>> {
    let load = load_cells(r.cpu);
    seq![
        r.instance_id@,
        r.state.name(),
        r.instance_type@,
        usd_text(r.estimated_cost_usd),
        date_of(r.created_at.shown()),
        uptime_text(r.total_age_seconds as int),
        uptime_text(r.last_uptime_seconds as int),
        launcher_text(r),
        r.launched_by_source.name(),
        r.region@,
        load.0,
        load.1,
        load.2,
        activity_cell(r.cpu, now),
    ]
}

fn list_row(r: &InstanceRecord, now: Timestamp) -> (out: Vec<String>)
    ensures
        strings(out@) == list_cells(*r, now),
        out@.len() == 14,
{
    let (avg, p95, max) = load_of(&r.cpu);
    let mut out: Vec<String> = Vec::new();
    out.push(r.instance_id.clone());
    out.push(r.state.as_str().to_string());
    out.push(r.instance_type.clone());
    out.push(format_usd(r.estimated_cost_usd));
    out.push(format_date(r.created_at));
    out.push(format_uptime(r.total_age_seconds));
    out.push(format_uptime(r.last_uptime_seconds));
    out.push(launcher_of(r));
    out.push(r.launched_by_source.as_str().to_string());
    out.push(r.region.clone());
    out.push(avg);
    out.push(p95);
    out.push(max);
    out.push(activity_of(&r.cpu, now));
    assert(strings(out@) =~= list_cells(*r, now));
    out
}

fn list_heads() -> (out: Vec<&'static str>)
    ensures
        slices(out@) == list_headings(),
        out@.len() == 14,
{
    let mut out: Vec<&'static str> = Vec::new();
    out.push("instance_id");
    out.push("state");
    out.push("type");
    out.push("cost_usd");
    out.push("created");
    out.push("total_age");
    out.push("last_uptime");
    out.push("launched_by");
    out.push("src");
    out.push("region");
    out.push("avg_cpu");
    out.push("p95_cpu");
    out.push("max_cpu");
    out.push("last_active");
    assert(slices(out@) =~= list_headings());
    out
}

/// The lines of `list`.
pub open spec fn list_text(records: Seq<InstanceRecord>, now: Timestamp) -> Seq<Seq<char>> {
    if records.len() == 0 {
        seq!["No EC2 instances matched."@]
    } else {
        table_text(list_headings(), records.map_values(|r: InstanceRecord| list_cells(r, now)))
    }
}

/// The lines of `list`.
pub fn table_lines(records: &[InstanceRecord], now: Timestamp) -> (out: Vec<String>)
    ensures
        strings(out@) == list_text(records@, now),
{
    let n: usize = records.len();
    if n == 0 {
        return Lines::new().text("No EC2 instances matched.").done();
    }
    let mut rows: Vec<Vec<String>> = Vec::new();
    let mut i: usize = 0;
    while i < n
        invariant
            n == records@.len(),
            i <= n,
            rows@.len() == i,
            forall|k: int|
                0 <= k < i ==> (#[trigger] rows@[k])@.len() == 14 && strings(rows@[k]@)
                    == list_cells(records@[k], now),
        decreases n - i,
    {
        rows.push(list_row(&records[i], now));
        i += 1;
    }
    let heads: Vec<&'static str> = list_heads();
    assert(row_views(rows@) =~= records@.map_values(|r: InstanceRecord| list_cells(r, now)));
    write_table(&heads, &rows)
}

/// The headings of `stale`.
pub open spec fn stale_headings() -> Seq<Seq<char>> {
    seq![
        "sev"@,
        "instance_id"@,
        "type"@,
        "created"@,
        "total_age"@,
        "last_uptime"@,
        "last_active"@,
        "launched_by"@,
        "verdicts"@,
    ]
}

/// All verdicts of a row.
pub open spec fn verdicts_text(verdicts: Seq<VerdictView>) -> Seq<char> {
    if verdicts.len() == 0 {
        "—"@
    } else {
        joined(verdicts.map_values(|v: VerdictView| verdict_text(v)), "; "@)
    }
}

fn format_verdicts(verdicts: &Vec<Verdict>) -> (r: String)
    ensures
        r@ == verdicts_text(verdict_views(verdicts@)),
{
    let n: usize = verdicts.len();
    if n == 0 {
        return "—".to_string();
    }
    let mut parts: Vec<String> = Vec::new();
    let mut i: usize = 0;
    while i < n
        invariant
            n == verdicts@.len(),
            i <= n,
            parts@.len() == i,
            forall|k: int| 0 <= k < i ==> (#[trigger] parts@[k])@ == verdict_text(verdicts@[k]@),
        decreases n - i,
    {
        parts.push(format_verdict(&verdicts[i]));
        i += 1;
    }
    assert(strings(parts@) =~= verdict_views(verdicts@).map_values(
        |v: VerdictView| verdict_text(v),
    ));
    join(&parts, "; ")
}

/// The label of a severity that may be missing.
pub open spec fn severity_text(s: Option<Severity>, none: Seq<char>) -> Seq<char> {
    match s {
        Some(s) => s.label(),
        None => none,
    }
}

fn severity_label(s: Option<Severity>, none: &'static str) -> (r: &'static str)
    ensures
        r@ == severity_text(s, none@),
{
    match s {
        Some(s) => s.as_str(),
        None => none,
    }
}

/// The cells of a row of `stale`.
pub open spec fn stale_cells(e: Evaluated, now: Timestamp) -> Seq<Seq<char>> {
    let r = e.0;
    seq![
        severity_text(worst(verdict_views(e.2@)), "-"@),
        r.instance_id@,
        r.instance_type@,
        date_of(r.created_at.shown()),
        uptime_text(r.total_age_seconds as int),
        uptime_text(r.last_uptime_seconds as int),
        activity_cell(r.cpu, now),
        launcher_text(r),
        verdicts_text(verdict_views(e.2@)),
    ]
}

fn stale_row(e: &Evaluated, now: Timestamp) -> (out: Vec<String>)
    ensures
        strings(out@) == stale_cells(*e, now),
        out@.len() == 9,
{
    let r: &InstanceRecord = &e.0;
    let mut out: Vec<String> = Vec::new();
    out.push(severity_label(worst_severity(e.2.as_slice()), "-").to_string());
    out.push(r.instance_id.clone());
    out.push(r.instance_type.clone());
    out.push(format_date(r.created_at));
    out.push(format_uptime(r.total_age_seconds));
    out.push(format_uptime(r.last_uptime_seconds));
    out.push(activity_of(&r.cpu, now));
    out.push(launcher_of(r));
    out.push(format_verdicts(&e.2));
    assert(strings(out@) =~= stale_cells(*e, now));
    out
}

fn stale_heads() -> (out: Vec<&'static str>)
    ensures
        slices(out@) == stale_headings(),
        out@.len() == 9,
{
    let mut out: Vec<&'static str> = Vec::new();
    out.push("sev");
    out.push("instance_id");
    out.push("type");
    out.push("created");
    out.push("total_age");
    out.push("last_uptime");
    out.push("last_active");
    out.push("launched_by");
    out.push("verdicts");
    assert(slices(out@) =~= stale_headings());
    out
}

/// The cells of the flagged rows.
pub open spec fn flagged_cells(rows: Seq<Evaluated>, now: Timestamp) -> Seq<Seq<Seq<char>>>
    decreases rows.len(),
{
    if rows.len() == 0 {
        Seq::empty()
    } else if flagged(verdict_views(rows.last().2@)) {
        flagged_cells(rows.drop_last(), now).push(stale_cells(rows.last(), now))
    } else {
        flagged_cells(rows.drop_last(), now)
    }
}

/// The line below the table of `stale`.
pub open spec fn stale_summary_text(flagged: nat, scanned: nat, worst: Option<Severity>) -> Seq<
    char,
> {
    nat_text(flagged) + " flagged / "@ + nat_text(scanned) + " scanned; worst severity: "@
        + severity_text(worst, "none"@)
}

/// The lines of `stale`.
pub open spec fn stale_text(rows: Seq<Evaluated>, now: Timestamp) -> Seq<Seq<char>> {
    let cells = flagged_cells(rows, now);
    if rows.len() == 0 {
        seq!["No EC2 instances matched."@]
    } else if cells.len() == 0 {
        seq!["No instances with stale verdicts."@]
    } else {
        table_text(stale_headings(), cells).push(""@).push(
            stale_summary_text(cells.len(), rows.len(), overall_worst(rows)),
        )
    }
}

/// The lines of `stale`.
pub fn stale_lines(evaluated: &[Evaluated], now: Timestamp) -> (out: Vec<String>)
    ensures
        strings(out@) == stale_text(evaluated@, now),
{
    let n: usize = evaluated.len();
    if n == 0 {
        return Lines::new().text("No EC2 instances matched.").done();
    }
    let mut rows: Vec<Vec<String>> = Vec::new();
    let mut i: usize = 0;
    assert(row_views(rows@) =~= flagged_cells(evaluated@.take(0), now));
    while i < n
        invariant
            n == evaluated@.len(),
            i <= n,
            row_views(rows@) == flagged_cells(evaluated@.take(i as int), now),
            forall|k: int| 0 <= k < rows@.len() ==> (#[trigger] rows@[k])@.len() == 9,
        decreases n - i,
    {
        let ghost before = rows@;
        proof {
            assert(evaluated@.take(i + 1).drop_last() =~= evaluated@.take(i as int));
            assert(evaluated@.take(i + 1).last() == evaluated@[i as int]);
        }
        if is_flagged(evaluated[i].2.as_slice()) {
            let row: Vec<String> = stale_row(&evaluated[i], now);
            rows.push(row);
            assert(row_views(rows@) =~= row_views(before).push(strings(row@)));
        }
        i += 1;
    }
    assert(evaluated@.take(n as int) =~= evaluated@);
    assert(rows@.len() == row_views(rows@).len());
    if rows.len() == 0 {
        return Lines::new().text("No instances with stale verdicts.").done();
    }
    let heads: Vec<&'static str> = stale_heads();
    let table: Vec<String> = write_table(&heads, &rows);
    let label: &'static str = severity_label(worst_of_all(evaluated), "none");
    let summary: String = count(rows.len()).concat(" flagged / ").concat(count(n).as_str()).concat(
        " scanned; worst severity: ",
    ).concat(label);
    let lines: Lines = Lines::new().and(table);
    assert(lines@ =~= strings(table@));
    lines.text("").with(summary).done()
}

/// The first lines of `explain`: the instance itself.
pub open spec fn instance_text(r: InstanceRecord) -> Seq<Seq<char>> {
    let who = match r.launched_by {
        Some(w) => w@,
        None => "unknown"@,
    };
    let base = seq![
        "Instance "@ + r.instance_id@ + " ("@ + r.region@ + ")"@,
        "  state        : "@ + r.state.name(),
        "  type         : "@ + r.instance_type@,
        "  created      : "@ + date_of(r.created_at.shown()),
        "  total_age    : "@ + uptime_text(r.total_age_seconds as int),
        "  last_uptime  : "@ + uptime_text(r.last_uptime_seconds as int),
        "  launched_by  : "@ + who + " (src: "@ + r.launched_by_source.name() + ")"@,
    ];
    let az = match r.az {
        Some(az) => base.push("  az           : "@ + az@),
        None => base,
    };
    let iam = match r.iam_instance_profile {
        Some(arn) => az.push("  iam_profile  : "@ + arn@),
        None => az,
    };
    match r.key_name {
        Some(key) => iam.push("  key_name     : "@ + key@),
        None => iam,
    }
}

fn instance_lines(r: &InstanceRecord) -> (out: Lines)
    ensures
        out@ == instance_text(*r),
{
    let who: &str = match &r.launched_by {
        Some(w) => w.as_str(),
        None => "unknown",
    };
    let mut out: Lines = Lines::new().with(
        "Instance ".to_string().concat(r.instance_id.as_str()).concat(" (").concat(
            r.region.as_str(),
        ).concat(")"),
    ).with("  state        : ".to_string().concat(r.state.as_str())).with(
        "  type         : ".to_string().concat(r.instance_type.as_str()),
    ).with("  created      : ".to_string().concat(format_date(r.created_at).as_str())).with(
        "  total_age    : ".to_string().concat(format_uptime(r.total_age_seconds).as_str()),
    ).with(
        "  last_uptime  : ".to_string().concat(format_uptime(r.last_uptime_seconds).as_str()),
    ).with(
        "  launched_by  : ".to_string().concat(who).concat(" (src: ").concat(
            r.launched_by_source.as_str(),
        ).concat(")"),
    );
    if let Some(az) = &r.az {
        out = out.with("  az           : ".to_string().concat(az.as_str()));
    }
    if let Some(arn) = &r.iam_instance_profile {
        out = out.with("  iam_profile  : ".to_string().concat(arn.as_str()));
    }
    if let Some(key) = &r.key_name {
        out = out.with("  key_name     : ".to_string().concat(key.as_str()));
    }
    out
}

/// The longest key, in bytes.
pub open spec fn longest_key(pairs: Seq<(Seq<char>, Seq<char>)>) -> nat
    decreases pairs.len(),
{
    if pairs.len() == 0 {
        0
    } else {
        wider(longest_key(pairs.drop_last()), byte_length(pairs.last().0))
    }
}

/// The width of the column of keys.
pub open spec fn key_width(pairs: Seq<(Seq<char>, Seq<char>)>) -> nat {
    if longest_key(pairs) < 40 {
        longest_key(pairs)
    } else {
        40
    }
}

/// The lines of `explain` about the tags.
pub open spec fn tags_text(pairs: Seq<(Seq<char>, Seq<char>)>) -> Seq<Seq<char>> {
    let head = seq![""@, "Tags ("@ + nat_text(pairs.len()) + "):"@];
    if pairs.len() == 0 {
        head.push("  (none)"@)
    } else {
        head + pairs.map_values(
            |p: (Seq<char>, Seq<char>)|
                "  "@ + padded(p.0, key_width(pairs) as int) + "  "@ + p.1,
        )
    }
}

fn tags_lines(r: &InstanceRecord) -> (out: Vec<String>)
    ensures
        strings(out@) == tags_text(r.tags.pairs()),
{
    let n: usize = r.tags.len();
    let ghost pairs = r.tags.pairs();
    let head: Lines = Lines::new().text("").with(
        "Tags (".to_string().concat(count(n).as_str()).concat("):"),
    );
    if n == 0 {
        return head.text("  (none)").done();
    }
    let mut longest: usize = 0;
    let mut i: usize = 0;
    while i < n
        invariant
            n == r.tags.pairs().len(),
            pairs == r.tags.pairs(),
            i <= n,
            longest == longest_key(pairs.take(i as int)),
        decreases n - i,
    {
        proof {
            assert(pairs.take(i + 1).drop_last() =~= pairs.take(i as int));
            assert(pairs.take(i + 1).last() == pairs[i as int]);
        }
        let (k, _v) = r.tags.entry(i);
        let length: usize = count_bytes(k);
        if length > longest {
            longest = length;
        }
        i += 1;
    }
    assert(pairs.take(n as int) =~= pairs);
    let width: usize = if longest < 40 {
        longest
    } else {
        40
    };
    let ghost f = |p: (Seq<char>, Seq<char>)|
        "  "@ + padded(p.0, key_width(pairs) as int) + "  "@ + p.1;
    let ghost first = head@;
    let mut out: Lines = head;
    let mut j: usize = 0;
    assert(first + pairs.take(0).map_values(f) =~= first);
    while j < n
        invariant
            n == r.tags.pairs().len(),
            pairs == r.tags.pairs(),
            width == key_width(pairs),
            j <= n,
            f == (|p: (Seq<char>, Seq<char>)|
                "  "@ + padded(p.0, key_width(pairs) as int) + "  "@ + p.1),
            out@ == first + pairs.take(j as int).map_values(f),
        decreases n - j,
    {
        let (k, v) = r.tags.entry(j);
        let line: String = "  ".to_string().concat(pad(k, width).as_str()).concat("  ").concat(v);
        proof {
            assert(line@ == f(pairs[j as int]));
            assert(first + pairs.take(j + 1).map_values(f) =~= (first + pairs.take(
                j as int,
            ).map_values(f)).push(f(pairs[j as int])));
        }
        out = out.with(line);
        j += 1;
    }
    out.done()
}

/// A text that may be unset.
pub open spec fn or_unset(t: Option<Seq<char>>) -> Seq<char> {
    match t {
        Some(s) => s,
        None => "(unset)"@,
    }
}

/// The lines of `explain` about the contract.
pub open spec fn contract_text(c: ContractView) -> Seq<Seq<char>> {
    let managed = if c.managed_by_gasleak {
        "yes"@
    } else {
        "no"@
    };
    let expiry = match c.expires_at {
        Some(t) => t.shown(),
        None => "(unset)"@,
    };
    seq![
        ""@,
        "Contract view:"@,
        "  managed_by_gasleak : "@ + managed,
        "  owner              : "@ + or_unset(crate::model::option_text(c.owner)),
        "  owner_slack        : "@ + or_unset(crate::model::option_text(c.owner_slack)),
        "  expires_at         : "@ + expiry,
    ]
}

fn set_or_not(t: &Option<String>) -> (r: &str)
    ensures
        r@ == or_unset(crate::model::option_text(*t)),
{
    match t {
        Some(s) => s.as_str(),
        None => "(unset)",
    }
}

fn contract_lines(c: &ContractView) -> (out: Vec<String>)
    ensures
        strings(out@) == contract_text(*c),
{
    let managed: &str = if c.managed_by_gasleak {
        "yes"
    } else {
        "no"
    };
    let expiry: String = match c.expires_at {
        Some(t) => t.to_text(),
        None => "(unset)".to_string(),
    };
    Lines::new().text("").text("Contract view:").with(
        "  managed_by_gasleak : ".to_string().concat(managed),
    ).with("  owner              : ".to_string().concat(set_or_not(&c.owner))).with(
        "  owner_slack        : ".to_string().concat(set_or_not(&c.owner_slack)),
    ).with("  expires_at         : ".to_string().concat(expiry.as_str())).done()
}

/// The lines of `explain` about CPU load.
pub open spec fn cpu_text(cpu: Option<CpuSummary>, now: Timestamp) -> Seq<Seq<char>> {
    let days = match cpu {
        Some(c) => whole_days(c.window_secs as int),
        None => 0,
    };
    let head = seq![""@, "CPU ("@ + int_text(days) + "-day window):"@];
    if cpu is Some && cpu->0.samples > 0 {
        let c = cpu->0;
        head.push("  avg       : "@ + pct_text(c.avg_pct)).push(
            "  p95       : "@ + pct_text(c.p95_pct),
        ).push("  max       : "@ + pct_text(c.max_pct)).push(
            "  samples   : "@ + nat_text(c.samples as nat),
        ).push("  last_active : "@ + last_active_text(c, now))
    } else {
        head.push("  (no CloudWatch data)"@)
    }
}

fn cpu_lines(cpu: &Option<CpuSummary>, now: Timestamp) -> (out: Vec<String>)
    ensures
        strings(out@) == cpu_text(*cpu, now),
{
    let days: i64 = match cpu {
        Some(c) => count_days(c.window_secs),
        None => 0,
    };
    let head: Lines = Lines::new().text("").with(
        "CPU (".to_string().concat(signed(days).as_str()).concat("-day window):"),
    );
    if let Some(c) = cpu {
        if c.samples > 0 {
            return head.with(
                "  avg       : ".to_string().concat(format_pct(c.avg_pct).as_str()),
            ).with("  p95       : ".to_string().concat(format_pct(c.p95_pct).as_str())).with(
                "  max       : ".to_string().concat(format_pct(c.max_pct).as_str()),
            ).with("  samples   : ".to_string().concat(count(c.samples).as_str())).with(
                "  last_active : ".to_string().concat(format_last_active(c, now).as_str()),
            ).done();
        }
    }
    head.text("  (no CloudWatch data)").done()
}

/// The headings of the table of volumes.
pub open spec fn volume_headings() -> Seq<Seq<char>> {
    seq![
        "volume_id"@,
        "type"@,
        "size_gib"@,
        "iops"@,
        "mibps"@,
        "age"@,
        "capacity_usd"@,
        "iops_usd"@,
        "throughput_usd"@,
        "total_usd"@,
    ]
}

/// A number that may be missing.
pub open spec fn or_dash(n: Option<i32>) -> Seq<char> {
    match n {
        Some(i) => int_text(i as int),
        None => "-"@,
    }
}

/// A number that may be missing.
pub fn number_or_dash(n: Option<i32>) -> (r: String)
    ensures
        r@ == or_dash(n),
{
    match n {
        Some(i) => signed(i as i64),
        None => "-".to_string(),
    }
}

/// The cells of a volume.
pub open spec fn volume_cells(v: VolumeCost) -> Seq<Seq<char>> {
    seq![
        v.volume_id@,
        v.volume_type@,
        int_text(v.size_gib as int),
        or_dash(v.iops),
        or_dash(v.throughput_mibps),
        uptime_text(v.age_secs as int),
        usd_text(Some(v.capacity_usd)),
        usd_text(Some(v.iops_usd)),
        usd_text(Some(v.throughput_usd)),
        usd_text(Some(v.total_usd)),
    ]
}

fn volume_row(v: &VolumeCost) -> (out: Vec<String>)
    ensures
        strings(out@) == volume_cells(*v),
        out@.len() == 10,
{
    let mut out: Vec<String> = Vec::new();
    out.push(v.volume_id.clone());
    out.push(v.volume_type.clone());
    out.push(signed(v.size_gib as i64));
    out.push(number_or_dash(v.iops));
    out.push(number_or_dash(v.throughput_mibps));
    out.push(format_uptime(v.age_secs));
    out.push(format_usd(Some(v.capacity_usd)));
    out.push(format_usd(Some(v.iops_usd)));
    out.push(format_usd(Some(v.throughput_usd)));
    out.push(format_usd(Some(v.total_usd)));
    assert(strings(out@) =~= volume_cells(*v));
    out
}

fn volume_heads() -> (out: Vec<&'static str>)
    ensures
        slices(out@) == volume_headings(),
        out@.len() == 10,
{
    let mut out: Vec<&'static str> = Vec::new();
    out.push("volume_id");
    out.push("type");
    out.push("size_gib");
    out.push("iops");
    out.push("mibps");
    out.push("age");
    out.push("capacity_usd");
    out.push("iops_usd");
    out.push("throughput_usd");
    out.push("total_usd");
    assert(slices(out@) =~= volume_headings());
    out
}

/// The rows of the table of volumes, each with a note where its figure is
/// incomplete.
pub open spec fn volume_lines_text(volumes: Seq<VolumeCost>, widths: Seq<nat>) -> Seq<Seq<char>>
    decreases volumes.len(),
{
    if volumes.len() == 0 {
        Seq::empty()
    } else {
        let v = volumes.last();
        let front = volume_lines_text(volumes.drop_last(), widths).push(
            row_text("  "@, volume_cells(v), widths),
        );
        match v.excluded_reason {
            Some(reason) => front.push("    note: "@ + reason@),
            None => front,
        }
    }
}

/// The lines of `explain` about storage.
pub open spec fn storage_text(breakdown: Option<CostBreakdown>) -> Seq<Seq<char>> {
    match breakdown {
        None => seq![
            ""@,
            "Storage: (DescribeVolumes unavailable; cost_usd shows compute only)"@,
        ],
        Some(bd) => if bd.volumes@.len() == 0 {
            seq![
                ""@,
                "Storage: no attached volumes. Compute cost $"@ + two_decimals_text(bd.compute_usd)
                    + "."@,
            ]
        } else {
            let cells = bd.volumes@.map_values(|v: VolumeCost| volume_cells(v));
            let widths = column_widths(volume_headings(), cells);
            (seq![
                ""@,
                "Storage ($"@ + two_decimals_text(bd.storage_usd)
                    + " since volume CreateTime; run rate $"@ + two_decimals_text(
                    bd.storage_run_rate_usd_per_month,
                ) + "/mo):"@,
                row_text("  "@, volume_headings(), widths),
                separator_text("  "@, widths),
            ] + volume_lines_text(bd.volumes@, widths)).push(
                "  compute $"@ + two_decimals_text(bd.compute_usd) + " + storage $"@
                    + two_decimals_text(bd.storage_usd) + " = cost_usd $"@ + two_decimals_text(
                    bd.compute_usd.sum(bd.storage_usd),
                ),
            )
        },
    }
}

fn storage_lines(breakdown: &Option<CostBreakdown>) -> (out: Vec<String>)
    ensures
        strings(out@) == storage_text(*breakdown),
{
    let bd: &CostBreakdown = match breakdown {
        Some(bd) => bd,
        None => {
            return Lines::new().text("").text(
                "Storage: (DescribeVolumes unavailable; cost_usd shows compute only)",
            ).done();
        },
    };
    let n: usize = bd.volumes.len();
    if n == 0 {
        return Lines::new().text("").with(
            "Storage: no attached volumes. Compute cost $".to_string().concat(
                two_decimals(bd.compute_usd).as_str(),
            ).concat("."),
        ).done();
    }
    let heads: Vec<&'static str> = volume_heads();
    let mut rows: Vec<Vec<String>> = Vec::new();
    let mut i: usize = 0;
    while i < n
        invariant
            n == bd.volumes@.len(),
            i <= n,
            rows@.len() == i,
            forall|k: int|
                0 <= k < i ==> (#[trigger] rows@[k])@.len() == 10 && strings(rows@[k]@)
                    == volume_cells(bd.volumes@[k]),
        decreases n - i,
    {
        rows.push(volume_row(&bd.volumes[i]));
        i += 1;
    }
    let widths: Vec<usize> = measure(&heads, &rows);
    let ghost wide = width_views(widths@);
    proof {
        assert(row_views(rows@) =~= bd.volumes@.map_values(|v: VolumeCost| volume_cells(v)));
        assert(wide.len() == widths@.len());
        assert(wide == column_widths(
            volume_headings(),
            bd.volumes@.map_values(|v: VolumeCost| volume_cells(v)),
        ));
    }
    let head: Lines = Lines::new().text("").with(
        "Storage ($".to_string().concat(two_decimals(bd.storage_usd).as_str()).concat(
            " since volume CreateTime; run rate $",
        ).concat(two_decimals(bd.storage_run_rate_usd_per_month).as_str()).concat("/mo):"),
    ).with(write_headings("  ", &heads, &widths)).with(write_separator("  ", &widths));
    let ghost first = head@;
    let mut out: Lines = head;
    let mut j: usize = 0;
    assert(first + volume_lines_text(bd.volumes@.take(0), wide) =~= first);
    while j < n
        invariant
            n == bd.volumes@.len() == rows@.len(),
            j <= n,
            wide == width_views(widths@),
            widths@.len() == 10,
            forall|k: int|
                0 <= k < n ==> (#[trigger] rows@[k])@.len() == 10 && strings(rows@[k]@)
                    == volume_cells(bd.volumes@[k]),
            out@ == first + volume_lines_text(bd.volumes@.take(j as int), wide),
        decreases n - j,
    {
        let ghost front = volume_lines_text(bd.volumes@.take(j as int), wide);
        proof {
            assert(bd.volumes@.take(j + 1).drop_last() =~= bd.volumes@.take(j as int));
            assert(bd.volumes@.take(j + 1).last() == bd.volumes@[j as int]);
        }
        let row: String = write_row("  ", &rows[j], &widths);
        out = out.with(row);
        assert(out@ =~= first + front.push(row@));
        if let Some(reason) = bd.volumes[j].excluded_reason {
            let note: String = "    note: ".to_string().concat(reason);
            out = out.with(note);
            assert(out@ =~= first + front.push(row@).push(note@));
        }
        j += 1;
    }
    assert(bd.volumes@.take(n as int) =~= bd.volumes@);
    out.with(
        "  compute $".to_string().concat(two_decimals(bd.compute_usd).as_str()).concat(
            " + storage $",
        ).concat(two_decimals(bd.storage_usd).as_str()).concat(" = cost_usd $").concat(
            two_decimals(bd.compute_usd.plus(bd.storage_usd)).as_str(),
        ),
    ).done()
}

/// The longest rule name, in bytes.
pub open spec fn longest_rule(
    trace: Seq<(Seq<char>, Result<VerdictView, SkipReason>)>,
) -> nat
    decreases trace.len(),
{
    if trace.len() == 0 {
        0
    } else {
        wider(longest_rule(trace.drop_last()), byte_length(trace.last().0))
    }
}

/// What one rule made of the instance.
pub open spec fn rule_line(entry: (Seq<char>, Result<VerdictView, SkipReason>), width: nat) -> Seq<
    char,
> {
    match entry.1 {
        Ok(v) => "  "@ + padded(entry.0, width as int) + "  fired   "@ + verdict_text(v),
        Err(reason) => "  "@ + padded(entry.0, width as int) + "  skipped "@ + reason.name(),
    }
}

/// The lines of `explain` about the rules.
pub open spec fn rules_text(trace: Seq<(Seq<char>, Result<VerdictView, SkipReason>)>) -> Seq<
    Seq<char>,
> {
    seq![""@, "Rule evaluation:"@] + trace.map_values(
        |t: (Seq<char>, Result<VerdictView, SkipReason>)| rule_line(t, longest_rule(trace)),
    )
}

fn rules_lines(trace: &[RuleTrace]) -> (out: Vec<String>)
    ensures
        strings(out@) == rules_text(trace_views(trace@)),
{
    let n: usize = trace.len();
    let ghost all = trace_views(trace@);
    let mut width: usize = 0;
    let mut i: usize = 0;
    while i < n
        invariant
            n == trace@.len(),
            i <= n,
            all == trace_views(trace@),
            width == longest_rule(all.take(i as int)),
        decreases n - i,
    {
        proof {
            assert(all.take(i + 1).drop_last() =~= all.take(i as int));
            assert(all.take(i + 1).last() == trace@[i as int]@);
        }
        let length: usize = count_bytes(trace[i].rule);
        if length > width {
            width = length;
        }
        i += 1;
    }
    assert(all.take(n as int) =~= all);
    let ghost f = |t: (Seq<char>, Result<VerdictView, SkipReason>)|
        rule_line(t, longest_rule(all));
    let mut out: Lines = Lines::new().text("").text("Rule evaluation:");
    let ghost first = out@;
    let mut j: usize = 0;
    assert(first + all.take(0).map_values(f) =~= first);
    while j < n
        invariant
            n == trace@.len(),
            j <= n,
            all == trace_views(trace@),
            width == longest_rule(all),
            f == (|t: (Seq<char>, Result<VerdictView, SkipReason>)|
                rule_line(t, longest_rule(all))),
            out@ == first + all.take(j as int).map_values(f),
        decreases n - j,
    {
        let entry: &RuleTrace = &trace[j];
        let head: String = "  ".to_string().concat(pad(entry.rule, width).as_str());
        let line: String = match &entry.result {
            Ok(v) => head.concat("  fired   ").concat(format_verdict(v).as_str()),
            Err(reason) => head.concat("  skipped ").concat(reason.as_str()),
        };
        proof {
            assert(all[j as int] == entry@);
            assert(line@ == f(all[j as int]));
            assert(first + all.take(j + 1).map_values(f) =~= (first + all.take(j as int).map_values(
                f,
            )).push(f(all[j as int])));
        }
        out = out.with(line);
        j += 1;
    }
    assert(all.take(n as int) =~= all);
    out.done()
}

/// The last lines of `explain`.
pub open spec fn summary_text(verdicts: Seq<VerdictView>) -> Seq<Seq<char>> {
    let yes = if flagged(verdicts) {
        "yes"@
    } else {
        "no"@
    };
    seq![
        ""@,
        "Summary: "@ + nat_text(verdicts.len()) + " verdict(s) fired, worst severity: "@
            + severity_text(worst(verdicts), "none"@) + ", flagged: "@ + yes,
    ]
}

fn summary_lines(trace: &[RuleTrace]) -> (out: Vec<String>)
    ensures
        strings(out@) == summary_text(fired_in(trace_views(trace@))),
{
    let fired: Vec<&Verdict> = fired_verdicts(trace);
    let ghost all = fired_in(trace_views(trace@));
    let n: usize = fired.len();
    let mut worst_seen: Option<Severity> = None;
    let mut any: bool = false;
    let mut i: usize = 0;
    assert(all.len() == fired@.len());
    while i < n
        invariant
            n == fired@.len() == all.len(),
            i <= n,
            fired@.map_values(|v: &Verdict| v@) == all,
            worst_seen == worst(all.take(i as int)),
            any == exists|k: int| 0 <= k < i && !(#[trigger] all[k] is Managed),
        decreases n - i,
    {
        proof {
            assert(all[i as int] == fired@.map_values(|v: &Verdict| v@)[i as int]);
            assert(all.take(i + 1).drop_last() =~= all.take(i as int));
            assert(all.take(i + 1).last() == fired@[i as int]@);
        }
        let v: &Verdict = fired[i];
        worst_seen = Some(worse_of(worst_seen, v.severity()));
        if !matches!(v, Verdict::Managed { .. }) {
            assert(!(all[i as int] is Managed));
            any = true;
        }
        i += 1;
    }
    assert(all.take(n as int) =~= all);
    let yes: &str = if any {
        "yes"
    } else {
        "no"
    };
    Lines::new().text("").with(
        "Summary: ".to_string().concat(count(n).as_str()).concat(
            " verdict(s) fired, worst severity: ",
        ).concat(severity_label(worst_seen, "none")).concat(", flagged: ").concat(yes),
    ).done()
}

/// The lines of `explain`.
pub open spec fn explain_text(
    r: InstanceRecord,
    c: ContractView,
    trace: Seq<(Seq<char>, Result<VerdictView, SkipReason>)>,
    now: Timestamp,
) -> Seq<Seq<char>> {
    instance_text(r) + tags_text(r.tags.pairs()) + contract_text(c) + cpu_text(r.cpu, now)
        + storage_text(r.cost_breakdown) + rules_text(trace) + summary_text(fired_in(trace))
}

/// The lines of `explain`.
pub fn explain_lines(
    record: &InstanceRecord,
    contract: &ContractView,
    rule_trace: &[RuleTrace],
    now: Timestamp,
) -> (out: Vec<String>)
    ensures
        strings(out@) == explain_text(*record, *contract, trace_views(rule_trace@), now),
{
    instance_lines(record).and(tags_lines(record)).and(contract_lines(contract)).and(
        cpu_lines(&record.cpu, now),
    ).and(storage_lines(&record.cost_breakdown)).and(rules_lines(rule_trace)).and(
        summary_lines(rule_trace),
    ).done()
}

/// The rows of the JSON output of `stale` are those of the table.
pub proof fn json_rows_match_the_table(rows: Seq<Evaluated>, now: Timestamp)
    ensures
        flagged_cells(rows, now) == crate::json::flagged_rows(rows).map_values(
            |e: Evaluated| stale_cells(e, now),
        ),
    decreases rows.len(),
{
    let f = |e: Evaluated| stale_cells(e, now);
    if rows.len() == 0 {
        assert(flagged_cells(rows, now) =~= crate::json::flagged_rows(rows).map_values(f));
    } else {
        json_rows_match_the_table(rows.drop_last(), now);
        assert(flagged_cells(rows, now) =~= crate::json::flagged_rows(rows).map_values(f));
    }
}

} // verus!
