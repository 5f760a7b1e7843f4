//! Block Kit render layer. Renderers return JSON values.
//!
//! Layout:
//! - [`render_stale`] / [`render_list`] / [`render_explain`] are the public
//!   per-subcommand entry points.
//! - Builders (`*_block`, `*_attachment`) assemble Block Kit primitives in a
//!   deliberate visual order: header → money → scan context → per-severity
//!   attachments → footer.

use vstd::prelude::*;

use crate::contract::ContractView;
use crate::decimal::{one_decimal, one_decimal_text, two_decimals, two_decimals_text};
use crate::double::Double;
use crate::format::{dollars_option_text, format_dollars_option, usd_compact, usd_compact_text};
use crate::json::flagged_rows;
use crate::model::{option_text, BurnRate, CostBreakdown, InstanceRecord, VolumeCost};
use crate::order::{sorted, stable_sort, Order, WeakOrder};
use crate::report::{number_or_dash, or_dash};
use crate::run::{cost_rank, costs_more, Evaluated};
use crate::slack::SlackRuntimeConfig;
use crate::staleness::{
    fired_in, fired_verdicts, flagged, is_flagged, trace_views, verdict_views, worse, worse_of,
    worst, worst_severity, RuleTrace, Severity, SkipReason, Verdict, VerdictView,
};
use crate::table::{byte_length, count_bytes};
use crate::text::{
    chars_of, count, int_text, join, join_slices, joined, magnitude, nat_text, signed, slices,
    strings, text_of, unsigned,
};
use crate::timestamp::Timestamp;
use crate::value::{Items, Json, JsonView, Members};

verus! {

/// Hard ceiling on full row blocks per render call. Slack's per-message limit
/// is 50 blocks; this leaves headroom for headers/summaries/footers. If
/// High+Medium alone exceed this, the first of them are rendered and the
/// overflow surfaces in a banner rather than being silently truncated.
pub const MAX_ROW_BLOCKS: usize = 40;

/// Upper bound on a single mrkdwn section text. Slack's hard limit is 3000
/// chars; this keeps a comfortable buffer for the Low-severity rollup.
pub const TEXT_FIELD_LIMIT: usize = 2500;

/// Rows that `list` shows.
pub const TOP_ROWS: usize = 5;

// ───────────────────────── Text helpers ─────────────────────────

/// A text cut to a number of characters, the last of them an ellipsis where
/// something was cut.
pub open spec fn truncated(s: Seq<char>, max: int) -> Seq<char> {
    if s.len() <= max {
        s
    } else {
        s.take(
            if max > 0 {
                max - 1
            } else {
                0
            },
        ).push('…')
    }
}

pub fn truncate(s: &str, max: usize) -> (r: String)
    ensures
        r@ == truncated(s@, max as int),
{
    let chars: Vec<char> = chars_of(s);
    if chars.len() <= max {
        return s.to_string();
    }
    let keep: usize = if max > 0 {
        max - 1
    } else {
        0
    };
    let mut out: String = text_of(&chars, 0, keep);
    assert(s@.subrange(0, keep as int) =~= s@.take(keep as int));
    out.push('…');
    out
}

/// A cut text has no more characters than allowed.
pub proof fn truncation_respects_the_limit(s: Seq<char>, max: int)
    requires
        max > 0,
    ensures
        truncated(s, max).len() <= max,
        s.len() <= max ==> truncated(s, max) == s,
{
}

/// The regions in a few words.
pub open spec fn regions_text(regions: Seq<Seq<char>>) -> Seq<char> {
    if regions.len() == 0 {
        "unknown"@
    } else if regions.len() == 1 {
        regions[0]
    } else if regions.len() <= 3 {
        joined(regions, ", "@)
    } else {
        nat_text(regions.len()) + " regions"@
    }
}

pub fn regions_label(regions: &[&str]) -> (r: String)
    ensures
        r@ == regions_text(slices(regions@)),
{
    let n: usize = regions.len();
    if n == 0 {
        "unknown".to_string()
    } else if n == 1 {
        regions[0].to_string()
    } else if n <= 3 {
        join_slices(regions, ", ")
    } else {
        count(n).concat(" regions")
    }
}

/// The sign of a severity.
pub open spec fn emoji_text(s: Severity) -> Seq<char> {
    match s {
        Severity::High => "🚨"@,
        Severity::Medium => "🔶"@,
        Severity::Low => "🟡"@,
        Severity::Info => "🟢"@,
    }
}

pub fn severity_emoji(s: Severity) -> (r: &'static str)
    ensures
        r@ == emoji_text(s),
{
    match s {
        Severity::High => "🚨",
        Severity::Medium => "🔶",
        Severity::Low => "🟡",
        Severity::Info => "🟢",
    }
}

/// The color of a severity.
pub open spec fn color_text(s: Severity) -> Seq<char> {
    match s {
        Severity::High => "#c91517"@,
        Severity::Medium => "#d69e2e"@,
        Severity::Low => "#ecc94b"@,
        Severity::Info => "#3182ce"@,
    }
}

pub fn severity_color(s: Severity) -> (r: &'static str)
    ensures
        r@ == color_text(s),
{
    match s {
        Severity::High => "#c91517",
        Severity::Medium => "#d69e2e",
        Severity::Low => "#ecc94b",
        Severity::Info => "#3182ce",
    }
}

/// A duration, whatever its sign, in its largest unit.
pub open spec fn short_duration_text(secs: int) -> Seq<char> {
    let abs = (if secs < 0 {
        -secs
    } else {
        secs
    }) as nat;
    let d = abs / 86_400;
    let h = (abs % 86_400) / 3_600;
    if d > 0 {
        nat_text(d) + "d"@
    } else if h > 0 {
        nat_text(h) + "h"@
    } else {
        nat_text((abs % 3_600) / 60) + "m"@
    }
}

pub fn format_short_duration(secs: i64) -> (r: String)
    ensures
        r@ == short_duration_text(secs as int),
{
    let abs: u64 = magnitude(secs);
    let d: u64 = abs / 86_400;
    let h: u64 = (abs % 86_400) / 3_600;
    if d > 0 {
        unsigned(d).concat("d")
    } else if h > 0 {
        unsigned(h).concat("h")
    } else {
        unsigned((abs % 3_600) / 60).concat("m")
    }
}

/// A verdict in a few words.
pub open spec fn reason_text(v: VerdictView) -> Seq<char> {
    match v {
        VerdictView::Managed { controller } => "🤖 managed("@ + controller + ")"@,
        VerdictView::Expired { overdue_secs, .. } => "🛑 expired "@ + short_duration_text(
            overdue_secs,
        ) + " ago"@,
        VerdictView::ExpiringSoon { within_secs, .. } => "⏰ expiring in "@ + short_duration_text(
            within_secs,
        ),
        VerdictView::Idle { p95_pct, .. } => "💤 idle (p95 "@ + one_decimal_text(p95_pct) + "%)"@,
        VerdictView::Inactive { idle_for_secs, .. } => match idle_for_secs {
            Some(s) => "⏸ inactive "@ + short_duration_text(s as int),
            None => "⏸ inactive (no activity in window)"@,
        },
        VerdictView::LongLived { age_secs } => "🕰 long-lived ("@ + short_duration_text(age_secs)
            + ")"@,
        VerdictView::Underutilized { p95_pct, .. } => "📉 underutilized (p95 "@ + one_decimal_text(
            p95_pct,
        ) + "%)"@,
        VerdictView::NonCompliant { tampered, .. } => if tampered {
            "🏷 non-compliant (tampered)"@
        } else {
            "🏷 non-compliant"@
        },
    }
}

pub fn format_reason_tag(v: &Verdict) -> (r: String)
    ensures
        r@ == reason_text(v@),
{
    match v {
        Verdict::Managed { controller } => "🤖 managed(".to_string().concat(controller).concat(")"),
        Verdict::Expired { overdue_secs, .. } => "🛑 expired ".to_string().concat(
            format_short_duration(*overdue_secs).as_str(),
        ).concat(" ago"),
        Verdict::ExpiringSoon { within_secs, .. } => "⏰ expiring in ".to_string().concat(
            format_short_duration(*within_secs).as_str(),
        ),
        Verdict::Idle { p95_pct, .. } => "💤 idle (p95 ".to_string().concat(
            one_decimal(*p95_pct).as_str(),
        ).concat("%)"),
        Verdict::Inactive { idle_for_secs, .. } => match idle_for_secs {
            Some(s) => "⏸ inactive ".to_string().concat(format_short_duration(*s).as_str()),
            None => "⏸ inactive (no activity in window)".to_string(),
        },
        Verdict::LongLived { age_secs } => "🕰 long-lived (".to_string().concat(
            format_short_duration(*age_secs).as_str(),
        ).concat(")"),
        Verdict::Underutilized { p95_pct, .. } => "📉 underutilized (p95 ".to_string().concat(
            one_decimal(*p95_pct).as_str(),
        ).concat("%)"),
        Verdict::NonCompliant { tampered, .. } => if *tampered {
            "🏷 non-compliant (tampered)".to_string()
        } else {
            "🏷 non-compliant".to_string()
        },
    }
}

/// The owner of an instance. A handle as it stands is linked by Slack; one in
/// code format is not.
pub open spec fn owner_text(r: InstanceRecord, c: ContractView, mention: bool) -> Seq<char> {
    match c.owner_slack {
        Some(handle) => if mention {
            handle@
        } else {
            "`"@ + handle@ + "`"@
        },
        None => if r.launched_by is Some && r.launched_by->0@.len() > 0 {
            "`"@ + r.launched_by->0@ + "`"@
        } else {
            "unknown"@
        },
    }
}

pub fn owner_label(record: &InstanceRecord, contract: &ContractView, should_mention: bool) -> (r:
    String)
    ensures
        r@ == owner_text(*record, *contract, should_mention),
{
    if let Some(handle) = &contract.owner_slack {
        return if should_mention {
            handle.clone()
        } else {
            "`".to_string().concat(handle.as_str()).concat("`")
        };
    }
    if let Some(who) = &record.launched_by {
        if who.as_str().unicode_len() > 0 {
            return "`".to_string().concat(who.as_str()).concat("`");
        }
    }
    "unknown".to_string()
}

// ───────────────────────── Block primitives ─────────────────────────

/// A formatted text.
pub open spec fn mrkdwn(text: Seq<char>) -> JsonView {
    JsonView::Object(
        Seq::empty().push(("type"@, JsonView::Text("mrkdwn"@))).push(("text"@, JsonView::Text(text))),
    )
}

fn mrkdwn_json(text: &str) -> (r: Json)
    ensures
        r@ == mrkdwn(text@),
{
    Members::new().text("type", "mrkdwn").text("text", text).done()
}

/// A section with a text.
pub open spec fn section(text: Seq<char>) -> JsonView {
    JsonView::Object(
        Seq::empty().push(("type"@, JsonView::Text("section"@))).push(("text"@, mrkdwn(text))),
    )
}

fn section_json(text: &str) -> (r: Json)
    ensures
        r@ == section(text@),
{
    Members::new().text("type", "section").with("text", mrkdwn_json(text)).done()
}

/// A section with a text and a button that leads to the instance.
pub open spec fn section_with_button(
    text: Seq<char>,
    region: Seq<char>,
    instance_id: Seq<char>,
) -> JsonView {
    JsonView::Object(
        Seq::empty()
            .push(("type"@, JsonView::Text("section"@)))
            .push(("text"@, mrkdwn(text)))
            .push(("accessory"@, console_button(region, instance_id))),
    )
}

fn section_with_button_json(text: &str, record: &InstanceRecord) -> (r: Json)
    ensures
        r@ == section_with_button(text@, record.region@, record.instance_id@),
{
    Members::new().text("type", "section").with("text", mrkdwn_json(text)).with(
        "accessory",
        aws_console_button(record.region.as_str(), record.instance_id.as_str()),
    ).done()
}

/// A button that leads to the instance in the AWS console.
pub open spec fn console_button(region: Seq<char>, instance_id: Seq<char>) -> JsonView {
    JsonView::Object(
        Seq::empty()
            .push(("type"@, JsonView::Text("button"@)))
            .push((
                "text"@,
                JsonView::Object(
                    Seq::empty().push(("type"@, JsonView::Text("plain_text"@))).push(
                        ("text"@, JsonView::Text("AWS Console"@)),
                    ),
                ),
            ))
            .push((
                "url"@,
                JsonView::Text(
                    "https://console.aws.amazon.com/ec2/v2/home?region="@ + region
                        + "#InstanceDetails:instanceId="@ + instance_id,
                ),
            )),
    )
}

pub fn aws_console_button(region: &str, instance_id: &str) -> (r: Json)
    ensures
        r@ == console_button(region@, instance_id@),
{
    let url: String = "https://console.aws.amazon.com/ec2/v2/home?region=".to_string().concat(
        region,
    ).concat("#InstanceDetails:instanceId=").concat(instance_id);
    let label: Json = Members::new().text("type", "plain_text").text("text", "AWS Console").done();
    Members::new().text("type", "button").with("text", label).text("url", url.as_str()).done()
}

/// The heading of a message. Plain-text headings have at most 150 characters.
pub open spec fn header(text: Seq<char>) -> JsonView {
    JsonView::Object(
        Seq::empty()
            .push(("type"@, JsonView::Text("header"@)))
            .push((
                "text"@,
                JsonView::Object(
                    Seq::empty()
                        .push(("type"@, JsonView::Text("plain_text"@)))
                        .push(("text"@, JsonView::Text(truncated(text, 150))))
                        .push(("emoji"@, JsonView::Bool(true))),
                ),
            )),
    )
}

fn header_block(text: &str) -> (r: Json)
    ensures
        r@ == header(text@),
{
    let label: Json = Members::new().text("type", "plain_text").text(
        "text",
        truncate(text, 150).as_str(),
    ).with("emoji", Json::Bool(true)).done();
    Members::new().text("type", "header").with("text", label).done()
}

/// A smaller heading inside an attachment.
pub open spec fn label(text: Seq<char>) -> JsonView {
    section("*"@ + text + "*"@)
}

fn header_label_block(text: &str) -> (r: Json)
    ensures
        r@ == label(text@),
{
    section_json("*".to_string().concat(text).concat("*").as_str())
}

/// A single button that leads to a URL.
pub open spec fn actions(url: Seq<char>, label: Seq<char>) -> JsonView {
    JsonView::Object(
        Seq::empty()
            .push(("type"@, JsonView::Text("actions"@)))
            .push((
                "elements"@,
                JsonView::List(
                    seq![
                        JsonView::Object(
                            Seq::empty()
                                .push(("type"@, JsonView::Text("button"@)))
                                .push((
                                    "text"@,
                                    JsonView::Object(
                                        Seq::empty().push(
                                            ("type"@, JsonView::Text("plain_text"@)),
                                        ).push(("text"@, JsonView::Text(truncated(label, 75)))),
                                    ),
                                ))
                                .push(("url"@, JsonView::Text(url))),
                        ),
                    ],
                ),
            )),
    )
}

fn actions_block_single(url: &str, label: &str) -> (r: Json)
    ensures
        r@ == actions(url@, label@),
{
    let text: Json = Members::new().text("type", "plain_text").text(
        "text",
        truncate(label, 75).as_str(),
    ).done();
    let button: Json = Members::new().text("type", "button").with("text", text).text(
        "url",
        url,
    ).done();
    Members::new().text("type", "actions").with(
        "elements",
        Items::new().with(button).done(),
    ).done()
}

/// A line of context.
pub open spec fn context(text: Seq<char>) -> JsonView {
    JsonView::Object(
        Seq::empty()
            .push(("type"@, JsonView::Text("context"@)))
            .push((
                "elements"@,
                JsonView::List(seq![mrkdwn(truncated(text, TEXT_FIELD_LIMIT as int))]),
            )),
    )
}

fn context_block(text: &str) -> (r: Json)
    ensures
        r@ == context(text@),
{
    Members::new().text("type", "context").with(
        "elements",
        Items::new().with(mrkdwn_json(truncate(text, TEXT_FIELD_LIMIT).as_str())).done(),
    ).done()
}

/// Blocks beside a colored bar.
pub open spec fn attachment(color: Seq<char>, blocks: Seq<JsonView>) -> JsonView {
    JsonView::Object(
        Seq::empty().push(("color"@, JsonView::Text(color))).push(
            ("blocks"@, JsonView::List(blocks)),
        ),
    )
}

fn attachment_json(color: &str, blocks: Items) -> (r: Json)
    ensures
        r@ == attachment(color@, blocks@),
{
    Members::new().text("color", color).with("blocks", blocks.done()).done()
}

/// A message: the text for notifications, blocks, attachments.
pub open spec fn message(
    text: Seq<char>,
    blocks: Seq<JsonView>,
    attachments: Seq<JsonView>,
) -> JsonView {
    JsonView::Object(
        Seq::empty()
            .push(("text"@, JsonView::Text(text)))
            .push(("blocks"@, JsonView::List(blocks)))
            .push(("attachments"@, JsonView::List(attachments))),
    )
}

fn message_json(text: &str, blocks: Items, attachments: Items) -> (r: Json)
    ensures
        r@ == message(text@, blocks@, attachments@),
{
    Members::new().text("text", text).with("blocks", blocks.done()).with(
        "attachments",
        attachments.done(),
    ).done()
}

/// `s` where there is not exactly one.
pub open spec fn plural(n: int) -> Seq<char> {
    if n == 1 {
        ""@
    } else {
        "s"@
    }
}

fn plural_of(n: usize) -> (r: &'static str)
    ensures
        r@ == plural(n as int),
{
    if n == 1 {
        ""
    } else {
        "s"
    }
}

/// Version, regions, time of the scan and its size. Slack shows the time
/// relative to the reader.
pub open spec fn footer_text(regions: Seq<Seq<char>>, scanned: nat, now: Timestamp) -> Seq<char> {
    "v0.1.0 · "@ + regions_text(regions) + " · scanned <!date^"@ + int_text(now.seconds() as int)
        + "^{date_short_pretty} at {time}|"@ + int_text(now.seconds() as int) + "> · "@ + nat_text(
        scanned,
    ) + " instance"@ + plural(scanned as int)
}

/// The last attachment of a message.
pub open spec fn footer(
    regions: Seq<Seq<char>>,
    scanned: nat,
    now: Timestamp,
    color: Seq<char>,
) -> JsonView {
    attachment(color, seq![context(footer_text(regions, scanned, now))])
}

fn footer_attachment(regions: &[&str], scanned: usize, now: Timestamp, color: &str) -> (r: Json)
    ensures
        r@ == footer(slices(regions@), scanned as nat, now, color@),
{
    let ts: String = signed(now.as_second());
    let text: String = "v0.1.0 · ".to_string().concat(regions_label(regions).as_str()).concat(
        " · scanned <!date^",
    ).concat(ts.as_str()).concat("^{date_short_pretty} at {time}|").concat(ts.as_str()).concat(
        "> · ",
    ).concat(count(scanned).as_str()).concat(" instance").concat(plural_of(scanned));
    attachment_json(color, Items::new().with(context_block(text.as_str())))
}

/// The color of the footer where something was found.
pub open spec fn neutral_color() -> Seq<char> {
    "#a0aec0"@
}

// ───────────────────── Per-severity bucketing ─────────────────────

/// Rows from the most to the least expensive.
pub struct CostlierRow;

impl<'a> Order<&'a Evaluated> for CostlierRow {
    open spec fn before(a: &'a Evaluated, b: &'a Evaluated) -> bool {
        cost_rank(a.0) > cost_rank(b.0)
    }

    fn less(a: &&'a Evaluated, b: &&'a Evaluated) -> (r: bool) {
        costs_more(&a.0, &b.0)
    }
}

impl<'a> WeakOrder<&'a Evaluated> for CostlierRow {
    proof fn asymmetric(a: &'a Evaluated, b: &'a Evaluated) {
    }

    proof fn transitive(a: &'a Evaluated, b: &'a Evaluated, c: &'a Evaluated) {
    }
}

/// The worst severity of a row.
pub open spec fn row_severity(e: &Evaluated) -> Severity {
    match worst(verdict_views(e.2@)) {
        Some(s) => s,
        None => Severity::Info,
    }
}

fn severity_of(e: &Evaluated) -> (r: Severity)
    ensures
        r == row_severity(e),
{
    match worst_severity(e.2.as_slice()) {
        Some(s) => s,
        None => Severity::Info,
    }
}

/// The rows of one severity.
pub open spec fn of_severity(rows: Seq<&Evaluated>, s: Severity) -> Seq<&Evaluated>
    decreases rows.len(),
{
    if rows.len() == 0 {
        Seq::empty()
    } else if row_severity(rows.last()) == s {
        of_severity(rows.drop_last(), s).push(rows.last())
    } else {
        of_severity(rows.drop_last(), s)
    }
}

/// The rows of one severity, the most expensive first.
pub open spec fn ranked(rows: Seq<&Evaluated>, s: Severity) -> Seq<&Evaluated> {
    sorted::<&Evaluated, CostlierRow>(of_severity(rows, s))
}

fn rank_rows<'a>(rows: &[&'a Evaluated], s: Severity) -> (out: Vec<&'a Evaluated>)
    ensures
        out@ == ranked(rows@, s),
{
    let n: usize = rows.len();
    let mut list: Vec<&'a Evaluated> = Vec::new();
    let mut i: usize = 0;
    while i < n
        invariant
            n == rows@.len(),
            i <= n,
            list@ == of_severity(rows@.take(i as int), s),
        decreases n - i,
    {
        proof {
            assert(rows@.take(i + 1).drop_last() =~= rows@.take(i as int));
            assert(rows@.take(i + 1).last() == rows@[i as int]);
        }
        if severity_of(rows[i]) == s {
            list.push(rows[i]);
        }
        i += 1;
    }
    assert(rows@.take(n as int) =~= rows@);
    stable_sort::<&'a Evaluated, CostlierRow>(list)
}

/// The smaller of two numbers.
pub open spec fn min(a: int, b: int) -> int {
    if a <= b {
        a
    } else {
        b
    }
}

/// The High rows that are shown in full.
pub open spec fn full_high(rows: Seq<&Evaluated>) -> int {
    min(ranked(rows, Severity::High).len() as int, MAX_ROW_BLOCKS as int)
}

/// The Medium rows that are shown in full.
pub open spec fn full_medium(rows: Seq<&Evaluated>) -> int {
    min(ranked(rows, Severity::Medium).len() as int, MAX_ROW_BLOCKS - full_high(rows))
}

/// The Low rows that are shown in full.
pub open spec fn full_low(rows: Seq<&Evaluated>, max_low_rows: int) -> int {
    min(
        ranked(rows, Severity::Low).len() as int,
        min(max_low_rows, MAX_ROW_BLOCKS - full_high(rows) - full_medium(rows)),
    )
}

/// The urgent rows for which there is no room.
pub open spec fn suppressed(rows: Seq<&Evaluated>) -> int {
    ranked(rows, Severity::High).len() - full_high(rows) + ranked(rows, Severity::Medium).len()
        - full_medium(rows)
}

/// The rows of each severity: those shown in full and, for Low, those that
/// are rolled up.
pub struct Buckets<'a> {
    pub high: Vec<&'a Evaluated>,
    pub medium: Vec<&'a Evaluated>,
    pub low: Vec<&'a Evaluated>,
    pub low_rest: Vec<&'a Evaluated>,
    /// Urgent rows for which there is no room.
    pub suppressed: usize,
}

fn take_rows<'a>(rows: &[&'a Evaluated], from: usize, to: usize) -> (out: Vec<&'a Evaluated>)
    requires
        from <= to <= rows@.len(),
    ensures
        out@ == rows@.subrange(from as int, to as int),
{
    let mut out: Vec<&'a Evaluated> = Vec::new();
    let mut i: usize = from;
    while i < to
        invariant
            from <= i <= to <= rows@.len(),
            out@ == rows@.subrange(from as int, i as int),
        decreases to - i,
    {
        out.push(rows[i]);
        assert(rows@.subrange(from as int, i + 1) =~= rows@.subrange(from as int, i as int).push(
            rows@[i as int],
        ));
        i += 1;
    }
    out
}

/// The rows of one severity are no more than there are rows.
proof fn lemma_ranked_len(rows: Seq<&Evaluated>, s: Severity, t: Severity)
    ensures
        ranked(rows, s).len() == of_severity(rows, s).len(),
        s != t ==> of_severity(rows, s).len() + of_severity(rows, t).len() <= rows.len(),
    decreases rows.len(),
{
    crate::order::sorting_keeps_elements::<&Evaluated, CostlierRow>(of_severity(rows, s));
    if rows.len() > 0 {
        lemma_ranked_len(rows.drop_last(), s, t);
    }
}

/// Partition flagged rows by severity.
///
/// - High/Medium are shown in full as long as there is room.
/// - Low respects `max_low_rows`; overflow is rolled up.
/// - Across severities, full rows never exceed [`MAX_ROW_BLOCKS`]. Surplus
///   urgent rows are counted.
pub fn bucket_by_severity<'a>(rows: &[&'a Evaluated], max_low_rows: usize) -> (r: Buckets<'a>)
    ensures
        r.high@ == ranked(rows@, Severity::High).take(full_high(rows@)),
        r.medium@ == ranked(rows@, Severity::Medium).take(full_medium(rows@)),
        r.low@ == ranked(rows@, Severity::Low).take(full_low(rows@, max_low_rows as int)),
        r.low_rest@ == ranked(rows@, Severity::Low).skip(full_low(rows@, max_low_rows as int)),
        r.suppressed == suppressed(rows@),
{
    let high: Vec<&'a Evaluated> = rank_rows(rows, Severity::High);
    let medium: Vec<&'a Evaluated> = rank_rows(rows, Severity::Medium);
    let low: Vec<&'a Evaluated> = rank_rows(rows, Severity::Low);
    proof {
        lemma_ranked_len(rows@, Severity::High, Severity::Medium);
        lemma_ranked_len(rows@, Severity::Medium, Severity::High);
    }
    let total: usize = rows.len();
    let n_high: usize = if high.len() < MAX_ROW_BLOCKS {
        high.len()
    } else {
        MAX_ROW_BLOCKS
    };
    let room: usize = MAX_ROW_BLOCKS - n_high;
    let n_medium: usize = if medium.len() < room {
        medium.len()
    } else {
        room
    };
    let left: usize = room - n_medium;
    let cap: usize = if max_low_rows < left {
        max_low_rows
    } else {
        left
    };
    let n_low: usize = if low.len() < cap {
        low.len()
    } else {
        cap
    };
    let suppressed: usize = (high.len() - n_high) + (medium.len() - n_medium);
    let r = Buckets {
        high: take_rows(high.as_slice(), 0, n_high),
        medium: take_rows(medium.as_slice(), 0, n_medium),
        low: take_rows(low.as_slice(), 0, n_low),
        low_rest: take_rows(low.as_slice(), n_low, low.len()),
        suppressed,
    };
    proof {
        assert(high@.subrange(0, n_high as int) =~= high@.take(n_high as int));
        assert(medium@.subrange(0, n_medium as int) =~= medium@.take(n_medium as int));
        assert(low@.subrange(0, n_low as int) =~= low@.take(n_low as int));
        assert(low@.subrange(n_low as int, low@.len() as int) =~= low@.skip(n_low as int));
    }
    r
}

/// Full rows never exceed the ceiling.
pub proof fn full_rows_stay_below_the_ceiling(rows: Seq<&Evaluated>, max_low_rows: int)
    requires
        max_low_rows >= 0,
    ensures
        full_high(rows) + full_medium(rows) + full_low(rows, max_low_rows) <= MAX_ROW_BLOCKS,
        full_low(rows, max_low_rows) <= max_low_rows,
{
}

/// No urgent row is dropped silently: each is shown in full or counted as
/// suppressed, and none is suppressed while there is room.
pub proof fn urgent_rows_are_accounted_for(rows: Seq<&Evaluated>)
    ensures
        full_high(rows) + full_medium(rows) + suppressed(rows) == of_severity(
            rows,
            Severity::High,
        ).len() + of_severity(rows, Severity::Medium).len(),
        suppressed(rows) >= 0,
        suppressed(rows) > 0 ==> full_high(rows) + full_medium(rows) == MAX_ROW_BLOCKS,
{
    lemma_ranked_len(rows, Severity::High, Severity::Medium);
    lemma_ranked_len(rows, Severity::Medium, Severity::High);
}

/// The banner about urgent rows for which there is no room.
pub open spec fn banner_text(suppressed: nat) -> Seq<char> {
    "🚨 "@ + nat_text(suppressed) + " urgent finding"@ + plural(suppressed as int)
        + " beyond Slack's block budget. Fleet is in distress — run `gasleak stale` locally for the full picture."@
}

fn overflow_banner(suppressed: usize) -> (r: String)
    ensures
        r@ == banner_text(suppressed as nat),
{
    "🚨 ".to_string().concat(count(suppressed).as_str()).concat(" urgent finding").concat(
        plural_of(suppressed),
    ).concat(
        " beyond Slack's block budget. Fleet is in distress — run `gasleak stale` locally for the full picture.",
    )
}

// ───────────────────────── Row builders ─────────────────────────

/// The verdicts of a row that are not those of a controller, in a few words
/// each.
pub open spec fn reasons(verdicts: Seq<VerdictView>) -> Seq<Seq<char>>
    decreases verdicts.len(),
{
    if verdicts.len() == 0 {
        Seq::empty()
    } else if verdicts.last() is Managed {
        reasons(verdicts.drop_last())
    } else {
        reasons(verdicts.drop_last()).push(reason_text(verdicts.last()))
    }
}

fn reason_tags(verdicts: &Vec<Verdict>) -> (out: Vec<String>)
    ensures
        strings(out@) == reasons(verdict_views(verdicts@)),
{
    let n: usize = verdicts.len();
    let mut out: Vec<String> = Vec::new();
    let ghost all = verdict_views(verdicts@);
    let mut i: usize = 0;
    assert(strings(out@) =~= reasons(all.take(0)));
    while i < n
        invariant
            n == verdicts@.len(),
            i <= n,
            all == verdict_views(verdicts@),
            strings(out@) == reasons(all.take(i as int)),
        decreases n - i,
    {
        let ghost before = strings(out@);
        proof {
            assert(all.take(i + 1).drop_last() =~= all.take(i as int));
            assert(all.take(i + 1).last() == verdicts@[i as int]@);
        }
        if !matches!(&verdicts[i], Verdict::Managed { .. }) {
            let tag: String = format_reason_tag(&verdicts[i]);
            out.push(tag);
            assert(strings(out@) =~= before.push(tag@));
        }
        i += 1;
    }
    assert(all.take(n as int) =~= all);
    out
}

/// The text of a flagged row.
pub open spec fn stale_row_text(e: &Evaluated, s: Severity, mention: bool) -> Seq<char> {
    emoji_text(s) + " *`"@ + e.0.instance_id@ + "`* · `"@ + e.0.instance_type@ + "` · *"@
        + dollars_option_text(e.0.estimated_cost_usd) + "* · owner: "@ + owner_text(
        e.0,
        e.1,
        mention,
    ) + "\n"@ + joined(reasons(verdict_views(e.2@)), "  ·  "@)
}

/// A flagged row.
pub open spec fn stale_row(e: &Evaluated, s: Severity, cfg: SlackRuntimeConfig) -> JsonView {
    section_with_button(
        truncated(
            stale_row_text(e, s, cfg.mention_threshold.mentions(s)),
            TEXT_FIELD_LIMIT as int,
        ),
        e.0.region@,
        e.0.instance_id@,
    )
}

pub fn row_block_stale(e: &Evaluated, severity: Severity, cfg: &SlackRuntimeConfig) -> (r: Json)
    ensures
        r@ == stale_row(e, severity, *cfg),
{
    let mention: bool = cfg.mention_threshold.should_mention(severity);
    let record: &InstanceRecord = &e.0;
    let text: String = severity_emoji(severity).to_string().concat(" *`").concat(
        record.instance_id.as_str(),
    ).concat("`* · `").concat(record.instance_type.as_str()).concat("` · *").concat(
        format_dollars_option(record.estimated_cost_usd).as_str(),
    ).concat("* · owner: ").concat(owner_label(record, &e.1, mention).as_str()).concat(
        "\n",
    ).concat(join(&reason_tags(&e.2), "  ·  ").as_str());
    section_with_button_json(truncate(text.as_str(), TEXT_FIELD_LIMIT).as_str(), record)
}

/// A row of `list`.
pub open spec fn list_row(r: &InstanceRecord) -> JsonView {
    section_with_button(
        "*`"@ + r.instance_id@ + "`* · `"@ + r.instance_type@ + "` · *"@ + dollars_option_text(
            r.estimated_cost_usd,
        ) + "* · region `"@ + r.region@ + "`"@,
        r.region@,
        r.instance_id@,
    )
}

fn row_block_list(record: &InstanceRecord) -> (r: Json)
    ensures
        r@ == list_row(record),
{
    let text: String = "*`".to_string().concat(record.instance_id.as_str()).concat(
        "`* · `",
    ).concat(record.instance_type.as_str()).concat("` · *").concat(
        format_dollars_option(record.estimated_cost_usd).as_str(),
    ).concat("* · region `").concat(record.region.as_str()).concat("`");
    section_with_button_json(text.as_str(), record)
}

/// The sum of the costs, an unknown one as zero.
pub open spec fn cost_total(rows: Seq<&Evaluated>) -> Double
    decreases rows.len(),
{
    if rows.len() == 0 {
        Double { bits: crate::aws::cloudwatch::EMPTY_SUM_BITS }
    } else {
        cost_total(rows.drop_last()).sum(
            match rows.last().0.estimated_cost_usd {
                Some(c) => c,
                None => Double::of_int(0),
            },
        )
    }
}

fn total_cost(rows: &[&Evaluated]) -> (r: Double)
    ensures
        r == cost_total(rows@),
{
    let n: usize = rows.len();
    let mut r: Double = Double { bits: crate::aws::cloudwatch::EMPTY_SUM_BITS };
    let mut i: usize = 0;
    while i < n
        invariant
            n == rows@.len(),
            i <= n,
            r == cost_total(rows@.take(i as int)),
        decreases n - i,
    {
        assert(rows@.take(i + 1).drop_last() =~= rows@.take(i as int));
        let cost: Double = match rows[i].0.estimated_cost_usd {
            Some(c) => c,
            None => Double::from_i64(0),
        };
        r = r.plus(cost);
        i += 1;
    }
    assert(rows@.take(n as int) =~= rows@);
    r
}

/// What a rollup begins with.
pub open spec fn rollup_prefix(rows: Seq<&Evaluated>) -> Seq<char> {
    "*"@ + nat_text(rows.len()) + " more Low-severity findings* ("@ + usd_compact_text(
        cost_total(rows),
    ) + "/mo combined)\n"@
}

/// One entry of a rollup.
pub open spec fn rollup_entry(e: &Evaluated) -> Seq<char> {
    "`"@ + e.0.instance_id@ + "` "@ + e.0.instance_type@ + " "@ + dollars_option_text(
        e.0.estimated_cost_usd,
    )
}

/// What stands before entry `i`.
pub open spec fn rollup_separator(i: int) -> Seq<char> {
    if i == 0 {
        ""@
    } else {
        "  ·  "@
    }
}

/// The first `k` entries.
pub open spec fn rollup_body(rows: Seq<&Evaluated>, k: nat) -> Seq<char>
    decreases k,
{
    if k == 0 {
        ""@
    } else {
        let i = (k - 1) as nat;
        rollup_body(rows, i) + rollup_separator(i as int) + rollup_entry(rows[i as int])
    }
}

/// What a rollup ends with.
pub open spec fn rollup_suffix(left: nat) -> Seq<char> {
    if left > 0 {
        "  ·  … and "@ + nat_text(left) + " more"@
    } else {
        ""@
    }
}

/// The text of a rollup that shows the first `k` rows and counts the rest.
pub open spec fn rollup_shown(rows: Seq<&Evaluated>, k: nat) -> Seq<char> {
    rollup_prefix(rows) + rollup_body(rows, k) + rollup_suffix((rows.len() - k) as nat)
}

/// The most rows, and at most `k`, whose entries stay below the limit, counted
/// in bytes and without what follows them.
pub open spec fn rollup_listed(rows: Seq<&Evaluated>, k: nat) -> nat
    decreases k,
{
    if k == 0 || byte_length(rollup_prefix(rows)) + byte_length(rollup_body(rows, k))
        < TEXT_FIELD_LIMIT {
        k
    } else {
        rollup_listed(rows, (k - 1) as nat)
    }
}

/// The most rows, and at most `k`, with which the whole text has no more
/// characters than the limit.
pub open spec fn rollup_room(rows: Seq<&Evaluated>, k: nat) -> nat
    decreases k,
{
    if k == 0 || rollup_shown(rows, k).len() <= TEXT_FIELD_LIMIT {
        k
    } else {
        rollup_room(rows, (k - 1) as nat)
    }
}

/// The text of a rollup: the rows whose entries stay below the limit, less
/// those that the whole text has no room for, and how many are left out.
pub open spec fn rollup_text(rows: Seq<&Evaluated>) -> Seq<char> {
    rollup_shown(rows, rollup_room(rows, rollup_listed(rows, rows.len())))
}

/// More entries do not take fewer bytes.
proof fn lemma_body_grows(rows: Seq<&Evaluated>, i: nat, k: nat)
    requires
        i <= k,
    ensures
        byte_length(rollup_body(rows, i)) <= byte_length(rollup_body(rows, k)),
    decreases k - i,
{
    if i < k {
        let j = (k - 1) as nat;
        lemma_body_grows(rows, i, j);
        let sep = rollup_separator(j as int);
        crate::table::lemma_bytes_add(rollup_body(rows, j), sep);
        crate::table::lemma_bytes_add(rollup_body(rows, j) + sep, rollup_entry(rows[j as int]));
    }
}

/// Where the entries reach the limit, no more of them are listed.
proof fn lemma_no_more_listed(rows: Seq<&Evaluated>, i: nat, k: nat)
    requires
        i <= k,
        byte_length(rollup_prefix(rows)) + byte_length(rollup_body(rows, i)) >= TEXT_FIELD_LIMIT,
    ensures
        rollup_listed(rows, k) == rollup_listed(rows, i),
    decreases k - i,
{
    if i < k {
        lemma_no_more_listed(rows, i, (k - 1) as nat);
        lemma_body_grows(rows, i, k);
    }
}

/// Whether three lengths together reach a limit.
fn reaches(a: usize, b: usize, c: usize, limit: usize) -> (r: bool)
    ensures
        r == (a + b + c >= limit),
{
    a as u128 + b as u128 + c as u128 >= limit as u128
}

fn write_suffix(left: usize) -> (r: String)
    ensures
        r@ == rollup_suffix(left as nat),
{
    if left > 0 {
        "  ·  … and ".to_string().concat(count(left).as_str()).concat(" more")
    } else {
        "".to_string()
    }
}

fn write_rollup(rows: &[&Evaluated]) -> (r: String)
    ensures
        r@ == rollup_text(rows@),
{
    let n: usize = rows.len();
    let prefix: String = "*".to_string().concat(count(n).as_str()).concat(
        " more Low-severity findings* (",
    ).concat(usd_compact(total_cost(rows)).as_str()).concat("/mo combined)\n");
    let prefix_len: usize = count_bytes(prefix.as_str());
    let prefix_chars: usize = prefix.as_str().unicode_len();
    let mut body: String = "".to_string();
    let mut shown: String = "".to_string();
    let mut room: usize = 0;
    let mut i: usize = 0;
    let mut full: bool = false;
    while i < n && !full
        invariant
            n == rows@.len(),
            room <= i <= n,
            prefix@ == rollup_prefix(rows@),
            prefix_len == byte_length(prefix@),
            prefix_chars == prefix@.len(),
            body@ == rollup_body(rows@, i as nat),
            room == rollup_room(rows@, rollup_listed(rows@, i as nat)),
            shown@ == rollup_body(rows@, room as nat),
            !full ==> rollup_listed(rows@, i as nat) == i,
            full ==> prefix_len + byte_length(body@) >= TEXT_FIELD_LIMIT,
        decreases n - i,
    {
        let record: &InstanceRecord = &rows[i].0;
        let entry: String = "`".to_string().concat(record.instance_id.as_str()).concat(
            "` ",
        ).concat(record.instance_type.as_str()).concat(" ").concat(
            format_dollars_option(record.estimated_cost_usd).as_str(),
        );
        let separator: &str = if i == 0 {
            ""
        } else {
            "  ·  "
        };
        body = body.concat(separator).concat(entry.as_str());
        i += 1;
        full = reaches(prefix_len, count_bytes(body.as_str()), 0, TEXT_FIELD_LIMIT);
        if !full {
            let suffix: String = write_suffix(n - i);
            if !reaches(
                prefix_chars,
                body.as_str().unicode_len(),
                suffix.as_str().unicode_len(),
                TEXT_FIELD_LIMIT + 1,
            ) {
                room = i;
                shown = body.clone();
            }
        }
    }
    proof {
        if i < n {
            lemma_no_more_listed(rows@, i as nat, n as nat);
        }
    }
    prefix.concat(shown.as_str()).concat(write_suffix(n - room).as_str())
}

/// Compact rollup of Low-severity overflow. One section block, dot-separated
/// list in the order of the rows, text capped at [`TEXT_FIELD_LIMIT`]. If the
/// concatenated entries would exceed the limit, the rest is counted as
/// `… and N more` so the block stays valid.
pub fn rollup_block(rows: &[&Evaluated]) -> (r: Json)
    ensures
        r@ == section(rollup_text(rows@)),
{
    section_json(write_rollup(rows).as_str())
}

/// The blocks of one severity: a heading with the number of rows, the rows in
/// full, and a rollup of the rest.
pub open spec fn severity_blocks(
    s: Severity,
    full: Seq<&Evaluated>,
    rest: Seq<&Evaluated>,
    cfg: SlackRuntimeConfig,
) -> Seq<JsonView> {
    let rows = seq![
        label(
            emoji_text(s) + " "@ + s.label() + " severity ("@ + nat_text(full.len() + rest.len())
                + ")"@,
        ),
    ] + full.map_values(|e: &Evaluated| stale_row(e, s, cfg));
    if rest.len() == 0 {
        rows
    } else {
        rows.push(section(rollup_text(rest)))
    }
}

fn severity_attachment(
    severity: Severity,
    full: &[&Evaluated],
    rest: &[&Evaluated],
    cfg: &SlackRuntimeConfig,
) -> (r: Json)
    requires
        full@.len() + rest@.len() <= usize::MAX,
    ensures
        r@ == attachment(
            color_text(severity),
            severity_blocks(severity, full@, rest@, *cfg),
        ),
{
    let n: usize = full.len();
    let total: usize = n + rest.len();
    let heading: String = severity_emoji(severity).to_string().concat(" ").concat(
        severity.as_str(),
    ).concat(" severity (").concat(count(total).as_str()).concat(")");
    let mut blocks: Items = Items::new().with(header_label_block(heading.as_str()));
    let ghost first = blocks@;
    let ghost f = |e: &Evaluated| stale_row(e, severity, *cfg);
    let mut i: usize = 0;
    assert(first + full@.take(0).map_values(f) =~= first);
    while i < n
        invariant
            n == full@.len(),
            i <= n,
            f == (|e: &Evaluated| stale_row(e, severity, *cfg)),
            blocks@ == first + full@.take(i as int).map_values(f),
        decreases n - i,
    {
        blocks = blocks.with(row_block_stale(full[i], severity, cfg));
        assert(first + full@.take(i + 1).map_values(f) =~= (first + full@.take(i as int).map_values(
            f,
        )).push(f(full@[i as int])));
        i += 1;
    }
    assert(full@.take(n as int) =~= full@);
    if rest.len() > 0 {
        blocks = blocks.with(rollup_block(rest));
    }
    attachment_json(severity_color(severity), blocks)
}

// ───────────────────────── Top-level renderers ─────────────────────────

/// The text about money in a `stale` message.
pub open spec fn savings_text(flagged_burn: BurnRate, fleet_burn: BurnRate, all_clear: bool) -> Seq<
    char,
> {
    if all_clear {
        "*No stale instances.* "@ + usd_compact_text(fleet_burn.month) + " fleet burn."@
    } else {
        "*"@ + usd_compact_text(flagged_burn.month) + "/mo* potential savings · *"@
            + usd_compact_text(fleet_burn.month) + "/mo* fleet burn rate"@
    }
}

fn summary_section_stale(flagged_burn: &BurnRate, fleet_burn: &BurnRate, all_clear: bool) -> (r:
    Json)
    ensures
        r@ == section(savings_text(*flagged_burn, *fleet_burn, all_clear)),
{
    let text: String = if all_clear {
        "*No stale instances.* ".to_string().concat(usd_compact(fleet_burn.month).as_str()).concat(
            " fleet burn.",
        )
    } else {
        "*".to_string().concat(usd_compact(flagged_burn.month).as_str()).concat(
            "/mo* potential savings · *",
        ).concat(usd_compact(fleet_burn.month).as_str()).concat("/mo* fleet burn rate")
    };
    section_json(text.as_str())
}

/// The text about the scan in a `stale` message.
pub open spec fn scan_text(
    flagged: nat,
    scanned: nat,
    worst: Severity,
    regions: Seq<Seq<char>>,
) -> Seq<char> {
    if flagged == 0 {
        "✅ 0 flagged / "@ + nat_text(scanned) + " scanned · region "@ + regions_text(regions)
    } else {
        emoji_text(worst) + " *"@ + nat_text(flagged) + " flagged* / "@ + nat_text(scanned)
            + " scanned · worst *"@ + worst.label() + "* · region "@ + regions_text(regions)
    }
}

fn scan_context_block(flagged: usize, scanned: usize, worst: Severity, regions: &[&str]) -> (r:
    Json)
    ensures
        r@ == context(scan_text(flagged as nat, scanned as nat, worst, slices(regions@))),
{
    let text: String = if flagged == 0 {
        "✅ 0 flagged / ".to_string().concat(count(scanned).as_str()).concat(
            " scanned · region ",
        ).concat(regions_label(regions).as_str())
    } else {
        severity_emoji(worst).to_string().concat(" *").concat(count(flagged).as_str()).concat(
            " flagged* / ",
        ).concat(count(scanned).as_str()).concat(" scanned · worst *").concat(
            worst.as_str(),
        ).concat("* · region ").concat(regions_label(regions).as_str())
    };
    context_block(text.as_str())
}

/// The worst severity of all rows; `Info` without rows.
pub open spec fn rows_worst(rows: Seq<&Evaluated>) -> Severity
    decreases rows.len(),
{
    if rows.len() == 0 {
        Severity::Info
    } else {
        worse(Some(rows_worst(rows.drop_last())), row_severity(rows.last()))
    }
}

fn worst_of_rows(rows: &[&Evaluated]) -> (r: Severity)
    ensures
        r == rows_worst(rows@),
{
    let n: usize = rows.len();
    let mut r: Severity = Severity::Info;
    let mut i: usize = 0;
    while i < n
        invariant
            n == rows@.len(),
            i <= n,
            r == rows_worst(rows@.take(i as int)),
        decreases n - i,
    {
        assert(rows@.take(i + 1).drop_last() =~= rows@.take(i as int));
        r = worse_of(Some(r), severity_of(rows[i]));
        i += 1;
    }
    assert(rows@.take(n as int) =~= rows@);
    r
}

/// The text of a `stale` message in notifications.
pub open spec fn stale_fallback(
    flagged: nat,
    scanned: nat,
    worst: Severity,
    fleet_burn: BurnRate,
    flagged_burn: BurnRate,
) -> Seq<char> {
    if flagged == 0 {
        "gasleak stale: 0 flagged / "@ + nat_text(scanned) + " scanned · "@ + usd_compact_text(
            fleet_burn.month,
        ) + " fleet burn"@
    } else {
        "gasleak stale: "@ + nat_text(flagged) + " flagged / "@ + nat_text(scanned)
            + " scanned · worst "@ + worst.label() + " · "@ + usd_compact_text(flagged_burn.month)
            + " potential savings"@
    }
}

/// The heading of a message, and a button to the full report where there is
/// one.
pub open spec fn top_blocks(heading: Seq<char>, report_url: Option<Seq<char>>) -> Seq<JsonView> {
    match report_url {
        Some(url) => Seq::empty().push(header(heading)).push(actions(url, "Open full report"@)),
        None => Seq::empty().push(header(heading)),
    }
}

fn write_top_blocks(heading: &str, report_url: &Option<String>) -> (r: Items)
    ensures
        r@ == top_blocks(heading@, option_text(*report_url)),
{
    let head: Items = Items::new().with(header_block(heading));
    match report_url {
        Some(url) => head.with(actions_block_single(url.as_str(), "Open full report")),
        None => head,
    }
}

/// An attachment for a severity that has rows to show.
pub open spec fn add_severity(
    attachments: Seq<JsonView>,
    s: Severity,
    full: Seq<&Evaluated>,
    rest: Seq<&Evaluated>,
    cfg: SlackRuntimeConfig,
) -> Seq<JsonView> {
    if full.len() == 0 && rest.len() == 0 {
        attachments
    } else {
        attachments.push(attachment(color_text(s), severity_blocks(s, full, rest, cfg)))
    }
}

fn with_severity(
    attachments: Items,
    s: Severity,
    full: &[&Evaluated],
    rest: &[&Evaluated],
    cfg: &SlackRuntimeConfig,
) -> (r: Items)
    requires
        full@.len() + rest@.len() <= usize::MAX,
    ensures
        r@ == add_severity(attachments@, s, full@, rest@, *cfg),
{
    if full.len() == 0 && rest.len() == 0 {
        attachments
    } else {
        attachments.with(severity_attachment(s, full, rest, cfg))
    }
}

/// The attachments of a `stale` message with findings, without the footer.
pub open spec fn finding_attachments(rows: Seq<&Evaluated>, cfg: SlackRuntimeConfig) -> Seq<
    JsonView,
> {
    let max = cfg.max_flagged_rows as int;
    let high = add_severity(
        Seq::empty(),
        Severity::High,
        ranked(rows, Severity::High).take(full_high(rows)),
        Seq::empty(),
        cfg,
    );
    let medium = add_severity(
        high,
        Severity::Medium,
        ranked(rows, Severity::Medium).take(full_medium(rows)),
        Seq::empty(),
        cfg,
    );
    let low = add_severity(
        medium,
        Severity::Low,
        ranked(rows, Severity::Low).take(full_low(rows, max)),
        ranked(rows, Severity::Low).skip(full_low(rows, max)),
        cfg,
    );
    if suppressed(rows) > 0 {
        low.push(
            attachment(
                color_text(Severity::High),
                seq![context(banner_text(suppressed(rows) as nat))],
            ),
        )
    } else {
        low
    }
}

/// A `stale` message.
pub open spec fn stale_message(
    rows: Seq<&Evaluated>,
    scanned: nat,
    regions: Seq<Seq<char>>,
    fleet_burn: BurnRate,
    flagged_burn: BurnRate,
    cfg: SlackRuntimeConfig,
    now: Timestamp,
) -> JsonView {
    let worst = rows_worst(rows);
    let blocks = top_blocks(
        emoji_text(worst) + " gasleak stale — "@ + regions_text(regions),
        option_text(cfg.report_url),
    ).push(section(savings_text(flagged_burn, fleet_burn, rows.len() == 0))).push(
        context(scan_text(rows.len(), scanned, worst, regions)),
    );
    let attachments = if rows.len() == 0 {
        Seq::empty().push(footer(regions, scanned, now, "#38a169"@))
    } else {
        finding_attachments(rows, cfg).push(footer(regions, scanned, now, neutral_color()))
    };
    message(
        stale_fallback(rows.len(), scanned, worst, fleet_burn, flagged_burn),
        blocks,
        attachments,
    )
}

/// Render a `stale` alert. Callers pass pre-filtered `flagged_rows` plus the
/// total `scanned` count. Without findings the footer alone carries the green
/// color bar as the visual signal.
pub fn render_stale(
    flagged_rows: &[&Evaluated],
    scanned: usize,
    regions: &[&str],
    fleet_burn: &BurnRate,
    flagged_burn: &BurnRate,
    cfg: &SlackRuntimeConfig,
    now: Timestamp,
) -> (r: Json)
    ensures
        r@ == stale_message(
            flagged_rows@,
            scanned as nat,
            slices(regions@),
            *fleet_burn,
            *flagged_burn,
            *cfg,
            now,
        ),
{
    let n: usize = flagged_rows.len();
    let worst: Severity = worst_of_rows(flagged_rows);
    let fallback: String = if n == 0 {
        "gasleak stale: 0 flagged / ".to_string().concat(count(scanned).as_str()).concat(
            " scanned · ",
        ).concat(usd_compact(fleet_burn.month).as_str()).concat(" fleet burn")
    } else {
        "gasleak stale: ".to_string().concat(count(n).as_str()).concat(" flagged / ").concat(
            count(scanned).as_str(),
        ).concat(" scanned · worst ").concat(worst.as_str()).concat(" · ").concat(
            usd_compact(flagged_burn.month).as_str(),
        ).concat(" potential savings")
    };
    let heading: String = severity_emoji(worst).to_string().concat(" gasleak stale — ").concat(
        regions_label(regions).as_str(),
    );
    let blocks: Items = write_top_blocks(heading.as_str(), &cfg.report_url).with(
        summary_section_stale(flagged_burn, fleet_burn, n == 0),
    ).with(scan_context_block(n, scanned, worst, regions));
    if n == 0 {
        let attachments: Items = Items::new().with(
            footer_attachment(regions, scanned, now, "#38a169"),
        );
        return message_json(fallback.as_str(), blocks, attachments);
    }
    let buckets: Buckets = bucket_by_severity(flagged_rows, cfg.max_flagged_rows);
    let none: Vec<&Evaluated> = Vec::new();
    proof {
        assert(none@ =~= Seq::<&Evaluated>::empty());
        lemma_ranked_len(flagged_rows@, Severity::Low, Severity::High);
    }
    let mut attachments: Items = with_severity(
        Items::new(),
        Severity::High,
        buckets.high.as_slice(),
        none.as_slice(),
        cfg,
    );
    attachments = with_severity(attachments, Severity::Medium, buckets.medium.as_slice(), none.as_slice(), cfg);
    attachments = with_severity(
        attachments,
        Severity::Low,
        buckets.low.as_slice(),
        buckets.low_rest.as_slice(),
        cfg,
    );
    if buckets.suppressed > 0 {
        let banner: String = overflow_banner(buckets.suppressed);
        attachments = attachments.with(
            attachment_json(
                severity_color(Severity::High),
                Items::new().with(context_block(banner.as_str())),
            ),
        );
    }
    attachments = attachments.with(footer_attachment(regions, scanned, now, "#a0aec0"));
    message_json(fallback.as_str(), blocks, attachments)
}

/// Records from the most to the least expensive.
pub struct CostlierRecord;

impl<'a> Order<&'a InstanceRecord> for CostlierRecord {
    open spec fn before(a: &'a InstanceRecord, b: &'a InstanceRecord) -> bool {
        cost_rank(*a) > cost_rank(*b)
    }

    fn less(a: &&'a InstanceRecord, b: &&'a InstanceRecord) -> (r: bool) {
        costs_more(a, b)
    }
}

impl<'a> WeakOrder<&'a InstanceRecord> for CostlierRecord {
    proof fn asymmetric(a: &'a InstanceRecord, b: &'a InstanceRecord) {
    }

    proof fn transitive(a: &'a InstanceRecord, b: &'a InstanceRecord, c: &'a InstanceRecord) {
    }
}

/// The most expensive records.
pub open spec fn top_records<'a>(records: Seq<InstanceRecord>) -> Seq<&'a InstanceRecord> {
    let ranked = sorted::<&'a InstanceRecord, CostlierRecord>(
        records.map_values(|r: InstanceRecord| &r),
    );
    ranked.take(min(ranked.len() as int, TOP_ROWS as int))
}

fn find_top_records(records: &[InstanceRecord]) -> (out: Vec<&InstanceRecord>)
    ensures
        out@ == top_records(records@),
{
    let n: usize = records.len();
    let mut refs: Vec<&InstanceRecord> = Vec::new();
    let mut i: usize = 0;
    while i < n
        invariant
            n == records@.len(),
            i <= n,
            refs@.len() == i,
            forall|k: int| 0 <= k < i ==> *(#[trigger] refs@[k]) == records@[k],
        decreases n - i,
    {
        refs.push(&records[i]);
        i += 1;
    }
    assert(refs@ =~= records@.map_values(|r: InstanceRecord| &r));
    let ranked: Vec<&InstanceRecord> = stable_sort::<&InstanceRecord, CostlierRecord>(refs);
    let keep: usize = if ranked.len() < TOP_ROWS {
        ranked.len()
    } else {
        TOP_ROWS
    };
    let mut out: Vec<&InstanceRecord> = Vec::new();
    let mut k: usize = 0;
    while k < keep
        invariant
            k <= keep <= ranked@.len(),
            out@ == ranked@.take(k as int),
        decreases keep - k,
    {
        out.push(ranked[k]);
        assert(ranked@.take(k + 1) =~= ranked@.take(k as int).push(ranked@[k as int]));
        k += 1;
    }
    out
}

/// A `list` message.
pub open spec fn list_message(
    records: Seq<InstanceRecord>,
    regions: Seq<Seq<char>>,
    burn: BurnRate,
    cfg: SlackRuntimeConfig,
    now: Timestamp,
) -> JsonView {
    let top = top_records(records);
    let n = records.len();
    let blocks = top_blocks(
        ":clipboard: gasleak list — "@ + regions_text(regions),
        option_text(cfg.report_url),
    ).push(
        section(
            "*"@ + usd_compact_text(burn.month) + "* fleet burn rate · "@ + nat_text(n)
                + " instances · "@ + usd_compact_text(burn.year) + "/yr"@,
        ),
    );
    let rows = if top.len() == 0 {
        Seq::empty()
    } else {
        Seq::empty().push(
            attachment(
                "#3182ce"@,
                seq![label("Top 5 by cost"@)] + top.map_values(|r: &InstanceRecord| list_row(r)),
            ),
        )
    };
    message(
        "gasleak list: "@ + nat_text(n) + " instances · "@ + usd_compact_text(burn.month)
            + " fleet burn"@,
        blocks,
        rows.push(footer(regions, n, now, neutral_color())),
    )
}

/// Render a `list` message. It is informational (no verdicts), so the signal
/// is "where is the money."
pub fn render_list(
    records: &[InstanceRecord],
    regions: &[&str],
    burn: &BurnRate,
    cfg: &SlackRuntimeConfig,
    now: Timestamp,
) -> (r: Json)
    ensures
        r@ == list_message(records@, slices(regions@), *burn, *cfg, now),
{
    let n: usize = records.len();
    let fallback: String = "gasleak list: ".to_string().concat(count(n).as_str()).concat(
        " instances · ",
    ).concat(usd_compact(burn.month).as_str()).concat(" fleet burn");
    let heading: String = ":clipboard: gasleak list — ".to_string().concat(
        regions_label(regions).as_str(),
    );
    let money: String = "*".to_string().concat(usd_compact(burn.month).as_str()).concat(
        "* fleet burn rate · ",
    ).concat(count(n).as_str()).concat(" instances · ").concat(
        usd_compact(burn.year).as_str(),
    ).concat("/yr");
    let blocks: Items = write_top_blocks(heading.as_str(), &cfg.report_url).with(
        section_json(money.as_str()),
    );
    let top: Vec<&InstanceRecord> = find_top_records(records);
    let mut attachments: Items = Items::new();
    let count_top: usize = top.len();
    if count_top > 0 {
        let mut rows: Items = Items::new().with(header_label_block("Top 5 by cost"));
        let ghost first = rows@;
        let ghost f = |r: &InstanceRecord| list_row(r);
        let mut i: usize = 0;
        assert(first + top@.take(0).map_values(f) =~= first);
        while i < count_top
            invariant
                count_top == top@.len(),
                i <= count_top,
                f == (|r: &InstanceRecord| list_row(r)),
                rows@ == first + top@.take(i as int).map_values(f),
            decreases count_top - i,
        {
            rows = rows.with(row_block_list(top[i]));
            assert(first + top@.take(i + 1).map_values(f) =~= (first + top@.take(
                i as int,
            ).map_values(f)).push(f(top@[i as int])));
            i += 1;
        }
        assert(top@.take(count_top as int) =~= top@);
        attachments = attachments.with(attachment_json("#3182ce", rows));
    }
    attachments = attachments.with(footer_attachment(regions, n, now, "#a0aec0"));
    message_json(fallback.as_str(), blocks, attachments)
}

/// What one rule made of the instance. Bold for a rule that fired, italic for
/// one that was skipped; the verdict's own sign carries the outcome.
pub open spec fn trace_text(entry: (Seq<char>, Result<VerdictView, SkipReason>)) -> Seq<char> {
    match entry.1 {
        Ok(v) => "*"@ + entry.0 + "* — "@ + reason_text(v),
        Err(reason) => "_"@ + entry.0 + "_ — skipped: "@ + reason.name(),
    }
}

/// What one rule made of the instance.
pub open spec fn trace_block(entry: (Seq<char>, Result<VerdictView, SkipReason>)) -> JsonView {
    section(truncated(trace_text(entry), TEXT_FIELD_LIMIT as int))
}

pub fn trace_entry_block(entry: &RuleTrace) -> (r: Json)
    ensures
        r@ == trace_block(entry@),
{
    let text: String = match &entry.result {
        Ok(v) => "*".to_string().concat(entry.rule).concat("* — ").concat(
            format_reason_tag(v).as_str(),
        ),
        Err(reason) => "_".to_string().concat(entry.rule).concat("_ — skipped: ").concat(
            reason.as_str(),
        ),
    };
    section_json(truncate(text.as_str(), TEXT_FIELD_LIMIT).as_str())
}

/// One volume.
pub open spec fn volume_line(v: VolumeCost) -> Seq<char> {
    let note = match v.excluded_reason {
        Some(reason) => " _("@ + reason@ + ")_"@,
        None => ""@,
    };
    "• `"@ + v.volume_id@ + "` "@ + v.volume_type@ + " "@ + int_text(v.size_gib as int)
        + " GiB · iops "@ + or_dash(v.iops) + " · mibps "@ + or_dash(v.throughput_mibps) + " · $"@
        + two_decimals_text(v.total_usd) + note
}

fn render_volume_line(v: &VolumeCost) -> (r: String)
    ensures
        r@ == volume_line(*v),
{
    let note: String = match v.excluded_reason {
        Some(reason) => " _(".to_string().concat(reason).concat(")_"),
        None => "".to_string(),
    };
    "• `".to_string().concat(v.volume_id.as_str()).concat("` ").concat(
        v.volume_type.as_str(),
    ).concat(" ").concat(signed(v.size_gib as i64).as_str()).concat(" GiB · iops ").concat(
        number_or_dash(v.iops).as_str(),
    ).concat(" · mibps ").concat(number_or_dash(v.throughput_mibps).as_str()).concat(
        " · $",
    ).concat(two_decimals(v.total_usd).as_str()).concat(note.as_str())
}

/// The lines of all volumes.
pub open spec fn volumes_text(volumes: Seq<VolumeCost>) -> Seq<char>
    decreases volumes.len(),
{
    if volumes.len() == 0 {
        ""@
    } else {
        volumes_text(volumes.drop_last()) + volume_line(volumes.last()) + "\n"@
    }
}

/// What the storage of an instance costs.
pub open spec fn storage_text(bd: CostBreakdown) -> Seq<char> {
    "*Storage $"@ + two_decimals_text(bd.storage_usd)
        + " since volume create_time · run rate $"@ + two_decimals_text(
        bd.storage_run_rate_usd_per_month,
    ) + "/mo*\n"@ + volumes_text(bd.volumes@)
}

/// What the storage of an instance costs.
pub open spec fn storage_block(bd: CostBreakdown) -> JsonView {
    attachment(
        "#718096"@,
        seq![section(truncated(storage_text(bd), TEXT_FIELD_LIMIT as int))],
    )
}

fn storage_attachment(bd: &CostBreakdown) -> (r: Json)
    ensures
        r@ == storage_block(*bd),
{
    let n: usize = bd.volumes.len();
    let mut lines: String = "".to_string();
    let mut i: usize = 0;
    while i < n
        invariant
            n == bd.volumes@.len(),
            i <= n,
            lines@ == volumes_text(bd.volumes@.take(i as int)),
        decreases n - i,
    {
        assert(bd.volumes@.take(i + 1).drop_last() =~= bd.volumes@.take(i as int));
        lines = lines.concat(render_volume_line(&bd.volumes[i]).as_str()).concat("\n");
        i += 1;
    }
    assert(bd.volumes@.take(n as int) =~= bd.volumes@);
    let body: String = "*Storage $".to_string().concat(two_decimals(bd.storage_usd).as_str()).concat(
        " since volume create_time · run rate $",
    ).concat(two_decimals(bd.storage_run_rate_usd_per_month).as_str()).concat("/mo*\n").concat(
        lines.as_str(),
    );
    attachment_json(
        "#718096",
        Items::new().with(section_json(truncate(body.as_str(), TEXT_FIELD_LIMIT).as_str())),
    )
}

/// An `explain` message.
pub open spec fn explain_message(
    r: InstanceRecord,
    c: ContractView,
    trace: Seq<(Seq<char>, Result<VerdictView, SkipReason>)>,
    now: Timestamp,
) -> JsonView {
    let severity = match worst(fired_in(trace)) {
        Some(s) => s,
        None => Severity::Info,
    };
    let cost = dollars_option_text(r.estimated_cost_usd);
    let blocks = Seq::empty().push(header(":mag: gasleak explain — "@ + r.instance_id@)).push(
        section_with_button(
            "`"@ + r.instance_id@ + "` · `"@ + r.instance_type@ + "` · "@ + cost + " · owner: "@
                + owner_text(r, c, false) + "\nregion: `"@ + r.region@ + "`"@,
            r.region@,
            r.instance_id@,
        ),
    );
    let rules = Seq::empty().push(
        attachment(
            color_text(severity),
            seq![label("Rule evaluation"@)] + trace.map_values(
                |t: (Seq<char>, Result<VerdictView, SkipReason>)| trace_block(t),
            ),
        ),
    );
    let storage = if r.cost_breakdown is Some && r.cost_breakdown->0.volumes@.len() > 0 {
        rules.push(storage_block(r.cost_breakdown->0))
    } else {
        rules
    };
    message(
        "gasleak explain "@ + r.instance_id@ + " · "@ + cost + " · worst "@ + severity.label(),
        blocks,
        storage.push(footer(seq![r.region@], 1, now, neutral_color())),
    )
}

fn worst_fired(trace: &[RuleTrace]) -> (r: Severity)
    ensures
        r == (match worst(fired_in(trace_views(trace@))) {
            Some(s) => s,
            None => Severity::Info,
        }),
{
    let fired: Vec<&Verdict> = fired_verdicts(trace);
    let ghost all = fired_in(trace_views(trace@));
    let n: usize = fired.len();
    let mut seen: Option<Severity> = None;
    let mut i: usize = 0;
    assert(all.len() == fired@.len());
    while i < n
        invariant
            n == fired@.len() == all.len(),
            i <= n,
            fired@.map_values(|v: &Verdict| v@) == all,
            seen == worst(all.take(i as int)),
        decreases n - i,
    {
        proof {
            assert(all[i as int] == fired@.map_values(|v: &Verdict| v@)[i as int]);
            assert(all.take(i + 1).drop_last() =~= all.take(i as int));
            assert(all.take(i + 1).last() == fired@[i as int]@);
        }
        seen = Some(worse_of(seen, fired[i].severity()));
        i += 1;
    }
    assert(all.take(n as int) =~= all);
    match seen {
        Some(s) => s,
        None => Severity::Info,
    }
}

/// Render an `explain` message: the rule trace, colored by the worst verdict,
/// and the storage.
pub fn render_explain(
    record: &InstanceRecord,
    contract: &ContractView,
    rule_trace: &[RuleTrace],
    _cfg: &SlackRuntimeConfig,
    now: Timestamp,
) -> (r: Json)
    ensures
        r@ == explain_message(*record, *contract, trace_views(rule_trace@), now),
{
    let severity: Severity = worst_fired(rule_trace);
    let cost: String = format_dollars_option(record.estimated_cost_usd);
    let fallback: String = "gasleak explain ".to_string().concat(
        record.instance_id.as_str(),
    ).concat(" · ").concat(cost.as_str()).concat(" · worst ").concat(severity.as_str());
    let heading: String = ":mag: gasleak explain — ".to_string().concat(
        record.instance_id.as_str(),
    );
    let text: String = "`".to_string().concat(record.instance_id.as_str()).concat("` · `").concat(
        record.instance_type.as_str(),
    ).concat("` · ").concat(cost.as_str()).concat(" · owner: ").concat(
        owner_label(record, contract, false).as_str(),
    ).concat("\nregion: `").concat(record.region.as_str()).concat("`");
    let blocks: Items = Items::new().with(header_block(heading.as_str())).with(
        section_with_button_json(text.as_str(), record),
    );
    let n: usize = rule_trace.len();
    let ghost all = trace_views(rule_trace@);
    let ghost f = |t: (Seq<char>, Result<VerdictView, SkipReason>)| trace_block(t);
    let mut rules: Items = Items::new().with(header_label_block("Rule evaluation"));
    let ghost first = rules@;
    let mut i: usize = 0;
    assert(first + all.take(0).map_values(f) =~= first);
    while i < n
        invariant
            n == rule_trace@.len(),
            i <= n,
            all == trace_views(rule_trace@),
            f == (|t: (Seq<char>, Result<VerdictView, SkipReason>)| trace_block(t)),
            rules@ == first + all.take(i as int).map_values(f),
        decreases n - i,
    {
        rules = rules.with(trace_entry_block(&rule_trace[i]));
        proof {
            assert(all[i as int] == rule_trace@[i as int]@);
            assert(first + all.take(i + 1).map_values(f) =~= (first + all.take(i as int).map_values(
                f,
            )).push(f(all[i as int])));
        }
        i += 1;
    }
    assert(all.take(n as int) =~= all);
    let mut attachments: Items = Items::new().with(
        attachment_json(severity_color(severity), rules),
    );
    if let Some(bd) = &record.cost_breakdown {
        if bd.volumes.len() > 0 {
            attachments = attachments.with(storage_attachment(bd));
        }
    }
    let region: [&str; 1] = [record.region.as_str()];
    assert(slices(region@) =~= seq![record.region@]);
    attachments = attachments.with(footer_attachment(region.as_slice(), 1, now, "#a0aec0"));
    message_json(fallback.as_str(), blocks, attachments)
}

/// The flagged rows among all that were evaluated.
pub fn collect_flagged<'a>(evaluated: &'a [Evaluated]) -> (out: Vec<&'a Evaluated>)
    ensures
        out@.map_values(|e: &Evaluated| *e) == flagged_rows(evaluated@),
{
    let n: usize = evaluated.len();
    let mut out: Vec<&'a Evaluated> = Vec::new();
    let ghost f = |e: &Evaluated| *e;
    let mut i: usize = 0;
    assert(out@.map_values(f) =~= flagged_rows(evaluated@.take(0)));
    while i < n
        invariant
            n == evaluated@.len(),
            i <= n,
            f == (|e: &Evaluated| *e),
            out@.map_values(f) == flagged_rows(evaluated@.take(i as int)),
        decreases n - i,
    {
        let ghost before = out@;
        proof {
            assert(evaluated@.take(i + 1).drop_last() =~= evaluated@.take(i as int));
            assert(evaluated@.take(i + 1).last() == evaluated@[i as int]);
        }
        if is_flagged(evaluated[i].2.as_slice()) {
            out.push(&evaluated[i]);
            assert(out@.map_values(f) =~= before.map_values(f).push(evaluated@[i as int]));
        }
        i += 1;
    }
    assert(evaluated@.take(n as int) =~= evaluated@);
    out
}

/// What is listed stays below the limit, and what is shown is listed and has
/// room.
proof fn lemma_rollup_choices(rows: Seq<&Evaluated>, k: nat)
    ensures
        rollup_listed(rows, k) <= k,
        rollup_listed(rows, k) == 0 || byte_length(rollup_prefix(rows)) + byte_length(
            rollup_body(rows, rollup_listed(rows, k)),
        ) < TEXT_FIELD_LIMIT,
        rollup_room(rows, k) <= k,
        rollup_room(rows, k) == 0 || rollup_shown(rows, rollup_room(rows, k)).len()
            <= TEXT_FIELD_LIMIT,
    decreases k,
{
    if k > 0 {
        lemma_rollup_choices(rows, (k - 1) as nat);
    }
}

/// The text of a rollup, however many rows and however long their names, is
/// capped at [`TEXT_FIELD_LIMIT`] characters, and at 3000 bytes.
pub proof fn rollup_is_capped(rows: Seq<&Evaluated>)
    requires
        rows.len() <= u64::MAX,
    ensures
        rollup_text(rows).len() <= TEXT_FIELD_LIMIT,
        byte_length(rollup_text(rows)) <= 3000,
{
    let listed = rollup_listed(rows, rows.len());
    let k = rollup_room(rows, listed);
    let prefix = rollup_prefix(rows);
    let body = rollup_body(rows, k);
    let suffix = rollup_suffix((rows.len() - k) as nat);
    lemma_rollup_choices(rows, rows.len());
    lemma_rollup_choices(rows, listed);
    lemma_body_grows(rows, k, listed);
    reveal_strlit("*");
    reveal_strlit(" more Low-severity findings* (");
    reveal_strlit("/mo combined)\n");
    reveal_strlit("  ·  … and ");
    reveal_strlit(" more");
    reveal_strlit("");
    crate::decimal::lemma_digit_count_64(rows.len());
    crate::decimal::lemma_digit_count_64((rows.len() - k) as nat);
    crate::format::compact_amounts_are_short(cost_total(rows));
    assert(prefix.len() <= 100);
    crate::table::lemma_bytes_bound(prefix);
    crate::table::lemma_bytes_bound(""@);
    crate::table::lemma_bytes_bound(suffix);
    crate::table::lemma_bytes_add(prefix, body);
    crate::table::lemma_bytes_add(prefix + body, suffix);
}

/// A row whose entry stays below the limit is left out of a rollup only where
/// the text that shows it would be too long.
pub proof fn rollup_drops_only_what_has_no_room(rows: Seq<&Evaluated>, k: nat)
    requires
        rollup_room(rows, rollup_listed(rows, rows.len())) < k <= rollup_listed(rows, rows.len()),
    ensures
        rollup_shown(rows, k).len() > TEXT_FIELD_LIMIT,
{
    lemma_room_is_the_most(rows, rollup_listed(rows, rows.len()), k);
}

proof fn lemma_room_is_the_most(rows: Seq<&Evaluated>, n: nat, k: nat)
    requires
        rollup_room(rows, n) < k <= n,
    ensures
        rollup_shown(rows, k).len() > TEXT_FIELD_LIMIT,
    decreases n,
{
    if k < n {
        lemma_room_is_the_most(rows, (n - 1) as nat, k);
    }
}

/// A message with findings has at most one attachment for each severity, one
/// for the banner and the footer.
pub proof fn attachments_are_few(rows: Seq<&Evaluated>, cfg: SlackRuntimeConfig)
    ensures
        finding_attachments(rows, cfg).len() <= 4,
{
}

} // verus!
