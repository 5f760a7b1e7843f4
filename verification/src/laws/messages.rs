//! What a Slack message shows of the findings.

use vstd::prelude::*;

use crate::contract::ContractView;
use crate::decimal::two_decimals_text;
use crate::double::{lemma_near_chain, near, sums_are_near, zero_adds_nothing, Double};
use crate::model::{option_text, BurnRate, CostBreakdown, InstanceRecord, VolumeCost};
use crate::order::{ordered, sorted, sorting_keeps_elements, sorting_orders, Order};
use crate::rounding::units;
use crate::run::{cost_rank, Evaluated};
use crate::slack::render::{
    actions, attachment, banner_text, color_text, console_button, context, cost_total,
    explain_message, finding_attachments, footer, footer_text, full_high, full_low, full_medium,
    header, label, list_message, list_row, message, mrkdwn, of_severity, owner_text, plural, ranked,
    reason_text, reasons, regions_text, rollup_body, rollup_entry, rollup_listed, rollup_prefix,
    rollup_room, rollup_separator, rollup_shown, rollup_suffix, rollup_text, row_severity,
    rows_worst, scan_text, section, section_with_button, severity_blocks, stale_fallback,
    stale_message, stale_row, stale_row_text, storage_block, suppressed, top_blocks, top_records,
    trace_block, truncated, volume_line, volumes_text, CostlierRecord, CostlierRow,
};
use crate::slack::SlackRuntimeConfig;
use crate::staleness::{fired_in, verdict_views, worst, Severity, SkipReason, VerdictView};
use crate::table::byte_length;
use crate::text::{int_text, joined, nat_text, occurs_at};
use crate::timestamp::Timestamp;
use crate::value::{lookup, JsonView};

verus! {

// ───────────────────────── Reading a message ─────────────────────────

/// The blocks of an attachment, or of a message.
pub open spec fn blocks_of(v: JsonView) -> Seq<JsonView> {
    match v.member("blocks"@) {
        Some(JsonView::List(blocks)) => blocks,
        _ => Seq::empty(),
    }
}

/// The attachments of a message.
pub open spec fn attachments_of(v: JsonView) -> Seq<JsonView> {
    match v.member("attachments"@) {
        Some(JsonView::List(attachments)) => attachments,
        _ => Seq::empty(),
    }
}

/// The text of a block.
pub open spec fn text_of_block(b: JsonView) -> Option<Seq<char>> {
    match b.member("text"@) {
        Some(t) => t.member_text("text"@),
        None => None,
    }
}

/// The address that the button of a row leads to.
pub open spec fn button_url(b: JsonView) -> Option<Seq<char>> {
    match b.member("accessory"@) {
        Some(a) => a.member_text("url"@),
        None => None,
    }
}

/// The text of a line of context.
pub open spec fn context_line(b: JsonView) -> Option<Seq<char>> {
    match b.member("elements"@) {
        Some(JsonView::List(items)) => if items.len() == 1 {
            items[0].member_text("text"@)
        } else {
            None
        },
        _ => None,
    }
}

proof fn reveal_keys()
    ensures
        "color"@ != "blocks"@,
        "text"@ != "blocks"@,
        "text"@ != "attachments"@,
        "blocks"@ != "attachments"@,
        "type"@ != "text"@,
        "type"@ != "elements"@,
        "type"@ != "accessory"@,
        "text"@ != "accessory"@,
        "type"@ != "url"@,
        "text"@ != "url"@,
{
    reveal_strlit("color");
    reveal_strlit("blocks");
    reveal_strlit("text");
    reveal_strlit("type");
    reveal_strlit("url");
    reveal_strlit("elements");
    reveal_strlit("accessory");
    reveal_strlit("attachments");
    assert("color"@.len() == 5 && "blocks"@.len() == 6 && "text"@.len() == 4 && "type"@.len() == 4);
    assert("url"@.len() == 3 && "elements"@.len() == 8 && "accessory"@.len() == 9);
    assert("attachments"@.len() == 11);
    assert("text"@[1] == 'e' && "type"@[1] == 'y');
}

proof fn lemma_two(a: (Seq<char>, JsonView), b: (Seq<char>, JsonView))
    requires
        a.0 != b.0,
    ensures
        lookup(Seq::empty().push(a).push(b), a.0) == Some(a.1),
        lookup(Seq::empty().push(a).push(b), b.0) == Some(b.1),
{
    let s = Seq::empty().push(a).push(b);
    reveal_with_fuel(lookup, 3);
    assert(s.drop_first() =~= seq![b]);
}

proof fn lemma_three(a: (Seq<char>, JsonView), b: (Seq<char>, JsonView), c: (Seq<char>, JsonView))
    requires
        a.0 != b.0,
        a.0 != c.0,
        b.0 != c.0,
    ensures
        lookup(Seq::empty().push(a).push(b).push(c), a.0) == Some(a.1),
        lookup(Seq::empty().push(a).push(b).push(c), b.0) == Some(b.1),
        lookup(Seq::empty().push(a).push(b).push(c), c.0) == Some(c.1),
{
    let s = Seq::empty().push(a).push(b).push(c);
    reveal_with_fuel(lookup, 4);
    assert(s.drop_first() =~= seq![b, c]);
    assert(s.drop_first().drop_first() =~= seq![c]);
}

proof fn lemma_attachment(color: Seq<char>, blocks: Seq<JsonView>)
    ensures
        attachment(color, blocks).member_text("color"@) == Some(color),
        blocks_of(attachment(color, blocks)) == blocks,
{
    reveal_keys();
    lemma_two(("color"@, JsonView::Text(color)), ("blocks"@, JsonView::List(blocks)));
}

proof fn lemma_section(text: Seq<char>)
    ensures
        text_of_block(section(text)) == Some(text),
{
    reveal_keys();
    lemma_two(("type"@, JsonView::Text("section"@)), ("text"@, mrkdwn(text)));
    lemma_two(("type"@, JsonView::Text("mrkdwn"@)), ("text"@, JsonView::Text(text)));
}

proof fn lemma_context(text: Seq<char>)
    ensures
        context_line(context(text)) == Some(truncated(text, 2500)),
{
    reveal_keys();
    let cut = truncated(text, 2500);
    lemma_two(
        ("type"@, JsonView::Text("context"@)),
        ("elements"@, JsonView::List(seq![mrkdwn(cut)])),
    );
    lemma_two(("type"@, JsonView::Text("mrkdwn"@)), ("text"@, JsonView::Text(cut)));
}

proof fn lemma_button(text: Seq<char>, region: Seq<char>, id: Seq<char>)
    ensures
        text_of_block(section_with_button(text, region, id)) == Some(text),
        button_url(section_with_button(text, region, id)) == Some(
            "https://console.aws.amazon.com/ec2/v2/home?region="@ + region
                + "#InstanceDetails:instanceId="@ + id,
        ),
{
    reveal_keys();
    let url = "https://console.aws.amazon.com/ec2/v2/home?region="@ + region
        + "#InstanceDetails:instanceId="@ + id;
    let caption = JsonView::Object(
        Seq::empty().push(("type"@, JsonView::Text("plain_text"@))).push(
            ("text"@, JsonView::Text("AWS Console"@)),
        ),
    );
    lemma_three(
        ("type"@, JsonView::Text("section"@)),
        ("text"@, mrkdwn(text)),
        ("accessory"@, console_button(region, id)),
    );
    lemma_two(("type"@, JsonView::Text("mrkdwn"@)), ("text"@, JsonView::Text(text)));
    lemma_three(
        ("type"@, JsonView::Text("button"@)),
        ("text"@, caption),
        ("url"@, JsonView::Text(url)),
    );
}

proof fn lemma_message(text: Seq<char>, blocks: Seq<JsonView>, attachments: Seq<JsonView>)
    ensures
        message(text, blocks, attachments).member_text("text"@) == Some(text),
        blocks_of(message(text, blocks, attachments)) == blocks,
        attachments_of(message(text, blocks, attachments)) == attachments,
{
    reveal_keys();
    lemma_three(
        ("text"@, JsonView::Text(text)),
        ("blocks"@, JsonView::List(blocks)),
        ("attachments"@, JsonView::List(attachments)),
    );
}

// ───────────────────────── Rows by severity ─────────────────────────

/// Whether the worst verdict on a row is of this severity.
pub open spec fn is_of(e: &Evaluated, s: Severity) -> bool {
    match worst(verdict_views(e.2@)) {
        Some(w) => w == s,
        None => s == Severity::Info,
    }
}

proof fn lemma_of_severity(rows: Seq<&Evaluated>, s: Severity, e: &Evaluated)
    ensures
        of_severity(rows, s).contains(e) <==> rows.contains(e) && is_of(e, s),
    decreases rows.len(),
{
    let list = of_severity(rows, s);
    if rows.len() > 0 {
        let front = rows.drop_last();
        let n = rows.len() - 1;
        assert(rows[n] == rows.last());
        lemma_of_severity(front, s, e);
        let some = of_severity(front, s);
        if list.contains(e) {
            let k = choose|k: int| 0 <= k < list.len() && list[k] == e;
            if k < some.len() {
                assert(some[k] == e);
                assert(some.contains(e));
                let i = choose|i: int| 0 <= i < front.len() && front[i] == e;
                assert(rows[i] == e);
            }
        }
        if rows.contains(e) && is_of(e, s) {
            let i = choose|i: int| 0 <= i < rows.len() && rows[i] == e;
            if i < n {
                assert(front[i] == e);
                assert(some.contains(e));
                let k = choose|k: int| 0 <= k < some.len() && some[k] == e;
                assert(list[k] == e);
            } else {
                assert(list[some.len() as int] == e);
            }
        }
    }
}

/// How many rows are of a severity.
pub open spec fn rows_of(rows: Seq<&Evaluated>, s: Severity) -> nat
    decreases rows.len(),
{
    if rows.len() == 0 {
        0
    } else {
        rows_of(rows.drop_last(), s) + if is_of(rows.last(), s) {
            1nat
        } else {
            0nat
        }
    }
}

proof fn lemma_rows_of(rows: Seq<&Evaluated>, s: Severity)
    ensures
        of_severity(rows, s).len() == rows_of(rows, s),
    decreases rows.len(),
{
    if rows.len() > 0 {
        lemma_rows_of(rows.drop_last(), s);
    }
}

/// The rows of a severity are ranked by cost, the most expensive first: each of
/// them stands in the ranking, and no other.
pub proof fn ranking_keeps_the_rows_of_a_severity(rows: Seq<&Evaluated>, s: Severity)
    ensures
        ranked(rows, s).len() == rows_of(rows, s),
        forall|e: &Evaluated|
            #[trigger] ranked(rows, s).contains(e) <==> rows.contains(e) && is_of(e, s),
        forall|i: int, j: int|
            0 <= i < j < ranked(rows, s).len() ==> cost_rank((#[trigger] ranked(rows, s)[i]).0)
                >= cost_rank((#[trigger] ranked(rows, s)[j]).0),
{
    let list = of_severity(rows, s);
    lemma_rows_of(rows, s);
    sorting_keeps_elements::<&Evaluated, CostlierRow>(list);
    sorting_orders::<&Evaluated, CostlierRow>(list);
    broadcast use vstd::seq_lib::group_to_multiset_ensures;
    assert forall|e: &Evaluated| #[trigger] ranked(rows, s).contains(e) <==> rows.contains(e)
        && is_of(e, s) by {
        lemma_of_severity(rows, s, e);
        assert(ranked(rows, s).to_multiset().count(e) == list.to_multiset().count(e));
        assert(ranked(rows, s).contains(e) <==> ranked(rows, s).to_multiset().count(e) > 0);
        assert(list.contains(e) <==> list.to_multiset().count(e) > 0);
    }
    assert(ordered::<&Evaluated, CostlierRow>(ranked(rows, s)));
}

/// The smaller of two numbers.
pub open spec fn least(a: int, b: int) -> int {
    if a < b {
        a
    } else {
        b
    }
}

/// How many rows of a severity are shown in full: High before Medium before
/// Low, 40 in all, and of the Low ones no more than is configured.
pub open spec fn shown(rows: Seq<&Evaluated>, s: Severity, cfg: SlackRuntimeConfig) -> int {
    let high = least(rows_of(rows, Severity::High) as int, 40);
    let medium = least(rows_of(rows, Severity::Medium) as int, 40 - high);
    match s {
        Severity::High => high,
        Severity::Medium => medium,
        Severity::Low => least(
            rows_of(rows, Severity::Low) as int,
            least(cfg.max_flagged_rows as int, 40 - high - medium),
        ),
        Severity::Info => 0,
    }
}

/// The bar beside the rows of a severity.
pub open spec fn bar(s: Severity) -> Seq<char> {
    match s {
        Severity::High => "#c91517"@,
        Severity::Medium => "#d69e2e"@,
        Severity::Low => "#ecc94b"@,
        Severity::Info => "#3182ce"@,
    }
}

/// The sign of a severity in headings and rows.
pub open spec fn sign(s: Severity) -> Seq<char> {
    match s {
        Severity::High => "🚨"@,
        Severity::Medium => "🔶"@,
        Severity::Low => "🟡"@,
        Severity::Info => "🟢"@,
    }
}

/// Whether the attachment `a` is that of the severity `s`: its bar, a heading
/// with the number of rows, then a block for each row that is shown in full, the
/// most expensive first; and, where rows are left over, a rollup of them.
pub open spec fn is_section_of(
    a: JsonView,
    rows: Seq<&Evaluated>,
    s: Severity,
    cfg: SlackRuntimeConfig,
    counted: nat,
) -> bool {
    let n = shown(rows, s, cfg);
    &&& a.member_text("color"@) == Some(bar(s))
    &&& blocks_of(a).len() >= n + 1
    &&& text_of_block(blocks_of(a)[0]) == Some(
        "*"@ + (sign(s) + " "@ + (match s {
            Severity::High => "HIGH"@,
            Severity::Medium => "MED"@,
            Severity::Low => "LOW"@,
            Severity::Info => "INFO"@,
        }) + " severity ("@ + nat_text(counted) + ")"@) + "*"@,
    )
    &&& forall|j: int|
        0 <= j < n ==> #[trigger] blocks_of(a)[j + 1] == stale_row(ranked(rows, s)[j], s, cfg)
}

proof fn lemma_is_section(
    rows: Seq<&Evaluated>,
    s: Severity,
    cfg: SlackRuntimeConfig,
    full: Seq<&Evaluated>,
    rest: Seq<&Evaluated>,
)
    requires
        full == ranked(rows, s).take(shown(rows, s, cfg)),
        0 <= shown(rows, s, cfg) <= ranked(rows, s).len(),
    ensures
        is_section_of(
            attachment(color_text(s), severity_blocks(s, full, rest, cfg)),
            rows,
            s,
            cfg,
            full.len() + rest.len(),
        ),
        blocks_of(attachment(color_text(s), severity_blocks(s, full, rest, cfg))).len()
            == full.len() + 1 + (if rest.len() > 0 {
            1int
        } else {
            0
        }),
        rest.len() > 0 ==> blocks_of(
            attachment(color_text(s), severity_blocks(s, full, rest, cfg)),
        ).last() == section(rollup_text(rest)),
{
    let blocks = severity_blocks(s, full, rest, cfg);
    let a = attachment(color_text(s), blocks);
    let n = shown(rows, s, cfg);
    lemma_attachment(color_text(s), blocks);
    let heading = sign(s) + " "@ + s.label() + " severity ("@ + nat_text(full.len() + rest.len())
        + ")"@;
    lemma_section("*"@ + heading + "*"@);
    assert(blocks[0] == label(heading));
    assert forall|j: int| 0 <= j < n implies #[trigger] blocks_of(a)[j + 1] == stale_row(
        ranked(rows, s)[j],
        s,
        cfg,
    ) by {
        assert(full[j] == ranked(rows, s)[j]);
        assert(full.map_values(|e: &Evaluated| stale_row(e, s, cfg))[j] == stale_row(
            full[j],
            s,
            cfg,
        ));
    }
}

proof fn lemma_counts(rows: Seq<&Evaluated>, cfg: SlackRuntimeConfig)
    ensures
        full_high(rows) == shown(rows, Severity::High, cfg),
        full_medium(rows) == shown(rows, Severity::Medium, cfg),
        full_low(rows, cfg.max_flagged_rows as int) == shown(rows, Severity::Low, cfg),
        ranked(rows, Severity::High).len() == rows_of(rows, Severity::High),
        ranked(rows, Severity::Medium).len() == rows_of(rows, Severity::Medium),
        ranked(rows, Severity::Low).len() == rows_of(rows, Severity::Low),
        suppressed(rows) == rows_of(rows, Severity::High) + rows_of(rows, Severity::Medium) - shown(
            rows,
            Severity::High,
            cfg,
        ) - shown(rows, Severity::Medium, cfg),
{
    ranking_keeps_the_rows_of_a_severity(rows, Severity::High);
    ranking_keeps_the_rows_of_a_severity(rows, Severity::Medium);
    ranking_keeps_the_rows_of_a_severity(rows, Severity::Low);
}

/// Each severity that has rows to show has its own attachment, High before
/// Medium before Low, with a block for each row that is shown in full. What is
/// left of the Low rows is rolled up at the end of their attachment.
pub proof fn each_severity_has_its_attachment(rows: Seq<&Evaluated>, cfg: SlackRuntimeConfig)
    ensures
        ({
            let all = finding_attachments(rows, cfg);
            let h: int = if rows_of(rows, Severity::High) > 0 {
                1
            } else {
                0
            };
            let m: int = if shown(rows, Severity::Medium, cfg) > 0 {
                1
            } else {
                0
            };
            let l: int = if rows_of(rows, Severity::Low) > 0 {
                1
            } else {
                0
            };
            &&& all.len() == h + m + l + (if rows_of(rows, Severity::High) + rows_of(
                rows,
                Severity::Medium,
            ) > 40 {
                1int
            } else {
                0
            })
            &&& h == 1 ==> is_section_of(
                all[0],
                rows,
                Severity::High,
                cfg,
                shown(rows, Severity::High, cfg) as nat,
            )
            &&& m == 1 ==> is_section_of(
                all[h],
                rows,
                Severity::Medium,
                cfg,
                shown(rows, Severity::Medium, cfg) as nat,
            )
            &&& l == 1 ==> is_section_of(
                all[h + m],
                rows,
                Severity::Low,
                cfg,
                rows_of(rows, Severity::Low),
            )
            &&& rows_of(rows, Severity::Low) > shown(rows, Severity::Low, cfg) ==> blocks_of(
                all[h + m],
            ).last() == section(
                rollup_text(ranked(rows, Severity::Low).skip(shown(rows, Severity::Low, cfg))),
            )
        }),
{
    lemma_counts(rows, cfg);
    let none = Seq::<&Evaluated>::empty();
    let high = ranked(rows, Severity::High).take(full_high(rows));
    let medium = ranked(rows, Severity::Medium).take(full_medium(rows));
    let k = full_low(rows, cfg.max_flagged_rows as int);
    let low = ranked(rows, Severity::Low).take(k);
    let rest = ranked(rows, Severity::Low).skip(k);
    lemma_is_section(rows, Severity::High, cfg, high, none);
    lemma_is_section(rows, Severity::Medium, cfg, medium, none);
    lemma_is_section(rows, Severity::Low, cfg, low, rest);
}

/// Whether an attachment among `all` with the bar of the severity shows the row.
pub open spec fn shows(all: Seq<JsonView>, e: &Evaluated, s: Severity, cfg: SlackRuntimeConfig) -> bool {
    exists|i: int|
        0 <= i < all.len() && (#[trigger] all[i]).member_text("color"@) == Some(bar(s))
            && blocks_of(all[i]).contains(stale_row(e, s, cfg))
}

/// No urgent row goes unseen. Each High or Medium row is shown in full under
/// its severity, or there are more than 40 of them and the last attachment says
/// how many are not shown.
pub proof fn no_urgent_row_goes_unseen(
    rows: Seq<&Evaluated>,
    cfg: SlackRuntimeConfig,
    e: &Evaluated,
    s: Severity,
)
    requires
        rows.contains(e),
        is_of(e, s),
        s == Severity::High || s == Severity::Medium,
        rows.len() <= usize::MAX,
    ensures
        ({
            let all = finding_attachments(rows, cfg);
            let urgent = rows_of(rows, Severity::High) + rows_of(rows, Severity::Medium);
            let left = (urgent - shown(rows, Severity::High, cfg) - shown(
                rows,
                Severity::Medium,
                cfg,
            )) as nat;
            ||| shows(all, e, s, cfg)
            ||| {
                &&& urgent > 40
                &&& left == urgent - 40
                &&& all.last().member_text("color"@) == Some("#c91517"@)
                &&& context_line(blocks_of(all.last())[0]) == Some(
                    "🚨 "@ + nat_text(left) + " urgent finding"@ + (if left == 1 {
                        ""@
                    } else {
                        "s"@
                    })
                        + " beyond Slack's block budget. Fleet is in distress — run `gasleak stale` locally for the full picture."@,
                )
            }
        }),
{
    each_severity_has_its_attachment(rows, cfg);
    ranking_keeps_the_rows_of_a_severity(rows, s);
    lemma_counts(rows, cfg);
    let all = finding_attachments(rows, cfg);
    let list = ranked(rows, s);
    assert(list.contains(e));
    let j = choose|j: int| 0 <= j < list.len() && list[j] == e;
    if j < shown(rows, s, cfg) {
        let i: int = if s == Severity::High || rows_of(rows, Severity::High) == 0 {
            0
        } else {
            1
        };
        let blocks = blocks_of(all[i]);
        assert(blocks[j + 1] == stale_row(e, s, cfg));
        assert(shows(all, e, s, cfg));
    } else {
        let left = suppressed(rows) as nat;
        lemma_row_counts(rows);
        crate::decimal::lemma_digit_count_64(left);
        reveal_strlit("🚨 ");
        reveal_strlit(" urgent finding");
        reveal_strlit("");
        reveal_strlit("s");
        reveal_strlit(
            " beyond Slack's block budget. Fleet is in distress — run `gasleak stale` locally for the full picture.",
        );
        let blocks = seq![context(banner_text(left))];
        lemma_attachment(color_text(Severity::High), blocks);
        lemma_context(banner_text(left));
        assert(banner_text(left).len() <= 2500);
    }
}

proof fn lemma_row_counts(rows: Seq<&Evaluated>)
    ensures
        rows_of(rows, Severity::High) + rows_of(rows, Severity::Medium) + rows_of(
            rows,
            Severity::Low,
        ) <= rows.len(),
    decreases rows.len(),
{
    if rows.len() > 0 {
        lemma_row_counts(rows.drop_last());
    }
}

/// No Low row goes unseen either: it is shown in full, or it is among those
/// that the rollup at the end of the Low attachment counts.
pub proof fn no_low_row_goes_unseen(
    rows: Seq<&Evaluated>,
    cfg: SlackRuntimeConfig,
    e: &Evaluated,
)
    requires
        rows.contains(e),
        is_of(e, Severity::Low),
    ensures
        ({
            let all = finding_attachments(rows, cfg);
            let rest = ranked(rows, Severity::Low).skip(shown(rows, Severity::Low, cfg));
            ||| shows(all, e, Severity::Low, cfg)
            ||| rest.contains(e) && exists|i: int|
                0 <= i < all.len() && (#[trigger] all[i]).member_text("color"@) == Some("#ecc94b"@)
                    && text_of_block(blocks_of(all[i]).last()) == Some(rollup_text(rest))
        }),
{
    each_severity_has_its_attachment(rows, cfg);
    ranking_keeps_the_rows_of_a_severity(rows, Severity::Low);
    lemma_counts(rows, cfg);
    let all = finding_attachments(rows, cfg);
    let list = ranked(rows, Severity::Low);
    let n = shown(rows, Severity::Low, cfg);
    assert(list.contains(e));
    let j = choose|j: int| 0 <= j < list.len() && list[j] == e;
    let h: int = if rows_of(rows, Severity::High) > 0 {
        1
    } else {
        0
    };
    let m: int = if shown(rows, Severity::Medium, cfg) > 0 {
        1
    } else {
        0
    };
    let i = h + m;
    if j < n {
        assert(blocks_of(all[i])[j + 1] == stale_row(e, Severity::Low, cfg));
        assert(shows(all, e, Severity::Low, cfg));
    } else {
        let rest = list.skip(n);
        assert(rest[j - n] == e);
        lemma_section(rollup_text(rest));
        assert(all[i].member_text("color"@) == Some("#ecc94b"@));
    }
}

// ───────────────────────── Texts ─────────────────────────

/// Whether `part` occurs somewhere in `text`.
pub open spec fn mentions(text: Seq<char>, part: Seq<char>) -> bool {
    exists|i: int| occurs_at(text, part, i)
}

proof fn lemma_mentions(a: Seq<char>, part: Seq<char>, b: Seq<char>)
    ensures
        mentions(a + part + b, part),
{
    assert((a + part + b).subrange(a.len() as int, (a.len() + part.len()) as int) =~= part);
    assert(occurs_at(a + part + b, part, a.len() as int));
}

proof fn lemma_joined_mentions(parts: Seq<Seq<char>>, sep: Seq<char>, k: int)
    requires
        0 <= k < parts.len(),
    ensures
        mentions(joined(parts, sep), parts[k]),
    decreases parts.len(),
{
    let text = joined(parts, sep);
    if parts.len() == 1 {
        assert(text =~= Seq::<char>::empty() + parts[k] + Seq::<char>::empty());
        lemma_mentions(Seq::empty(), parts[k], Seq::empty());
    } else if k == parts.len() - 1 {
        let front = joined(parts.drop_last(), sep) + sep;
        assert(text =~= front + parts[k] + Seq::<char>::empty());
        lemma_mentions(front, parts[k], Seq::empty());
    } else {
        let front = parts.drop_last();
        lemma_joined_mentions(front, sep, k);
        assert(front[k] == parts[k]);
        let part = parts[k];
        let i = choose|i: int| occurs_at(joined(front, sep), part, i);
        assert(text.subrange(i, i + part.len()) =~= joined(front, sep).subrange(
            i,
            i + part.len(),
        ));
        assert(occurs_at(text, part, i));
    }
}

proof fn lemma_mentions_within(a: Seq<char>, inner: Seq<char>, b: Seq<char>, part: Seq<char>)
    requires
        mentions(inner, part),
    ensures
        mentions(a + inner + b, part),
{
    let i = choose|i: int| occurs_at(inner, part, i);
    let text = a + inner + b;
    assert(text.subrange(a.len() + i, a.len() + i + part.len()) =~= inner.subrange(
        i,
        i + part.len(),
    ));
    assert(occurs_at(text, part, a.len() + i));
}

proof fn lemma_reasons(verdicts: Seq<VerdictView>, v: VerdictView)
    requires
        verdicts.contains(v),
        !(v is Managed),
    ensures
        reasons(verdicts).contains(reason_text(v)),
    decreases verdicts.len(),
{
    let front = verdicts.drop_last();
    let list = reasons(verdicts);
    let i = choose|i: int| 0 <= i < verdicts.len() && verdicts[i] == v;
    if i < front.len() {
        assert(front[i] == v);
        lemma_reasons(front, v);
        let k = choose|k: int|
            0 <= k < reasons(front).len() && reasons(front)[k] == reason_text(v);
        assert(list[k] == reason_text(v));
    } else {
        assert(list[list.len() - 1] == reason_text(v));
    }
}

/// A row tells what was found: the sign of its severity, the id and type of
/// the instance, its cost, its owner, and every verdict but that of a
/// controller. Its button leads to that instance in its region.
#[verifier::rlimit(60)]
#[verifier::spinoff_prover]
pub proof fn a_row_tells_what_was_found(e: &Evaluated, s: Severity, cfg: SlackRuntimeConfig)
    ensures
        button_url(stale_row(e, s, cfg)) == Some(
            "https://console.aws.amazon.com/ec2/v2/home?region="@ + e.0.region@
                + "#InstanceDetails:instanceId="@ + e.0.instance_id@,
        ),
        text_of_block(stale_row(e, s, cfg)) is Some,
        text_of_block(stale_row(e, s, cfg))->0.len() <= 2500,
        text_of_block(stale_row(e, s, cfg))->0.len() < 2500 ==> {
            let text = text_of_block(stale_row(e, s, cfg))->0;
            &&& mentions(text, sign(s))
            &&& mentions(text, "`"@ + e.0.instance_id@ + "`"@)
            &&& mentions(text, "`"@ + e.0.instance_type@ + "`"@)
            &&& mentions(text, crate::format::dollars_option_text(e.0.estimated_cost_usd))
            &&& e.1.owner_slack is Some ==> mentions(text, e.1.owner_slack->0@)
            &&& e.1.owner_slack is None && e.0.launched_by is Some ==> mentions(
                text,
                e.0.launched_by->0@,
            )
            &&& forall|v: VerdictView|
                #[trigger] verdict_views(e.2@).contains(v) && !(v is Managed) ==> mentions(
                    text,
                    reason_text(v),
                )
        },
{
    let ping = cfg.mention_threshold.mentions(s);
    let full = stale_row_text(e, s, ping);
    let text = truncated(full, 2500);
    lemma_button(text, e.0.region@, e.0.instance_id@);
    if text.len() < 2500 {
        assert(text == full);
        reveal_strlit(" *`");
        reveal_strlit("`* · `");
        reveal_strlit("` · *");
        reveal_strlit("* · owner: ");
        reveal_strlit("`");
        reveal_strlit("\n");
        let tick = "`"@;
        let id = e.0.instance_id@;
        let kind = e.0.instance_type@;
        let cost = crate::format::dollars_option_text(e.0.estimated_cost_usd);
        let owner = owner_text(e.0, e.1, ping);
        let list = joined(reasons(verdict_views(e.2@)), "  ·  "@);
        let none = Seq::<char>::empty();
        let star = " *"@;
        reveal_strlit(" *");
        reveal_strlit("* · ");
        reveal_strlit(" · *");
        assert(" *`"@ =~= " *"@ + tick);
        assert("`* · `"@ =~= tick + "* · "@ + tick);
        assert("` · *"@ =~= tick + " · *"@);
        let tail3 = "* · owner: "@ + owner + "\n"@ + list;
        let tail2 = " · *"@ + cost + tail3;
        let tail1 = "* · "@ + (tick + kind + tick) + tail2;
        assert(text =~= none + sign(s) + (star + (tick + id + tick) + tail1));
        lemma_mentions(none, sign(s), star + (tick + id + tick) + tail1);
        let head1 = sign(s) + star;
        assert(text =~= head1 + (tick + id + tick) + tail1);
        lemma_mentions(head1, tick + id + tick, tail1);
        let head2 = head1 + (tick + id + tick) + "* · "@;
        assert(text =~= head2 + (tick + kind + tick) + tail2);
        lemma_mentions(head2, tick + kind + tick, tail2);
        let head3 = head2 + (tick + kind + tick) + " · *"@;
        assert(text =~= head3 + cost + tail3);
        lemma_mentions(head3, cost, tail3);
        let head4 = head3 + cost + "* · owner: "@;
        assert(text =~= head4 + owner + ("\n"@ + list));
        if e.1.owner_slack is Some {
            let handle = e.1.owner_slack->0@;
            if ping {
                assert(owner =~= none + handle + none);
                lemma_mentions(none, handle, none);
            } else {
                lemma_mentions(tick, handle, tick);
            }
            lemma_mentions_within(head4, owner, "\n"@ + list, handle);
        } else if e.0.launched_by is Some {
            let who = e.0.launched_by->0@;
            if who.len() == 0 {
                assert(text.subrange(0, 0) =~= who);
                assert(occurs_at(text, who, 0));
            } else {
                lemma_mentions(tick, who, tick);
                lemma_mentions_within(head4, owner, "\n"@ + list, who);
            }
        }
        let head5 = head4 + owner + "\n"@;
        assert(text =~= head5 + list + none);
        assert forall|v: VerdictView|
            #[trigger] verdict_views(e.2@).contains(v) && !(v is Managed) implies mentions(
            text,
            reason_text(v),
        ) by {
            let parts = reasons(verdict_views(e.2@));
            lemma_reasons(verdict_views(e.2@), v);
            let k = choose|k: int| 0 <= k < parts.len() && parts[k] == reason_text(v);
            lemma_joined_mentions(parts, "  ·  "@, k);
            lemma_mentions_within(head5, list, none, reason_text(v));
        }
    }
}

/// An owner is pinged by the bare handle exactly from the configured severity
/// on; below it the handle stands in code format, which does not ping.
pub proof fn owners_are_pinged_from_the_threshold_on(e: &Evaluated, s: Severity, cfg: SlackRuntimeConfig)
    requires
        e.1.owner_slack is Some,
    ensures
        owner_text(e.0, e.1, cfg.mention_threshold.mentions(s)) == (if (
        match cfg.mention_threshold {
            crate::slack::MentionThreshold::Low => s != Severity::Info,
            crate::slack::MentionThreshold::Medium => s == Severity::Medium || s == Severity::High,
            crate::slack::MentionThreshold::High => s == Severity::High,
            crate::slack::MentionThreshold::Never => false,
        }) {
            e.1.owner_slack->0@
        } else {
            "`"@ + e.1.owner_slack->0@ + "`"@
        }),
{
}

/// A text that is cut keeps its beginning, has exactly as many characters as
/// allowed, and ends with an ellipsis.
pub proof fn a_cut_text_keeps_its_beginning(s: Seq<char>, max: int)
    requires
        0 < max < s.len(),
    ensures
        truncated(s, max).len() == max,
        truncated(s, max).take(max - 1) == s.take(max - 1),
        truncated(s, max).last() == '…',
{
    assert(truncated(s, max).take(max - 1) =~= s.take(max - 1));
}

/// A short duration is a whole number of days, hours or minutes: the largest of
/// these units of which there is at least one, rounded down.
pub proof fn short_durations_use_the_largest_unit(secs: int)
    ensures
        ({
            let text = crate::slack::render::short_duration_text(secs);
            let abs = if secs < 0 {
                -secs
            } else {
                secs
            };
            &&& abs >= 86_400 ==> exists|d: nat|
                text == #[trigger] nat_text(d) + "d"@ && 86_400 * d <= abs < 86_400 * (d + 1)
            &&& 3_600 <= abs < 86_400 ==> exists|h: nat|
                text == #[trigger] nat_text(h) + "h"@ && 3_600 * h <= abs < 3_600 * (h + 1)
            &&& abs < 3_600 ==> exists|m: nat|
                text == #[trigger] nat_text(m) + "m"@ && 60 * m <= abs < 60 * (m + 1)
        }),
{
    let abs = (if secs < 0 {
        -secs
    } else {
        secs
    }) as nat;
    let text = crate::slack::render::short_duration_text(secs);
    if abs >= 86_400 {
        assert(text == nat_text(abs / 86_400) + "d"@);
    } else if abs >= 3_600 {
        assert(text == nat_text(abs / 3_600) + "h"@);
    } else {
        assert(text == nat_text(abs / 60) + "m"@);
    }
}

// ───────────────────────── Whole messages ─────────────────────────

proof fn lemma_footer(regions: Seq<Seq<char>>, scanned: nat, now: Timestamp, color: Seq<char>)
    ensures
        footer(regions, scanned, now, color).member_text("color"@) == Some(color),
        blocks_of(footer(regions, scanned, now, color)).len() == 1,
        context_line(blocks_of(footer(regions, scanned, now, color))[0]) == Some(
            truncated(crate::slack::render::footer_text(regions, scanned, now), 2500),
        ),
{
    let text = crate::slack::render::footer_text(regions, scanned, now);
    lemma_attachment(color, seq![context(text)]);
    lemma_context(text);
}

/// A `stale` message shows all attachments of the findings, then a footer. With
/// no findings the footer stands alone, beside a green bar. After the heading,
/// and the button to the full report where there is one, come the money and the
/// scan.
pub proof fn a_stale_message_holds_the_findings(
    rows: Seq<&Evaluated>,
    scanned: nat,
    regions: Seq<Seq<char>>,
    fleet_burn: BurnRate,
    flagged_burn: BurnRate,
    cfg: SlackRuntimeConfig,
    now: Timestamp,
)
    ensures
        ({
            let m = stale_message(rows, scanned, regions, fleet_burn, flagged_burn, cfg, now);
            let all = attachments_of(m);
            &&& rows.len() == 0 ==> all.len() == 1 && all[0].member_text("color"@) == Some(
                "#38a169"@,
            )
            &&& rows.len() > 0 ==> all.drop_last() == finding_attachments(rows, cfg)
                && all.len() > 0 && all.last().member_text("color"@) == Some("#a0aec0"@)
            &&& context_line(blocks_of(all.last())[0]) == Some(
                truncated(crate::slack::render::footer_text(regions, scanned, now), 2500),
            )
            &&& blocks_of(m).len() == (if cfg.report_url is Some {
                4int
            } else {
                3
            })
            &&& context_line(blocks_of(m).last()) is Some
            &&& rows.len() > 0 ==> mentions(
                text_of_block(blocks_of(m)[blocks_of(m).len() - 2])->0,
                crate::format::usd_compact_text(flagged_burn.month),
            )
            &&& mentions(
                text_of_block(blocks_of(m)[blocks_of(m).len() - 2])->0,
                crate::format::usd_compact_text(fleet_burn.month),
            )
        }),
{
    let m = stale_message(rows, scanned, regions, fleet_burn, flagged_burn, cfg, now);
    let worst = crate::slack::render::rows_worst(rows);
    let head = top_blocks(
        crate::slack::render::emoji_text(worst) + " gasleak stale — "@
            + crate::slack::render::regions_text(regions),
        option_text(cfg.report_url),
    );
    let savings = crate::slack::render::savings_text(flagged_burn, fleet_burn, rows.len() == 0);
    let scan = crate::slack::render::scan_text(rows.len(), scanned, worst, regions);
    let blocks = head.push(section(savings)).push(context(scan));
    let text = crate::slack::render::stale_fallback(
        rows.len(),
        scanned,
        worst,
        fleet_burn,
        flagged_burn,
    );
    let found = finding_attachments(rows, cfg);
    let fleet = crate::format::usd_compact_text(fleet_burn.month);
    let saved = crate::format::usd_compact_text(flagged_burn.month);
    lemma_section(savings);
    lemma_context(scan);
    if rows.len() == 0 {
        let all = Seq::empty().push(footer(regions, scanned, now, "#38a169"@));
        lemma_message(text, blocks, all);
        lemma_footer(regions, scanned, now, "#38a169"@);
        lemma_mentions("*No stale instances.* "@, fleet, " fleet burn."@);
    } else {
        let all = found.push(footer(regions, scanned, now, "#a0aec0"@));
        lemma_message(text, blocks, all);
        lemma_footer(regions, scanned, now, "#a0aec0"@);
        assert(all.drop_last() =~= found);
        let mid = "/mo* potential savings · *"@;
        let end = "/mo* fleet burn rate"@;
        assert(savings =~= "*"@ + saved + (mid + fleet + end));
        lemma_mentions("*"@, saved, mid + fleet + end);
        assert(savings =~= ("*"@ + saved + mid) + fleet + end);
        lemma_mentions("*"@ + saved + mid, fleet, end);
    }
}

/// The most expensive records are ranked first: five of them, or all where
/// there are fewer, and no record that is left out costs more than one that is
/// shown.
pub proof fn the_top_records_cost_most(records: Seq<InstanceRecord>)
    ensures
        top_records(records).len() == least(records.len() as int, 5),
        forall|i: int|
            0 <= i < top_records(records).len() ==> records.contains(
                *(#[trigger] top_records(records)[i]),
            ),
        forall|i: int, j: int|
            0 <= i < j < top_records(records).len() ==> cost_rank(
                *(#[trigger] top_records(records)[i]),
            ) >= cost_rank(*(#[trigger] top_records(records)[j])),
        forall|i: int, r: InstanceRecord|
            0 <= i < top_records(records).len() && #[trigger] records.contains(r)
                && !top_records(records).contains(&r) ==> cost_rank(r) <= cost_rank(
                *(#[trigger] top_records(records)[i]),
            ),
{
    let refs = records.map_values(|r: InstanceRecord| &r);
    let all = sorted::<&InstanceRecord, CostlierRecord>(refs);
    let top = top_records(records);
    sorting_keeps_elements::<&InstanceRecord, CostlierRecord>(refs);
    sorting_orders::<&InstanceRecord, CostlierRecord>(refs);
    broadcast use vstd::seq_lib::group_to_multiset_ensures;
    assert(ordered::<&InstanceRecord, CostlierRecord>(all));
    assert forall|i: int| 0 <= i < top.len() implies records.contains(*(#[trigger] top[i])) by {
        assert(top[i] == all[i]);
        assert(all.contains(all[i]));
        assert(all.to_multiset().count(all[i]) > 0);
        assert(refs.to_multiset().count(all[i]) > 0);
        assert(refs.contains(all[i]));
        let k = choose|k: int| 0 <= k < refs.len() && refs[k] == all[i];
        assert(records[k] == *all[i]);
    }
    assert forall|i: int, r: InstanceRecord|
        0 <= i < top.len() && #[trigger] records.contains(r) && !top.contains(&r) implies cost_rank(
        r,
    ) <= cost_rank(*(#[trigger] top[i])) by {
        let k = choose|k: int| 0 <= k < records.len() && records[k] == r;
        assert(refs[k] == &r);
        assert(refs.contains(&r));
        assert(refs.to_multiset().count(&r) > 0);
        assert(all.to_multiset().count(&r) > 0);
        assert(all.contains(&r));
        let n = choose|n: int| 0 <= n < all.len() && all[n] == &r;
        if n < top.len() {
            assert(top[n] == &r);
        }
        assert(top[i] == all[i]);
        assert(!CostlierRecord::before(all[n], all[i]));
    }
}

/// A `list` message shows a row for each of the most expensive records, in
/// their order below a heading, then the footer.
pub proof fn a_list_message_shows_the_top_records(
    records: Seq<InstanceRecord>,
    regions: Seq<Seq<char>>,
    burn: BurnRate,
    cfg: SlackRuntimeConfig,
    now: Timestamp,
)
    ensures
        ({
            let m = list_message(records, regions, burn, cfg, now);
            let all = attachments_of(m);
            let top = top_records(records);
            &&& records.len() == 0 ==> all.len() == 1
            &&& records.len() > 0 ==> {
                &&& all.len() == 2
                &&& blocks_of(all[0]).len() == top.len() + 1
                &&& forall|i: int|
                    0 <= i < top.len() ==> #[trigger] blocks_of(all[0])[i + 1] == list_row(top[i])
            }
            &&& all.last().member_text("color"@) == Some("#a0aec0"@)
            &&& context_line(blocks_of(all.last())[0]) == Some(
                truncated(crate::slack::render::footer_text(regions, records.len(), now), 2500),
            )
        }),
{
    the_top_records_cost_most(records);
    let top = top_records(records);
    let n = records.len();
    let head = top_blocks(
        ":clipboard: gasleak list — "@ + crate::slack::render::regions_text(regions),
        option_text(cfg.report_url),
    );
    let money = "*"@ + crate::format::usd_compact_text(burn.month) + "* fleet burn rate · "@
        + nat_text(n) + " instances · "@ + crate::format::usd_compact_text(burn.year) + "/yr"@;
    let text = "gasleak list: "@ + nat_text(n) + " instances · "@
        + crate::format::usd_compact_text(burn.month) + " fleet burn"@;
    let rows = seq![label("Top 5 by cost"@)] + top.map_values(|r: &InstanceRecord| list_row(r));
    let last = footer(regions, n, now, "#a0aec0"@);
    lemma_footer(regions, n, now, "#a0aec0"@);
    lemma_attachment("#3182ce"@, rows);
    if top.len() == 0 {
        lemma_message(text, head.push(section(money)), Seq::empty().push(last));
    } else {
        lemma_message(
            text,
            head.push(section(money)),
            Seq::empty().push(attachment("#3182ce"@, rows)).push(last),
        );
        assert forall|i: int| 0 <= i < top.len() implies #[trigger] rows[i + 1] == list_row(
            top[i],
        ) by {
            assert(top.map_values(|r: &InstanceRecord| list_row(r))[i] == list_row(top[i]));
        }
    }
}

/// An `explain` message has a block for every rule, in their order below a
/// heading, beside the bar of the worst verdict; the volumes come next where
/// there are any, and the footer last.
pub proof fn an_explain_message_shows_every_rule(
    r: InstanceRecord,
    c: ContractView,
    trace: Seq<(Seq<char>, Result<VerdictView, SkipReason>)>,
    now: Timestamp,
)
    ensures
        ({
            let m = explain_message(r, c, trace, now);
            let all = attachments_of(m);
            let has_volumes = r.cost_breakdown is Some && r.cost_breakdown->0.volumes@.len() > 0;
            &&& all.len() == (if has_volumes {
                3int
            } else {
                2
            })
            &&& all[0].member_text("color"@) == Some(
                bar(
                    match worst(fired_in(trace)) {
                        Some(s) => s,
                        None => Severity::Info,
                    },
                ),
            )
            &&& blocks_of(all[0]).len() == trace.len() + 1
            &&& forall|i: int|
                0 <= i < trace.len() ==> #[trigger] blocks_of(all[0])[i + 1] == trace_block(
                    trace[i],
                )
            &&& has_volumes ==> all[1] == storage_block(r.cost_breakdown->0)
            &&& all.last().member_text("color"@) == Some("#a0aec0"@)
            &&& context_line(blocks_of(all.last())[0]) == Some(
                truncated(footer_text(seq![r.region@], 1, now), 2500),
            )
            &&& text_of_block(blocks_of(m)[0]) == Some(
                truncated(":mag: gasleak explain — "@ + r.instance_id@, 150),
            )
            &&& button_url(blocks_of(m)[1]) == Some(
                "https://console.aws.amazon.com/ec2/v2/home?region="@ + r.region@
                    + "#InstanceDetails:instanceId="@ + r.instance_id@,
            )
        }),
{
    let severity = match worst(fired_in(trace)) {
        Some(s) => s,
        None => Severity::Info,
    };
    let cost = crate::format::dollars_option_text(r.estimated_cost_usd);
    let line = "`"@ + r.instance_id@ + "` · `"@ + r.instance_type@ + "` · "@ + cost + " · owner: "@
        + owner_text(r, c, false) + "\nregion: `"@ + r.region@ + "`"@;
    let blocks = Seq::empty().push(header(":mag: gasleak explain — "@ + r.instance_id@)).push(
        section_with_button(line, r.region@, r.instance_id@),
    );
    let f = |t: (Seq<char>, Result<VerdictView, SkipReason>)| trace_block(t);
    let entries = seq![label("Rule evaluation"@)] + trace.map_values(f);
    let text = "gasleak explain "@ + r.instance_id@ + " · "@ + cost + " · worst "@
        + severity.label();
    let rules = Seq::empty().push(attachment(color_text(severity), entries));
    let last = footer(seq![r.region@], 1, now, "#a0aec0"@);
    lemma_attachment(color_text(severity), entries);
    lemma_button(line, r.region@, r.instance_id@);
    lemma_footer(seq![r.region@], 1, now, "#a0aec0"@);
    lemma_header(":mag: gasleak explain — "@ + r.instance_id@);
    if r.cost_breakdown is Some && r.cost_breakdown->0.volumes@.len() > 0 {
        lemma_message(text, blocks, rules.push(storage_block(r.cost_breakdown->0)).push(last));
    } else {
        lemma_message(text, blocks, rules.push(last));
    }
    assert forall|i: int| 0 <= i < trace.len() implies #[trigger] entries[i + 1] == trace_block(
        trace[i],
    ) by {
        assert(trace.map_values(f)[i] == trace_block(trace[i]));
    }
}

/// The block of a rule says whether the rule fired: its name in bold with the
/// verdict, or its name in italics with the reason why it was skipped.
pub proof fn a_rule_tells_its_outcome(rule: Seq<char>, v: VerdictView, reason: SkipReason)
    ensures
        text_of_block(trace_block((rule, Ok(v)))) == Some(
            truncated("*"@ + rule + "* — "@ + reason_text(v), 2500),
        ),
        text_of_block(trace_block((rule, Err(reason)))) == Some(
            truncated("_"@ + rule + "_ — skipped: "@ + reason.name(), 2500),
        ),
{
    lemma_section(truncated("*"@ + rule + "* — "@ + reason_text(v), 2500));
    lemma_section(truncated("_"@ + rule + "_ — skipped: "@ + reason.name(), 2500));
}

/// The worst row sets the tone: none is worse, and one is as bad. Without rows
/// it is `Info`.
pub proof fn the_worst_row_sets_the_tone(rows: Seq<&Evaluated>)
    ensures
        forall|i: int|
            0 <= i < rows.len() ==> row_severity(#[trigger] rows[i]).rank() <= rows_worst(
                rows,
            ).rank(),
        rows_worst(rows) != Severity::Info ==> exists|i: int|
            0 <= i < rows.len() && is_of(#[trigger] rows[i], rows_worst(rows)),
    decreases rows.len(),
{
    if rows.len() > 0 {
        let front = rows.drop_last();
        let n = rows.len() - 1;
        assert(rows[n] == rows.last());
        the_worst_row_sets_the_tone(front);
        assert forall|i: int| 0 <= i < rows.len() implies row_severity(#[trigger] rows[i]).rank()
            <= rows_worst(rows).rank() by {
            if i < n {
                assert(front[i] == rows[i]);
            }
        }
        if rows_worst(rows) != Severity::Info {
            if rows_worst(rows) == rows_worst(front) {
                let i = choose|i: int|
                    0 <= i < front.len() && is_of(#[trigger] front[i], rows_worst(front));
                assert(rows[i] == front[i]);
            } else {
                assert(is_of(rows[n], rows_worst(rows)));
            }
        }
    }
}

proof fn lemma_header(text: Seq<char>)
    ensures
        text_of_block(header(text)) == Some(truncated(text, 150)),
{
    reveal_keys();
    reveal_strlit("emoji");
    reveal_strlit("type");
    reveal_strlit("text");
    assert("emoji"@.len() == 5 && "type"@.len() == 4 && "text"@.len() == 4);
    let cut = truncated(text, 150);
    let inner = JsonView::Object(
        Seq::empty()
            .push(("type"@, JsonView::Text("plain_text"@)))
            .push(("text"@, JsonView::Text(cut)))
            .push(("emoji"@, JsonView::Bool(true))),
    );
    lemma_two(("type"@, JsonView::Text("header"@)), ("text"@, inner));
    lemma_three(
        ("type"@, JsonView::Text("plain_text"@)),
        ("text"@, JsonView::Text(cut)),
        ("emoji"@, JsonView::Bool(true)),
    );
}

/// The address that the first element of a block leads to.
pub open spec fn element_url(b: JsonView) -> Option<Seq<char>> {
    match b.member("elements"@) {
        Some(JsonView::List(items)) => if items.len() == 1 {
            items[0].member_text("url"@)
        } else {
            None
        },
        _ => None,
    }
}

proof fn lemma_actions(url: Seq<char>, caption: Seq<char>)
    ensures
        element_url(actions(url, caption)) == Some(url),
{
    reveal_keys();
    let text = JsonView::Object(
        Seq::empty().push(("type"@, JsonView::Text("plain_text"@))).push(
            ("text"@, JsonView::Text(truncated(caption, 75))),
        ),
    );
    let button = JsonView::Object(
        Seq::empty().push(("type"@, JsonView::Text("button"@))).push(("text"@, text)).push(
            ("url"@, JsonView::Text(url)),
        ),
    );
    lemma_two(
        ("type"@, JsonView::Text("actions"@)),
        ("elements"@, JsonView::List(seq![button])),
    );
    lemma_three(
        ("type"@, JsonView::Text("button"@)),
        ("text"@, text),
        ("url"@, JsonView::Text(url)),
    );
}

/// The notification of a `stale` message with findings tells how many rows were
/// flagged of how many scanned, how bad the worst is, and what could be saved.
pub proof fn the_notification_tells_the_counts(
    flagged: nat,
    scanned: nat,
    worst: Severity,
    fleet_burn: BurnRate,
    flagged_burn: BurnRate,
)
    requires
        flagged > 0,
    ensures
        ({
            let text = stale_fallback(flagged, scanned, worst, fleet_burn, flagged_burn);
            &&& mentions(
                text,
                nat_text(flagged) + " flagged / "@ + nat_text(scanned) + " scanned"@,
            )
            &&& mentions(text, "worst "@ + worst.label())
            &&& mentions(text, crate::format::usd_compact_text(flagged_burn.month))
        }),
{
    let text = stale_fallback(flagged, scanned, worst, fleet_burn, flagged_burn);
    let saved = crate::format::usd_compact_text(flagged_burn.month);
    reveal_strlit(" scanned · worst ");
    reveal_strlit(" scanned");
    reveal_strlit(" · ");
    reveal_strlit("worst ");
    assert(" scanned · worst "@ =~= " scanned"@ + " · "@ + "worst "@);
    let first = "gasleak stale: "@;
    let last = " potential savings"@;
    let counts = nat_text(flagged) + " flagged / "@ + nat_text(scanned) + " scanned"@;
    let told = "worst "@ + worst.label();
    let rest = " · "@ + saved + last;
    assert(text =~= first + counts + (" · "@ + told + rest));
    lemma_mentions(first, counts, " · "@ + told + rest);
    assert(text =~= (first + counts + " · "@) + told + rest);
    lemma_mentions(first + counts + " · "@, told, rest);
    assert(text =~= (first + counts + " · "@ + told + " · "@) + saved + last);
    lemma_mentions(first + counts + " · "@ + told + " · "@, saved, last);
}

/// The line about the scan tells how many rows were flagged of how many
/// scanned, how bad the worst is, and where it was looked.
pub proof fn the_scan_line_tells_the_counts(
    flagged: nat,
    scanned: nat,
    worst: Severity,
    regions: Seq<Seq<char>>,
)
    requires
        flagged > 0,
    ensures
        ({
            let line = scan_text(flagged, scanned, worst, regions);
            &&& mentions(line, "*"@ + nat_text(flagged) + " flagged*"@)
            &&& mentions(line, nat_text(scanned) + " scanned"@)
            &&& mentions(line, "worst *"@ + worst.label() + "*"@)
            &&& mentions(line, regions_text(regions))
        }),
{
    let scan = scan_text(flagged, scanned, worst, regions);
    let none = Seq::<char>::empty();
    reveal_strlit(" scanned · worst *");
    reveal_strlit(" scanned");
    reveal_strlit(" · ");
    reveal_strlit("worst *");
    reveal_strlit(" flagged* / ");
    reveal_strlit(" flagged*");
    reveal_strlit(" / ");
    reveal_strlit(" *");
    reveal_strlit("*");
    reveal_strlit(" ");
    reveal_strlit("* · region ");
    reveal_strlit(" · region ");
    assert(" *"@ =~= " "@ + "*"@);
    assert(" flagged* / "@ =~= " flagged*"@ + " / "@);
    assert(" scanned · worst *"@ =~= " scanned"@ + " · "@ + "worst *"@);
    assert("* · region "@ =~= "*"@ + " · region "@);
    let a = "*"@ + nat_text(flagged) + " flagged*"@;
    let b = nat_text(scanned) + " scanned"@;
    let c = "worst *"@ + worst.label() + "*"@;
    let d = regions_text(regions);
    let s = sign(worst) + " "@;
    let slash = " / "@;
    let dot = " · "@;
    let place = " · region "@;
    let after = dot + c + place + d;
    assert(scan =~= s + a + (slash + b + after));
    lemma_mentions(s, a, slash + b + after);
    assert(scan =~= (s + a + slash) + b + after);
    lemma_mentions(s + a + slash, b, after);
    assert(scan =~= (s + a + slash + b + dot) + c + (place + d));
    lemma_mentions(s + a + slash + b + dot, c, place + d);
    assert(scan =~= (s + a + slash + b + dot + c + place) + d + none);
    lemma_mentions(s + a + slash + b + dot + c + place, d, none);
}

/// A `stale` message carries the notification, a heading with the sign of the
/// worst row, a button to the report where an address is configured, and the
/// line about the scan.
pub proof fn a_stale_message_has_its_parts(
    rows: Seq<&Evaluated>,
    scanned: nat,
    regions: Seq<Seq<char>>,
    fleet_burn: BurnRate,
    flagged_burn: BurnRate,
    cfg: SlackRuntimeConfig,
    now: Timestamp,
)
    ensures
        ({
            let m = stale_message(rows, scanned, regions, fleet_burn, flagged_burn, cfg, now);
            let worst = rows_worst(rows);
            let blocks = blocks_of(m);
            &&& m.member_text("text"@) == Some(
                stale_fallback(rows.len(), scanned, worst, fleet_burn, flagged_burn),
            )
            &&& text_of_block(blocks[0]) == Some(
                truncated(sign(worst) + " gasleak stale — "@ + regions_text(regions), 150),
            )
            &&& cfg.report_url is Some ==> element_url(blocks[1]) == Some(cfg.report_url->0@)
            &&& context_line(blocks.last()) == Some(
                truncated(scan_text(rows.len(), scanned, worst, regions), 2500),
            )
        }),
{
    let worst = rows_worst(rows);
    let heading = crate::slack::render::emoji_text(worst) + " gasleak stale — "@ + regions_text(
        regions,
    );
    let head = top_blocks(heading, option_text(cfg.report_url));
    let savings = crate::slack::render::savings_text(flagged_burn, fleet_burn, rows.len() == 0);
    let scan = scan_text(rows.len(), scanned, worst, regions);
    let blocks = head.push(section(savings)).push(context(scan));
    let text = stale_fallback(rows.len(), scanned, worst, fleet_burn, flagged_burn);
    let all = if rows.len() == 0 {
        Seq::empty().push(footer(regions, scanned, now, "#38a169"@))
    } else {
        finding_attachments(rows, cfg).push(footer(regions, scanned, now, "#a0aec0"@))
    };
    lemma_message(text, blocks, all);
    lemma_header(heading);
    lemma_context(scan);
    if cfg.report_url is Some {
        lemma_actions(cfg.report_url->0@, "Open full report"@);
        assert(blocks[1] == actions(cfg.report_url->0@, "Open full report"@));
    }
    assert(blocks[0] == header(heading));
    assert(blocks.last() == context(scan));
}

proof fn lemma_body_mentions(rows: Seq<&Evaluated>, k: nat, i: int)
    requires
        0 <= i < k,
    ensures
        mentions(rollup_body(rows, k), "`"@ + rows[i].0.instance_id@ + "`"@),
    decreases k,
{
    let body = rollup_body(rows, k);
    let part = "`"@ + rows[i].0.instance_id@ + "`"@;
    let j = (k - 1) as nat;
    let front = rollup_body(rows, j) + rollup_separator(j as int);
    if i == k - 1 {
        reveal_strlit("`");
        reveal_strlit("` ");
        reveal_strlit(" ");
        assert("` "@ =~= "`"@ + " "@);
        let e = rows[i];
        let tail = " "@ + e.0.instance_type@ + " "@ + crate::format::dollars_option_text(
            e.0.estimated_cost_usd,
        );
        assert(body =~= front + part + tail);
        lemma_mentions(front, part, tail);
    } else {
        lemma_body_mentions(rows, j, i);
        let entry = rollup_entry(rows[j as int]);
        assert(body =~= Seq::<char>::empty() + rollup_body(rows, j) + (rollup_separator(j as int)
            + entry));
        lemma_mentions_within(
            Seq::empty(),
            rollup_body(rows, j),
            rollup_separator(j as int) + entry,
            part,
        );
    }
}

proof fn lemma_listed_is_the_most(rows: Seq<&Evaluated>, n: nat, k: nat)
    requires
        rollup_listed(rows, n) < k <= n,
    ensures
        byte_length(rollup_prefix(rows)) + byte_length(rollup_body(rows, k)) >= 2500,
    decreases n,
{
    if k < n {
        lemma_listed_is_the_most(rows, (n - 1) as nat, k);
    }
}

proof fn lemma_choices(rows: Seq<&Evaluated>, n: nat)
    ensures
        rollup_listed(rows, n) <= n,
        rollup_room(rows, n) <= n,
    decreases n,
{
    if n > 0 {
        lemma_choices(rows, (n - 1) as nat);
    }
}

/// A rollup begins with the number of its rows, names the first of them by
/// their ids, and counts the others. A row is left to the count only where the
/// text has no room for it.
pub proof fn a_rollup_names_or_counts_every_row(rows: Seq<&Evaluated>)
    ensures
        exists|k: nat|
            k <= rows.len() && rollup_text(rows) == (#[trigger] rollup_shown(rows, k)) && (forall|
                i: int,
            |
                0 <= i < k ==> mentions(
                    rollup_text(rows),
                    "`"@ + (#[trigger] rows[i]).0.instance_id@ + "`"@,
                )) && (k < rows.len() ==> mentions(
                rollup_text(rows),
                "… and "@ + nat_text((rows.len() - k) as nat) + " more"@,
            )) && (k < rows.len() ==> byte_length(rollup_prefix(rows)) + byte_length(
                rollup_body(rows, k + 1),
            ) >= 2500 || rollup_shown(rows, k + 1).len() > 2500),
        mentions(
            rollup_text(rows),
            "*"@ + nat_text(rows.len()) + " more Low-severity findings* ("@
                + crate::format::usd_compact_text(cost_total(rows)),
        ),
{
    let n = rows.len();
    let listed = rollup_listed(rows, n);
    let k = rollup_room(rows, listed);
    lemma_choices(rows, n);
    lemma_choices(rows, listed);
    let text = rollup_text(rows);
    let prefix = rollup_prefix(rows);
    let body = rollup_body(rows, k);
    let suffix = rollup_suffix((n - k) as nat);
    assert(text == rollup_shown(rows, k));
    assert forall|i: int| 0 <= i < k implies mentions(
        text,
        "`"@ + (#[trigger] rows[i]).0.instance_id@ + "`"@,
    ) by {
        lemma_body_mentions(rows, k, i);
        lemma_mentions_within(prefix, body, suffix, "`"@ + rows[i].0.instance_id@ + "`"@);
    }
    if k < n {
        reveal_strlit("  ·  … and ");
        reveal_strlit("  ·  ");
        reveal_strlit("… and ");
        assert("  ·  … and "@ =~= "  ·  "@ + "… and "@);
        let part = "… and "@ + nat_text((n - k) as nat) + " more"@;
        assert(text =~= (prefix + body + "  ·  "@) + part + Seq::<char>::empty());
        lemma_mentions(prefix + body + "  ·  "@, part, Seq::empty());
        if k < listed {
            crate::slack::render::rollup_drops_only_what_has_no_room(rows, k + 1);
        } else {
            lemma_listed_is_the_most(rows, n, k + 1);
        }
    }
    let first = "*"@ + nat_text(n) + " more Low-severity findings* ("@
        + crate::format::usd_compact_text(cost_total(rows));
    let rest = "/mo combined)\n"@ + body + suffix;
    assert(text =~= Seq::<char>::empty() + first + rest);
    lemma_mentions(Seq::empty(), first, rest);
}

/// The exact sum of the costs of some rows, unknown ones left out.
pub open spec fn exact_cost(rows: Seq<&Evaluated>) -> int
    decreases rows.len(),
{
    if rows.len() == 0 {
        0
    } else {
        exact_cost(rows.drop_last()) + match rows.last().0.estimated_cost_usd {
            Some(c) => c.value(),
            None => 0,
        }
    }
}

/// The sizes of all the subtotals on the way to the sum, added up.
pub open spec fn cost_subtotals(rows: Seq<&Evaluated>) -> int
    decreases rows.len(),
{
    if rows.len() == 0 {
        0
    } else {
        cost_subtotals(rows.drop_last()) + units(cost_total(rows).magnitude())
    }
}

/// The cost of the rows that are rolled up is that of all of them together, but
/// for rounding; what is not known counts as nothing.
pub proof fn the_cost_of_a_rollup_adds_up(rows: Seq<&Evaluated>)
    requires
        cost_total(rows).finite(),
    ensures
        near(cost_total(rows).value(), exact_cost(rows), cost_subtotals(rows)),
    decreases rows.len(),
{
    zero_adds_nothing(Double { bits: 0 });
    if rows.len() == 0 {
        crate::rounding::lemma_magnitude_parts(0);
        assert(units(0) == 0) by (nonlinear_arith)
            requires
                units(0) == crate::rounding::significand(0) * vstd::arithmetic::power2::pow2(
                    crate::rounding::scale(0),
                ),
                crate::rounding::significand(0) == 0,
        ;
        lemma_near_chain(0, 0, 0, 0, 0);
    } else {
        let front = rows.drop_last();
        let last = match rows.last().0.estimated_cost_usd {
            Some(c) => c,
            None => Double::of_int(0),
        };
        sums_are_near(cost_total(front), last);
        the_cost_of_a_rollup_adds_up(front);
        let before = cost_total(front).value();
        let exact = exact_cost(front);
        assert(before + last.value() - (exact + last.value()) == before - exact);
        assert(near(before + last.value(), exact + last.value(), cost_subtotals(front)));
        lemma_near_chain(
            cost_total(rows).value(),
            before + last.value(),
            exact + last.value(),
            units(cost_total(rows).magnitude()) as int,
            cost_subtotals(front),
        );
    }
}

/// A row of `list` tells id, type, cost and region of the instance, and its
/// button leads to it.
pub proof fn a_list_row_tells_the_instance(r: &InstanceRecord)
    ensures
        text_of_block(list_row(r)) is Some,
        mentions(text_of_block(list_row(r))->0, r.instance_id@),
        mentions(text_of_block(list_row(r))->0, r.instance_type@),
        mentions(
            text_of_block(list_row(r))->0,
            crate::format::dollars_option_text(r.estimated_cost_usd),
        ),
        mentions(text_of_block(list_row(r))->0, r.region@),
        button_url(list_row(r)) == Some(
            "https://console.aws.amazon.com/ec2/v2/home?region="@ + r.region@
                + "#InstanceDetails:instanceId="@ + r.instance_id@,
        ),
{
    let cost = crate::format::dollars_option_text(r.estimated_cost_usd);
    let a = "*`"@;
    let b = "`* · `"@;
    let c = "` · *"@;
    let d = "* · region `"@;
    let e = "`"@;
    let text = a + r.instance_id@ + b + r.instance_type@ + c + cost + d + r.region@ + e;
    lemma_button(text, r.region@, r.instance_id@);
    assert(text =~= a + r.instance_id@ + (b + r.instance_type@ + c + cost + d + r.region@ + e));
    lemma_mentions(a, r.instance_id@, b + r.instance_type@ + c + cost + d + r.region@ + e);
    let p = a + r.instance_id@ + b;
    assert(text =~= p + r.instance_type@ + (c + cost + d + r.region@ + e));
    lemma_mentions(p, r.instance_type@, c + cost + d + r.region@ + e);
    let q = p + r.instance_type@ + c;
    assert(text =~= q + cost + (d + r.region@ + e));
    lemma_mentions(q, cost, d + r.region@ + e);
    lemma_mentions(q + cost + d, r.region@, e);
}

/// Up to three regions are all named; more are counted.
pub proof fn regions_are_named_or_counted(regions: Seq<Seq<char>>)
    ensures
        1 <= regions.len() <= 3 ==> forall|k: int|
            0 <= k < regions.len() ==> mentions(regions_text(regions), #[trigger] regions[k]),
        regions.len() > 3 ==> regions_text(regions) == nat_text(regions.len()) + " regions"@,
        regions.len() == 1 ==> regions_text(regions) == regions[0],
{
    if 1 <= regions.len() <= 3 {
        assert forall|k: int| 0 <= k < regions.len() implies mentions(
            regions_text(regions),
            #[trigger] regions[k],
        ) by {
            if regions.len() == 1 {
                let none = Seq::<char>::empty();
                lemma_mentions(none, regions[0], none);
                assert(regions[0] =~= none + regions[0] + none);
            } else {
                lemma_joined_mentions(regions, ", "@, k);
            }
        }
    }
}

/// The footer names the regions, the second of the scan, and how many instances
/// were looked at.
pub proof fn the_footer_tells_the_scan(regions: Seq<Seq<char>>, scanned: nat, now: Timestamp)
    ensures
        mentions(footer_text(regions, scanned, now), regions_text(regions)),
        mentions(
            footer_text(regions, scanned, now),
            "<!date^"@ + int_text(now.seconds() as int) + "^"@,
        ),
        mentions(
            footer_text(regions, scanned, now),
            nat_text(scanned) + " instance"@ + (if scanned == 1 {
                ""@
            } else {
                "s"@
            }),
        ),
{
    let text = footer_text(regions, scanned, now);
    let none = Seq::<char>::empty();
    let place = regions_text(regions);
    let t = int_text(now.seconds() as int);
    reveal_strlit(" · scanned <!date^");
    reveal_strlit(" · scanned ");
    reveal_strlit("<!date^");
    reveal_strlit("^{date_short_pretty} at {time}|");
    reveal_strlit("^");
    reveal_strlit("{date_short_pretty} at {time}|");
    assert(" · scanned <!date^"@ =~= " · scanned "@ + "<!date^"@);
    assert("^{date_short_pretty} at {time}|"@ =~= "^"@ + "{date_short_pretty} at {time}|"@);
    let counted = nat_text(scanned) + " instance"@ + plural(scanned as int);
    let date = "<!date^"@ + t + "^"@;
    let tail = "{date_short_pretty} at {time}|"@ + t + "> · "@;
    let head = "v0.1.0 · "@;
    assert(text =~= head + place + (" · scanned "@ + date + tail + counted));
    lemma_mentions(head, place, " · scanned "@ + date + tail + counted);
    assert(text =~= (head + place + " · scanned "@) + date + (tail + counted));
    lemma_mentions(head + place + " · scanned "@, date, tail + counted);
    assert(text =~= (head + place + " · scanned "@ + date + tail) + counted + none);
    lemma_mentions(head + place + " · scanned "@ + date + tail, counted, none);
}

/// A `list` message tells what the fleet burns in a month and in a year, and how
/// many instances it has.
pub proof fn a_list_message_tells_the_money(
    records: Seq<InstanceRecord>,
    regions: Seq<Seq<char>>,
    burn: BurnRate,
    cfg: SlackRuntimeConfig,
    now: Timestamp,
)
    ensures
        ({
            let m = list_message(records, regions, burn, cfg, now);
            let text = text_of_block(blocks_of(m).last());
            &&& text is Some
            &&& mentions(text->0, crate::format::usd_compact_text(burn.month))
            &&& mentions(text->0, nat_text(records.len()) + " instances"@)
            &&& mentions(text->0, crate::format::usd_compact_text(burn.year) + "/yr"@)
            &&& text_of_block(blocks_of(m)[0]) == Some(
                truncated(":clipboard: gasleak list — "@ + regions_text(regions), 150),
            )
            &&& cfg.report_url is Some ==> element_url(blocks_of(m)[1]) == Some(
                cfg.report_url->0@,
            )
            &&& m.member_text("text"@) is Some
            &&& mentions(m.member_text("text"@)->0, nat_text(records.len()) + " instances"@)
            &&& mentions(m.member_text("text"@)->0, crate::format::usd_compact_text(burn.month))
        }),
{
    let n = records.len();
    let month = crate::format::usd_compact_text(burn.month);
    let year = crate::format::usd_compact_text(burn.year);
    let heading = ":clipboard: gasleak list — "@ + regions_text(regions);
    let head = top_blocks(heading, option_text(cfg.report_url));
    let money = "*"@ + month + "* fleet burn rate · "@ + nat_text(n) + " instances · "@ + year
        + "/yr"@;
    let text = "gasleak list: "@ + nat_text(n) + " instances · "@ + month + " fleet burn"@;
    let m = list_message(records, regions, burn, cfg, now);
    let blocks = head.push(section(money));
    lemma_message(text, blocks, attachments_of_list(records, regions, now));
    assert(m == message(text, blocks, attachments_of_list(records, regions, now)));
    lemma_header(heading);
    lemma_section(money);
    if cfg.report_url is Some {
        lemma_actions(cfg.report_url->0@, "Open full report"@);
        assert(blocks[1] == actions(cfg.report_url->0@, "Open full report"@));
    }
    assert(blocks[0] == header(heading));
    assert(blocks.last() == section(money));
    lemma_money(nat_text(n), month, year);
}

proof fn lemma_money(n: Seq<char>, month: Seq<char>, year: Seq<char>)
    ensures
        ({
            let money = "*"@ + month + "* fleet burn rate · "@ + n + " instances · "@ + year
                + "/yr"@;
            let text = "gasleak list: "@ + n + " instances · "@ + month + " fleet burn"@;
            &&& mentions(money, month)
            &&& mentions(money, n + " instances"@)
            &&& mentions(money, year + "/yr"@)
            &&& mentions(text, n + " instances"@)
            &&& mentions(text, month)
        }),
{
    let none = Seq::<char>::empty();
    let money = "*"@ + month + "* fleet burn rate · "@ + n + " instances · "@ + year + "/yr"@;
    let text = "gasleak list: "@ + n + " instances · "@ + month + " fleet burn"@;
    reveal_strlit(" instances · ");
    reveal_strlit(" instances");
    reveal_strlit(" · ");
    assert(" instances · "@ =~= " instances"@ + " · "@);
    let many = n + " instances"@;
    let rate = "* fleet burn rate · "@;
    let yearly = year + "/yr"@;
    assert(money =~= "*"@ + month + (rate + many + " · "@ + yearly));
    lemma_mentions("*"@, month, rate + many + " · "@ + yearly);
    assert(money =~= ("*"@ + month + rate) + many + (" · "@ + yearly));
    lemma_mentions("*"@ + month + rate, many, " · "@ + yearly);
    assert(money =~= ("*"@ + month + rate + many + " · "@) + yearly + none);
    lemma_mentions("*"@ + month + rate + many + " · "@, yearly, none);
    assert(text =~= "gasleak list: "@ + many + (" · "@ + month + " fleet burn"@));
    lemma_mentions("gasleak list: "@, many, " · "@ + month + " fleet burn"@);
    assert(text =~= ("gasleak list: "@ + many + " · "@) + month + " fleet burn"@);
    lemma_mentions("gasleak list: "@ + many + " · "@, month, " fleet burn"@);
}

/// The attachments of a `list` message.
spec fn attachments_of_list(
    records: Seq<InstanceRecord>,
    regions: Seq<Seq<char>>,
    now: Timestamp,
) -> Seq<JsonView> {
    let top = top_records(records);
    let rows = if top.len() == 0 {
        Seq::empty()
    } else {
        Seq::empty().push(
            attachment(
                "#3182ce"@,
                seq![label("Top 5 by cost"@)] + top.map_values(|r: &InstanceRecord| list_row(r)),
            ),
        )
    };
    rows.push(footer(regions, records.len(), now, crate::slack::render::neutral_color()))
}

proof fn lemma_volume_line(v: VolumeCost)
    ensures
        mentions(volume_line(v), "`"@ + v.volume_id@ + "`"@),
        mentions(volume_line(v), "$"@ + two_decimals_text(v.total_usd)),
{
    let text = volume_line(v);
    let note = match v.excluded_reason {
        Some(reason) => " _("@ + reason@ + ")_"@,
        None => ""@,
    };
    reveal_strlit("• `");
    reveal_strlit("• ");
    reveal_strlit("` ");
    reveal_strlit("`");
    reveal_strlit(" ");
    reveal_strlit(" · $");
    reveal_strlit(" · ");
    reveal_strlit("$");
    assert("• `"@ =~= "• "@ + "`"@);
    assert("` "@ =~= "`"@ + " "@);
    assert(" · $"@ =~= " · "@ + "$"@);
    let id = "`"@ + v.volume_id@ + "`"@;
    let mid = " "@ + v.volume_type@ + " "@ + int_text(v.size_gib as int) + " GiB · iops "@
        + crate::report::or_dash(v.iops) + " · mibps "@ + crate::report::or_dash(v.throughput_mibps)
        + " · "@;
    let cost = "$"@ + two_decimals_text(v.total_usd);
    assert(text =~= "• "@ + id + (mid + cost + note));
    lemma_mentions("• "@, id, mid + cost + note);
    assert(text =~= ("• "@ + id + mid) + cost + note);
    lemma_mentions("• "@ + id + mid, cost, note);
}

proof fn lemma_volumes_text(volumes: Seq<VolumeCost>, i: int, part: Seq<char>)
    requires
        0 <= i < volumes.len(),
        mentions(volume_line(volumes[i]), part),
    ensures
        mentions(volumes_text(volumes), part),
    decreases volumes.len(),
{
    let n = volumes.len() - 1;
    let front = volumes.drop_last();
    let text = volumes_text(volumes);
    assert(volumes[n] == volumes.last());
    if i == n {
        lemma_mentions_within(volumes_text(front), volume_line(volumes[i]), "\n"@, part);
    } else {
        assert(front[i] == volumes[i]);
        lemma_volumes_text(front, i, part);
        let none = Seq::<char>::empty();
        let rest = volume_line(volumes[n]) + "\n"@;
        assert(text =~= none + volumes_text(front) + rest);
        lemma_mentions_within(none, volumes_text(front), rest, part);
    }
}

/// The storage of an instance is told with what it has cost, its run rate, and
/// every volume with its id and its cost.
pub proof fn storage_is_told_by_volume(bd: CostBreakdown, i: int)
    requires
        0 <= i < bd.volumes@.len(),
    ensures
        ({
            let text = crate::slack::render::storage_text(bd);
            &&& text_of_block(blocks_of(storage_block(bd))[0]) == Some(truncated(text, 2500))
            &&& mentions(text, "$"@ + two_decimals_text(bd.storage_usd))
            &&& mentions(
                text,
                "run rate $"@ + two_decimals_text(bd.storage_run_rate_usd_per_month) + "/mo"@,
            )
            &&& mentions(text, "`"@ + bd.volumes@[i].volume_id@ + "`"@)
            &&& mentions(text, "$"@ + two_decimals_text(bd.volumes@[i].total_usd))
        }),
{
    let text = crate::slack::render::storage_text(bd);
    let cut = truncated(text, 2500);
    let none = Seq::<char>::empty();
    let list = volumes_text(bd.volumes@);
    lemma_attachment("#718096"@, seq![section(cut)]);
    lemma_section(cut);
    reveal_strlit("*Storage $");
    reveal_strlit("*Storage ");
    reveal_strlit("$");
    reveal_strlit(" since volume create_time · run rate $");
    reveal_strlit(" since volume create_time · ");
    reveal_strlit("run rate $");
    reveal_strlit("/mo*\n");
    reveal_strlit("/mo");
    reveal_strlit("*\n");
    assert("*Storage $"@ =~= "*Storage "@ + "$"@);
    assert(" since volume create_time · run rate $"@ =~= " since volume create_time · "@
        + "run rate $"@);
    assert("/mo*\n"@ =~= "/mo"@ + "*\n"@);
    let a = "$"@ + two_decimals_text(bd.storage_usd);
    let b = "run rate $"@ + two_decimals_text(bd.storage_run_rate_usd_per_month) + "/mo"@;
    let mid = " since volume create_time · "@;
    assert(text =~= "*Storage "@ + a + (mid + b + "*\n"@ + list));
    lemma_mentions("*Storage "@, a, mid + b + "*\n"@ + list);
    assert(text =~= ("*Storage "@ + a + mid) + b + ("*\n"@ + list));
    lemma_mentions("*Storage "@ + a + mid, b, "*\n"@ + list);
    let head = "*Storage "@ + a + mid + b + "*\n"@;
    assert(text =~= head + list + none);
    let v = bd.volumes@[i];
    lemma_volume_line(v);
    lemma_volumes_text(bd.volumes@, i, "`"@ + v.volume_id@ + "`"@);
    lemma_volumes_text(bd.volumes@, i, "$"@ + two_decimals_text(v.total_usd));
    lemma_mentions_within(head, list, none, "`"@ + v.volume_id@ + "`"@);
    lemma_mentions_within(head, list, none, "$"@ + two_decimals_text(v.total_usd));
}

/// Who is not known by a Slack handle is named by who launched the instance,
/// and an empty name is no name.
pub proof fn owners_are_named(r: InstanceRecord, c: ContractView, mention: bool)
    ensures
        c.owner_slack is None && (r.launched_by is None || r.launched_by->0@.len() == 0)
            ==> owner_text(r, c, mention) == "unknown"@,
        c.owner_slack is None && r.launched_by is Some && r.launched_by->0@.len() > 0
            ==> owner_text(r, c, mention) == "`"@ + r.launched_by->0@ + "`"@,
        c.owner_slack is Some && mention ==> owner_text(r, c, mention) == c.owner_slack->0@,
        c.owner_slack is Some && !mention ==> owner_text(r, c, mention) == "`"@
            + c.owner_slack->0@ + "`"@,
{
}

} // verus!
