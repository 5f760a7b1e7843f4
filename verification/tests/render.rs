use gasleak::contract::ContractView;
use gasleak::double::Double;
use gasleak::model::{BurnRate, InstanceRecord, InstanceState, LaunchedBySource};
use gasleak::run::Evaluated;
use gasleak::slack::render::{
    aws_console_button, bucket_by_severity, collect_flagged, format_reason_tag,
    format_short_duration, owner_label, regions_label, render_explain, render_list, render_stale,
    rollup_block, row_block_stale, severity_color, severity_emoji, trace_entry_block, truncate,
};
use gasleak::slack::{MentionThreshold, SlackRuntimeConfig};
use gasleak::staleness::{RuleTrace, Severity, SkipReason, Verdict};
use gasleak::tags::Tags;
use gasleak::timestamp::Timestamp;
use gasleak::value::Json;

fn d(x: f64) -> Double {
    Double { bits: x.to_bits() }
}

fn hourly(x: f64) -> BurnRate {
    BurnRate::from_hourly(d(x))
}

fn ts(s: &str) -> Timestamp {
    Timestamp::parse(s).unwrap()
}

fn at<'a>(v: &'a Json, key: &str) -> &'a Json {
    match v.member(key) {
        Some(m) => m,
        None => panic!("no member {key}"),
    }
}

fn items(v: &Json) -> &Vec<Json> {
    match v {
        Json::List(l) => l,
        _ => panic!("not a list"),
    }
}

fn text(v: &Json) -> &str {
    match v {
        Json::Text(t) => t,
        _ => panic!("not a text"),
    }
}

fn block_text(b: &Json) -> &str {
    text(at(at(b, "text"), "text"))
}

fn attachments(out: &Json) -> &Vec<Json> {
    items(at(out, "attachments"))
}

fn colored<'a>(out: &'a Json, color: &str) -> Option<&'a Json> {
    attachments(out).iter().find(|a| text(at(a, "color")) == color)
}

fn cfg() -> SlackRuntimeConfig {
    SlackRuntimeConfig {
        webhook_url: "https://hooks.slack.com/services/AAA/BBB/CCC".into(),
        max_flagged_rows: 3,
        report_url: None,
        mention_threshold: MentionThreshold::High,
    }
}

fn record(id: &str, itype: &str, cost: f64, region: &str) -> InstanceRecord {
    InstanceRecord {
        instance_id: id.into(),
        launched_by: Some("alice".into()),
        launched_by_source: LaunchedBySource::Tag,
        launch_time: ts("2026-01-01T00:00:00Z"),
        created_at: ts("2026-01-01T00:00:00Z"),
        last_uptime_seconds: 100 * 86_400,
        total_age_seconds: 100 * 86_400,
        instance_type: itype.into(),
        state: InstanceState::Running,
        region: region.into(),
        az: None,
        iam_instance_profile: None,
        key_name: None,
        tags: Tags::new(),
        estimated_cost_usd: Some(d(cost)),
        cost_breakdown: None,
        cpu: None,
    }
}

fn empty_contract() -> ContractView {
    ContractView { managed_by_gasleak: false, owner: None, owner_slack: None, expires_at: None }
}

fn high_severity_verdicts() -> Vec<Verdict> {
    vec![
        Verdict::Inactive {
            idle_for_secs: Some(40 * 86_400),
            samples: 500,
            window_secs: 30 * 86_400,
            severity: Severity::High,
        },
        Verdict::NonCompliant {
            missing: vec!["ManagedBy", "Owner"],
            tampered: false,
            past_deadline: false,
        },
    ]
}

fn low_severity_verdicts() -> Vec<Verdict> {
    vec![Verdict::LongLived { age_secs: 120 * 86_400 }]
}

#[test]
fn empty_render_drops_all_clear_attachment_duplicate() {
    let burn = hourly(42.0);
    let out = render_stale(
        &[],
        36,
        &["us-east-1"],
        &burn,
        &hourly(0.0),
        &cfg(),
        ts("2026-04-22T00:00:00Z"),
    );

    assert_eq!(attachments(&out).len(), 1, "only the footer should remain");
    assert_eq!(
        text(at(&attachments(&out)[0], "color")),
        "#38a169",
        "footer uses the all-clear green when nothing flagged",
    );
    let fallback = text(at(&out, "text"));
    assert!(fallback.contains("0 flagged"));
}

#[test]
fn single_high_finding_renders_one_row_block() {
    let r = record("i-001", "c5.large", 1234.0, "us-east-1");
    let flagged = [(r, empty_contract(), high_severity_verdicts())];
    let refs: Vec<&Evaluated> = flagged.iter().collect();

    let out = render_stale(
        &refs,
        1,
        &["us-east-1"],
        &hourly(10.0),
        &hourly(2.0),
        &cfg(),
        ts("2026-04-22T00:00:00Z"),
    );
    assert_eq!(text(at(&attachments(&out)[0], "color")), "#c91517");
    let blocks = items(at(&attachments(&out)[0], "blocks"));
    assert_eq!(blocks.len(), 2); // header label + 1 row
    let row = &blocks[1];
    assert!(block_text(row).contains("i-001"));
    assert_eq!(text(at(at(row, "accessory"), "type")), "button");
    assert!(text(at(at(row, "accessory"), "url")).contains("InstanceDetails:instanceId=i-001"));
}

#[test]
fn low_severity_overflow_compresses_into_rollup() {
    let evaluated: Vec<Evaluated> = (0..6)
        .map(|i| {
            (
                record(
                    &format!("i-{i:03}"),
                    "t3.small",
                    (100.0 + i as f64) * 10.0,
                    "us-east-1",
                ),
                empty_contract(),
                low_severity_verdicts(),
            )
        })
        .collect();
    let refs: Vec<&Evaluated> = evaluated.iter().collect();

    let out = render_stale(
        &refs,
        6,
        &["us-east-1"],
        &hourly(10.0),
        &hourly(5.0),
        &cfg(),
        ts("2026-04-22T00:00:00Z"),
    );
    let low = colored(&out, "#ecc94b").expect("low attachment present");
    let blocks = items(at(low, "blocks"));
    assert_eq!(blocks.len(), 5); // header_label + 3 full + 1 rollup
    let rollup = blocks.last().unwrap();
    assert!(rollup.member("accessory").is_none());
    assert!(block_text(rollup).contains("3 more Low-severity findings"));
    // The costliest rows are shown in full.
    assert!(block_text(&blocks[1]).contains("i-005"));
    assert!(block_text(&blocks[3]).contains("i-003"));
}

#[test]
fn high_severity_never_compresses_even_with_many_findings() {
    let evaluated: Vec<Evaluated> = (0..20)
        .map(|i| {
            (
                record(
                    &format!("i-{i:03}"),
                    "c5.large",
                    (1000.0 + i as f64) * 10.0,
                    "us-east-1",
                ),
                empty_contract(),
                high_severity_verdicts(),
            )
        })
        .collect();
    let refs: Vec<&Evaluated> = evaluated.iter().collect();

    let out = render_stale(
        &refs,
        20,
        &["us-east-1"],
        &hourly(10.0),
        &hourly(5.0),
        &cfg(),
        ts("2026-04-22T00:00:00Z"),
    );
    let high = colored(&out, "#c91517").expect("high attachment present");
    assert_eq!(items(at(high, "blocks")).len(), 21); // header_label + 20 rows
}

#[test]
fn row_text_includes_severity_emoji_and_cost() {
    let r = record("i-abc", "m5.large", 987.65, "us-east-1");
    let block = row_block_stale(
        &(r, empty_contract(), high_severity_verdicts()),
        Severity::High,
        &cfg(),
    );
    let text = block_text(&block);
    assert!(text.contains("🚨"));
    assert!(text.contains("i-abc"));
    assert!(text.contains("$988")); // rounded past $100
    assert!(text.contains("⏸ inactive"));
    assert!(text.contains("🏷 non-compliant"));
}

#[test]
fn report_url_renders_as_actions_block_when_set() {
    let mut c = cfg();
    c.report_url = Some("https://runbook.example.com/gasleak".into());
    let out = render_stale(
        &[],
        0,
        &["us-east-1"],
        &hourly(10.0),
        &hourly(0.0),
        &c,
        ts("2026-04-22T00:00:00Z"),
    );
    let blocks = items(at(&out, "blocks"));
    let actions = blocks
        .iter()
        .find(|b| text(at(b, "type")) == "actions")
        .expect("actions block present when report_url is set");
    assert_eq!(
        text(at(&items(at(actions, "elements"))[0], "url")),
        "https://runbook.example.com/gasleak"
    );
}

#[test]
fn owner_handle_rendered_with_mention_threshold() {
    let contract = || {
        let mut contract = empty_contract();
        contract.owner_slack = Some("@alice".into());
        contract
    };
    let bare = || {
        let mut r = record("i-001", "c5.large", 100.0, "us-east-1");
        r.launched_by = None;
        r
    };

    let high_block =
        row_block_stale(&(bare(), contract(), high_severity_verdicts()), Severity::High, &cfg());
    assert!(block_text(&high_block).contains("owner: @alice"));

    let low_block =
        row_block_stale(&(bare(), contract(), low_severity_verdicts()), Severity::Low, &cfg());
    assert!(block_text(&low_block).contains("owner: `@alice`"));
}

#[test]
fn trace_emojis_are_outcome_driven_not_checkmark() {
    let fired = RuleTrace {
        rule: "inactive",
        result: Ok(Verdict::Inactive {
            idle_for_secs: Some(40 * 86_400),
            samples: 500,
            window_secs: 30 * 86_400,
            severity: Severity::High,
        }),
    };
    let skipped = RuleTrace { rule: "managed", result: Err(SkipReason::NoControllerTags) };
    let fired_block = trace_entry_block(&fired);
    let skipped_block = trace_entry_block(&skipped);
    let fired_text = block_text(&fired_block);
    let skipped_text = block_text(&skipped_block);
    assert!(!fired_text.contains('✅'));
    assert!(fired_text.contains("*inactive*"));
    assert!(fired_text.contains("⏸"));
    assert!(skipped_text.contains("_managed_"));
    assert!(skipped_text.contains("skipped:"));
}

#[test]
fn explain_renders_trace_attachment_with_worst_severity_color() {
    let r = record("i-001", "c5.large", 500.0, "us-east-1");
    let trace = vec![
        RuleTrace { rule: "managed", result: Err(SkipReason::NoControllerTags) },
        RuleTrace { rule: "inactive", result: Ok(high_severity_verdicts().remove(0)) },
    ];
    let out = render_explain(&r, &empty_contract(), &trace, &cfg(), ts("2026-04-22T00:00:00Z"));
    assert_eq!(text(at(&attachments(&out)[0], "color")), "#c91517");
    assert!(items(at(&attachments(&out)[0], "blocks")).len() >= 3);
}

#[test]
fn list_top_5_renders_accessory_button_per_row() {
    let records: Vec<InstanceRecord> = (0..8)
        .map(|i| record(&format!("i-{i:03}"), "t3.small", 100.0 + i as f64, "us-east-1"))
        .collect();
    let out = render_list(
        &records,
        &["us-east-1"],
        &hourly(12.0),
        &cfg(),
        ts("2026-04-22T00:00:00Z"),
    );
    let blocks = items(at(&attachments(&out)[0], "blocks"));
    assert_eq!(blocks.len(), 6); // header_label + 5 rows
    for b in blocks.iter().skip(1) {
        assert_eq!(text(at(at(b, "accessory"), "type")), "button");
    }
    assert!(block_text(&blocks[1]).contains("i-007"));
}

#[test]
fn rollup_text_never_exceeds_slack_block_limit() {
    let rows: Vec<Evaluated> = (0..200)
        .map(|i| {
            (
                record(
                    &format!("i-padpadpadpad{i:03}"),
                    "m5.24xlarge",
                    i as f64,
                    "us-east-1",
                ),
                empty_contract(),
                low_severity_verdicts(),
            )
        })
        .collect();
    let row_refs: Vec<&Evaluated> = rows.iter().collect();
    let block = rollup_block(&row_refs);
    let text = block_text(&block);
    assert!(text.len() <= 3000, "rollup text exceeded Slack limit: {} chars", text.len());
    assert!(text.contains("… and"));
}

#[test]
fn mixed_severity_attachments_stay_under_ten() {
    let mut evaluated: Vec<Evaluated> = Vec::new();
    for i in 0..5 {
        evaluated.push((
            record(&format!("i-h{i}"), "c5.large", 1000.0, "us-east-1"),
            empty_contract(),
            high_severity_verdicts(),
        ));
    }
    for i in 0..5 {
        evaluated.push((
            record(&format!("i-l{i}"), "t3.micro", 10.0, "us-east-1"),
            empty_contract(),
            low_severity_verdicts(),
        ));
    }
    let refs: Vec<&Evaluated> = evaluated.iter().collect();

    let out = render_stale(
        &refs,
        evaluated.len(),
        &["us-east-1"],
        &hourly(20.0),
        &hourly(10.0),
        &cfg(),
        ts("2026-04-22T00:00:00Z"),
    );
    assert!(attachments(&out).len() <= 10);
}

#[test]
fn envelopes_hold_text_blocks_and_attachments() {
    let evaluated: Vec<Evaluated> = vec![
        (record("i-001", "t3.small", 1.0, "us-east-1"), empty_contract(), high_severity_verdicts()),
        (
            record("i-002", "t3.small", 1.0, "us-east-1"),
            empty_contract(),
            vec![Verdict::Managed { controller: "eks" }],
        ),
    ];
    let flagged = collect_flagged(&evaluated);
    assert_eq!(flagged.len(), 1);
    assert_eq!(flagged[0].0.instance_id, "i-001");
    let payload = render_stale(
        &flagged,
        evaluated.len(),
        &["us-east-1"],
        &hourly(10.0),
        &hourly(5.0),
        &cfg(),
        ts("2026-04-23T00:00:00Z"),
    );
    assert!(matches!(at(&payload, "text"), Json::Text(_)));
    assert!(matches!(at(&payload, "blocks"), Json::List(_)));
    assert!(matches!(at(&payload, "attachments"), Json::List(_)));
}

#[test]
fn urgent_rows_past_the_ceiling_are_counted() {
    let rows: Vec<Evaluated> = (0..50)
        .map(|i| {
            let verdicts =
                if i < 45 { high_severity_verdicts() } else { low_severity_verdicts() };
            (record(&format!("i-{i:03}"), "c5.large", i as f64, "r"), empty_contract(), verdicts)
        })
        .collect();
    let refs: Vec<&Evaluated> = rows.iter().collect();
    let b = bucket_by_severity(&refs, 3);
    assert_eq!((b.high.len(), b.medium.len(), b.low.len(), b.low_rest.len()), (40, 0, 0, 5));
    assert_eq!(b.suppressed, 5);
    assert_eq!(b.high[0].0.instance_id, "i-044");
    assert_eq!(b.low_rest[0].0.instance_id, "i-049");
}

#[test]
fn equal_costs_keep_their_order() {
    let rows: Vec<Evaluated> = (0..4)
        .map(|i| {
            (record(&format!("i-{i}"), "t", 7.0, "r"), empty_contract(), low_severity_verdicts())
        })
        .collect();
    let refs: Vec<&Evaluated> = rows.iter().collect();
    let b = bucket_by_severity(&refs, 2);
    let ids: Vec<&str> = b.low.iter().chain(b.low_rest.iter()).map(|r| r.0.instance_id.as_str()).collect();
    assert_eq!(ids, vec!["i-0", "i-1", "i-2", "i-3"]);
}

#[test]
fn severities_have_emoji_and_color() {
    let all = [Severity::High, Severity::Medium, Severity::Low, Severity::Info];
    assert_eq!(all.map(severity_emoji), ["🚨", "🔶", "🟡", "🟢"]);
    assert_eq!(all.map(severity_color), ["#c91517", "#d69e2e", "#ecc94b", "#3182ce"]);
}

#[test]
fn short_durations_name_one_unit() {
    assert_eq!(format_short_duration(59), "0m");
    assert_eq!(format_short_duration(3_540), "59m");
    assert_eq!(format_short_duration(7_200), "2h");
    assert_eq!(format_short_duration(-90_000), "1d");
    assert_eq!(format_short_duration(i64::MIN), "106751991167300d");
}

#[test]
fn reasons_have_tags() {
    let t = ts("2026-04-22T00:00:00Z");
    for (v, want) in [
        (Verdict::Managed { controller: "eks" }, "🤖 managed(eks)"),
        (Verdict::Expired { at: t, overdue_secs: 86_400 }, "🛑 expired 1d ago"),
        (Verdict::ExpiringSoon { at: t, within_secs: 3_600 }, "⏰ expiring in 1h"),
        (
            Verdict::Inactive {
                idle_for_secs: None,
                samples: 1,
                window_secs: 1,
                severity: Severity::Low,
            },
            "⏸ inactive (no activity in window)",
        ),
        (Verdict::LongLived { age_secs: 86_400 }, "🕰 long-lived (1d)"),
        (
            Verdict::Underutilized { p95_pct: d(2.25), samples: 1, window_secs: 1 },
            "📉 underutilized (p95 2.2%)",
        ),
        (
            Verdict::NonCompliant { missing: vec![], tampered: true, past_deadline: false },
            "🏷 non-compliant (tampered)",
        ),
    ] {
        assert_eq!(format_reason_tag(&v), want);
    }
}

#[test]
fn texts_are_cut_with_an_ellipsis() {
    assert_eq!(truncate("héllo", 5), "héllo");
    assert_eq!(truncate("héllo!", 5), "héll…");
    assert_eq!(truncate("abc", 0), "…");
    assert_eq!(truncate("", 0), "");
}

#[test]
fn region_labels_count_past_three() {
    assert_eq!(regions_label(&[]), "unknown");
    assert_eq!(regions_label(&["a"]), "a");
    assert_eq!(regions_label(&["a", "b", "c"]), "a, b, c");
    assert_eq!(regions_label(&["a", "b", "c", "d"]), "4 regions");
}

#[test]
fn console_buttons_point_at_the_instance() {
    let b = aws_console_button("eu-west-1", "i-9");
    assert_eq!(
        text(at(&b, "url")),
        "https://console.aws.amazon.com/ec2/v2/home?region=eu-west-1#InstanceDetails:instanceId=i-9"
    );
    assert_eq!(block_text(&b), "AWS Console");
}

#[test]
fn owners_fall_back_to_who_launched() {
    let mut r = record("i", "t", 1.0, "r");
    assert_eq!(owner_label(&r, &empty_contract(), true), "`alice`");
    r.launched_by = Some(String::new());
    assert_eq!(owner_label(&r, &empty_contract(), true), "unknown");
    r.launched_by = None;
    assert_eq!(owner_label(&r, &empty_contract(), false), "unknown");
}

#[test]
fn stale_messages_word_for_word() {
    let evaluated: Vec<Evaluated> = vec![(
        record("i-001", "t3.small", 1.0, "us-east-1"),
        empty_contract(),
        high_severity_verdicts(),
    )];
    let refs: Vec<&Evaluated> = evaluated.iter().collect();
    let now = ts("2026-04-23T00:00:00Z");
    let out = render_stale(&refs, 2, &["us-east-1"], &hourly(10.0), &hourly(0.1), &cfg(), now);
    assert_eq!(
        text(at(&out, "text")),
        "gasleak stale: 1 flagged / 2 scanned · worst HIGH · $73.00 potential savings"
    );
    let blocks = items(at(&out, "blocks"));
    assert_eq!(blocks.len(), 3);
    assert_eq!(block_text(&blocks[0]), "🚨 gasleak stale — us-east-1");
    assert_eq!(
        block_text(&blocks[1]),
        "*$73.00/mo* potential savings · *$7,300/mo* fleet burn rate"
    );
    assert_eq!(
        text(at(&items(at(&blocks[2], "elements"))[0], "text")),
        "🚨 *1 flagged* / 2 scanned · worst *HIGH* · region us-east-1"
    );
    let rows = items(at(&attachments(&out)[0], "blocks"));
    assert_eq!(block_text(&rows[0]), "*🚨 HIGH severity (1)*");
    assert_eq!(
        block_text(&rows[1]),
        "🚨 *`i-001`* · `t3.small` · *$1.00* · owner: `alice`\n⏸ inactive 40d  ·  🏷 non-compliant"
    );
    let footer = attachments(&out).last().unwrap();
    assert_eq!(text(at(footer, "color")), "#a0aec0");
    let line = text(at(&items(at(&items(at(footer, "blocks"))[0], "elements"))[0], "text"));
    let secs = now.as_second();
    assert_eq!(
        line,
        format!("v0.1.0 · us-east-1 · scanned <!date^{secs}^{{date_short_pretty}} at {{time}}|{secs}> · 2 instances")
    );
}

#[test]
fn overflow_banners_count_what_has_no_room() {
    let rows: Vec<Evaluated> = (0..41)
        .map(|i| {
            (record(&format!("i-{i}"), "t", 1.0, "r"), empty_contract(), high_severity_verdicts())
        })
        .collect();
    let refs: Vec<&Evaluated> = rows.iter().collect();
    let out = render_stale(
        &refs,
        41,
        &["r"],
        &hourly(1.0),
        &hourly(1.0),
        &cfg(),
        ts("2026-04-23T00:00:00Z"),
    );
    assert_eq!(attachments(&out).len(), 3);
    let banner = &items(at(&attachments(&out)[1], "blocks"))[0];
    assert_eq!(
        text(at(&items(at(banner, "elements"))[0], "text")),
        "🚨 1 urgent finding beyond Slack's block budget. Fleet is in distress — run `gasleak stale` locally for the full picture."
    );
}

#[test]
fn rollups_word_for_word() {
    let rows: Vec<Evaluated> = (0..2)
        .map(|i| {
            (record(&format!("i-{i}"), "t3.small", 60.0, "r"), empty_contract(), low_severity_verdicts())
        })
        .collect();
    let refs: Vec<&Evaluated> = rows.iter().collect();
    assert_eq!(
        block_text(&rollup_block(&refs)),
        "*2 more Low-severity findings* ($120/mo combined)\n`i-0` t3.small $60.00  ·  `i-1` t3.small $60.00"
    );
}

#[test]
fn rollups_list_what_fits_and_drop_only_what_passes_the_cap() {
    let mut dropped = 0;
    for (pad, extra) in (0..30usize).flat_map(|p| (0..60usize).map(move |e| (p, e))) {
        let rows: Vec<Evaluated> = (0..150)
            .map(|i| {
                let id = format!("i-{i:03}{}", "x".repeat(if i == 0 { extra } else { pad * 12 }));
                (record(&id, "m5.large", 60.0, "r"), empty_contract(), low_severity_verdicts())
            })
            .collect();
        let refs: Vec<&Evaluated> = rows.iter().collect();
        let block = rollup_block(&refs);
        let text = block_text(&block);

        // Rows as long as prefix and entries stay below 2500 bytes.
        let prefix = "*150 more Low-severity findings* ($9,000/mo combined)\n";
        let mut bodies: Vec<String> = vec![String::new()];
        for (i, row) in rows.iter().enumerate() {
            let entry = format!("`{}` m5.large $60.00", row.0.instance_id);
            let sep = if i == 0 { "" } else { "  ·  " };
            let next = format!("{}{sep}{entry}", bodies[i]);
            if prefix.len() + next.len() >= 2500 {
                break;
            }
            bodies.push(next);
        }
        let with = |k: usize| format!("{prefix}{}  ·  … and {} more", bodies[k], 150 - k);
        let listed = bodies.len() - 1;
        let mut k = listed;
        while with(k).chars().count() > 2500 {
            k -= 1;
            dropped += 1;
        }
        assert_eq!(text, with(k), "{pad} {extra}");
        assert!(text.chars().count() <= 2500);
        assert!(text.len() <= 3000);
    }
    // Long ids leave few separators, so that the suffix passes the cap at times.
    assert!(dropped > 0);

    // One row that does not fit is counted.
    let huge: Evaluated =
        (record(&"x".repeat(5000), "t", 1.0, "r"), empty_contract(), low_severity_verdicts());
    assert_eq!(
        block_text(&rollup_block(&[&huge])),
        "*1 more Low-severity findings* ($1.00/mo combined)\n  ·  … and 1 more"
    );
}

#[test]
fn list_and_explain_messages_word_for_word() {
    let now = ts("2026-04-22T00:00:00Z");
    let r = record("i-001", "c5.large", 500.0, "us-east-1");
    let out = render_list(std::slice::from_ref(&r), &["us-east-1"], &hourly(1.0), &cfg(), now);
    assert_eq!(text(at(&out, "text")), "gasleak list: 1 instances · $730 fleet burn");
    let blocks = items(at(&out, "blocks"));
    assert_eq!(block_text(&blocks[0]), ":clipboard: gasleak list — us-east-1");
    assert_eq!(block_text(&blocks[1]), "*$730* fleet burn rate · 1 instances · $8,760/yr");
    let rows = items(at(&attachments(&out)[0], "blocks"));
    assert_eq!(block_text(&rows[0]), "*Top 5 by cost*");
    assert_eq!(block_text(&rows[1]), "*`i-001`* · `c5.large` · *$500* · region `us-east-1`");

    let trace = vec![RuleTrace { rule: "managed", result: Err(SkipReason::NoControllerTags) }];
    let out = render_explain(&r, &empty_contract(), &trace, &cfg(), now);
    assert_eq!(text(at(&out, "text")), "gasleak explain i-001 · $500 · worst INFO");
    let blocks = items(at(&out, "blocks"));
    assert_eq!(block_text(&blocks[0]), ":mag: gasleak explain — i-001");
    assert_eq!(
        block_text(&blocks[1]),
        "`i-001` · `c5.large` · $500 · owner: `alice`\nregion: `us-east-1`"
    );
    assert_eq!(text(at(&attachments(&out)[0], "color")), "#3182ce");
    let rows = items(at(&attachments(&out)[0], "blocks"));
    assert_eq!(block_text(&rows[0]), "*Rule evaluation*");
    assert_eq!(block_text(&rows[1]), "_managed_ — skipped: no_controller_tags");
    let none = render_list(&[], &[], &hourly(0.0), &cfg(), now);
    assert_eq!(attachments(&none).len(), 1);
}
