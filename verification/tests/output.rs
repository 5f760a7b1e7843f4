use gasleak::contract::ContractView;
use gasleak::double::Double;
use gasleak::json::{
    contract_json, cpu_json, record_json, verdict_json, ExplainOutput, ListOutput, StaleOutput,
    TraceEntry,
};
use gasleak::model::{
    CostBreakdown, CpuSummary, InstanceRecord, InstanceState, LaunchedBySource, VolumeCost,
};
use gasleak::report::{
    explain_lines, format_duration, format_last_active, format_pct, format_usd, format_verdict,
    stale_lines, table_lines, unknown_guess,
};
use gasleak::run::Evaluated;
use gasleak::staleness::{RuleTrace, Severity, SkipReason, Verdict, SECS_PER_DAY};
use gasleak::tags::Tags;
use gasleak::timestamp::Timestamp;
use gasleak::value::Json;

fn d(x: f64) -> Double {
    Double { bits: x.to_bits() }
}

fn ts(s: &str) -> Timestamp {
    Timestamp::parse(s).unwrap()
}

fn record() -> InstanceRecord {
    InstanceRecord {
        instance_id: "i-1".into(),
        launched_by: None,
        launched_by_source: LaunchedBySource::Unknown,
        launch_time: ts("2024-01-01T00:00:00Z"),
        created_at: ts("2024-01-01T00:00:00Z"),
        last_uptime_seconds: 0,
        total_age_seconds: 0,
        instance_type: "t3.micro".into(),
        state: InstanceState::Running,
        region: "us-east-1".into(),
        az: None,
        iam_instance_profile: None,
        key_name: None,
        tags: Tags::new(),
        estimated_cost_usd: None,
        cost_breakdown: None,
        cpu: None,
    }
}

/// The text of a value, without white space.
fn compact(v: &Json) -> String {
    match v {
        Json::Null => "null".into(),
        Json::Bool(b) => b.to_string(),
        Json::Number(t) => t.clone(),
        Json::Double(x) => format!("{:?}", f64::from_bits(x.bits)),
        Json::Text(t) => format!("{t:?}"),
        Json::List(items) => {
            format!("[{}]", items.iter().map(compact).collect::<Vec<_>>().join(","))
        }
        Json::Object(members) => format!(
            "{{{}}}",
            members.iter().map(|(k, v)| format!("{k:?}:{}", compact(v))).collect::<Vec<_>>().join(",")
        ),
    }
}

fn at<'a>(v: &'a Json, key: &str) -> &'a Json {
    match v.member(key) {
        Some(m) => m,
        None => panic!("no member {key}"),
    }
}

fn text<'a>(v: &'a Json) -> &'a str {
    match v {
        Json::Text(t) => t,
        _ => panic!("not a text"),
    }
}

#[test]
fn trace_entry_tags_fired_and_skipped() {
    let fired = RuleTrace {
        rule: "long_lived",
        result: Ok(Verdict::LongLived { age_secs: 100 * SECS_PER_DAY }),
    };
    let skipped = RuleTrace { rule: "expired", result: Err(SkipReason::ExpiresAtUnset) };
    let a = TraceEntry::from_rule_trace(&fired).to_json();
    let b = TraceEntry::from_rule_trace(&skipped).to_json();
    assert_eq!(text(at(&a, "status")), "fired");
    assert_eq!(text(at(&a, "rule")), "long_lived");
    assert_eq!(text(at(at(&a, "verdict"), "kind")), "long_lived");
    assert_eq!(text(at(&b, "status")), "skipped");
    assert_eq!(text(at(&b, "rule")), "expired");
    assert_eq!(text(at(&b, "reason")), "expires_at_unset");
}

#[test]
fn stale_summary_captures_worst_severity() {
    let evaluated: Vec<Evaluated> = vec![
        (
            record(),
            ContractView::from_tags(&Tags::new()),
            vec![Verdict::LongLived { age_secs: 100 * SECS_PER_DAY }],
        ),
        (
            record(),
            ContractView::from_tags(&Tags::new()),
            vec![Verdict::Managed { controller: "eks" }],
        ),
    ];
    let region_refs: [&str; 1] = ["us-east-1"];
    let out = StaleOutput::from_evaluated(&region_refs, &evaluated);
    assert_eq!(out.summary.scanned, 2);
    assert_eq!(out.summary.flagged, 1);
    assert_eq!(out.summary.worst_severity, Some(Severity::Low));
}

#[test]
fn stale_output_lists_flagged_rows_only() {
    let evaluated: Vec<Evaluated> = vec![
        (
            record(),
            ContractView::from_tags(&Tags::new()),
            vec![Verdict::Managed { controller: "eks" }],
        ),
    ];
    let out = StaleOutput::from_evaluated(&["a", "b"], &evaluated).to_json();
    assert_eq!(compact(at(&out, "regions")), "[\"a\",\"b\"]");
    assert_eq!(compact(at(&out, "rows")), "[]");
    assert_eq!(
        compact(at(&out, "summary")),
        "{\"scanned\":1,\"flagged\":0,\"worst_severity\":\"info\"}"
    );
}

#[test]
fn records_serialise_field_by_field() {
    let mut r = record();
    r.cpu = Some(CpuSummary {
        avg_pct: Some(d(1.5)),
        p95_pct: None,
        max_pct: Some(d(f64::NAN)),
        samples: 3,
        last_active_at: Some(ts("2026-04-22T00:00:00Z")),
        window_secs: 10,
    });
    r.tags = Tags::new().with("b".into(), "2".into()).with("a".into(), "1".into());
    let list = ListOutput::new(&["us-east-1"], std::slice::from_ref(&r)).to_json();
    let v = record_json(&r);
    assert_eq!(
        compact(&list),
        format!("{{\"regions\":[\"us-east-1\"],\"rows\":[{}]}}", compact(&v))
    );
    assert_eq!(compact(at(&v, "tags")), "{\"a\":\"1\",\"b\":\"2\"}");
    assert_eq!(compact(at(&v, "launch_time")), "\"2024-01-01T00:00:00Z\"");
    assert_eq!(compact(at(&v, "state")), "\"running\"");
    assert_eq!(compact(at(&v, "launched_by_source")), "\"unknown\"");
    assert_eq!(
        compact(at(&v, "cpu")),
        "{\"avg_pct\":1.5,\"p95_pct\":null,\"max_pct\":NaN,\"samples\":3,\"last_active_at\":\"2026-04-22T00:00:00Z\",\"window_secs\":10}"
    );
    assert_eq!(compact(&cpu_json(r.cpu.as_ref().unwrap())), compact(at(&v, "cpu")));
    assert_eq!(
        compact(&contract_json(&ContractView::from_tags(&r.tags))),
        "{\"managed_by_gasleak\":false,\"owner\":null,\"owner_slack\":null,\"expires_at\":null}"
    );
}

#[test]
fn verdicts_serialise_with_their_kind() {
    let v = Verdict::NonCompliant {
        missing: vec!["Owner", "ExpiresAt"],
        tampered: true,
        past_deadline: false,
    };
    let t = compact(&verdict_json(&v));
    assert_eq!(
        t,
        "{\"kind\":\"non_compliant\",\"missing\":[\"Owner\",\"ExpiresAt\"],\"tampered\":true,\"past_deadline\":false}"
    );
    let e = compact(&verdict_json(&Verdict::Expired { at: ts("2026-04-22T00:00:00Z"), overdue_secs: -4 }));
    assert_eq!(e, "{\"kind\":\"expired\",\"at\":\"2026-04-22T00:00:00Z\",\"overdue_secs\":-4}");
}

#[test]
fn explanations_hold_record_contract_and_trace() {
    let r = record();
    let c = ContractView::from_tags(&r.tags);
    let trace = vec![RuleTrace { rule: "expired", result: Err(SkipReason::ExpiresAtUnset) }];
    let out = ExplainOutput::from_parts(&r, &c, &trace).to_json();
    assert_eq!(
        compact(&out),
        format!(
            "{{\"instance\":{},\"contract\":{},\"trace\":[{{\"status\":\"skipped\",\"rule\":\"expired\",\"reason\":\"expires_at_unset\"}}]}}",
            compact(&record_json(&r)),
            compact(&contract_json(&c))
        )
    );
}

#[test]
fn sources_and_absent_cpu_on_the_wire() {
    let mut r = record();
    r.launched_by_source = LaunchedBySource::IamRole;
    let v = record_json(&r);
    assert_eq!(compact(at(&v, "launched_by_source")), "\"iam_role\"");
    assert!(v.member("cpu").is_none());
    assert_eq!(compact(at(&v, "cost_breakdown")), "null");
    r.launched_by_source = LaunchedBySource::KeyName;
    assert_eq!(compact(at(&record_json(&r), "launched_by_source")), "\"key_name\"");
}

#[test]
fn durations_name_their_two_largest_units() {
    for (secs, want) in [
        (0i64, "0m"),
        (59, "0m"),
        (3_599, "59m"),
        (3_600, "1h0m"),
        (86_399, "23h59m"),
        (86_400 + 2 * 3_600, "1d2h"),
        (-86_400, "1d0h"),
        (i64::MIN, "106751991167300d15h"),
    ] {
        assert_eq!(format_duration(secs), want);
    }
}

#[test]
fn figures_show_a_dash_where_unknown() {
    assert_eq!(format_pct(None), "-");
    assert_eq!(format_pct(Some(d(12.345))), "12.3%");
    assert_eq!(format_usd(None), "-");
    assert_eq!(format_usd(Some(d(f64::NAN))), "-");
    assert_eq!(format_usd(Some(d(1234.5))), "$1234.50");
}

#[test]
fn verdicts_have_short_texts() {
    let t = ts("2026-04-22T00:00:00Z");
    for (v, want) in [
        (Verdict::Managed { controller: "eks" }, "managed(eks)"),
        (Verdict::Expired { at: t, overdue_secs: 7_260 }, "expired(2h1m ago)"),
        (Verdict::ExpiringSoon { at: t, within_secs: 60 }, "expiring_soon(in 1m)"),
        (Verdict::Idle { p95_pct: d(1.25), samples: 300, window_secs: 1 }, "idle(p95=1.2%, n=300)"),
        (
            Verdict::Inactive {
                idle_for_secs: None,
                samples: 9,
                window_secs: 1,
                severity: Severity::Low,
            },
            "inactive(last=no active hour in window, n=9)",
        ),
        (
            Verdict::Inactive {
                idle_for_secs: Some(86_400),
                samples: 9,
                window_secs: 1,
                severity: Severity::Low,
            },
            "inactive(last=1d0h ago, n=9)",
        ),
        (Verdict::LongLived { age_secs: 86_400 }, "long_lived(age=1d0h)"),
        (
            Verdict::Underutilized { p95_pct: d(2.0), samples: 5, window_secs: 1 },
            "underutilized(p95=2.0%, n=5)",
        ),
        (
            Verdict::NonCompliant {
                missing: vec!["Owner", "ExpiresAt"],
                tampered: true,
                past_deadline: true,
            },
            "non_compliant(missing=Owner,ExpiresAt, tampered)",
        ),
        (
            Verdict::NonCompliant { missing: vec!["Owner"], tampered: false, past_deadline: true },
            "non_compliant(missing=Owner)",
        ),
    ] {
        assert_eq!(format_verdict(&v), want);
    }
}

#[test]
fn last_activity_tells_no_data_from_no_activity() {
    let now = ts("2026-04-22T00:00:00Z");
    let mut cpu = CpuSummary {
        avg_pct: None,
        p95_pct: None,
        max_pct: None,
        samples: 0,
        last_active_at: None,
        window_secs: 14 * SECS_PER_DAY,
    };
    assert_eq!(format_last_active(&cpu, now), "no data");
    cpu.samples = 5;
    assert_eq!(format_last_active(&cpu, now), ">14d ago");
    cpu.last_active_at = Some(ts("2026-04-20T00:00:00Z"));
    assert_eq!(format_last_active(&cpu, now), "2d 0h 0m ago");
    cpu.last_active_at = Some(ts("2026-04-23T00:00:00Z"));
    assert_eq!(format_last_active(&cpu, now), "-");
}

#[test]
fn tables_are_aligned() {
    let now = ts("2026-04-22T00:00:00Z");
    let mut a = record();
    a.launched_by = Some("alice".into());
    a.launched_by_source = LaunchedBySource::Tag;
    a.estimated_cost_usd = Some(d(12.0));
    let mut b = record();
    b.instance_id = "i-0123456789".into();
    b.last_uptime_seconds = 90_061;
    b.key_name = Some("klé".into());
    b.cpu = Some(CpuSummary {
        avg_pct: Some(d(0.5)),
        p95_pct: Some(d(1.5)),
        max_pct: None,
        samples: 1,
        last_active_at: None,
        window_secs: 14 * SECS_PER_DAY,
    });
    assert_eq!(
        table_lines(&[a, b], now),
        vec![
            "instance_id   state    type      cost_usd  created     total_age  last_uptime  launched_by    src      region     avg_cpu  p95_cpu  max_cpu  last_active",
            "------------  -------  --------  --------  ----------  ---------  -----------  -------------  -------  ---------  -------  -------  -------  -----------",
            "i-1           running  t3.micro  $12.00    2024-01-01  0m         0m           alice          tag      us-east-1  -        -        -        -",
            "i-0123456789  running  t3.micro  -         2024-01-01  0m         1d 1h 1m     unknown(klé)  unknown  us-east-1  0.5%     1.5%     -        >14d ago"
        ]
    );
    assert_eq!(table_lines(&[], now), vec!["No EC2 instances matched."]);
}

#[test]
fn stale_reports_show_flagged_rows_and_a_summary() {
    let now = ts("2026-04-22T00:00:00Z");
    let flagged: Evaluated = (
        record(),
        ContractView::from_tags(&Tags::new()),
        vec![
            Verdict::Expired { at: ts("2026-04-20T00:00:00Z"), overdue_secs: 2 * SECS_PER_DAY },
            Verdict::LongLived { age_secs: 100 * SECS_PER_DAY },
        ],
    );
    let managed = || -> Evaluated {
        (
            record(),
            ContractView::from_tags(&Tags::new()),
            vec![Verdict::Managed { controller: "asg" }],
        )
    };
    assert_eq!(
        stale_lines(&[flagged, managed()], now),
        vec![
            "sev   instance_id  type      created     total_age  last_uptime  last_active  launched_by  verdicts",
            "----  -----------  --------  ----------  ---------  -----------  -----------  -----------  -----------------------------------------",
            "HIGH  i-1          t3.micro  2024-01-01  0m         0m           -            unknown      expired(2d0h ago); long_lived(age=100d0h)",
            "",
            "1 flagged / 2 scanned; worst severity: HIGH"
        ]
    );
    assert_eq!(stale_lines(&[], now), vec!["No EC2 instances matched."]);
    assert_eq!(stale_lines(&[managed()], now), vec!["No instances with stale verdicts."]);
}

#[test]
fn explanations_show_everything() {
    let now = ts("2026-04-22T00:00:00Z");
    let mut r = record();
    r.az = Some("us-east-1a".into());
    r.tags = Tags::new().with("Name".into(), "box".into()).with("a".into(), "b".into());
    r.estimated_cost_usd = Some(d(30.0));
    r.cost_breakdown = Some(CostBreakdown {
        compute_usd: d(10.0),
        storage_usd: d(20.0),
        storage_run_rate_usd_per_month: d(8.0),
        volumes: vec![VolumeCost {
            volume_id: "vol-1".into(),
            volume_type: "gp3".into(),
            size_gib: 100,
            iops: Some(3000),
            throughput_mibps: None,
            age_secs: 86_400,
            capacity_usd: d(20.0),
            iops_usd: d(0.0),
            throughput_usd: d(0.0),
            total_usd: d(20.0),
            excluded_reason: Some("not all of it"),
        }],
    });
    let c = ContractView::from_tags(&r.tags);
    let trace = vec![
        RuleTrace { rule: "expired", result: Err(SkipReason::ExpiresAtUnset) },
        RuleTrace {
            rule: "long_lived",
            result: Ok(Verdict::LongLived { age_secs: 100 * SECS_PER_DAY }),
        },
    ];
    assert_eq!(
        explain_lines(&r, &c, &trace, now),
        vec![
            "Instance i-1 (us-east-1)",
            "  state        : running",
            "  type         : t3.micro",
            "  created      : 2024-01-01",
            "  total_age    : 0m",
            "  last_uptime  : 0m",
            "  launched_by  : unknown (src: unknown)",
            "  az           : us-east-1a",
            "",
            "Tags (2):",
            "  Name  box",
            "  a     b",
            "",
            "Contract view:",
            "  managed_by_gasleak : no",
            "  owner              : (unset)",
            "  owner_slack        : (unset)",
            "  expires_at         : (unset)",
            "",
            "CPU (0-day window):",
            "  (no CloudWatch data)",
            "",
            "Storage ($20.00 since volume CreateTime; run rate $8.00/mo):",
            "  volume_id  type  size_gib  iops  mibps  age       capacity_usd  iops_usd  throughput_usd  total_usd",
            "  ---------  ----  --------  ----  -----  --------  ------------  --------  --------------  ---------",
            "  vol-1      gp3   100       3000  -      1d 0h 0m  $20.00        $0.00     $0.00           $20.00",
            "    note: not all of it",
            "  compute $10.00 + storage $20.00 = cost_usd $30.00",
            "",
            "Rule evaluation:",
            "  expired     skipped expires_at_unset",
            "  long_lived  fired   long_lived(age=100d0h)",
            "",
            "Summary: 1 verdict(s) fired, worst severity: LOW, flagged: yes"
        ]
    );
}

#[test]
fn explanations_of_a_bare_instance() {
    let now = ts("2026-04-22T00:00:00Z");
    let mut r = record();
    r.cpu = Some(CpuSummary {
        avg_pct: Some(d(1.0)),
        p95_pct: Some(d(2.0)),
        max_pct: Some(d(3.0)),
        samples: 4,
        last_active_at: None,
        window_secs: 14 * SECS_PER_DAY,
    });
    let mut c = ContractView::from_tags(&r.tags);
    c.expires_at = Some(now);
    let lines = explain_lines(&r, &c, &[], now);
    assert_eq!(
        lines[7..],
        [
            "",
            "Tags (0):",
            "  (none)",
            "",
            "Contract view:",
            "  managed_by_gasleak : no",
            "  owner              : (unset)",
            "  owner_slack        : (unset)",
            "  expires_at         : 2026-04-22T00:00:00Z",
            "",
            "CPU (14-day window):",
            "  avg       : 1.0%",
            "  p95       : 2.0%",
            "  max       : 3.0%",
            "  samples   : 4",
            "  last_active : >14d ago",
            "",
            "Storage: (DescribeVolumes unavailable; cost_usd shows compute only)",
            "",
            "Rule evaluation:",
            "",
            "Summary: 0 verdict(s) fired, worst severity: none, flagged: no",
        ]
    );
    r.cost_breakdown = Some(CostBreakdown {
        compute_usd: d(7.0),
        storage_usd: d(0.0),
        storage_run_rate_usd_per_month: d(0.0),
        volumes: vec![],
    });
    let lines = explain_lines(&r, &c, &[], now);
    assert!(lines.iter().any(|l| l == "Storage: no attached volumes. Compute cost $7.00."));
}

#[test]
fn unknown_owners_are_guessed_from_key_and_name() {
    let mut r = record();
    assert_eq!(unknown_guess(&r), "unknown");
    r.tags = Tags::new().with("Name".into(), "box".into());
    assert_eq!(unknown_guess(&r), "unknown(box)");
    r.key_name = Some(" \u{3000} ".into());
    assert_eq!(unknown_guess(&r), "unknown(box)");
    r.key_name = Some(" k ".into());
    assert_eq!(unknown_guess(&r), "unknown( k )");
}
