use gasleak::contract::ContractView;
use gasleak::double::Double;
use gasleak::model::{CpuSummary, InstanceRecord, InstanceState, LaunchedBySource};
use gasleak::staleness::{
    evaluate, is_flagged, rules, trace, worst_severity, Config, Severity, SkipReason, Verdict,
    SECS_PER_DAY,
};
use gasleak::tags::Tags;
use gasleak::timestamp::Timestamp;

fn d(x: f64) -> Double {
    Double { bits: x.to_bits() }
}

fn ts(rfc: &str) -> Timestamp {
    Timestamp::parse(rfc).expect("valid RFC 3339")
}

fn record(tags: &[(&str, &str)], age_days: i64) -> InstanceRecord {
    let launch = ts("2024-01-01T00:00:00Z");
    let pairs: Vec<(String, String)> = tags
        .iter()
        .map(|(k, v)| ((*k).to_string(), (*v).to_string()))
        .collect();
    InstanceRecord {
        instance_id: "i-test".into(),
        launched_by: None,
        launched_by_source: LaunchedBySource::Unknown,
        launch_time: launch,
        created_at: launch,
        last_uptime_seconds: age_days * SECS_PER_DAY,
        total_age_seconds: age_days * SECS_PER_DAY,
        instance_type: "t3.micro".into(),
        state: InstanceState::Running,
        region: "us-east-1".into(),
        az: None,
        iam_instance_profile: None,
        key_name: None,
        tags: Tags::from_pairs(&pairs),
        estimated_cost_usd: None,
        cost_breakdown: None,
        cpu: None,
    }
}

fn cpu(p95: f64, max: f64, samples: usize) -> Option<CpuSummary> {
    Some(CpuSummary {
        avg_pct: Some(d(1.0)),
        p95_pct: Some(d(p95)),
        max_pct: Some(d(max)),
        samples,
        last_active_at: None,
        window_secs: 14 * SECS_PER_DAY,
    })
}

fn contract_of(r: &InstanceRecord) -> ContractView {
    ContractView::from_tags(&r.tags)
}

fn cfg_at(now: &str) -> Config {
    Config::defaults(ts(now))
}

#[test]
fn managed_preempts_for_eks_nodes() {
    let r = record(&[("eks:cluster-name", "prod-cluster")], 400);
    let c = contract_of(&r);
    let v = evaluate(&r, &c, &cfg_at("2026-04-21T00:00:00Z"));
    assert_eq!(v.len(), 1);
    assert!(matches!(v[0], Verdict::Managed { controller: "eks" }));
}

#[test]
fn managed_preempts_for_asg() {
    let r = record(&[("aws:autoscaling:groupName", "fleet-a")], 100);
    let v = evaluate(&r, &contract_of(&r), &cfg_at("2026-04-21T00:00:00Z"));
    assert!(matches!(v[0], Verdict::Managed { controller: "asg" }));
}

#[test]
fn managed_preempts_for_spot_fleets() {
    let r = record(&[("aws:ec2spot:fleet-request-id", "sfr-1")], 100);
    let v = evaluate(&r, &contract_of(&r), &cfg_at("2026-04-21T00:00:00Z"));
    assert_eq!(v.len(), 1);
    assert!(matches!(v[0], Verdict::Managed { controller: "spot-fleet" }));
}

#[test]
fn expired_fires_when_past_expiry() {
    let r = record(
        &[
            ("ManagedBy", "gasleak/0.1.0"),
            ("Owner", "alice"),
            ("OwnerSlack", "@alice"),
            ("ExpiresAt", "2026-04-18T00:00:00Z"),
        ],
        5,
    );
    let now = "2026-04-21T00:00:00Z";
    let v = evaluate(&r, &contract_of(&r), &cfg_at(now));
    assert!(v.iter().any(|v| matches!(v, Verdict::Expired { .. })));
    assert!(v.iter().any(|v| matches!(v, Verdict::Expired { overdue_secs: 259_200, .. })));
    assert_eq!(v.len(), 1);
}

#[test]
fn expiring_soon_fires_within_window() {
    let r = record(
        &[
            ("ManagedBy", "gasleak/0.1.0"),
            ("Owner", "alice"),
            ("OwnerSlack", "@alice"),
            ("ExpiresAt", "2026-04-22T00:00:00Z"),
        ],
        2,
    );
    let v = evaluate(&r, &contract_of(&r), &cfg_at("2026-04-21T00:00:00Z"));
    assert!(v.iter().any(|v| matches!(v, Verdict::ExpiringSoon { .. })));
    assert!(v.iter().any(|v| matches!(v, Verdict::ExpiringSoon { within_secs: 86_400, .. })));
}

#[test]
fn expiring_soon_has_sharp_edges() {
    let at = |t: &str| {
        let r = record(&[("ExpiresAt", t)], 2);
        let c = contract_of(&r);
        let cfg = cfg_at("2026-04-21T00:00:00Z");
        (
            rules::expired(&r, &c, &cfg).is_some(),
            rules::expiring_soon(&r, &c, &cfg).is_some(),
        )
    };
    assert_eq!(at("2026-04-20T23:59:59Z"), (true, false));
    assert_eq!(at("2026-04-21T00:00:00Z"), (false, false));
    assert_eq!(at("2026-04-21T00:00:01Z"), (false, true));
    assert_eq!(at("2026-04-24T00:00:00Z"), (false, true));
    assert_eq!(at("2026-04-24T00:00:01Z"), (false, false));
}

#[test]
fn idle_requires_min_samples_and_threshold() {
    // Missing ExpiresAt means the instance is non-compliant or legacy,
    // so idle evaluation is active.
    let mut r = record(&[], 30);

    // Too few samples, no idle verdict.
    r.cpu = cpu(1.0, 1.0, 5);
    let v1 = evaluate(&r, &contract_of(&r), &cfg_at("2026-04-21T00:00:00Z"));
    assert!(!v1.iter().any(|v| matches!(v, Verdict::Idle { .. })));

    // Enough samples, below threshold, fires.
    r.cpu = cpu(1.0, 1.0, 300);
    let v2 = evaluate(&r, &contract_of(&r), &cfg_at("2026-04-21T00:00:00Z"));
    assert!(v2.iter().any(|v| matches!(v, Verdict::Idle { .. })));

    // p95 above threshold, no idle.
    r.cpu = cpu(50.0, 99.0, 300);
    let v3 = evaluate(&r, &contract_of(&r), &cfg_at("2026-04-21T00:00:00Z"));
    assert!(!v3.iter().any(|v| matches!(v, Verdict::Idle { .. })));
}

#[test]
fn idle_threshold_is_strict() {
    let mut r = record(&[], 30);
    let cfg = cfg_at("2026-04-21T00:00:00Z");
    r.cpu = cpu(10.0, 1.0, 168);
    assert!(rules::idle(&r, &contract_of(&r), &cfg).is_none());
    r.cpu = cpu(9.999999, 1.0, 168);
    assert!(rules::idle(&r, &contract_of(&r), &cfg).is_some());
    r.cpu = cpu(9.0, 1.0, 167);
    assert!(rules::idle(&r, &contract_of(&r), &cfg).is_none());
    // A percentile that is not a number is not above the threshold.
    r.cpu = cpu(f64::NAN, 1.0, 168);
    assert!(rules::idle(&r, &contract_of(&r), &cfg).is_some());
}

#[test]
fn idle_is_vetoed_by_future_expires_at() {
    // Instance has contract + a future ExpiresAt. Even with low CPU over
    // many samples, idle must not fire. The owner has committed to a date.
    let mut r = record(
        &[
            ("ManagedBy", "gasleak/0.1.0"),
            ("Owner", "alice"),
            ("OwnerSlack", "@alice"),
            ("ExpiresAt", "2026-05-15T00:00:00Z"), // > now (2026-04-21)
        ],
        30,
    );
    r.cpu = cpu(1.0, 1.0, 300);
    let v = evaluate(&r, &contract_of(&r), &cfg_at("2026-04-21T00:00:00Z"));
    assert!(!v.iter().any(|v| matches!(v, Verdict::Idle { .. })));
}

#[test]
fn idle_still_fires_when_expires_at_is_past() {
    // ExpiresAt in the past means the deadline was missed. Idle should
    // still surface as an additional signal alongside `expired`.
    let mut r = record(
        &[
            ("ManagedBy", "gasleak/0.1.0"),
            ("Owner", "alice"),
            ("OwnerSlack", "@alice"),
            ("ExpiresAt", "2026-04-18T00:00:00Z"), // before now
        ],
        30,
    );
    r.cpu = cpu(1.0, 1.0, 300);
    let v = evaluate(&r, &contract_of(&r), &cfg_at("2026-04-21T00:00:00Z"));
    assert!(v.iter().any(|v| matches!(v, Verdict::Expired { .. })));
    assert!(v.iter().any(|v| matches!(v, Verdict::Idle { .. })));
}

fn missing_of(v: &[Verdict]) -> (&Vec<&'static str>, bool) {
    for x in v {
        if let Verdict::NonCompliant { missing, tampered, .. } = x {
            return (missing, *tampered);
        }
    }
    panic!("expected NonCompliant");
}

#[test]
fn non_compliant_fires_when_managed_by_missing() {
    let r = record(&[("Owner", "alice")], 100);
    let v = evaluate(&r, &contract_of(&r), &cfg_at("2026-04-21T00:00:00Z"));
    let (missing, _) = missing_of(&v);
    assert!(missing.contains(&"ManagedBy"));
    assert_eq!(*missing, vec!["ManagedBy", "OwnerSlack", "ExpiresAt"]);
}

#[test]
fn non_compliant_flags_wrong_prefix_managed_by() {
    let r = record(
        &[
            ("ManagedBy", "terraform"),
            ("Owner", "alice"),
            ("OwnerSlack", "@alice"),
            ("ExpiresAt", "2026-05-01T00:00:00Z"),
        ],
        5,
    );
    let v = evaluate(&r, &contract_of(&r), &cfg_at("2026-04-21T00:00:00Z"));
    let (missing, _) = missing_of(&v);
    assert!(missing.contains(&"ManagedBy(wrong-prefix)"));
    assert!(!missing.contains(&"Owner"));
}

#[test]
fn managed_prefers_eks_label_when_both_tags_present() {
    let r = record(
        &[
            ("aws:autoscaling:groupName", "fleet-a"),
            ("eks:cluster-name", "prod-cluster"),
        ],
        100,
    );
    let v = evaluate(&r, &contract_of(&r), &cfg_at("2026-04-21T00:00:00Z"));
    assert!(matches!(v[0], Verdict::Managed { controller: "eks" }));
}

#[test]
fn is_flagged_excludes_managed_only_rows() {
    let managed = vec![Verdict::Managed { controller: "eks" }];
    assert!(!is_flagged(&managed));
    let empty: Vec<Verdict> = vec![];
    assert!(!is_flagged(&empty));
    let with_idle = vec![Verdict::Idle {
        p95_pct: d(1.0),
        samples: 100,
        window_secs: 14 * SECS_PER_DAY,
    }];
    assert!(is_flagged(&with_idle));
}

#[test]
fn non_compliant_severity_upgrades_past_deadline() {
    let r = record(&[], 5);
    let mut cfg = cfg_at("2026-04-21T00:00:00Z");
    cfg.migration_deadline = Some(ts("2026-04-01T00:00:00Z"));
    let verdicts = evaluate(&r, &contract_of(&r), &cfg);
    let nc = verdicts
        .iter()
        .find(|v| matches!(v, Verdict::NonCompliant { .. }))
        .expect("non_compliant fired");
    assert_eq!(nc.severity(), Severity::High);
    // On the very second the deadline has not passed.
    cfg.migration_deadline = Some(ts("2026-04-21T00:00:00Z"));
    let verdicts = evaluate(&r, &contract_of(&r), &cfg);
    assert_eq!(worst_severity(&verdicts), Some(Severity::Low));
}

#[test]
fn non_compliant_tampered_fires_on_missing_owner_tag() {
    let r = record(
        &[
            ("ManagedBy", "gasleak/0.1.0"),
            // Owner missing
            ("OwnerSlack", "@alice"),
            ("ExpiresAt", "2026-05-01T00:00:00Z"),
        ],
        5,
    );
    let v = evaluate(&r, &contract_of(&r), &cfg_at("2026-04-21T00:00:00Z"));
    let (missing, tampered) = missing_of(&v);
    assert!(missing.contains(&"Owner"));
    assert!(tampered, "ManagedBy is correct → tampered should be true");
}

#[test]
fn non_compliant_tampered_severity_is_high() {
    let r = record(
        &[
            ("ManagedBy", "gasleak/0.1.0"),
            ("Owner", "alice"),
            ("OwnerSlack", "@alice"),
            // ExpiresAt missing
        ],
        5,
    );
    let v = evaluate(&r, &contract_of(&r), &cfg_at("2026-04-21T00:00:00Z"));
    let (missing, tampered) = missing_of(&v);
    assert!(missing.contains(&"ExpiresAt"));
    assert!(tampered);
    let nc = v
        .iter()
        .find(|v| matches!(v, Verdict::NonCompliant { .. }))
        .expect("non_compliant fired");
    assert_eq!(nc.severity(), Severity::High);
}

#[test]
fn worst_severity_is_max() {
    let verdicts = vec![
        Verdict::Idle {
            p95_pct: d(1.0),
            samples: 100,
            window_secs: 14 * SECS_PER_DAY,
        },
        Verdict::Expired {
            at: ts("2026-04-18T00:00:00Z"),
            overdue_secs: 3 * SECS_PER_DAY,
        },
    ];
    assert_eq!(worst_severity(&verdicts), Some(Severity::High));
    assert_eq!(worst_severity(&[]), None);
}

#[test]
fn severity_exit_codes() {
    assert_eq!(Severity::High.exit_code(), 2);
    assert_eq!(Severity::Medium.exit_code(), 1);
    assert_eq!(Severity::Low.exit_code(), 0);
    assert_eq!(Severity::Info.exit_code(), 0);
}

#[test]
fn severities_are_ordered_and_labelled() {
    assert!(Severity::Info < Severity::Low);
    assert!(Severity::Low < Severity::Medium);
    assert!(Severity::Medium < Severity::High);
    assert_eq!(Severity::Info.as_str(), "INFO");
    assert_eq!(Severity::Low.as_str(), "LOW");
    assert_eq!(Severity::Medium.as_str(), "MED");
    assert_eq!(Severity::High.as_str(), "HIGH");
}

#[test]
fn kinds_and_severities_of_all_verdicts() {
    let t = ts("2026-04-18T00:00:00Z");
    let all = vec![
        (Verdict::Managed { controller: "eks" }, "managed", Severity::Info),
        (Verdict::Expired { at: t, overdue_secs: 1 }, "expired", Severity::High),
        (Verdict::ExpiringSoon { at: t, within_secs: 1 }, "expiring_soon", Severity::Medium),
        (Verdict::Idle { p95_pct: d(1.0), samples: 1, window_secs: 1 }, "idle", Severity::Low),
        (
            Verdict::Inactive {
                idle_for_secs: None,
                samples: 1,
                window_secs: 1,
                severity: Severity::Medium,
            },
            "inactive",
            Severity::Medium,
        ),
        (Verdict::LongLived { age_secs: 1 }, "long_lived", Severity::Low),
        (
            Verdict::Underutilized { p95_pct: d(1.0), samples: 1, window_secs: 1 },
            "underutilized",
            Severity::Low,
        ),
        (
            Verdict::NonCompliant { missing: vec!["Owner"], tampered: false, past_deadline: false },
            "non_compliant",
            Severity::Low,
        ),
    ];
    for (v, kind, severity) in all {
        assert_eq!(v.kind_label(), kind);
        assert_eq!(v.severity(), severity);
        assert_eq!(v.clone().kind_label(), kind);
    }
}

#[test]
fn trace_names_every_rule_and_agrees_with_evaluate() {
    let mut r = record(&[("ExpiresAt", "2026-04-18T00:00:00Z")], 30);
    r.cpu = cpu(1.0, 1.0, 300);
    let c = contract_of(&r);
    let cfg = cfg_at("2026-04-21T00:00:00Z");
    let t = trace(&r, &c, &cfg);
    let names: Vec<&str> = t.iter().map(|e| e.rule).collect();
    assert_eq!(names, vec!["managed", "expired", "expiring_soon", "idle", "non_compliant"]);
    let fired: Vec<&str> = t
        .iter()
        .filter_map(|e| e.result.as_ref().ok())
        .map(|v| v.kind_label())
        .collect();
    let evaluated = evaluate(&r, &c, &cfg);
    let kinds: Vec<&str> = evaluated.iter().map(|v| v.kind_label()).collect();
    assert_eq!(fired, kinds);
    assert_eq!(fired, vec!["expired", "idle", "non_compliant"]);
}

#[test]
fn trace_says_why_a_rule_was_skipped() {
    let reasons = |r: &InstanceRecord| -> Vec<Option<SkipReason>> {
        trace(r, &contract_of(r), &cfg_at("2026-04-21T00:00:00Z"))
            .iter()
            .map(|e| e.result.as_ref().err().copied())
            .collect()
    };
    let bare = record(&[], 1);
    assert_eq!(
        reasons(&bare),
        vec![
            Some(SkipReason::NoControllerTags),
            Some(SkipReason::ExpiresAtUnset),
            Some(SkipReason::ExpiresAtUnset),
            Some(SkipReason::NoCpuData),
            None,
        ]
    );
    let eks = record(&[("eks:cluster-name", "x")], 1);
    assert_eq!(
        reasons(&eks),
        vec![
            None,
            Some(SkipReason::PreemptedByController),
            Some(SkipReason::PreemptedByController),
            Some(SkipReason::PreemptedByController),
            Some(SkipReason::PreemptedByController),
        ]
    );
    let mut full = record(
        &[
            ("ManagedBy", "gasleak/1"),
            ("Owner", "a"),
            ("OwnerSlack", "b"),
            ("ExpiresAt", "2027-01-01T00:00:00Z"),
        ],
        1,
    );
    assert_eq!(
        reasons(&full),
        vec![
            Some(SkipReason::NoControllerTags),
            Some(SkipReason::NotExpired),
            Some(SkipReason::OutsideWarnWindow),
            Some(SkipReason::DeadlineCommitted),
            Some(SkipReason::TagsComplete),
        ]
    );
    full.tags = Tags::new();
    full.cpu = cpu(50.0, 50.0, 300);
    assert_eq!(reasons(&full)[3], Some(SkipReason::AboveThreshold));
    full.cpu = cpu(50.0, 50.0, 3);
    assert_eq!(reasons(&full)[3], Some(SkipReason::TooFewSamples));
    full.cpu.as_mut().unwrap().samples = 300;
    full.cpu.as_mut().unwrap().p95_pct = None;
    assert_eq!(reasons(&full)[3], Some(SkipReason::NoPercentile));
    assert_eq!(SkipReason::NoPercentile.as_str(), "no_percentile");
}

#[test]
fn the_lookback_follows_the_inactive_threshold() {
    let mut cfg = cfg_at("2026-04-21T00:00:00Z");
    assert_eq!(cfg.cpu_lookback_secs(), 14 * SECS_PER_DAY);
    cfg.inactive_high_secs = Some(30 * SECS_PER_DAY);
    assert_eq!(cfg.cpu_lookback_secs(), 30 * SECS_PER_DAY);
}

#[test]
fn flagged_means_a_severity_above_info() {
    let t = ts("2026-04-18T00:00:00Z");
    let lists: Vec<Vec<Verdict>> = vec![
        vec![],
        vec![Verdict::Managed { controller: "eks" }],
        vec![Verdict::Managed { controller: "eks" }, Verdict::LongLived { age_secs: 1 }],
        vec![Verdict::Expired { at: t, overdue_secs: 1 }],
    ];
    for vs in lists {
        assert_eq!(is_flagged(&vs), worst_severity(&vs) > Some(Severity::Info));
    }
}
