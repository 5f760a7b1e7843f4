use gasleak::cli::{
    command_or_default, log_level, wants_slack, Cli, Command, ExplainArgs, ListArgs, StaleArgs,
};
use gasleak::config::{load_step, resolve, FileConfig, LoadStep};
use gasleak::contract::ContractView;
use gasleak::double::Double;
use gasleak::error::Error;
use gasleak::model::{InstanceRecord, InstanceState, LaunchedBySource};
use gasleak::run::{
    all_states, build_stale_config, discovery_region, enabled_regions, evaluate_all, find_record,
    not_found, order_by_cost, running_state, single_region, stale_exit_code, worst_of_all,
    Evaluated,
};
use gasleak::staleness::{Config, Severity, Verdict};
use gasleak::tags::Tags;
use gasleak::timestamp::Timestamp;

fn d(x: f64) -> Double {
    Double { bits: x.to_bits() }
}

fn ts(s: &str) -> Timestamp {
    Timestamp::parse(s).unwrap()
}

fn record(id: &str, age: i64, cost: Option<f64>) -> InstanceRecord {
    InstanceRecord {
        instance_id: id.into(),
        launched_by: None,
        launched_by_source: LaunchedBySource::Unknown,
        launch_time: ts("2024-01-01T00:00:00Z"),
        created_at: ts("2024-01-01T00:00:00Z"),
        last_uptime_seconds: 0,
        total_age_seconds: age,
        instance_type: "t3.micro".into(),
        state: InstanceState::Running,
        region: "us-east-1".into(),
        az: None,
        iam_instance_profile: None,
        key_name: None,
        tags: Tags::new(),
        estimated_cost_usd: cost.map(d),
        cost_breakdown: None,
        cpu: None,
    }
}

fn ids(rows: &[InstanceRecord]) -> Vec<&str> {
    rows.iter().map(|r| r.instance_id.as_str()).collect()
}

#[test]
fn config_path_precedence() {
    let p = resolve(Some("cli"), Some("env"), Some("/home/x")).unwrap();
    assert_eq!((p.path.as_str(), p.is_explicit), ("cli", true));
    let p = resolve(None, Some("env"), Some("/home/x")).unwrap();
    assert_eq!((p.path.as_str(), p.is_explicit), ("env", true));
    let p = resolve(None, Some(""), Some("/home/x")).unwrap();
    assert_eq!((p.path.as_str(), p.is_explicit), ("/home/x/.config/gasleak/gasleak.toml", false));
    let p = resolve(None, None, Some("/")).unwrap();
    assert_eq!(p.path, "/.config/gasleak/gasleak.toml");
    assert!(resolve(None, None, Some("")).is_none());
    assert!(resolve(None, None, None).is_none());
}

#[test]
fn only_explicit_config_files_must_exist() {
    assert!(matches!(load_step(None, false), LoadStep::UseDefaults));
    assert!(matches!(load_step(resolve(Some("c"), None, None), true), LoadStep::Read(p) if p == "c"));
    assert!(matches!(
        load_step(resolve(Some("c"), None, None), false),
        LoadStep::Fail(Error::ConfigMissing { path }) if path == "c"
    ));
    assert!(matches!(load_step(resolve(None, None, Some("/h")), false), LoadStep::UseDefaults));
}

#[test]
fn the_default_config_sets_nothing() {
    let c = FileConfig::default();
    assert!(c.inactive.low_days.is_none());
    assert!(c.inactive.min_samples.is_none());
    assert!(c.long_lived.age_days.is_none());
    assert!(c.underutilized.p95_threshold_pct.is_none());
    assert!(c.warn.window_hours.is_none());
    assert!(c.slack.webhook_url.is_none());
}

#[test]
fn file_settings_override_the_defaults() {
    let now = ts("2026-04-22T00:00:00Z");
    let deadline = ts("2026-05-01T00:00:00Z");
    let cfg = build_stale_config(&FileConfig::default(), now, None);
    let defaults = Config::defaults(now);
    assert_eq!(cfg.warn_window_secs, defaults.warn_window_secs);
    assert_eq!(cfg.warn_window_secs, 72 * 3_600);
    assert_eq!(cfg.migration_deadline, None);
    let mut file = FileConfig::default();
    file.warn.window_hours = Some(120);
    file.inactive.high_days = Some(45);
    file.inactive.min_samples = Some(9);
    file.long_lived.age_days = Some(i64::MAX);
    let cfg = build_stale_config(&file, now, Some(deadline));
    assert_eq!(cfg.warn_window_secs, 120 * 3_600);
    assert_eq!(cfg.cpu_lookback_secs(), 45 * 86_400);
    assert_eq!(cfg.min_cpu_samples, 9);
    assert_eq!(cfg.long_lived_age_secs, Some(i64::MAX));
    assert_eq!(cfg.migration_deadline, Some(deadline));
    assert_eq!(cfg.now, now);
}

fn cli(command: Option<Command>) -> Cli {
    Cli {
        command,
        verbose: 0,
        json: false,
        slack: false,
        slack_only: false,
        all_regions: false,
        config: None,
        regenerate_pricing_table: false,
        pricing_offer_source: None,
    }
}

#[test]
fn commands_decide_on_cpu() {
    assert!(!command_or_default(None).wants_cpu());
    assert!(matches!(command_or_default(None), Command::List(_)));
    assert!(Command::List(ListArgs { with_cpu: true }).wants_cpu());
    assert!(Command::Stale(StaleArgs { no_cpu: false, migration_deadline: None }).wants_cpu());
    assert!(!Command::Stale(StaleArgs { no_cpu: true, migration_deadline: None }).wants_cpu());
    assert!(Command::Explain(ExplainArgs { instance_id: "i".into() }).wants_cpu());
}

#[test]
fn slack_flags_and_verbosity() {
    let mut c = cli(None);
    assert!(!wants_slack(&c));
    c.slack_only = true;
    assert!(wants_slack(&c));
    c.slack_only = false;
    c.slack = true;
    assert!(wants_slack(&c));
    assert_eq!([0u8, 1, 2, 255].map(log_level), ["warn", "info", "debug", "debug"]);
}

#[test]
fn costliest_come_first_then_oldest() {
    let rows = order_by_cost(vec![
        record("none", 9, None),
        record("cheap", 1, Some(1.0)),
        record("dear-young", 1, Some(5.0)),
        record("dear-old", 2, Some(5.0)),
        record("dear-old-too", 2, Some(5.0)),
        record("free", 1, Some(0.0)),
    ]);
    assert_eq!(ids(&rows), vec!["dear-old", "dear-old-too", "dear-young", "cheap", "free", "none"]);
}

#[test]
fn worst_come_first_then_oldest() {
    let now = ts("2026-04-22T00:00:00Z");
    let mut expired = record("expired", 1, None);
    expired.tags = Tags::new().with("ExpiresAt".into(), "2026-04-20T00:00:00Z".into());
    let mut managed = record("managed", 99, None);
    managed.tags = Tags::new().with("eks:cluster-name".into(), "c".into());
    let rows = evaluate_all(
        vec![managed, record("young", 1, None), record("old", 5, None), expired],
        &Config::defaults(now),
    );
    let order: Vec<&str> = rows.iter().map(|e| e.0.instance_id.as_str()).collect();
    assert_eq!(order, vec!["expired", "old", "young", "managed"]);
    assert_eq!(worst_of_all(&rows), Some(Severity::High));
    assert_eq!(stale_exit_code(&rows), 2);
    assert_eq!(stale_exit_code(&rows[1..]), 0);
}

#[test]
fn exit_codes_reflect_the_worst() {
    let row = |v: Vec<Verdict>| -> Evaluated {
        (record("i", 1, None), ContractView::from_tags(&Tags::new()), v)
    };
    assert_eq!(stale_exit_code(&[]), 0);
    assert_eq!(worst_of_all(&[row(vec![])]), None);
    let soon = row(vec![Verdict::ExpiringSoon { at: ts("2026-04-22T00:00:00Z"), within_secs: 1 }]);
    assert_eq!(stale_exit_code(&[row(vec![]), soon]), 1);
}

#[test]
fn records_are_found_by_id() {
    let rows = vec![record("a", 1, None), record("b", 1, None), record("b", 2, None)];
    assert_eq!(find_record(&rows, "b"), Some(1));
    assert_eq!(find_record(&rows, "c"), None);
    let e = not_found("i-x", &vec!["us-east-1".to_string(), "eu-west-1".to_string()]);
    assert!(matches!(e, Error::InstanceNotFound { .. }));
    assert!(e.message().contains("i-x"));
    assert!(e.message().contains("us-east-1, eu-west-1"));
}

#[test]
fn regions_are_sorted_and_required() {
    let names = vec![Some("us-west-2".to_string()), None, Some("ap-south-1".to_string())];
    assert_eq!(enabled_regions(&names).unwrap(), vec!["ap-south-1", "us-west-2"]);
    assert!(enabled_regions(&vec![None]).is_err());
    assert_eq!(single_region(Some("x".into())).unwrap(), "x");
    assert!(matches!(single_region(None), Err(Error::RegionNotConfigured)));
    assert_eq!(discovery_region(Some("x".into())), "x");
    assert_eq!(discovery_region(None), "us-east-1");
}

#[test]
fn states_to_scan() {
    assert_eq!(running_state(), vec![InstanceState::Running]);
    assert_eq!(
        all_states(),
        vec![
            InstanceState::Pending,
            InstanceState::Running,
            InstanceState::ShuttingDown,
            InstanceState::Stopping,
            InstanceState::Stopped,
            InstanceState::Other,
        ]
    );
}

#[test]
fn errors_have_messages_and_causes() {
    let e = Error::aws("ec2:DescribeInstances", vec!["a".into(), "b".into()]);
    assert_eq!(e.chain(), vec!["ec2:DescribeInstances: a", "a", "b"]);
    let read = Error::ConfigRead { path: "p".into(), cause: "gone".into() };
    assert_eq!(read.chain(), vec!["failed to read config file p", "gone"]);
    let parse = Error::ConfigParse { path: "p".into(), cause: "odd".into() };
    assert_eq!(parse.chain(), vec!["failed to parse config file p", "odd"]);
    for (e, want) in [
        (Error::ConfigMissing { path: "p".into() }, "config file not found: p"),
        (Error::SlackConfigInvalid("why".into()), "invalid Slack config: why"),
        (Error::InvalidTimestamp("why".into()), "invalid timestamp from AWS SDK: why"),
        (
            Error::InstanceNotFound { id: "i".into(), region: "r".into() },
            "instance 'i' not found in region 'r'",
        ),
    ] {
        assert_eq!(e.message(), want);
        assert_eq!(e.chain(), vec![want]);
    }
    assert!(Error::RegionNotConfigured.message().starts_with("no AWS region configured. Set AWS_REGION"));
    assert!(Error::SlackWebhookMissing.message().contains("$GASLEAK_SLACK_WEBHOOK"));
}
