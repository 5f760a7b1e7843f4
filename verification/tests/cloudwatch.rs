use gasleak::aws::cloudwatch::{
    absorb, attach_cpu, batches, build_queries, empty_slots, find_summary, finish, parse_query_id,
    summarize, summarize_batch, window_start, MetricResult, QueryKind,
};
use gasleak::aws::{convert_instant, SdkInstant};
use gasleak::double::Double;
use gasleak::error::Error;
use gasleak::model::{InstanceRecord, InstanceState, LaunchedBySource};
use gasleak::tags::Tags;
use gasleak::timestamp::Timestamp;

fn d(x: f64) -> Double {
    Double { bits: x.to_bits() }
}

fn ds(list: &[f64]) -> Vec<Double> {
    list.iter().map(|x| d(*x)).collect()
}

fn f(x: Option<Double>) -> Option<f64> {
    x.map(|v| f64::from_bits(v.bits))
}

fn at(secs: i64) -> SdkInstant {
    SdkInstant { secs, subsec_nanos: 0 }
}

#[test]
fn parses_query_ids() {
    assert!(matches!(parse_query_id("avg_0"), Some((QueryKind::Avg, 0))));
    assert!(matches!(parse_query_id("max_42"), Some((QueryKind::Max, 42))));
    assert!(parse_query_id("bogus_1").is_none());
    assert!(parse_query_id("avg_").is_none());
    assert!(parse_query_id("avg").is_none());
}

#[test]
fn query_indexes_follow_the_integer_grammar() {
    assert_eq!(parse_query_id("avg_+7"), Some((QueryKind::Avg, 7)));
    assert_eq!(parse_query_id("avg_-7"), None);
    assert_eq!(parse_query_id("avg_+"), None);
    assert_eq!(parse_query_id("avg_1_2"), None);
    assert_eq!(parse_query_id("max_007"), Some((QueryKind::Max, 7)));
    let largest = format!("max_{}", usize::MAX);
    assert_eq!(parse_query_id(&largest), Some((QueryKind::Max, usize::MAX)));
    let beyond = format!("max_{}0", usize::MAX);
    assert_eq!(parse_query_id(&beyond), None);
}

#[test]
fn summarize_empty_yields_no_samples() {
    let s = summarize(&vec![], &vec![], None, 0);
    assert_eq!(s.samples, 0);
    assert!(s.avg_pct.is_none());
    assert!(s.last_active_at.is_none());
}

#[test]
fn summarize_computes_mean_max_p95() {
    let avgs: Vec<f64> = (1..=100).map(f64::from).collect();
    let maxes: Vec<f64> = vec![10.0, 99.0, 42.0];
    let s = summarize(&ds(&avgs), &ds(&maxes), None, 0);
    assert_eq!(s.samples, 100);
    assert!((f(s.avg_pct).unwrap() - 50.5).abs() < 1e-9);
    // 95th percentile of 1..=100 lands at index 95 → value 96.
    assert_eq!(f(s.p95_pct), Some(96.0));
    assert_eq!(f(s.max_pct), Some(99.0));
}

#[test]
fn summarize_passes_through_last_active_at() {
    let now: Timestamp = Timestamp::parse("2026-04-21T00:00:00Z").unwrap();
    let s = summarize(&ds(&[1.0, 2.0]), &ds(&[3.0, 4.0]), Some(now), 14 * 86_400);
    assert_eq!(s.last_active_at, Some(now));
    assert_eq!(s.window_secs, 14 * 86_400);
}

#[test]
fn summarize_sorts_before_the_percentile() {
    let s = summarize(&ds(&[5.0, 1.0, 9.0, 3.0]), &ds(&[]), None, 0);
    assert_eq!(f(s.p95_pct), Some(9.0));
    assert_eq!(f(s.avg_pct), Some(4.5));
    assert_eq!(s.max_pct, None);
    let one = summarize(&ds(&[7.0]), &ds(&[f64::NAN, 2.0]), None, 0);
    assert_eq!(f(one.p95_pct), Some(7.0));
    assert_eq!(f(one.max_pct), Some(2.0));
}

#[test]
fn queries_ask_for_average_and_maximum_of_each_instance() {
    let batch: Vec<String> = vec!["i-a".into(), "i-b".into()];
    let q = build_queries(&batch);
    assert_eq!(q.len(), 4);
    assert_eq!(q[0].id, "avg_0");
    assert_eq!(q[0].stat, "Average");
    assert_eq!(q[3].id, "max_1");
    assert_eq!(q[3].stat, "Maximum");
    assert_eq!(q[3].dimension_value, "i-b");
    assert_eq!(q[3].dimension_name, "InstanceId");
    assert_eq!(q[3].namespace, "AWS/EC2");
    assert_eq!(q[3].metric_name, "CPUUtilization");
    assert_eq!(q[3].period, 3_600);
    assert!(q[3].return_data);
    assert_eq!(parse_query_id(&q[2].id), Some((QueryKind::Avg, 1)));
}

#[test]
fn instances_are_queried_in_batches() {
    let ids: Vec<String> = (0..501).map(|i| format!("i-{i}")).collect();
    let b = batches(&ids);
    assert_eq!(b.iter().map(Vec::len).collect::<Vec<_>>(), vec![250, 250, 1]);
    assert_eq!(b.concat(), ids);
    assert!(batches(&Vec::new()).is_empty());
}

#[test]
fn the_window_saturates() {
    assert_eq!(window_start(1_000_000, 1), 1_000_000 - 86_400);
    assert_eq!(window_start(-5, i64::MAX), i64::MIN);
    assert_eq!(window_start(0, i64::MIN), i64::MAX);
}

fn result(id: &str, values: &[f64], secs: &[i64]) -> MetricResult {
    MetricResult {
        id: Some(id.into()),
        values: ds(values),
        timestamps: secs.iter().map(|s| at(*s)).collect(),
    }
}

#[test]
fn results_are_collected_by_slot() {
    let batch: Vec<String> = vec!["i-a".into(), "i-b".into()];
    let mut slots = empty_slots(2);
    let results = vec![
        result("avg_0", &[1.0], &[100]),
        result("max_0", &[4.9, 5.0, 80.0], &[300, 200, 100]),
        result("avg_0", &[3.0], &[90]),
        // A later page does not replace the hour that was found first.
        result("max_0", &[90.0], &[50]),
        result("max_1", &[1.0], &[300]),
        // Belongs to no slot.
        result("avg_2", &[50.0], &[10]),
        result("what_0", &[50.0], &[10]),
        MetricResult { id: None, values: ds(&[1.0]), timestamps: vec![] },
    ];
    for r in &results {
        slots = absorb(slots, r);
    }
    let out = finish(&batch, &slots, 1_209_600);
    let at_once = summarize_batch(&batch, &results, 1_209_600);
    assert_eq!(format!("{at_once:?}"), format!("{out:?}"));
    assert_eq!(out.len(), 2);
    assert_eq!(out[0].0, "i-a");
    assert_eq!(out[0].1.samples, 2);
    assert_eq!(f(out[0].1.avg_pct), Some(2.0));
    assert_eq!(f(out[0].1.max_pct), Some(90.0));
    assert_eq!(out[0].1.last_active_at.map(|t| t.as_second()), Some(200));
    assert_eq!(out[1].1.samples, 0);
    assert_eq!(out[1].1.last_active_at, None);
    assert_eq!(out[1].1.window_secs, 1_209_600);
}

#[test]
fn an_active_hour_that_cannot_be_converted_is_not_kept() {
    let slots = absorb(empty_slots(1), &result("max_0", &[10.0, 20.0], &[i64::MAX, 5]));
    let out = finish(&vec!["i".to_string()], &slots, 0);
    assert_eq!(out[0].1.last_active_at, None);
}

#[test]
fn summaries_are_found_by_instance() {
    let a = summarize(&ds(&[1.0]), &ds(&[]), None, 1);
    let b = summarize(&ds(&[2.0]), &ds(&[]), None, 2);
    let list = vec![("i-a".to_string(), a), ("i-b".to_string(), b), ("i-a".to_string(), b)];
    assert_eq!(find_summary(&list, "i-a").map(|s| s.window_secs), Some(2));
    assert!(find_summary(&list, "i-c").is_none());
    let t = Timestamp::parse("2024-01-01T00:00:00Z").unwrap();
    let r = InstanceRecord {
        instance_id: "i-b".into(),
        launched_by: None,
        launched_by_source: LaunchedBySource::Unknown,
        launch_time: t,
        created_at: t,
        last_uptime_seconds: 0,
        total_age_seconds: 0,
        instance_type: "t3.micro".into(),
        state: InstanceState::Running,
        region: "us-east-1".into(),
        az: None,
        iam_instance_profile: None,
        key_name: None,
        tags: Tags::new(),
        estimated_cost_usd: None,
        cost_breakdown: None,
        cpu: None,
    };
    let r = attach_cpu(r, &list);
    assert_eq!(r.cpu.map(|c| c.samples), Some(1));
    assert_eq!(r.instance_id, "i-b");
}

#[test]
fn instants_convert_or_say_why_not() {
    let t = convert_instant(SdkInstant { secs: -1, subsec_nanos: 500_000_000 }).unwrap();
    assert_eq!((t.as_second(), t.subsec_nanosecond()), (0, -500_000_000));
    let err = convert_instant(SdkInstant { secs: 0, subsec_nanos: 1_000_000_000 }).unwrap_err();
    assert!(matches!(err, Error::InvalidTimestamp(_)));
    let err = convert_instant(SdkInstant { secs: i64::MAX, subsec_nanos: 0 }).unwrap_err();
    assert!(err.message().starts_with("invalid timestamp from AWS SDK: "));
    let err = convert_instant(SdkInstant { secs: 0, subsec_nanos: u32::MAX }).unwrap_err();
    assert_eq!(
        err.message(),
        "invalid timestamp from AWS SDK: subsec_nanos out of range: out of range integral type conversion attempted"
    );
}
