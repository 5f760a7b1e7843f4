use gasleak::model::{format_uptime, resolve_launched_by, BurnRate, InstanceState, LaunchedBySource};
use gasleak::double::Double;
use gasleak::tags::Tags;

fn tags(pairs: &[(&str, &str)]) -> Tags {
    let list: Vec<(String, String)> = pairs
        .iter()
        .map(|(k, v)| ((*k).to_string(), (*v).to_string()))
        .collect();
    Tags::from_pairs(&list)
}

fn d(x: f64) -> Double {
    Double { bits: x.to_bits() }
}

#[test]
fn format_uptime_variants() {
    assert_eq!(format_uptime(45), "0m");
    assert_eq!(format_uptime(60), "1m");
    assert_eq!(format_uptime(3_600), "1h 0m");
    assert_eq!(format_uptime(86_400 + 3_600 * 2 + 60 * 3), "1d 2h 3m");
    assert_eq!(format_uptime(-1), "-");
}

#[test]
fn resolve_prefers_tag_over_iam() {
    let (v, s) = resolve_launched_by(
        &tags(&[("Owner", "alice")]),
        Some("arn:aws:iam::1:instance-profile/my-role"),
        Some("mykey"),
    );
    assert_eq!(v.as_deref(), Some("alice"));
    assert_eq!(s, LaunchedBySource::Tag);
}

#[test]
fn resolve_falls_back_to_iam_role_name() {
    let (v, s) = resolve_launched_by(
        &tags(&[]),
        Some("arn:aws:iam::1:instance-profile/ci-runner"),
        None,
    );
    assert_eq!(v.as_deref(), Some("ci-runner"));
    assert_eq!(s, LaunchedBySource::IamRole);
}

#[test]
fn resolve_falls_back_to_key_name() {
    let (v, s) = resolve_launched_by(&tags(&[]), None, Some("tsvetan-laptop"));
    assert_eq!(v.as_deref(), Some("tsvetan-laptop"));
    assert_eq!(s, LaunchedBySource::KeyName);
}

#[test]
fn resolve_unknown_when_nothing_matches() {
    let (v, s) = resolve_launched_by(&tags(&[]), None, None);
    assert!(v.is_none());
    assert_eq!(s, LaunchedBySource::Unknown);
}

#[test]
fn resolve_skips_profile_without_role_and_empty_key() {
    let (v, s) = resolve_launched_by(&tags(&[("Name", "x")]), Some("no-slash"), Some(""));
    assert!(v.is_none());
    assert_eq!(s, LaunchedBySource::Unknown);
    let (v, s) = resolve_launched_by(&tags(&[]), Some("arn/"), Some("key"));
    assert_eq!(v.as_deref(), Some("key"));
    assert_eq!(s, LaunchedBySource::KeyName);
}

#[test]
fn preferred_tags_are_asked_in_order() {
    let (v, _) = resolve_launched_by(
        &tags(&[("owner", "last"), ("created_by", "middle"), ("LaunchedBy", "second")]),
        None,
        None,
    );
    assert_eq!(v.as_deref(), Some("second"));
}

#[test]
fn state_names_round_trip() {
    for s in [
        InstanceState::Pending,
        InstanceState::Running,
        InstanceState::ShuttingDown,
        InstanceState::Terminated,
        InstanceState::Stopping,
        InstanceState::Stopped,
        InstanceState::Other,
    ] {
        assert_eq!(InstanceState::from_sdk(Some(s.as_str())), s);
    }
    assert_eq!(InstanceState::from_sdk(None), InstanceState::Other);
    assert_eq!(InstanceState::from_sdk(Some("hibernating")), InstanceState::Other);
}

#[test]
fn billable_states() {
    assert!(InstanceState::Pending.is_billable());
    assert!(InstanceState::Running.is_billable());
    assert!(InstanceState::Stopping.is_billable());
    assert!(!InstanceState::Stopped.is_billable());
    assert!(!InstanceState::ShuttingDown.is_billable());
    assert!(!InstanceState::Terminated.is_billable());
    assert!(!InstanceState::Other.is_billable());
}

#[test]
fn source_names() {
    assert_eq!(LaunchedBySource::Tag.as_str(), "tag");
    assert_eq!(LaunchedBySource::IamRole.as_str(), "iam-role");
    assert_eq!(LaunchedBySource::KeyName.as_str(), "key-name");
    assert_eq!(LaunchedBySource::Unknown.as_str(), "unknown");
}

#[test]
fn burn_rate_scales_the_hour() {
    let b = BurnRate::from_hourly(d(42.5));
    assert_eq!(b.hour, d(42.5));
    assert_eq!(b.day, d(42.5 * 24.0));
    assert_eq!(b.week, d(42.5 * 168.0));
    assert_eq!(b.month, d(42.5 * 730.0));
    assert_eq!(b.year, d(42.5 * 8760.0));
}

#[test]
fn tags_are_kept_in_order_and_last_value_wins() {
    let t = tags(&[("b", "1"), ("a", "2"), ("b", "3"), ("Z", "4")]);
    assert_eq!(t.len(), 3);
    assert_eq!(t.entry(0), ("Z", "4"));
    assert_eq!(t.entry(1), ("a", "2"));
    assert_eq!(t.entry(2), ("b", "3"));
    assert!(t.contains_key("a"));
    assert!(!t.contains_key("c"));
    assert_eq!(t.get("b").map(|s| s.as_str()), Some("3"));
}
