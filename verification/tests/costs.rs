use gasleak::costs::{
    compute_fleet_burn_rate, compute_volume_cost, compute_volume_run_rate_usd_per_month,
    populate_cost_breakdown, populate_estimated_cost,
};
use gasleak::double::Double;
use gasleak::model::{
    BurnRate, CostBreakdown, InstanceRecord, InstanceState, LaunchedBySource, VolumeInfo,
};
use gasleak::pricing::{lookup_price_per_minute, PriceTable, Rates};
use gasleak::tags::Tags;
use gasleak::timestamp::Timestamp;

fn d(x: f64) -> Double {
    Double { bits: x.to_bits() }
}

fn f(x: Double) -> f64 {
    f64::from_bits(x.bits)
}

fn ts(s: &str) -> Timestamp {
    Timestamp::parse(s).expect("valid RFC 3339")
}

fn table() -> PriceTable {
    PriceTable {
        comment: String::new(),
        prices_per_minute: Rates::new().with("t3.micro", d(0.0104 / 60.0)),
        ebs_per_gb_month: Rates::new().with("gp3", d(0.08)).with("standard", d(0.05)),
        ebs_per_iops_month: Rates::new().with("gp3", d(0.005)),
        ebs_per_mibps_month: Rates::new().with("gp3", d(0.04)),
    }
}

fn bare_record(id: &str, compute_usd: f64) -> InstanceRecord {
    InstanceRecord {
        instance_id: id.into(),
        launched_by: None,
        launched_by_source: LaunchedBySource::Unknown,
        launch_time: ts("2026-03-23T00:00:00Z"),
        created_at: ts("2026-03-23T00:00:00Z"),
        last_uptime_seconds: 0,
        total_age_seconds: 0,
        instance_type: "t3.micro".into(),
        state: InstanceState::Running,
        region: "us-east-1".into(),
        az: None,
        iam_instance_profile: None,
        key_name: None,
        tags: Tags::new(),
        estimated_cost_usd: Some(d(compute_usd)),
        cost_breakdown: None,
        cpu: None,
    }
}

fn gp3_volume(
    id: &str,
    attached_to: &str,
    size_gib: i32,
    iops: i32,
    mibps: i32,
    create_time: &str,
) -> VolumeInfo {
    VolumeInfo {
        volume_id: id.into(),
        volume_type: "gp3".into(),
        size_gib,
        iops: Some(iops),
        throughput_mibps: Some(mibps),
        create_time: ts(create_time),
        attached_instance_ids: vec![attached_to.into()],
    }
}

#[test]
fn populate_cost_breakdown_sets_total_to_compute_plus_storage() {
    // 30 days since volume CreateTime.
    let now = ts("2026-04-22T00:00:00Z");
    let records = vec![bare_record("i-1", 10.0)];
    let volumes = vec![gp3_volume("vol-1", "i-1", 100, 3000, 125, "2026-03-23T00:00:00Z")];
    let records = populate_cost_breakdown(&table(), records, &volumes, now);

    let r = &records[0];
    let bd = r.cost_breakdown.as_ref().expect("breakdown populated");
    assert_eq!(f(bd.compute_usd), 10.0);
    assert_eq!(bd.volumes.len(), 1);
    // Baseline gp3: no IOPS or throughput overage. Storage = capacity only.
    let v = &bd.volumes[0];
    assert!(f(v.iops_usd).abs() < 1e-9);
    assert!(f(v.throughput_usd).abs() < 1e-9);
    assert!((f(v.total_usd) - f(v.capacity_usd)).abs() < 1e-9);
    // estimated_cost_usd = compute + storage exactly.
    let expected = 10.0 + f(bd.storage_usd);
    assert!((f(r.estimated_cost_usd.unwrap()) - expected).abs() < 1e-9);
    assert!((f(bd.storage_run_rate_usd_per_month) - 8.0).abs() < 1e-9);
    assert_eq!(v.age_secs, 30 * 86_400);
    assert!((f(v.capacity_usd) - 100.0 * 0.08 * 720.0 / 730.0).abs() < 1e-9);
}

#[test]
fn populate_cost_breakdown_sums_multiple_volumes_per_instance() {
    let now = ts("2026-04-22T00:00:00Z");
    let records = vec![bare_record("i-1", 0.0)];
    let volumes = vec![
        gp3_volume("vol-a", "i-1", 100, 3000, 125, "2026-03-23T00:00:00Z"),
        gp3_volume("vol-b", "i-1", 200, 3000, 125, "2026-03-23T00:00:00Z"),
    ];
    let records = populate_cost_breakdown(&table(), records, &volumes, now);

    let bd = records[0].cost_breakdown.as_ref().unwrap();
    assert_eq!(bd.volumes.len(), 2);
    let summed: f64 = bd.volumes.iter().map(|v| f(v.total_usd)).sum();
    assert!((f(bd.storage_usd) - summed).abs() < 1e-9);
}

#[test]
fn populate_cost_breakdown_leaves_empty_breakdown_for_instance_without_volumes() {
    let now = ts("2026-04-22T00:00:00Z");
    let records = vec![bare_record("i-orphan", 5.0)];
    let records = populate_cost_breakdown(&table(), records, &vec![], now);

    let bd = records[0].cost_breakdown.as_ref().unwrap();
    assert!(bd.volumes.is_empty());
    assert_eq!(f(bd.storage_usd), 0.0);
    assert_eq!(f(bd.compute_usd), 5.0);
    assert_eq!(records[0].estimated_cost_usd.map(f), Some(5.0));
}

#[test]
fn compute_volume_cost_flags_standard_with_excluded_reason() {
    let now = ts("2026-04-22T00:00:00Z");
    let v = VolumeInfo {
        volume_id: "vol-magnetic".into(),
        volume_type: "standard".into(),
        size_gib: 50,
        iops: None,
        throughput_mibps: None,
        create_time: ts("2026-03-23T00:00:00Z"),
        attached_instance_ids: vec!["i-1".into()],
    };
    let vc = compute_volume_cost(&table(), &v, now);
    assert!(f(vc.capacity_usd) > 0.0, "standard capacity is counted");
    assert_eq!(f(vc.iops_usd), 0.0);
    assert_eq!(f(vc.throughput_usd), 0.0);
    assert!(vc.excluded_reason.is_some(), "standard flagged as partial");
}

#[test]
fn compute_volume_cost_flags_unknown_type_with_excluded_reason() {
    let now = ts("2026-04-22T00:00:00Z");
    let v = VolumeInfo {
        volume_id: "vol-future".into(),
        volume_type: "io7".into(),
        size_gib: 100,
        iops: Some(5000),
        throughput_mibps: None,
        create_time: ts("2026-03-23T00:00:00Z"),
        attached_instance_ids: vec!["i-1".into()],
    };
    let vc = compute_volume_cost(&table(), &v, now);
    assert_eq!(f(vc.capacity_usd), 0.0);
    assert_eq!(f(vc.iops_usd), 0.0);
    assert!(f(vc.total_usd).abs() < 1e-9);
    assert!(vc.excluded_reason.is_some());
}

fn record_with(id: &str, state: InstanceState, storage_per_mo: f64) -> InstanceRecord {
    let mut r = bare_record(id, 0.0);
    r.state = state;
    r.cost_breakdown = Some(CostBreakdown {
        compute_usd: d(0.0),
        storage_usd: d(0.0),
        storage_run_rate_usd_per_month: d(storage_per_mo),
        volumes: Vec::new(),
    });
    r
}

#[test]
fn fleet_burn_rate_counts_storage_for_stopped_but_not_compute() {
    let t = table();
    let t3_hourly = f(lookup_price_per_minute(&t, "t3.micro").expect("t3.micro rate present")) * 60.0;

    let records = [
        record_with("i-run", InstanceState::Running, 73.0),
        record_with("i-stop", InstanceState::Stopped, 73.0),
    ];

    let burn = compute_fleet_burn_rate(&t, &records.iter().collect());
    // Running: compute + storage; stopped: storage only.
    // Storage hourly per record: 73 / 730 = 0.1.
    let expected_hourly = t3_hourly + 0.1 + 0.1;
    assert!(
        (f(burn.hour) - expected_hourly).abs() < 1e-9,
        "got {} expected {}",
        f(burn.hour),
        expected_hourly
    );
}

#[test]
fn fleet_burn_rate_zero_for_empty() {
    let burn = compute_fleet_burn_rate(&table(), &vec![]);
    assert_eq!(f(burn.hour), 0.0);
    assert_eq!(f(burn.month), 0.0);
}

#[test]
fn burn_rates_scale_from_the_hour() {
    let b = BurnRate::from_hourly(d(0.5));
    assert_eq!(
        [b.hour, b.day, b.week, b.month, b.year].map(f),
        [0.5, 12.0, 84.0, 365.0, 4380.0]
    );
}

#[test]
fn estimated_cost_is_minutes_times_rate() {
    let mut r = bare_record("i", 0.0);
    r.last_uptime_seconds = 90;
    let mut unknown = bare_record("j", 0.0);
    unknown.instance_type = "x9.huge".into();
    let out = populate_estimated_cost(&table(), vec![r, unknown]);
    assert_eq!(out[0].estimated_cost_usd, Some(d(90.0 / 60.0 * (0.0104 / 60.0))));
    assert_eq!(out[1].estimated_cost_usd, None);
}

#[test]
fn volumes_are_charged_to_every_instance_they_are_attached_to() {
    let now = ts("2026-04-22T00:00:00Z");
    let mut shared = gp3_volume("vol-s", "i-1", 10, 3000, 125, "2026-03-23T00:00:00Z");
    shared.attached_instance_ids.push("i-2".into());
    shared.attached_instance_ids.push("i-none".into());
    let records = vec![bare_record("i-2", 0.0), bare_record("i-1", 0.0), bare_record("i-3", 0.0)];
    let out = populate_cost_breakdown(&table(), records, &vec![shared], now);
    let counts: Vec<usize> =
        out.iter().map(|r| r.cost_breakdown.as_ref().unwrap().volumes.len()).collect();
    assert_eq!(counts, vec![1, 1, 0]);
    assert_eq!(out[0].instance_id, "i-2");
}

#[test]
fn run_rate_is_the_cost_of_one_month() {
    let v = gp3_volume("v", "i", 100, 4000, 225, "2026-03-23T00:00:00Z");
    let rate = f(compute_volume_run_rate_usd_per_month(&table(), &v));
    assert!((rate - (8.0 + 5.0 + 4.0)).abs() < 1e-9);
}

#[test]
fn joined_fleets_add_up_but_for_rounding() {
    let t = table();
    let a: Vec<InstanceRecord> =
        (0..5).map(|i| record_with("a", InstanceState::Running, 0.1 * f64::from(i))).collect();
    let b: Vec<InstanceRecord> =
        (0..7).map(|i| record_with("b", InstanceState::Stopped, 3.3 * f64::from(i))).collect();
    let both: Vec<&InstanceRecord> = a.iter().chain(b.iter()).collect();
    let whole = f(compute_fleet_burn_rate(&t, &both).hour);
    let parts = f(compute_fleet_burn_rate(&t, &a.iter().collect()).hour)
        + f(compute_fleet_burn_rate(&t, &b.iter().collect()).hour);
    assert!((whole - parts).abs() <= 24.0 * f64::EPSILON * whole);

    let one = compute_fleet_burn_rate(&t, &vec![&b[6]]);
    assert_eq!(one.hour, d(3.3 * 6.0 / 730.0));
    let unpriced = {
        let mut r = record_with("c", InstanceState::Running, 73.0);
        r.instance_type = "x9.huge".into();
        r
    };
    assert_eq!(compute_fleet_burn_rate(&t, &vec![&unpriced]).hour, d(0.1));
}
