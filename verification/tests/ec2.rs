use gasleak::aws::ec2::{to_records, DeviceMapping, RawInstance};
use gasleak::aws::SdkInstant;
use gasleak::error::Error;
use gasleak::model::{InstanceState, LaunchedBySource};
use gasleak::run::{all_states, find_record, not_found, running_state};
use gasleak::timestamp::Timestamp;

fn ts(secs: i64) -> Timestamp {
    Timestamp::new(secs, 0).expect("valid timestamp")
}

fn at(secs: i64) -> SdkInstant {
    SdkInstant { secs, subsec_nanos: 0 }
}

fn instance_with_state_and_launch(id: &str, state: InstanceState, launch_secs: i64) -> RawInstance {
    RawInstance {
        instance_id: Some(id.into()),
        state_name: Some(state.as_str().into()),
        launch_time: Some(at(launch_secs)),
        root_device_name: None,
        mappings: vec![],
        instance_type: None,
        availability_zone: None,
        iam_profile_arn: None,
        key_name: None,
        tags: vec![],
    }
}

#[test]
fn to_records_filters_states_and_sorts_stably() {
    let instances = vec![
        instance_with_state_and_launch("i-2", InstanceState::Running, 900),
        instance_with_state_and_launch("i-1", InstanceState::Running, 900),
        instance_with_state_and_launch("i-3", InstanceState::Running, 950),
        instance_with_state_and_launch("i-stop", InstanceState::Stopped, 900),
    ];

    let keep_states = vec![InstanceState::Running];
    let records = to_records(&instances, "us-east-1", ts(1000), &keep_states)
        .expect("to_records should succeed");

    assert_eq!(records.len(), 3);
    assert_eq!(records[0].instance_id, "i-1");
    assert_eq!(records[1].instance_id, "i-2");
    assert_eq!(records[2].instance_id, "i-3");
    assert_eq!(records[0].last_uptime_seconds, 100);
    assert_eq!(records[2].last_uptime_seconds, 50);
    assert_eq!(records[0].region, "us-east-1");
}

#[test]
fn creation_time_is_that_of_the_root_volume() {
    let mut i = instance_with_state_and_launch("i-1", InstanceState::Stopped, 900);
    i.root_device_name = Some("/dev/xvda".into());
    i.mappings = vec![
        DeviceMapping { device_name: None, attach_time: Some(at(1)) },
        DeviceMapping { device_name: Some("/dev/sdb".into()), attach_time: Some(at(2)) },
        DeviceMapping { device_name: Some("/dev/xvda".into()), attach_time: None },
        DeviceMapping { device_name: Some("/dev/xvda".into()), attach_time: Some(at(300)) },
    ];
    i.instance_type = Some("m5.large".into());
    i.availability_zone = Some("us-east-1a".into());
    i.iam_profile_arn = Some("arn:aws:iam::1:instance-profile/role".into());
    i.key_name = Some("key".into());
    i.tags = vec![
        (Some("Name".into()), Some("box".into())),
        (Some("lost".into()), None),
        (None, Some("lost".into())),
    ];
    let records = to_records(&vec![i], "eu-west-1", ts(1000), &all_states()).unwrap();
    let r = &records[0];
    assert_eq!(r.created_at.as_second(), 300);
    assert_eq!(r.total_age_seconds, 700);
    assert_eq!(r.launch_time.as_second(), 900);
    assert_eq!(r.last_uptime_seconds, 100);
    assert_eq!(r.instance_type, "m5.large");
    assert_eq!(r.az.as_deref(), Some("us-east-1a"));
    assert_eq!(r.launched_by.as_deref(), Some("role"));
    assert_eq!(r.launched_by_source, LaunchedBySource::IamRole);
    assert_eq!(r.tags.len(), 1);
    assert_eq!(r.tags.entry(0), ("Name", "box"));
    assert_eq!(r.state, InstanceState::Stopped);
}

#[test]
fn incomplete_instances_are_left_out() {
    let mut no_id = instance_with_state_and_launch("x", InstanceState::Running, 1);
    no_id.instance_id = None;
    let mut no_launch = instance_with_state_and_launch("y", InstanceState::Running, 1);
    no_launch.launch_time = None;
    let mut no_state = instance_with_state_and_launch("z", InstanceState::Running, 1);
    no_state.state_name = None;
    let list = vec![no_id, no_launch, no_state];
    assert!(to_records(&list, "r", ts(10), &running_state()).unwrap().is_empty());
    let kept = to_records(&list, "r", ts(10), &all_states()).unwrap();
    assert_eq!(kept.len(), 1);
    assert_eq!(kept[0].state, InstanceState::Other);
    assert_eq!(kept[0].instance_type, "unknown");
}

#[test]
fn an_instant_out_of_range_is_an_error_only_where_it_counts() {
    let bad = instance_with_state_and_launch("i-1", InstanceState::Stopped, i64::MAX);
    assert!(to_records(&vec![bad], "r", ts(10), &running_state()).unwrap().is_empty());
    let bad = instance_with_state_and_launch("i-1", InstanceState::Running, i64::MAX);
    let err = to_records(&vec![bad], "r", ts(10), &running_state()).unwrap_err();
    assert!(matches!(err, Error::InvalidTimestamp(_)));
    let mut root = instance_with_state_and_launch("i-1", InstanceState::Running, 5);
    root.root_device_name = Some("a".into());
    root.mappings =
        vec![DeviceMapping { device_name: Some("a".into()), attach_time: Some(at(i64::MIN)) }];
    assert!(to_records(&vec![root], "r", ts(10), &running_state()).is_err());
}

#[test]
fn a_terminated_instance_is_not_found() {
    let instances = vec![
        instance_with_state_and_launch("i-gone", InstanceState::Terminated, 900),
        instance_with_state_and_launch("i-off", InstanceState::Stopped, 900),
    ];
    let records = to_records(&instances, "us-east-1", ts(1000), &all_states()).unwrap();
    assert_eq!(find_record(&records, "i-off"), Some(0));
    assert_eq!(find_record(&records, "i-gone"), None);
    let regions = vec!["us-east-1".to_string(), "us-west-2".to_string()];
    let err = not_found("i-gone", &regions);
    assert!(matches!(
        &err,
        Error::InstanceNotFound { id, region } if id == "i-gone" && region == "us-east-1, us-west-2"
    ));
    assert_eq!(err.message(), "instance 'i-gone' not found in region 'us-east-1, us-west-2'");
}
