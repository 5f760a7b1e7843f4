use gasleak::contract::ContractView;
use gasleak::tags::Tags;
use gasleak::timestamp::{date_part, format_date, Timestamp};

fn tags(pairs: &[(&str, &str)]) -> Tags {
    let list: Vec<(String, String)> = pairs
        .iter()
        .map(|(k, v)| ((*k).to_string(), (*v).to_string()))
        .collect();
    Tags::from_pairs(&list)
}

#[test]
fn managed_by_gasleak_is_version_agnostic() {
    let c = ContractView::from_tags(&tags(&[("ManagedBy", "gasleak/0.1.0")]));
    assert!(c.managed_by_gasleak);
    let c2 = ContractView::from_tags(&tags(&[("ManagedBy", "gasleak/99.42.1")]));
    assert!(c2.managed_by_gasleak);
    let c3 = ContractView::from_tags(&tags(&[("ManagedBy", "terraform")]));
    assert!(!c3.managed_by_gasleak);
    let c4 = ContractView::from_tags(&tags(&[]));
    assert!(!c4.managed_by_gasleak);
}

#[test]
fn parses_expires_at() {
    let c = ContractView::from_tags(&tags(&[("ExpiresAt", "2026-05-01T00:00:00Z")]));
    assert!(c.expires_at.is_some());

    let c_bad = ContractView::from_tags(&tags(&[("ExpiresAt", "tomorrow")]));
    assert!(c_bad.expires_at.is_none());
}

#[test]
fn parses_owner_fields() {
    let c = ContractView::from_tags(&tags(&[
        ("Owner", "arn:aws:iam::123:user/tsvetan"),
        ("OwnerSlack", "@tsvetan"),
    ]));
    assert_eq!(c.owner.as_deref(), Some("arn:aws:iam::123:user/tsvetan"));
    assert_eq!(c.owner_slack.as_deref(), Some("@tsvetan"));
}

#[test]
fn expiry_is_the_instant_in_the_tag() {
    let c = ContractView::from_tags(&tags(&[("ExpiresAt", "1970-01-02T00:00:01.5Z")]));
    let t = c.expires_at.unwrap();
    assert_eq!((t.as_second(), t.subsec_nanosecond()), (86_401, 500_000_000));
}

#[test]
fn instants_have_text_and_date() {
    let t = Timestamp::new(1_700_000_000, 0).unwrap();
    assert_eq!(t.to_text(), "2023-11-14T22:13:20Z");
    assert_eq!(format_date(t), "2023-11-14");
    assert_eq!(Timestamp::parse(&t.to_text()), Some(t));
}

#[test]
fn instants_are_balanced_and_bounded() {
    let t = Timestamp::new(2, -1).unwrap();
    assert_eq!((t.as_second(), t.subsec_nanosecond()), (1, 999_999_999));
    let t = Timestamp::new(-2, 1).unwrap();
    assert_eq!((t.as_second(), t.subsec_nanosecond()), (-1, -999_999_999));
    assert!(Timestamp::new(253402207200, 999_999_999).is_ok());
    assert!(Timestamp::new(253402207201, 0).is_err());
    assert!(Timestamp::new(-377705023201, 0).is_ok());
    assert!(Timestamp::new(-377705023201, -1).is_err());
    assert!(Timestamp::new(-377705023202, 0).is_err());
    assert!(Timestamp::new(0, 1_000_000_000).is_err());
    assert!(!Timestamp::new(0, i32::MIN).unwrap_err().is_empty());
}

#[test]
fn date_part_is_ten_bytes_or_everything() {
    assert_eq!(date_part("2026-04-22T00:00:00Z"), "2026-04-22");
    assert_eq!(date_part("short"), "short");
    assert_eq!(date_part("1234567890"), "1234567890");
    assert_eq!(date_part("123456789é!"), "123456789é!");
    assert_eq!(date_part("12345678é!"), "12345678é");
    assert_eq!(date_part("123456…89"), "123456…8");
}

#[test]
fn nothing_is_read_before_the_earliest_instant() {
    let parts = |text: &str| {
        Timestamp::parse(text).map(|t| (t.as_second(), t.subsec_nanosecond()))
    };
    let earliest = -377705023201;
    assert_eq!(parts("-009999-01-02T01:59:59Z"), Some((earliest, 0)));
    assert_eq!(parts("-009999-01-02T01:59:59.5Z"), Some((earliest + 1, -500_000_000)));
    assert_eq!(parts("-009999-01-02T01:59:58Z"), None);
    for text in [
        "-009999-01-02T01:59:58.5Z",
        "-009999-01-02T01:59:58,999999999Z",
        "-0099990102T015958.5Z",
        "-009999-01-02 01:59:58.5+00:00",
        "-009999-01-02T02:59:58.5+01:00[UTC]",
        "-009999-01-02T02:59:59.5+01:00:00.9",
        "-009999-01-02T01:59:58.5.5Z",
        "-009999-01-02T01:59:58.Z",
    ] {
        assert_eq!(parts(text), None, "{text}");
        let c = ContractView::from_tags(&tags(&[("ExpiresAt", text)]));
        assert!(c.expires_at.is_none());
    }
    // The rest of the earliest year is read as ever.
    assert_eq!(parts("-009999-01-01T00:00:00.5-25:59:59"), Some((earliest + 1, -500_000_000)));
    for text in ["-009999-01-02T02:00:00.25Z", "-009999-06-01T00:00:00.000000001Z", "-009998-01-01T00:00:00.5Z"] {
        let t = Timestamp::parse(text).unwrap();
        let outside: jiff::Timestamp = text.parse().unwrap();
        assert_eq!(t.as_second(), outside.as_second());
        assert_eq!(t.subsec_nanosecond(), outside.subsec_nanosecond());
        assert_eq!(t.to_text(), outside.to_string());
    }
}
