use gasleak::config::SlackConfig;
use gasleak::error::Error;
use gasleak::slack::{check_reply, post_exit_code, MentionThreshold, SlackRuntimeConfig};
use gasleak::staleness::Severity;

#[test]
fn mention_threshold_default_is_high_when_unset() {
    assert_eq!(MentionThreshold::parse(None).unwrap(), MentionThreshold::High);
}

#[test]
fn mention_threshold_parses_each_valid_variant_case_insensitive() {
    assert_eq!(MentionThreshold::parse(Some("low")).unwrap(), MentionThreshold::Low);
    assert_eq!(MentionThreshold::parse(Some("MEDIUM")).unwrap(), MentionThreshold::Medium);
    assert_eq!(MentionThreshold::parse(Some("High")).unwrap(), MentionThreshold::High);
    assert_eq!(MentionThreshold::parse(Some("Never")).unwrap(), MentionThreshold::Never);
}

#[test]
fn mention_threshold_rejects_typos_with_listed_options() {
    let err = MentionThreshold::parse(Some("hihg")).unwrap_err();
    let msg = err.message();
    assert!(msg.contains("mention_owner_at_severity"));
    assert!(msg.contains("low, medium, high, never"));
}

#[test]
fn mention_threshold_quotes_the_typo() {
    let err = MentionThreshold::parse(Some("Hi\"gh")).unwrap_err();
    assert_eq!(
        err.message(),
        "invalid Slack config: mention_owner_at_severity = \"hi\\\"gh\"; expected one of: low, medium, high, never"
    );
}

#[test]
fn should_mention_obeys_threshold_rank() {
    let (low, medium, high, never) = (
        MentionThreshold::Low,
        MentionThreshold::Medium,
        MentionThreshold::High,
        MentionThreshold::Never,
    );
    assert!(high.should_mention(Severity::High));
    assert!(!high.should_mention(Severity::Medium));
    assert!(medium.should_mention(Severity::High));
    assert!(medium.should_mention(Severity::Medium));
    assert!(!medium.should_mention(Severity::Low));
    assert!(low.should_mention(Severity::Low));
    assert!(!never.should_mention(Severity::High));
}

#[test]
fn resolve_missing_webhook_returns_typed_error() {
    let file_cfg = SlackConfig::default();
    let err = SlackRuntimeConfig::resolve(&file_cfg, None).unwrap_err();
    assert!(matches!(err, Error::SlackWebhookMissing));
}

#[test]
fn resolve_prefers_file_over_env() {
    let file_cfg = SlackConfig {
        webhook_url: Some("from-file".into()),
        ..Default::default()
    };
    let c = SlackRuntimeConfig::resolve(&file_cfg, Some("from-env".into())).unwrap();
    assert_eq!(c.webhook_url, "from-file");
}

#[test]
fn resolve_falls_back_to_env_when_file_empty() {
    let file_cfg = SlackConfig::default();
    let c = SlackRuntimeConfig::resolve(&file_cfg, Some("from-env".into())).unwrap();
    assert_eq!(c.webhook_url, "from-env");
    assert_eq!(c.max_flagged_rows, 10);
    assert_eq!(c.mention_threshold, MentionThreshold::High);
}

#[test]
fn resolve_reports_a_bad_threshold() {
    let file_cfg = SlackConfig {
        webhook_url: Some("u".into()),
        mention_owner_at_severity: Some("sometimes".into()),
        max_flagged_rows: Some(4),
        report_url: Some("r".into()),
    };
    let err = SlackRuntimeConfig::resolve(&file_cfg, None).unwrap_err();
    assert!(matches!(err, Error::SlackConfigInvalid(_)));
}

#[test]
fn replies_are_accepted_only_with_success_and_ok() {
    assert!(check_reply(200, "200 OK", "ok").is_ok());
    assert!(check_reply(200, "200 OK", "ok\n").is_ok());
    assert_eq!(
        check_reply(200, "200 OK", "invalid_payload").unwrap_err(),
        "Slack webhook rejected payload: 200 OK — invalid_payload"
    );
    let msg = check_reply(400, "400 Bad Request", "invalid_blocks_format: unknown block type").unwrap_err();
    assert!(msg.contains("400"));
    assert!(msg.contains("invalid_blocks_format"));
    assert!(check_reply(300, "300", "ok").is_err());
    assert!(check_reply(199, "199", "ok").is_err());
}

#[test]
fn failed_post_overrides_the_exit_code_only_for_slack_only() {
    assert_eq!(post_exit_code(false, true), Some(3));
    assert_eq!(post_exit_code(false, false), None);
    assert_eq!(post_exit_code(true, true), None);
    assert_eq!(post_exit_code(true, false), None);
}
