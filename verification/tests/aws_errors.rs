use gasleak::aws::errors::{
    error_chain_text, is_expired_credentials_error, is_missing_or_invalid_credentials_error,
    map_aws_operation_error, OperationError,
};
use gasleak::error::Error;

#[test]
fn classifies_expired_credentials_messages() {
    let chain = "service error | unhandled error (RequestExpired) | Request has expired";
    assert!(is_expired_credentials_error(&chain.to_ascii_lowercase()));
}

#[test]
fn classifies_invalid_credentials_messages() {
    let chain = "service error | unhandled error (AuthFailure) | validate access credentials";
    assert!(is_missing_or_invalid_credentials_error(&chain.to_ascii_lowercase()));
}

#[test]
fn does_not_misclassify_unrelated_messages() {
    let chain = "throttling: rate exceeded";
    assert!(!is_expired_credentials_error(chain));
    assert!(!is_missing_or_invalid_credentials_error(chain));
}

fn aws(causes: &[&str]) -> Error {
    Error::aws("ec2:DescribeInstances", causes.iter().map(|s| s.to_string()).collect())
}

#[test]
fn expired_credentials_become_a_remedy() {
    let e = aws(&["service error", "ExpiredToken: The security token is expired"]);
    match map_aws_operation_error(e, "list EC2 instances") {
        OperationError::Remedy(m) => {
            assert!(m.starts_with(
                "AWS credentials appear to be expired while trying to list EC2 instances.\n\nHow to fix:\n1. "
            ));
            assert!(m.ends_with("(clock skew can trigger RequestExpired)."));
        }
        other => panic!("{other:?}"),
    }
}

#[test]
fn invalid_credentials_become_a_remedy() {
    let e = aws(&["dispatch failure", "Unable to locate credentials"]);
    match map_aws_operation_error(e, "list AWS regions") {
        OperationError::Remedy(m) => {
            assert!(m.starts_with(
                "AWS credentials are missing or invalid while trying to list AWS regions.\n\nHow to authenticate correctly:\n1. "
            ));
            assert!(m.ends_with("4. Verify access: `aws sts get-caller-identity --profile <profile>`"));
        }
        other => panic!("{other:?}"),
    }
}

#[test]
fn other_errors_pass_through_with_context() {
    let e = aws(&["throttling"]);
    match map_aws_operation_error(e, "list EC2 instances") {
        OperationError::Failed { context, error } => {
            assert_eq!(context, "failed to list EC2 instances");
            assert_eq!(error.message(), "ec2:DescribeInstances: throttling");
        }
        other => panic!("{other:?}"),
    }
}

#[test]
fn chain_text_skips_separators_before_the_first_message() {
    let list: Vec<String> = vec!["".into(), "a".into(), "b".into()];
    assert_eq!(error_chain_text(&list), "a | b");
    assert_eq!(error_chain_text(&Vec::new()), "");
}
