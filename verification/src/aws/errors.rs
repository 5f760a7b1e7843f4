//! User-facing classification of AWS SDK errors.
//!
//! The AWS SDK surfaces transport errors, signing errors, service protocol
//! errors, and credential-resolution errors through one tree. The messages of
//! an error and its causes are taken as a single lowercased text and matched
//! against a short list of well-known substrings, which come from the AWS SDK
//! and STS error codes.
//!
//! When a known pattern matches, the error becomes an actionable remediation
//! message (how to re-auth). Everything else is passed through with a hint
//! naming the failed operation.

use vstd::prelude::*;

use crate::error::Error;
use crate::text::{contains, lower, lowercase, occurs_in, slices, strings};

verus! {

/// Substrings that indicate the caller's credentials have expired.
pub open spec fn expired_credentials_markers() -> Seq<Seq<char>> {
    seq!["requestexpired"@, "request has expired"@, "expiredtoken"@, "token is expired"@]
}

/// Substrings that indicate the caller has no usable credentials (missing,
/// malformed, or rejected by AWS).
pub open spec fn missing_or_invalid_credentials_markers() -> Seq<Seq<char>> {
    seq![
        "authfailure"@,
        "invalidclienttokenid"@,
        "unrecognizedclient"@,
        "unable to locate credentials"@,
        "no valid credential sources"@,
        "could not load credentials"@,
        "aws was not able to validate the provided access credentials"@,
    ]
}

/// Whether some marker occurs in the text.
pub open spec fn marked(chain: Seq<char>, markers: Seq<Seq<char>>) -> bool {
    exists|i: int| 0 <= i < markers.len() && occurs_in(chain, #[trigger] markers[i])
}

/// Whether some marker occurs in the text.
fn any_marker(chain: &str, markers: &Vec<&'static str>) -> (r: bool)
    ensures
        r == marked(chain@, slices(markers@)),
{
    let n: usize = markers.len();
    let mut i: usize = 0;
    let ghost all = slices(markers@);
    while i < n
        invariant
            n == markers@.len(),
            i <= n,
            all == slices(markers@),
            forall|j: int| 0 <= j < i ==> !occurs_in(chain@, #[trigger] all[j]),
        decreases n - i,
    {
        assert(all[i as int] == markers@[i as int]@);
        if contains(chain, markers[i]) {
            return true;
        }
        i += 1;
    }
    false
}

pub fn is_expired_credentials_error(chain: &str) -> (r: bool)
    ensures
        r == marked(chain@, expired_credentials_markers()),
{
    let mut markers: Vec<&'static str> = Vec::new();
    markers.push("requestexpired");
    markers.push("request has expired");
    markers.push("expiredtoken");
    markers.push("token is expired");
    assert(slices(markers@) =~= expired_credentials_markers());
    any_marker(chain, &markers)
}

pub fn is_missing_or_invalid_credentials_error(chain: &str) -> (r: bool)
    ensures
        r == marked(chain@, missing_or_invalid_credentials_markers()),
{
    let mut markers: Vec<&'static str> = Vec::new();
    markers.push("authfailure");
    markers.push("invalidclienttokenid");
    markers.push("unrecognizedclient");
    markers.push("unable to locate credentials");
    markers.push("no valid credential sources");
    markers.push("could not load credentials");
    markers.push("aws was not able to validate the provided access credentials");
    assert(slices(markers@) =~= missing_or_invalid_credentials_markers());
    any_marker(chain, &markers)
}

/// The messages of an error and its causes as one text. Before the first
/// message that is not empty nothing is set apart.
pub open spec fn chain_text(messages: Seq<Seq<char>>) -> Seq<char>
    decreases messages.len(),
{
    if messages.len() == 0 {
        Seq::empty()
    } else {
        let front = chain_text(messages.drop_last());
        if front.len() == 0 {
            messages.last()
        } else {
            front + " | "@ + messages.last()
        }
    }
}

/// The messages of an error and its causes as one text.
pub fn error_chain_text(messages: &Vec<String>) -> (r: String)
    ensures
        r@ == chain_text(strings(messages@)),
{
    let n: usize = messages.len();
    let mut out: String = String::new();
    let mut i: usize = 0;
    let ghost all = strings(messages@);
    while i < n
        invariant
            n == messages@.len(),
            i <= n,
            all == strings(messages@),
            out@ == chain_text(all.take(i as int)),
        decreases n - i,
    {
        proof {
            assert(all.take(i + 1).drop_last() =~= all.take(i as int));
            assert(all.take(i + 1).last() == messages@[i as int]@);
        }
        if out.as_str().unicode_len() > 0 {
            out.append(" | ");
            out.append(messages[i].as_str());
        } else {
            out = messages[i].clone();
        }
        i += 1;
    }
    assert(all.take(n as int) =~= all);
    out
}

/// How expired credentials are renewed.
pub open spec fn expired_remedy(operation: Seq<char>) -> Seq<char> {
    "AWS credentials appear to be expired while trying to "@ + operation
        + ".\n\nHow to fix:\n1. Re-authenticate your profile (SSO): `aws sso login --profile <profile>`\n2. Or refresh static credentials: `aws configure --profile <profile>`\n3. Verify identity: `aws sts get-caller-identity --profile <profile>`\n4. If this persists, confirm your system clock is correct (clock skew can trigger RequestExpired)."@
}

/// How credentials are set up.
pub open spec fn missing_remedy(operation: Seq<char>) -> Seq<char> {
    "AWS credentials are missing or invalid while trying to "@ + operation
        + ".\n\nHow to authenticate correctly:\n1. Choose a profile and export it: `export AWS_PROFILE=<profile>`\n2. Authenticate with SSO: `aws sso login --profile <profile>`\n3. Or configure access keys: `aws configure --profile <profile>`\n4. Verify access: `aws sts get-caller-identity --profile <profile>`"@
}

/// What the user is told about a failed operation.
#[derive(Debug)]
pub enum OperationError {
    /// How to repair the credentials, in place of the error.
    Remedy(String),
    /// What failed, with the error.
    Failed { context: String, error: Error },
}

/// Whether this is what the user is told about an error.
pub open spec fn explains(r: OperationError, err: Error, operation: Seq<char>) -> bool {
    let chain = lower(chain_text(seq![err.shown()] + err.cause_texts()));
    if marked(chain, expired_credentials_markers()) {
        r matches OperationError::Remedy(m) && m@ == expired_remedy(operation)
    } else if marked(chain, missing_or_invalid_credentials_markers()) {
        r matches OperationError::Remedy(m) && m@ == missing_remedy(operation)
    } else {
        r matches OperationError::Failed { context, error } && context@ == "failed to "@ + operation
            && error == err
    }
}

/// Rewrite an AWS SDK error into a user-facing remediation message when it is
/// recognized as a credential-shaped failure. Otherwise wrap it with operation
/// context and pass it through unchanged.
pub fn map_aws_operation_error(err: Error, operation: &str) -> (r: OperationError)
    ensures
        explains(r, err, operation@),
{
    let text: String = error_chain_text(&err.chain());
    let chain: String = lowercase(text.as_str());
    if is_expired_credentials_error(chain.as_str()) {
        return OperationError::Remedy(
            "AWS credentials appear to be expired while trying to ".to_string().concat(
                operation,
            ).concat(
                ".\n\nHow to fix:\n1. Re-authenticate your profile (SSO): `aws sso login --profile <profile>`\n2. Or refresh static credentials: `aws configure --profile <profile>`\n3. Verify identity: `aws sts get-caller-identity --profile <profile>`\n4. If this persists, confirm your system clock is correct (clock skew can trigger RequestExpired).",
            ),
        );
    }
    if is_missing_or_invalid_credentials_error(chain.as_str()) {
        return OperationError::Remedy(
            "AWS credentials are missing or invalid while trying to ".to_string().concat(
                operation,
            ).concat(
                ".\n\nHow to authenticate correctly:\n1. Choose a profile and export it: `export AWS_PROFILE=<profile>`\n2. Authenticate with SSO: `aws sso login --profile <profile>`\n3. Or configure access keys: `aws configure --profile <profile>`\n4. Verify access: `aws sts get-caller-identity --profile <profile>`",
            ),
        );
    }
    OperationError::Failed { context: "failed to ".to_string().concat(operation), error: err }
}

} // verus!
